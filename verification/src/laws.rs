//! The grammar's guarantees, stated once and proved for every atom:
//! how precedence, associativity, unary chaining, and implicit
//! multiplication group a parse.

use vstd::prelude::*;

use crate::lexicon::{
    is_digit, token_safe, tokens_safe, AtomView, ErrorView, Operation, Paren, TokenView, Unary,
};
use crate::expression::{spec_display, spec_parse, spec_parse_expr, spec_parse_loop, ExprView};
use crate::lexer::lemma_spec_tokens_safe;

verus! {

/// With no tokens left, the parse loop returns its left-hand side.
pub proof fn lemma_parse_loop_end(lhs: ExprView, bp: u32)
    ensures
        spec_parse_loop(Seq::empty(), lhs, bp) == Ok::<(ExprView, Seq<TokenView>), ErrorView>(
            (lhs, Seq::empty()),
        ),
{
}

/// An atom alone parses to itself, whatever the minimum binding power.
pub proof fn lemma_parse_atom(a: AtomView, bp: u32)
    ensures
        spec_parse(seq![TokenView::Atom(a)], bp) == Ok::<(ExprView, Seq<TokenView>), ErrorView>(
            (ExprView::Atom(a), Seq::empty()),
        ),
{
    let ts = seq![TokenView::Atom(a)];
    assert(ts.drop_first() =~= Seq::<TokenView>::empty());
    lemma_parse_loop_end(ExprView::Atom(a), bp);
}

/// Any two atoms joined by any binary operator parse to that one
/// operation applied to them, in order; the root operator `a \u{221a} b`
/// is one instance.
pub proof fn lemma_parse_binary(a: AtomView, op: Operation, b: AtomView)
    ensures
        spec_parse(seq![TokenView::Atom(a), TokenView::Op(op), TokenView::Atom(b)], 0) == Ok::<
            (ExprView, Seq<TokenView>),
            ErrorView,
        >(
            (
                ExprView::Operation {
                    op,
                    left: Box::new(ExprView::Atom(a)),
                    right: Box::new(ExprView::Atom(b)),
                },
                Seq::empty(),
            ),
        ),
{
    let ts = seq![TokenView::Atom(a), TokenView::Op(op), TokenView::Atom(b)];
    let ts1 = seq![TokenView::Op(op), TokenView::Atom(b)];
    let ts2 = seq![TokenView::Atom(b)];
    assert(ts.drop_first() =~= ts1);
    assert(ts1.drop_first() =~= ts2);
    let combined = ExprView::Operation {
        op,
        left: Box::new(ExprView::Atom(a)),
        right: Box::new(ExprView::Atom(b)),
    };
    lemma_parse_atom(b, crate::lexicon::spec_infix_bp(op).1);
    lemma_parse_loop_end(combined, 0);
    assert(spec_parse_loop(ts1, ExprView::Atom(a), 0) == Ok::<
        (ExprView, Seq<TokenView>),
        ErrorView,
    >((combined, Seq::empty())));
}

/// Multiplication binds tighter than addition: `a + b * c` parses with
/// the product nested inside the sum.
pub proof fn lemma_mul_binds_tighter_than_add(a: AtomView, b: AtomView, c: AtomView)
    ensures
        spec_parse(
            seq![
                TokenView::Atom(a),
                TokenView::Op(Operation::Add),
                TokenView::Atom(b),
                TokenView::Op(Operation::Multiply),
                TokenView::Atom(c),
            ],
            0,
        ) == Ok::<(ExprView, Seq<TokenView>), ErrorView>(
            (
                ExprView::Operation {
                    op: Operation::Add,
                    left: Box::new(ExprView::Atom(a)),
                    right: Box::new(
                        ExprView::Operation {
                            op: Operation::Multiply,
                            left: Box::new(ExprView::Atom(b)),
                            right: Box::new(ExprView::Atom(c)),
                        },
                    ),
                },
                Seq::empty(),
            ),
        ),
{
    let ts = seq![
        TokenView::Atom(a),
        TokenView::Op(Operation::Add),
        TokenView::Atom(b),
        TokenView::Op(Operation::Multiply),
        TokenView::Atom(c),
    ];
    let ts1 = seq![
        TokenView::Op(Operation::Add),
        TokenView::Atom(b),
        TokenView::Op(Operation::Multiply),
        TokenView::Atom(c),
    ];
    let ts2 = seq![TokenView::Atom(b), TokenView::Op(Operation::Multiply), TokenView::Atom(c)];
    let ts3 = seq![TokenView::Op(Operation::Multiply), TokenView::Atom(c)];
    let ts4 = seq![TokenView::Atom(c)];
    assert(ts.drop_first() =~= ts1);
    assert(ts1.drop_first() =~= ts2);
    assert(ts2.drop_first() =~= ts3);
    assert(ts3.drop_first() =~= ts4);
    let prod = ExprView::Operation {
        op: Operation::Multiply,
        left: Box::new(ExprView::Atom(b)),
        right: Box::new(ExprView::Atom(c)),
    };
    let sum = ExprView::Operation {
        op: Operation::Add,
        left: Box::new(ExprView::Atom(a)),
        right: Box::new(prod),
    };
    lemma_parse_atom(c, 21);
    lemma_parse_loop_end(prod, 11);
    assert(spec_parse_loop(ts3, ExprView::Atom(b), 11) == Ok::<
        (ExprView, Seq<TokenView>),
        ErrorView,
    >((prod, Seq::empty())));
    assert(spec_parse(ts2, 11) == Ok::<(ExprView, Seq<TokenView>), ErrorView>(
        (prod, Seq::empty()),
    ));
    lemma_parse_loop_end(sum, 0);
    assert(spec_parse_loop(ts1, ExprView::Atom(a), 0) == Ok::<
        (ExprView, Seq<TokenView>),
        ErrorView,
    >((sum, Seq::empty())));
}

/// Exponentiation chains to the right: `a ^ b ^ c` parses as
/// `a ^ (b ^ c)`.
pub proof fn lemma_pow_right_assoc(a: AtomView, b: AtomView, c: AtomView)
    ensures
        spec_parse(
            seq![
                TokenView::Atom(a),
                TokenView::Op(Operation::Pow),
                TokenView::Atom(b),
                TokenView::Op(Operation::Pow),
                TokenView::Atom(c),
            ],
            0,
        ) == Ok::<(ExprView, Seq<TokenView>), ErrorView>(
            (
                ExprView::Operation {
                    op: Operation::Pow,
                    left: Box::new(ExprView::Atom(a)),
                    right: Box::new(
                        ExprView::Operation {
                            op: Operation::Pow,
                            left: Box::new(ExprView::Atom(b)),
                            right: Box::new(ExprView::Atom(c)),
                        },
                    ),
                },
                Seq::empty(),
            ),
        ),
{
    let ts = seq![
        TokenView::Atom(a),
        TokenView::Op(Operation::Pow),
        TokenView::Atom(b),
        TokenView::Op(Operation::Pow),
        TokenView::Atom(c),
    ];
    let ts1 = seq![
        TokenView::Op(Operation::Pow),
        TokenView::Atom(b),
        TokenView::Op(Operation::Pow),
        TokenView::Atom(c),
    ];
    let ts2 = seq![TokenView::Atom(b), TokenView::Op(Operation::Pow), TokenView::Atom(c)];
    let ts3 = seq![TokenView::Op(Operation::Pow), TokenView::Atom(c)];
    let ts4 = seq![TokenView::Atom(c)];
    assert(ts.drop_first() =~= ts1);
    assert(ts1.drop_first() =~= ts2);
    assert(ts2.drop_first() =~= ts3);
    assert(ts3.drop_first() =~= ts4);
    let bc = ExprView::Operation {
        op: Operation::Pow,
        left: Box::new(ExprView::Atom(b)),
        right: Box::new(ExprView::Atom(c)),
    };
    let a_bc = ExprView::Operation {
        op: Operation::Pow,
        left: Box::new(ExprView::Atom(a)),
        right: Box::new(bc),
    };
    lemma_parse_atom(c, 30);
    lemma_parse_loop_end(bc, 30);
    assert(spec_parse_loop(ts3, ExprView::Atom(b), 30) == Ok::<
        (ExprView, Seq<TokenView>),
        ErrorView,
    >((bc, Seq::empty())));
    assert(spec_parse(ts2, 30) == Ok::<(ExprView, Seq<TokenView>), ErrorView>((bc, Seq::empty())));
    lemma_parse_loop_end(a_bc, 0);
    assert(spec_parse_loop(ts1, ExprView::Atom(a), 0) == Ok::<
        (ExprView, Seq<TokenView>),
        ErrorView,
    >((a_bc, Seq::empty())));
}

/// Multiplication chains to the left: `a * b * c` parses as
/// `(a * b) * c`.
pub proof fn lemma_mul_left_assoc(a: AtomView, b: AtomView, c: AtomView)
    ensures
        spec_parse(
            seq![
                TokenView::Atom(a),
                TokenView::Op(Operation::Multiply),
                TokenView::Atom(b),
                TokenView::Op(Operation::Multiply),
                TokenView::Atom(c),
            ],
            0,
        ) == Ok::<(ExprView, Seq<TokenView>), ErrorView>(
            (
                ExprView::Operation {
                    op: Operation::Multiply,
                    left: Box::new(
                        ExprView::Operation {
                            op: Operation::Multiply,
                            left: Box::new(ExprView::Atom(a)),
                            right: Box::new(ExprView::Atom(b)),
                        },
                    ),
                    right: Box::new(ExprView::Atom(c)),
                },
                Seq::empty(),
            ),
        ),
{
    let ts = seq![
        TokenView::Atom(a),
        TokenView::Op(Operation::Multiply),
        TokenView::Atom(b),
        TokenView::Op(Operation::Multiply),
        TokenView::Atom(c),
    ];
    let ts1 = seq![
        TokenView::Op(Operation::Multiply),
        TokenView::Atom(b),
        TokenView::Op(Operation::Multiply),
        TokenView::Atom(c),
    ];
    let ts2 = seq![TokenView::Atom(b), TokenView::Op(Operation::Multiply), TokenView::Atom(c)];
    let ts3 = seq![TokenView::Op(Operation::Multiply), TokenView::Atom(c)];
    let ts4 = seq![TokenView::Atom(c)];
    assert(ts.drop_first() =~= ts1);
    assert(ts1.drop_first() =~= ts2);
    assert(ts2.drop_first() =~= ts3);
    assert(ts3.drop_first() =~= ts4);
    let ab = ExprView::Operation {
        op: Operation::Multiply,
        left: Box::new(ExprView::Atom(a)),
        right: Box::new(ExprView::Atom(b)),
    };
    let abc = ExprView::Operation {
        op: Operation::Multiply,
        left: Box::new(ab),
        right: Box::new(ExprView::Atom(c)),
    };
    // `b`, parsed as the right operand of the first `*`, does not
    // swallow the second `*`: equal precedence defers to the left
    assert(spec_parse_loop(ts3, ExprView::Atom(b), 21) == Ok::<
        (ExprView, Seq<TokenView>),
        ErrorView,
    >((ExprView::Atom(b), ts3)));
    assert(spec_parse(ts2, 21) == Ok::<(ExprView, Seq<TokenView>), ErrorView>(
        (ExprView::Atom(b), ts3),
    ));
    lemma_parse_atom(c, 21);
    lemma_parse_loop_end(abc, 0);
    assert(spec_parse_loop(ts3, ab, 0) == Ok::<(ExprView, Seq<TokenView>), ErrorView>(
        (abc, Seq::empty()),
    ));
    assert(spec_parse_loop(ts1, ExprView::Atom(a), 0) == Ok::<
        (ExprView, Seq<TokenView>),
        ErrorView,
    >((abc, Seq::empty())));
}

/// Unary signs chain and bind tighter than any binary operator:
/// `- - a * b` parses as `(-(-a)) * b`, a double negation multiplied,
/// never the negation of a product.
pub proof fn lemma_unary_chains_before_binary(a: AtomView, b: AtomView)
    ensures
        spec_parse(
            seq![
                TokenView::Op(Operation::Subtract),
                TokenView::Op(Operation::Subtract),
                TokenView::Atom(a),
                TokenView::Op(Operation::Multiply),
                TokenView::Atom(b),
            ],
            0,
        ) == Ok::<(ExprView, Seq<TokenView>), ErrorView>(
            (
                ExprView::Operation {
                    op: Operation::Multiply,
                    left: Box::new(
                        ExprView::Unary {
                            op: Unary::Negate,
                            expr: Box::new(
                                ExprView::Unary {
                                    op: Unary::Negate,
                                    expr: Box::new(ExprView::Atom(a)),
                                },
                            ),
                        },
                    ),
                    right: Box::new(ExprView::Atom(b)),
                },
                Seq::empty(),
            ),
        ),
{
    let ts = seq![
        TokenView::Op(Operation::Subtract),
        TokenView::Op(Operation::Subtract),
        TokenView::Atom(a),
        TokenView::Op(Operation::Multiply),
        TokenView::Atom(b),
    ];
    let ts1 = seq![
        TokenView::Op(Operation::Subtract),
        TokenView::Atom(a),
        TokenView::Op(Operation::Multiply),
        TokenView::Atom(b),
    ];
    let ts2 = seq![TokenView::Atom(a), TokenView::Op(Operation::Multiply), TokenView::Atom(b)];
    let ts3 = seq![TokenView::Op(Operation::Multiply), TokenView::Atom(b)];
    let ts4 = seq![TokenView::Atom(b)];
    assert(ts.drop_first() =~= ts1);
    assert(ts1.drop_first() =~= ts2);
    assert(ts2.drop_first() =~= ts3);
    assert(ts3.drop_first() =~= ts4);
    let neg_a = ExprView::Unary { op: Unary::Negate, expr: Box::new(ExprView::Atom(a)) };
    let neg_neg_a = ExprView::Unary { op: Unary::Negate, expr: Box::new(neg_a) };
    let product = ExprView::Operation {
        op: Operation::Multiply,
        left: Box::new(neg_neg_a),
        right: Box::new(ExprView::Atom(b)),
    };
    // the atom, parsed at the prefix power, leaves the multiplication
    // for an enclosing call
    assert(spec_parse_loop(ts3, ExprView::Atom(a), 50) == Ok::<
        (ExprView, Seq<TokenView>),
        ErrorView,
    >((ExprView::Atom(a), ts3)));
    assert(spec_parse(ts2, 50) == Ok::<(ExprView, Seq<TokenView>), ErrorView>(
        (ExprView::Atom(a), ts3),
    ));
    // the inner sign wraps it, still deferring the multiplication
    assert(spec_parse_loop(ts3, neg_a, 50) == Ok::<(ExprView, Seq<TokenView>), ErrorView>(
        (neg_a, ts3),
    ));
    assert(spec_parse(ts1, 50) == Ok::<(ExprView, Seq<TokenView>), ErrorView>((neg_a, ts3)));
    // the outer sign wraps again; at the top the multiplication is
    // finally consumed
    lemma_parse_atom(b, 21);
    lemma_parse_loop_end(product, 0);
    assert(spec_parse_loop(ts3, neg_neg_a, 0) == Ok::<(ExprView, Seq<TokenView>), ErrorView>(
        (product, Seq::empty()),
    ));
}

/// Two adjacent atoms multiply implicitly: `a b` parses as `a * b`
/// with no operator token between them.
pub proof fn lemma_implicit_multiplication(a: AtomView, b: AtomView)
    ensures
        spec_parse(seq![TokenView::Atom(a), TokenView::Atom(b)], 0) == Ok::<
            (ExprView, Seq<TokenView>),
            ErrorView,
        >(
            (
                ExprView::Operation {
                    op: Operation::Multiply,
                    left: Box::new(ExprView::Atom(a)),
                    right: Box::new(ExprView::Atom(b)),
                },
                Seq::empty(),
            ),
        ),
{
    let ts = seq![TokenView::Atom(a), TokenView::Atom(b)];
    let ts1 = seq![TokenView::Atom(b)];
    assert(ts.drop_first() =~= ts1);
    let ab = ExprView::Operation {
        op: Operation::Multiply,
        left: Box::new(ExprView::Atom(a)),
        right: Box::new(ExprView::Atom(b)),
    };
    lemma_parse_atom(b, 21);
    lemma_parse_loop_end(ab, 0);
    assert(spec_parse_loop(ts1, ExprView::Atom(a), 0) == Ok::<
        (ExprView, Seq<TokenView>),
        ErrorView,
    >((ab, Seq::empty())));
}


/// A tree whose leaves look the way the tokenizer makes them: number
/// literals start with a digit and hold only digits and dots, and a
/// variable's character is neither a digit nor a space. Every tree a
/// parse returns is of this shape.
pub open spec fn display_safe(e: ExprView) -> bool
    decreases e,
{
    match e {
        ExprView::Atom(crate::lexicon::AtomView::Number(lex)) => lex.len() > 0 && is_digit(lex[0])
            && (forall|i: int| 0 <= i < lex.len() ==> is_digit(lex[i]) || lex[i] == '.'),
        ExprView::Atom(crate::lexicon::AtomView::Var(c)) => !is_digit(c) && c != ' ',
        ExprView::Operation { left, right, .. } => display_safe(*left) && display_safe(*right),
        ExprView::Unary { expr, .. } => display_safe(*expr),
    }
}

/// What may follow a rendered subexpression inside a larger rendering:
/// nothing, or a space, or a closing parenthesis.
pub open spec fn display_boundary(r: Seq<char>) -> bool {
    r.len() == 0 || r[0] == ' ' || r[0] == ')'
}

/// A safe rendering is never empty, and its first character betrays
/// the node: a digit for a number, the character itself for a
/// variable, an opening parenthesis for anything compound.
pub proof fn lemma_display_first(e: ExprView)
    requires
        display_safe(e),
    ensures
        spec_display(e).len() > 0,
        match e {
            ExprView::Atom(crate::lexicon::AtomView::Number(lex)) => is_digit(spec_display(e)[0]),
            ExprView::Atom(crate::lexicon::AtomView::Var(c)) => spec_display(e) == seq![c],
            _ => spec_display(e)[0] == '(',
        },
{
}


/// Two safe trees that render to the same text, each followed by a
/// rest that is empty or starts with a space or a closing parenthesis
/// (as every subexpression inside a rendering is), are the same tree
/// followed by the same rest: within a rendering, the rendered text
/// determines the tree.
#[verifier::rlimit(100)]
#[verifier::spinoff_prover]
pub proof fn lemma_display_prefix_determines(
    e1: ExprView,
    e2: ExprView,
    r1: Seq<char>,
    r2: Seq<char>,
)
    requires
        display_safe(e1),
        display_safe(e2),
        spec_display(e1) + r1 == spec_display(e2) + r2,
        display_boundary(r1),
        display_boundary(r2),
    ensures
        e1 == e2,
        r1 == r2,
    decreases e1,
{
    let d1 = spec_display(e1);
    let d2 = spec_display(e2);
    let full = d1 + r1;
    lemma_display_first(e1);
    lemma_display_first(e2);
    assert(full.len() == d1.len() + r1.len());
    assert(full == d2 + r2);
    match e1 {
        ExprView::Atom(AtomView::Number(lex1)) => {
            assert(full[0] == lex1[0]);
            match e2 {
                ExprView::Atom(AtomView::Number(lex2)) => {
                    assert(full[0] == lex2[0]);
                    // neither literal ends inside the other: the
                    // character right after it would be a digit or a
                    // dot, and no boundary starts with one
                    if lex1.len() < lex2.len() {
                        assert(r1.len() > 0);
                        assert(r1[0] == full[lex1.len() as int]);
                        assert(full[lex1.len() as int] == lex2[lex1.len() as int]);
                        assert(false);
                    }
                    if lex2.len() < lex1.len() {
                        assert(r2.len() > 0);
                        assert(r2[0] == full[lex2.len() as int]);
                        assert(full[lex2.len() as int] == lex1[lex2.len() as int]);
                        assert(false);
                    }
                    assert(d1 == lex1 && d2 == lex2);
                    assert forall|i: int| 0 <= i < lex1.len() implies lex1[i] == lex2[i] by {
                        assert(full[i] == lex1[i]);
                        assert(full[i] == lex2[i]);
                    }
                    assert(lex1 =~= lex2);
                    assert forall|i: int| 0 <= i < r1.len() implies r1[i] == r2[i] by {
                        assert(full[lex1.len() + i] == r1[i]);
                        assert(full[lex2.len() + i] == r2[i]);
                    }
                    assert(r1 =~= r2);
                },
                ExprView::Atom(AtomView::Var(c2)) => {
                    assert(full[0] == c2);
                    assert(false);
                },
                _ => {
                    assert(full[0] == '(');
                    assert(false);
                },
            }
        },
        ExprView::Atom(AtomView::Var(c1)) => {
            assert(full[0] == c1);
            match e2 {
                ExprView::Atom(AtomView::Number(lex2)) => {
                    assert(full[0] == lex2[0]);
                    assert(false);
                },
                ExprView::Atom(AtomView::Var(c2)) => {
                    assert(full[0] == c2);
                    assert(d1 == seq![c1] && d2 == seq![c2]);
                    assert forall|i: int| 0 <= i < r1.len() implies r1[i] == r2[i] by {
                        assert(full[1 + i] == r1[i]);
                        assert(full[1 + i] == r2[i]);
                    }
                    assert(r1 =~= r2);
                },
                ExprView::Operation { op: op2, .. } => {
                    // after the one character of `e1` the rest begins,
                    // on a space or a closing parenthesis; `e2` puts
                    // its operator symbol there
                    assert(r1.len() > 0);
                    assert(r1[0] == full[1]);
                    assert(full[1] == d2[1]);
                    assert(d2[1] == crate::lexicon::spec_op_symbol(op2));
                    assert(false);
                },
                ExprView::Unary { op: op2, .. } => {
                    assert(r1.len() > 0);
                    assert(r1[0] == full[1]);
                    assert(full[1] == d2[1]);
                    assert(d2[1] == crate::lexicon::spec_unary_symbol(op2));
                    assert(false);
                },
            }
        },
        ExprView::Operation { op: op1, left: l1, right: rr1 } => {
            assert(full[0] == '(');
            assert(full[1] == crate::lexicon::spec_op_symbol(op1));
            assert(full[2] == ' ');
            match e2 {
                ExprView::Atom(AtomView::Number(lex2)) => {
                    assert(full[0] == lex2[0]);
                    assert(false);
                },
                ExprView::Atom(AtomView::Var(c2)) => {
                    assert(r2.len() > 0);
                    assert(r2[0] == full[1]);
                    assert(false);
                },
                ExprView::Unary { op: op2, expr: x2 } => {
                    // the third character: a binary rendering has a
                    // space, a unary one starts its operand, which
                    // never starts with a space
                    lemma_display_first(*x2);
                    assert(display_safe(*x2));
                    assert(d2[2] == spec_display(*x2)[0]);
                    let h = spec_display(*x2)[0];
                    match *x2 {
                        ExprView::Atom(AtomView::Number(lex)) => {
                            assert(is_digit(h));
                        },
                        ExprView::Atom(AtomView::Var(c)) => {
                            assert(h == c && c != ' ');
                        },
                        _ => {
                            assert(h == '(');
                        },
                    }
                    assert(h != ' ');
                    assert(full[2] == d2[2]);
                    assert(false);
                },
                ExprView::Operation { op: op2, left: l2, right: rr2 } => {
                    assert(d2[1] == crate::lexicon::spec_op_symbol(op2));
                    assert(op1 == op2);
                    let dl1 = spec_display(*l1);
                    let dr1 = spec_display(*rr1);
                    let dl2 = spec_display(*l2);
                    let dr2 = spec_display(*rr2);
                    let m1 = seq![' '] + dr1 + seq![')'] + r1;
                    let m2 = seq![' '] + dr2 + seq![')'] + r2;
                    assert(dl1 + m1 =~= full.skip(3));
                    assert(dl2 + m2 =~= full.skip(3));
                    lemma_display_prefix_determines(*l1, *l2, m1, m2);
                    assert(l1 == l2);
                    let n1 = seq![')'] + r1;
                    let n2 = seq![')'] + r2;
                    assert(dr1 + n1 =~= m1.drop_first());
                    assert(dr2 + n2 =~= m2.drop_first());
                    lemma_display_prefix_determines(*rr1, *rr2, n1, n2);
                    assert(rr1 == rr2);
                    assert(r1 =~= n1.drop_first());
                    assert(r2 =~= n2.drop_first());
                },
            }
        },
        ExprView::Unary { op: op1, expr: x1 } => {
            assert(full[0] == '(');
            assert(full[1] == crate::lexicon::spec_unary_symbol(op1));
            lemma_display_first(*x1);
            assert(full[2] == spec_display(*x1)[0]);
            match e2 {
                ExprView::Atom(AtomView::Number(lex2)) => {
                    assert(full[0] == lex2[0]);
                    assert(false);
                },
                ExprView::Atom(AtomView::Var(c2)) => {
                    assert(r2.len() > 0);
                    assert(r2[0] == full[1]);
                    assert(false);
                },
                ExprView::Operation { op: op2, .. } => {
                    assert(display_safe(*x1));
                    let h = spec_display(*x1)[0];
                    match *x1 {
                        ExprView::Atom(AtomView::Number(lex)) => {
                            assert(is_digit(h));
                        },
                        ExprView::Atom(AtomView::Var(c)) => {
                            assert(h == c && c != ' ');
                        },
                        _ => {
                            assert(h == '(');
                        },
                    }
                    assert(h != ' ');
                    assert(d2[2] == ' ');
                    assert(full[2] == d2[2]);
                    assert(false);
                },
                ExprView::Unary { op: op2, expr: x2 } => {
                    assert(d2[1] == crate::lexicon::spec_unary_symbol(op2));
                    assert(op1 == op2);
                    let dx1 = spec_display(*x1);
                    let dx2 = spec_display(*x2);
                    let n1 = seq![')'] + r1;
                    let n2 = seq![')'] + r2;
                    assert(dx1 + n1 =~= full.skip(2));
                    assert(dx2 + n2 =~= full.skip(2));
                    lemma_display_prefix_determines(*x1, *x2, n1, n2);
                    assert(x1 == x2);
                    assert(r1 =~= n1.drop_first());
                    assert(r2 =~= n2.drop_first());
                },
            }
        },
    }
}

/// The canonical rendering is one-to-one on safe trees: equal display
/// strings mean equal operator nesting, the structural round trip.
pub proof fn lemma_display_injective(e1: ExprView, e2: ExprView)
    requires
        display_safe(e1),
        display_safe(e2),
        spec_display(e1) == spec_display(e2),
    ensures
        e1 == e2,
{
    assert(spec_display(e1) + Seq::<char>::empty() =~= spec_display(e1));
    assert(spec_display(e2) + Seq::<char>::empty() =~= spec_display(e2));
    lemma_display_prefix_determines(e1, e2, Seq::empty(), Seq::empty());
}


/// Dropping the first token keeps the rest of the tokenizer's shape.
proof fn lemma_tokens_safe_drop_first(ts: Seq<TokenView>)
    requires
        tokens_safe(ts),
        ts.len() > 0,
    ensures
        tokens_safe(ts.drop_first()),
{
    assert forall|i: int| 0 <= i < ts.drop_first().len() implies token_safe(
        #[trigger] ts.drop_first()[i],
    ) by {
        assert(ts.drop_first()[i] == ts[i + 1]);
    }
}

/// A parse of tokens of the tokenizer's shape returns a safe tree and
/// leftover tokens still of that shape.
pub proof fn lemma_parse_display_safe(ts: Seq<TokenView>, min_bp: u32)
    requires
        tokens_safe(ts),
    ensures
        match spec_parse(ts, min_bp) {
            Ok(p) => display_safe(p.0) && tokens_safe(p.1),
            _ => true,
        },
    decreases ts.len(), 0int,
{
    if ts.len() > 0 {
        lemma_tokens_safe_drop_first(ts);
        match ts[0] {
            TokenView::Atom(a) => {
                assert(token_safe(ts[0]));
                lemma_parse_loop_display_safe(ts.drop_first(), ExprView::Atom(a), min_bp);
            },
            TokenView::Paren(Paren::Open) => {
                lemma_parse_display_safe(ts.drop_first(), 0);
                if let Ok((inner, rest)) = spec_parse(ts.drop_first(), 0) {
                    if rest.len() > 0 && rest[0] == TokenView::Paren(Paren::Close) && rest.len()
                        < ts.len() {
                        lemma_tokens_safe_drop_first(rest);
                        lemma_parse_loop_display_safe(rest.drop_first(), inner, min_bp);
                    }
                }
            },
            TokenView::Op(op) => {
                if op == Operation::Add || op == Operation::Subtract {
                    lemma_parse_display_safe(ts.drop_first(), crate::lexicon::spec_prefix_bp(op));
                    if let Ok((operand, rest)) = spec_parse(
                        ts.drop_first(),
                        crate::lexicon::spec_prefix_bp(op),
                    ) {
                        if rest.len() < ts.len() {
                            lemma_parse_loop_display_safe(
                                rest,
                                ExprView::Unary {
                                    op: crate::lexicon::spec_to_unary(op),
                                    expr: Box::new(operand),
                                },
                                min_bp,
                            );
                        }
                    }
                }
            },
            TokenView::Paren(Paren::Close) => {},
        }
    }
}

/// See [`lemma_parse_display_safe`]: the loop keeps both shapes.
pub proof fn lemma_parse_loop_display_safe(ts: Seq<TokenView>, lhs: ExprView, min_bp: u32)
    requires
        tokens_safe(ts),
        display_safe(lhs),
    ensures
        match spec_parse_loop(ts, lhs, min_bp) {
            Ok(p) => display_safe(p.0) && tokens_safe(p.1),
            _ => true,
        },
    decreases ts.len(), 1int,
{
    if ts.len() > 0 {
        lemma_tokens_safe_drop_first(ts);
        match ts[0] {
            TokenView::Paren(Paren::Close) => {},
            TokenView::Op(op) => {
                let bp = crate::lexicon::spec_infix_bp(op);
                if bp.0 >= min_bp {
                    lemma_parse_display_safe(ts.drop_first(), bp.1);
                    if let Ok((rhs, rest)) = spec_parse(ts.drop_first(), bp.1) {
                        if rest.len() < ts.len() {
                            lemma_parse_loop_display_safe(
                                rest,
                                ExprView::Operation {
                                    op,
                                    left: Box::new(lhs),
                                    right: Box::new(rhs),
                                },
                                min_bp,
                            );
                        }
                    }
                }
            },
            TokenView::Atom(_) | TokenView::Paren(Paren::Open) => {
                let bp = crate::lexicon::spec_infix_bp(Operation::Multiply);
                if bp.0 >= min_bp {
                    lemma_parse_display_safe(ts, bp.1);
                    if let Ok((rhs, rest)) = spec_parse(ts, bp.1) {
                        if rest.len() < ts.len() {
                            lemma_parse_loop_display_safe(
                                rest,
                                ExprView::Operation {
                                    op: Operation::Multiply,
                                    left: Box::new(lhs),
                                    right: Box::new(rhs),
                                },
                                min_bp,
                            );
                        }
                    }
                }
            },
        }
    }
}

/// Every tree a whole-line parse returns is safe to render.
pub proof fn lemma_parse_expr_display_safe(s: Seq<char>)
    ensures
        match spec_parse_expr(s) {
            Ok(e) => display_safe(e),
            _ => true,
        },
{
    lemma_spec_tokens_safe(s);
    if let Ok(ts) = crate::lexer::spec_tokens(s) {
        lemma_parse_display_safe(ts, 0);
    }
}

/// The structural round trip: the display strings of two successfully
/// parsed lines are equal only when the parsed trees are the same, so
/// the rendering of a parse reflects its operator nesting exactly.
pub proof fn lemma_display_round_trip(s1: Seq<char>, s2: Seq<char>, e1: ExprView, e2: ExprView)
    requires
        spec_parse_expr(s1) == Ok::<ExprView, crate::lexicon::ErrorView>(e1),
        spec_parse_expr(s2) == Ok::<ExprView, crate::lexicon::ErrorView>(e2),
        spec_display(e1) == spec_display(e2),
    ensures
        e1 == e2,
{
    lemma_parse_expr_display_safe(s1);
    lemma_parse_expr_display_safe(s2);
    lemma_display_injective(e1, e2);
}

} // verus!

