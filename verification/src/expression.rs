//! The expression tree, the precedence-climbing parser that builds it,
//! the canonical formatter, and the structural half of evaluation:
//! recognizing an assignment and finding undefined variables.
//!
//! [`spec_parse`] and [`spec_parse_loop`] are the mathematical parser;
//! [`Expr::parse_stream`] is proved to return exactly what they say,
//! token by token, for every input line.

use vstd::prelude::*;

use crate::lexicon::{
    dup_atom, dup_token, spec_infix_bp, spec_prefix_bp, spec_to_unary, spec_op_symbol,
    spec_unary_symbol, Atom, AtomView, CalcError, ErrorView, Operation, Paren, Token, TokenView,
    Unary,
};
use crate::lexer::{spec_tokens, token_views, tokenize};

verus! {

/// An expression tree. Every branch node owns its children outright;
/// the tree is finite and acyclic by construction.
#[derive(Debug, PartialEq)]
pub enum Expr {
    Atom(Atom),
    Operation { op: Operation, left: Box<Expr>, right: Box<Expr> },
    Unary { op: Unary, expr: Box<Expr> },
}

/// The mathematical shape of an [`Expr`].
pub enum ExprView {
    Atom(AtomView),
    Operation { op: Operation, left: Box<ExprView>, right: Box<ExprView> },
    Unary { op: Unary, expr: Box<ExprView> },
}

impl Expr {
    /// The mathematical tree this value stands for.
    pub open spec fn model(self) -> ExprView
        decreases self,
    {
        match self {
            Expr::Atom(a) => ExprView::Atom(a@),
            Expr::Operation { op, left, right } => ExprView::Operation {
                op,
                left: Box::new((*left).model()),
                right: Box::new((*right).model()),
            },
            Expr::Unary { op, expr } => ExprView::Unary { op, expr: Box::new((*expr).model()) },
        }
    }
}

impl View for Expr {
    type V = ExprView;

    open spec fn view(&self) -> ExprView {
        self.model()
    }
}

/// Parses one expression from the front of `ts`, consuming every
/// operator whose left binding power is at least `min_bp`: first a
/// left-hand side (an atom, a parenthesized subexpression, or a sign
/// applied to an operand), then [`spec_parse_loop`] for what follows.
/// Returns the tree and the tokens left over.
pub open spec fn spec_parse(ts: Seq<TokenView>, min_bp: u32) -> Result<
    (ExprView, Seq<TokenView>),
    ErrorView,
>
    decreases ts.len(), 0int,
{
    if ts.len() == 0 {
        Err(ErrorView::UnexpectedEndOfInput)
    } else {
        match ts[0] {
            TokenView::Atom(a) => spec_parse_loop(ts.drop_first(), ExprView::Atom(a), min_bp),
            TokenView::Paren(Paren::Open) => match spec_parse(ts.drop_first(), 0) {
                Ok((inner, rest)) => if rest.len() > 0 && rest[0] == TokenView::Paren(Paren::Close)
                    && rest.len() < ts.len() {
                    spec_parse_loop(rest.drop_first(), inner, min_bp)
                } else {
                    Err(ErrorView::UnclosedParenthesis)
                },
                Err(e) => Err(e),
            },
            TokenView::Op(op) => if op == Operation::Add || op == Operation::Subtract {
                match spec_parse(ts.drop_first(), spec_prefix_bp(op)) {
                    Ok((operand, rest)) => if rest.len() < ts.len() {
                        spec_parse_loop(
                            rest,
                            ExprView::Unary { op: spec_to_unary(op), expr: Box::new(operand) },
                            min_bp,
                        )
                    } else {
                        // never reached: a successful parse consumes at
                        // least one token (lemma_spec_parse_consumes)
                        Err(ErrorView::UnexpectedEndOfInput)
                    },
                    Err(e) => Err(e),
                }
            } else {
                Err(ErrorView::UnexpectedToken(ts[0]))
            },
            TokenView::Paren(Paren::Close) => Err(ErrorView::UnexpectedToken(ts[0])),
        }
    }
}

/// Extends `lhs` with every following operator that binds at least as
/// tightly as `min_bp`. A closing parenthesis or the end of the tokens
/// stops the loop; an explicit operator of sufficient left power takes
/// a right operand parsed at that operator's right power; an atom or an
/// opening parenthesis directly after `lhs` multiplies implicitly, with
/// the binding powers of multiplication and no token consumed for the
/// operator itself.
pub open spec fn spec_parse_loop(ts: Seq<TokenView>, lhs: ExprView, min_bp: u32) -> Result<
    (ExprView, Seq<TokenView>),
    ErrorView,
>
    decreases ts.len(), 1int,
{
    if ts.len() == 0 {
        Ok((lhs, ts))
    } else {
        match ts[0] {
            TokenView::Paren(Paren::Close) => Ok((lhs, ts)),
            TokenView::Op(op) => {
                let bp = spec_infix_bp(op);
                if bp.0 < min_bp {
                    Ok((lhs, ts))
                } else {
                    match spec_parse(ts.drop_first(), bp.1) {
                        Ok((rhs, rest)) => if rest.len() < ts.len() {
                            spec_parse_loop(
                                rest,
                                ExprView::Operation {
                                    op,
                                    left: Box::new(lhs),
                                    right: Box::new(rhs),
                                },
                                min_bp,
                            )
                        } else {
                            // never reached (lemma_spec_parse_consumes)
                            Err(ErrorView::UnexpectedEndOfInput)
                        },
                        Err(e) => Err(e),
                    }
                }
            },
            TokenView::Atom(_) | TokenView::Paren(Paren::Open) => {
                let bp = spec_infix_bp(Operation::Multiply);
                if bp.0 < min_bp {
                    Ok((lhs, ts))
                } else {
                    match spec_parse(ts, bp.1) {
                        Ok((rhs, rest)) => if rest.len() < ts.len() {
                            spec_parse_loop(
                                rest,
                                ExprView::Operation {
                                    op: Operation::Multiply,
                                    left: Box::new(lhs),
                                    right: Box::new(rhs),
                                },
                                min_bp,
                            )
                        } else {
                            // never reached (lemma_spec_parse_consumes)
                            Err(ErrorView::UnexpectedEndOfInput)
                        },
                        Err(e) => Err(e),
                    }
                }
            },
        }
    }
}

/// A successful parse consumes at least one token, and the loop never
/// hands back more than it was given: the fallback error branches of
/// [`spec_parse`] and [`spec_parse_loop`] are never reached.
pub proof fn lemma_spec_parse_consumes(ts: Seq<TokenView>, min_bp: u32)
    ensures
        match spec_parse(ts, min_bp) {
            Ok(p) => p.1.len() < ts.len(),
            _ => true,
        },
    decreases ts.len(), 0int,
{
    if ts.len() > 0 {
        match ts[0] {
            TokenView::Atom(a) => {
                lemma_spec_parse_loop_consumes(ts.drop_first(), ExprView::Atom(a), min_bp);
            },
            TokenView::Paren(Paren::Open) => {
                lemma_spec_parse_consumes(ts.drop_first(), 0);
                if let Ok((inner, rest)) = spec_parse(ts.drop_first(), 0) {
                    if rest.len() > 0 && rest[0] == TokenView::Paren(Paren::Close) && rest.len()
                        < ts.len() {
                        lemma_spec_parse_loop_consumes(rest.drop_first(), inner, min_bp);
                    }
                }
            },
            TokenView::Op(op) => {
                if op == Operation::Add || op == Operation::Subtract {
                    lemma_spec_parse_consumes(ts.drop_first(), spec_prefix_bp(op));
                    if let Ok((operand, rest)) = spec_parse(ts.drop_first(), spec_prefix_bp(op)) {
                        if rest.len() < ts.len() {
                            lemma_spec_parse_loop_consumes(
                                rest,
                                ExprView::Unary {
                                    op: spec_to_unary(op),
                                    expr: Box::new(operand),
                                },
                                min_bp,
                            );
                        }
                    }
                }
            },
            TokenView::Paren(Paren::Close) => {},
        }
    }
}

/// See [`lemma_spec_parse_consumes`]: the loop consumes nothing or more.
pub proof fn lemma_spec_parse_loop_consumes(ts: Seq<TokenView>, lhs: ExprView, min_bp: u32)
    ensures
        match spec_parse_loop(ts, lhs, min_bp) {
            Ok(p) => p.1.len() <= ts.len(),
            _ => true,
        },
    decreases ts.len(), 1int,
{
    if ts.len() > 0 {
        match ts[0] {
            TokenView::Paren(Paren::Close) => {},
            TokenView::Op(op) => {
                let bp = spec_infix_bp(op);
                if bp.0 >= min_bp {
                    lemma_spec_parse_consumes(ts.drop_first(), bp.1);
                    if let Ok((rhs, rest)) = spec_parse(ts.drop_first(), bp.1) {
                        if rest.len() < ts.len() {
                            lemma_spec_parse_loop_consumes(
                                rest,
                                ExprView::Operation {
                                    op,
                                    left: Box::new(lhs),
                                    right: Box::new(rhs),
                                },
                                min_bp,
                            );
                        }
                    }
                }
            },
            TokenView::Atom(_) | TokenView::Paren(Paren::Open) => {
                let bp = spec_infix_bp(Operation::Multiply);
                if bp.0 >= min_bp {
                    lemma_spec_parse_consumes(ts, bp.1);
                    if let Ok((rhs, rest)) = spec_parse(ts, bp.1) {
                        if rest.len() < ts.len() {
                            lemma_spec_parse_loop_consumes(
                                rest,
                                ExprView::Operation {
                                    op: Operation::Multiply,
                                    left: Box::new(lhs),
                                    right: Box::new(rhs),
                                },
                                min_bp,
                            );
                        }
                    }
                }
            },
        }
    }
}

/// What parsing a whole line means: tokenize, parse one expression at
/// the lowest binding power, and demand that nothing is left over.
pub open spec fn spec_parse_expr(s: Seq<char>) -> Result<ExprView, ErrorView> {
    match spec_tokens(s) {
        Err(e) => Err(e),
        Ok(ts) => match spec_parse(ts, 0) {
            Err(e) => Err(e),
            Ok((e, rest)) => if rest.len() == 0 {
                Ok(e)
            } else {
                Err(ErrorView::UnexpectedToken(rest[0]))
            },
        },
    }
}

/// Whether the root of `e` is an assignment to a bare variable; if so,
/// the variable's name and the right-hand side.
pub open spec fn spec_is_assign(e: ExprView) -> Option<(char, ExprView)> {
    match e {
        ExprView::Operation { op, left, right } => if op == Operation::Assign {
            match *left {
                ExprView::Atom(AtomView::Var(c)) => Some((c, *right)),
                _ => None,
            }
        } else {
            None
        },
        _ => None,
    }
}

/// The first variable of `e`, in evaluation order (left child before
/// right child), that is not among `defined`; `None` when evaluation
/// would find every variable it reads.
pub open spec fn spec_first_undefined(e: ExprView, defined: Seq<char>) -> Option<char>
    decreases e,
{
    match e {
        ExprView::Atom(AtomView::Number(_)) => None,
        ExprView::Atom(AtomView::Var(c)) => if defined.contains(c) {
            None
        } else {
            Some(c)
        },
        ExprView::Operation { op, left, right } => match spec_first_undefined(*left, defined) {
            Some(c) => Some(c),
            None => spec_first_undefined(*right, defined),
        },
        ExprView::Unary { op, expr } => spec_first_undefined(*expr, defined),
    }
}

/// The canonical fully parenthesized rendering: a number as its
/// literal, a variable as its character, a binary node as
/// `(<op> <left> <right>)`, and a unary node as `(<op><operand>)`.
pub open spec fn spec_display(e: ExprView) -> Seq<char>
    decreases e,
{
    match e {
        ExprView::Atom(AtomView::Number(lex)) => lex,
        ExprView::Atom(AtomView::Var(c)) => seq![c],
        ExprView::Operation { op, left, right } => seq!['(', spec_op_symbol(op), ' ']
            + spec_display(*left) + seq![' '] + spec_display(*right) + seq![')'],
        ExprView::Unary { op, expr } => seq!['(', spec_unary_symbol(op)] + spec_display(*expr)
            + seq![')'],
    }
}

/// Whether `v` holds the character `c`.
#[verifier::loop_isolation(false)]
fn contains_char(v: &Vec<char>, c: char) -> (r: bool)
    ensures
        r == v@.contains(c),
{
    let mut i: usize = 0;
    while i < v.len()
        invariant
            i <= v@.len(),
            forall|j: int| 0 <= j < i ==> v@[j] != c,
        decreases v@.len() - i,
    {
        if v[i] == c {
            return true;
        }
        i = i + 1;
    }
    false
}

impl Expr {
    /// Parses one line: the expression tree of `input`, or the first
    /// error met while tokenizing or parsing it. Exactly
    /// [`spec_parse_expr`] of the input's characters.
    pub fn parse_stream(input: &str) -> (r: Result<Expr, CalcError>)
        ensures
            match spec_parse_expr(input@) {
                Ok(e) => r matches Ok(x) && x@ == e,
                Err(er) => r matches Err(x) && x@ == er,
            },
    {
        let toks = match tokenize(input) {
            Ok(v) => v,
            Err(e) => return Err(e),
        };
        proof {
            assert(token_views(toks@).skip(0) =~= token_views(toks@));
        }
        let p = match Self::parse(&toks, 0, 0) {
            Ok(p) => p,
            Err(e) => return Err(e),
        };
        if p.1 < toks.len() {
            proof {
                assert(token_views(toks@).skip(p.1 as int)[0] == token_views(toks@)[p.1 as int]);
                assert(token_views(toks@)[p.1 as int] == toks@[p.1 as int]@);
            }
            Err(CalcError::UnexpectedToken(dup_token(&toks[p.1])))
        } else {
            proof {
                assert(token_views(toks@).skip(p.1 as int).len() == 0);
            }
            Ok(p.0)
        }
    }

    /// Parses one expression from `toks` at index `pos`, consuming
    /// every operator binding at least `min_bp`: exactly [`spec_parse`]
    /// on the remaining token views. Returns the tree and the index of
    /// the first token left over.
    #[verifier::loop_isolation(false)]
    fn parse(toks: &Vec<Token>, pos: usize, min_bp: u32) -> (r: Result<(Expr, usize), CalcError>)
        requires
            pos <= toks@.len(),
        ensures
            ({
                let tvs = token_views(toks@);
                match spec_parse(tvs.skip(pos as int), min_bp) {
                    Ok(p) => r matches Ok(q) && q.0@ == p.0 && pos < q.1 <= toks@.len()
                        && tvs.skip(q.1 as int) == p.1,
                    Err(er) => r matches Err(x) && x@ == er,
                }
            }),
        decreases toks@.len() - pos,
    {
        let ghost tvs = token_views(toks@);
        if pos >= toks.len() {
            proof {
                assert(tvs.skip(pos as int).len() == 0);
            }
            return Err(CalcError::UnexpectedEndOfInput);
        }
        proof {
            assert(tvs.skip(pos as int)[0] == tvs[pos as int]);
            assert(tvs[pos as int] == toks@[pos as int]@);
        }
        let mut cur: usize;
        let mut lhs: Expr;
        match &toks[pos] {
            Token::Atom(a) => {
                lhs = Expr::Atom(dup_atom(a));
                cur = pos + 1;
                proof {
                    assert(tvs.skip(pos as int).drop_first() =~= tvs.skip(pos as int + 1));
                }
            },
            Token::Paren(Paren::Open) => {
                proof {
                    assert(tvs.skip(pos as int).drop_first() =~= tvs.skip(pos as int + 1));
                }
                let inner = match Self::parse(toks, pos + 1, 0) {
                    Ok(p) => p,
                    Err(e) => return Err(e),
                };
                let ipos = inner.1;
                if ipos < toks.len() {
                    proof {
                        assert(tvs.skip(ipos as int)[0] == toks@[ipos as int]@);
                    }
                    match &toks[ipos] {
                        Token::Paren(Paren::Close) => {
                            proof {
                                assert(tvs.skip(ipos as int).drop_first() =~= tvs.skip(
                                    ipos as int + 1,
                                ));
                            }
                            lhs = inner.0;
                            cur = ipos + 1;
                        },
                        _ => {
                            return Err(CalcError::UnclosedParenthesis);
                        },
                    }
                } else {
                    proof {
                        assert(tvs.skip(ipos as int).len() == 0);
                    }
                    return Err(CalcError::UnclosedParenthesis);
                }
            },
            Token::Op(op) => {
                let is_sign = match op {
                    Operation::Add | Operation::Subtract => true,
                    _ => false,
                };
                if is_sign {
                    let bp = op.prefix_bp();
                    proof {
                        assert(tvs.skip(pos as int).drop_first() =~= tvs.skip(pos as int + 1));
                    }
                    let operand = match Self::parse(toks, pos + 1, bp.1) {
                        Ok(p) => p,
                        Err(e) => return Err(e),
                    };
                    lhs = Expr::Unary { op: op.to_unary(), expr: Box::new(operand.0) };
                    cur = operand.1;
                } else {
                    return Err(CalcError::UnexpectedToken(dup_token(&toks[pos])));
                }
            },
            Token::Paren(Paren::Close) => {
                return Err(CalcError::UnexpectedToken(dup_token(&toks[pos])));
            },
        }
        loop
            invariant
                pos < cur <= toks@.len(),
                match spec_parse_loop(tvs.skip(cur as int), lhs@, min_bp) {
                    Ok(p) => spec_parse(tvs.skip(pos as int), min_bp) == Ok::<
                        (ExprView, Seq<TokenView>),
                        ErrorView,
                    >(p),
                    Err(e) => spec_parse(tvs.skip(pos as int), min_bp) == Err::<
                        (ExprView, Seq<TokenView>),
                        ErrorView,
                    >(e),
                },
            decreases toks@.len() - cur,
        {
            if cur >= toks.len() {
                proof {
                    assert(tvs.skip(cur as int).len() == 0);
                }
                return Ok((lhs, cur));
            }
            proof {
                assert(tvs.skip(cur as int)[0] == toks@[cur as int]@);
            }
            match &toks[cur] {
                Token::Paren(Paren::Close) => {
                    return Ok((lhs, cur));
                },
                Token::Op(op) => {
                    let bp = op.infix_bp();
                    if bp.0 < min_bp {
                        return Ok((lhs, cur));
                    }
                    proof {
                        assert(tvs.skip(cur as int).drop_first() =~= tvs.skip(cur as int + 1));
                    }
                    let rhs = match Self::parse(toks, cur + 1, bp.1) {
                        Ok(p) => p,
                        Err(e) => return Err(e),
                    };
                    lhs = Expr::Operation { op: *op, left: Box::new(lhs), right: Box::new(rhs.0) };
                    cur = rhs.1;
                },
                _ => {
                    // an atom or an opening parenthesis right after the
                    // left-hand side: implicit multiplication
                    let bp = Operation::Multiply.infix_bp();
                    if bp.0 < min_bp {
                        return Ok((lhs, cur));
                    }
                    let rhs = match Self::parse(toks, cur, bp.1) {
                        Ok(p) => p,
                        Err(e) => return Err(e),
                    };
                    lhs = Expr::Operation {
                        op: Operation::Multiply,
                        left: Box::new(lhs),
                        right: Box::new(rhs.0),
                    };
                    cur = rhs.1;
                },
            }
        }
    }

    /// If this expression assigns to a bare variable, the variable's
    /// name and a reference to the right-hand side.
    pub fn is_assign(&self) -> (r: Option<(char, &Expr)>)
        ensures
            match spec_is_assign(self@) {
                Some(p) => r matches Some(q) && q.0 == p.0 && q.1@ == p.1,
                None => r is None,
            },
    {
        match self {
            Expr::Operation { op: Operation::Assign, left, right } => match &**left {
                Expr::Atom(Atom::Var(c)) => {
                    proof {
                        assert((**left)@ == ExprView::Atom(AtomView::Var(*c)));
                    }
                    Some((*c, &**right))
                },
                _ => {
                    proof {
                        assert(match (**left)@ {
                            ExprView::Atom(AtomView::Var(_)) => false,
                            _ => true,
                        });
                    }
                    None
                },
            },
            _ => None,
        }
    }

    /// The canonical fully parenthesized rendering of this tree:
    /// exactly [`spec_display`].
    pub fn to_display_string(&self) -> (r: String)
        ensures
            r@ == spec_display(self@),
        decreases self,
    {
        match self {
            Expr::Atom(Atom::Number(s)) => s.clone(),
            Expr::Atom(Atom::Var(c)) => {
                let mut out = String::new();
                out.push(*c);
                proof {
                    assert(out@ =~= seq![*c]);
                }
                out
            },
            Expr::Operation { op, left, right } => {
                let mut out = String::new();
                out.push('(');
                out.push(op.symbol());
                out.push(' ');
                let l = left.to_display_string();
                out.append(l.as_str());
                out.push(' ');
                let rs = right.to_display_string();
                out.append(rs.as_str());
                out.push(')');
                proof {
                    assert(out@ =~= seq!['(', spec_op_symbol(*op), ' '] + spec_display(left@)
                        + seq![' '] + spec_display(right@) + seq![')']);
                }
                out
            },
            Expr::Unary { op, expr } => {
                let mut out = String::new();
                out.push('(');
                out.push(op.symbol());
                let inner = expr.to_display_string();
                out.append(inner.as_str());
                out.push(')');
                proof {
                    assert(out@ =~= seq!['(', spec_unary_symbol(*op)] + spec_display(expr@)
                        + seq![')']);
                }
                out
            },
        }
    }

    /// The first variable read by evaluation, left child before right,
    /// that is not among `defined`; exactly [`spec_first_undefined`].
    pub fn first_undefined_var(&self, defined: &Vec<char>) -> (r: Option<char>)
        ensures
            r == spec_first_undefined(self@, defined@),
        decreases self,
    {
        match self {
            Expr::Atom(Atom::Number(_)) => None,
            Expr::Atom(Atom::Var(c)) => if contains_char(defined, *c) {
                None
            } else {
                Some(*c)
            },
            Expr::Operation { left, right, .. } => match left.first_undefined_var(defined) {
                Some(c) => Some(c),
                None => right.first_undefined_var(defined),
            },
            Expr::Unary { expr, .. } => expr.first_undefined_var(defined),
        }
    }

    /// `Ok` when evaluation against an environment defining exactly the
    /// variables in `defined` would find every variable it reads, else
    /// the `UndefinedVariable` error naming the first one missed.
    pub fn check_vars(&self, defined: &Vec<char>) -> (r: Result<(), CalcError>)
        ensures
            match spec_first_undefined(self@, defined@) {
                None => r matches Ok(u),
                Some(c) => r matches Err(e) && e@ == ErrorView::UndefinedVariable(c),
            },
    {
        match self.first_undefined_var(defined) {
            None => Ok(()),
            Some(c) => Err(CalcError::UndefinedVariable(c)),
        }
    }
}

} // verus!

