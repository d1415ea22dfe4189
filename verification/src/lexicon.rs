//! The vocabulary of the calculator: tokens, operators, atoms, and the
//! error taxonomy, together with the operator binding-power table that
//! drives the precedence-climbing parser.

use vstd::prelude::*;

verus! {

/// A parenthesis marker. Parentheses are their own token variant, not
/// operators: they only group, they never combine operands.
#[derive(Clone, Copy, Debug, PartialEq, Eq, Structural)]
pub enum Paren {
    Open,
    Close,
}

/// A unary prefix operator.
#[derive(Clone, Copy, Debug, PartialEq, Eq, Structural)]
pub enum Unary {
    Negate,
    Positive,
}

/// A binary operator.
#[derive(Clone, Copy, Debug, PartialEq, Eq, Structural)]
pub enum Operation {
    Add,
    Subtract,
    Multiply,
    Divide,
    Pow,
    Root,
    Assign,
}

/// A leaf of an expression: a numeric literal, kept as its decimal
/// text (digits and at most one dot), or a single-character variable.
#[derive(Clone, Debug, PartialEq)]
pub enum Atom {
    Number(String),
    Var(char),
}

/// The mathematical shape of an [`Atom`]: the literal as a character
/// sequence, or the variable name.
pub enum AtomView {
    Number(Seq<char>),
    Var(char),
}

impl View for Atom {
    type V = AtomView;

    open spec fn view(&self) -> AtomView {
        match self {
            Atom::Number(s) => AtomView::Number(s@),
            Atom::Var(c) => AtomView::Var(*c),
        }
    }
}

/// One token of the input stream.
#[derive(Clone, Debug, PartialEq)]
pub enum Token {
    Op(Operation),
    Atom(Atom),
    Paren(Paren),
}

/// The mathematical shape of a [`Token`].
pub enum TokenView {
    Op(Operation),
    Atom(AtomView),
    Paren(Paren),
}

impl View for Token {
    type V = TokenView;

    open spec fn view(&self) -> TokenView {
        match self {
            Token::Op(op) => TokenView::Op(*op),
            Token::Atom(a) => TokenView::Atom(a@),
            Token::Paren(p) => TokenView::Paren(*p),
        }
    }
}

/// Everything that can go wrong while tokenizing, parsing, or checking
/// a line. Every failure aborts the whole line; nothing is recovered
/// mid-parse.
#[derive(Clone, Debug, PartialEq)]
pub enum CalcError {
    /// A character that is neither whitespace, part of a number, a
    /// variable, a parenthesis, nor a known operator.
    UnknownOperator(char),
    /// A digit run whose text is not a valid decimal literal (for
    /// example, a second dot).
    MalformedNumber(String),
    /// Tokens ran out where the grammar still required one.
    UnexpectedEndOfInput,
    /// An opening parenthesis was never matched.
    UnclosedParenthesis,
    /// A token stands where the grammar forbids it.
    UnexpectedToken(Token),
    /// Evaluation would read a variable absent from the environment.
    UndefinedVariable(char),
}

/// The mathematical shape of a [`CalcError`].
pub enum ErrorView {
    UnknownOperator(char),
    MalformedNumber(Seq<char>),
    UnexpectedEndOfInput,
    UnclosedParenthesis,
    UnexpectedToken(TokenView),
    UndefinedVariable(char),
}

impl View for CalcError {
    type V = ErrorView;

    open spec fn view(&self) -> ErrorView {
        match self {
            CalcError::UnknownOperator(c) => ErrorView::UnknownOperator(*c),
            CalcError::MalformedNumber(s) => ErrorView::MalformedNumber(s@),
            CalcError::UnexpectedEndOfInput => ErrorView::UnexpectedEndOfInput,
            CalcError::UnclosedParenthesis => ErrorView::UnclosedParenthesis,
            CalcError::UnexpectedToken(t) => ErrorView::UnexpectedToken(t@),
            CalcError::UndefinedVariable(c) => ErrorView::UndefinedVariable(*c),
        }
    }
}

/// The binding powers of a binary operator. Precedence climbs from
/// assignment through addition and multiplication up to exponentiation;
/// a left power below the right power of the operator to the left makes
/// a chain group leftward, and the reverse (power, root) makes it group
/// rightward.
pub open spec fn spec_infix_bp(op: Operation) -> (u32, u32) {
    match op {
        Operation::Assign => (2u32, 1u32),
        Operation::Add | Operation::Subtract => (10u32, 11u32),
        Operation::Multiply | Operation::Divide => (20u32, 21u32),
        Operation::Pow | Operation::Root => (31u32, 30u32),
    }
}

/// The right binding power of a unary prefix operator: tighter than
/// every binary operator, so a sign attaches to the atom beside it.
pub open spec fn spec_prefix_bp(op: Operation) -> u32 {
    50u32
}

/// The unary operator written with the same symbol as `op`.
pub open spec fn spec_to_unary(op: Operation) -> Unary {
    if op == Operation::Subtract {
        Unary::Negate
    } else {
        Unary::Positive
    }
}

/// The operator written as the character `c`, if any. Parentheses are
/// not operators and are mapped by the tokenizer itself.
pub open spec fn spec_op_from_char(c: char) -> Option<Operation> {
    if c == '=' {
        Some(Operation::Assign)
    } else if c == '+' {
        Some(Operation::Add)
    } else if c == '-' {
        Some(Operation::Subtract)
    } else if c == '*' {
        Some(Operation::Multiply)
    } else if c == '/' {
        Some(Operation::Divide)
    } else if c == '^' {
        Some(Operation::Pow)
    } else if c == '\u{221a}' {
        Some(Operation::Root)
    } else {
        None
    }
}

/// The character an operator is written as; `\u{221a}` is the root sign.
pub open spec fn spec_op_symbol(op: Operation) -> char {
    match op {
        Operation::Add => '+',
        Operation::Subtract => '-',
        Operation::Multiply => '*',
        Operation::Divide => '/',
        Operation::Pow => '^',
        Operation::Root => '\u{221a}',
        Operation::Assign => '=',
    }
}

/// The character a unary operator is written as.
pub open spec fn spec_unary_symbol(op: Unary) -> char {
    match op {
        Unary::Negate => '-',
        Unary::Positive => '+',
    }
}

/// The character a parenthesis is written as.
pub open spec fn spec_paren_symbol(p: Paren) -> char {
    match p {
        Paren::Open => '(',
        Paren::Close => ')',
    }
}

/// A token of the shape the tokenizer produces: a number literal
/// starts with a digit and holds only digits and dots, and a
/// variable's character is neither a digit nor a space.
pub open spec fn token_safe(t: TokenView) -> bool {
    match t {
        TokenView::Atom(AtomView::Number(lex)) => lex.len() > 0 && is_digit(lex[0]) && (forall|
            i: int,
        | 0 <= i < lex.len() ==> is_digit(lex[i]) || lex[i] == '.'),
        TokenView::Atom(AtomView::Var(c)) => !is_digit(c) && c != ' ',
        _ => true,
    }
}

/// Every token of `ts` is of the tokenizer's shape.
pub open spec fn tokens_safe(ts: Seq<TokenView>) -> bool {
    forall|i: int| 0 <= i < ts.len() ==> token_safe(#[trigger] ts[i])
}

/// Whether `c` is a decimal digit.
pub open spec fn is_digit(c: char) -> bool {
    48 <= c as u32 && c as u32 <= 57
}

/// How many dots a character sequence holds.
pub open spec fn dot_count(s: Seq<char>) -> nat
    decreases s.len(),
{
    if s.len() == 0 {
        0
    } else {
        (if s[0] == '.' { 1nat } else { 0nat }) + dot_count(s.drop_first())
    }
}

/// Appending a character adds its dot, if it is one, to the count.
pub proof fn lemma_dot_count_push(s: Seq<char>, c: char)
    ensures
        dot_count(s.push(c)) == dot_count(s) + (if c == '.' {
            1nat
        } else {
            0nat
        }),
    decreases s.len(),
{
    if s.len() == 0 {
        assert(s.push(c).len() == 1);
        assert(s.push(c)[0] == c);
        assert(s.push(c).drop_first() =~= Seq::<char>::empty());
        assert(dot_count(Seq::<char>::empty()) == 0);
        assert(dot_count(s) == 0);
    } else {
        lemma_dot_count_push(s.drop_first(), c);
        assert(s.push(c)[0] == s[0]);
        assert(s.push(c).drop_first() =~= s.drop_first().push(c));
        assert(dot_count(s.push(c)) == (if s[0] == '.' {
            1nat
        } else {
            0nat
        }) + dot_count(s.drop_first().push(c)));
        assert(dot_count(s) == (if s[0] == '.' {
            1nat
        } else {
            0nat
        }) + dot_count(s.drop_first()));
    }
}

/// A valid decimal literal: nonempty, made of digits and at most one
/// dot, with at least one digit. No exponent, no sign.
pub open spec fn valid_number(s: Seq<char>) -> bool {
    &&& s.len() > 0
    &&& forall|i: int| 0 <= i < s.len() ==> is_digit(s[i]) || s[i] == '.'
    &&& dot_count(s) <= 1
    &&& exists|i: int| 0 <= i < s.len() && is_digit(s[i])
}

impl Operation {
    /// The left and right binding power of this operator when it
    /// stands between two operands.
    pub fn infix_bp(&self) -> (r: (u32, u32))
        ensures
            r == spec_infix_bp(*self),
    {
        match self {
            Operation::Assign => (2, 1),
            Operation::Add | Operation::Subtract => (10, 11),
            Operation::Multiply | Operation::Divide => (20, 21),
            Operation::Pow | Operation::Root => (31, 30),
        }
    }

    /// The right binding power of this operator when it stands before
    /// its single operand. Only a sign can stand there.
    pub fn prefix_bp(&self) -> (r: ((), u32))
        requires
            *self == Operation::Add || *self == Operation::Subtract,
        ensures
            r.1 == spec_prefix_bp(*self),
    {
        ((), 50)
    }

    /// The operator written as the character `input`, or an
    /// `UnknownOperator` error. Parentheses and every other character
    /// are not operators.
    pub fn from_char(input: char) -> (r: Result<Operation, CalcError>)
        ensures
            match spec_op_from_char(input) {
                Some(op) => r == Ok::<Operation, CalcError>(op),
                None => r matches Err(e) && e@ == ErrorView::UnknownOperator(input),
            },
    {
        if input == '=' {
            Ok(Operation::Assign)
        } else if input == '+' {
            Ok(Operation::Add)
        } else if input == '-' {
            Ok(Operation::Subtract)
        } else if input == '*' {
            Ok(Operation::Multiply)
        } else if input == '/' {
            Ok(Operation::Divide)
        } else if input == '^' {
            Ok(Operation::Pow)
        } else if input == '\u{221a}' {
            Ok(Operation::Root)
        } else {
            Err(CalcError::UnknownOperator(input))
        }
    }

    /// The unary operator written with this operator's symbol. Only a
    /// sign has one.
    pub fn to_unary(&self) -> (r: Unary)
        requires
            *self == Operation::Add || *self == Operation::Subtract,
        ensures
            r == spec_to_unary(*self),
    {
        match self {
            Operation::Subtract => Unary::Negate,
            _ => Unary::Positive,
        }
    }

    /// The character this operator is written as.
    pub fn symbol(&self) -> (r: char)
        ensures
            r == spec_op_symbol(*self),
    {
        match self {
            Operation::Add => '+',
            Operation::Subtract => '-',
            Operation::Multiply => '*',
            Operation::Divide => '/',
            Operation::Pow => '^',
            Operation::Root => '\u{221a}',
            Operation::Assign => '=',
        }
    }
}

impl Unary {
    /// The character this unary operator is written as.
    pub fn symbol(&self) -> (r: char)
        ensures
            r == spec_unary_symbol(*self),
    {
        match self {
            Unary::Negate => '-',
            Unary::Positive => '+',
        }
    }
}

impl Paren {
    /// The character this parenthesis is written as.
    pub fn symbol(&self) -> (r: char)
        ensures
            r == spec_paren_symbol(*self),
    {
        match self {
            Paren::Open => '(',
            Paren::Close => ')',
        }
    }
}

impl Atom {
    /// The number written as `input`, when it is a valid decimal
    /// literal (digits and at most one dot, no exponent, no sign), else
    /// a `MalformedNumber` error carrying the text.
    #[verifier::loop_isolation(false)]
    pub fn num_from_str(input: &str) -> (r: Result<Atom, CalcError>)
        ensures
            match r {
                Ok(a) => valid_number(input@) && a@ == AtomView::Number(input@),
                Err(e) => !valid_number(input@) && e@ == ErrorView::MalformedNumber(input@),
            },
    {
        let n = input.unicode_len();
        let mut i: usize = 0;
        let mut dots: usize = 0;
        let mut digit_seen = false;
        let mut ok = true;
        proof {
            assert(input@.take(0) =~= Seq::<char>::empty());
        }
        while i < n
            invariant
                i <= n,
                n == input@.len(),
                dots == dot_count(input@.take(i as int)),
                dots <= i,
                digit_seen == (exists|j: int| 0 <= j < i && is_digit(input@[j])),
                ok == (forall|j: int| 0 <= j < i ==> is_digit(input@[j]) || input@[j] == '.'),
            decreases n - i,
        {
            let c = input.get_char(i);
            proof {
                lemma_dot_count_push(input@.take(i as int), c);
                assert(input@.take(i as int + 1) =~= input@.take(i as int).push(input@[i as int]));
            }
            if is_digit_char(c) {
                digit_seen = true;
            } else if c == '.' {
                dots = dots + 1;
            } else {
                ok = false;
            }
            i = i + 1;
        }
        proof {
            assert(input@.take(n as int) =~= input@);
        }
        if n > 0 && ok && digit_seen && dots <= 1 {
            Ok(Atom::Number(input.to_owned()))
        } else {
            Err(CalcError::MalformedNumber(input.to_owned()))
        }
    }

    /// The variable named by the character `c`.
    pub fn var_from_char(c: char) -> (r: Atom)
        ensures
            r@ == AtomView::Var(c),
    {
        Atom::Var(c)
    }
}

/// A structural copy of an atom, equal in view to the original.
pub(crate) fn dup_atom(a: &Atom) -> (r: Atom)
    ensures
        r@ == a@,
{
    match a {
        Atom::Number(s) => Atom::Number(s.clone()),
        Atom::Var(c) => Atom::Var(*c),
    }
}

/// A structural copy of a token, equal in view to the original.
pub(crate) fn dup_token(t: &Token) -> (r: Token)
    ensures
        r@ == t@,
{
    match t {
        Token::Op(op) => Token::Op(*op),
        Token::Atom(a) => Token::Atom(dup_atom(a)),
        Token::Paren(p) => Token::Paren(*p),
    }
}

/// Whether `c` is a decimal digit; the executable twin of [`is_digit`].
pub fn is_digit_char(c: char) -> (r: bool)
    ensures
        r == is_digit(c),
{
    let u = c as u32;
    48 <= u && u <= 57
}

} // verus!
