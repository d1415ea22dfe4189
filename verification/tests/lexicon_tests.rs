use calc_core::lexer::{tokenize, Lexer};
use calc_core::lexicon::{Atom, CalcError, Operation, Paren, Token, Unary};

#[test]
fn operator_characters_map_to_operators() {
    assert_eq!(Operation::from_char('='), Ok(Operation::Assign));
    assert_eq!(Operation::from_char('+'), Ok(Operation::Add));
    assert_eq!(Operation::from_char('-'), Ok(Operation::Subtract));
    assert_eq!(Operation::from_char('*'), Ok(Operation::Multiply));
    assert_eq!(Operation::from_char('/'), Ok(Operation::Divide));
    assert_eq!(Operation::from_char('^'), Ok(Operation::Pow));
    assert_eq!(Operation::from_char('\u{221a}'), Ok(Operation::Root));
    assert_eq!(
        Operation::from_char('$'),
        Err(CalcError::UnknownOperator('$'))
    );
}

#[test]
fn binding_powers_order_the_operators() {
    assert_eq!(Operation::Assign.infix_bp(), (2, 1));
    assert_eq!(Operation::Add.infix_bp(), (10, 11));
    assert_eq!(Operation::Subtract.infix_bp(), (10, 11));
    assert_eq!(Operation::Multiply.infix_bp(), (20, 21));
    assert_eq!(Operation::Divide.infix_bp(), (20, 21));
    assert_eq!(Operation::Pow.infix_bp(), (31, 30));
    assert_eq!(Operation::Root.infix_bp(), (31, 30));
    // a sign binds tighter than any binary operator
    assert_eq!(Operation::Add.prefix_bp(), ((), 50));
    assert_eq!(Operation::Subtract.prefix_bp(), ((), 50));
}

#[test]
fn signs_become_unary_operators() {
    assert_eq!(Operation::Subtract.to_unary(), Unary::Negate);
    assert_eq!(Operation::Add.to_unary(), Unary::Positive);
}

#[test]
fn operator_symbols_round_trip() {
    for op in [
        Operation::Add,
        Operation::Subtract,
        Operation::Multiply,
        Operation::Divide,
        Operation::Pow,
        Operation::Root,
        Operation::Assign,
    ] {
        assert_eq!(Operation::from_char(op.symbol()), Ok(op));
    }
    assert_eq!(Paren::Open.symbol(), '(');
    assert_eq!(Paren::Close.symbol(), ')');
    assert_eq!(Unary::Negate.symbol(), '-');
    assert_eq!(Unary::Positive.symbol(), '+');
}

#[test]
fn numbers_are_validated() {
    assert_eq!(
        Atom::num_from_str("1.5"),
        Ok(Atom::Number(String::from("1.5")))
    );
    assert_eq!(Atom::num_from_str("42"), Ok(Atom::Number(String::from("42"))));
    assert_eq!(
        Atom::num_from_str("1.2.3"),
        Err(CalcError::MalformedNumber(String::from("1.2.3")))
    );
    assert_eq!(
        Atom::num_from_str(""),
        Err(CalcError::MalformedNumber(String::from("")))
    );
    assert_eq!(
        Atom::num_from_str("."),
        Err(CalcError::MalformedNumber(String::from(".")))
    );
    assert_eq!(
        Atom::num_from_str("1e5"),
        Err(CalcError::MalformedNumber(String::from("1e5")))
    );
    assert_eq!(Atom::var_from_char('q'), Atom::Var('q'));
}

#[test]
fn tokenizer_scans_a_line() {
    let toks = tokenize("12 + x(3.5)").unwrap();
    assert_eq!(
        toks,
        vec![
            Token::Atom(Atom::Number(String::from("12"))),
            Token::Op(Operation::Add),
            Token::Atom(Atom::Var('x')),
            Token::Paren(Paren::Open),
            Token::Atom(Atom::Number(String::from("3.5"))),
            Token::Paren(Paren::Close),
        ]
    );
}

#[test]
fn tokenizer_skips_whitespace_entirely() {
    assert_eq!(tokenize("  \t 1\u{a0}2 ").unwrap().len(), 2);
    assert_eq!(tokenize("   ").unwrap(), Vec::<Token>::new());
}

#[test]
fn tokenizer_reports_unknown_characters() {
    assert_eq!(tokenize("1 ? 2").unwrap_err(), CalcError::UnknownOperator('?'));
}

#[test]
fn tokenizer_reports_malformed_numbers() {
    assert_eq!(
        tokenize("9..1").unwrap_err(),
        CalcError::MalformedNumber(String::from("9..1"))
    );
}

#[test]
fn lexer_peeks_without_consuming() {
    let mut lexer = Lexer::new("1 + 2");
    let one = Token::Atom(Atom::Number(String::from("1")));
    assert_eq!(lexer.peek().unwrap(), Some(one.clone()));
    assert_eq!(lexer.peek().unwrap(), Some(one.clone()));
    assert_eq!(lexer.next().unwrap(), Some(one));
    assert_eq!(lexer.next().unwrap(), Some(Token::Op(Operation::Add)));
    assert_eq!(
        lexer.next().unwrap(),
        Some(Token::Atom(Atom::Number(String::from("2"))))
    );
    // exhaustion is a plain `None`, never an error, however often asked
    assert_eq!(lexer.next().unwrap(), None);
    assert_eq!(lexer.next().unwrap(), None);
    assert_eq!(lexer.peek().unwrap(), None);
}

#[test]
fn lexer_reports_the_bad_token_when_reached() {
    let mut lexer = Lexer::new("7 $");
    assert_eq!(
        lexer.next().unwrap(),
        Some(Token::Atom(Atom::Number(String::from("7"))))
    );
    assert_eq!(lexer.next().unwrap_err(), CalcError::UnknownOperator('$'));
}
