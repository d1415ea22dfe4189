use std::collections::HashMap;

use calc_core::expression::Expr;
use calc_core::lexicon::{Atom, CalcError, Operation, Token, Unary};

/// Reduces a parsed tree to a number against a variable environment,
/// the way the host shell does: standard IEEE-754 double arithmetic,
/// `n √ x` as the n-th root of x.
fn eval(e: &Expr, vars: &HashMap<char, f64>) -> f64 {
    match e {
        Expr::Atom(Atom::Number(s)) => s.parse::<f64>().unwrap(),
        Expr::Atom(Atom::Var(c)) => *vars.get(c).unwrap(),
        Expr::Operation { op, left, right } => {
            let l = eval(left, vars);
            let r = eval(right, vars);
            match op {
                Operation::Add => l + r,
                Operation::Subtract => l - r,
                Operation::Multiply => l * r,
                Operation::Divide => l / r,
                Operation::Pow => l.powf(r),
                Operation::Root => r.powf(1.0 / l),
                Operation::Assign => panic!("assignment is not a numeric operator"),
            }
        }
        Expr::Unary { op, expr } => match op {
            Unary::Negate => -eval(expr, vars),
            Unary::Positive => eval(expr, vars),
        },
    }
}

fn parse(input: &str) -> Expr {
    Expr::parse_stream(input).unwrap()
}

#[test]
fn test_expr2() {
    let vars: HashMap<char, f64> = HashMap::new();
    let s = eval(&parse("1"), &vars);
    assert_eq!(s, 1.0);

    let s = parse("1");
    assert_eq!(s.to_display_string(), "1");
}

#[test]
fn test_expr3() {
    let vars: HashMap<char, f64> = HashMap::new();

    let s = eval(&parse("1 + 2 * 3"), &vars);
    assert_eq!(s, 7.0);
    let s = parse("1 + 2 * 3");
    assert_eq!(s.to_display_string(), "(+ 1 (* 2 3))");
}

#[test]
fn test_expr4() {
    let vars: HashMap<char, f64> = HashMap::new();
    let s = eval(&parse("1"), &vars);
    assert_eq!(s, 1.0);
    let s = parse("a + b * c * d + e");
    assert_eq!(s.to_display_string(), "(+ (+ a (* (* b c) d)) e)");
}

#[test]
fn test_expr5() {
    let vars: HashMap<char, f64> = HashMap::new();

    let s = eval(&parse("1"), &vars);
    assert_eq!(s, 1.0);
    let s = parse("1");
    assert_eq!(s.to_display_string(), "1");
}

#[test]
fn test_expr6() {
    let vars: HashMap<char, f64> = HashMap::new();

    let s = eval(&parse("--1 * 2"), &vars);
    assert_eq!(s, 2.0);
    let s = parse("--1 * 2");
    assert_eq!(s.to_display_string(), "(* (-(-1)) 2)");
}

#[test]
fn test_expr7() {
    let mut vars: HashMap<char, f64> = HashMap::new();
    vars.insert('f', 1.0);
    vars.insert('g', 5.0);

    let expr = parse("--f * g");
    assert_eq!(expr.to_display_string(), "(* (-(-f)) g)");

    let s = eval(&expr, &vars);
    assert_eq!(s, 5.0);
}

#[test]
fn test_expr8() {}

#[test]
fn test_expr9() {}

#[test]
fn test_expr10() {}

#[test]
fn test_expr11() {}

#[test]
fn pow_is_right_associative() {
    let vars: HashMap<char, f64> = HashMap::new();
    let e = parse("2 ^ 3 ^ 2");
    assert_eq!(e.to_display_string(), "(^ 2 (^ 3 2))");
    assert_eq!(eval(&e, &vars), 512.0);
}

#[test]
fn root_takes_degree_on_the_left() {
    let vars: HashMap<char, f64> = HashMap::new();
    let e = parse("2 \u{221a} 9");
    assert_eq!(e.to_display_string(), "(\u{221a} 2 9)");
    assert_eq!(eval(&e, &vars), 3.0);
}

#[test]
fn implicit_multiplication_of_variable() {
    let mut vars: HashMap<char, f64> = HashMap::new();
    vars.insert('x', 5.0);
    let e = parse("2x");
    assert_eq!(e.to_display_string(), "(* 2 x)");
    assert_eq!(eval(&e, &vars), 10.0);
}

#[test]
fn implicit_multiplication_of_parentheses() {
    let vars: HashMap<char, f64> = HashMap::new();
    let e = parse("2(3 + 4)");
    assert_eq!(e.to_display_string(), "(* 2 (+ 3 4))");
    assert_eq!(eval(&e, &vars), 14.0);

    let e = parse("(1 + 2)3");
    assert_eq!(e.to_display_string(), "(* (+ 1 2) 3)");
    assert_eq!(eval(&e, &vars), 9.0);
}

#[test]
fn implicit_multiplication_of_adjacent_variables() {
    let mut vars: HashMap<char, f64> = HashMap::new();
    vars.insert('a', 3.0);
    vars.insert('b', 4.0);
    let e = parse("ab");
    assert_eq!(e.to_display_string(), "(* a b)");
    assert_eq!(eval(&e, &vars), 12.0);
}

#[test]
fn bound_variables_match_explicit_arithmetic() {
    let mut vars: HashMap<char, f64> = HashMap::new();
    vars.insert('a', 2.0);
    vars.insert('b', 3.0);
    vars.insert('c', 5.0);
    vars.insert('d', 7.0);
    vars.insert('e', 11.0);
    let e = parse("a + b * c * d + e");
    let expected = 2.0 + 3.0 * 5.0 * 7.0 + 11.0;
    assert_eq!(eval(&e, &vars), expected);
}

#[test]
fn assignment_updates_environment_and_prints_nothing_numeric() {
    let mut vars: HashMap<char, f64> = HashMap::new();
    let e = parse("x = 3 + 4");
    let (name, rhs) = e.is_assign().expect("an assignment to a bare variable");
    assert_eq!(name, 'x');
    assert_eq!(rhs.to_display_string(), "(+ 3 4)");
    let value = eval(rhs, &vars);
    vars.insert(name, value);
    assert_eq!(vars[&'x'], 7.0);
}

#[test]
fn non_assignments_are_not_assignments() {
    assert!(parse("1 + 2").is_assign().is_none());
    // an assignment whose left side is not a bare variable is not
    // treated as one
    assert!(parse("1 + 2 = 3").is_assign().is_none());
    assert!(parse("xy = 3").is_assign().is_none());
}

#[test]
fn decimal_literals() {
    let vars: HashMap<char, f64> = HashMap::new();
    let e = parse("1.5 + 2.25");
    assert_eq!(e.to_display_string(), "(+ 1.5 2.25)");
    assert_eq!(eval(&e, &vars), 3.75);
}

#[test]
fn leading_operator_is_an_unexpected_token() {
    assert_eq!(
        Expr::parse_stream("* 1").unwrap_err(),
        CalcError::UnexpectedToken(Token::Op(Operation::Multiply))
    );
}

#[test]
fn unclosed_parenthesis_is_reported() {
    assert_eq!(
        Expr::parse_stream("(1 + 2").unwrap_err(),
        CalcError::UnclosedParenthesis
    );
}

#[test]
fn undefined_variable_is_reported() {
    let e = parse("y");
    let defined: Vec<char> = Vec::new();
    assert_eq!(e.first_undefined_var(&defined), Some('y'));
    assert_eq!(
        e.check_vars(&defined).unwrap_err(),
        CalcError::UndefinedVariable('y')
    );
    let defined = vec!['y'];
    assert_eq!(e.first_undefined_var(&defined), None);
    assert!(e.check_vars(&defined).is_ok());
}

#[test]
fn variables_are_checked_left_to_right() {
    let e = parse("a + b");
    let defined = vec!['a'];
    assert_eq!(e.first_undefined_var(&defined), Some('b'));
    let defined = vec!['b'];
    assert_eq!(e.first_undefined_var(&defined), Some('a'));
}

#[test]
fn end_of_input_mid_expression() {
    assert_eq!(
        Expr::parse_stream("1 +").unwrap_err(),
        CalcError::UnexpectedEndOfInput
    );
    assert_eq!(
        Expr::parse_stream("").unwrap_err(),
        CalcError::UnexpectedEndOfInput
    );
}

#[test]
fn stray_closing_parenthesis() {
    assert_eq!(
        Expr::parse_stream(")").unwrap_err(),
        CalcError::UnexpectedToken(Token::Paren(calc_core::lexicon::Paren::Close))
    );
    assert_eq!(
        Expr::parse_stream("1)").unwrap_err(),
        CalcError::UnexpectedToken(Token::Paren(calc_core::lexicon::Paren::Close))
    );
}

#[test]
fn unknown_character_is_reported() {
    assert_eq!(
        Expr::parse_stream("1 # 2").unwrap_err(),
        CalcError::UnknownOperator('#')
    );
}

#[test]
fn second_dot_is_a_malformed_number() {
    assert_eq!(
        Expr::parse_stream("1.2.3").unwrap_err(),
        CalcError::MalformedNumber(String::from("1.2.3"))
    );
}

#[test]
fn parse_is_deterministic() {
    let a = parse("1 + 2 * 3").to_display_string();
    let b = parse("1 + 2 * 3").to_display_string();
    assert_eq!(a, b);
}

#[test]
fn display_reflects_nesting_structurally() {
    // the rendering is fully parenthesized, so re-reading the display
    // string shows the same operator nesting the tree has
    let e = parse("1 + 2 * 3");
    match &e {
        Expr::Operation { op: Operation::Add, left, right } => {
            assert_eq!(left.to_display_string(), "1");
            assert_eq!(right.to_display_string(), "(* 2 3)");
        }
        _ => panic!("expected a sum at the root"),
    }
    assert_eq!(e.to_display_string(), "(+ 1 (* 2 3))");
}
