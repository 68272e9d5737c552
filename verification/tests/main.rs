//! The six end-to-end scenarios: each builds the abstract token stream of
//! one invocation, parses it, and plays the host's part — evaluating the
//! subject once, judging which patterns it matches, and running the chosen
//! branch — to check the construct's observable behaviour.

use let_else::ast::Token;
use let_else::parse::parse_construct;
use let_else::semantics::Outcome;
use let_else::semantics::decide;

// `let_else!(Ok(value) = value else { return format!("Error"); })`
// Pat(0) = `Ok(value)`, Expr(0) = `value`, Block(0) = the else block.
fn run_default_bound(value: Result<i32, String>) -> String {
    let tokens = vec![
        Token::Pat(0),
        Token::Assign,
        Token::Expr(0),
        Token::KwElse,
        Token::Block(0),
    ];
    let construct = parse_construct(&tokens).unwrap();
    let subject = value; // Expr(0), evaluated exactly once
    let primary = matches!(subject, Ok(_)); // Pat(0)
    let arm_flags = vec![true]; // a wildcard bound matches anything
    match decide(&construct.rest, primary, &arm_flags).unwrap() {
        Outcome::Continuation => {
            let value = match subject {
                Ok(v) => v,
                Err(_) => unreachable!(),
            };
            format!("Value: {}", value)
        }
        Outcome::Diverted { block, .. } => {
            assert_eq!(block, 0);
            format!("Error")
        }
    }
}

#[test]
fn test1() {
    assert_eq!(run_default_bound(Ok(42)), "Value: 42");
    assert_eq!(run_default_bound(Err("Something went wrong".to_string())), "Error");
}

// `let_else!(Ok(value) = value else as Err(err) { return format!("Error: {}", err); })`
// Pat(1) = `Err(err)`.
fn run_pattern_bound(value: Result<i32, String>) -> String {
    let tokens = vec![
        Token::Pat(0),
        Token::Assign,
        Token::Expr(0),
        Token::KwElse,
        Token::KwAs,
        Token::Pat(1),
        Token::Block(0),
    ];
    let construct = parse_construct(&tokens).unwrap();
    let subject = value;
    let primary = matches!(subject, Ok(_));
    let arm_flags = vec![matches!(subject, Err(_))]; // Pat(1)
    match decide(&construct.rest, primary, &arm_flags).unwrap() {
        Outcome::Continuation => {
            let value = match subject {
                Ok(v) => v,
                Err(_) => unreachable!(),
            };
            format!("Value: {}", value)
        }
        Outcome::Diverted { block, .. } => {
            assert_eq!(block, 0);
            let err = match subject {
                Err(e) => e,
                Ok(_) => unreachable!(),
            };
            format!("Error: {}", err)
        }
    }
}

#[test]
fn test2() {
    assert_eq!(run_pattern_bound(Ok(42)), "Value: 42");
    assert_eq!(
        run_pattern_bound(Err("Something went wrong".to_string())),
        "Error: Something went wrong"
    );
}

// `let_else!(Ok(value) = value else as err { return format!("Error: {:?}", err); })`
// Ident(1) = `err`: it binds the entire unmatched value.
fn run_ident_bound(value: Result<i32, String>) -> String {
    let tokens = vec![
        Token::Pat(0),
        Token::Assign,
        Token::Expr(0),
        Token::KwElse,
        Token::KwAs,
        Token::Ident(1),
        Token::Block(0),
    ];
    let construct = parse_construct(&tokens).unwrap();
    let subject = value;
    let primary = matches!(subject, Ok(_));
    let arm_flags = vec![true]; // a bare identifier matches anything
    match decide(&construct.rest, primary, &arm_flags).unwrap() {
        Outcome::Continuation => {
            let value = match subject {
                Ok(v) => v,
                Err(_) => unreachable!(),
            };
            format!("Value: {}", value)
        }
        Outcome::Diverted { block, .. } => {
            assert_eq!(block, 0);
            let err = subject; // the whole value, not its payload
            format!("Error: {:?}", err)
        }
    }
}

#[test]
fn test3() {
    assert_eq!(run_ident_bound(Ok(42)), "Value: 42");
    assert_eq!(
        run_ident_bound(Err("Something went wrong".to_string())),
        "Error: Err(\"Something went wrong\")"
    );
}

#[allow(dead_code)]
enum Triple {
    A(i32),
    B(String),
    C(f64),
}

// `let_else!(Triple::A(value) = value else as Triple::B(_) | Triple::C(_) { ... })`
// Pat(1) = `Triple::B(_)`, Pat(2) = `Triple::C(_)`.
fn run_pattern_set(value: Triple) -> String {
    let tokens = vec![
        Token::Pat(0),
        Token::Assign,
        Token::Expr(0),
        Token::KwElse,
        Token::KwAs,
        Token::Pat(1),
        Token::Alt,
        Token::Pat(2),
        Token::Block(0),
    ];
    let construct = parse_construct(&tokens).unwrap();
    let subject = value;
    let primary = matches!(subject, Triple::A(_));
    let arm_flags = vec![matches!(subject, Triple::B(_) | Triple::C(_))];
    match decide(&construct.rest, primary, &arm_flags).unwrap() {
        Outcome::Continuation => {
            let value = match subject {
                Triple::A(v) => v,
                _ => unreachable!(),
            };
            format!("Value: {}", value)
        }
        Outcome::Diverted { block, .. } => {
            assert_eq!(block, 0);
            format!("Error: B or C")
        }
    }
}

#[test]
fn test4() {
    assert_eq!(run_pattern_set(Triple::A(42)), "Value: 42");
    assert_eq!(run_pattern_set(Triple::B("Hello".to_string())), "Error: B or C");
    assert_eq!(run_pattern_set(Triple::C(3.14)), "Error: B or C");
}

// `let_else!(Triple::A(value) = value else match {
//     Triple::B(b) => { return format!("Error: B with value {}", b); },
//     Triple::C(c) => { return format!("Error: C with value {}", c); },
// })`
fn run_complete(value: Triple) -> String {
    let tokens = vec![
        Token::Pat(0),
        Token::Assign,
        Token::Expr(0),
        Token::KwElse,
        Token::KwMatch,
        Token::OpenBrace,
        Token::Pat(1),
        Token::FatArrow,
        Token::Block(0),
        Token::Comma,
        Token::Pat(2),
        Token::FatArrow,
        Token::Block(1),
        Token::Comma,
        Token::CloseBrace,
    ];
    let construct = parse_construct(&tokens).unwrap();
    let subject = value;
    let primary = matches!(subject, Triple::A(_));
    let arm_flags = vec![
        matches!(subject, Triple::B(_)),
        matches!(subject, Triple::C(_)),
    ];
    match decide(&construct.rest, primary, &arm_flags).unwrap() {
        Outcome::Continuation => {
            let value = match subject {
                Triple::A(v) => v,
                _ => unreachable!(),
            };
            format!("Value: {}", value)
        }
        Outcome::Diverted { block: 0, .. } => {
            let b = match subject {
                Triple::B(b) => b,
                _ => unreachable!(),
            };
            format!("Error: B with value {}", b)
        }
        Outcome::Diverted { block: 1, .. } => {
            let c = match subject {
                Triple::C(c) => c,
                _ => unreachable!(),
            };
            format!("Error: C with value {}", c)
        }
        Outcome::Diverted { .. } => unreachable!(),
    }
}

#[test]
fn test5() {
    assert_eq!(run_complete(Triple::A(42)), "Value: 42");
    assert_eq!(
        run_complete(Triple::B("Hello".to_string())),
        "Error: B with value Hello"
    );
    assert_eq!(run_complete(Triple::C(3.14)), "Error: C with value 3.14");
}

#[allow(dead_code)]
enum Uniform {
    A(i32),
    B(u32),
    C(u32),
}

// `let_else!(Uniform::A(value) = value else as | Uniform::B(y) | Uniform::C(y) { ... })`
// The pattern set carries a leading alternation separator.
fn run_leading_alt(value: Uniform) -> String {
    let tokens = vec![
        Token::Pat(0),
        Token::Assign,
        Token::Expr(0),
        Token::KwElse,
        Token::KwAs,
        Token::Alt,
        Token::Pat(1),
        Token::Alt,
        Token::Pat(2),
        Token::Block(0),
    ];
    let construct = parse_construct(&tokens).unwrap();
    let subject = value;
    let primary = matches!(subject, Uniform::A(_));
    let arm_flags = vec![matches!(subject, Uniform::B(_) | Uniform::C(_))];
    match decide(&construct.rest, primary, &arm_flags).unwrap() {
        Outcome::Continuation => {
            let value = match subject {
                Uniform::A(v) => v,
                _ => unreachable!(),
            };
            format!("Value: {}", value)
        }
        Outcome::Diverted { block, .. } => {
            assert_eq!(block, 0);
            let y = match subject {
                Uniform::B(y) | Uniform::C(y) => y,
                _ => unreachable!(),
            };
            format!("Error: B or C with value {}", y)
        }
    }
}

#[test]
fn test6() {
    assert_eq!(run_leading_alt(Uniform::A(42)), "Value: 42");
    assert_eq!(run_leading_alt(Uniform::B(100)), "Error: B or C with value 100");
    assert_eq!(run_leading_alt(Uniform::C(200)), "Error: B or C with value 200");
}
