//! Structural checks: the parsed shapes, the exact emitted token sequence,
//! arm order, and every error kind with an input that provokes it.

use let_else::ast::Bound;
use let_else::ast::RestClause;
use let_else::ast::Token;
use let_else::lower::OutToken;
use let_else::parse::ErrorKind;
use let_else::parse::SyntaxError;
use let_else::parse::parse_construct;
use let_else::semantics::Outcome;
use let_else::semantics::decide;

fn construct_prefix() -> Vec<Token> {
    vec![Token::Pat(0), Token::Assign, Token::Expr(0), Token::KwElse]
}

#[test]
fn absent_as_marker_yields_wildcard_bound() {
    let mut tokens = construct_prefix();
    tokens.push(Token::Block(0));
    let c = parse_construct(&tokens).unwrap();
    assert_eq!(c.pattern, 0);
    assert_eq!(c.expr, 0);
    match c.rest {
        RestClause::Simple { bound: Bound::Wildcard, block } => assert_eq!(block, 0),
        _ => panic!("expected a simple rest clause with the defaulted wildcard bound"),
    }
}

#[test]
fn pattern_set_keeps_patterns_and_leading_separator() {
    let mut tokens = construct_prefix();
    tokens.extend(vec![
        Token::KwAs,
        Token::Alt,
        Token::Pat(7),
        Token::Alt,
        Token::Pat(9),
        Token::Block(3),
    ]);
    let c = parse_construct(&tokens).unwrap();
    match c.rest {
        RestClause::Simple { bound: Bound::PatternSet { leading_alt, pats }, block } => {
            assert!(leading_alt);
            assert_eq!(pats, vec![7, 9]);
            assert_eq!(block, 3);
        }
        _ => panic!("expected a simple rest clause with a pattern set"),
    }
}

#[test]
fn bare_identifier_bound_parses_after_pattern_attempt_fails() {
    let mut tokens = construct_prefix();
    tokens.extend(vec![Token::KwAs, Token::Ident(5), Token::Block(2)]);
    let c = parse_construct(&tokens).unwrap();
    match c.rest {
        RestClause::Simple { bound: Bound::Ident(h), block } => {
            assert_eq!(h, 5);
            assert_eq!(block, 2);
        }
        _ => panic!("expected a simple rest clause with an identifier bound"),
    }
}

#[test]
fn complete_form_keeps_arms_in_source_order() {
    let mut tokens = construct_prefix();
    tokens.extend(vec![
        Token::KwMatch,
        Token::OpenBrace,
        Token::Pat(1),
        Token::FatArrow,
        Token::Block(10),
        Token::Comma,
        Token::Pat(2),
        Token::FatArrow,
        Token::Block(20),
        Token::Comma,
        Token::Pat(3),
        Token::FatArrow,
        Token::Block(30),
        Token::CloseBrace,
    ]);
    let c = parse_construct(&tokens).unwrap();
    match c.rest {
        RestClause::Complete { arms } => {
            assert_eq!(arms.len(), 3);
            assert_eq!((arms[0].pat, arms[0].block), (1, 10));
            assert_eq!((arms[1].pat, arms[1].block), (2, 20));
            assert_eq!((arms[2].pat, arms[2].block), (3, 30));
        }
        _ => panic!("expected a complete rest clause"),
    }
}

#[test]
fn lowered_output_is_exact_for_the_simple_form() {
    let mut tokens = construct_prefix();
    tokens.push(Token::Block(0));
    let out = let_else::let_else(&tokens).unwrap();
    let expected = vec![
        OutToken::AttrHidden,
        OutToken::KwLet,
        OutToken::TempBinder,
        OutToken::Assign,
        OutToken::Expr(0),
        OutToken::Semi,
        OutToken::KwLet,
        OutToken::Pat(0),
        OutToken::Assign,
        OutToken::TempBinder,
        OutToken::KwElse,
        OutToken::OpenBrace,
        OutToken::KwMatch,
        OutToken::TempBinder,
        OutToken::OpenBrace,
        OutToken::AttrAllowUnused,
        OutToken::Pat(0),
        OutToken::FatArrow,
        OutToken::Unreachable,
        OutToken::Comma,
        OutToken::Wildcard,
        OutToken::FatArrow,
        OutToken::Block(0),
        OutToken::Comma,
        OutToken::CloseBrace,
        OutToken::CloseBrace,
        OutToken::Semi,
    ];
    assert_eq!(out, expected);
}

#[test]
fn subject_expression_is_emitted_exactly_once() {
    let mut tokens = construct_prefix();
    tokens.extend(vec![
        Token::KwMatch,
        Token::OpenBrace,
        Token::Pat(1),
        Token::FatArrow,
        Token::Block(10),
        Token::Comma,
        Token::Pat(2),
        Token::FatArrow,
        Token::Block(20),
        Token::Comma,
        Token::CloseBrace,
    ]);
    let out = let_else::let_else(&tokens).unwrap();
    let subject_uses = out.iter().filter(|t| matches!(t, OutToken::Expr(_))).count();
    assert_eq!(subject_uses, 1);
    // the one use initializes the synthetic temporary
    assert_eq!(out[2], OutToken::TempBinder);
    assert_eq!(out[3], OutToken::Assign);
    assert_eq!(out[4], OutToken::Expr(0));
}

#[test]
fn lowered_fallback_blocks_keep_source_order() {
    let mut tokens = construct_prefix();
    tokens.extend(vec![
        Token::KwMatch,
        Token::OpenBrace,
        Token::Pat(1),
        Token::FatArrow,
        Token::Block(10),
        Token::Comma,
        Token::Pat(2),
        Token::FatArrow,
        Token::Block(20),
        Token::Comma,
        Token::CloseBrace,
    ]);
    let out = let_else::let_else(&tokens).unwrap();
    let blocks: Vec<u64> = out
        .iter()
        .filter_map(|t| match t {
            OutToken::Block(b) => Some(*b),
            _ => None,
        })
        .collect();
    assert_eq!(blocks, vec![10, 20]);
}

#[test]
fn first_matching_arm_wins_when_several_match() {
    let mut tokens = construct_prefix();
    tokens.extend(vec![
        Token::KwMatch,
        Token::OpenBrace,
        Token::Pat(1),
        Token::FatArrow,
        Token::Block(10),
        Token::Comma,
        Token::Pat(2),
        Token::FatArrow,
        Token::Block(20),
        Token::Comma,
        Token::CloseBrace,
    ]);
    let c = parse_construct(&tokens).unwrap();
    let both_match = vec![true, true];
    assert_eq!(
        decide(&c.rest, false, &both_match),
        Some(Outcome::Diverted { arm: 0, block: 10 })
    );
    let only_second = vec![false, true];
    assert_eq!(
        decide(&c.rest, false, &only_second),
        Some(Outcome::Diverted { arm: 1, block: 20 })
    );
    // a primary match never runs a fallback block
    assert_eq!(decide(&c.rest, true, &both_match), Some(Outcome::Continuation));
}

#[test]
fn missing_pieces_are_reported_at_their_position() {
    let err = |tokens: Vec<Token>| -> SyntaxError { let_else::let_else(&tokens).unwrap_err() };
    assert_eq!(
        err(vec![]),
        SyntaxError { pos: 0, kind: ErrorKind::ExpectedPattern }
    );
    assert_eq!(
        err(vec![Token::KwElse]),
        SyntaxError { pos: 0, kind: ErrorKind::ExpectedPattern }
    );
    assert_eq!(
        err(vec![Token::Pat(0)]),
        SyntaxError { pos: 1, kind: ErrorKind::ExpectedAssign }
    );
    assert_eq!(
        err(vec![Token::Pat(0), Token::Assign]),
        SyntaxError { pos: 2, kind: ErrorKind::ExpectedExpr }
    );
    assert_eq!(
        err(vec![Token::Pat(0), Token::Assign, Token::Expr(0)]),
        SyntaxError { pos: 3, kind: ErrorKind::ExpectedElse }
    );
}

#[test]
fn malformed_rest_clause_names_the_expected_alternatives() {
    // neither `as ...` nor `match {...}` after `else`: the error is anchored
    // at the token following `else`
    let mut tokens = construct_prefix();
    tokens.push(Token::Comma);
    let e = let_else::let_else(&tokens).unwrap_err();
    assert_eq!(e, SyntaxError { pos: 4, kind: ErrorKind::ExpectedAsOrMatch });
    assert_eq!(e.message(), "Expected `as` or `match` after `else`");
}

#[test]
fn empty_complete_form_is_rejected() {
    let mut tokens = construct_prefix();
    tokens.extend(vec![Token::KwMatch, Token::OpenBrace, Token::CloseBrace]);
    let e = let_else::let_else(&tokens).unwrap_err();
    assert_eq!(e, SyntaxError { pos: 4, kind: ErrorKind::ExpectedAsOrMatch });
}

#[test]
fn bound_without_block_is_rejected() {
    let mut tokens = construct_prefix();
    tokens.extend(vec![Token::KwAs, Token::Pat(1)]);
    let e = let_else::let_else(&tokens).unwrap_err();
    assert_eq!(e, SyntaxError { pos: 4, kind: ErrorKind::ExpectedAsOrMatch });
}

#[test]
fn trailing_tokens_are_rejected() {
    let mut tokens = construct_prefix();
    tokens.push(Token::Block(0));
    tokens.push(Token::Comma);
    let e = let_else::let_else(&tokens).unwrap_err();
    assert_eq!(e, SyntaxError { pos: 5, kind: ErrorKind::UnexpectedToken });
}
