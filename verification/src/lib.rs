//! A conditional destructuring bind ("bind-or-else"): a subject expression is
//! evaluated once, destructured against a primary pattern, and — when that
//! fails — handed to one of several alternative blocks chosen by which
//! remaining shape matched.
//!
//! The library works on an abstract token stream: patterns, expressions,
//! identifiers and statement blocks arrive as opaque handles that the host
//! toolkit resolves; keywords and separators are explicit tokens. The parser
//! is a speculative recursive-descent parser over a cursor index, and the
//! lowering emits an exhaustiveness-checked match construct as a new token
//! sequence in the same abstract form.

use vstd::prelude::*;

pub mod ast;
pub mod lower;
pub mod parse;
pub mod semantics;

verus! {

/// One invocation of the transform: parse the token stream of a single
/// construct and, on success, emit the replacement statement sequence.
/// Either a complete construct is parsed and lowered, or a syntax error
/// naming the first failure comes back; nothing partial is ever produced.
pub fn let_else(ts: &Vec<ast::Token>) -> (r: Result<Vec<lower::OutToken>, parse::SyntaxError>)
    ensures
        match r {
            Ok(out) => parse::spec_parse_construct(ts@) matches Some(c) && out@
                == lower::spec_lower(c),
            Err(e) => parse::spec_parse_construct(ts@) is None && e == parse::spec_parse_error(
                ts@,
            ),
        },
{
    match parse::parse_construct(ts) {
        Ok(c) => Ok(lower::lower(&c)),
        Err(e) => Err(e),
    }
}

} // verus!
