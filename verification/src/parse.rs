//! Rest-clause and construct parsers.
//!
//! Speculative recursive descent over a cursor index: each attempt works on
//! a position passed by value and either yields the parsed value with the
//! position after it, or yields nothing and leaves no state behind, so a
//! failed attempt never commits input. The simple form is always attempted
//! before the complete form, and within the simple form a pattern set is
//! attempted before a bare identifier.

use vstd::prelude::*;

use crate::ast::Arm;
use crate::ast::Bound;
use crate::ast::BoundView;
use crate::ast::Construct;
use crate::ast::ConstructView;
use crate::ast::RestClause;
use crate::ast::RestClauseView;
use crate::ast::Token;
use crate::ast::bound_wf;
use crate::ast::construct_wf;
use crate::ast::rest_wf;

verus! {

/// The one kind of error this parser reports: an expected construct was not
/// found. Failed speculative attempts are silent; only the final,
/// irrecoverable failure carries a kind.
#[derive(Clone, Copy, Debug, PartialEq, Eq, Structural)]
pub enum ErrorKind {
    /// The stream does not begin with a pattern.
    ExpectedPattern,
    /// No assignment marker follows the primary pattern.
    ExpectedAssign,
    /// No expression follows the assignment marker.
    ExpectedExpr,
    /// No `else` marker follows the subject expression.
    ExpectedElse,
    /// Neither the simple nor the complete form follows `else`.
    ExpectedAsOrMatch,
    /// Tokens remain after a fully parsed construct.
    UnexpectedToken,
}

/// A syntax error: what was expected, anchored at the token where parsing
/// could not continue.
#[derive(Clone, Copy, Debug, PartialEq, Eq, Structural)]
pub struct SyntaxError {
    pub pos: usize,
    pub kind: ErrorKind,
}

/// The human-readable wording of each error kind.
pub open spec fn spec_message(k: ErrorKind) -> Seq<char> {
    match k {
        ErrorKind::ExpectedPattern => "Expected a pattern"@,
        ErrorKind::ExpectedAssign => "Expected `=` after the pattern"@,
        ErrorKind::ExpectedExpr => "Expected an expression after `=`"@,
        ErrorKind::ExpectedElse => "Expected `else` after the expression"@,
        ErrorKind::ExpectedAsOrMatch => "Expected `as` or `match` after `else`"@,
        ErrorKind::UnexpectedToken => "Unexpected token after the construct"@,
    }
}

impl SyntaxError {
    /// The human-readable message of this error; its anchor is `pos`.
    pub fn message(&self) -> (r: String)
        ensures
            r@ == spec_message(self.kind),
    {
        match self.kind {
            ErrorKind::ExpectedPattern => String::from_str("Expected a pattern"),
            ErrorKind::ExpectedAssign => String::from_str("Expected `=` after the pattern"),
            ErrorKind::ExpectedExpr => String::from_str("Expected an expression after `=`"),
            ErrorKind::ExpectedElse => String::from_str("Expected `else` after the expression"),
            ErrorKind::ExpectedAsOrMatch => String::from_str(
                "Expected `as` or `match` after `else`",
            ),
            ErrorKind::UnexpectedToken => String::from_str("Unexpected token after the construct"),
        }
    }
}

/// One or more patterns separated by alternation, parsed greedily: after a
/// separator another pattern is required, and the list ends before the
/// first token that does not continue it.
pub open spec fn spec_parse_pat_list(ts: Seq<Token>, pos: int) -> Option<(Seq<u64>, int)>
    decreases ts.len() - pos,
{
    if pos < 0 || pos >= ts.len() {
        None
    } else {
        match ts[pos] {
            Token::Pat(h) => {
                if pos + 1 < ts.len() && ts[pos + 1] == Token::Alt {
                    match spec_parse_pat_list(ts, pos + 2) {
                        Some((rest, end)) => Some((seq![h] + rest, end)),
                        None => None,
                    }
                } else {
                    Some((seq![h], pos + 1))
                }
            },
            _ => None,
        }
    }
}

/// The bound of a simple rest clause. An absent `as` marker consumes
/// nothing and yields a wildcard. After `as`, a pattern set is attempted
/// first; if that attempt fails, the cursor backtracks fully (a consumed
/// leading separator included) and a single identifier is accepted instead.
pub open spec fn spec_parse_bound(ts: Seq<Token>, pos: int) -> Option<(BoundView, int)> {
    if !(0 <= pos < ts.len() && ts[pos] == Token::KwAs) {
        Some((BoundView::Wildcard, pos))
    } else {
        let leading_alt = pos + 1 < ts.len() && ts[pos + 1] == Token::Alt;
        let start = if leading_alt {
            pos + 2
        } else {
            pos + 1
        };
        match spec_parse_pat_list(ts, start) {
            Some((pats, end)) => Some((BoundView::PatternSet { leading_alt, pats }, end)),
            None => {
                if pos + 1 < ts.len() {
                    match ts[pos + 1] {
                        Token::Ident(h) => Some((BoundView::Ident(h), pos + 2)),
                        _ => None,
                    }
                } else {
                    None
                }
            },
        }
    }
}

/// The simple form: a bound followed by one divergent block.
pub open spec fn spec_parse_simple(ts: Seq<Token>, pos: int) -> Option<(RestClauseView, int)> {
    match spec_parse_bound(ts, pos) {
        Some((bound, p)) => {
            if 0 <= p < ts.len() {
                match ts[p] {
                    Token::Block(b) => Some((RestClauseView::Simple { bound, block: b }, p + 1)),
                    _ => None,
                }
            } else {
                None
            }
        },
        None => None,
    }
}

/// The arms of the complete form, parsed until the closing brace, which is
/// consumed. Each arm is `pattern => block`, optionally followed by a
/// separator; any malformed arm fails the whole attempt.
pub open spec fn spec_parse_arms(ts: Seq<Token>, pos: int) -> Option<(Seq<Arm>, int)>
    decreases ts.len() - pos,
{
    if pos < 0 || pos >= ts.len() {
        None
    } else if ts[pos] == Token::CloseBrace {
        Some((seq![], pos + 1))
    } else if pos + 2 < ts.len() && ts[pos + 1] == Token::FatArrow {
        match (ts[pos], ts[pos + 2]) {
            (Token::Pat(p), Token::Block(b)) => {
                let next = if pos + 3 < ts.len() && ts[pos + 3] == Token::Comma {
                    pos + 4
                } else {
                    pos + 3
                };
                match spec_parse_arms(ts, next) {
                    Some((rest, end)) => Some((seq![Arm { pat: p, block: b }] + rest, end)),
                    None => None,
                }
            },
            _ => None,
        }
    } else {
        None
    }
}

/// The complete form: a `match` marker, then a brace-delimited, non-empty
/// sequence of arms.
pub open spec fn spec_parse_complete(ts: Seq<Token>, pos: int) -> Option<(RestClauseView, int)> {
    if 0 <= pos && pos + 1 < ts.len() && ts[pos] == Token::KwMatch && ts[pos + 1]
        == Token::OpenBrace {
        match spec_parse_arms(ts, pos + 2) {
            Some((arms, end)) => {
                if arms.len() > 0 {
                    Some((RestClauseView::Complete { arms }, end))
                } else {
                    None
                }
            },
            None => None,
        }
    } else {
        None
    }
}

/// The rest clause: the simple form wins whenever it parses; the complete
/// form is attempted only after the simple attempt failed without
/// committing input.
pub open spec fn spec_parse_rest(ts: Seq<Token>, pos: int) -> Option<(RestClauseView, int)> {
    if spec_parse_simple(ts, pos) is Some {
        spec_parse_simple(ts, pos)
    } else {
        spec_parse_complete(ts, pos)
    }
}

/// The whole construct: primary pattern, assignment marker, subject
/// expression, `else` marker, rest clause, with nothing left over.
pub open spec fn spec_parse_construct(ts: Seq<Token>) -> Option<ConstructView> {
    if ts.len() >= 4 && ts[1] == Token::Assign && ts[3] == Token::KwElse {
        match (ts[0], ts[2]) {
            (Token::Pat(p), Token::Expr(e)) => match spec_parse_rest(ts, 4) {
                Some((rest, end)) => {
                    if end == ts.len() {
                        Some(ConstructView { pattern: p, expr: e, rest })
                    } else {
                        None
                    }
                },
                None => None,
            },
            _ => None,
        }
    } else {
        None
    }
}

/// The error a failing parse of a whole construct reports: the first
/// fixed-position element that is missing, or the two rest-clause forms at
/// the position after `else`, or the first trailing token.
pub open spec fn spec_parse_error(ts: Seq<Token>) -> SyntaxError {
    if !(ts.len() >= 1 && ts[0] is Pat) {
        SyntaxError { pos: 0, kind: ErrorKind::ExpectedPattern }
    } else if !(ts.len() >= 2 && ts[1] == Token::Assign) {
        SyntaxError { pos: 1, kind: ErrorKind::ExpectedAssign }
    } else if !(ts.len() >= 3 && ts[2] is Expr) {
        SyntaxError { pos: 2, kind: ErrorKind::ExpectedExpr }
    } else if !(ts.len() >= 4 && ts[3] == Token::KwElse) {
        SyntaxError { pos: 3, kind: ErrorKind::ExpectedElse }
    } else {
        match spec_parse_rest(ts, 4) {
            Some((_, end)) => SyntaxError { pos: end as usize, kind: ErrorKind::UnexpectedToken },
            None => SyntaxError { pos: 4, kind: ErrorKind::ExpectedAsOrMatch },
        }
    }
}

/// Executable mirror of [`spec_parse_pat_list`].
fn parse_pat_list(ts: &Vec<Token>, pos: usize) -> (r: Option<(Vec<u64>, usize)>)
    requires
        pos <= ts@.len(),
    ensures
        match r {
            Some((pats, end)) => spec_parse_pat_list(ts@, pos as int) == Some((pats@, end as int))
                && pats@.len() > 0 && pos < end <= ts@.len(),
            None => spec_parse_pat_list(ts@, pos as int) is None,
        },
    decreases ts@.len() - pos,
{
    if pos < ts.len() {
        match ts[pos] {
            Token::Pat(h) => {
                if pos + 1 < ts.len() && ts[pos + 1] == Token::Alt {
                    match parse_pat_list(ts, pos + 2) {
                        Some((rest, end)) => {
                            let mut pats = rest;
                            pats.insert(0, h);
                            proof {
                                assert(pats@ =~= seq![h] + pats@.drop_first());
                            }
                            Some((pats, end))
                        },
                        None => None,
                    }
                } else {
                    let pats: Vec<u64> = vec![h];
                    proof {
                        assert(pats@ =~= seq![h]);
                    }
                    Some((pats, pos + 1))
                }
            },
            _ => None,
        }
    } else {
        None
    }
}

/// Executable mirror of [`spec_parse_bound`].
fn parse_bound(ts: &Vec<Token>, pos: usize) -> (r: Option<(Bound, usize)>)
    requires
        pos <= ts@.len(),
    ensures
        match r {
            Some((bound, end)) => spec_parse_bound(ts@, pos as int) == Some((bound@, end as int))
                && bound_wf(bound@) && pos <= end <= ts@.len(),
            None => spec_parse_bound(ts@, pos as int) is None,
        },
{
    if pos < ts.len() && ts[pos] == Token::KwAs {
        let leading_alt = pos + 1 < ts.len() && ts[pos + 1] == Token::Alt;
        let start = if leading_alt {
            pos + 2
        } else {
            pos + 1
        };
        match parse_pat_list(ts, start) {
            Some((pats, end)) => Some((Bound::PatternSet { leading_alt, pats }, end)),
            None => {
                if pos + 1 < ts.len() {
                    match ts[pos + 1] {
                        Token::Ident(h) => Some((Bound::Ident(h), pos + 2)),
                        _ => None,
                    }
                } else {
                    None
                }
            },
        }
    } else {
        Some((Bound::Wildcard, pos))
    }
}

/// Executable mirror of [`spec_parse_simple`].
fn parse_simple(ts: &Vec<Token>, pos: usize) -> (r: Option<(RestClause, usize)>)
    requires
        pos <= ts@.len(),
    ensures
        match r {
            Some((rest, end)) => spec_parse_simple(ts@, pos as int) == Some((rest@, end as int))
                && rest_wf(rest@) && pos < end <= ts@.len(),
            None => spec_parse_simple(ts@, pos as int) is None,
        },
{
    match parse_bound(ts, pos) {
        Some((bound, p)) => {
            if p < ts.len() {
                match ts[p] {
                    Token::Block(b) => Some((RestClause::Simple { bound, block: b }, p + 1)),
                    _ => None,
                }
            } else {
                None
            }
        },
        None => None,
    }
}

/// Executable mirror of [`spec_parse_arms`].
fn parse_arms(ts: &Vec<Token>, pos: usize) -> (r: Option<(Vec<Arm>, usize)>)
    requires
        pos <= ts@.len(),
    ensures
        match r {
            Some((arms, end)) => spec_parse_arms(ts@, pos as int) == Some((arms@, end as int))
                && pos < end <= ts@.len(),
            None => spec_parse_arms(ts@, pos as int) is None,
        },
    decreases ts@.len() - pos,
{
    if pos >= ts.len() {
        return None;
    }
    if ts[pos] == Token::CloseBrace {
        let arms: Vec<Arm> = Vec::new();
        proof {
            assert(arms@ =~= seq![]);
        }
        return Some((arms, pos + 1));
    }
    if ts.len() - pos > 2 {
        let (p, b) = match (ts[pos], ts[pos + 1], ts[pos + 2]) {
            (Token::Pat(p), Token::FatArrow, Token::Block(b)) => (p, b),
            _ => {
                return None;
            },
        };
        let next = if pos + 3 < ts.len() && ts[pos + 3] == Token::Comma {
            pos + 4
        } else {
            pos + 3
        };
        match parse_arms(ts, next) {
            Some((rest, end)) => {
                let mut arms = rest;
                arms.insert(0, Arm { pat: p, block: b });
                proof {
                    assert(arms@ =~= seq![Arm { pat: p, block: b }] + arms@.drop_first());
                }
                Some((arms, end))
            },
            None => None,
        }
    } else {
        None
    }
}

/// Executable mirror of [`spec_parse_complete`].
fn parse_complete(ts: &Vec<Token>, pos: usize) -> (r: Option<(RestClause, usize)>)
    requires
        pos <= ts@.len(),
    ensures
        match r {
            Some((rest, end)) => spec_parse_complete(ts@, pos as int) == Some((rest@, end as int))
                && rest_wf(rest@) && pos < end <= ts@.len(),
            None => spec_parse_complete(ts@, pos as int) is None,
        },
{
    if ts.len() - pos > 1 && ts[pos] == Token::KwMatch && ts[pos + 1] == Token::OpenBrace {
        match parse_arms(ts, pos + 2) {
            Some((arms, end)) => {
                if arms.len() > 0 {
                    Some((RestClause::Complete { arms }, end))
                } else {
                    None
                }
            },
            None => None,
        }
    } else {
        None
    }
}

/// Parse the rest clause at `pos`. The simple form is attempted first; on
/// its silent failure the complete form is attempted; when both fail, the
/// error names the two expected alternatives, anchored at `pos` — the
/// position of the token following `else`.
pub fn parse_rest(ts: &Vec<Token>, pos: usize) -> (r: Result<(RestClause, usize), SyntaxError>)
    requires
        pos <= ts@.len(),
    ensures
        match r {
            Ok((rest, end)) => spec_parse_rest(ts@, pos as int) == Some((rest@, end as int))
                && rest_wf(rest@) && pos < end <= ts@.len(),
            Err(e) => spec_parse_rest(ts@, pos as int) is None && e == (SyntaxError {
                pos,
                kind: ErrorKind::ExpectedAsOrMatch,
            }),
        },
{
    if let Some((rest, end)) = parse_simple(ts, pos) {
        return Ok((rest, end));
    }
    if let Some((rest, end)) = parse_complete(ts, pos) {
        return Ok((rest, end));
    }
    Err(SyntaxError { pos, kind: ErrorKind::ExpectedAsOrMatch })
}

/// Parse one whole invocation: primary pattern, assignment marker, subject
/// expression, `else`, rest clause, end of stream. Either a complete,
/// well-formed construct is produced or a syntax error naming the first
/// failure; nothing partial.
pub fn parse_construct(ts: &Vec<Token>) -> (r: Result<Construct, SyntaxError>)
    ensures
        match r {
            Ok(c) => spec_parse_construct(ts@) == Some(c@) && construct_wf(c@),
            Err(e) => spec_parse_construct(ts@) is None && e == spec_parse_error(ts@),
        },
{
    if ts.len() < 1 {
        return Err(SyntaxError { pos: 0, kind: ErrorKind::ExpectedPattern });
    }
    let p = match ts[0] {
        Token::Pat(p) => p,
        _ => {
            return Err(SyntaxError { pos: 0, kind: ErrorKind::ExpectedPattern });
        },
    };
    if ts.len() < 2 || ts[1] != Token::Assign {
        return Err(SyntaxError { pos: 1, kind: ErrorKind::ExpectedAssign });
    }
    if ts.len() < 3 {
        return Err(SyntaxError { pos: 2, kind: ErrorKind::ExpectedExpr });
    }
    let e = match ts[2] {
        Token::Expr(e) => e,
        _ => {
            return Err(SyntaxError { pos: 2, kind: ErrorKind::ExpectedExpr });
        },
    };
    if ts.len() < 4 || ts[3] != Token::KwElse {
        return Err(SyntaxError { pos: 3, kind: ErrorKind::ExpectedElse });
    }
    match parse_rest(ts, 4) {
        Ok((rest, end)) => {
            if end == ts.len() {
                Ok(Construct { pattern: p, expr: e, rest })
            } else {
                Err(SyntaxError { pos: end, kind: ErrorKind::UnexpectedToken })
            }
        },
        Err(err) => Err(err),
    }
}

proof fn lemma_pat_list_tokens_len(pats: Seq<u64>)
    ensures
        pats.len() == 0 ==> crate::ast::pat_list_tokens(pats).len() == 0,
        pats.len() >= 1 ==> crate::ast::pat_list_tokens(pats).len() == 2 * pats.len() - 1,
    decreases pats.len(),
{
    if pats.len() > 1 {
        lemma_pat_list_tokens_len(pats.drop_first());
    }
}

proof fn lemma_arms_tokens_len(arms: Seq<Arm>)
    ensures
        crate::ast::arms_tokens(arms).len() == 4 * arms.len(),
    decreases arms.len(),
{
    if arms.len() > 0 {
        lemma_arms_tokens_len(arms.drop_first());
    }
}

proof fn lemma_pat_list_round_trip(ts: Seq<Token>, pos: int, pats: Seq<u64>)
    requires
        pats.len() >= 1,
        0 <= pos,
        pos + crate::ast::pat_list_tokens(pats).len() <= ts.len(),
        ts.subrange(pos, pos + crate::ast::pat_list_tokens(pats).len())
            == crate::ast::pat_list_tokens(pats),
        pos + crate::ast::pat_list_tokens(pats).len() < ts.len() ==> ts[pos
            + crate::ast::pat_list_tokens(pats).len()] != Token::Alt,
    ensures
        spec_parse_pat_list(ts, pos) == Some(
            (pats, pos + crate::ast::pat_list_tokens(pats).len()),
        ),
    decreases pats.len(),
{
    let toks = crate::ast::pat_list_tokens(pats);
    let len_t = toks.len() as int;
    lemma_pat_list_tokens_len(pats);
    assert(ts[pos] == Token::Pat(pats[0])) by {
        assert(ts.subrange(pos, pos + len_t)[0] == ts[pos]);
    }
    if pats.len() == 1 {
        assert(seq![pats[0]] =~= pats);
    } else {
        let rest = pats.drop_first();
        lemma_pat_list_tokens_len(rest);
        let rest_toks = crate::ast::pat_list_tokens(rest);
        let len_r = rest_toks.len() as int;
        assert(ts[pos + 1] == Token::Alt) by {
            assert(ts.subrange(pos, pos + len_t)[1] == ts[pos + 1]);
        }
        assert(ts.subrange(pos + 2, pos + 2 + len_r) =~= rest_toks) by {
            assert forall|k: int| 0 <= k < len_r implies ts.subrange(pos + 2, pos + 2 + len_r)[k]
                == rest_toks[k] by {
                assert(ts.subrange(pos + 2, pos + 2 + len_r)[k] == ts[pos + 2 + k]);
                assert(ts[pos + 2 + k] == ts.subrange(pos, pos + len_t)[2 + k]);
                assert(toks[2 + k] == rest_toks[k]);
            }
        }
        lemma_pat_list_round_trip(ts, pos + 2, rest);
        assert(seq![pats[0]] + rest =~= pats);
    }
}

proof fn lemma_bound_round_trip(ts: Seq<Token>, pos: int, b: BoundView)
    requires
        bound_wf(b),
        0 <= pos,
        pos + crate::ast::bound_tokens(b).len() < ts.len(),
        ts.subrange(pos, pos + crate::ast::bound_tokens(b).len()) == crate::ast::bound_tokens(b),
        ts[pos + crate::ast::bound_tokens(b).len()] is Block,
    ensures
        spec_parse_bound(ts, pos) == Some((b, pos + crate::ast::bound_tokens(b).len())),
{
    let toks = crate::ast::bound_tokens(b);
    let len_t = toks.len() as int;
    match b {
        BoundView::Wildcard => {
            assert(ts[pos] is Block);
        },
        BoundView::PatternSet { leading_alt, pats } => {
            lemma_pat_list_tokens_len(pats);
            let lead = if leading_alt {
                seq![Token::Alt]
            } else {
                seq![]
            };
            let lead_len = lead.len() as int;
            let body = crate::ast::pat_list_tokens(pats);
            let len_b = body.len() as int;
            assert(ts[pos] == Token::KwAs) by {
                assert(ts.subrange(pos, pos + len_t)[0] == ts[pos]);
            }
            assert(ts[pos + 1] == toks[1]) by {
                assert(ts.subrange(pos, pos + len_t)[1] == ts[pos + 1]);
            }
            if leading_alt {
                assert(toks[1] == Token::Alt);
            } else {
                assert(toks[1] == Token::Pat(pats[0]));
            }
            let start = pos + 1 + lead_len;
            assert(ts.subrange(start, start + len_b) =~= body) by {
                assert forall|k: int| 0 <= k < len_b implies ts.subrange(start, start + len_b)[k]
                    == body[k] by {
                    assert(ts.subrange(start, start + len_b)[k] == ts[start + k]);
                    assert(ts[start + k] == ts.subrange(pos, pos + len_t)[1 + lead_len + k]);
                    assert(toks[1 + lead_len + k] == body[k]);
                }
            }
            assert(ts[start + len_b] is Block);
            lemma_pat_list_round_trip(ts, start, pats);
        },
        BoundView::Ident(h) => {
            assert(ts[pos] == Token::KwAs) by {
                assert(ts.subrange(pos, pos + len_t)[0] == ts[pos]);
            }
            assert(ts[pos + 1] == Token::Ident(h)) by {
                assert(ts.subrange(pos, pos + len_t)[1] == ts[pos + 1]);
            }
        },
    }
}

proof fn lemma_arms_round_trip(ts: Seq<Token>, pos: int, arms: Seq<Arm>)
    requires
        0 <= pos,
        pos + crate::ast::arms_tokens(arms).len() + 1 <= ts.len(),
        ts.subrange(pos, pos + crate::ast::arms_tokens(arms).len())
            == crate::ast::arms_tokens(arms),
        ts[pos + crate::ast::arms_tokens(arms).len()] == Token::CloseBrace,
    ensures
        spec_parse_arms(ts, pos) == Some(
            (arms, pos + crate::ast::arms_tokens(arms).len() + 1),
        ),
    decreases arms.len(),
{
    let toks = crate::ast::arms_tokens(arms);
    let len_t = toks.len() as int;
    lemma_arms_tokens_len(arms);
    if arms.len() == 0 {
        assert(ts[pos] == Token::CloseBrace);
        assert(arms =~= Seq::<Arm>::empty());
    } else {
        let rest = arms.drop_first();
        lemma_arms_tokens_len(rest);
        let rest_toks = crate::ast::arms_tokens(rest);
        let len_r = rest_toks.len() as int;
        assert(ts[pos] == Token::Pat(arms[0].pat)) by {
            assert(ts.subrange(pos, pos + len_t)[0] == ts[pos]);
        }
        assert(ts[pos + 1] == Token::FatArrow) by {
            assert(ts.subrange(pos, pos + len_t)[1] == ts[pos + 1]);
        }
        assert(ts[pos + 2] == Token::Block(arms[0].block)) by {
            assert(ts.subrange(pos, pos + len_t)[2] == ts[pos + 2]);
        }
        assert(ts[pos + 3] == Token::Comma) by {
            assert(ts.subrange(pos, pos + len_t)[3] == ts[pos + 3]);
        }
        assert(ts.subrange(pos + 4, pos + 4 + len_r) =~= rest_toks) by {
            assert forall|k: int| 0 <= k < len_r implies ts.subrange(pos + 4, pos + 4 + len_r)[k]
                == rest_toks[k] by {
                assert(ts.subrange(pos + 4, pos + 4 + len_r)[k] == ts[pos + 4 + k]);
                assert(ts[pos + 4 + k] == ts.subrange(pos, pos + len_t)[4 + k]);
                assert(toks[4 + k] == rest_toks[k]);
            }
        }
        lemma_arms_round_trip(ts, pos + 4, rest);
        assert(seq![arms[0]] + rest =~= arms);
    }
}

proof fn lemma_rest_round_trip(ts: Seq<Token>, pos: int, r: RestClauseView)
    requires
        rest_wf(r),
        0 <= pos,
        ts.subrange(pos, ts.len() as int) == crate::ast::rest_tokens(r),
        ts.len() - pos == crate::ast::rest_tokens(r).len(),
    ensures
        spec_parse_rest(ts, pos) == Some((r, ts.len() as int)),
{
    let toks = crate::ast::rest_tokens(r);
    let len_t = toks.len() as int;
    match r {
        RestClauseView::Simple { bound, block } => {
            let bt = crate::ast::bound_tokens(bound);
            let len_b = bt.len() as int;
            assert(ts.subrange(pos, pos + len_b) =~= bt) by {
                assert forall|k: int| 0 <= k < len_b implies ts.subrange(pos, pos + len_b)[k]
                    == bt[k] by {
                    assert(ts.subrange(pos, pos + len_b)[k] == ts[pos + k]);
                    assert(ts[pos + k] == ts.subrange(pos, ts.len() as int)[k]);
                    assert(toks[k] == bt[k]);
                }
            }
            assert(ts[pos + len_b] == Token::Block(block)) by {
                assert(ts.subrange(pos, ts.len() as int)[len_b] == ts[pos + len_b]);
                assert(toks[len_b] == Token::Block(block));
            }
            lemma_bound_round_trip(ts, pos, bound);
        },
        RestClauseView::Complete { arms } => {
            lemma_arms_tokens_len(arms);
            let at = crate::ast::arms_tokens(arms);
            let len_a = at.len() as int;
            assert(ts[pos] == Token::KwMatch) by {
                assert(ts.subrange(pos, ts.len() as int)[0] == ts[pos]);
            }
            assert(ts[pos + 1] == Token::OpenBrace) by {
                assert(ts.subrange(pos, ts.len() as int)[1] == ts[pos + 1]);
            }
            // the simple form fails here: the bound defaults to a wildcard
            // without consuming anything, and `match` is no block
            assert(spec_parse_bound(ts, pos) == Some((BoundView::Wildcard, pos)));
            assert(spec_parse_simple(ts, pos) is None);
            assert(ts.subrange(pos + 2, pos + 2 + len_a) =~= at) by {
                assert forall|k: int| 0 <= k < len_a implies ts.subrange(pos + 2, pos + 2 + len_a)[k]
                    == at[k] by {
                    assert(ts.subrange(pos + 2, pos + 2 + len_a)[k] == ts[pos + 2 + k]);
                    assert(ts[pos + 2 + k] == ts.subrange(pos, ts.len() as int)[2 + k]);
                    assert(toks[2 + k] == at[k]);
                }
            }
            assert(ts[pos + 2 + len_a] == Token::CloseBrace) by {
                assert(ts.subrange(pos, ts.len() as int)[2 + len_a] == ts[pos + 2 + len_a]);
                assert(toks[2 + len_a] == Token::CloseBrace);
            }
            lemma_arms_round_trip(ts, pos + 2, arms);
        },
    }
}

/// Parse round-trip: serializing any well-formed construct back to surface
/// tokens and parsing those tokens yields the construct again. In
/// particular both rest-clause forms and all three bound sub-forms are
/// independently parseable, and a construct whose serialized form carries
/// no `as` marker — a bare `else` block — parses to the defaulted wildcard
/// bound.
pub proof fn lemma_construct_round_trip(c: ConstructView)
    requires
        construct_wf(c),
    ensures
        spec_parse_construct(crate::ast::construct_tokens(c)) == Some(c),
{
    let ts = crate::ast::construct_tokens(c);
    let head = seq![
        Token::Pat(c.pattern),
        Token::Assign,
        Token::Expr(c.expr),
        Token::KwElse,
    ];
    let rt = crate::ast::rest_tokens(c.rest);
    assert(ts.subrange(4, ts.len() as int) =~= rt) by {
        assert forall|k: int| 0 <= k < rt.len() implies ts.subrange(4, ts.len() as int)[k]
            == rt[k] by {
            assert(ts.subrange(4, ts.len() as int)[k] == ts[4 + k]);
            assert(ts[4 + k] == rt[k]);
        }
    }
    lemma_rest_round_trip(ts, 4, c.rest);
    assert(spec_parse_construct(ts) == Some(ConstructView { pattern: c.pattern, expr: c.expr, rest: c.rest }));
    assert(ConstructView { pattern: c.pattern, expr: c.expr, rest: c.rest } =~= c);
}

} // verus!
