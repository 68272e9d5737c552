//! Grammar model: the surface syntax of the construct, and its
//! re-serialization back to token form.
//!
//! Patterns, expressions, identifiers and statement blocks are opaque
//! payloads owned by the host toolkit; the model carries them as plain
//! numeric handles and only transcribes them.

use vstd::prelude::*;

verus! {

/// One token of the abstract input stream of a single invocation.
///
/// Keywords and separators are explicit; `Pat`, `Expr`, `Ident` and `Block`
/// carry a handle into the host's side tables for the opaque payloads. A
/// bare identifier is handed over as `Ident`, never as `Pat`.
#[derive(Clone, Copy, Debug, PartialEq, Eq, Structural)]
pub enum Token {
    /// The `as` marker introducing an explicit bound.
    KwAs,
    /// The `match` marker introducing the complete form.
    KwMatch,
    /// The `else` marker between the subject expression and the rest clause.
    KwElse,
    /// The assignment marker between the primary pattern and the subject.
    Assign,
    /// The alternation separator between patterns of a pattern set.
    Alt,
    /// The arrow between an arm's pattern and its block.
    FatArrow,
    /// The separator after an arm.
    Comma,
    /// The opening brace of the complete form's arm list.
    OpenBrace,
    /// The closing brace of the complete form's arm list.
    CloseBrace,
    /// An opaque identifier payload.
    Ident(u64),
    /// An opaque structural pattern payload.
    Pat(u64),
    /// An opaque expression payload.
    Expr(u64),
    /// An opaque statement-block payload.
    Block(u64),
}

/// The binder of a simple rest clause.
#[derive(Debug)]
pub enum Bound {
    /// No explicit binder was given: matches any non-primary value.
    Wildcard,
    /// One or more alternative patterns joined by alternation, optionally
    /// led by a separator.
    PatternSet { leading_alt: bool, pats: Vec<u64> },
    /// A single new name binding the entire unmatched value.
    Ident(u64),
}

/// Mathematical view of [`Bound`].
#[verifier::ext_equal]
pub enum BoundView {
    Wildcard,
    PatternSet { leading_alt: bool, pats: Seq<u64> },
    Ident(u64),
}

impl View for Bound {
    type V = BoundView;

    open spec fn view(&self) -> BoundView {
        match self {
            Bound::Wildcard => BoundView::Wildcard,
            Bound::PatternSet { leading_alt, pats } => BoundView::PatternSet {
                leading_alt: *leading_alt,
                pats: pats@,
            },
            Bound::Ident(h) => BoundView::Ident(*h),
        }
    }
}

/// One explicit arm of the complete form: a pattern and its block.
#[derive(Clone, Copy, Debug, PartialEq, Eq, Structural)]
pub struct Arm {
    pub pat: u64,
    pub block: u64,
}

/// The `else` continuation of the construct.
#[derive(Debug)]
pub enum RestClause {
    /// A single bound plus one divergent block.
    Simple { bound: Bound, block: u64 },
    /// An ordered, non-empty sequence of explicit (pattern, block) arms.
    Complete { arms: Vec<Arm> },
}

/// Mathematical view of [`RestClause`].
#[verifier::ext_equal]
pub enum RestClauseView {
    Simple { bound: BoundView, block: u64 },
    Complete { arms: Seq<Arm> },
}

impl View for RestClause {
    type V = RestClauseView;

    open spec fn view(&self) -> RestClauseView {
        match self {
            RestClause::Simple { bound, block } => RestClauseView::Simple {
                bound: bound@,
                block: *block,
            },
            RestClause::Complete { arms } => RestClauseView::Complete { arms: arms@ },
        }
    }
}

/// A fully parsed construct: primary pattern, subject expression, rest
/// clause. Built only by a successful parse.
#[derive(Debug)]
pub struct Construct {
    pub pattern: u64,
    pub expr: u64,
    pub rest: RestClause,
}

/// Mathematical view of [`Construct`].
#[verifier::ext_equal]
pub struct ConstructView {
    pub pattern: u64,
    pub expr: u64,
    pub rest: RestClauseView,
}

impl View for Construct {
    type V = ConstructView;

    open spec fn view(&self) -> ConstructView {
        ConstructView { pattern: self.pattern, expr: self.expr, rest: self.rest@ }
    }
}

/// A pattern set holds at least one pattern.
pub open spec fn bound_wf(b: BoundView) -> bool {
    b matches BoundView::PatternSet { pats, .. } ==> pats.len() > 0
}

/// A complete rest clause holds at least one arm; a simple one holds a
/// well-formed bound.
pub open spec fn rest_wf(r: RestClauseView) -> bool {
    match r {
        RestClauseView::Simple { bound, .. } => bound_wf(bound),
        RestClauseView::Complete { arms } => arms.len() > 0,
    }
}

/// Well-formedness of a whole construct.
pub open spec fn construct_wf(c: ConstructView) -> bool {
    rest_wf(c.rest)
}

/// Surface tokens of a pattern set's body: the patterns joined by `Alt`.
pub open spec fn pat_list_tokens(pats: Seq<u64>) -> Seq<Token>
    decreases pats.len(),
{
    if pats.len() == 0 {
        seq![]
    } else if pats.len() == 1 {
        seq![Token::Pat(pats[0])]
    } else {
        seq![Token::Pat(pats[0]), Token::Alt] + pat_list_tokens(pats.drop_first())
    }
}

/// Surface tokens of a bound. A wildcard is written as nothing at all:
/// it is what an absent `as` marker means.
pub open spec fn bound_tokens(b: BoundView) -> Seq<Token> {
    match b {
        BoundView::Wildcard => seq![],
        BoundView::PatternSet { leading_alt, pats } => seq![Token::KwAs] + (if leading_alt {
            seq![Token::Alt]
        } else {
            seq![]
        }) + pat_list_tokens(pats),
        BoundView::Ident(h) => seq![Token::KwAs, Token::Ident(h)],
    }
}

/// Surface tokens of a sequence of explicit arms, each written
/// `pattern => block ,`.
pub open spec fn arms_tokens(arms: Seq<Arm>) -> Seq<Token>
    decreases arms.len(),
{
    if arms.len() == 0 {
        seq![]
    } else {
        seq![
            Token::Pat(arms[0].pat),
            Token::FatArrow,
            Token::Block(arms[0].block),
            Token::Comma,
        ] + arms_tokens(arms.drop_first())
    }
}

/// Surface tokens of a rest clause, as they stand after the `else` marker.
pub open spec fn rest_tokens(r: RestClauseView) -> Seq<Token> {
    match r {
        RestClauseView::Simple { bound, block } => bound_tokens(bound) + seq![Token::Block(block)],
        RestClauseView::Complete { arms } => seq![Token::KwMatch, Token::OpenBrace]
            + arms_tokens(arms) + seq![Token::CloseBrace],
    }
}

/// Surface tokens of a whole construct:
/// `pattern = expression else <rest>`.
pub open spec fn construct_tokens(c: ConstructView) -> Seq<Token> {
    seq![Token::Pat(c.pattern), Token::Assign, Token::Expr(c.expr), Token::KwElse]
        + rest_tokens(c.rest)
}

} // verus!
