//! Lowering: the parsed construct is emitted as an equivalent
//! exhaustiveness-checked match construct.
//!
//! The emitted statement sequence binds the subject expression once to a
//! synthetic temporary, destructures the temporary against the primary
//! pattern, and on failure evaluates a fallback match over the temporary.
//! The fallback match opens with the primary pattern as a
//! diagnostics-suppressed unreachable arm — it exists purely so that the
//! host's exhaustiveness checker can verify that the remaining arms cover
//! every other shape — and then carries the rest clause's arms in source
//! order.

use vstd::prelude::*;

use crate::ast::Arm;
use crate::ast::Bound;
use crate::ast::BoundView;
use crate::ast::Construct;
use crate::ast::ConstructView;
use crate::ast::RestClause;
use crate::ast::RestClauseView;

verus! {

/// One token of the emitted statement sequence. Opaque payloads are
/// transcribed from the input unchanged; everything else is fixed syntax
/// that the host renders literally.
#[derive(Clone, Copy, Debug, PartialEq, Eq, Structural)]
pub enum OutToken {
    /// The binding keyword of the two emitted bindings.
    KwLet,
    /// The `else` of the emitted conditional binding.
    KwElse,
    /// The `match` of the emitted fallback match.
    KwMatch,
    /// The assignment marker of the emitted bindings.
    Assign,
    /// The statement terminator.
    Semi,
    /// The opening brace of the else block and of the match body.
    OpenBrace,
    /// The closing brace of the else block and of the match body.
    CloseBrace,
    /// The arrow between an emitted arm's pattern and its body.
    FatArrow,
    /// The separator after an emitted arm.
    Comma,
    /// The wildcard pattern of a defaulted bound.
    Wildcard,
    /// The alternation separator inside an emitted pattern set.
    Alt,
    /// The synthetic temporary name, in binding and reference positions
    /// alike.
    TempBinder,
    /// An attribute hiding the temporary binding from documentation.
    AttrHidden,
    /// An attribute silencing unused-binding diagnostics on the
    /// unreachable arm.
    AttrAllowUnused,
    /// The body of the unreachable arm: a hint to the host that the branch
    /// is statically known to be unreachable.
    Unreachable,
    /// An opaque pattern payload, transcribed verbatim.
    Pat(u64),
    /// An opaque expression payload, transcribed verbatim.
    Expr(u64),
    /// An opaque statement-block payload, transcribed verbatim.
    Block(u64),
    /// An opaque identifier payload, transcribed verbatim.
    Ident(u64),
}

/// Emitted tokens of a non-empty pattern list: the patterns joined by
/// alternation.
pub open spec fn out_pat_list(pats: Seq<u64>) -> Seq<OutToken>
    decreases pats.len(),
{
    if pats.len() == 0 {
        seq![]
    } else if pats.len() == 1 {
        seq![OutToken::Pat(pats[0])]
    } else {
        seq![OutToken::Pat(pats[0]), OutToken::Alt] + out_pat_list(pats.drop_first())
    }
}

/// Emitted tokens of a bound, in arm-pattern position.
pub open spec fn out_bound(b: BoundView) -> Seq<OutToken> {
    match b {
        BoundView::Wildcard => seq![OutToken::Wildcard],
        BoundView::PatternSet { leading_alt, pats } => (if leading_alt {
            seq![OutToken::Alt]
        } else {
            seq![]
        }) + out_pat_list(pats),
        BoundView::Ident(h) => seq![OutToken::Ident(h)],
    }
}

/// Emitted tokens of the explicit arms of a complete rest clause, in
/// source order, each written `pattern => block ,`.
pub open spec fn out_arms(arms: Seq<Arm>) -> Seq<OutToken>
    decreases arms.len(),
{
    if arms.len() == 0 {
        seq![]
    } else {
        seq![
            OutToken::Pat(arms[0].pat),
            OutToken::FatArrow,
            OutToken::Block(arms[0].block),
            OutToken::Comma,
        ] + out_arms(arms.drop_first())
    }
}

/// Emitted tokens of the fallback arms a rest clause contributes: one
/// bound arm for the simple form, the explicit arms in source order for
/// the complete form.
pub open spec fn out_rest_arms(r: RestClauseView) -> Seq<OutToken> {
    match r {
        RestClauseView::Simple { bound, block } => out_bound(bound) + seq![
            OutToken::FatArrow,
            OutToken::Block(block),
            OutToken::Comma,
        ],
        RestClauseView::Complete { arms } => out_arms(arms),
    }
}

/// The fixed opening of the emitted sequence: the subject expression bound
/// once to the temporary, the conditional destructure of the temporary
/// against the primary pattern, and the unreachable primary arm opening
/// the fallback match.
pub open spec fn out_header(c: ConstructView) -> Seq<OutToken> {
    seq![
        OutToken::AttrHidden,
        OutToken::KwLet,
        OutToken::TempBinder,
        OutToken::Assign,
        OutToken::Expr(c.expr),
        OutToken::Semi,
        OutToken::KwLet,
        OutToken::Pat(c.pattern),
        OutToken::Assign,
        OutToken::TempBinder,
        OutToken::KwElse,
        OutToken::OpenBrace,
        OutToken::KwMatch,
        OutToken::TempBinder,
        OutToken::OpenBrace,
        OutToken::AttrAllowUnused,
        OutToken::Pat(c.pattern),
        OutToken::FatArrow,
        OutToken::Unreachable,
        OutToken::Comma,
    ]
}

/// The fixed closing of the emitted sequence: the match body, the else
/// block and the conditional binding are closed.
pub open spec fn out_tail() -> Seq<OutToken> {
    seq![OutToken::CloseBrace, OutToken::CloseBrace, OutToken::Semi]
}

/// The whole emitted statement sequence for a parsed construct.
pub open spec fn spec_lower(c: ConstructView) -> Seq<OutToken> {
    out_header(c) + out_rest_arms(c.rest) + out_tail()
}

/// Executable mirror of [`out_pat_list`], emitting the list from index `i`
/// on.
fn lower_pat_list(pats: &Vec<u64>, i: usize) -> (r: Vec<OutToken>)
    requires
        i < pats@.len(),
    ensures
        r@ == out_pat_list(pats@.skip(i as int)),
    decreases pats@.len() - i,
{
    let mut out: Vec<OutToken> = Vec::new();
    out.push(OutToken::Pat(pats[i]));
    if pats.len() - i > 1 {
        out.push(OutToken::Alt);
        let mut rest = lower_pat_list(pats, i + 1);
        out.append(&mut rest);
        proof {
            assert(pats@.skip(i as int).drop_first() =~= pats@.skip(i + 1));
            assert(out@ =~= out_pat_list(pats@.skip(i as int)));
        }
    } else {
        proof {
            assert(pats@.skip(i as int).len() == 1);
            assert(out@ =~= out_pat_list(pats@.skip(i as int)));
        }
    }
    out
}

/// Executable mirror of [`out_bound`].
fn lower_bound(b: &Bound) -> (r: Vec<OutToken>)
    requires
        crate::ast::bound_wf(b@),
    ensures
        r@ == out_bound(b@),
{
    match b {
        Bound::Wildcard => {
            let out: Vec<OutToken> = vec![OutToken::Wildcard];
            proof {
                assert(out@ =~= out_bound(b@));
            }
            out
        },
        Bound::PatternSet { leading_alt, pats } => {
            let mut out: Vec<OutToken> = Vec::new();
            if *leading_alt {
                out.push(OutToken::Alt);
            }
            let mut body = lower_pat_list(pats, 0);
            out.append(&mut body);
            proof {
                assert(pats@.skip(0) =~= pats@);
                assert(out@ =~= out_bound(b@));
            }
            out
        },
        Bound::Ident(h) => {
            let out: Vec<OutToken> = vec![OutToken::Ident(*h)];
            proof {
                assert(out@ =~= out_bound(b@));
            }
            out
        },
    }
}

/// Executable mirror of [`out_arms`], emitting the arms from index `i` on.
fn lower_arms(arms: &Vec<Arm>, i: usize) -> (r: Vec<OutToken>)
    requires
        i <= arms@.len(),
    ensures
        r@ == out_arms(arms@.skip(i as int)),
    decreases arms@.len() - i,
{
    let mut out: Vec<OutToken> = Vec::new();
    if i < arms.len() {
        out.push(OutToken::Pat(arms[i].pat));
        out.push(OutToken::FatArrow);
        out.push(OutToken::Block(arms[i].block));
        out.push(OutToken::Comma);
        let mut rest = lower_arms(arms, i + 1);
        out.append(&mut rest);
        proof {
            assert(arms@.skip(i as int).drop_first() =~= arms@.skip(i + 1));
            assert(out@ =~= out_arms(arms@.skip(i as int)));
        }
    } else {
        proof {
            assert(arms@.skip(i as int) =~= Seq::<Arm>::empty());
            assert(out@ =~= out_arms(arms@.skip(i as int)));
        }
    }
    out
}

/// Executable mirror of [`out_rest_arms`].
fn lower_rest_arms(r: &RestClause) -> (out: Vec<OutToken>)
    requires
        crate::ast::rest_wf(r@),
    ensures
        out@ == out_rest_arms(r@),
{
    match r {
        RestClause::Simple { bound, block } => {
            let mut out = lower_bound(bound);
            out.push(OutToken::FatArrow);
            out.push(OutToken::Block(*block));
            out.push(OutToken::Comma);
            proof {
                assert(out@ =~= out_rest_arms(r@));
            }
            out
        },
        RestClause::Complete { arms } => {
            let out = lower_arms(arms, 0);
            proof {
                assert(arms@.skip(0) =~= arms@);
            }
            out
        },
    }
}

/// Lower a parsed construct to its replacement statement sequence. The
/// emission is deterministic: the result is exactly [`spec_lower`] of the
/// construct.
pub fn lower(c: &Construct) -> (r: Vec<OutToken>)
    requires
        crate::ast::construct_wf(c@),
    ensures
        r@ == spec_lower(c@),
{
    let mut out: Vec<OutToken> = Vec::new();
    out.push(OutToken::AttrHidden);
    out.push(OutToken::KwLet);
    out.push(OutToken::TempBinder);
    out.push(OutToken::Assign);
    out.push(OutToken::Expr(c.expr));
    out.push(OutToken::Semi);
    out.push(OutToken::KwLet);
    out.push(OutToken::Pat(c.pattern));
    out.push(OutToken::Assign);
    out.push(OutToken::TempBinder);
    out.push(OutToken::KwElse);
    out.push(OutToken::OpenBrace);
    out.push(OutToken::KwMatch);
    out.push(OutToken::TempBinder);
    out.push(OutToken::OpenBrace);
    out.push(OutToken::AttrAllowUnused);
    out.push(OutToken::Pat(c.pattern));
    out.push(OutToken::FatArrow);
    out.push(OutToken::Unreachable);
    out.push(OutToken::Comma);
    proof {
        assert(out@ =~= out_header(c@));
    }
    let mut mid = lower_rest_arms(&c.rest);
    out.append(&mut mid);
    out.push(OutToken::CloseBrace);
    out.push(OutToken::CloseBrace);
    out.push(OutToken::Semi);
    proof {
        assert(out@ =~= spec_lower(c@));
    }
    out
}

/// How many subject-expression payloads stand in `s` from index `i` on.
pub open spec fn count_subject_from(s: Seq<OutToken>, i: int) -> nat
    decreases s.len() - i,
{
    if i < 0 || i >= s.len() {
        0
    } else {
        (if s[i] is Expr {
            1nat
        } else {
            0nat
        }) + count_subject_from(s, i + 1)
    }
}

/// How many subject-expression payloads stand in `s`.
pub open spec fn count_subject(s: Seq<OutToken>) -> nat {
    count_subject_from(s, 0)
}

proof fn lemma_count_shift(a: Seq<OutToken>, b: Seq<OutToken>, j: int)
    requires
        0 <= j <= b.len(),
    ensures
        count_subject_from(a + b, a.len() + j) == count_subject_from(b, j),
    decreases b.len() - j,
{
    if j < b.len() {
        assert((a + b)[a.len() + j] == b[j]);
        lemma_count_shift(a, b, j + 1);
    }
}

proof fn lemma_count_concat_from(a: Seq<OutToken>, b: Seq<OutToken>, i: int)
    requires
        0 <= i <= a.len(),
    ensures
        count_subject_from(a + b, i) == count_subject_from(a, i) + count_subject_from(b, 0),
    decreases a.len() - i,
{
    if i < a.len() {
        assert((a + b)[i] == a[i]);
        lemma_count_concat_from(a, b, i + 1);
    } else {
        lemma_count_shift(a, b, 0);
    }
}

/// The subject count distributes over concatenation.
pub proof fn lemma_count_concat(a: Seq<OutToken>, b: Seq<OutToken>)
    ensures
        count_subject(a + b) == count_subject(a) + count_subject(b),
{
    lemma_count_concat_from(a, b, 0);
}

/// A stretch free of subject-expression payloads counts zero.
proof fn lemma_count_none(s: Seq<OutToken>, i: int)
    requires
        0 <= i <= s.len(),
        forall|k: int| i <= k < s.len() ==> !(s[k] is Expr),
    ensures
        count_subject_from(s, i) == 0,
    decreases s.len() - i,
{
    if i < s.len() {
        lemma_count_none(s, i + 1);
    }
}

proof fn lemma_out_pat_list_no_subject(pats: Seq<u64>)
    ensures
        count_subject(out_pat_list(pats)) == 0,
    decreases pats.len(),
{
    if pats.len() <= 1 {
        lemma_count_none(out_pat_list(pats), 0);
    } else {
        lemma_out_pat_list_no_subject(pats.drop_first());
        let head = seq![OutToken::Pat(pats[0]), OutToken::Alt];
        lemma_count_concat(head, out_pat_list(pats.drop_first()));
        lemma_count_none(head, 0);
    }
}

proof fn lemma_out_arms_no_subject(arms: Seq<Arm>)
    ensures
        count_subject(out_arms(arms)) == 0,
    decreases arms.len(),
{
    if arms.len() == 0 {
        lemma_count_none(out_arms(arms), 0);
    } else {
        lemma_out_arms_no_subject(arms.drop_first());
        let head = seq![
            OutToken::Pat(arms[0].pat),
            OutToken::FatArrow,
            OutToken::Block(arms[0].block),
            OutToken::Comma,
        ];
        lemma_count_concat(head, out_arms(arms.drop_first()));
        lemma_count_none(head, 0);
    }
}

proof fn lemma_out_rest_arms_no_subject(r: RestClauseView)
    ensures
        count_subject(out_rest_arms(r)) == 0,
{
    match r {
        RestClauseView::Simple { bound, block } => {
            let tail = seq![OutToken::FatArrow, OutToken::Block(block), OutToken::Comma];
            lemma_count_concat(out_bound(bound), tail);
            lemma_count_none(tail, 0);
            match bound {
                BoundView::Wildcard => {
                    lemma_count_none(out_bound(bound), 0);
                },
                BoundView::PatternSet { leading_alt, pats } => {
                    let lead = if leading_alt {
                        seq![OutToken::Alt]
                    } else {
                        seq![]
                    };
                    lemma_count_concat(lead, out_pat_list(pats));
                    lemma_count_none(lead, 0);
                    lemma_out_pat_list_no_subject(pats);
                },
                BoundView::Ident(h) => {
                    lemma_count_none(out_bound(bound), 0);
                },
            }
        },
        RestClauseView::Complete { arms } => {
            lemma_out_arms_no_subject(arms);
        },
    }
}

/// Re-evaluation guarantee, structurally: the emitted sequence holds the
/// subject expression exactly once — as the initializer of the synthetic
/// temporary — so one execution of the construct evaluates it exactly
/// once, whichever branch is ultimately taken; the destructure and the
/// fallback match both read the temporary instead.
pub proof fn lemma_subject_evaluated_once(c: ConstructView)
    ensures
        spec_lower(c)[2] == OutToken::TempBinder,
        spec_lower(c)[4] == OutToken::Expr(c.expr),
        count_subject(spec_lower(c)) == 1,
{
    let h = out_header(c);
    let m = out_rest_arms(c.rest);
    let t = out_tail();
    assert(spec_lower(c)[4] == h[4]);
    assert(spec_lower(c)[2] == h[2]);
    let ha = seq![OutToken::AttrHidden, OutToken::KwLet, OutToken::TempBinder, OutToken::Assign];
    let he = seq![OutToken::Expr(c.expr)];
    let hb = seq![
        OutToken::Semi,
        OutToken::KwLet,
        OutToken::Pat(c.pattern),
        OutToken::Assign,
        OutToken::TempBinder,
        OutToken::KwElse,
        OutToken::OpenBrace,
        OutToken::KwMatch,
        OutToken::TempBinder,
        OutToken::OpenBrace,
        OutToken::AttrAllowUnused,
        OutToken::Pat(c.pattern),
        OutToken::FatArrow,
        OutToken::Unreachable,
        OutToken::Comma,
    ];
    assert(h =~= ha + he + hb);
    lemma_count_concat(ha + he, hb);
    lemma_count_concat(ha, he);
    lemma_count_none(ha, 0);
    lemma_count_none(hb, 0);
    assert(count_subject_from(he, 1) == 0);
    assert(count_subject(he) == 1);
    lemma_count_concat(h + m, t);
    lemma_count_concat(h, m);
    lemma_out_rest_arms_no_subject(c.rest);
    lemma_count_none(t, 0);
}

/// The primary pattern is emitted unchanged in exactly two syntactic
/// positions: the initial destructure and the unreachable arm that opens
/// the fallback match — any symbol it introduces must be valid in both.
pub proof fn lemma_primary_pattern_twice(c: ConstructView)
    ensures
        spec_lower(c)[7] == OutToken::Pat(c.pattern),
        spec_lower(c)[16] == OutToken::Pat(c.pattern),
{
    let h = out_header(c);
    assert(spec_lower(c)[7] == h[7]);
    assert(spec_lower(c)[16] == h[16]);
}

/// The block payloads standing in `s` from index `i` on, in order.
pub open spec fn blocks_from(s: Seq<OutToken>, i: int) -> Seq<u64>
    decreases s.len() - i,
{
    if i < 0 || i >= s.len() {
        seq![]
    } else {
        match s[i] {
            OutToken::Block(b) => seq![b] + blocks_from(s, i + 1),
            _ => blocks_from(s, i + 1),
        }
    }
}

/// The block payloads standing in `s`, in order: in a stretch of emitted
/// arms, one per arm — its body.
pub open spec fn arm_blocks(s: Seq<OutToken>) -> Seq<u64> {
    blocks_from(s, 0)
}

proof fn lemma_blocks_shift(a: Seq<OutToken>, b: Seq<OutToken>, j: int)
    requires
        0 <= j <= b.len(),
    ensures
        blocks_from(a + b, a.len() + j) == blocks_from(b, j),
    decreases b.len() - j,
{
    if j < b.len() {
        assert((a + b)[a.len() + j] == b[j]);
        lemma_blocks_shift(a, b, j + 1);
    }
}

proof fn lemma_blocks_concat_from(a: Seq<OutToken>, b: Seq<OutToken>, i: int)
    requires
        0 <= i <= a.len(),
    ensures
        blocks_from(a + b, i) == blocks_from(a, i) + blocks_from(b, 0),
    decreases a.len() - i,
{
    if i < a.len() {
        assert((a + b)[i] == a[i]);
        lemma_blocks_concat_from(a, b, i + 1);
        assert(blocks_from(a + b, i) =~= blocks_from(a, i) + blocks_from(b, 0));
    } else {
        lemma_blocks_shift(a, b, 0);
        assert(blocks_from(a + b, i) =~= blocks_from(a, i) + blocks_from(b, 0));
    }
}

/// The emitted block order distributes over concatenation.
pub proof fn lemma_arm_blocks_concat(a: Seq<OutToken>, b: Seq<OutToken>)
    ensures
        arm_blocks(a + b) == arm_blocks(a) + arm_blocks(b),
{
    lemma_blocks_concat_from(a, b, 0);
}

/// A bound, in arm-pattern position, holds no block payload.
pub proof fn lemma_out_bound_no_blocks(b: BoundView)
    ensures
        arm_blocks(out_bound(b)) == Seq::<u64>::empty(),
{
    reveal_with_fuel(blocks_from, 4);
    match b {
        BoundView::Wildcard => {
            assert(arm_blocks(out_bound(b)) =~= Seq::<u64>::empty());
        },
        BoundView::PatternSet { leading_alt, pats } => {
            let lead = if leading_alt {
                seq![OutToken::Alt]
            } else {
                seq![]
            };
            lemma_arm_blocks_concat(lead, out_pat_list(pats));
            lemma_out_pat_list_no_blocks(pats);
            assert(arm_blocks(lead) =~= Seq::<u64>::empty());
            assert(arm_blocks(out_bound(b)) =~= Seq::<u64>::empty());
        },
        BoundView::Ident(h) => {
            assert(arm_blocks(out_bound(b)) =~= Seq::<u64>::empty());
        },
    }
}

proof fn lemma_out_pat_list_no_blocks(pats: Seq<u64>)
    ensures
        arm_blocks(out_pat_list(pats)) == Seq::<u64>::empty(),
    decreases pats.len(),
{
    reveal_with_fuel(blocks_from, 4);
    if pats.len() <= 1 {
        assert(arm_blocks(out_pat_list(pats)) =~= Seq::<u64>::empty());
    } else {
        lemma_out_pat_list_no_blocks(pats.drop_first());
        let head = seq![OutToken::Pat(pats[0]), OutToken::Alt];
        lemma_arm_blocks_concat(head, out_pat_list(pats.drop_first()));
        assert(arm_blocks(head) =~= Seq::<u64>::empty());
        assert(arm_blocks(out_pat_list(pats)) =~= Seq::<u64>::empty());
    }
}

/// An emitted arm tail `=> block ,` holds exactly its one block.
pub proof fn lemma_arm_blocks_triple(block: u64)
    ensures
        arm_blocks(seq![OutToken::FatArrow, OutToken::Block(block), OutToken::Comma]) == seq![
            block,
        ],
{
    let s = seq![OutToken::FatArrow, OutToken::Block(block), OutToken::Comma];
    assert(blocks_from(s, 3) =~= Seq::<u64>::empty());
    assert(blocks_from(s, 2) =~= Seq::<u64>::empty());
    assert(blocks_from(s, 1) =~= seq![block]);
    assert(blocks_from(s, 0) =~= seq![block]);
}

/// The blocks of the emitted explicit arms are the source arms' blocks, in
/// source order.
pub proof fn lemma_out_arms_blocks(arms: Seq<Arm>)
    ensures
        arm_blocks(out_arms(arms)) == arms.map_values(|a: Arm| a.block),
    decreases arms.len(),
{
    if arms.len() == 0 {
        assert(arm_blocks(out_arms(arms)) =~= arms.map_values(|a: Arm| a.block));
    } else {
        lemma_out_arms_blocks(arms.drop_first());
        let head = seq![
            OutToken::Pat(arms[0].pat),
            OutToken::FatArrow,
            OutToken::Block(arms[0].block),
            OutToken::Comma,
        ];
        lemma_arm_blocks_concat(head, out_arms(arms.drop_first()));
        assert(blocks_from(head, 4) =~= Seq::<u64>::empty());
        assert(blocks_from(head, 3) =~= Seq::<u64>::empty());
        assert(blocks_from(head, 2) =~= seq![arms[0].block]);
        assert(blocks_from(head, 1) =~= seq![arms[0].block]);
        assert(arm_blocks(head) =~= seq![arms[0].block]);
        assert(arms.drop_first().map_values(|a: Arm| a.block) =~= arms.map_values(
            |a: Arm| a.block,
        ).drop_first());
        assert(arm_blocks(out_arms(arms)) =~= arms.map_values(|a: Arm| a.block));
    }
}

} // verus!
