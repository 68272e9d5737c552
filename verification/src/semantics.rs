//! Dynamic meaning of the emitted construct.
//!
//! The host compiler executes the emitted code; this module states, and
//! makes executable, which branch that code selects for a given run: the
//! continuation when the subject matches the primary pattern, otherwise
//! the block of the first fallback arm the subject matches, in source
//! order. Whether the subject matches a given opaque pattern is the
//! host's judgement, so it enters as data: one flag per fallback arm.

use vstd::prelude::*;

use crate::ast::Arm;
use crate::ast::RestClause;
use crate::ast::RestClauseView;
use crate::lower::arm_blocks;
use crate::lower::out_rest_arms;

verus! {

/// Which branch a single execution of the construct takes.
#[derive(Clone, Copy, Debug, PartialEq, Eq, Structural)]
pub enum Outcome {
    /// The subject matched the primary pattern: execution continues after
    /// the construct, with the primary pattern's bindings in scope, and no
    /// fallback block runs.
    Continuation,
    /// The subject matched no primary pattern but did match a fallback
    /// arm: exactly that arm's divergent block runs.
    Diverted { arm: usize, block: u64 },
}

/// The blocks of the fallback arms a rest clause contributes, in source
/// order: the one bound arm of the simple form, or the explicit arms of
/// the complete form.
pub open spec fn spec_fallback_blocks(r: RestClauseView) -> Seq<u64> {
    match r {
        RestClauseView::Simple { block, .. } => seq![block],
        RestClauseView::Complete { arms } => arms.map_values(|a: Arm| a.block),
    }
}

/// The least index at or after `i` whose flag is set.
pub open spec fn spec_first_true(flags: Seq<bool>, i: int) -> Option<int>
    decreases flags.len() - i,
{
    if i < 0 || i >= flags.len() {
        None
    } else if flags[i] {
        Some(i)
    } else {
        spec_first_true(flags, i + 1)
    }
}

/// The branch the emitted construct takes, given whether the subject
/// matches the primary pattern and, per fallback arm, whether it matches
/// that arm. No branch at all means no arm covered the subject's shape —
/// the case the host's exhaustiveness checker rejects at compile time, so
/// an execution never reaches it.
pub open spec fn spec_outcome(r: RestClauseView, primary_matches: bool, arm_matches: Seq<bool>) -> Option<
    Outcome,
> {
    if primary_matches {
        Some(Outcome::Continuation)
    } else {
        match spec_first_true(arm_matches, 0) {
            Some(i) => Some(
                Outcome::Diverted { arm: i as usize, block: spec_fallback_blocks(r)[i] },
            ),
            None => None,
        }
    }
}

/// A set flag at or after `i` is found, and what is found is the least
/// set flag at or after `i`.
proof fn lemma_first_true_characterization(flags: Seq<bool>, i: int)
    requires
        0 <= i,
    ensures
        match spec_first_true(flags, i) {
            Some(m) => i <= m < flags.len() && flags[m] && (forall|k: int|
                i <= k < m ==> !flags[k]),
            None => forall|k: int| i <= k < flags.len() ==> !flags[k],
        },
    decreases flags.len() - i,
{
    if 0 <= i < flags.len() && !flags[i] {
        lemma_first_true_characterization(flags, i + 1);
    }
}

/// Select the branch for one execution. `arm_matches` holds, per fallback
/// arm in source order, the host's judgement whether the subject matches
/// that arm's pattern.
pub fn decide(rest: &RestClause, primary_matches: bool, arm_matches: &Vec<bool>) -> (r: Option<
    Outcome,
>)
    requires
        arm_matches@.len() == spec_fallback_blocks(rest@).len(),
    ensures
        r == spec_outcome(rest@, primary_matches, arm_matches@),
{
    if primary_matches {
        return Some(Outcome::Continuation);
    }
    let mut i: usize = 0;
    while i < arm_matches.len()
        invariant
            !primary_matches,
            i <= arm_matches@.len(),
            arm_matches@.len() == spec_fallback_blocks(rest@).len(),
            spec_first_true(arm_matches@, 0) == spec_first_true(arm_matches@, i as int),
        decreases arm_matches@.len() - i,
    {
        if arm_matches[i] {
            proof {
                assert(spec_first_true(arm_matches@, i as int) == Some(i as int));
                assert(spec_first_true(arm_matches@, 0) == Some(i as int));
            }
            match rest {
                RestClause::Simple { block, .. } => {
                    proof {
                        assert(spec_fallback_blocks(rest@) =~= seq![*block]);
                    }
                    return Some(Outcome::Diverted { arm: i, block: *block });
                },
                RestClause::Complete { arms } => {
                    proof {
                        assert(arms@.len() == spec_fallback_blocks(rest@).len());
                        assert(spec_fallback_blocks(rest@)[i as int] == arms@[i as int].block);
                    }
                    return Some(Outcome::Diverted { arm: i, block: arms[i].block });
                },
            }
        }
        proof {
            assert(spec_first_true(arm_matches@, i as int) == spec_first_true(
                arm_matches@,
                i + 1,
            ));
        }
        i = i + 1;
    }
    proof {
        assert(spec_first_true(arm_matches@, i as int) is None);
    }
    None
}

/// When the subject's value matches the primary pattern, the construct
/// takes the continuation and no fallback block runs, whatever the rest
/// clause holds.
pub proof fn lemma_primary_match_continues(r: RestClauseView, arm_matches: Seq<bool>)
    ensures
        spec_outcome(r, true, arm_matches) == Some(Outcome::Continuation),
{
}

/// When the subject's value does not match the primary pattern but matches
/// some fallback arm, the branch taken is exactly the first matching arm's
/// block — never the continuation, never a later arm.
pub proof fn lemma_fallback_takes_first_match(
    r: RestClauseView,
    arm_matches: Seq<bool>,
    i: int,
)
    requires
        arm_matches.len() == spec_fallback_blocks(r).len(),
        0 <= i < arm_matches.len(),
        arm_matches[i],
        forall|k: int| 0 <= k < i ==> !arm_matches[k],
    ensures
        spec_outcome(r, false, arm_matches) == Some(
            Outcome::Diverted { arm: i as usize, block: spec_fallback_blocks(r)[i] },
        ),
{
    lemma_first_true_characterization(arm_matches, 0);
    let m = spec_first_true(arm_matches, 0).unwrap();
    assert(!(m < i) && !(i < m));
}

/// Arm order determinism: whenever a value could structurally match two
/// fallback arms, the earlier arm in source order is the one taken.
pub proof fn lemma_arm_order_determinism(r: RestClauseView, arm_matches: Seq<bool>, i: int, j: int)
    requires
        arm_matches.len() == spec_fallback_blocks(r).len(),
        arm_matches.len() <= usize::MAX,
        0 <= i < j < arm_matches.len(),
        arm_matches[i],
        arm_matches[j],
    ensures
        spec_outcome(r, false, arm_matches) matches Some(Outcome::Diverted { arm, block })
            && arm as int <= i && arm_matches[arm as int] && block == spec_fallback_blocks(
            r,
        )[arm as int],
{
    lemma_first_true_characterization(arm_matches, 0);
    let m = spec_first_true(arm_matches, 0).unwrap();
    assert(m <= i);
    assert(spec_outcome(r, false, arm_matches) == Some(
        Outcome::Diverted { arm: m as usize, block: spec_fallback_blocks(r)[m] },
    ));
    assert((m as usize) as int == m);
}

/// The fallback blocks the selection ranges over are exactly the blocks
/// the lowering emits for the rest clause, in the same order: the arm
/// index an [`Outcome::Diverted`] carries is the position of its block in
/// the emitted fallback match.
pub proof fn lemma_fallback_blocks_as_emitted(r: RestClauseView)
    ensures
        arm_blocks(out_rest_arms(r)) == spec_fallback_blocks(r),
{
    match r {
        RestClauseView::Simple { bound, block } => {
            crate::lower::lemma_arm_blocks_concat(
                crate::lower::out_bound(bound),
                seq![
                    crate::lower::OutToken::FatArrow,
                    crate::lower::OutToken::Block(block),
                    crate::lower::OutToken::Comma,
                ],
            );
            crate::lower::lemma_out_bound_no_blocks(bound);
            crate::lower::lemma_arm_blocks_triple(block);
            assert(arm_blocks(out_rest_arms(r)) =~= spec_fallback_blocks(r));
        },
        RestClauseView::Complete { arms } => {
            crate::lower::lemma_out_arms_blocks(arms);
        },
    }
}

} // verus!
