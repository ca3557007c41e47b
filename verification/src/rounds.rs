//! The shared round target of a session: the current total number of rounds,
//! which the input listener may raise or lower while the session runs. The
//! orchestrator re-reads it at every loop head, so these operations define how
//! far a live adjustment can move it.

use vstd::prelude::*;

verus! {

/// The new round target after one add-round keypress. The target only moves
/// upward and stops at the largest representable value.
pub open spec fn spec_add_round(target: u32) -> u32 {
    if target < u32::MAX {
        (target + 1) as u32
    } else {
        target
    }
}

/// The new round target after one drop-round keypress while `current_round`
/// is executing: one less, floored at the round in progress.
pub open spec fn spec_drop_round(target: u32, current_round: u32) -> u32 {
    if target > current_round {
        (target - 1) as u32
    } else {
        target
    }
}

/// One add-round keypress: raise the target by one.
pub fn add_round(target: u32) -> (r: u32)
    ensures
        r == spec_add_round(target),
        r >= target,
{
    if target < u32::MAX {
        target + 1
    } else {
        target
    }
}

/// One drop-round keypress: lower the target by one, but never to or below
/// the round currently executing.
pub fn drop_round(target: u32, current_round: u32) -> (r: u32)
    ensures
        r == spec_drop_round(target, current_round),
        target >= current_round ==> r >= current_round,
        r <= target,
{
    if target > current_round {
        target - 1
    } else {
        target
    }
}

/// The round target after `n` drop-round keypresses in a row.
pub open spec fn spec_drop_rounds(target: u32, current_round: u32, n: nat) -> u32
    decreases n,
{
    if n == 0 {
        target
    } else {
        spec_drop_round(spec_drop_rounds(target, current_round, (n - 1) as nat), current_round)
    }
}

/// However many times the drop-round key is pressed, the target never falls
/// below the round currently executing.
pub proof fn lemma_drop_rounds_floored(target: u32, current_round: u32, n: nat)
    requires
        target >= current_round,
    ensures
        spec_drop_rounds(target, current_round, n) >= current_round,
        spec_drop_rounds(target, current_round, n) <= target,
    decreases n,
{
    if n > 0 {
        lemma_drop_rounds_floored(target, current_round, (n - 1) as nat);
    }
}

/// Apply `n` drop-round keypresses.
pub fn drop_rounds(target: u32, current_round: u32, n: u32) -> (r: u32)
    ensures
        r == spec_drop_rounds(target, current_round, n as nat),
{
    let mut i: u32 = 0;
    let mut t: u32 = target;
    while i < n
        invariant
            i <= n,
            t == spec_drop_rounds(target, current_round, i as nat),
        decreases n - i,
    {
        proof {
            assert(spec_drop_rounds(target, current_round, (i + 1) as nat)
                == spec_drop_round(spec_drop_rounds(target, current_round, i as nat), current_round));
        }
        t = drop_round(t, current_round);
        i = i + 1;
    }
    t
}

/// The round target after `n` add-round keypresses in a row.
pub open spec fn spec_add_rounds(target: u32, n: nat) -> u32
    decreases n,
{
    if n == 0 {
        target
    } else {
        spec_add_round(spec_add_rounds(target, (n - 1) as nat))
    }
}

/// Add-round keypresses only move the target upward.
pub proof fn lemma_add_rounds_ge(target: u32, n: nat)
    ensures
        spec_add_rounds(target, n) >= target,
    decreases n,
{
    if n > 0 {
        lemma_add_rounds_ge(target, (n - 1) as nat);
    }
}

/// Apply `n` add-round keypresses.
pub fn add_rounds(target: u32, n: u32) -> (r: u32)
    ensures
        r == spec_add_rounds(target, n as nat),
        r >= target,
{
    let mut i: u32 = 0;
    let mut t: u32 = target;
    while i < n
        invariant
            i <= n,
            t == spec_add_rounds(target, i as nat),
            t >= target,
        decreases n - i,
    {
        proof {
            assert(spec_add_rounds(target, (i + 1) as nat)
                == spec_add_round(spec_add_rounds(target, i as nat)));
        }
        t = add_round(t);
        i = i + 1;
    }
    t
}

} // verus!
