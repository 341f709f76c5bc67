use vstd::prelude::*;

verus! {

/// The depth budget for a secondary ray cast with `remaining` levels left
/// from a surface that takes part (`active`) or not.
pub open spec fn next_depth(remaining: u32, active: bool) -> Option<u32> {
    if remaining == 0 || !active {
        None
    } else {
        Some((remaining - 1) as u32)
    }
}

/// The budget left after a chain of nested secondary rays, the `k`-th cast
/// from a surface that takes part exactly when `active[k]` holds; `None` when
/// some link of the chain cannot be cast.
pub open spec fn depth_after_chain(remaining: u32, active: Seq<bool>) -> Option<u32>
    decreases active.len(),
{
    if active.len() == 0 {
        Some(remaining)
    } else {
        match next_depth(remaining, active[0]) {
            Some(d) => depth_after_chain(d, active.drop_first()),
            None => None,
        }
    }
}

/// The depth budget handed to the ray cast for a reflected or refracted
/// contribution, or `None` when no secondary ray may be cast: either the
/// budget is spent or the surface does not take part (`active` is false).
pub fn secondary_depth(remaining: u32, active: bool) -> (r: Option<u32>)
    ensures
        r == next_depth(remaining, active),
        remaining == 0 ==> r is None,
{
    if remaining == 0 || !active {
        None
    } else {
        Some(remaining - 1)
    }
}

/// Whatever the surfaces along the way, a chain of nested secondary rays is
/// never longer than the budget it started with, and each link uses up one
/// level of it.
pub proof fn lemma_chain_bounded(remaining: u32, active: Seq<bool>)
    ensures
        depth_after_chain(remaining, active) matches Some(d) ==> active.len() <= remaining && d
            == remaining - active.len(),
    decreases active.len(),
{
    if active.len() > 0 {
        if let Some(d) = next_depth(remaining, active[0]) {
            lemma_chain_bounded(d, active.drop_first());
        }
    }
}

} // verus!
