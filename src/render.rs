use vstd::prelude::*;

verus! {

/// What a cast at `depth` does under the depth bound `max_depth`: `None`
/// when it returns black at once, without casting further rays; otherwise
/// the depth of the reflection and refraction rays it casts.
pub open spec fn cast_step(depth: nat, max_depth: nat) -> Option<nat> {
    if depth > max_depth {
        None
    } else {
        Some(depth + 1)
    }
}

/// Number of nested cast levels that a cast at `depth` opens, itself
/// included.
pub open spec fn cast_levels(depth: nat, max_depth: nat) -> nat
    decreases max_depth + 1 - depth,
{
    if depth > max_depth {
        1
    } else {
        1 + cast_levels(depth + 1, max_depth)
    }
}

/// The depth check that opens every cast: `None` when `depth` exceeds
/// `max_depth` (the cast yields black and recurses no further), else the
/// depth, one more, of the secondary rays.
pub fn child_depth(depth: usize, max_depth: usize) -> (r: Option<usize>)
    requires
        max_depth < usize::MAX,
    ensures
        r matches Some(d) ==> cast_step(depth as nat, max_depth as nat) == Some(d as nat),
        r is None <==> cast_step(depth as nat, max_depth as nat) is None,
{
    if depth > max_depth {
        None
    } else {
        Some(depth + 1)
    }
}

/// A cast one level past the depth bound is a leaf: it casts nothing.
pub proof fn lemma_cast_past_bound_is_leaf(max_depth: nat)
    ensures
        cast_step(max_depth + 1, max_depth) is None,
        cast_levels(max_depth + 1, max_depth) == 1,
{
}

/// Recursion ends: a cast at `depth` opens exactly `max_depth + 2 - depth`
/// nested levels, whatever the scene.
pub proof fn lemma_cast_levels(depth: nat, max_depth: nat)
    requires
        depth <= max_depth + 1,
    ensures
        cast_levels(depth, max_depth) == max_depth + 2 - depth,
    decreases max_depth + 1 - depth,
{
    if depth <= max_depth {
        lemma_cast_levels(depth + 1, max_depth);
    }
}

} // verus!
