use vstd::prelude::*;

verus! {

/// The valid index nearest to `index` from below, in a world of `n` bodies:
/// `index` itself when it is in range, the last index when it is past the
/// end, and nothing when the world is empty.
pub open spec fn nearest_index(n: nat, index: nat) -> Option<usize> {
    if n == 0 {
        None
    } else if index < n {
        Some(index as usize)
    } else {
        Some((n - 1) as usize)
    }
}

/// Focus after a step forward through `n` bodies: from nothing to the first
/// body, from the last body (or beyond) to nothing.  An empty world keeps its
/// focus as it is.
pub open spec fn next_focus(n: nat, focus: Option<usize>) -> Option<usize> {
    if n == 0 {
        focus
    } else {
        match focus {
            None => Some(0),
            Some(i) => if i + 1 < n {
                Some((i + 1) as usize)
            } else {
                None
            },
        }
    }
}

/// Focus after a step backward through `n` bodies: from nothing to the last
/// body, from the first body to nothing.  A focus past the end clamps to the
/// last body.  An empty world keeps its focus as it is.
pub open spec fn prev_focus(n: nat, focus: Option<usize>) -> Option<usize> {
    if n == 0 {
        focus
    } else {
        match focus {
            None => Some((n - 1) as usize),
            Some(i) => if i >= n {
                Some((n - 1) as usize)
            } else if i > 0 {
                Some((i - 1) as usize)
            } else {
                None
            },
        }
    }
}

/// Focus after the body at index `k` was removed: cleared when that body
/// was focused, moved down by one when the focused body stood after it.
pub open spec fn focus_after_removal(focus: Option<usize>, k: nat) -> Option<usize> {
    match focus {
        None => None,
        Some(f) => if f == k {
            None
        } else if f > k {
            Some((f - 1) as usize)
        } else {
            Some(f)
        },
    }
}

} // verus!
