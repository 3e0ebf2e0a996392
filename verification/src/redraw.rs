//! When a group's picture has to be drawn again.

use vstd::prelude::*;

verus! {

/// A group is drawn again when it was marked as changed itself, or when
/// any of its children changed since the last drawing.
pub fn needs_redraw(was_dirty: bool, child_changed: &[bool]) -> (r: bool)
    ensures
        r == (was_dirty || exists|i: int| 0 <= i < child_changed@.len() && child_changed@[i]),
{
    let mut changed = was_dirty;
    let mut i: usize = 0;
    while i < child_changed.len()
        invariant
            i <= child_changed@.len(),
            changed == (was_dirty || exists|j: int| 0 <= j < i && child_changed@[j]),
        decreases child_changed@.len() - i,
    {
        if child_changed[i] {
            changed = true;
        }
        i = i + 1;
    }
    changed
}

} // verus!
