//! Moving a row of a table by drag and drop, and keeping the selected row in view.
use vstd::prelude::*;

verus! {

/// The index a row dragged from `from` and dropped before row `to` ends up at.
pub open spec fn drop_target(from: int, to: int) -> int {
    if from < to {
        if to > 0 {
            to - 1
        } else {
            0
        }
    } else {
        to
    }
}

/// `s` with the item at `from` taken out and put back in at `target`.
pub open spec fn moved<T>(s: Seq<T>, from: int, target: int) -> Seq<T> {
    s.remove(from).insert(target, s[from])
}

/// Moves the item at `from` so that it lands before the item that was at `to`
/// (`to` may be the length, for the end). Returns the item's new index, or
/// `None` when an index is out of range or the item would not move; then the
/// list is left as it was.
pub fn reorder_vec_item<T>(items: &mut Vec<T>, from: usize, to: usize) -> (r: Option<usize>)
    ensures
        ({
            let n = old(items)@.len();
            let target = drop_target(from as int, to as int);
            if from >= n || to > n || from == target {
                r is None && final(items)@ == old(items)@
            } else {
                r == Some(target as usize) && final(items)@ == moved(old(items)@, from as int, target)
            }
        }),
{
    let len = items.len();
    if from >= len || to > len {
        return None;
    }
    let target = if from < to {
        if to > 0 { to - 1 } else { 0 }
    } else {
        to
    };
    if from == target {
        return None;
    }
    let item = items.remove(from);
    items.insert(target, item);
    Some(target)
}

/// Where the selected row goes when the row at `from` moves to `target`.
pub open spec fn reselect(selected: int, from: int, target: int) -> int {
    if selected == from {
        target
    } else if from < target && selected > from && selected <= target {
        selected - 1
    } else if target < from && selected >= target && selected < from {
        selected + 1
    } else {
        selected
    }
}

/// The index of the selected row after the row at `from` moved to `target`.
pub fn reordered_selected_index(selected: Option<usize>, from: usize, target: usize) -> (r: Option<usize>)
    ensures
        match selected {
            None => r is None,
            Some(s) => r == Some(reselect(s as int, from as int, target as int) as usize),
        },
{
    let selected_index = match selected {
        None => {
            return None;
        },
        Some(s) => s,
    };
    if selected_index == from {
        return Some(target);
    }
    if from < target && selected_index > from && selected_index <= target {
        return Some(selected_index - 1);
    }
    if target < from && selected_index >= target && selected_index < from {
        return Some(selected_index + 1);
    }
    Some(selected_index)
}

/// After a row moves, the selection follows the same row: the row at the
/// reselected index is the row that was selected before.
pub proof fn lemma_selection_follows_row<T>(s: Seq<T>, from: int, target: int, selected: int)
    requires
        0 <= from < s.len(),
        0 <= target < s.len(),
        0 <= selected < s.len(),
    ensures
        0 <= reselect(selected, from, target) < s.len(),
        moved(s, from, target)[reselect(selected, from, target)] == s[selected],
{
    let m = moved(s, from, target);
    let r = s.remove(from);
    assert(r.len() == s.len() - 1);
    assert(m.len() == s.len());
    let k = reselect(selected, from, target);
    if selected == from {
        assert(m[target] == s[from]);
    } else if from < target && selected > from && selected <= target {
        assert(r[selected - 1] == s[selected]);
        assert(m[selected - 1] == r[selected - 1]);
    } else if target < from && selected >= target && selected < from {
        assert(r[selected] == s[selected]);
        assert(m[selected + 1] == r[selected]);
    } else if selected < from {
        assert(r[selected] == s[selected]);
        assert(selected < target);
        assert(m[selected] == r[selected]);
    } else {
        assert(selected > from);
        assert(r[selected - 1] == s[selected]);
        assert(selected > target);
        assert(m[selected] == r[selected - 1]);
    }
}

/// The row selected after row `removed` is removed: none when the selected
/// row is the one removed, the row before when it came after it, else the
/// same row.
pub fn selected_index_after_removal(selected: Option<usize>, removed: usize) -> (r: Option<usize>)
    ensures
        r == match selected {
            None => None,
            Some(s) => if s == removed {
                None
            } else if s > removed {
                Some((s - 1) as usize)
            } else {
                Some(s)
            },
        },
{
    match selected {
        Some(s) if s == removed => None,
        Some(s) if s > removed => Some(s - 1),
        _ => selected,
    }
}

/// After a row is removed, the selection still points at the row that was
/// selected, or at none when that row was the one removed.
pub proof fn lemma_selection_survives_removal<T>(rows: Seq<T>, removed: int, selected: int)
    requires
        0 <= removed < rows.len(),
        0 <= selected < rows.len(),
        selected != removed,
    ensures
        ({
            let k = if selected > removed { selected - 1 } else { selected };
            0 <= k < rows.remove(removed).len() && rows.remove(removed)[k] == rows[selected]
        }),
{
}

} // verus!
