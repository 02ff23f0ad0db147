//! Finite observation windows: the last `w` entries of a history.

use vstd::prelude::*;

verus! {

/// Where the last `w` entries of a history of length `len` begin.
pub open spec fn window_start_spec(len: int, w: int) -> int {
    if len > w {
        len - w
    } else {
        0
    }
}

/// The last `w` entries of `items`, oldest first (all of them when there are
/// at most `w`).
pub open spec fn window_spec<T>(items: Seq<T>, w: int) -> Seq<T> {
    items.subrange(window_start_spec(items.len() as int, w), items.len() as int)
}

/// The index at which the window of the last `w` entries begins.
pub fn window_start(len: usize, w: usize) -> (s: usize)
    ensures
        s == window_start_spec(len as int, w as int),
{
    if len > w {
        len - w
    } else {
        0
    }
}

/// Copies the last `w` entries of `items`, oldest first.
pub fn last_window<T: Copy>(items: &[T], w: usize) -> (out: Vec<T>)
    ensures
        out@ == window_spec(items@, w as int),
{
    let n = items.len();
    let start = window_start(n, w);
    let mut out: Vec<T> = Vec::new();
    let mut i = start;
    while i < n
        invariant
            n == items@.len(),
            start == window_start_spec(n as int, w as int),
            start <= i <= n,
            out@ == items@.subrange(start as int, i as int),
        decreases n - i,
    {
        out.push(items[i]);
        i = i + 1;
        assert(out@ =~= items@.subrange(start as int, i as int));
    }
    out
}

/// A window holds `min(len, w)` entries, and it ends with the newest entry.
pub proof fn lemma_window_shape<T>(items: Seq<T>, w: nat)
    ensures
        window_spec(items, w as int).len() == if items.len() < w { items.len() } else { w },
        items.len() > 0 && w > 0 ==> window_spec(items, w as int).last() == items.last(),
{
}

/// A window at least as long as the history is the whole history.
pub proof fn lemma_window_whole<T>(items: Seq<T>, w: nat)
    requires
        items.len() <= w,
    ensures
        window_spec(items, w as int) == items,
{
    assert(window_spec(items, w as int) =~= items);
}

/// Appending an entry and taking the window equals taking the window of length
/// `w - 1` and appending the entry: the window slides by one.
pub proof fn lemma_window_slides<T>(items: Seq<T>, x: T, w: nat)
    requires
        w > 0,
    ensures
        window_spec(items.push(x), w as int) == window_spec(items, w - 1).push(x),
{
    assert(window_spec(items.push(x), w as int) =~= window_spec(items, w - 1).push(x));
}

} // verus!
