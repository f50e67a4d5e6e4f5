//! Byte counters behind the progress bar.

use vstd::prelude::*;

verus! {

/// `x + y` modulo 2^64, as an atomic `fetch_add` on a `u64` computes it.
pub open spec fn wrapped_sum(x: u64, y: u64) -> u64 {
    if x + y > u64::MAX {
        (x + y - 0x1_0000_0000_0000_0000) as u64
    } else {
        (x + y) as u64
    }
}

/// Bytes received so far and bytes expected in all.
pub struct ProgressCounters {
    pub downloaded: u64,
    pub total: u64,
}

impl ProgressCounters {
    /// Counters that start at zero.
    pub fn new() -> (r: Self)
        ensures
            r.downloaded == 0,
            r.total == 0,
    {
        ProgressCounters { downloaded: 0, total: 0 }
    }

    /// Adds `delta` bytes to the expected total.
    pub fn add_total(&mut self, delta: u64)
        ensures
            final(self).total == wrapped_sum(old(self).total, delta),
            final(self).downloaded == old(self).downloaded,
            (final(self).downloaded, final(self).total) == counters_after(
                (old(self).downloaded, old(self).total),
                seq![(false, delta)],
                1,
            ),
    {
        self.total = self.total.wrapping_add(delta);
        assert(counters_after((old(self).downloaded, old(self).total), seq![(false, delta)], 0) == (
        old(self).downloaded, old(self).total));
    }

    /// Adds `delta` bytes to those received.
    pub fn add_downloaded(&mut self, delta: u64)
        ensures
            final(self).downloaded == wrapped_sum(old(self).downloaded, delta),
            final(self).total == old(self).total,
            (final(self).downloaded, final(self).total) == counters_after(
                (old(self).downloaded, old(self).total),
                seq![(true, delta)],
                1,
            ),
    {
        self.downloaded = self.downloaded.wrapping_add(delta);
        assert(counters_after((old(self).downloaded, old(self).total), seq![(true, delta)], 0) == (
        old(self).downloaded, old(self).total));
    }

    /// The pair (bytes received, bytes expected).
    pub fn get(&self) -> (r: (u64, u64))
        ensures
            r == (self.downloaded, self.total),
    {
        (self.downloaded, self.total)
    }
}

/// Two additions to a counter give the same value in either order.
pub proof fn lemma_additions_commute(start: u64, a: u64, b: u64)
    ensures
        wrapped_sum(wrapped_sum(start, a), b) == wrapped_sum(wrapped_sum(start, b), a),
{
}

/// An addition that stays within `u64` is exact.
pub proof fn lemma_addition_exact(start: u64, a: u64)
    requires
        start + a <= u64::MAX,
    ensures
        wrapped_sum(start, a) == start + a,
{
}

/// Without overflow the counters only grow: an addition never makes a
/// counter smaller, and `get` changes nothing.
pub proof fn lemma_counters_grow(start: u64, delta: u64)
    requires
        start + delta <= u64::MAX,
    ensures
        start <= wrapped_sum(start, delta),
{
}


/// The counters (received, expected) after the first `n` of `ops`, started
/// from `start`. Each operation is one call: `(true, d)` is
/// `add_downloaded(d)` and `(false, d)` is `add_total(d)`; `get` changes
/// nothing.
pub open spec fn counters_after(start: (u64, u64), ops: Seq<(bool, u64)>, n: int) -> (u64, u64)
    decreases n,
{
    if n <= 0 || n > ops.len() {
        start
    } else {
        let (d, t) = counters_after(start, ops, n - 1);
        let op = ops[n - 1];
        if op.0 {
            (wrapped_sum(d, op.1), t)
        } else {
            (d, wrapped_sum(t, op.1))
        }
    }
}

/// The bytes that the first `n` of `ops` add to the received counter
/// (`downloaded`) or to the expected one.
pub open spec fn bytes_added(ops: Seq<(bool, u64)>, n: int, downloaded: bool) -> nat
    decreases n,
{
    if n <= 0 || n > ops.len() {
        0
    } else if ops[n - 1].0 == downloaded {
        bytes_added(ops, n - 1, downloaded) + ops[n - 1].1 as nat
    } else {
        bytes_added(ops, n - 1, downloaded)
    }
}

proof fn lemma_bytes_added_grow(ops: Seq<(bool, u64)>, i: int, j: int, downloaded: bool)
    requires
        0 <= i <= j <= ops.len(),
    ensures
        bytes_added(ops, i, downloaded) <= bytes_added(ops, j, downloaded),
    decreases j - i,
{
    if i < j {
        lemma_bytes_added_grow(ops, i, j - 1, downloaded);
    }
}

proof fn lemma_counters_after_exact(start: (u64, u64), ops: Seq<(bool, u64)>, n: int)
    requires
        0 <= n <= ops.len(),
        start.0 + bytes_added(ops, ops.len() as int, true) <= u64::MAX,
        start.1 + bytes_added(ops, ops.len() as int, false) <= u64::MAX,
    ensures
        counters_after(start, ops, n).0 == start.0 + bytes_added(ops, n, true),
        counters_after(start, ops, n).1 == start.1 + bytes_added(ops, n, false),
    decreases n,
{
    if n > 0 {
        lemma_counters_after_exact(start, ops, n - 1);
        lemma_bytes_added_grow(ops, n, ops.len() as int, true);
        lemma_bytes_added_grow(ops, n, ops.len() as int, false);
    }
}

proof fn lemma_counters_after_prefix(start: (u64, u64), ops: Seq<(bool, u64)>, op: (bool, u64), n: int)
    requires
        0 <= n <= ops.len(),
    ensures
        counters_after(start, ops.push(op), n) == counters_after(start, ops, n),
    decreases n,
{
    if n > 0 {
        lemma_counters_after_prefix(start, ops, op, n - 1);
        assert(ops.push(op)[n - 1] == ops[n - 1]);
    }
}

/// A further call continues the sequence: the counters after `ops` followed
/// by `op` are those after `ops` with `op` applied as one call.
pub proof fn lemma_counters_after_push(start: (u64, u64), ops: Seq<(bool, u64)>, op: (bool, u64))
    ensures
        counters_after(start, ops.push(op), ops.len() + 1int) == counters_after(
            counters_after(start, ops, ops.len() as int),
            seq![op],
            1,
        ),
{
    lemma_counters_after_prefix(start, ops, op, ops.len() as int);
    let mid = counters_after(start, ops, ops.len() as int);
    assert(counters_after(mid, seq![op], 0) == mid);
    assert(ops.push(op)[ops.len() as int] == op);
}

/// Over any sequence of calls in which no addition overflows, both counters
/// only grow: what `get` gives later is at least what it gave earlier, and
/// each counter equals its start plus the bytes added to it.
pub proof fn lemma_counters_monotonic(start: (u64, u64), ops: Seq<(bool, u64)>, i: int, j: int)
    requires
        0 <= i <= j <= ops.len(),
        start.0 + bytes_added(ops, ops.len() as int, true) <= u64::MAX,
        start.1 + bytes_added(ops, ops.len() as int, false) <= u64::MAX,
    ensures
        counters_after(start, ops, i).0 <= counters_after(start, ops, j).0,
        counters_after(start, ops, i).1 <= counters_after(start, ops, j).1,
        counters_after(start, ops, j).0 == start.0 + bytes_added(ops, j, true),
        counters_after(start, ops, j).1 == start.1 + bytes_added(ops, j, false),
{
    lemma_counters_after_exact(start, ops, i);
    lemma_counters_after_exact(start, ops, j);
    lemma_bytes_added_grow(ops, i, j, true);
    lemma_bytes_added_grow(ops, i, j, false);
}

} // verus!
