//! Timestamps, timestamped log queries, and the range utilities that answer
//! "how many / which events happened at or after time T" over sequences
//! sorted by non-decreasing timestamp.

use vstd::prelude::*;
use crate::word::Word;

verus! {

/// A logical clock value assigned by the interpreter per execution step.
#[derive(Clone, Copy, Debug, PartialEq, Eq, Structural)]
pub struct Timestamp(pub u32);

/// Non-decreasing order of timestamps.
pub open spec fn sorted_timestamps(s: Seq<Timestamp>) -> bool {
    forall|i: int, j: int| 0 <= i <= j < s.len() ==> s[i].0 <= s[j].0
}

/// Index of the first element with timestamp at or after `t`; the sequence
/// length when there is none. On a sorted sequence this is the partition
/// point between the elements before `t` and those at or after it.
pub open spec fn first_at_or_after(s: Seq<Timestamp>, t: Timestamp) -> int
    decreases s.len(),
{
    if s.len() == 0 {
        0
    } else if s[0].0 >= t.0 {
        0
    } else {
        1 + first_at_or_after(s.subrange(1, s.len() as int), t)
    }
}

pub proof fn lemma_first_at_or_after_bounds(s: Seq<Timestamp>, t: Timestamp)
    ensures
        0 <= first_at_or_after(s, t) <= s.len(),
        forall|i: int| 0 <= i < first_at_or_after(s, t) ==> s[i].0 < t.0,
        first_at_or_after(s, t) < s.len() ==> s[first_at_or_after(s, t)].0 >= t.0,
    decreases s.len(),
{
    if s.len() == 0 {
    } else if s[0].0 >= t.0 {
    } else {
        let tail = s.subrange(1, s.len() as int);
        lemma_first_at_or_after_bounds(tail, t);
        assert forall|i: int| 0 <= i < first_at_or_after(s, t) implies s[i].0 < t.0 by {
            if i > 0 {
                assert(tail[i - 1] == s[i]);
                assert(tail[i - 1].0 < t.0);
            }
        }
        if first_at_or_after(s, t) < s.len() {
            assert(tail[first_at_or_after(tail, t)] == s[first_at_or_after(s, t)]);
        }
    }
}

/// Any index that splits the sequence into a prefix before `t` and a suffix
/// at or after `t` is the partition point.
pub proof fn lemma_first_at_or_after_is(s: Seq<Timestamp>, t: Timestamp, p: int)
    requires
        0 <= p <= s.len(),
        forall|i: int| 0 <= i < p ==> s[i].0 < t.0,
        forall|i: int| p <= i < s.len() ==> s[i].0 >= t.0,
    ensures
        first_at_or_after(s, t) == p,
{
    let f = first_at_or_after(s, t);
    lemma_first_at_or_after_bounds(s, t);
    if f < p {
        assert(s[f].0 >= t.0);
        assert(s[f].0 < t.0);
    }
    if f > p {
        assert(s[p].0 < t.0);
        assert(s[p].0 >= t.0);
    }
}

/// Appending a timestamp at or after the last element keeps a sequence
/// sorted.
pub proof fn lemma_sorted_push(s: Seq<Timestamp>, t: Timestamp)
    requires
        sorted_timestamps(s),
        s.len() > 0 ==> s.last().0 <= t.0,
    ensures
        sorted_timestamps(s.push(t)),
{
    assert forall|i: int, j: int| 0 <= i <= j < s.push(t).len() implies s.push(t)[i].0
        <= s.push(t)[j].0 by {
        if j < s.len() {
            assert(s[i].0 <= s[j].0);
        } else if i < s.len() {
            assert(s[i].0 <= s[s.len() - 1].0);
        }
    }
}

/// A log record produced by a stateful oracle, indexed here only through its
/// timestamp.
#[derive(Clone, Copy, Debug, PartialEq, Eq, Structural)]
pub struct LogQuery {
    pub timestamp: Timestamp,
    pub tx_number_in_block: u16,
    pub key: Word,
    pub written_value: Word,
    pub rw_flag: bool,
    pub rollback: bool,
}

/// Classification of a storage write.
#[derive(Clone, Copy, Debug, PartialEq, Eq, Structural)]
pub enum StorageLogKind {
    Read,
    InitialWrite,
    RepeatedWrite,
}

/// Log query that handles initial and repeated writes to the storage.
#[derive(Clone, Copy, Debug, PartialEq, Eq, Structural)]
pub struct StorageLogQuery {
    pub log_query: LogQuery,
    pub log_type: StorageLogKind,
}

/// The timestamps of a sequence of log queries.
pub open spec fn log_timestamps(s: Seq<LogQuery>) -> Seq<Timestamp> {
    s.map_values(|q: LogQuery| q.timestamp)
}

/// The timestamps of a sequence of storage log queries.
pub open spec fn storage_log_timestamps(s: Seq<StorageLogQuery>) -> Seq<Timestamp> {
    s.map_values(|q: StorageLogQuery| q.log_query.timestamp)
}

/// Collects storage log queries whose timestamp is at or after
/// `from_timestamp`: the contiguous suffix of the sorted input, in order.
/// Denote `n` to be the number of such queries, then it works in O(n).
pub fn collect_storage_log_queries_after_timestamp(
    all_log_queries: &Vec<StorageLogQuery>,
    from_timestamp: Timestamp,
) -> (r: Vec<StorageLogQuery>)
    requires
        sorted_timestamps(storage_log_timestamps(all_log_queries@)),
    ensures
        r@ == all_log_queries@.subrange(
            first_at_or_after(storage_log_timestamps(all_log_queries@), from_timestamp),
            all_log_queries@.len() as int,
        ),
{
    let ghost ts = storage_log_timestamps(all_log_queries@);
    let n = all_log_queries.len();
    let mut start: usize = n;
    while start > 0
        && all_log_queries[start - 1].log_query.timestamp.0 >= from_timestamp.0
        invariant
            start <= n,
            n == all_log_queries@.len(),
            forall|i: int|
                start <= i < n ==> all_log_queries@[i].log_query.timestamp.0 >= from_timestamp.0,
        decreases start,
    {
        start -= 1;
    }
    proof {
        assert(forall|i: int| 0 <= i < ts.len() ==> ts[i] == all_log_queries@[i].log_query.timestamp);
        if start > 0 {
            assert(all_log_queries@[start - 1].log_query.timestamp.0 < from_timestamp.0);
            assert forall|i: int| 0 <= i < start implies ts[i].0 < from_timestamp.0 by {
                assert(ts[i].0 <= ts[start - 1].0);
            }
        }
        lemma_first_at_or_after_is(ts, from_timestamp, start as int);
    }
    let mut r: Vec<StorageLogQuery> = Vec::new();
    let mut i: usize = start;
    while i < n
        invariant
            start <= i <= n,
            n == all_log_queries@.len(),
            r@.len() == i - start,
            forall|k: int| 0 <= k < r@.len() ==> r@[k] == all_log_queries@[start + k],
        decreases n - i,
    {
        r.push(all_log_queries[i]);
        i += 1;
    }
    proof {
        assert(r@ =~= all_log_queries@.subrange(start as int, n as int));
    }
    r
}

/// Collects all log queries whose timestamp is at or after `from_timestamp`:
/// the contiguous suffix of the sorted input, in order.
/// Denote `n` to be the number of such queries, then it works in O(n).
pub fn collect_log_queries_after_timestamp(
    all_log_queries: &Vec<LogQuery>,
    from_timestamp: Timestamp,
) -> (r: Vec<LogQuery>)
    requires
        sorted_timestamps(log_timestamps(all_log_queries@)),
    ensures
        r@ == all_log_queries@.subrange(
            first_at_or_after(log_timestamps(all_log_queries@), from_timestamp),
            all_log_queries@.len() as int,
        ),
{
    let ghost ts = log_timestamps(all_log_queries@);
    let n = all_log_queries.len();
    let mut start: usize = n;
    while start > 0 && all_log_queries[start - 1].timestamp.0 >= from_timestamp.0
        invariant
            start <= n,
            n == all_log_queries@.len(),
            forall|i: int| start <= i < n ==> all_log_queries@[i].timestamp.0 >= from_timestamp.0,
        decreases start,
    {
        start -= 1;
    }
    proof {
        assert(forall|i: int| 0 <= i < ts.len() ==> ts[i] == all_log_queries@[i].timestamp);
        if start > 0 {
            assert(all_log_queries@[start - 1].timestamp.0 < from_timestamp.0);
            assert forall|i: int| 0 <= i < start implies ts[i].0 < from_timestamp.0 by {
                assert(ts[i].0 <= ts[start - 1].0);
            }
        }
        lemma_first_at_or_after_is(ts, from_timestamp, start as int);
    }
    let mut r: Vec<LogQuery> = Vec::new();
    let mut i: usize = start;
    while i < n
        invariant
            start <= i <= n,
            n == all_log_queries@.len(),
            r@.len() == i - start,
            forall|k: int| 0 <= k < r@.len() ==> r@[k] == all_log_queries@[start + k],
        decreases n - i,
    {
        r.push(all_log_queries[i]);
        i += 1;
    }
    proof {
        assert(r@ =~= all_log_queries@.subrange(start as int, n as int));
    }
    r
}

/// Receives sorted slice of timestamps.
/// Returns count of timestamps that are at or after `from_timestamp`.
/// Works in O(log(sorted_timestamps.len())) via binary search for the
/// partition point.
pub fn precompile_calls_count_after_timestamp(
    sorted: &Vec<Timestamp>,
    from_timestamp: Timestamp,
) -> (r: usize)
    requires
        sorted_timestamps(sorted@),
    ensures
        r == sorted@.len() - first_at_or_after(sorted@, from_timestamp),
{
    let n = sorted.len();
    let mut lo: usize = 0;
    let mut hi: usize = n;
    while lo < hi
        invariant
            lo <= hi <= n,
            n == sorted@.len(),
            sorted_timestamps(sorted@),
            forall|i: int| 0 <= i < lo ==> sorted@[i].0 < from_timestamp.0,
            forall|i: int| hi <= i < n ==> sorted@[i].0 >= from_timestamp.0,
        decreases hi - lo,
    {
        let mid = lo + (hi - lo) / 2;
        if sorted[mid].0 < from_timestamp.0 {
            proof {
                assert forall|i: int| 0 <= i <= mid implies sorted@[i].0 < from_timestamp.0 by {
                    assert(sorted@[i].0 <= sorted@[mid as int].0);
                }
            }
            lo = mid + 1;
        } else {
            hi = mid;
        }
    }
    proof {
        lemma_first_at_or_after_is(sorted@, from_timestamp, lo as int);
    }
    n - lo
}

/// Law: on a sorted sequence of queries, the binary-search count of
/// timestamps at or after `t` equals the length of the suffix that the
/// linear extraction returns, for every threshold `t`, including thresholds
/// below the first and above the last timestamp.
pub proof fn lemma_suffix_count_agrees(queries: Seq<LogQuery>, t: Timestamp)
    requires
        sorted_timestamps(log_timestamps(queries)),
    ensures
        log_timestamps(queries).len() - first_at_or_after(log_timestamps(queries), t)
            == queries.subrange(first_at_or_after(log_timestamps(queries), t), queries.len() as int).len(),
{
    lemma_first_at_or_after_bounds(log_timestamps(queries), t);
}

/// Law: the same agreement for storage log queries.
pub proof fn lemma_storage_suffix_count_agrees(queries: Seq<StorageLogQuery>, t: Timestamp)
    requires
        sorted_timestamps(storage_log_timestamps(queries)),
    ensures
        storage_log_timestamps(queries).len()
            - first_at_or_after(storage_log_timestamps(queries), t)
            == queries.subrange(
            first_at_or_after(storage_log_timestamps(queries), t),
            queries.len() as int,
        ).len(),
{
    lemma_first_at_or_after_bounds(storage_log_timestamps(queries), t);
}

} // verus!
