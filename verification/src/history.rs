//! The rollback-capable history-tracking container: an append-only log of
//! (timestamp, key, prior state) entries layered over a keyed container.
//! Replaying the log newest-first restores the container to any earlier
//! timestamp in time proportional to the number of entries undone.

use vstd::prelude::*;
use crate::kv::{assoc_map, key_absent, lemma_assoc_at, lemma_assoc_contains, lemma_assoc_push,
    lemma_assoc_remove, lemma_assoc_update, unique_keys};
use crate::timestamps::{Timestamp, sorted_timestamps};
use crate::word::Word;

verus! {

/// One log entry of a history recorder: the state `key` had before a write
/// tagged `timestamp` (`None` when the key was absent).
pub struct HistoryEvent<V> {
    pub timestamp: Timestamp,
    pub key: Word,
    pub prev: Option<V>,
}

/// The timestamps of a history log.
pub open spec fn event_timestamps<V>(log: Seq<HistoryEvent<V>>) -> Seq<Timestamp> {
    log.map_values(|e: HistoryEvent<V>| e.timestamp)
}

/// Effect of one insert on the container map and the history log: the key is
/// set to the value, and an event capturing the prior state is appended.
pub open spec fn logged_insert<V>(
    m: Map<Word, V>,
    log: Seq<HistoryEvent<V>>,
    key: Word,
    value: V,
    timestamp: Timestamp,
) -> (Map<Word, V>, Seq<HistoryEvent<V>>) {
    (
        m.insert(key, value),
        log.push(
            HistoryEvent {
                timestamp,
                key,
                prev: if m.contains_key(key) {
                    Some(m[key])
                } else {
                    None
                },
            },
        ),
    )
}

/// Restores the prior state that one history event recorded.
pub open spec fn apply_event<V>(m: Map<Word, V>, e: HistoryEvent<V>) -> Map<Word, V> {
    match e.prev {
        Some(v) => m.insert(e.key, v),
        None => m.remove(e.key),
    }
}

/// Container map and log after rolling back to `t`: events with timestamp at
/// or after `t` are undone, newest first.
pub open spec fn rollback_state<V>(
    m: Map<Word, V>,
    log: Seq<HistoryEvent<V>>,
    t: Timestamp,
) -> (Map<Word, V>, Seq<HistoryEvent<V>>)
    decreases log.len(),
{
    if log.len() > 0 && log.last().timestamp.0 >= t.0 {
        rollback_state(apply_event(m, log.last()), log.drop_last(), t)
    } else {
        (m, log)
    }
}

/// A generic append-only log of (timestamp, prior state, key) entries layered
/// over a keyed container. Supports insertion, point lookup, rollback to a
/// timestamp, and history suppression for write-once data.
pub struct HistoryRecorder<V> {
    inner: Vec<(Word, V)>,
    history: Vec<HistoryEvent<V>>,
    with_history: bool,
}

impl<V> HistoryRecorder<V> {
    /// Raw container entries, in insertion order.
    pub closed spec fn entries(&self) -> Seq<(Word, V)> {
        self.inner@
    }

    /// The history log.
    pub closed spec fn log(&self) -> Seq<HistoryEvent<V>> {
        self.history@
    }

    /// Whether the recorder keeps history (suppressed recorders never log and
    /// cannot be rolled back).
    pub closed spec fn history_on(&self) -> bool {
        self.with_history
    }

    /// The keyed contents of the container.
    pub open spec fn contents(&self) -> Map<Word, V> {
        assoc_map(self.entries())
    }

    /// The container keys, in insertion order.
    pub open spec fn keys_in_order(&self) -> Seq<Word> {
        self.entries().map_values(|p: (Word, V)| p.0)
    }

    /// Well-formedness: container keys are unique, the log is sorted by
    /// timestamp, and a suppressed recorder has an empty log.
    pub open spec fn wf(&self) -> bool {
        &&& unique_keys(self.entries())
        &&& sorted_timestamps(event_timestamps(self.log()))
        &&& (!self.history_on() ==> self.log().len() == 0)
    }

    /// An empty recorder; `with_history` selects whether the log is kept.
    pub fn new(with_history: bool) -> (r: Self)
        ensures
            r.wf(),
            r.history_on() == with_history,
            r.entries() == Seq::<(Word, V)>::empty(),
            r.contents() == Map::<Word, V>::empty(),
            r.log() == Seq::<HistoryEvent<V>>::empty(),
    {
        HistoryRecorder { inner: Vec::new(), history: Vec::new(), with_history }
    }

    fn find_index(&self, key: &Word) -> (r: Option<usize>)
        ensures
            match r {
                Some(i) => i < self.entries().len() && self.entries()[i as int].0 == *key,
                None => key_absent(self.entries(), *key),
            },
    {
        let mut i: usize = 0;
        while i < self.inner.len()
            invariant
                i <= self.inner@.len(),
                forall|j: int| 0 <= j < i ==> self.inner@[j].0 != *key,
            decreases self.inner@.len() - i,
        {
            if self.inner[i].0 == *key {
                return Some(i);
            }
            i += 1;
        }
        None
    }

    /// Pure read of the current container state; no side effect.
    pub fn get(&self, key: &Word) -> (r: Option<&V>)
        requires
            self.wf(),
        ensures
            match r {
                Some(v) => self.contents().contains_key(*key) && *v == self.contents()[*key],
                None => !self.contents().contains_key(*key),
            },
    {
        let idx = self.find_index(key);
        match idx {
            Some(i) => {
                proof {
                    lemma_assoc_at(self.entries(), i as int);
                }
                Some(&self.inner[i].1)
            },
            None => {
                proof {
                    lemma_assoc_contains(self.entries(), *key);
                    if self.contents().contains_key(*key) {
                        let w = choose|i: int|
                            0 <= i < self.entries().len() && self.entries()[i].0 == *key;
                        assert(self.entries()[w].0 != *key);
                    }
                }
                None
            },
        }
    }

    /// Sets `container[key] = value`; when history is kept, first appends a
    /// log entry capturing the prior state (absent or previous value) tagged
    /// with `timestamp`.
    pub fn insert(&mut self, key: Word, value: V, timestamp: Timestamp)
        requires
            old(self).wf(),
            old(self).log().len() > 0 ==> old(self).log().last().timestamp.0 <= timestamp.0,
        ensures
            final(self).wf(),
            final(self).history_on() == old(self).history_on(),
            final(self).contents() == logged_insert(
                old(self).contents(),
                old(self).log(),
                key,
                value,
                timestamp,
            ).0,
            old(self).history_on() ==> final(self).log() == logged_insert(
                old(self).contents(),
                old(self).log(),
                key,
                value,
                timestamp,
            ).1,
            !old(self).history_on() ==> final(self).log() == old(self).log(),
            final(self).keys_in_order() == if old(self).contents().contains_key(key) {
                old(self).keys_in_order()
            } else {
                old(self).keys_in_order().push(key)
            },
    {
        let ghost s0 = self.inner@;
        let idx = self.find_index(&key);
        let prev: Option<V> = match idx {
            Some(i) => {
                proof {
                    lemma_assoc_at(s0, i as int);
                    lemma_assoc_contains(s0, key);
                }
                let pair = self.inner.remove(i);
                self.inner.insert(i, (key, value));
                proof {
                    assert(self.inner@ =~= s0.update(i as int, (key, value)));
                    assert((key, value) == (s0[i as int].0, value));
                    lemma_assoc_update(s0, i as int, value);
                    assert(self.keys_in_order() =~= s0.map_values(|p: (Word, V)| p.0));
                }
                Some(pair.1)
            },
            None => {
                proof {
                    assert(key_absent(s0, key));
                    lemma_assoc_contains(s0, key);
                    if assoc_map(s0).contains_key(key) {
                        let w = choose|i: int| 0 <= i < s0.len() && s0[i].0 == key;
                        assert(s0[w].0 != key);
                    }
                }
                self.inner.push((key, value));
                proof {
                    lemma_assoc_push(s0, key, value);
                    assert(unique_keys(self.inner@));
                    assert(self.keys_in_order() =~= s0.map_values(|p: (Word, V)| p.0).push(key));
                }
                None
            },
        };
        let ghost l0 = self.history@;
        if self.with_history {
            self.history.push(HistoryEvent { timestamp, key, prev });
            proof {
                let lold = event_timestamps(l0);
                let lnew = event_timestamps(self.history@);
                assert(lnew =~= lold.push(timestamp));
                assert(l0.len() > 0 ==> lold[l0.len() - 1].0 <= timestamp.0);
                assert forall|i: int, j: int| 0 <= i <= j < lnew.len() implies
                    lnew[i].0 <= lnew[j].0 by {
                    if j < lold.len() {
                        assert(lold[i].0 <= lold[j].0);
                    } else if i < lold.len() {
                        assert(lold[i].0 <= lold[lold.len() - 1].0);
                    }
                }
            }
        }
    }

    /// Pops log entries from the end while their timestamp is at or after
    /// `t`, restoring each popped entry's prior state into the container.
    /// Cost is proportional to the number of entries undone, independent of
    /// the container size. Calling it again with the same or a more recent
    /// `t` is a no-op.
    pub fn rollback_to_timestamp(&mut self, t: Timestamp)
        requires
            old(self).wf(),
            old(self).history_on(),
        ensures
            final(self).wf(),
            final(self).history_on(),
            final(self).contents() == rollback_state(old(self).contents(), old(self).log(), t).0,
            final(self).log() == rollback_state(old(self).contents(), old(self).log(), t).1,
    {
        let ghost m0 = self.contents();
        let ghost l0 = self.log();
        while self.history.len() > 0
            && self.history[self.history.len() - 1].timestamp.0 >= t.0
            invariant
                self.wf(),
                self.history_on(),
                rollback_state(self.contents(), self.log(), t) == rollback_state(m0, l0, t),
            decreases self.history@.len(),
        {
            let ghost m_it = self.contents();
            let ghost l_it = self.history@;
            let e = self.history.pop().unwrap();
            proof {
                assert(self.history@ =~= l_it.drop_last());
                assert(event_timestamps(self.history@) =~= event_timestamps(l_it).drop_last());
                assert(e == l_it.last());
            }
            let ghost s_it = self.inner@;
            match e.prev {
                Some(v) => {
                    let idx = self.find_index(&e.key);
                    match idx {
                        Some(i) => {
                            let _pair = self.inner.remove(i);
                            self.inner.insert(i, (e.key, v));
                            proof {
                                assert(self.inner@ =~= s_it.update(i as int, (e.key, v)));
                                assert((e.key, v) == (s_it[i as int].0, v));
                                lemma_assoc_update(s_it, i as int, v);
                            }
                        },
                        None => {
                            proof {
                                assert(key_absent(s_it, e.key));
                            }
                            self.inner.push((e.key, v));
                            proof {
                                lemma_assoc_push(s_it, e.key, v);
                                assert forall|a: int, b: int|
                                    0 <= a < b < self.inner@.len() implies
                                    self.inner@[a].0 != self.inner@[b].0 by {
                                    if b < s_it.len() {
                                        assert(s_it[a].0 != s_it[b].0);
                                    } else {
                                        assert(self.inner@[b].0 == e.key);
                                        assert(s_it[a].0 != e.key);
                                    }
                                }
                            }
                        },
                    }
                    proof {
                        assert(self.contents() == apply_event(m_it, e));
                    }
                },
                None => {
                    let idx = self.find_index(&e.key);
                    match idx {
                        Some(i) => {
                            let _pair = self.inner.remove(i);
                            proof {
                                lemma_assoc_remove(s_it, i as int);
                            }
                        },
                        None => {
                            proof {
                                assert(key_absent(s_it, e.key));
                                lemma_assoc_contains(s_it, e.key);
                                if assoc_map(s_it).contains_key(e.key) {
                                    let w = choose|i: int|
                                        0 <= i < s_it.len() && s_it[i].0 == e.key;
                                    assert(s_it[w].0 != e.key);
                                }
                                assert(assoc_map(s_it).remove(e.key) =~= assoc_map(s_it));
                            }
                        },
                    }
                    proof {
                        assert(self.contents() == apply_event(m_it, e));
                    }
                },
            }
            proof {
                assert(rollback_state(m_it, l_it, t)
                    == rollback_state(apply_event(m_it, l_it.last()), l_it.drop_last(), t));
            }
        }
        proof {
            assert(rollback_state(self.contents(), self.log(), t)
                == (self.contents(), self.log()));
        }
    }

    /// Irreversibly discards the log without touching the container.
    pub fn delete_history(&mut self)
        requires
            old(self).wf(),
        ensures
            final(self).wf(),
            final(self).history_on() == old(self).history_on(),
            final(self).entries() == old(self).entries(),
            final(self).contents() == old(self).contents(),
            final(self).log() == Seq::<HistoryEvent<V>>::empty(),
    {
        self.history.clear();
    }

    /// Number of entries the container holds.
    pub fn len(&self) -> (r: usize)
        ensures
            r == self.entries().len(),
    {
        self.inner.len()
    }

    /// Number of entries in the history log.
    pub fn history_len(&self) -> (r: usize)
        ensures
            r == self.log().len(),
    {
        self.history.len()
    }

    /// The key of the container entry at position `i` (insertion order).
    pub fn key_at(&self, i: usize) -> (r: Word)
        requires
            i < self.entries().len(),
        ensures
            r == self.entries()[i as int].0,
    {
        self.inner[i].0
    }

    /// The value of the container entry at position `i` (insertion order).
    pub fn value_at(&self, i: usize) -> (r: &V)
        requires
            i < self.entries().len(),
        ensures
            *r == self.entries()[i as int].1,
    {
        &self.inner[i].1
    }

    /// The history event at position `i` (oldest first).
    pub fn history_at(&self, i: usize) -> (r: &HistoryEvent<V>)
        requires
            i < self.log().len(),
        ensures
            *r == self.log()[i as int],
    {
        &self.history[i]
    }

    /// Whether the recorder keeps history.
    pub fn history_enabled(&self) -> (r: bool)
        ensures
            r == self.history_on(),
    {
        self.with_history
    }

    /// All container keys, in insertion order.
    pub fn keys(&self) -> (r: Vec<Word>)
        ensures
            r@ == self.keys_in_order(),
    {
        let mut r: Vec<Word> = Vec::new();
        let mut i: usize = 0;
        while i < self.inner.len()
            invariant
                i <= self.inner@.len(),
                r@.len() == i,
                forall|k: int| 0 <= k < i ==> r@[k] == self.inner@[k].0,
            decreases self.inner@.len() - i,
        {
            r.push(self.inner[i].0);
            i += 1;
        }
        proof {
            assert(r@ =~= self.keys_in_order());
        }
        r
    }
}

/// Container map and log after a sequence of inserts, oldest first; each
/// element of `ops` is (key, value, timestamp).
pub open spec fn run_inserts<V>(
    m: Map<Word, V>,
    log: Seq<HistoryEvent<V>>,
    ops: Seq<(Word, V, Timestamp)>,
) -> (Map<Word, V>, Seq<HistoryEvent<V>>)
    decreases ops.len(),
{
    if ops.len() == 0 {
        (m, log)
    } else {
        let prefix = run_inserts(m, log, ops.drop_last());
        logged_insert(prefix.0, prefix.1, ops.last().0, ops.last().1, ops.last().2)
    }
}

/// Law (rollback correctness): after any sequence of inserts with strictly
/// increasing timestamps on a well-formed recorder whose log lies before the
/// first of them, rolling back to the timestamp of the op at position `k`
/// restores exactly the container map and log that existed after the first
/// `k` ops.
pub proof fn lemma_rollback_restores_prefix<V>(
    m: Map<Word, V>,
    log: Seq<HistoryEvent<V>>,
    ops: Seq<(Word, V, Timestamp)>,
    k: int,
)
    requires
        0 <= k < ops.len(),
        forall|i: int, j: int| 0 <= i < j < ops.len() ==> ops[i].2.0 < ops[j].2.0,
        log.len() > 0 ==> log.last().timestamp.0 < ops[0].2.0,
    ensures
        rollback_state(run_inserts(m, log, ops).0, run_inserts(m, log, ops).1, ops[k].2).0
            == run_inserts(m, log, ops.take(k)).0,
        rollback_state(run_inserts(m, log, ops).0, run_inserts(m, log, ops).1, ops[k].2).1
            == run_inserts(m, log, ops.take(k)).1,
    decreases ops.len(),
{
    let n = ops.len() as int;
    let t = ops[k].2;
    let prefix = run_inserts(m, log, ops.drop_last());
    let full = run_inserts(m, log, ops);
    let e = full.1.last();
    assert(full.0 == prefix.0.insert(ops[n - 1].0, ops[n - 1].1));
    assert(full.1 == prefix.1.push(
        HistoryEvent {
            timestamp: ops[n - 1].2,
            key: ops[n - 1].0,
            prev: if prefix.0.contains_key(ops[n - 1].0) {
                Some(prefix.0[ops[n - 1].0])
            } else {
                None
            },
        },
    ));
    assert(e.timestamp == ops[n - 1].2);
    assert(e.timestamp.0 >= t.0);
    assert(full.1.drop_last() =~= prefix.1);
    // One undo step takes the full state back to the state before the last op.
    assert(apply_event(full.0, e) =~= prefix.0) by {
        match e.prev {
            Some(v) => {
                assert(prefix.0.contains_key(ops[n - 1].0));
            },
            None => {
                assert(!prefix.0.contains_key(ops[n - 1].0));
            },
        }
    }
    assert(rollback_state(full.0, full.1, t)
        == rollback_state(apply_event(full.0, e), full.1.drop_last(), t));
    assert(rollback_state(full.0, full.1, t) == rollback_state(prefix.0, prefix.1, t));
    // Where the log before the last op ends.
    assert(prefix.1.len() > 0 ==> prefix.1.last().timestamp.0 < ops[n - 1].2.0) by {
        if n == 1 {
            assert(prefix.1 == log);
        } else {
            let prefix2 = run_inserts(m, log, ops.drop_last().drop_last());
            assert(prefix.1 == prefix2.1.push(
                HistoryEvent {
                    timestamp: ops.drop_last().last().2,
                    key: ops.drop_last().last().0,
                    prev: if prefix2.0.contains_key(ops.drop_last().last().0) {
                        Some(prefix2.0[ops.drop_last().last().0])
                    } else {
                        None
                    },
                },
            ));
            assert(prefix.1.last().timestamp == ops[n - 2].2);
        }
    }
    if k == n - 1 {
        assert(rollback_state(prefix.0, prefix.1, t) == (prefix.0, prefix.1));
        assert(ops.take(k) =~= ops.drop_last());
    } else {
        assert(ops.drop_last()[0] == ops[0]);
        lemma_rollback_restores_prefix(m, log, ops.drop_last(), k);
        assert(ops.drop_last()[k] == ops[k]);
        assert(ops.drop_last().take(k) =~= ops.take(k));
    }
}

/// Law (rollback idempotence): rolling back to `t2` at or after `t` right
/// after a rollback to `t` changes nothing; in particular a repeated
/// rollback to the same timestamp is a no-op.
pub proof fn lemma_rollback_idempotent<V>(
    m: Map<Word, V>,
    log: Seq<HistoryEvent<V>>,
    t: Timestamp,
    t2: Timestamp,
)
    requires
        t2.0 >= t.0,
    ensures
        rollback_state(rollback_state(m, log, t).0, rollback_state(m, log, t).1, t2).0
            == rollback_state(m, log, t).0,
        rollback_state(rollback_state(m, log, t).0, rollback_state(m, log, t).1, t2).1
            == rollback_state(m, log, t).1,
    decreases log.len(),
{
    if log.len() > 0 && log.last().timestamp.0 >= t.0 {
        lemma_rollback_idempotent(apply_event(m, log.last()), log.drop_last(), t, t2);
    }
}

} // verus!
