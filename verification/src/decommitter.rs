//! The bytecode decommitment oracle: resolves code hashes to word sequences
//! through a known-bytecodes cache backed by storage, caches page
//! assignments, writes resolved words into the interpreter's memory, and
//! rolls all of that bookkeeping back on revert.

use vstd::prelude::*;
use crate::history::{HistoryEvent, HistoryRecorder, event_timestamps, logged_insert,
    rollback_state, run_inserts};
use crate::memory::{MemoryIndex, MemoryLocation, MemoryPage, MemoryQuery, SimpleMemory};
use crate::storage::Storage;
use crate::timestamps::{Timestamp, first_at_or_after, lemma_first_at_or_after_is,
    lemma_sorted_push, sorted_timestamps};
use crate::word::{Word, be_words_of, bytecode_len_in_words, bytes_to_be_words, clone_words,
    hash_len_in_words};

verus! {

/// A decommitment request: the hash to resolve, the timestamp and target
/// page, and the outputs (assigned page, length in words, freshness).
#[derive(Clone, Copy, Debug, PartialEq, Eq, Structural)]
pub struct DecommittmentQuery {
    pub hash: Word,
    pub timestamp: Timestamp,
    pub memory_page: MemoryPage,
    pub decommitted_length: u16,
    pub is_fresh: bool,
}

/// The bytecode-loading oracle: the VM uses it to load bytecodes into
/// memory. It owns the known-bytecodes cache and the decommitted-page map,
/// both rollback-capable, plus a history of decommitment requests.
pub struct DecommitterOracle<S: Storage> {
    /// Handle that enables reading contract bytecodes from the database.
    pub storage: S,
    /// The cache of bytecodes that the bootloader knows but that are not
    /// necessarily in the database; also used as a database cache.
    pub known_bytecodes: HistoryRecorder<Vec<Word>>,
    /// Pages of memory where code hashes have already been decommitted.
    /// Its history is always kept: rollback depends on it.
    pub decommitted_code_hashes: HistoryRecorder<u32>,
    /// How many decommitment requests were recorded.
    pub request_count: usize,
    /// Timestamps of the recorded decommitment requests (kept only when
    /// history is on).
    pub request_history: Vec<Timestamp>,
    /// Whether decommits also return the resolved word sequence.
    pub witness_mode: bool,
    /// Whether the known-bytecodes cache and the request log keep history.
    pub history_enabled: bool,
}

impl<S: Storage> DecommitterOracle<S> {
    /// The known-bytecodes cache contents.
    pub open spec fn known(&self) -> Map<Word, Vec<Word>> {
        self.known_bytecodes.contents()
    }

    /// The decommitted-page map contents.
    pub open spec fn decommitted(&self) -> Map<Word, u32> {
        self.decommitted_code_hashes.contents()
    }

    /// The factory dependencies of the backing storage.
    pub open spec fn storage_deps(&self) -> Map<Word, Seq<u8>> {
        self.storage.deps()
    }

    /// How many decommitment requests were recorded.
    pub open spec fn requests(&self) -> int {
        self.request_count as int
    }

    /// Timestamps of the recorded decommitment requests.
    pub open spec fn request_log(&self) -> Seq<Timestamp> {
        self.request_history@
    }

    /// Whether the oracle returns decommitted words to the caller
    /// (witness-producing mode).
    pub open spec fn witness_on(&self) -> bool {
        self.witness_mode
    }

    /// Whether the known-bytecodes cache and the request log keep history.
    pub open spec fn history_on(&self) -> bool {
        self.history_enabled
    }

    /// Well-formedness of the oracle's recorders and logs.
    pub open spec fn wf(&self) -> bool {
        &&& self.known_bytecodes.wf()
        &&& self.decommitted_code_hashes.wf()
        &&& self.decommitted_code_hashes.history_on()
        &&& self.known_bytecodes.history_on() == self.history_on()
        &&& sorted_timestamps(self.request_log())
        &&& (!self.history_on() ==> self.request_log().len() == 0)
        &&& self.requests() >= self.request_log().len()
    }

    /// Whether `get_bytecode` can resolve a hash: cached, or present in
    /// storage with a whole number of 32-byte words.
    pub open spec fn can_resolve(&self, hash: Word) -> bool {
        self.known().contains_key(hash) || (self.storage_deps().contains_key(hash)
            && self.storage_deps()[hash].len() % 32 == 0)
    }

    /// The words a resolvable hash denotes: the cached words, else the
    /// storage bytes cut into big-endian words.
    pub open spec fn resolved_words(&self, hash: Word) -> Seq<Word> {
        if self.known().contains_key(hash) {
            self.known()[hash]@
        } else {
            be_words_of(self.storage_deps()[hash])
        }
    }

    /// A fresh oracle over `storage`. `witness_mode` selects whether
    /// decommits also return the word sequence; `history_enabled` selects
    /// whether the known-bytecodes cache and the request log keep history
    /// (the decommitted-page map always does).
    pub fn new(storage: S, witness_mode: bool, history_enabled: bool) -> (r: Self)
        ensures
            r.wf(),
            r.witness_on() == witness_mode,
            r.history_on() == history_enabled,
            r.known() == Map::<Word, Vec<Word>>::empty(),
            r.decommitted() == Map::<Word, u32>::empty(),
            r.known_bytecodes.log() == Seq::<HistoryEvent<Vec<Word>>>::empty(),
            r.decommitted_code_hashes.log() == Seq::<HistoryEvent<u32>>::empty(),
            r.request_log() == Seq::<Timestamp>::empty(),
            r.requests() == 0,
            r.storage_deps() == storage.deps(),
    {
        DecommitterOracle {
            storage,
            known_bytecodes: HistoryRecorder::new(history_enabled),
            decommitted_code_hashes: HistoryRecorder::new(true),
            request_count: 0,
            request_history: Vec::new(),
            witness_mode,
            history_enabled,
        }
    }

    /// Gets the bytecode for a given hash, either from storage or from the
    /// `known_bytecodes` populated by `populate`. A storage hit is memoized
    /// in the cache under `timestamp`. The VM only requests hashes it has
    /// already claimed to know the preimage of, so resolvability is a
    /// precondition rather than an error path.
    pub fn get_bytecode(&mut self, hash: Word, timestamp: Timestamp) -> (r: Vec<Word>)
        requires
            old(self).wf(),
            old(self).can_resolve(hash),
            old(self).known_bytecodes.log().len() > 0 ==> old(self).known_bytecodes.log().last().timestamp.0 <= timestamp.0,
        ensures
            final(self).wf(),
            r@ == old(self).resolved_words(hash),
            final(self).known().contains_key(hash),
            final(self).known()[hash]@ == old(self).resolved_words(hash),
            old(self).known().contains_key(hash) ==> *final(self) == *old(self),
            !old(self).known().contains_key(hash) ==> {
                &&& final(self).known() == old(self).known().insert(
                    hash,
                    final(self).known()[hash],
                )
                &&& old(self).history_on() ==> final(self).known_bytecodes.log() == logged_insert(
                    old(self).known(),
                    old(self).known_bytecodes.log(),
                    hash,
                    final(self).known()[hash],
                    timestamp,
                ).1
                &&& !old(self).history_on() ==> final(self).known_bytecodes.log() == old(self).known_bytecodes.log()
            },
            final(self).decommitted_code_hashes == old(self).decommitted_code_hashes,
            final(self).storage_deps() == old(self).storage_deps(),
            final(self).requests() == old(self).requests(),
            final(self).request_log() == old(self).request_log(),
            final(self).witness_on() == old(self).witness_on(),
            final(self).history_on() == old(self).history_on(),
    {
        let cached = self.known_bytecodes.get(&hash);
        match cached {
            Some(v) => {
                return clone_words(v);
            },
            None => {},
        }
        let loaded = self.storage.load_factory_dep(hash);
        match loaded {
            Some(bytes) => {
                let value = bytes_to_be_words(&bytes);
                let r = clone_words(&value);
                self.known_bytecodes.insert(hash, value, timestamp);
                r
            },
            None => {
                proof {
                    assert(false);
                }
                Vec::new()
            },
        }
    }

    /// Adds additional bytecodes under one timestamp, oldest pair first.
    /// They will take precedence over the bytecodes from storage.
    pub fn populate(&mut self, bytecodes: Vec<(Word, Vec<Word>)>, timestamp: Timestamp)
        requires
            old(self).wf(),
            old(self).known_bytecodes.log().len() > 0 ==> old(self).known_bytecodes.log().last().timestamp.0 <= timestamp.0,
        ensures
            final(self).wf(),
            final(self).known() == run_inserts(
                old(self).known(),
                old(self).known_bytecodes.log(),
                bytecodes@.map_values(|p: (Word, Vec<Word>)| (p.0, p.1, timestamp)),
            ).0,
            old(self).history_on() ==> final(self).known_bytecodes.log() == run_inserts(
                old(self).known(),
                old(self).known_bytecodes.log(),
                bytecodes@.map_values(|p: (Word, Vec<Word>)| (p.0, p.1, timestamp)),
            ).1,
            !old(self).history_on() ==> final(self).known_bytecodes.log() == old(self).known_bytecodes.log(),
            final(self).known_bytecodes.log().len() > 0 ==> final(self).known_bytecodes.log().last().timestamp.0 <= timestamp.0,
            final(self).decommitted_code_hashes == old(self).decommitted_code_hashes,
            final(self).storage_deps() == old(self).storage_deps(),
            final(self).requests() == old(self).requests(),
            final(self).request_log() == old(self).request_log(),
            final(self).witness_on() == old(self).witness_on(),
            final(self).history_on() == old(self).history_on(),
    {
        let ghost orig = bytecodes@;
        let ghost ops = bytecodes@.map_values(|p: (Word, Vec<Word>)| (p.0, p.1, timestamp));
        let ghost k0 = self.known();
        let ghost l0 = self.known_bytecodes.log();
        let ghost dec0 = self.decommitted_code_hashes;
        let ghost deps0 = self.storage.deps();
        let ghost req0 = self.request_count;
        let ghost rl0 = self.request_history@;
        let ghost wit0 = self.witness_mode;
        let ghost hist0 = self.history_enabled;
        let mut rest = bytecodes;
        while rest.len() > 0
            invariant
                rest@.len() <= orig.len(),
                rest@ == orig.skip(orig.len() - rest@.len()),
                ops == orig.map_values(|p: (Word, Vec<Word>)| (p.0, p.1, timestamp)),
                self.wf(),
                self.known() == run_inserts(k0, l0, ops.take(orig.len() - rest@.len())).0,
                self.history_on() ==> self.known_bytecodes.log() == run_inserts(
                    k0,
                    l0,
                    ops.take(orig.len() - rest@.len()),
                ).1,
                !self.history_on() ==> self.known_bytecodes.log() == l0,
                self.known_bytecodes.log().len() > 0
                    ==> self.known_bytecodes.log().last().timestamp.0 <= timestamp.0,
                self.decommitted_code_hashes == dec0,
                self.storage.deps() == deps0,
                self.request_count == req0,
                self.request_history@ == rl0,
                self.witness_mode == wit0,
                self.history_enabled == hist0,
            decreases rest@.len(),
        {
            let ghost done = orig.len() - rest@.len();
            let ghost rest_before = rest@;
            let pair = rest.remove(0);
            proof {
                assert(rest@ =~= orig.skip(done + 1));
                assert(pair == orig[done as int]);
                assert(ops.take(done + 1).drop_last() =~= ops.take(done as int));
                assert(ops.take(done + 1).last() == ops[done as int]);
                assert(ops[done as int] == (orig[done as int].0, orig[done as int].1, timestamp));
            }
            self.known_bytecodes.insert(pair.0, pair.1, timestamp);
        }
        proof {
            assert(ops.take(orig.len() as int) =~= ops);
        }
    }

    /// All hashes ever decommitted, in the order their pages were first
    /// assigned.
    pub fn get_used_bytecode_hashes(&self) -> (r: Vec<Word>)
        ensures
            r@ == self.decommitted_code_hashes.keys_in_order(),
    {
        self.decommitted_code_hashes.keys()
    }

    /// Counts decommitment events at or after `timestamp`. Each used
    /// bytecode has one and only one corresponding event in the history of
    /// `decommitted_code_hashes`.
    pub fn get_decommitted_bytecodes_after_timestamp(&self, timestamp: Timestamp) -> (r: usize)
        requires
            self.wf(),
        ensures
            r == self.decommitted_code_hashes.log().len() - first_at_or_after(
                event_timestamps(self.decommitted_code_hashes.log()),
                timestamp,
            ),
    {
        let ghost log = self.decommitted_code_hashes.log();
        let ghost ts = event_timestamps(log);
        let n = self.decommitted_code_hashes.history_len();
        let mut start: usize = n;
        while start > 0 && self.decommitted_code_hashes.history_at(start - 1).timestamp.0
            >= timestamp.0
            invariant
                start <= n,
                self.wf(),
                n == self.decommitted_code_hashes.log().len(),
                log == self.decommitted_code_hashes.log(),
                ts == event_timestamps(log),
                forall|i: int| start <= i < n ==> log[i].timestamp.0 >= timestamp.0,
            decreases start,
        {
            start -= 1;
        }
        proof {
            assert(forall|i: int| 0 <= i < ts.len() ==> ts[i] == log[i].timestamp);
            if start > 0 {
                assert(log[start - 1].timestamp.0 < timestamp.0);
                assert forall|i: int| 0 <= i < start implies ts[i].0 < timestamp.0 by {
                    assert(ts[i].0 <= ts[start - 1].0);
                }
            }
            lemma_first_at_or_after_is(ts, timestamp, start as int);
        }
        n - start
    }

    /// The decommitted-page map together with its history.
    pub fn get_decommitted_code_hashes_with_history(&self) -> (r: &HistoryRecorder<u32>)
        ensures
            *r == self.decommitted_code_hashes,
    {
        &self.decommitted_code_hashes
    }

    /// Returns the storage handle. Used only in tests.
    pub fn get_storage(&self) -> (r: &S)
        ensures
            r.deps() == self.storage_deps(),
    {
        &self.storage
    }

    /// Irreversibly discards all history logs without touching the caches;
    /// used once an execution has fully committed and no revert can come.
    pub fn delete_history(&mut self)
        requires
            old(self).wf(),
        ensures
            final(self).wf(),
            final(self).known() == old(self).known(),
            final(self).decommitted() == old(self).decommitted(),
            final(self).known_bytecodes.entries() == old(self).known_bytecodes.entries(),
            final(self).decommitted_code_hashes.entries() == old(self).decommitted_code_hashes.entries(),
            final(self).known_bytecodes.log() == Seq::<HistoryEvent<Vec<Word>>>::empty(),
            final(self).decommitted_code_hashes.log() == Seq::<HistoryEvent<u32>>::empty(),
            final(self).request_log() == Seq::<Timestamp>::empty(),
            final(self).requests() == old(self).requests(),
            final(self).storage_deps() == old(self).storage_deps(),
            final(self).witness_on() == old(self).witness_on(),
            final(self).history_on() == old(self).history_on(),
    {
        self.decommitted_code_hashes.delete_history();
        self.known_bytecodes.delete_history();
        self.request_history.clear();
    }

    /// Restores both caches and the request log to exactly the state that
    /// existed before `timestamp`. Cached bytecode bytes already fetched
    /// from storage stay valid; only the bookkeeping is undone.
    pub fn rollback_to_timestamp(&mut self, timestamp: Timestamp)
        requires
            old(self).wf(),
            old(self).history_on(),
        ensures
            final(self).wf(),
            final(self).decommitted() == rollback_state(
                old(self).decommitted(),
                old(self).decommitted_code_hashes.log(),
                timestamp,
            ).0,
            final(self).decommitted_code_hashes.log() == rollback_state(
                old(self).decommitted(),
                old(self).decommitted_code_hashes.log(),
                timestamp,
            ).1,
            final(self).known() == rollback_state(
                old(self).known(),
                old(self).known_bytecodes.log(),
                timestamp,
            ).0,
            final(self).known_bytecodes.log() == rollback_state(
                old(self).known(),
                old(self).known_bytecodes.log(),
                timestamp,
            ).1,
            final(self).request_log() == old(self).request_log().take(
                first_at_or_after(old(self).request_log(), timestamp),
            ),
            final(self).requests() == old(self).requests() - (old(self).request_log().len()
                - first_at_or_after(old(self).request_log(), timestamp)),
            final(self).storage_deps() == old(self).storage_deps(),
            final(self).witness_on() == old(self).witness_on(),
            final(self).history_on() == old(self).history_on(),
    {
        self.decommitted_code_hashes.rollback_to_timestamp(timestamp);
        self.known_bytecodes.rollback_to_timestamp(timestamp);
        let ghost dec_after = self.decommitted_code_hashes;
        let ghost known_after = self.known_bytecodes;
        let ghost deps0 = self.storage.deps();
        let ghost rl0 = self.request_history@;
        let ghost req0 = self.request_count;
        let ghost wit0 = self.witness_mode;
        let ghost hist0 = self.history_enabled;
        while self.request_history.len() > 0
            && self.request_history[self.request_history.len() - 1].0 >= timestamp.0
            invariant
                self.request_history@.len() <= rl0.len(),
                self.request_history@ == rl0.take(self.request_history@.len() as int),
                forall|i: int|
                    self.request_history@.len() <= i < rl0.len() ==> rl0[i].0 >= timestamp.0,
                sorted_timestamps(rl0),
                self.request_count == req0 - (rl0.len() - self.request_history@.len()),
                req0 >= rl0.len(),
                self.decommitted_code_hashes == dec_after,
                self.known_bytecodes == known_after,
                self.storage.deps() == deps0,
                self.witness_mode == wit0,
                self.history_enabled == hist0,
            decreases self.request_history@.len(),
        {
            let ghost before = self.request_history@;
            self.request_history.pop();
            self.request_count -= 1;
            proof {
                assert(self.request_history@ =~= rl0.take(before.len() - 1));
                assert(before[before.len() - 1] == rl0[before.len() - 1]);
            }
        }
        proof {
            let cur = self.request_history@;
            if cur.len() > 0 {
                assert(cur[cur.len() - 1] == rl0[cur.len() - 1]);
                assert(rl0[cur.len() - 1].0 < timestamp.0);
                assert forall|i: int| 0 <= i < cur.len() implies rl0[i].0 < timestamp.0 by {
                    assert(rl0[i].0 <= rl0[cur.len() - 1].0);
                }
            }
            lemma_first_at_or_after_is(rl0, timestamp, cur.len() as int);
            assert forall|i: int, j: int| 0 <= i <= j < cur.len() implies cur[i].0 <= cur[j].0 by {
                assert(rl0[i].0 <= rl0[j].0);
            }
        }
    }

    /// Heap bytes the oracle's caches are accounted at: 32 bytes per cached
    /// bytecode word plus a fixed share per decommitted-page entry.
    pub open spec fn size_bytes(&self) -> int {
        words_heap_bytes(self.known_bytecodes.entries())
            + self.decommitted_code_hashes.entries().len() * HASH_PAGE_ENTRY_BYTES
    }

    /// Measures the amount of memory used by this oracle (used for metrics
    /// only). Container overhead of the maps themselves is neglected.
    pub fn get_size(&self) -> (r: usize)
        requires
            self.wf(),
            self.size_bytes() <= usize::MAX,
        ensures
            r == self.size_bytes(),
    {
        let ghost entries = self.known_bytecodes.entries();
        let mut known_size: usize = 0;
        let n = self.known_bytecodes.len();
        let mut i: usize = 0;
        while i < n
            invariant
                i <= n,
                n == entries.len(),
                entries == self.known_bytecodes.entries(),
                self.wf(),
                known_size == words_heap_bytes(entries.take(i as int)),
                self.size_bytes() <= usize::MAX,
            decreases n - i,
        {
            let v = self.known_bytecodes.value_at(i);
            proof {
                lemma_words_heap_bytes_step(entries, i as int);
                lemma_words_heap_bytes_prefix_le(entries, i + 1);
                assert(known_size + v@.len() * 32 == words_heap_bytes(entries.take(i + 1)));
                assert(self.decommitted_code_hashes.entries().len() * HASH_PAGE_ENTRY_BYTES >= 0);
                assert(words_heap_bytes(entries.take(i + 1)) <= usize::MAX);
            }
            known_size = known_size + v.len() * WORD_BYTES;
            i += 1;
        }
        proof {
            assert(entries.take(n as int) =~= entries);
            lemma_words_heap_bytes_nonneg(entries);
        }
        let dec_len = self.decommitted_code_hashes.len();
        known_size + dec_len * HASH_PAGE_ENTRY_BYTES
    }

    /// Heap bytes the history logs are accounted at: a fixed share per
    /// record plus 32 bytes per word of each logged previous bytecode.
    pub open spec fn history_size_bytes(&self) -> int {
        self.known_bytecodes.log().len() * KNOWN_RECORD_BYTES + prev_heap_bytes(
            self.known_bytecodes.log(),
        ) + self.decommitted_code_hashes.log().len() * DECOMMITTED_RECORD_BYTES
    }

    /// Measures the amount of memory held by the history logs (used for
    /// metrics only).
    pub fn get_history_size(&self) -> (r: usize)
        requires
            self.wf(),
            self.history_size_bytes() <= usize::MAX,
        ensures
            r == self.history_size_bytes(),
    {
        let ghost log = self.known_bytecodes.log();
        let mut heap: usize = 0;
        let n = self.known_bytecodes.history_len();
        let mut i: usize = 0;
        while i < n
            invariant
                i <= n,
                n == log.len(),
                log == self.known_bytecodes.log(),
                self.wf(),
                heap == prev_heap_bytes(log.take(i as int)),
                self.history_size_bytes() <= usize::MAX,
            decreases n - i,
        {
            let e = self.known_bytecodes.history_at(i);
            proof {
                lemma_prev_heap_bytes_step(log, i as int);
                lemma_prev_heap_bytes_prefix_le(log, i + 1);
                assert(log.len() * KNOWN_RECORD_BYTES >= 0);
                assert(self.decommitted_code_hashes.log().len() * DECOMMITTED_RECORD_BYTES >= 0);
                assert(prev_heap_bytes(log.take(i + 1)) <= usize::MAX);
            }
            match &e.prev {
                Some(v) => {
                    heap = heap + v.len() * WORD_BYTES;
                },
                None => {},
            }
            i += 1;
        }
        proof {
            assert(log.take(n as int) =~= log);
            lemma_prev_heap_bytes_nonneg(log);
        }
        let dec_log_len = self.decommitted_code_hashes.history_len();
        n * KNOWN_RECORD_BYTES + heap + dec_log_len * DECOMMITTED_RECORD_BYTES
    }

    /// Loads a given bytecode hash into memory. A repeat decommit returns
    /// the previously assigned page without touching memory (the page is
    /// read-only once populated); a fresh one resolves the words, records
    /// the page assignment, and writes every word into the target page at
    /// sequential indices. In witness mode the words are also returned.
    pub fn decommit_into_memory(
        &mut self,
        monotonic_cycle_counter: u32,
        partial_query: DecommittmentQuery,
        memory: &mut SimpleMemory,
    ) -> (r: (DecommittmentQuery, Option<Vec<Word>>))
        requires
            old(self).wf(),
            old(memory).wf(),
            old(self).requests() < usize::MAX,
            old(self).request_log().len() > 0 ==> old(self).request_log().last().0
                <= partial_query.timestamp.0,
            old(self).decommitted_code_hashes.log().len() > 0 ==> old(self).decommitted_code_hashes.log().last().timestamp.0 <= partial_query.timestamp.0,
            old(self).known_bytecodes.log().len() > 0 ==> old(self).known_bytecodes.log().last().timestamp.0 <= partial_query.timestamp.0,
            !old(self).decommitted().contains_key(partial_query.hash) ==> old(self).can_resolve(
                partial_query.hash,
            ) && old(self).resolved_words(partial_query.hash).len() <= 0xffff,
        ensures
            final(self).wf(),
            final(memory).wf(),
            final(self).witness_on() == old(self).witness_on(),
            final(self).history_on() == old(self).history_on(),
            final(self).storage_deps() == old(self).storage_deps(),
            final(self).requests() == old(self).requests() + 1,
            old(self).history_on() ==> final(self).request_log() == old(self).request_log().push(
                partial_query.timestamp,
            ),
            !old(self).history_on() ==> final(self).request_log() == old(self).request_log(),
            r.0.hash == partial_query.hash,
            r.0.timestamp == partial_query.timestamp,
            r.0.is_fresh == !old(self).decommitted().contains_key(partial_query.hash),
            old(self).decommitted().contains_key(partial_query.hash) ==> {
                &&& r.0.memory_page == MemoryPage(old(self).decommitted()[partial_query.hash])
                &&& r.0.decommitted_length == hash_len_in_words(partial_query.hash)
                &&& r.1 == None::<Vec<Word>>
                &&& *final(memory) == *old(memory)
                &&& final(self).known_bytecodes == old(self).known_bytecodes
                &&& final(self).decommitted_code_hashes == old(self).decommitted_code_hashes
            },
            !old(self).decommitted().contains_key(partial_query.hash) ==> {
                let words = old(self).resolved_words(partial_query.hash);
                &&& r.0.memory_page == partial_query.memory_page
                &&& r.0.decommitted_length == words.len()
                &&& final(self).decommitted() == logged_insert(
                    old(self).decommitted(),
                    old(self).decommitted_code_hashes.log(),
                    partial_query.hash,
                    partial_query.memory_page.0,
                    partial_query.timestamp,
                ).0
                &&& final(self).decommitted_code_hashes.log() == logged_insert(
                    old(self).decommitted(),
                    old(self).decommitted_code_hashes.log(),
                    partial_query.hash,
                    partial_query.memory_page.0,
                    partial_query.timestamp,
                ).1
                &&& final(self).known().contains_key(partial_query.hash)
                &&& final(self).known()[partial_query.hash]@ == words
                &&& (old(self).known().contains_key(partial_query.hash) ==> final(self).known_bytecodes == old(self).known_bytecodes)
                &&& (!old(self).known().contains_key(partial_query.hash) ==> final(self).known()
                    == old(self).known().insert(
                    partial_query.hash,
                    final(self).known()[partial_query.hash],
                ))
                &&& forall|j: int|
                    0 <= j < words.len() ==> final(memory).word_at(
                        partial_query.memory_page.0,
                        j,
                    ) == words[j]
                &&& forall|p: u32, idx: int|
                    !(p == partial_query.memory_page.0 && 0 <= idx < words.len()) ==> final(memory).word_at(p, idx) == old(memory).word_at(p, idx)
                &&& (old(self).witness_on() ==> (r.1 matches Some(v) && v@ == words))
                &&& (!old(self).witness_on() ==> r.1 == None::<Vec<Word>>)
            },
    {
        self.request_count += 1;
        if self.history_enabled {
            proof {
                lemma_sorted_push(self.request_history@, partial_query.timestamp);
            }
            self.request_history.push(partial_query.timestamp);
        }
        let mut query = partial_query;
        // First, check if this bytecode was fetched before: then the page
        // that was used then can be returned, as code memory is read-only.
        let cached_page: Option<u32> = match self.decommitted_code_hashes.get(&query.hash) {
            Some(p) => Some(*p),
            None => None,
        };
        match cached_page {
            Some(memory_page) => {
                query.is_fresh = false;
                query.memory_page = MemoryPage(memory_page);
                query.decommitted_length = bytecode_len_in_words(&query.hash);
                (query, None)
            },
            None => {
                // A fresh bytecode that was not read before.
                let values = self.get_bytecode(query.hash, query.timestamp);
                let page_to_use = query.memory_page;
                let timestamp = query.timestamp;
                query.decommitted_length = values.len() as u16;
                query.is_fresh = true;
                self.decommitted_code_hashes.insert(query.hash, page_to_use.0, timestamp);
                // Copy the bytecode into the target memory page.
                let ghost mem0 = *memory;
                let ghost words = values@;
                let mut i: usize = 0;
                while i < values.len()
                    invariant
                        i <= values@.len(),
                        values@ == words,
                        values@.len() <= 0xffff,
                        memory.wf(),
                        forall|j: int|
                            0 <= j < i ==> memory.word_at(page_to_use.0, j) == words[j],
                        forall|p: u32, idx: int|
                            !(p == page_to_use.0 && 0 <= idx < i) ==> memory.word_at(p, idx)
                                == mem0.word_at(p, idx),
                    decreases values@.len() - i,
                {
                    let tmp_q = MemoryQuery {
                        timestamp,
                        location: MemoryLocation {
                            page: page_to_use,
                            index: MemoryIndex(i as u32),
                        },
                        value: values[i],
                        value_is_pointer: false,
                        rw_flag: true,
                    };
                    memory.specialized_code_query(monotonic_cycle_counter, tmp_q);
                    i += 1;
                }
                if self.witness_mode {
                    // In witness mode the values are also returned.
                    (query, Some(values))
                } else {
                    (query, None)
                }
            },
        }
    }
}

/// Heap bytes accounted per 256-bit word.
pub const WORD_BYTES: usize = 32;

/// Bytes accounted per (code hash, page index) entry of the decommitted map.
pub const HASH_PAGE_ENTRY_BYTES: usize = 36;

/// Bytes accounted per record of the known-bytecodes history: a timestamp,
/// a code hash, and the option of a previous word vector.
pub const KNOWN_RECORD_BYTES: usize = 64;

/// Bytes accounted per record of the decommitted-page history.
pub const DECOMMITTED_RECORD_BYTES: usize = 40;

/// Heap bytes of the word vectors an association sequence holds.
pub open spec fn words_heap_bytes(s: Seq<(Word, Vec<Word>)>) -> int
    decreases s.len(),
{
    if s.len() == 0 {
        0
    } else {
        words_heap_bytes(s.drop_last()) + s.last().1@.len() * 32
    }
}

/// Heap bytes of the previous-value word vectors a history log holds.
pub open spec fn prev_heap_bytes(log: Seq<HistoryEvent<Vec<Word>>>) -> int
    decreases log.len(),
{
    if log.len() == 0 {
        0
    } else {
        prev_heap_bytes(log.drop_last()) + (match log.last().prev {
            Some(v) => v@.len() * 32,
            None => 0,
        })
    }
}

proof fn lemma_words_heap_bytes_nonneg(s: Seq<(Word, Vec<Word>)>)
    ensures
        words_heap_bytes(s) >= 0,
    decreases s.len(),
{
    if s.len() > 0 {
        lemma_words_heap_bytes_nonneg(s.drop_last());
    }
}

proof fn lemma_words_heap_bytes_step(s: Seq<(Word, Vec<Word>)>, i: int)
    requires
        0 <= i < s.len(),
    ensures
        words_heap_bytes(s.take(i + 1)) == words_heap_bytes(s.take(i)) + s[i].1@.len() * 32,
{
    assert(s.take(i + 1).drop_last() =~= s.take(i));
    assert(s.take(i + 1).last() == s[i]);
}

proof fn lemma_words_heap_bytes_prefix_le(s: Seq<(Word, Vec<Word>)>, i: int)
    requires
        0 <= i <= s.len(),
    ensures
        words_heap_bytes(s.take(i)) <= words_heap_bytes(s),
    decreases s.len() - i,
{
    if i == s.len() {
        assert(s.take(i) =~= s);
    } else {
        lemma_words_heap_bytes_step(s, i);
        lemma_words_heap_bytes_prefix_le(s, i + 1);
    }
}

proof fn lemma_prev_heap_bytes_nonneg(log: Seq<HistoryEvent<Vec<Word>>>)
    ensures
        prev_heap_bytes(log) >= 0,
    decreases log.len(),
{
    if log.len() > 0 {
        lemma_prev_heap_bytes_nonneg(log.drop_last());
    }
}

proof fn lemma_prev_heap_bytes_step(log: Seq<HistoryEvent<Vec<Word>>>, i: int)
    requires
        0 <= i < log.len(),
    ensures
        prev_heap_bytes(log.take(i + 1)) == prev_heap_bytes(log.take(i)) + (match log[i].prev {
            Some(v) => v@.len() * 32,
            None => 0,
        }),
{
    assert(log.take(i + 1).drop_last() =~= log.take(i));
    assert(log.take(i + 1).last() == log[i]);
}

proof fn lemma_prev_heap_bytes_prefix_le(log: Seq<HistoryEvent<Vec<Word>>>, i: int)
    requires
        0 <= i <= log.len(),
    ensures
        prev_heap_bytes(log.take(i)) <= prev_heap_bytes(log),
    decreases log.len() - i,
{
    if i == log.len() {
        assert(log.take(i) =~= log);
    } else {
        lemma_prev_heap_bytes_step(log, i);
        lemma_prev_heap_bytes_prefix_le(log, i + 1);
    }
}

/// Law (decommit memoization): after a fresh decommit records a page for a
/// hash, the hash is in the decommitted map, so by the contract of
/// `decommit_into_memory` every later decommit of it without an intervening
/// rollback is reported not fresh and leaves the memory untouched.
pub proof fn lemma_decommit_memoized(
    dec: Map<Word, u32>,
    log: Seq<HistoryEvent<u32>>,
    hash: Word,
    page: u32,
    t: Timestamp,
)
    ensures
        logged_insert(dec, log, hash, page, t).0.contains_key(hash),
{
}

/// Law (decommit after rollback re-triggers): a fresh decommit of a hash at
/// `t1` followed by a rollback to `t1` leaves the decommitted map and its
/// log exactly as they were, with the hash absent again — so by the
/// contract of `decommit_into_memory` a later decommit of it is fresh and
/// re-populates memory.
pub proof fn lemma_decommit_after_rollback_re_triggers(
    dec: Map<Word, u32>,
    log: Seq<HistoryEvent<u32>>,
    hash: Word,
    page: u32,
    t1: Timestamp,
)
    requires
        !dec.contains_key(hash),
        log.len() > 0 ==> log.last().timestamp.0 < t1.0,
    ensures
        rollback_state(
            logged_insert(dec, log, hash, page, t1).0,
            logged_insert(dec, log, hash, page, t1).1,
            t1,
        ).0 == dec,
        rollback_state(
            logged_insert(dec, log, hash, page, t1).0,
            logged_insert(dec, log, hash, page, t1).1,
            t1,
        ).1 == log,
        !rollback_state(
            logged_insert(dec, log, hash, page, t1).0,
            logged_insert(dec, log, hash, page, t1).1,
            t1,
        ).0.contains_key(hash),
{
    let st = logged_insert(dec, log, hash, page, t1);
    let e = st.1.last();
    assert(e.timestamp == t1);
    assert(st.1.drop_last() =~= log);
    assert(e.prev == None::<u32>);
    assert(crate::history::apply_event(st.0, e) =~= dec);
    assert(rollback_state(st.0, st.1, t1) == rollback_state(dec, log, t1));
}

} // verus!
