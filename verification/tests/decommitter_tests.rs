use vm_core::decommitter::{DecommitterOracle, DecommittmentQuery};
use vm_core::memory::{MemoryPage, SimpleMemory};
use vm_core::storage::{InMemoryStorage, Storage};
use vm_core::timestamps::Timestamp;
use vm_core::word::{Word, bytes_to_be_words};

/// A code hash in the canonical shape: big-endian bytes 2 and 3 carry the
/// bytecode length in words.
fn hash_with_len(tag: u64, len_in_words: u64) -> Word {
    Word { limb0: tag, limb1: 0, limb2: 0, limb3: len_in_words << 32 }
}

fn query(hash: Word, page: u32, ts: u32) -> DecommittmentQuery {
    DecommittmentQuery {
        hash,
        timestamp: Timestamp(ts),
        memory_page: MemoryPage(page),
        decommitted_length: 0,
        is_fresh: false,
    }
}

fn two_word_dep() -> Vec<u8> {
    (0u8..64).collect()
}

fn oracle_with_dep(hash: Word) -> DecommitterOracle<InMemoryStorage> {
    let mut storage = InMemoryStorage::new();
    storage.insert_factory_dep(hash, two_word_dep());
    DecommitterOracle::new(storage, false, true)
}

#[test]
fn fresh_decommit_populates_memory() {
    let hash = hash_with_len(1, 2);
    let mut oracle = oracle_with_dep(hash);
    let mut memory = SimpleMemory::new();
    let (q, witness) = oracle.decommit_into_memory(0, query(hash, 4, 10), &mut memory);
    assert!(q.is_fresh);
    assert_eq!(q.decommitted_length, 2);
    assert_eq!(q.memory_page, MemoryPage(4));
    assert_eq!(witness, None);
    let expected = bytes_to_be_words(&two_word_dep());
    assert_eq!(memory.dump_page_content_as_u256_words(4, 0, 2), expected);
    assert_eq!(oracle.request_count, 1);
    assert_eq!(oracle.get_used_bytecode_hashes(), vec![hash]);
}

#[test]
fn repeat_decommit_is_memoized() {
    // Decommitting the same hash twice at increasing timestamps marks the
    // second call not fresh and re-issues no memory write.
    let hash = hash_with_len(2, 2);
    let mut oracle = oracle_with_dep(hash);
    let mut memory = SimpleMemory::new();
    let (q1, _) = oracle.decommit_into_memory(0, query(hash, 4, 10), &mut memory);
    assert!(q1.is_fresh);
    let words_before = memory.dump_page_content_as_u256_words(4, 0, 3);

    // The caller proposes page 5; the oracle answers with the page used
    // before, and the proposed page stays untouched.
    let (q2, witness2) = oracle.decommit_into_memory(1, query(hash, 5, 20), &mut memory);
    assert!(!q2.is_fresh);
    assert_eq!(q2.memory_page, MemoryPage(4));
    assert_eq!(q2.decommitted_length, 2);
    assert_eq!(witness2, None);
    assert_eq!(memory.dump_page_content_as_u256_words(4, 0, 3), words_before);
    assert_eq!(memory.dump_page_content_as_u256_words(5, 0, 2), vec![Word::zero(); 2]);
    assert_eq!(oracle.request_count, 2);
    assert_eq!(oracle.get_used_bytecode_hashes(), vec![hash]);
}

#[test]
fn decommit_after_rollback_re_triggers() {
    // Fresh at t1, repeat at t2, roll back to t1, decommit at t3: fresh
    // again, and memory is re-populated on the newly proposed page.
    let hash = hash_with_len(3, 2);
    let mut oracle = oracle_with_dep(hash);
    let mut memory = SimpleMemory::new();
    let (q1, _) = oracle.decommit_into_memory(0, query(hash, 4, 10), &mut memory);
    assert!(q1.is_fresh);
    let (q2, _) = oracle.decommit_into_memory(1, query(hash, 5, 20), &mut memory);
    assert!(!q2.is_fresh);

    oracle.rollback_to_timestamp(Timestamp(10));
    assert_eq!(oracle.get_used_bytecode_hashes(), Vec::<Word>::new());
    assert_eq!(oracle.request_count, 0);

    let (q3, _) = oracle.decommit_into_memory(2, query(hash, 6, 30), &mut memory);
    assert!(q3.is_fresh);
    assert_eq!(q3.memory_page, MemoryPage(6));
    let expected = bytes_to_be_words(&two_word_dep());
    assert_eq!(memory.dump_page_content_as_u256_words(6, 0, 2), expected);
    assert_eq!(oracle.get_used_bytecode_hashes(), vec![hash]);
}

#[test]
fn witness_mode_returns_words() {
    let hash = hash_with_len(4, 2);
    let mut storage = InMemoryStorage::new();
    storage.insert_factory_dep(hash, two_word_dep());
    let mut oracle = DecommitterOracle::new(storage, true, true);
    let mut memory = SimpleMemory::new();
    let (q, witness) = oracle.decommit_into_memory(0, query(hash, 4, 10), &mut memory);
    assert!(q.is_fresh);
    assert_eq!(witness, Some(bytes_to_be_words(&two_word_dep())));
}

#[test]
fn get_bytecode_prefers_populated_over_storage() {
    let hash = hash_with_len(5, 2);
    let mut oracle = oracle_with_dep(hash);
    let populated = vec![Word::from_u64(7), Word::from_u64(8)];
    oracle.populate(vec![(hash, populated.clone())], Timestamp(1));
    assert_eq!(oracle.get_bytecode(hash, Timestamp(2)), populated);
}

#[test]
fn populate_later_pair_wins() {
    let hash = hash_with_len(14, 2);
    let mut oracle = DecommitterOracle::new(InMemoryStorage::new(), false, true);
    let first = vec![Word::from_u64(1)];
    let second = vec![Word::from_u64(2)];
    oracle.populate(vec![(hash, first), (hash, second.clone())], Timestamp(1));
    assert_eq!(oracle.get_bytecode(hash, Timestamp(2)), second);
    assert_eq!(oracle.known_bytecodes.len(), 1);
    // An empty batch changes nothing.
    oracle.populate(vec![], Timestamp(3));
    assert_eq!(oracle.known_bytecodes.len(), 1);
}

#[test]
fn get_bytecode_memoizes_storage_hit() {
    let hash = hash_with_len(6, 2);
    let mut oracle = oracle_with_dep(hash);
    let expected = bytes_to_be_words(&two_word_dep());
    assert_eq!(oracle.get_bytecode(hash, Timestamp(1)), expected);
    assert_eq!(oracle.known_bytecodes.get(&hash), Some(&expected));
    assert_eq!(oracle.known_bytecodes.history_len(), 1);
    // A second read is served from the cache and logs nothing new.
    assert_eq!(oracle.get_bytecode(hash, Timestamp(2)), expected);
    assert_eq!(oracle.known_bytecodes.history_len(), 1);
}

#[test]
fn decommitted_bytecodes_after_timestamp_counts_suffix() {
    let h1 = hash_with_len(7, 2);
    let h2 = hash_with_len(8, 2);
    let mut storage = InMemoryStorage::new();
    storage.insert_factory_dep(h1, two_word_dep());
    storage.insert_factory_dep(h2, two_word_dep());
    let mut oracle = DecommitterOracle::new(storage, false, true);
    let mut memory = SimpleMemory::new();
    oracle.decommit_into_memory(0, query(h1, 4, 10), &mut memory);
    oracle.decommit_into_memory(1, query(h2, 5, 20), &mut memory);
    assert_eq!(oracle.get_decommitted_bytecodes_after_timestamp(Timestamp(0)), 2);
    assert_eq!(oracle.get_decommitted_bytecodes_after_timestamp(Timestamp(15)), 1);
    assert_eq!(oracle.get_decommitted_bytecodes_after_timestamp(Timestamp(21)), 0);
}

#[test]
fn size_accounting_exact_values() {
    let hash = hash_with_len(9, 2);
    let mut oracle = oracle_with_dep(hash);
    let mut memory = SimpleMemory::new();
    assert_eq!(oracle.get_size(), 0);
    assert_eq!(oracle.get_history_size(), 0);
    oracle.decommit_into_memory(0, query(hash, 4, 10), &mut memory);
    // One cached bytecode of 2 words (64 bytes) plus one decommitted-page
    // entry (36 bytes).
    assert_eq!(oracle.get_size(), 100);
    // One known-bytecodes record (64 bytes, previous value absent) plus one
    // decommitted-page record (40 bytes).
    assert_eq!(oracle.get_history_size(), 104);
    oracle.delete_history();
    assert_eq!(oracle.get_history_size(), 0);
    assert_eq!(oracle.get_size(), 100);
}

#[test]
fn delete_history_keeps_caches() {
    let hash = hash_with_len(10, 2);
    let mut oracle = oracle_with_dep(hash);
    let mut memory = SimpleMemory::new();
    oracle.decommit_into_memory(0, query(hash, 4, 10), &mut memory);
    oracle.delete_history();
    assert_eq!(oracle.known_bytecodes.history_len(), 0);
    assert_eq!(oracle.decommitted_code_hashes.history_len(), 0);
    assert_eq!(oracle.get_used_bytecode_hashes(), vec![hash]);
    assert!(oracle.known_bytecodes.get(&hash).is_some());
}

#[test]
fn storage_handle_is_shared_back() {
    let hash = hash_with_len(11, 2);
    let oracle = oracle_with_dep(hash);
    let storage = oracle.get_storage();
    let recorder = oracle.get_decommitted_code_hashes_with_history();
    assert_eq!(recorder.len(), 0);
    // The handle still resolves the dependency it was seeded with.
    let mut copy = InMemoryStorage::new();
    copy.insert_factory_dep(hash, two_word_dep());
    assert_eq!(copy.load_factory_dep(hash), Some(two_word_dep()));
    let _ = storage;
}

#[test]
fn storage_absence_is_data() {
    let mut storage = InMemoryStorage::new();
    storage.insert_factory_dep(hash_with_len(12, 2), two_word_dep());
    assert_eq!(storage.load_factory_dep(hash_with_len(13, 2)), None);
    // A later insert for the same hash shadows the earlier bytes.
    storage.insert_factory_dep(hash_with_len(12, 2), vec![0xaa; 32]);
    assert_eq!(storage.load_factory_dep(hash_with_len(12, 2)), Some(vec![0xaa; 32]));
}
