use vm_core::timestamps::{LogQuery, StorageLogKind, StorageLogQuery, Timestamp,
    collect_log_queries_after_timestamp, collect_storage_log_queries_after_timestamp,
    precompile_calls_count_after_timestamp};
use vm_core::word::Word;

fn w(x: u64) -> Word {
    Word { limb0: x, limb1: 0, limb2: 0, limb3: 0 }
}

fn query(ts: u32, n: u16) -> LogQuery {
    LogQuery {
        timestamp: Timestamp(ts),
        tx_number_in_block: n,
        key: w(n as u64),
        written_value: w(100 + n as u64),
        rw_flag: true,
        rollback: false,
    }
}

fn storage_query(ts: u32, n: u16, kind: StorageLogKind) -> StorageLogQuery {
    StorageLogQuery { log_query: query(ts, n), log_type: kind }
}

#[test]
fn count_binary_search_exact_values() {
    let ts = vec![Timestamp(5), Timestamp(7), Timestamp(7), Timestamp(9)];
    assert_eq!(precompile_calls_count_after_timestamp(&ts, Timestamp(0)), 4);
    assert_eq!(precompile_calls_count_after_timestamp(&ts, Timestamp(5)), 4);
    assert_eq!(precompile_calls_count_after_timestamp(&ts, Timestamp(6)), 3);
    assert_eq!(precompile_calls_count_after_timestamp(&ts, Timestamp(7)), 3);
    assert_eq!(precompile_calls_count_after_timestamp(&ts, Timestamp(8)), 1);
    assert_eq!(precompile_calls_count_after_timestamp(&ts, Timestamp(9)), 1);
    assert_eq!(precompile_calls_count_after_timestamp(&ts, Timestamp(10)), 0);
}

#[test]
fn count_on_empty_sequence() {
    let ts: Vec<Timestamp> = vec![];
    assert_eq!(precompile_calls_count_after_timestamp(&ts, Timestamp(0)), 0);
    assert_eq!(precompile_calls_count_after_timestamp(&ts, Timestamp(42)), 0);
}

#[test]
fn collect_returns_suffix_in_order() {
    let qs = vec![query(5, 0), query(7, 1), query(7, 2), query(9, 3)];
    let suffix = collect_log_queries_after_timestamp(&qs, Timestamp(6));
    assert_eq!(suffix, vec![query(7, 1), query(7, 2), query(9, 3)]);
    let all = collect_log_queries_after_timestamp(&qs, Timestamp(0));
    assert_eq!(all, qs);
    let none = collect_log_queries_after_timestamp(&qs, Timestamp(10));
    assert_eq!(none, vec![]);
}

#[test]
fn collect_storage_returns_suffix_in_order() {
    let qs = vec![
        storage_query(1, 0, StorageLogKind::InitialWrite),
        storage_query(2, 1, StorageLogKind::RepeatedWrite),
        storage_query(4, 2, StorageLogKind::Read),
    ];
    let suffix = collect_storage_log_queries_after_timestamp(&qs, Timestamp(2));
    assert_eq!(suffix.len(), 2);
    assert_eq!(suffix[0], qs[1]);
    assert_eq!(suffix[1], qs[2]);
}

#[test]
fn suffix_count_agrees_with_extraction() {
    // The binary-search count and the linear suffix extraction agree for
    // every threshold, including ones below the first and above the last
    // timestamp.
    let qs = vec![query(3, 0), query(5, 1), query(5, 2), query(8, 3), query(11, 4)];
    let ts: Vec<Timestamp> = qs.iter().map(|q| q.timestamp).collect();
    for t in [0u32, 3, 4, 5, 6, 8, 9, 11, 12, 1000] {
        let count = precompile_calls_count_after_timestamp(&ts, Timestamp(t));
        let suffix = collect_log_queries_after_timestamp(&qs, Timestamp(t));
        assert_eq!(count, suffix.len());
    }
}
