use vm_core::history::HistoryRecorder;
use vm_core::timestamps::Timestamp;
use vm_core::word::Word;

fn key(x: u64) -> Word {
    Word { limb0: x, limb1: 0, limb2: 0, limb3: 0 }
}

#[test]
fn insert_and_get() {
    let mut rec: HistoryRecorder<u32> = HistoryRecorder::new(true);
    assert_eq!(rec.len(), 0);
    rec.insert(key(1), 10, Timestamp(1));
    rec.insert(key(2), 20, Timestamp(2));
    assert_eq!(rec.get(&key(1)), Some(&10));
    assert_eq!(rec.get(&key(2)), Some(&20));
    assert_eq!(rec.get(&key(3)), None);
    assert_eq!(rec.len(), 2);
    assert_eq!(rec.history_len(), 2);
}

#[test]
fn overwrite_logs_previous_value() {
    let mut rec: HistoryRecorder<u32> = HistoryRecorder::new(true);
    rec.insert(key(1), 10, Timestamp(1));
    rec.insert(key(1), 11, Timestamp(2));
    assert_eq!(rec.get(&key(1)), Some(&11));
    assert_eq!(rec.len(), 1);
    assert_eq!(rec.history_len(), 2);
    rec.rollback_to_timestamp(Timestamp(2));
    assert_eq!(rec.get(&key(1)), Some(&10));
}

#[test]
fn rollback_restores_prior_state() {
    // Strictly increasing timestamps t1 < t2 < t3; rolling back to tk must
    // reproduce the state observed right before the kth insert.
    let mut rec: HistoryRecorder<u32> = HistoryRecorder::new(true);
    rec.insert(key(1), 10, Timestamp(1));
    rec.insert(key(2), 20, Timestamp(2));
    rec.insert(key(1), 30, Timestamp(3));

    let mut copy: HistoryRecorder<u32> = HistoryRecorder::new(true);
    copy.insert(key(1), 10, Timestamp(1));
    copy.insert(key(2), 20, Timestamp(2));
    copy.insert(key(1), 30, Timestamp(3));

    copy.rollback_to_timestamp(Timestamp(3));
    assert_eq!(copy.get(&key(1)), Some(&10));
    assert_eq!(copy.get(&key(2)), Some(&20));
    assert_eq!(copy.history_len(), 2);

    rec.rollback_to_timestamp(Timestamp(2));
    assert_eq!(rec.get(&key(1)), Some(&10));
    assert_eq!(rec.get(&key(2)), None);
    assert_eq!(rec.len(), 1);
    assert_eq!(rec.history_len(), 1);

    rec.rollback_to_timestamp(Timestamp(1));
    assert_eq!(rec.get(&key(1)), None);
    assert_eq!(rec.len(), 0);
    assert_eq!(rec.history_len(), 0);
}

#[test]
fn rollback_is_idempotent() {
    let mut rec: HistoryRecorder<u32> = HistoryRecorder::new(true);
    rec.insert(key(1), 10, Timestamp(1));
    rec.insert(key(2), 20, Timestamp(5));
    rec.rollback_to_timestamp(Timestamp(5));
    assert_eq!(rec.get(&key(1)), Some(&10));
    assert_eq!(rec.get(&key(2)), None);
    let len_after_first = rec.len();
    let hist_after_first = rec.history_len();
    // Same timestamp again: a no-op.
    rec.rollback_to_timestamp(Timestamp(5));
    assert_eq!(rec.get(&key(1)), Some(&10));
    assert_eq!(rec.get(&key(2)), None);
    assert_eq!(rec.len(), len_after_first);
    assert_eq!(rec.history_len(), hist_after_first);
    // A more recent timestamp: also a no-op.
    rec.rollback_to_timestamp(Timestamp(9));
    assert_eq!(rec.get(&key(1)), Some(&10));
    assert_eq!(rec.history_len(), hist_after_first);
}

#[test]
fn rollback_removes_a_whole_instant() {
    // Events sharing a timestamp belong to one instant: rolling back to it
    // undoes all of them.
    let mut rec: HistoryRecorder<u32> = HistoryRecorder::new(true);
    rec.insert(key(1), 10, Timestamp(5));
    rec.insert(key(2), 20, Timestamp(5));
    rec.rollback_to_timestamp(Timestamp(5));
    assert_eq!(rec.get(&key(1)), None);
    assert_eq!(rec.get(&key(2)), None);
    assert_eq!(rec.len(), 0);
}

#[test]
fn suppressed_history_never_logs() {
    let mut rec: HistoryRecorder<Vec<Word>> = HistoryRecorder::new(false);
    rec.insert(key(1), vec![key(7)], Timestamp(1));
    rec.insert(key(1), vec![key(8)], Timestamp(2));
    assert_eq!(rec.history_len(), 0);
    assert_eq!(rec.get(&key(1)), Some(&vec![key(8)]));
    assert!(!rec.history_enabled());
}

#[test]
fn delete_history_keeps_container() {
    let mut rec: HistoryRecorder<u32> = HistoryRecorder::new(true);
    rec.insert(key(1), 10, Timestamp(1));
    rec.insert(key(2), 20, Timestamp(2));
    rec.delete_history();
    assert_eq!(rec.history_len(), 0);
    assert_eq!(rec.get(&key(1)), Some(&10));
    assert_eq!(rec.get(&key(2)), Some(&20));
    assert_eq!(rec.len(), 2);
}

#[test]
fn keys_in_insertion_order() {
    let mut rec: HistoryRecorder<u32> = HistoryRecorder::new(true);
    rec.insert(key(3), 1, Timestamp(1));
    rec.insert(key(1), 2, Timestamp(2));
    rec.insert(key(3), 3, Timestamp(3));
    assert_eq!(rec.keys(), vec![key(3), key(1)]);
}
