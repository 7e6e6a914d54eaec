use percolator::client::{Action, Backoff, Client, CommitState, Outcome, Phase};
use percolator::oracle::TimestampOracle;
use percolator::rpc::{parse_timestamp, request_text, Encoding};
use percolator::storage::{CleanUp, MemoryStorage, TxnError, MAX_TIME_TO_ALIVE};
use percolator::table::{copy_bytes, same_bytes, Column, KvTable, Value};

fn ts_of(v: Option<(&(Vec<u8>, u64), &Value)>) -> Option<(u64, u64)> {
    v.map(|(k, v)| match v {
        Value::Timestamp(t) => (k.1, *t),
        Value::Vector(_) => panic!("not a timestamp"),
    })
}

#[test]
fn table_read_picks_latest_in_window() {
    let mut t = KvTable::new();
    t.write(b"k".to_vec(), Column::Write, 5, Value::Timestamp(1));
    t.write(b"k".to_vec(), Column::Write, 9, Value::Timestamp(7));
    t.write(b"j".to_vec(), Column::Write, 20, Value::Timestamp(15));
    assert_eq!(ts_of(t.read(b"k".to_vec(), Column::Write, None, None)), Some((9, 7)));
    assert_eq!(ts_of(t.read(b"k".to_vec(), Column::Write, None, Some(8))), Some((5, 1)));
    assert_eq!(ts_of(t.read(b"k".to_vec(), Column::Write, Some(6), Some(8))), None);
    assert_eq!(ts_of(t.read(b"k".to_vec(), Column::Write, Some(9), Some(9))), Some((9, 7)));
    assert_eq!(ts_of(t.read(b"k".to_vec(), Column::Write, Some(10), None)), None);
    assert!(t.read(b"k".to_vec(), Column::Data, None, None).is_none());
}

#[test]
fn table_write_overwrites_and_erase_removes_up_to() {
    let mut t = KvTable::new();
    t.write(b"k".to_vec(), Column::Data, 3, Value::Vector(b"a".to_vec()));
    t.write(b"k".to_vec(), Column::Data, 3, Value::Vector(b"b".to_vec()));
    t.write(b"k".to_vec(), Column::Data, 6, Value::Vector(b"c".to_vec()));
    match t.read(b"k".to_vec(), Column::Data, Some(3), Some(3)) {
        Some((_, Value::Vector(v))) => assert_eq!(v, &b"b".to_vec()),
        _ => panic!("missing cell"),
    }
    t.erase(b"k".to_vec(), Column::Data, 5);
    assert!(t.read(b"k".to_vec(), Column::Data, None, Some(5)).is_none());
    assert!(t.read(b"k".to_vec(), Column::Data, Some(6), Some(6)).is_some());
    t.erase(b"k".to_vec(), Column::Data, 6);
    assert!(t.read(b"k".to_vec(), Column::Data, None, None).is_none());
}

#[test]
fn table_scans_find_transaction_keys_and_commit_ts() {
    let mut t = KvTable::new();
    t.write(b"p".to_vec(), Column::Lock, 4, Value::Vector(b"p".to_vec()));
    t.write(b"s".to_vec(), Column::Lock, 4, Value::Vector(b"p".to_vec()));
    t.write(b"x".to_vec(), Column::Lock, 4, Value::Vector(b"q".to_vec()));
    t.write(b"y".to_vec(), Column::Lock, 5, Value::Vector(b"p".to_vec()));
    let mut keys = t.uncommitted_keys(4, &b"p".to_vec());
    keys.sort();
    assert_eq!(keys, vec![b"p".to_vec(), b"s".to_vec()]);
    assert!(t.uncommitted_keys(6, &b"p".to_vec()).is_empty());

    t.write(b"p".to_vec(), Column::Write, 8, Value::Timestamp(4));
    assert_eq!(t.commit_ts_of(4, &b"p".to_vec()), Some(8));
    assert_eq!(t.commit_ts_of(5, &b"p".to_vec()), None);
    assert_eq!(t.commit_ts_of(4, &b"s".to_vec()), None);
}

#[test]
fn value_unwraps() {
    assert_eq!(Value::Timestamp(42).unwrap_ts(), 42);
    assert_eq!(Value::Vector(b"ab".to_vec()).unwrap_vec(), b"ab".to_vec());
    match Value::Vector(b"xy".to_vec()).duplicate() {
        Value::Vector(v) => assert_eq!(v, b"xy".to_vec()),
        Value::Timestamp(_) => panic!("wrong variant"),
    }
    assert_eq!(copy_bytes(&b"abc".to_vec()), b"abc".to_vec());
    assert!(same_bytes(&b"abc".to_vec(), &b"abc".to_vec()));
    assert!(!same_bytes(&b"abc".to_vec(), &b"abd".to_vec()));
    assert!(!same_bytes(&b"ab".to_vec(), &b"abc".to_vec()));
}

#[test]
fn prewrite_conflicts() {
    let mut s = MemoryStorage::new();
    assert_eq!(s.prewrite(10, b"k".to_vec(), b"v".to_vec(), b"k".to_vec()), Ok(()));
    assert_eq!(s.prewrite(11, b"k".to_vec(), b"w".to_vec(), b"k".to_vec()), Err(TxnError::KeyLocked));
    assert_eq!(s.commit(true, 10, 12, b"k".to_vec()), Ok(()));
    assert_eq!(s.prewrite(11, b"k".to_vec(), b"w".to_vec(), b"k".to_vec()), Err(TxnError::WriteConflict));
    assert_eq!(s.prewrite(12, b"k".to_vec(), b"w".to_vec(), b"k".to_vec()), Err(TxnError::WriteConflict));
    assert_eq!(s.prewrite(13, b"k".to_vec(), b"w".to_vec(), b"k".to_vec()), Ok(()));
}

#[test]
fn get_reads_snapshot_and_empty_values() {
    let mut s = MemoryStorage::new();
    assert_eq!(s.get(5, b"never".to_vec()), Ok(Vec::new()));
    assert_eq!(s.prewrite(10, b"k".to_vec(), Vec::new(), b"k".to_vec()), Ok(()));
    assert_eq!(s.get(11, b"k".to_vec()), Err(TxnError::KeyLocked));
    assert_eq!(s.get(9, b"k".to_vec()), Ok(Vec::new()));
    assert_eq!(s.commit(true, 10, 12, b"k".to_vec()), Ok(()));
    assert_eq!(s.get(11, b"k".to_vec()), Ok(Vec::new()));
    assert_eq!(s.get(12, b"k".to_vec()), Ok(Vec::new()));
    assert_eq!(s.prewrite(20, b"k".to_vec(), b"v2".to_vec(), b"k".to_vec()), Ok(()));
    assert_eq!(s.commit(true, 20, 21, b"k".to_vec()), Ok(()));
    assert_eq!(s.get(20, b"k".to_vec()), Ok(Vec::new()));
    assert_eq!(s.get(21, b"k".to_vec()), Ok(b"v2".to_vec()));
}

#[test]
fn commit_of_rolled_back_primary_fails() {
    let mut s = MemoryStorage::new();
    assert_eq!(s.commit(true, 10, 12, b"k".to_vec()), Err(TxnError::LockNotFound));
    assert_eq!(s.get(20, b"k".to_vec()), Ok(Vec::new()));
    assert_eq!(s.prewrite(10, b"k".to_vec(), b"v".to_vec(), b"p".to_vec()), Ok(()));
    assert_eq!(s.commit(false, 10, 12, b"k".to_vec()), Ok(()));
    assert_eq!(s.get(20, b"k".to_vec()), Ok(b"v".to_vec()));
}

#[test]
fn primary_fault_keeps_lock_after_record() {
    let mut s = MemoryStorage::new();
    s.set_commit_primary_fail(true);
    assert_eq!(s.prewrite(10, b"k".to_vec(), b"v".to_vec(), b"k".to_vec()), Ok(()));
    assert_eq!(s.commit(true, 10, 12, b"k".to_vec()), Err(TxnError::Transport));
    assert_eq!(s.get(20, b"k".to_vec()), Err(TxnError::KeyLocked));
}

#[test]
fn clean_up_outcomes() {
    let mut s = MemoryStorage::new();
    assert_eq!(s.back_off_maybe_clean_up_lock(50, b"a".to_vec(), 60), CleanUp::NoLock);

    // An uncommitted transaction: primary "a", secondary "b".
    assert_eq!(s.prewrite(10, b"a".to_vec(), b"1".to_vec(), b"a".to_vec()), Ok(()));
    assert_eq!(s.prewrite(10, b"b".to_vec(), b"2".to_vec(), b"a".to_vec()), Ok(()));
    assert_eq!(s.back_off_maybe_clean_up_lock(50, b"b".to_vec(), 10 + MAX_TIME_TO_ALIVE), CleanUp::BackOff);
    assert_eq!(s.get(50, b"b".to_vec()), Err(TxnError::KeyLocked));
    assert_eq!(s.back_off_maybe_clean_up_lock(50, b"b".to_vec(), 11 + MAX_TIME_TO_ALIVE), CleanUp::RolledBack);
    assert_eq!(s.get(50, b"a".to_vec()), Ok(Vec::new()));
    assert_eq!(s.get(50, b"b".to_vec()), Ok(Vec::new()));
    assert_eq!(s.back_off_maybe_clean_up_lock(50, b"b".to_vec(), 11 + MAX_TIME_TO_ALIVE), CleanUp::NoLock);

    // A committed transaction whose secondary was not committed.
    assert_eq!(s.prewrite(100, b"a".to_vec(), b"3".to_vec(), b"a".to_vec()), Ok(()));
    assert_eq!(s.prewrite(100, b"b".to_vec(), b"4".to_vec(), b"a".to_vec()), Ok(()));
    assert_eq!(s.commit(true, 100, 110, b"a".to_vec()), Ok(()));
    assert_eq!(s.get(200, b"b".to_vec()), Err(TxnError::KeyLocked));
    assert_eq!(s.back_off_maybe_clean_up_lock(200, b"b".to_vec(), 200 + MAX_TIME_TO_ALIVE), CleanUp::RolledForward);
    assert_eq!(s.get(200, b"b".to_vec()), Ok(b"4".to_vec()));
    assert_eq!(s.get(105, b"b".to_vec()), Ok(Vec::new()));
    assert_eq!(s.back_off_maybe_clean_up_lock(200, b"b".to_vec(), 200 + MAX_TIME_TO_ALIVE), CleanUp::NoLock);
    assert_eq!(s.get(200, b"a".to_vec()), Ok(b"3".to_vec()));
}

#[test]
fn clean_up_ignores_locks_after_the_reader() {
    let mut s = MemoryStorage::new();
    assert_eq!(s.prewrite(100, b"a".to_vec(), b"1".to_vec(), b"a".to_vec()), Ok(()));
    assert_eq!(s.get(50, b"a".to_vec()), Ok(Vec::new()));
    assert_eq!(s.back_off_maybe_clean_up_lock(50, b"a".to_vec(), u64::MAX), CleanUp::NoLock);
}

#[test]
fn oracle_is_monotonic() {
    let mut o = TimestampOracle::new();
    assert_eq!(o.get_timestamp(0), Some(1));
    assert_eq!(o.get_timestamp(0), Some(2));
    assert_eq!(o.get_timestamp(100), Some(100));
    assert_eq!(o.get_timestamp(50), Some(101));
    assert_eq!(o.get_timestamp(u64::MAX), Some(u64::MAX));
    assert_eq!(o.get_timestamp(5), None);
}

#[test]
fn backoff_doubles_and_runs_out() {
    let mut b = Backoff::new();
    assert!(b.may_try());
    assert_eq!(b.failed(), 100);
    assert!(b.may_try());
    assert_eq!(b.failed(), 200);
    assert!(b.may_try());
    assert_eq!(b.failed(), 400);
    assert!(!b.may_try());
}

fn prewrite_key(a: Action) -> Vec<u8> {
    match a {
        Action::Prewrite { key, .. } => key,
        _ => panic!("expected a prewrite"),
    }
}

#[test]
fn commit_steps_in_order() {
    let mut c = Client::new();
    c.begin(7);
    c.set(b"p".to_vec(), b"1".to_vec());
    c.set(b"s".to_vec(), b"2".to_vec());
    assert_eq!(c.num_writes(), 2);
    let mut st = c.start_commit();
    match c.commit_action(&st) {
        Action::Prewrite { start_ts, key, value, primary } => {
            assert_eq!((start_ts, key, value, primary), (7, b"p".to_vec(), b"1".to_vec(), b"p".to_vec()));
        }
        _ => panic!("expected the primary's prewrite"),
    }
    c.advance(&mut st, Outcome::Done);
    match c.commit_action(&st) {
        Action::Prewrite { key, value, primary, .. } => {
            assert_eq!((key, value, primary), (b"s".to_vec(), b"2".to_vec(), b"p".to_vec()));
        }
        _ => panic!("expected the secondary's prewrite"),
    }
    c.advance(&mut st, Outcome::Done);
    assert!(matches!(c.commit_action(&st), Action::GetTimestamp));
    c.advance(&mut st, Outcome::Timestamp(9));
    match c.commit_action(&st) {
        Action::Commit { is_primary, start_ts, commit_ts, key } => {
            assert_eq!((is_primary, start_ts, commit_ts, key), (true, 7, 9, b"p".to_vec()));
        }
        _ => panic!("expected the primary's commit"),
    }
    c.advance(&mut st, Outcome::Done);
    match c.commit_action(&st) {
        Action::Commit { is_primary, commit_ts, key, .. } => {
            assert_eq!((is_primary, commit_ts, key), (false, 9, b"s".to_vec()));
        }
        _ => panic!("expected the secondary's commit"),
    }
    c.advance(&mut st, Outcome::Failed);
    assert!(matches!(c.commit_action(&st), Action::Finish(Ok(true))));
}

#[test]
fn commit_failures() {
    let mut c = Client::new();
    c.begin(7);
    c.set(b"p".to_vec(), b"1".to_vec());
    c.set(b"s".to_vec(), b"2".to_vec());

    let mut st = c.start_commit();
    assert_eq!(prewrite_key(c.commit_action(&st)), b"p".to_vec());
    c.advance(&mut st, Outcome::Done);
    c.advance(&mut st, Outcome::Failed);
    assert!(matches!(st.phase, Phase::Finished(Ok(false))));

    let mut st = CommitState { phase: Phase::FetchCommitTs, commit_ts: 0 };
    c.advance(&mut st, Outcome::Failed);
    assert!(matches!(c.commit_action(&st), Action::Finish(Err(TxnError::Timeout))));

    let mut st = CommitState { phase: Phase::CommitPrimary, commit_ts: 9 };
    c.advance(&mut st, Outcome::Failed);
    assert!(matches!(st.phase, Phase::Finished(Ok(false))));

    c.set_commit_secondaries_fail(true);
    let mut st = CommitState { phase: Phase::CommitPrimary, commit_ts: 9 };
    c.advance(&mut st, Outcome::Done);
    assert!(matches!(st.phase, Phase::Finished(Ok(true))));
}

#[test]
fn timestamp_text() {
    assert_eq!(parse_timestamp("12345"), Some(12345));
    assert_eq!(parse_timestamp("+7"), Some(7));
    assert_eq!(parse_timestamp("18446744073709551615"), Some(u64::MAX));
    assert_eq!(parse_timestamp("18446744073709551616"), None);
    assert_eq!(parse_timestamp(""), None);
    assert_eq!(parse_timestamp("+"), None);
    assert_eq!(parse_timestamp("-1"), None);
    assert_eq!(parse_timestamp("12a"), None);
    assert_eq!(parse_timestamp("\"5\""), None);
    for text in ["0", "42", "007", "+18446744073709551615", "99999999999999999999", " 1"] {
        assert_eq!(parse_timestamp(text), text.parse::<u64>().ok());
    }
}

#[test]
fn request_text_names_method() {
    assert_eq!(
        request_text("rpc_get_timestamp"),
        "{ \"jsonrpc\":\"2.0\", \"id\": 1, \"method\": \"rpc_get_timestamp\" }".to_string()
    );
    assert!(Encoding::Pretty != Encoding::Compact);
}

#[test]
fn roll_back_keeps_earlier_committed_value() {
    let mut s = MemoryStorage::new();
    assert_eq!(s.prewrite(10, b"k".to_vec(), b"1".to_vec(), b"k".to_vec()), Ok(()));
    assert_eq!(s.commit(true, 10, 12, b"k".to_vec()), Ok(()));
    assert_eq!(s.prewrite(20, b"k".to_vec(), b"2".to_vec(), b"k".to_vec()), Ok(()));
    assert_eq!(s.get(30, b"k".to_vec()), Err(TxnError::KeyLocked));
    assert_eq!(s.back_off_maybe_clean_up_lock(30, b"k".to_vec(), 21 + MAX_TIME_TO_ALIVE), CleanUp::RolledBack);
    assert_eq!(s.get(30, b"k".to_vec()), Ok(b"1".to_vec()));
    assert_eq!(s.get(11, b"k".to_vec()), Ok(Vec::new()));
}

#[test]
fn roll_back_drops_records_of_failed_primary() {
    let mut s = MemoryStorage::new();
    assert_eq!(s.prewrite(10, b"k".to_vec(), b"1".to_vec(), b"k".to_vec()), Ok(()));
    assert_eq!(s.commit(true, 10, 12, b"k".to_vec()), Ok(()));
    s.set_commit_primary_fail(true);
    assert_eq!(s.prewrite(20, b"k".to_vec(), b"2".to_vec(), b"k".to_vec()), Ok(()));
    assert_eq!(s.commit(true, 20, 22, b"k".to_vec()), Err(TxnError::Transport));
    s.set_commit_primary_fail(false);
    assert_eq!(s.back_off_maybe_clean_up_lock(30, b"k".to_vec(), 21 + MAX_TIME_TO_ALIVE), CleanUp::RolledBack);
    assert_eq!(s.get(30, b"k".to_vec()), Ok(b"1".to_vec()));
}

#[test]
fn secondary_commit_needs_its_data() {
    let mut s = MemoryStorage::new();
    assert_eq!(s.commit(false, 10, 12, b"k".to_vec()), Err(TxnError::LockNotFound));
    assert_eq!(s.get(20, b"k".to_vec()), Ok(Vec::new()));
}
