//! The storage service: Percolator's get, prewrite and commit rules over the
//! versioned table, and the clean-up of locks left by crashed transactions.
use vstd::prelude::*;
use crate::table::{
    committed_at, has_version, is_latest, locked_by, Column, ColumnView, KvTable, Removal, TableView, Value,
    ValueView,
};

verus! {

/// How long a lock lives before a reader may clean it up, in timestamp units
/// (nanoseconds of the oracle's clock): 100 ms.
pub const MAX_TIME_TO_ALIVE: u64 = 100_000_000;

/// The errors of the transactional protocol.
#[derive(Clone, Copy, Debug, PartialEq, Eq, Structural)]
pub enum TxnError {
    /// Retries on a timestamp fetch or a read were used up.
    Timeout,
    /// A version was committed at or after the transaction's start.
    WriteConflict,
    /// Another transaction holds a lock on the key.
    KeyLocked,
    /// The primary's lock is gone: the transaction was rolled back.
    LockNotFound,
    /// The request or its answer was lost on the way.
    Transport,
}

/// The largest timestamp of a version of `key` in the window (meaningful when
/// `has_version` holds).
pub open spec fn latest_ts(m: ColumnView, key: Seq<u8>, lo: Option<u64>, hi: Option<u64>) -> u64 {
    choose|t: u64| is_latest(m, key, lo, hi, t)
}

/// The bytes of a `Vector` value, and the empty sequence otherwise.
pub open spec fn bytes_of(v: ValueView) -> Seq<u8> {
    match v {
        ValueView::Vector(b) => b,
        ValueView::Timestamp(_) => Seq::empty(),
    }
}

/// What a read of `key` at `start_ts` returns when no lock is in the way: the
/// data of the latest version committed at or before `start_ts`, or empty.
pub open spec fn visible_value(t: TableView, key: Seq<u8>, start_ts: u64) -> Seq<u8> {
    if has_version(t.write, key, None, Some(start_ts)) {
        let c = latest_ts(t.write, key, None, Some(start_ts));
        match t.write[(key, c)] {
            ValueView::Timestamp(s) => if t.data.contains_key((key, s)) {
                bytes_of(t.data[(key, s)])
            } else {
                Seq::empty()
            },
            ValueView::Vector(_) => Seq::empty(),
        }
    } else {
        Seq::empty()
    }
}

/// Whether a read of `key` at `start_ts` is blocked by a lock at or before it.
pub open spec fn read_blocked(t: TableView, key: Seq<u8>, start_ts: u64) -> bool {
    has_version(t.lock, key, None, Some(start_ts))
}

/// The cells hold values of their column's type, and every commit record lies
/// after the start it names.
pub open spec fn well_typed(t: TableView) -> bool {
    &&& forall|p: (Seq<u8>, u64)| #[trigger] t.write.contains_key(p) ==> (t.write[p] matches ValueView::Timestamp(s) && s < p.1)
    &&& forall|p: (Seq<u8>, u64)| #[trigger] t.data.contains_key(p) ==> t.data[p] is Vector
    &&& forall|p: (Seq<u8>, u64)| #[trigger] t.lock.contains_key(p) ==> t.lock[p] is Vector
}

/// `t` after a successful prewrite of `key` := `value` at `start_ts` with `primary`.
pub open spec fn prewritten(t: TableView, start_ts: u64, key: Seq<u8>, value: Seq<u8>, primary: Seq<u8>) -> TableView {
    TableView {
        data: t.data.insert((key, start_ts), ValueView::Vector(value)),
        lock: t.lock.insert((key, start_ts), ValueView::Vector(primary)),
        ..t
    }
}

/// `t` with the commit record of `key` at `commit_ts` naming `start_ts`.
pub open spec fn recorded(t: TableView, key: Seq<u8>, start_ts: u64, commit_ts: u64) -> TableView {
    TableView { write: t.write.insert((key, commit_ts), ValueView::Timestamp(start_ts)), ..t }
}

/// `t` without the locks of `key` at or below `upto`.
pub open spec fn unlocked(t: TableView, key: Seq<u8>, upto: u64) -> TableView {
    TableView { lock: crate::table::erase_upto(t.lock, key, upto), ..t }
}

/// What a lock clean-up did.
#[derive(Clone, Copy, Debug, PartialEq, Eq, Structural)]
pub enum CleanUp {
    /// No lock was in the way any more.
    NoLock,
    /// The lock is still alive: the caller sleeps and retries.
    BackOff,
    /// The lock's transaction was not committed: its locks and data are gone.
    RolledBack,
    /// The lock's transaction was committed: its commit records are written
    /// and its locks released.
    RolledForward,
}

/// The set of user keys in `keys`.
pub open spec fn key_set(keys: Seq<Vec<u8>>) -> Set<Seq<u8>> {
    Set::new(|k: Seq<u8>| exists|i: int| 0 <= i < keys.len() && #[trigger] keys[i]@ == k)
}

/// The user keys locked at `lock_ts` by the transaction whose primary is `primary`.
pub open spec fn txn_keys(lock: ColumnView, lock_ts: u64, primary: Seq<u8>) -> Set<Seq<u8>> {
    Set::new(|k: Seq<u8>| locked_by(lock, k, lock_ts, primary))
}

/// `m` without the versions at or below `upto` of the keys in `ks`.
pub open spec fn drop_versions(m: ColumnView, ks: Set<Seq<u8>>, upto: u64) -> ColumnView {
    m.restrict(Set::new(|p: (Seq<u8>, u64)| !(ks.contains(p.0) && p.1 <= upto)))
}

/// `w` with a commit record at `commit_ts` naming `start_ts` for each key in `ks`.
pub open spec fn record_all(w: ColumnView, ks: Set<Seq<u8>>, commit_ts: u64, start_ts: u64) -> ColumnView {
    Map::new(
        |p: (Seq<u8>, u64)| w.contains_key(p) || (ks.contains(p.0) && p.1 == commit_ts),
        |p: (Seq<u8>, u64)|
            if ks.contains(p.0) && p.1 == commit_ts {
                ValueView::Timestamp(start_ts)
            } else {
                w[p]
            },
    )
}

/// `m` without the version at exactly `ts` of the keys in `ks`.
pub open spec fn drop_version_at(m: ColumnView, ks: Set<Seq<u8>>, ts: u64) -> ColumnView {
    m.restrict(Set::new(|p: (Seq<u8>, u64)| !(ks.contains(p.0) && p.1 == ts)))
}

/// `w` without the commit records of the keys in `ks` that name `start_ts`.
pub open spec fn drop_records(w: ColumnView, ks: Set<Seq<u8>>, start_ts: u64) -> ColumnView {
    w.restrict(Set::new(|p: (Seq<u8>, u64)| !(ks.contains(p.0) && w[p] == ValueView::Timestamp(start_ts))))
}

/// `t` after rolling back the keys `ks` of the transaction started at
/// `lock_ts`: its commit records, its data at `lock_ts` and the keys' locks at or
/// below `lock_ts` are gone; every other cell stays.
pub open spec fn rolled_back(t: TableView, ks: Set<Seq<u8>>, lock_ts: u64) -> TableView {
    TableView {
        write: drop_records(t.write, ks, lock_ts),
        data: drop_version_at(t.data, ks, lock_ts),
        lock: drop_versions(t.lock, ks, lock_ts),
    }
}

/// `t` after rolling forward the keys `ks` of the transaction started at
/// `lock_ts` and committed at `commit_ts`.
pub open spec fn rolled_forward(t: TableView, ks: Set<Seq<u8>>, lock_ts: u64, commit_ts: u64) -> TableView {
    TableView {
        write: record_all(t.write, ks, commit_ts, lock_ts),
        data: t.data,
        lock: drop_versions(t.lock, ks, commit_ts),
    }
}

/// Whether a lock taken at `lock_ts` is still alive at `now`.
pub open spec fn lock_alive(lock_ts: u64, now: u64) -> bool {
    now - lock_ts <= MAX_TIME_TO_ALIVE
}

/// The clean-up rule: a reader at `start_ts` blocked on `key` at time `now`
/// turns `t` into `t2` with outcome `r`.
pub open spec fn clean_up_step(t: TableView, start_ts: u64, key: Seq<u8>, now: u64, t2: TableView, r: CleanUp) -> bool {
    if !read_blocked(t, key, start_ts) {
        r == CleanUp::NoLock && t2 == t
    } else {
        let lock_ts = latest_ts(t.lock, key, None, Some(start_ts));
        let primary = bytes_of(t.lock[(key, lock_ts)]);
        let ks = txn_keys(t.lock, lock_ts, primary);
        if lock_alive(lock_ts, now) {
            r == CleanUp::BackOff && t2 == t
        } else if t.lock.contains_key((primary, lock_ts)) {
            r == CleanUp::RolledBack && t2 == rolled_back(t, ks, lock_ts)
        } else if exists|c: u64| #[trigger] committed_at(t.write, primary, c, lock_ts) {
            r == CleanUp::RolledForward && exists|c: u64|
                #[trigger] committed_at(t.write, primary, c, lock_ts) && t2 == rolled_forward(t, ks, lock_ts, c)
        } else {
            r == CleanUp::RolledBack && t2 == rolled_back(t, ks, lock_ts)
        }
    }
}

/// Rolling a committed transaction forward leaves none of its locks, keeps
/// every commit record and writes one for each of its keys; replaying the
/// clean-up then finds no key of the transaction and changes nothing.
pub proof fn roll_forward_idempotent(t: TableView, lock_ts: u64, primary: Seq<u8>, commit_ts: u64)
    requires
        lock_ts < commit_ts,
    ensures
        ({
            let ks = txn_keys(t.lock, lock_ts, primary);
            let t2 = rolled_forward(t, ks, lock_ts, commit_ts);
            &&& txn_keys(t2.lock, lock_ts, primary) == Set::<Seq<u8>>::empty()
            &&& forall|k: Seq<u8>| #[trigger] ks.contains(k) ==> committed_at(t2.write, k, commit_ts, lock_ts)
            &&& forall|p: (Seq<u8>, u64)| #[trigger] t.write.contains_key(p) ==> t2.write.contains_key(p)
            &&& forall|c: u64|
                rolled_forward(t2, txn_keys(t2.lock, lock_ts, primary), lock_ts, c) == t2
        }),
{
    let ks = txn_keys(t.lock, lock_ts, primary);
    let t2 = rolled_forward(t, ks, lock_ts, commit_ts);
    let e = txn_keys(t2.lock, lock_ts, primary);
    assert(e =~= Set::<Seq<u8>>::empty());
    assert forall|c: u64| rolled_forward(t2, e, lock_ts, c) == t2 by {
        assert(record_all(t2.write, e, c, lock_ts) =~= t2.write);
        assert(drop_versions(t2.lock, e, c) =~= t2.lock);
    }
}

/// Rolling back a transaction leaves none of its locks, no data at its start
/// and no commit record naming its start, and keeps every other data cell and
/// commit record; replaying the clean-up then finds no key of the transaction
/// and changes nothing.
pub proof fn roll_back_idempotent(t: TableView, lock_ts: u64, primary: Seq<u8>)
    ensures
        ({
            let ks = txn_keys(t.lock, lock_ts, primary);
            let t2 = rolled_back(t, ks, lock_ts);
            &&& txn_keys(t2.lock, lock_ts, primary) == Set::<Seq<u8>>::empty()
            &&& forall|k: Seq<u8>| #[trigger] ks.contains(k) ==> !t2.data.contains_key((k, lock_ts))
            &&& forall|k: Seq<u8>, c: u64| #[trigger] ks.contains(k) ==> !#[trigger] committed_at(t2.write, k, c, lock_ts)
            &&& forall|p: (Seq<u8>, u64)|
                !(ks.contains(p.0) && p.1 == lock_ts) && #[trigger] t.data.contains_key(p) ==> t2.data.contains_key(p)
                    && t2.data[p] == t.data[p]
            &&& forall|p: (Seq<u8>, u64)|
                #[trigger] t.write.contains_key(p) && t.write[p] != ValueView::Timestamp(lock_ts) ==> t2.write.contains_key(p)
                    && t2.write[p] == t.write[p]
            &&& rolled_back(t2, txn_keys(t2.lock, lock_ts, primary), lock_ts) == t2
        }),
{
    let ks = txn_keys(t.lock, lock_ts, primary);
    let t2 = rolled_back(t, ks, lock_ts);
    let e = txn_keys(t2.lock, lock_ts, primary);
    assert(e =~= Set::<Seq<u8>>::empty());
    assert(drop_records(t2.write, e, lock_ts) =~= t2.write);
    assert(drop_version_at(t2.data, e, lock_ts) =~= t2.data);
    assert(drop_versions(t2.lock, e, lock_ts) =~= t2.lock);
}

/// A key with a version in a window has a latest one there.
pub proof fn latest_exists(m: ColumnView, key: Seq<u8>, lo: Option<u64>, hi: Option<u64>, t0: u64)
    requires
        m.contains_key((key, t0)),
        crate::table::in_window(t0, lo, hi),
    ensures
        is_latest(m, key, lo, hi, latest_ts(m, key, lo, hi)),
    decreases u64::MAX - t0,
{
    if exists|u: u64| #[trigger] m.contains_key((key, u)) && crate::table::in_window(u, lo, hi) && u > t0 {
        let u = choose|u: u64| #[trigger] m.contains_key((key, u)) && crate::table::in_window(u, lo, hi) && u > t0;
        latest_exists(m, key, lo, hi, u);
    } else {
        assert(is_latest(m, key, lo, hi, t0));
    }
}

/// Rolling back the transaction started at `lock_ts` changes no read whose
/// visible commit record names another start: such a reader sees the same
/// value before and after.
pub proof fn roll_back_keeps_other_reads(t: TableView, ks: Set<Seq<u8>>, lock_ts: u64, key: Seq<u8>, read_ts: u64)
    requires
        has_version(t.write, key, None, Some(read_ts)) ==> start_named(
            t.write[(key, latest_ts(t.write, key, None, Some(read_ts)))],
        ) != lock_ts,
    ensures
        visible_value(rolled_back(t, ks, lock_ts), key, read_ts) == visible_value(t, key, read_ts),
{
    let t2 = rolled_back(t, ks, lock_ts);
    if has_version(t.write, key, None, Some(read_ts)) {
        let w = choose|u: u64| #[trigger] t.write.contains_key((key, u)) && crate::table::in_window(u, None, Some(read_ts));
        latest_exists(t.write, key, None, Some(read_ts), w);
        let c = latest_ts(t.write, key, None, Some(read_ts));
        assert(t.write[(key, c)] != ValueView::Timestamp(lock_ts));
        assert(t2.write.contains_key((key, c)));
        assert(is_latest(t2.write, key, None, Some(read_ts), c));
        let c2 = latest_ts(t2.write, key, None, Some(read_ts));
        assert(is_latest(t2.write, key, None, Some(read_ts), c2));
        assert(c2 == c);
        let s = start_named(t.write[(key, c)]);
        if t.data.contains_key((key, s)) {
            assert(t2.data.contains_key((key, s)));
        }
    } else {
        if has_version(t2.write, key, None, Some(read_ts)) {
            let u = choose|u: u64| #[trigger] t2.write.contains_key((key, u)) && crate::table::in_window(u, None, Some(read_ts));
            assert(t.write.contains_key((key, u)));
        }
    }
}

/// A key that one transaction has prewritten refuses every other prewrite
/// until its lock is released: the lock column then holds a version of it.
pub proof fn prewrite_locks_key(t: TableView, start_ts: u64, key: Seq<u8>, value: Seq<u8>, primary: Seq<u8>)
    ensures
        has_version(prewritten(t, start_ts, key, value, primary).lock, key, None, None),
{
    assert(prewritten(t, start_ts, key, value, primary).lock.contains_key((key, start_ts)));
}

/// Once a key is committed at `commit_ts`, a prewrite of it by any transaction
/// started at or before `commit_ts` meets that version and fails with
/// `WriteConflict`, also after the committing transaction's locks are released.
pub proof fn commit_refuses_older_writers(t: TableView, key: Seq<u8>, start_ts: u64, commit_ts: u64, other_start: u64)
    requires
        other_start <= commit_ts,
    ensures
        has_version(recorded(t, key, start_ts, commit_ts).write, key, Some(other_start), None),
        has_version(unlocked(recorded(t, key, start_ts, commit_ts), key, commit_ts).write, key, Some(other_start), None),
{
    assert(recorded(t, key, start_ts, commit_ts).write.contains_key((key, commit_ts)));
}

/// The start timestamp a commit record names.
pub open spec fn start_named(v: ValueView) -> u64 {
    match v {
        ValueView::Timestamp(s) => s,
        ValueView::Vector(_) => 0,
    }
}

/// What the store keeps at every quiescent point: cells of the right type,
/// commit records after their starts, the data cell of every commit record, and
/// the data cell of every lock.
pub open spec fn store_invariant(t: TableView) -> bool {
    &&& well_typed(t)
    &&& forall|p: (Seq<u8>, u64)| #[trigger] t.write.contains_key(p) ==> t.data.contains_key((p.0, start_named(t.write[p])))
    &&& forall|p: (Seq<u8>, u64)| #[trigger] t.lock.contains_key(p) ==> t.data.contains_key(p)
}

/// Rolling back any set of keys keeps the store's invariant.
pub proof fn roll_back_keeps_invariant(t: TableView, ks: Set<Seq<u8>>, lock_ts: u64)
    requires
        store_invariant(t),
    ensures
        store_invariant(rolled_back(t, ks, lock_ts)),
{
    let t2 = rolled_back(t, ks, lock_ts);
    assert forall|p: (Seq<u8>, u64)| #[trigger] t2.write.contains_key(p) implies t2.data.contains_key(
        (p.0, start_named(t2.write[p]))) by {
        assert(t.data.contains_key((p.0, start_named(t.write[p]))));
    }
    assert forall|p: (Seq<u8>, u64)| #[trigger] t2.lock.contains_key(p) implies t2.data.contains_key(p) by {
        assert(t.data.contains_key(p));
    }
}

/// Rolling forward keys that all hold a lock at `lock_ts` keeps the store's
/// invariant.
pub proof fn roll_forward_keeps_invariant(t: TableView, ks: Set<Seq<u8>>, lock_ts: u64, commit_ts: u64)
    requires
        store_invariant(t),
        lock_ts < commit_ts,
        forall|k: Seq<u8>| #[trigger] ks.contains(k) ==> t.lock.contains_key((k, lock_ts)),
    ensures
        store_invariant(rolled_forward(t, ks, lock_ts, commit_ts)),
{
    let t2 = rolled_forward(t, ks, lock_ts, commit_ts);
    assert forall|p: (Seq<u8>, u64)| #[trigger] t2.write.contains_key(p) implies t2.data.contains_key(
        (p.0, start_named(t2.write[p]))) by {
        if ks.contains(p.0) && p.1 == commit_ts {
            assert(t.lock.contains_key((p.0, lock_ts)));
        } else {
            assert(t.data.contains_key((p.0, start_named(t.write[p]))));
        }
    }
    assert forall|p: (Seq<u8>, u64)| #[trigger] t2.write.contains_key(p) implies (t2.write[p] matches ValueView::Timestamp(s) && s < p.1) by {
        if !(ks.contains(p.0) && p.1 == commit_ts) {
            assert(t.write.contains_key(p));
        }
    }
}

/// The transactional store, owned by one exclusive region.
pub struct MemoryStorage {
    table: KvTable,
    commit_primary_fail: bool,
}

impl View for MemoryStorage {
    type V = TableView;

    closed spec fn view(&self) -> TableView {
        self.table@
    }
}

impl MemoryStorage {
    pub closed spec fn wf(&self) -> bool {
        self.table.wf() && store_invariant(self.table@)
    }

    /// A well-formed store keeps the store invariant.
    pub proof fn lemma_wf_invariant(&self)
        requires
            self.wf(),
        ensures
            store_invariant(self@),
    {
    }

    /// Whether a primary commit is armed to fail after its commit record is written.
    pub closed spec fn primary_fault(&self) -> bool {
        self.commit_primary_fail
    }

    /// An empty store with no fault armed.
    pub fn new() -> (r: MemoryStorage)
        ensures
            r.wf(),
            !r.primary_fault(),
            r@.write == ColumnView::empty(),
            r@.data == ColumnView::empty(),
            r@.lock == ColumnView::empty(),
    {
        MemoryStorage { table: KvTable::new(), commit_primary_fail: false }
    }

    /// Arms or disarms the fault that fails a primary commit between writing its
    /// commit record and releasing its lock.
    pub fn set_commit_primary_fail(&mut self, armed: bool)
        ensures
            final(self)@ == old(self)@,
            final(self).wf() == old(self).wf(),
            final(self).primary_fault() == armed,
    {
        self.commit_primary_fail = armed;
    }

    /// Reads `key` at `start_ts`: `KeyLocked` while a lock at or before
    /// `start_ts` is in the way (the caller cleans it up and retries), else the
    /// latest value committed at or before `start_ts`, empty if there is none.
    pub fn get(&self, start_ts: u64, key: Vec<u8>) -> (r: Result<Vec<u8>, TxnError>)
        requires
            self.wf(),
        ensures
            read_blocked(self@, key@, start_ts) <==> r == Err::<Vec<u8>, TxnError>(TxnError::KeyLocked),
            !read_blocked(self@, key@, start_ts) ==> (r matches Ok(v) && v@ == visible_value(self@, key@, start_ts)),
    {
        let k2 = crate::table::copy_bytes(&key);
        if self.table.read(k2, Column::Lock, None, Some(start_ts)).is_some() {
            return Err(TxnError::KeyLocked);
        }
        let k3 = crate::table::copy_bytes(&key);
        let found = self.table.read(k3, Column::Write, None, Some(start_ts));
        match found {
            None => Ok(Vec::new()),
            Some((k, v)) => {
                let ghost c = k.1;
                proof {
                    assert(self@.write.contains_key((key@, c)));
                    let l = latest_ts(self@.write, key@, None, Some(start_ts));
                    assert(is_latest(self@.write, key@, None, Some(start_ts), l));
                    assert(l == c);
                }
                let s = v.duplicate().unwrap_ts();
                match self.table.read(key, Column::Data, Some(s), Some(s)) {
                    None => {
                        proof {
                            if self@.data.contains_key((key@, s)) {
                                assert(crate::table::in_window(s, Some(s), Some(s)));
                            }
                        }
                        Ok(Vec::new())
                    },
                    Some((_, d)) => {
                        proof {
                            assert(self@.data.contains_key((key@, s)));
                        }
                        Ok(d.duplicate().unwrap_vec())
                    },
                }
            },
        }
    }

    /// Locks `key` for the transaction started at `start_ts` and stores its
    /// tentative value, unless a version was committed at or after `start_ts`
    /// (`WriteConflict`) or any lock is held on `key` (`KeyLocked`).
    pub fn prewrite(&mut self, start_ts: u64, key: Vec<u8>, value: Vec<u8>, primary: Vec<u8>) -> (r: Result<(), TxnError>)
        requires
            old(self).wf(),
        ensures
            final(self).wf(),
            final(self).primary_fault() == old(self).primary_fault(),
            has_version(old(self)@.write, key@, Some(start_ts), None) ==> r == Err::<(), TxnError>(
                TxnError::WriteConflict) && final(self)@ == old(self)@,
            !has_version(old(self)@.write, key@, Some(start_ts), None) && has_version(
                old(self)@.lock,
                key@,
                None,
                None,
            ) ==> r == Err::<(), TxnError>(TxnError::KeyLocked) && final(self)@ == old(self)@,
            !has_version(old(self)@.write, key@, Some(start_ts), None) && !has_version(
                old(self)@.lock,
                key@,
                None,
                None,
            ) ==> r == Ok::<(), TxnError>(()) && final(self)@ == prewritten(
                old(self)@,
                start_ts,
                key@,
                value@,
                primary@,
            ),
    {
        if self.table.read(crate::table::copy_bytes(&key), Column::Write, Some(start_ts), None).is_some() {
            return Err(TxnError::WriteConflict);
        }
        if self.table.read(crate::table::copy_bytes(&key), Column::Lock, None, None).is_some() {
            return Err(TxnError::KeyLocked);
        }
        let k2 = crate::table::copy_bytes(&key);
        self.table.write(k2, Column::Data, start_ts, Value::Vector(value));
        self.table.write(key, Column::Lock, start_ts, Value::Vector(primary));
        assert(self@ =~= prewritten(old(self)@, start_ts, key@, value@, primary@));
        Ok(())
    }

    /// Commits `key` of the transaction started at `start_ts` at `commit_ts`:
    /// writes its commit record and releases its locks up to `commit_ts`. A
    /// primary whose lock is gone fails with `LockNotFound` and changes nothing.
    /// A secondary is committed without that check, but one whose data cell is
    /// gone (its transaction was rolled back) fails with `LockNotFound` and
    /// changes nothing, so that no commit record names missing data. With the
    /// primary fault armed, a primary fails with `Transport` after its record is
    /// written and before its locks are released.
    pub fn commit(&mut self, is_primary: bool, start_ts: u64, commit_ts: u64, key: Vec<u8>) -> (r: Result<(), TxnError>)
        requires
            old(self).wf(),
            start_ts < commit_ts,
        ensures
            final(self).wf(),
            final(self).primary_fault() == old(self).primary_fault(),
            is_primary && !old(self)@.lock.contains_key((key@, start_ts)) ==> r == Err::<(), TxnError>(
                TxnError::LockNotFound) && final(self)@ == old(self)@,
            !is_primary && !old(self)@.data.contains_key((key@, start_ts)) ==> r == Err::<(), TxnError>(
                TxnError::LockNotFound) && final(self)@ == old(self)@,
            is_primary && old(self)@.lock.contains_key((key@, start_ts)) && old(self).primary_fault()
                ==> r == Err::<(), TxnError>(TxnError::Transport) && final(self)@ == recorded(
                old(self)@,
                key@,
                start_ts,
                commit_ts,
            ),
            (!is_primary && old(self)@.data.contains_key((key@, start_ts)) || is_primary
                && old(self)@.lock.contains_key((key@, start_ts)) && !old(self).primary_fault()) ==> r == Ok::<(), TxnError>(()) && final(self)@ == unlocked(
                recorded(old(self)@, key@, start_ts, commit_ts),
                key@,
                commit_ts,
            ),
    {
        if is_primary {
            let held = self.table.read(crate::table::copy_bytes(&key), Column::Lock, Some(start_ts), Some(start_ts)).is_some();
            proof {
                if old(self)@.lock.contains_key((key@, start_ts)) {
                    assert(crate::table::in_window(start_ts, Some(start_ts), Some(start_ts)));
                }
            }
            if !held {
                return Err(TxnError::LockNotFound);
            }
        } else {
            let stored = self.table.read(crate::table::copy_bytes(&key), Column::Data, Some(start_ts), Some(start_ts)).is_some();
            proof {
                if old(self)@.data.contains_key((key@, start_ts)) {
                    assert(crate::table::in_window(start_ts, Some(start_ts), Some(start_ts)));
                }
            }
            if !stored {
                return Err(TxnError::LockNotFound);
            }
        }
        proof {
            assert(old(self)@.data.contains_key((key@, start_ts)));
        }
        self.table.write(crate::table::copy_bytes(&key), Column::Write, commit_ts, Value::Timestamp(start_ts));
        assert(self@ =~= recorded(old(self)@, key@, start_ts, commit_ts));
        if is_primary && self.commit_primary_fail {
            return Err(TxnError::Transport);
        }
        self.table.erase(key, Column::Lock, commit_ts);
        assert(self@ =~= unlocked(recorded(old(self)@, key@, start_ts, commit_ts), key@, commit_ts));
        Ok(())
    }

    /// Rolls back the keys `keys` of the transaction started at `lock_ts`:
    /// removes their commit records naming `lock_ts`, their locks at or below
    /// `lock_ts` and their data at `lock_ts`.
    fn roll_back(&mut self, keys: &Vec<Vec<u8>>, lock_ts: u64)
        requires
            old(self).wf(),
        ensures
            final(self).wf(),
            final(self).primary_fault() == old(self).primary_fault(),
            final(self)@ == rolled_back(old(self)@, key_set(keys@), lock_ts),
    {
        let ghost t0 = self@;
        proof {
            let e = key_set(keys@.subrange(0, 0));
            assert(e =~= Set::empty());
            assert(drop_records(t0.write, e, lock_ts) =~= t0.write);
            assert(drop_version_at(t0.data, e, lock_ts) =~= t0.data);
            assert(drop_versions(t0.lock, e, lock_ts) =~= t0.lock);
        }
        let mut i: usize = 0;
        while i < keys.len()
            invariant
                self.table.wf(),
                self.primary_fault() == old(self).primary_fault(),
                i <= keys@.len(),
                t0 == old(self)@,
                self@ == rolled_back(t0, key_set(keys@.subrange(0, i as int)), lock_ts),
            decreases keys@.len() - i,
        {
            self.table.remove(crate::table::copy_bytes(&keys[i]), Column::Write, Removal::Naming(lock_ts));
            self.table.erase(crate::table::copy_bytes(&keys[i]), Column::Lock, lock_ts);
            self.table.remove(crate::table::copy_bytes(&keys[i]), Column::Data, Removal::At(lock_ts));
            proof {
                let s0 = key_set(keys@.subrange(0, i as int));
                let s1 = key_set(keys@.subrange(0, i + 1));
                assert forall|k: Seq<u8>| s1.contains(k) <==> s0.contains(k) || k == keys@[i as int]@ by {
                    if s1.contains(k) {
                        let j = choose|j: int| 0 <= j < i + 1 && #[trigger] keys@.subrange(0, i + 1)[j]@ == k;
                        if j < i {
                            assert(keys@.subrange(0, i as int)[j] == keys@.subrange(0, i + 1)[j]);
                        }
                    }
                    if s0.contains(k) {
                        let j = choose|j: int| 0 <= j < i && #[trigger] keys@.subrange(0, i as int)[j]@ == k;
                        assert(keys@.subrange(0, i + 1)[j] == keys@.subrange(0, i as int)[j]);
                    }
                    if k == keys@[i as int]@ {
                        assert(keys@.subrange(0, i + 1)[i as int] == keys@[i as int]);
                    }
                }
                assert(self@.write =~= drop_records(t0.write, s1, lock_ts));
                assert(self@.data =~= drop_version_at(t0.data, s1, lock_ts));
                assert(self@.lock =~= drop_versions(t0.lock, s1, lock_ts));
            }
            i = i + 1;
        }
        assert(keys@.subrange(0, keys@.len() as int) =~= keys@);
        proof {
            roll_back_keeps_invariant(t0, key_set(keys@), lock_ts);
        }
    }

    /// Writes the commit record at `commit_ts` naming `lock_ts` of each key in
    /// `keys`, and erases its locks at or below `commit_ts`.
    fn roll_forward(&mut self, keys: &Vec<Vec<u8>>, lock_ts: u64, commit_ts: u64)
        requires
            old(self).wf(),
            lock_ts < commit_ts,
            forall|k: Seq<u8>| #[trigger] key_set(keys@).contains(k) ==> old(self)@.lock.contains_key((k, lock_ts)),
        ensures
            final(self).wf(),
            final(self).primary_fault() == old(self).primary_fault(),
            final(self)@ == rolled_forward(old(self)@, key_set(keys@), lock_ts, commit_ts),
    {
        let ghost t0 = self@;
        proof {
            let e = key_set(keys@.subrange(0, 0));
            assert(e =~= Set::empty());
            assert(record_all(t0.write, e, commit_ts, lock_ts) =~= t0.write);
            assert(drop_versions(t0.lock, e, commit_ts) =~= t0.lock);
        }
        let mut i: usize = 0;
        while i < keys.len()
            invariant
                self.table.wf(),
                self.primary_fault() == old(self).primary_fault(),
                lock_ts < commit_ts,
                i <= keys@.len(),
                t0 == old(self)@,
                self@ == rolled_forward(t0, key_set(keys@.subrange(0, i as int)), lock_ts, commit_ts),
            decreases keys@.len() - i,
        {
            self.table.write(crate::table::copy_bytes(&keys[i]), Column::Write, commit_ts, Value::Timestamp(lock_ts));
            self.table.erase(crate::table::copy_bytes(&keys[i]), Column::Lock, commit_ts);
            proof {
                let s0 = key_set(keys@.subrange(0, i as int));
                let s1 = key_set(keys@.subrange(0, i + 1));
                assert forall|k: Seq<u8>| s1.contains(k) <==> s0.contains(k) || k == keys@[i as int]@ by {
                    if s1.contains(k) {
                        let j = choose|j: int| 0 <= j < i + 1 && #[trigger] keys@.subrange(0, i + 1)[j]@ == k;
                        if j < i {
                            assert(keys@.subrange(0, i as int)[j] == keys@.subrange(0, i + 1)[j]);
                        }
                    }
                    if s0.contains(k) {
                        let j = choose|j: int| 0 <= j < i && #[trigger] keys@.subrange(0, i as int)[j]@ == k;
                        assert(keys@.subrange(0, i + 1)[j] == keys@.subrange(0, i as int)[j]);
                    }
                    if k == keys@[i as int]@ {
                        assert(keys@.subrange(0, i + 1)[i as int] == keys@[i as int]);
                    }
                }
                assert(self@.write =~= record_all(t0.write, s1, commit_ts, lock_ts));
                assert(self@.lock =~= drop_versions(t0.lock, s1, commit_ts));
            }
            i = i + 1;
        }
        assert(keys@.subrange(0, keys@.len() as int) =~= keys@);
        proof {
            roll_forward_keeps_invariant(t0, key_set(keys@), lock_ts, commit_ts);
        }
    }

    /// Deals with the lock that blocks a read of `key` at `start_ts`, the
    /// oracle's clock reading `now`: nothing if the lock is gone; `BackOff` while
    /// it is alive; else it rolls its transaction back when the primary's lock is
    /// still there, and forward when the primary was committed.
    pub fn back_off_maybe_clean_up_lock(&mut self, start_ts: u64, key: Vec<u8>, now: u64) -> (r: CleanUp)
        requires
            old(self).wf(),
        ensures
            final(self).wf(),
            final(self).primary_fault() == old(self).primary_fault(),
            clean_up_step(old(self)@, start_ts, key@, now, final(self)@, r),
    {
        let ghost t = self@;
        let (lock_ts, primary) = match self.table.read(crate::table::copy_bytes(&key), Column::Lock, None, Some(start_ts)) {
            None => {
                return CleanUp::NoLock;
            },
            Some((k, v)) => {
                proof {
                    let l = latest_ts(t.lock, key@, None, Some(start_ts));
                    assert(is_latest(t.lock, key@, None, Some(start_ts), l));
                    assert(t.lock.contains_key((key@, k.1)));
                    assert(l == k.1);
                }
                (k.1, v.duplicate().unwrap_vec())
            },
        };
        if now <= lock_ts || now - lock_ts <= MAX_TIME_TO_ALIVE {
            return CleanUp::BackOff;
        }
        let keys = self.table.uncommitted_keys(lock_ts, &primary);
        let ghost ks = txn_keys(t.lock, lock_ts, primary@);
        proof {
            assert forall|k: Seq<u8>| key_set(keys@).contains(k) <==> ks.contains(k) by {
                if ks.contains(k) {
                    assert(locked_by(t.lock, k, lock_ts, primary@));
                }
            }
            assert(key_set(keys@) =~= ks);
        }
        let primary_held = self.table.read(crate::table::copy_bytes(&primary), Column::Lock, Some(lock_ts), Some(lock_ts)).is_some();
        proof {
            if t.lock.contains_key((primary@, lock_ts)) {
                assert(crate::table::in_window(lock_ts, Some(lock_ts), Some(lock_ts)));
            }
        }
        if primary_held {
            self.roll_back(&keys, lock_ts);
            return CleanUp::RolledBack;
        }
        match self.table.commit_ts_of(lock_ts, &primary) {
            Some(c) => {
                proof {
                    assert(t.write.contains_key((primary@, c)));
                }
                self.roll_forward(&keys, lock_ts, c);
                CleanUp::RolledForward
            },
            None => {
                self.roll_back(&keys, lock_ts);
                CleanUp::RolledBack
            },
        }
    }
}

} // verus!
