//! The transaction client's decisions: its session state, the retry and
//! backoff discipline for timestamp fetches and reads, and the two-phase commit
//! as a state machine whose requests the caller performs.
use vstd::prelude::*;
use crate::storage::TxnError;

verus! {

/// The first backoff, in milliseconds; each later one doubles.
pub const BACKOFF_TIME_MS: u64 = 100;

/// How many attempts a timestamp fetch or a read gets.
pub const RETRY_TIMES: usize = 3;

/// The backoff after the failed attempt numbered `n` (from 0).
pub open spec fn backoff_after(n: nat) -> nat
    decreases n,
{
    if n == 0 {
        BACKOFF_TIME_MS as nat
    } else {
        2 * backoff_after((n - 1) as nat)
    }
}

/// The retry budget of one timestamp fetch or read.
pub struct Backoff {
    failures: usize,
}

impl View for Backoff {
    type V = nat;

    closed spec fn view(&self) -> nat {
        self.failures as nat
    }
}

impl Backoff {
    /// A budget with no attempt failed yet.
    pub fn new() -> (r: Backoff)
        ensures
            r@ == 0,
    {
        Backoff { failures: 0 }
    }

    /// Whether another attempt may be made.
    pub fn may_try(&self) -> (r: bool)
        ensures
            r == (self@ < RETRY_TIMES),
    {
        self.failures < RETRY_TIMES
    }

    /// Records a failed attempt and returns how long to sleep before the next
    /// step, in milliseconds: 100, then 200, then 400.
    pub fn failed(&mut self) -> (ms: u64)
        requires
            old(self)@ < RETRY_TIMES,
        ensures
            final(self)@ == old(self)@ + 1,
            ms == backoff_after(old(self)@),
    {
        let mut ms: u64 = BACKOFF_TIME_MS;
        let mut i: usize = 0;
        while i < self.failures
            invariant
                i <= self.failures < RETRY_TIMES,
                ms == backoff_after(i as nat),
            decreases self.failures - i,
        {
            assert(backoff_after((i + 1) as nat) == 2 * backoff_after(i as nat));
            assert(ms <= 200) by {
                assert(backoff_after(0) == 100);
                assert(backoff_after(1) == 200);
            }
            ms = ms * 2;
            i = i + 1;
        }
        self.failures = self.failures + 1;
        ms
    }
}

/// One buffered write: a key and its value.
#[derive(Clone)]
pub struct Write(pub Vec<u8>, pub Vec<u8>);

/// The model of a buffered write.
pub open spec fn write_view(w: Write) -> (Seq<u8>, Seq<u8>) {
    (w.0@, w.1@)
}

/// Where a commit stands.
#[derive(Clone, Copy, Debug)]
pub enum Phase {
    /// Prewriting the write of this index (0 is the primary).
    Prewrite(usize),
    /// Waiting for the commit timestamp.
    FetchCommitTs,
    /// Committing the primary.
    CommitPrimary,
    /// Committing the secondary of this index.
    CommitSecondary(usize),
    /// Done, with the commit's result.
    Finished(Result<bool, TxnError>),
}

/// What the caller reports after performing a commit step's request.
#[derive(Clone, Copy, Debug, PartialEq, Eq, Structural)]
pub enum Outcome {
    /// The request succeeded.
    Done,
    /// The request failed (for a timestamp fetch: its retries ran out).
    Failed,
    /// The timestamp fetch returned this timestamp.
    Timestamp(u64),
}

/// The request a commit step asks the caller to perform.
pub enum Action {
    Prewrite { start_ts: u64, key: Vec<u8>, value: Vec<u8>, primary: Vec<u8> },
    GetTimestamp,
    Commit { is_primary: bool, start_ts: u64, commit_ts: u64, key: Vec<u8> },
    Finish(Result<bool, TxnError>),
}

/// A commit in progress.
pub struct CommitState {
    pub phase: Phase,
    pub commit_ts: u64,
}

/// The commit's transition on `outcome`, for a transaction of `n` writes whose
/// secondary commits are skipped when `skip_secondaries` holds. Prewrite
/// failures abort, a failed commit-timestamp fetch fails with `Timeout`, a
/// failed primary commit aborts, and secondary commit failures are ignored.
pub open spec fn next_phase(n: nat, skip_secondaries: bool, phase: Phase, outcome: Outcome) -> Phase {
    match phase {
        Phase::Prewrite(i) => if outcome == Outcome::Failed {
            Phase::Finished(Ok(false))
        } else if i + 1 < n {
            Phase::Prewrite((i + 1) as usize)
        } else {
            Phase::FetchCommitTs
        },
        Phase::FetchCommitTs => match outcome {
            Outcome::Timestamp(_) => Phase::CommitPrimary,
            _ => Phase::Finished(Err(TxnError::Timeout)),
        },
        Phase::CommitPrimary => if outcome == Outcome::Failed {
            Phase::Finished(Ok(false))
        } else if n > 1 && !skip_secondaries {
            Phase::CommitSecondary(1)
        } else {
            Phase::Finished(Ok(true))
        },
        Phase::CommitSecondary(i) => if i + 1 < n {
            Phase::CommitSecondary((i + 1) as usize)
        } else {
            Phase::Finished(Ok(true))
        },
        Phase::Finished(r) => Phase::Finished(r),
    }
}

/// The phase a commit reaches from `phase` after the outcomes `outs`, in order.
pub open spec fn commit_run(n: nat, skip_secondaries: bool, phase: Phase, outs: Seq<Outcome>) -> Phase
    decreases outs.len(),
{
    if outs.len() == 0 {
        phase
    } else {
        commit_run(n, skip_secondaries, next_phase(n, skip_secondaries, phase, outs[0]), outs.drop_first())
    }
}

proof fn finished_stays(n: nat, skip: bool, r: Result<bool, TxnError>, outs: Seq<Outcome>)
    ensures
        commit_run(n, skip, Phase::Finished(r), outs) == Phase::Finished(r),
    decreases outs.len(),
{
    if outs.len() > 0 {
        finished_stays(n, skip, r, outs.drop_first());
    }
}

proof fn success_needs_primary(n: nat, skip: bool, outs: Seq<Outcome>)
    requires
        commit_run(n, skip, Phase::CommitPrimary, outs) == Phase::Finished(Ok::<bool, TxnError>(true)),
    ensures
        outs.len() >= 1,
        outs[0] != Outcome::Failed,
{
    if outs.len() == 0 {
    } else if outs[0] == Outcome::Failed {
        finished_stays(n, skip, Ok(false), outs.drop_first());
    }
}

proof fn success_needs_all_steps(n: nat, skip: bool, i: nat, outs: Seq<Outcome>)
    requires
        i < n,
        commit_run(n, skip, Phase::Prewrite(i as usize), outs) == Phase::Finished(Ok::<bool, TxnError>(true)),
        i <= usize::MAX,
        n <= usize::MAX,
    ensures
        outs.len() >= n - i + 2,
        forall|j: int| 0 <= j < n - i ==> #[trigger] outs[j] != Outcome::Failed,
        outs[n - i as int] is Timestamp,
        outs[n - i + 1 as int] != Outcome::Failed,
    decreases n - i,
{
    let rest = outs.drop_first();
    if outs.len() == 0 {
    } else if outs[0] == Outcome::Failed {
        finished_stays(n, skip, Ok(false), rest);
    } else if i + 1 < n {
        assert(next_phase(n, skip, Phase::Prewrite(i as usize), outs[0]) == Phase::Prewrite((i + 1) as usize));
        success_needs_all_steps(n, skip, i + 1, rest);
        assert forall|j: int| 0 <= j < n - i implies #[trigger] outs[j] != Outcome::Failed by {
            if j > 0 {
                assert(outs[j] == rest[j - 1]);
            }
        }
    } else {
        assert(next_phase(n, skip, Phase::Prewrite(i as usize), outs[0]) == Phase::FetchCommitTs);
        assert(commit_run(n, skip, Phase::FetchCommitTs, rest) == Phase::Finished(Ok::<bool, TxnError>(true)));
        if rest.len() == 0 {
        } else {
            assert(commit_run(n, skip, Phase::FetchCommitTs, rest) == commit_run(
                n,
                skip,
                next_phase(n, skip, Phase::FetchCommitTs, rest[0]),
                rest.drop_first(),
            ));
            match rest[0] {
                Outcome::Timestamp(_) => {
                    success_needs_primary(n, skip, rest.drop_first());
                    assert(outs[2] == rest.drop_first()[0]);
                },
                _ => {
                    finished_stays(n, skip, Err(TxnError::Timeout), rest.drop_first());
                },
            }
        }
    }
}

/// A commit that ends in `Ok(true)` has had every prewrite succeed, got its
/// commit timestamp, and committed its primary: failed secondary commits are
/// the only failures it can have ignored.
pub proof fn commit_success_needs_prewrites_and_primary(n: nat, skip_secondaries: bool, outs: Seq<Outcome>)
    requires
        1 <= n <= usize::MAX,
        commit_run(n, skip_secondaries, Phase::Prewrite(0), outs) == Phase::Finished(Ok::<bool, TxnError>(true)),
    ensures
        outs.len() >= n + 2,
        forall|j: int| 0 <= j < n ==> #[trigger] outs[j] != Outcome::Failed,
        outs[n as int] is Timestamp,
        outs[n + 1 as int] != Outcome::Failed,
{
    success_needs_all_steps(n, skip_secondaries, 0, outs);
}

/// Whether `phase` names a write that exists in a transaction of `n` writes.
pub open spec fn phase_in_range(n: nat, phase: Phase) -> bool {
    match phase {
        Phase::Prewrite(i) => i < n,
        Phase::CommitSecondary(i) => 1 <= i < n,
        _ => true,
    }
}

#[derive(Clone)]
struct Transaction {
    start_ts: u64,
    writes: Vec<Write>,
}

/// A client's transaction session: its start timestamp and its buffered writes.
#[derive(Clone)]
pub struct Client {
    txn: Transaction,
    commit_secondaries_fail: bool,
}

impl Client {
    /// The start timestamp of the current transaction.
    pub closed spec fn start(&self) -> u64 {
        self.txn.start_ts
    }

    /// The buffered writes of the current transaction, in order.
    pub closed spec fn writes(&self) -> Seq<(Seq<u8>, Seq<u8>)> {
        self.txn.writes@.map_values(|w: Write| write_view(w))
    }

    /// Whether secondary commits are armed to be skipped.
    pub closed spec fn secondaries_fault(&self) -> bool {
        self.commit_secondaries_fail
    }

    /// A client with an empty transaction at timestamp 0.
    pub fn new() -> (r: Client)
        ensures
            r.start() == 0,
            r.writes() == Seq::<(Seq<u8>, Seq<u8>)>::empty(),
            !r.secondaries_fault(),
    {
        let r = Client { txn: Transaction { start_ts: 0, writes: Vec::new() }, commit_secondaries_fail: false };
        assert(r.writes() =~= Seq::<(Seq<u8>, Seq<u8>)>::empty());
        r
    }

    /// The start timestamp of the current transaction.
    pub fn start_ts(&self) -> (r: u64)
        ensures
            r == self.start(),
    {
        self.txn.start_ts
    }

    /// The number of buffered writes.
    pub fn num_writes(&self) -> (r: usize)
        ensures
            r == self.writes().len(),
    {
        self.txn.writes.len()
    }

    /// Arms or disarms the fault that makes every secondary commit appear to fail.
    pub fn set_commit_secondaries_fail(&mut self, armed: bool)
        ensures
            final(self).start() == old(self).start(),
            final(self).writes() == old(self).writes(),
            final(self).secondaries_fault() == armed,
    {
        self.commit_secondaries_fail = armed;
    }

    /// Starts a new transaction at `start_ts` with no writes.
    pub fn begin(&mut self, start_ts: u64)
        ensures
            final(self).start() == start_ts,
            final(self).writes() == Seq::<(Seq<u8>, Seq<u8>)>::empty(),
            final(self).secondaries_fault() == old(self).secondaries_fault(),
    {
        self.txn = Transaction { start_ts, writes: Vec::new() };
        assert(self.writes() =~= Seq::<(Seq<u8>, Seq<u8>)>::empty());
    }

    /// Buffers the write `key` := `value`.
    pub fn set(&mut self, key: Vec<u8>, value: Vec<u8>)
        ensures
            final(self).start() == old(self).start(),
            final(self).writes() == old(self).writes().push((key@, value@)),
            final(self).secondaries_fault() == old(self).secondaries_fault(),
    {
        let ghost k = key@;
        let ghost v = value@;
        self.txn.writes.push(Write(key, value));
        assert(self.writes() =~= old(self).writes().push((k, v)));
    }

    /// Starts committing the buffered writes; the first one is the primary.
    pub fn start_commit(&self) -> (r: CommitState)
        requires
            self.writes().len() >= 1,
        ensures
            r.phase == Phase::Prewrite(0),
            r.commit_ts == 0,
    {
        CommitState { phase: Phase::Prewrite(0), commit_ts: 0 }
    }

    /// The request to perform at the commit's current step: the prewrite of
    /// each write in order with the first as primary, the fetch of the commit
    /// timestamp, the commit of the primary, then of each secondary in order.
    pub fn commit_action(&self, st: &CommitState) -> (r: Action)
        requires
            self.writes().len() >= 1,
            phase_in_range(self.writes().len(), st.phase),
        ensures
            st.phase matches Phase::Prewrite(i) ==> (r matches Action::Prewrite { start_ts, key, value, primary }
                && start_ts == self.start() && key@ == self.writes()[i as int].0 && value@
                == self.writes()[i as int].1 && primary@ == self.writes()[0].0),
            st.phase is FetchCommitTs ==> r is GetTimestamp,
            st.phase is CommitPrimary ==> (r matches Action::Commit { is_primary, start_ts, commit_ts, key }
                && is_primary && start_ts == self.start() && commit_ts == st.commit_ts && key@
                == self.writes()[0].0),
            st.phase matches Phase::CommitSecondary(i) ==> (r matches Action::Commit { is_primary, start_ts, commit_ts, key }
                && !is_primary && start_ts == self.start() && commit_ts == st.commit_ts && key@
                == self.writes()[i as int].0),
            st.phase matches Phase::Finished(res) ==> (r matches Action::Finish(x) && x == res),
    {
        let ws = &self.txn.writes;
        match st.phase {
            Phase::Prewrite(i) => Action::Prewrite {
                start_ts: self.txn.start_ts,
                key: crate::table::copy_bytes(&ws[i].0),
                value: crate::table::copy_bytes(&ws[i].1),
                primary: crate::table::copy_bytes(&ws[0].0),
            },
            Phase::FetchCommitTs => Action::GetTimestamp,
            Phase::CommitPrimary => Action::Commit {
                is_primary: true,
                start_ts: self.txn.start_ts,
                commit_ts: st.commit_ts,
                key: crate::table::copy_bytes(&ws[0].0),
            },
            Phase::CommitSecondary(i) => Action::Commit {
                is_primary: false,
                start_ts: self.txn.start_ts,
                commit_ts: st.commit_ts,
                key: crate::table::copy_bytes(&ws[i].0),
            },
            Phase::Finished(res) => Action::Finish(res),
        }
    }

    /// Moves the commit on after the caller performed the current step's
    /// request with `outcome`.
    pub fn advance(&self, st: &mut CommitState, outcome: Outcome)
        requires
            self.writes().len() >= 1,
        ensures
            final(st).phase == next_phase(
                self.writes().len(),
                self.secondaries_fault(),
                old(st).phase,
                outcome,
            ),
            old(st).phase is FetchCommitTs ==> (outcome matches Outcome::Timestamp(t) ==> final(st).commit_ts == t),
            !(old(st).phase is FetchCommitTs && outcome is Timestamp) ==> final(st).commit_ts == old(st).commit_ts,
            phase_in_range(self.writes().len(), old(st).phase) ==> phase_in_range(self.writes().len(), final(st).phase),
    {
        let n = self.txn.writes.len();
        let failed = match outcome {
            Outcome::Failed => true,
            _ => false,
        };
        let next = match st.phase {
            Phase::Prewrite(i) => if failed {
                Phase::Finished(Ok(false))
            } else if i < n && i + 1 < n {
                Phase::Prewrite(i + 1)
            } else {
                Phase::FetchCommitTs
            },
            Phase::FetchCommitTs => match outcome {
                Outcome::Timestamp(t) => {
                    st.commit_ts = t;
                    Phase::CommitPrimary
                },
                _ => Phase::Finished(Err(TxnError::Timeout)),
            },
            Phase::CommitPrimary => if failed {
                Phase::Finished(Ok(false))
            } else if n > 1 && !self.commit_secondaries_fail {
                Phase::CommitSecondary(1)
            } else {
                Phase::Finished(Ok(true))
            },
            Phase::CommitSecondary(i) => if i < n && i + 1 < n {
                Phase::CommitSecondary(i + 1)
            } else {
                Phase::Finished(Ok(true))
            },
            Phase::Finished(r) => Phase::Finished(r),
        };
        st.phase = next;
    }
}

} // verus!
