use percolator::client::{Action, Backoff, Client, Outcome};
use percolator::oracle::TimestampOracle;
use percolator::storage::{CleanUp, MemoryStorage, TxnError};

/// A store, an oracle and a simulated clock, driven in one thread.
struct Cluster {
    store: MemoryStorage,
    tso: TimestampOracle,
    clock_ns: u64,
}

impl Cluster {
    fn new() -> Cluster {
        Cluster { store: MemoryStorage::new(), tso: TimestampOracle::new(), clock_ns: 1_000_000_000 }
    }

    fn timestamp(&mut self) -> u64 {
        self.clock_ns += 1;
        self.tso.get_timestamp(self.clock_ns).unwrap()
    }

    fn sleep_ms(&mut self, ms: u64) {
        self.clock_ns += ms * 1_000_000;
    }

    fn begin(&mut self, client: &mut Client) {
        let ts = self.timestamp();
        client.begin(ts);
    }

    fn get(&mut self, client: &Client, key: Vec<u8>) -> Result<Vec<u8>, TxnError> {
        loop {
            match self.store.get(client.start_ts(), key.clone()) {
                Err(TxnError::KeyLocked) => {
                    let now = self.timestamp();
                    let done = self.store.back_off_maybe_clean_up_lock(client.start_ts(), key.clone(), now);
                    if done == CleanUp::BackOff {
                        self.sleep_ms(500);
                    }
                }
                r => return r,
            }
        }
    }

    fn commit(&mut self, client: &Client) -> Result<bool, TxnError> {
        let mut st = client.start_commit();
        loop {
            let outcome = match client.commit_action(&st) {
                Action::Finish(r) => return r,
                Action::Prewrite { start_ts, key, value, primary } => {
                    match self.store.prewrite(start_ts, key, value, primary) {
                        Ok(()) => Outcome::Done,
                        Err(_) => Outcome::Failed,
                    }
                }
                Action::GetTimestamp => Outcome::Timestamp(self.timestamp()),
                Action::Commit { is_primary, start_ts, commit_ts, key } => {
                    match self.store.commit(is_primary, start_ts, commit_ts, key) {
                        Ok(()) => Outcome::Done,
                        Err(_) => Outcome::Failed,
                    }
                }
            };
            client.advance(&mut st, outcome);
        }
    }

    fn clients(n: usize) -> (Cluster, Vec<Client>) {
        let mut clients = Vec::new();
        for _ in 0..n {
            clients.push(Client::new());
        }
        (Cluster::new(), clients)
    }
}

/// Simulates timestamp fetches over a link that is down until `down_until_ms`.
fn fetch_with_retries(tso: &mut TimestampOracle, down_until_ms: u64) -> Result<u64, TxnError> {
    let mut now_ms: u64 = 0;
    let mut budget = Backoff::new();
    while budget.may_try() {
        if now_ms >= down_until_ms {
            return Ok(tso.get_timestamp(now_ms * 1_000_000).unwrap());
        }
        now_ms += budget.failed();
    }
    Err(TxnError::Timeout)
}

#[test]
fn test_get_timestamp_under_unreliable_network() {
    let mut tso = TimestampOracle::new();
    assert!(fetch_with_retries(&mut tso, 100).is_ok());
    assert!(fetch_with_retries(&mut tso, 300).is_ok());
    assert_eq!(fetch_with_retries(&mut tso, 700), Err(TxnError::Timeout));
}

#[test]
fn test_predicate_many_preceders_read_predicates() {
    let (mut rn, clients) = Cluster::clients(3);
    let mut client0 = clients[0].clone();
    rn.begin(&mut client0);
    client0.set(b"1".to_vec(), b"10".to_vec());
    client0.set(b"2".to_vec(), b"20".to_vec());
    assert_eq!(rn.commit(&client0), Ok(true));

    let mut client1 = clients[1].clone();
    rn.begin(&mut client1);
    assert_eq!(rn.get(&client1, b"3".to_vec()), Ok(Vec::new()));

    let mut client2 = clients[2].clone();
    rn.begin(&mut client2);
    client2.set(b"3".to_vec(), b"30".to_vec());
    assert_eq!(rn.commit(&client2), Ok(true));

    assert_eq!(rn.get(&client1, b"3".to_vec()), Ok(Vec::new()));
}

#[test]
fn test_predicate_many_preceders_write_predicates() {
    let (mut rn, clients) = Cluster::clients(3);

    let mut client0 = clients[0].clone();
    rn.begin(&mut client0);
    client0.set(b"1".to_vec(), b"10".to_vec());
    client0.set(b"2".to_vec(), b"20".to_vec());
    assert_eq!(rn.commit(&client0), Ok(true));

    let mut client1 = clients[1].clone();
    rn.begin(&mut client1);

    let mut client2 = clients[2].clone();
    rn.begin(&mut client2);

    client1.set(b"1".to_vec(), b"20".to_vec());
    client1.set(b"2".to_vec(), b"30".to_vec());
    assert_eq!(rn.get(&client1, b"2".to_vec()), Ok(b"20".to_vec()));

    client2.set(b"2".to_vec(), b"40".to_vec());
    assert_eq!(rn.commit(&client1), Ok(true));
    assert_eq!(rn.commit(&client2), Ok(false));
}

#[test]
fn test_lost_update() {
    let (mut rn, clients) = Cluster::clients(3);

    let mut client0 = clients[0].clone();
    rn.begin(&mut client0);
    client0.set(b"1".to_vec(), b"10".to_vec());
    client0.set(b"2".to_vec(), b"20".to_vec());
    assert_eq!(rn.commit(&client0), Ok(true));

    let mut client1 = clients[1].clone();
    rn.begin(&mut client1);

    let mut client2 = clients[2].clone();
    rn.begin(&mut client2);

    assert_eq!(rn.get(&client1, b"1".to_vec()), Ok(b"10".to_vec()));
    assert_eq!(rn.get(&client2, b"1".to_vec()), Ok(b"10".to_vec()));

    client1.set(b"1".to_vec(), b"11".to_vec());
    client2.set(b"1".to_vec(), b"11".to_vec());
    assert_eq!(rn.commit(&client1), Ok(true));
    assert_eq!(rn.commit(&client2), Ok(false));
}

#[test]
fn test_read_skew_read_only() {
    let (mut rn, clients) = Cluster::clients(3);

    let mut client0 = clients[0].clone();
    rn.begin(&mut client0);
    client0.set(b"1".to_vec(), b"10".to_vec());
    client0.set(b"2".to_vec(), b"20".to_vec());
    assert_eq!(rn.commit(&client0), Ok(true));

    let mut client1 = clients[1].clone();
    rn.begin(&mut client1);

    let mut client2 = clients[2].clone();
    rn.begin(&mut client2);

    assert_eq!(rn.get(&client1, b"1".to_vec()), Ok(b"10".to_vec()));
    assert_eq!(rn.get(&client2, b"1".to_vec()), Ok(b"10".to_vec()));
    assert_eq!(rn.get(&client2, b"2".to_vec()), Ok(b"20".to_vec()));

    client2.set(b"1".to_vec(), b"12".to_vec());
    client2.set(b"2".to_vec(), b"18".to_vec());
    assert_eq!(rn.commit(&client2), Ok(true));

    assert_eq!(rn.get(&client1, b"2".to_vec()), Ok(b"20".to_vec()));
}

#[test]
fn test_read_skew_predicate_dependencies() {
    let (mut rn, clients) = Cluster::clients(3);

    let mut client0 = clients[0].clone();
    rn.begin(&mut client0);
    client0.set(b"1".to_vec(), b"10".to_vec());
    client0.set(b"2".to_vec(), b"20".to_vec());
    assert_eq!(rn.commit(&client0), Ok(true));

    let mut client1 = clients[1].clone();
    rn.begin(&mut client1);

    let mut client2 = clients[2].clone();
    rn.begin(&mut client2);

    assert_eq!(rn.get(&client1, b"1".to_vec()), Ok(b"10".to_vec()));
    assert_eq!(rn.get(&client1, b"2".to_vec()), Ok(b"20".to_vec()));

    client2.set(b"3".to_vec(), b"30".to_vec());
    assert_eq!(rn.commit(&client2), Ok(true));

    assert_eq!(rn.get(&client1, b"3".to_vec()), Ok(Vec::new()));
}

#[test]
fn test_read_skew_write_predicate() {
    let (mut rn, clients) = Cluster::clients(3);

    let mut client0 = clients[0].clone();
    rn.begin(&mut client0);
    client0.set(b"1".to_vec(), b"10".to_vec());
    client0.set(b"2".to_vec(), b"20".to_vec());
    assert_eq!(rn.commit(&client0), Ok(true));

    let mut client1 = clients[1].clone();
    rn.begin(&mut client1);

    let mut client2 = clients[2].clone();
    rn.begin(&mut client2);

    assert_eq!(rn.get(&client1, b"1".to_vec()), Ok(b"10".to_vec()));
    assert_eq!(rn.get(&client2, b"1".to_vec()), Ok(b"10".to_vec()));
    assert_eq!(rn.get(&client2, b"2".to_vec()), Ok(b"20".to_vec()));

    client2.set(b"1".to_vec(), b"12".to_vec());
    client2.set(b"2".to_vec(), b"18".to_vec());
    assert_eq!(rn.commit(&client2), Ok(true));

    client1.set(b"2".to_vec(), b"30".to_vec());
    assert_eq!(rn.commit(&client1), Ok(false));
}

#[test]
fn test_write_skew() {
    let (mut rn, clients) = Cluster::clients(3);

    let mut client0 = clients[0].clone();
    rn.begin(&mut client0);
    client0.set(b"1".to_vec(), b"10".to_vec());
    client0.set(b"2".to_vec(), b"20".to_vec());
    assert_eq!(rn.commit(&client0), Ok(true));

    let mut client1 = clients[1].clone();
    rn.begin(&mut client1);

    let mut client2 = clients[2].clone();
    rn.begin(&mut client2);

    assert_eq!(rn.get(&client1, b"1".to_vec()), Ok(b"10".to_vec()));
    assert_eq!(rn.get(&client1, b"2".to_vec()), Ok(b"20".to_vec()));
    assert_eq!(rn.get(&client2, b"1".to_vec()), Ok(b"10".to_vec()));
    assert_eq!(rn.get(&client2, b"2".to_vec()), Ok(b"20".to_vec()));

    client1.set(b"1".to_vec(), b"11".to_vec());
    client2.set(b"2".to_vec(), b"21".to_vec());

    assert_eq!(rn.commit(&client1), Ok(true));
    assert_eq!(rn.commit(&client2), Ok(true));
}

#[test]
fn test_anti_dependency_cycles() {
    let (mut rn, clients) = Cluster::clients(4);

    let mut client0 = clients[0].clone();
    rn.begin(&mut client0);
    client0.set(b"1".to_vec(), b"10".to_vec());
    client0.set(b"2".to_vec(), b"20".to_vec());
    assert_eq!(rn.commit(&client0), Ok(true));

    let mut client1 = clients[1].clone();
    rn.begin(&mut client1);

    let mut client2 = clients[2].clone();
    rn.begin(&mut client2);

    client1.set(b"3".to_vec(), b"30".to_vec());
    client2.set(b"4".to_vec(), b"42".to_vec());

    assert_eq!(rn.commit(&client1), Ok(true));
    assert_eq!(rn.commit(&client2), Ok(true));

    let mut client3 = clients[3].clone();
    rn.begin(&mut client3);

    assert_eq!(rn.get(&client3, b"3".to_vec()), Ok(b"30".to_vec()));
    assert_eq!(rn.get(&client3, b"4".to_vec()), Ok(b"42".to_vec()));
}

#[test]
fn commit_secondaries_fail_then_readers_roll_forward() {
    let (mut rn, clients) = Cluster::clients(2);
    let mut client1 = clients[0].clone();
    rn.begin(&mut client1);
    client1.set(b"1".to_vec(), b"10".to_vec());
    client1.set(b"2".to_vec(), b"20".to_vec());
    client1.set(b"3".to_vec(), b"30".to_vec());
    client1.set(b"4".to_vec(), b"40".to_vec());
    client1.set_commit_secondaries_fail(true);
    assert_eq!(rn.commit(&client1), Ok(true));

    let mut client2 = clients[1].clone();
    rn.begin(&mut client2);
    assert_eq!(rn.get(&client2, b"1".to_vec()), Ok(b"10".to_vec()));
    assert_eq!(rn.get(&client2, b"2".to_vec()), Ok(b"20".to_vec()));
    assert_eq!(rn.get(&client2, b"3".to_vec()), Ok(b"30".to_vec()));
    assert_eq!(rn.get(&client2, b"4".to_vec()), Ok(b"40".to_vec()));
}

#[test]
fn commit_primary_fail_then_readers_roll_back() {
    let (mut rn, clients) = Cluster::clients(2);
    let mut client1 = clients[0].clone();
    rn.begin(&mut client1);
    client1.set(b"1".to_vec(), b"10".to_vec());
    client1.set(b"2".to_vec(), b"20".to_vec());
    client1.set(b"3".to_vec(), b"30".to_vec());
    client1.set(b"4".to_vec(), b"40".to_vec());
    rn.store.set_commit_primary_fail(true);
    assert_eq!(rn.commit(&client1), Ok(false));
    rn.store.set_commit_primary_fail(false);

    let mut client2 = clients[1].clone();
    rn.begin(&mut client2);
    assert_eq!(rn.get(&client2, b"1".to_vec()), Ok(Vec::new()));
    assert_eq!(rn.get(&client2, b"2".to_vec()), Ok(Vec::new()));
    assert_eq!(rn.get(&client2, b"3".to_vec()), Ok(Vec::new()));
    assert_eq!(rn.get(&client2, b"4".to_vec()), Ok(Vec::new()));
}
