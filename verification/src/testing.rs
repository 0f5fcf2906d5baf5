//! Configuration for driving whole-network simulation runs, and the
//! naming of such runs.

use vstd::prelude::*;
use vstd::string::StringExecFns;

verus! {

/// Default number of gateways in a simulated network.
pub const DEFAULT_GATEWAYS: usize = 2;

/// Default number of regular peer nodes in a simulated network.
pub const DEFAULT_NODES: usize = 10;

/// Default maximum hops-to-live for operations.
pub const DEFAULT_MAX_HOPS_TO_LIVE: usize = 10;

/// Default threshold above which candidate peers for new connections
/// are randomized.
pub const DEFAULT_RANDOM_PEER_CONN_THRESHOLD: usize = 7;

/// Default maximum number of connections per peer.
pub const DEFAULT_MAX_CONNECTIONS: usize = 20;

/// Default minimum number of connections per peer.
pub const DEFAULT_MIN_CONNECTIONS: usize = 10;

/// Default time, in milliseconds, to wait for the network to be
/// sufficiently connected before requesting events.
pub const DEFAULT_WAIT_DURATION_MS: u64 = 15_000;

/// Under which mode a simulation run executes.
#[derive(Clone, Copy, PartialEq, Eq, Structural, Debug)]
pub enum TestMode {
    /// Runs multiple simulated nodes in a single process.
    SingleProcess,
    /// Runs multiple simulated nodes in multiple processes.
    MultiProcess,
    /// Runs multiple simulated nodes in multiple processes and
    /// multiple machines.
    Network,
}

/// Configuration of one network-simulation run.
#[derive(Clone, Debug)]
pub struct TestConfig {
    /// Test name. When not provided, a random one is generated.
    pub name: Option<String>,
    /// Seed to use when generating random data. When not provided, a
    /// random seed is used.
    pub seed: Option<u64>,
    /// Number of total gateways for this test.
    pub gateways: usize,
    /// Number of total regular peer nodes for this test.
    pub nodes: usize,
    /// Max hops to live for operations, where it applies.
    pub ring_max_htl: usize,
    /// Threshold for randomizing potential peers for new connections.
    pub rnd_if_htl_above: usize,
    /// Maximum number of connections per peer.
    pub max_connections: usize,
    /// Minimum number of connections per peer.
    pub min_connections: usize,
    /// Maximum number of contracts live in the network.
    pub max_contract_number: Option<usize>,
    /// Number of simulated events (gets, puts and other operations)
    /// executed in this run.
    pub events: usize,
    /// Time in milliseconds to wait for the network to be
    /// sufficiently connected to start requesting events.
    pub wait_duration: u64,
    /// Time in milliseconds to wait between events.
    pub event_wait_time: Option<u64>,
    /// Execution mode for the test.
    pub command: TestMode,
}

impl Default for TestConfig {
    /// The defaults of a run: no fixed name or seed, the standard ring
    /// parameters, as many events as can be counted, and a single
    /// process.
    fn default() -> (r: Self)
        ensures
            r.name is None,
            r.seed is None,
            r.gateways == DEFAULT_GATEWAYS,
            r.nodes == DEFAULT_NODES,
            r.ring_max_htl == DEFAULT_MAX_HOPS_TO_LIVE,
            r.rnd_if_htl_above == DEFAULT_RANDOM_PEER_CONN_THRESHOLD,
            r.max_connections == DEFAULT_MAX_CONNECTIONS,
            r.min_connections == DEFAULT_MIN_CONNECTIONS,
            r.max_contract_number is None,
            r.events == usize::MAX,
            r.wait_duration == DEFAULT_WAIT_DURATION_MS,
            r.event_wait_time is None,
            r.command == TestMode::SingleProcess,
    {
        TestConfig {
            name: None,
            seed: None,
            gateways: DEFAULT_GATEWAYS,
            nodes: DEFAULT_NODES,
            ring_max_htl: DEFAULT_MAX_HOPS_TO_LIVE,
            rnd_if_htl_above: DEFAULT_RANDOM_PEER_CONN_THRESHOLD,
            max_connections: DEFAULT_MAX_CONNECTIONS,
            min_connections: DEFAULT_MIN_CONNECTIONS,
            max_contract_number: None,
            events: usize::MAX,
            wait_duration: DEFAULT_WAIT_DURATION_MS,
            event_wait_time: None,
            command: TestMode::SingleProcess,
        }
    }
}

/// Relies on rand::random: a fresh sample of the thread-local
/// generator. Nothing can be promised of a random value.
pub assume_specification<T>[ rand::random::<T> ]() -> (r: T)
    where
        rand::distributions::Standard: rand::distributions::Distribution<T>,
;

/// The one-letter text for a letter index, used to grow a random
/// name.
fn letter_str(i: u8) -> (r: &'static str)
    requires
        i < 26,
    ensures
        r@.len() == 1,
        'a' <= r@[0] && r@[0] <= 'z',
{
    proof {
        reveal_strlit("a");
        reveal_strlit("b");
        reveal_strlit("c");
        reveal_strlit("d");
        reveal_strlit("e");
        reveal_strlit("f");
        reveal_strlit("g");
        reveal_strlit("h");
        reveal_strlit("i");
        reveal_strlit("j");
        reveal_strlit("k");
        reveal_strlit("l");
        reveal_strlit("m");
        reveal_strlit("n");
        reveal_strlit("o");
        reveal_strlit("p");
        reveal_strlit("q");
        reveal_strlit("r");
        reveal_strlit("s");
        reveal_strlit("t");
        reveal_strlit("u");
        reveal_strlit("v");
        reveal_strlit("w");
        reveal_strlit("x");
        reveal_strlit("y");
        reveal_strlit("z");
    }
    match i {
        0 => "a",
        1 => "b",
        2 => "c",
        3 => "d",
        4 => "e",
        5 => "f",
        6 => "g",
        7 => "h",
        8 => "i",
        9 => "j",
        10 => "k",
        11 => "l",
        12 => "m",
        13 => "n",
        14 => "o",
        15 => "p",
        16 => "q",
        17 => "r",
        18 => "s",
        19 => "t",
        20 => "u",
        21 => "v",
        22 => "w",
        23 => "x",
        24 => "y",
        _ => "z",
    }
}

/// A random test name: sixteen lowercase ASCII letters.
///
/// Relies on rand::random for the raw bytes; the name's shape is
/// proved, the draw is not.
pub fn randomize_test_name() -> (r: String)
    ensures
        r@.len() == 16,
        forall|i: int| 0 <= i < 16 ==> 'a' <= #[trigger] r@[i] && r@[i] <= 'z',
{
    let mut name = String::from_str("");
    proof {
        reveal_strlit("");
    }
    let mut k: usize = 0;
    while k < 16
        invariant
            0 <= k <= 16,
            name@.len() == k,
            forall|i: int| 0 <= i < k ==> 'a' <= #[trigger] name@[i] && name@[i] <= 'z',
        decreases 16 - k,
    {
        let b: u8 = rand::random::<u8>();
        let idx = b % 26;
        let s = letter_str(idx);
        name.append(s);
        k = k + 1;
    }
    name
}

} // verus!
