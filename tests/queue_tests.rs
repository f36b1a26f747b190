use collision_miner::block::Block;
use collision_miner::cycle::cycle_finder;
use collision_miner::queue::{mining_difficulty, needs_refresh, ConfigError, Queue, NANOS_PER_MINUTE};

fn block(difficulty: u64, nonces: [u64; 3]) -> Block {
    Block { version: 1, root: collision_miner::hash::Hash(vec![2u8; 32]), parentid: collision_miner::hash::Hash(vec![1u8; 32]), difficulty, timestamp: 0, nonces }
}

#[test]
fn queue_installs_and_preempts() {
    let mut q = Queue::new(block(10, [0, 0, 0]), 100);
    assert!(!q.is_preempted(100));
    assert!(!q.is_preempted(150));
    q.install(block(11, [0, 0, 0]), 200);
    assert!(q.is_preempted(150));
    assert_eq!(q.template().difficulty, 11);
    assert_eq!(q.most_recent, 200);
}

#[test]
fn drain_keeps_valid_solutions_in_order() {
    let mut q = Queue::new(block(10, [0, 0, 0]), 0);
    q.submit(block(0, [1, 2, 3]));
    q.submit(block(0, [1, 1, 3]));
    q.submit(block(64, [1, 2, 3]));
    q.submit(block(0, [4, 5, 6]));
    let valid = q.drain_valid();
    assert_eq!(valid.len(), 2);
    assert_eq!(valid[0].nonces, [1, 2, 3]);
    assert_eq!(valid[1].nonces, [4, 5, 6]);
    assert!(q.solved_blocks.is_empty());
    assert!(q.drain_valid().is_empty());
}

#[test]
fn difficulty_override() {
    assert_eq!(mining_difficulty(20, None), Ok(20));
    assert_eq!(mining_difficulty(20, Some(25)), Ok(25));
    assert_eq!(mining_difficulty(20, Some(20)), Ok(20));
    assert_eq!(mining_difficulty(20, Some(64)), Ok(64));
    assert_eq!(mining_difficulty(20, Some(65)), Err(ConfigError::DifficultyTooHigh));
    assert_eq!(mining_difficulty(20, Some(19)), Err(ConfigError::DifficultyBelowTemplate));
}

#[test]
fn refresh_after_ten_minutes() {
    assert!(!needs_refresh(9 * NANOS_PER_MINUTE, 0));
    assert!(!needs_refresh(10 * NANOS_PER_MINUTE - 1, 0));
    assert!(needs_refresh(10 * NANOS_PER_MINUTE, 0));
    assert!(!needs_refresh(5, 10));
}

#[test]
fn cycle_finder_returns_a_collision() {
    // 0 -> 1 -> 2 -> 3 -> 4 -> 2: tail of two, cycle of three; 1 and 4 both map to 2.
    let f = |x: u64| if x < 4 { x + 1 } else { 2 };
    let (a, b) = cycle_finder(f, 0);
    assert_ne!(a, b);
    assert_eq!(f(a), f(b));
    let mut pair = vec![a, b];
    pair.sort();
    assert_eq!(pair, vec![1, 4]);

    // 4 -> 2 -> 1 -> 0 -> 0: the only collision on the orbit is {0, 1}.
    let (a, b) = cycle_finder(|x: u64| x / 2, 4);
    let mut pair = vec![a, b];
    pair.sort();
    assert_eq!(pair, vec![0, 1]);

    let g = |x: u64| (x * x + 1) % 1009;
    let (a, b) = cycle_finder(g, 3);
    assert_ne!(a, b);
    assert_eq!(g(a), g(b));
}

#[test]
fn cycle_finder_on_a_cycle_returns_equal_values() {
    let (a, b) = cycle_finder(|x: u64| x, 7);
    assert_eq!((a, b), (7, 7));
    let (a, b) = cycle_finder(|x: u64| (x + 1) % 5, 2);
    assert_eq!(a, b);
}
