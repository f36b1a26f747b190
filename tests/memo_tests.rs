use collision_miner::block::Block;
use collision_miner::memo::{
    fill_table, fits_memory_budget, fuse_runs, probe, solved_block, MemoParams, MemoSearch,
    ParamError, SearchStep, Triple, DEFAULT_ALPHA_MILLI, DEFAULT_BETA_MILLI,
};
use collision_miner::queue::Queue;
use collision_miner::template::make_block_at;

fn row(image: u64, pre_1: u64) -> Triple {
    Triple { image, pre_1, pre_2: None }
}

fn template(difficulty: u64) -> Block {
    let mut parent = vec![0u8; 32];
    parent[31] = 1;
    let mut root = vec![0u8; 32];
    root[31] = 2;
    Block { version: 1, root: collision_miner::hash::Hash(root), parentid: collision_miner::hash::Hash(parent), difficulty, timestamp: 0, nonces: [0, 0, 0] }
}

fn working_block(difficulty: u64) -> Block {
    make_block_at(&template(difficulty), "abc", 1_000)
}

#[test]
fn fusion_then_probe_completes_the_triple() {
    let mut table = vec![row(5, 10), row(5, 11), row(7, 3)];
    assert_eq!(fuse_runs(&mut table), None);
    assert_eq!(table[0].pre_2, Some(11));
    assert_eq!(table[1].pre_2, None);
    assert_eq!(table[2].pre_2, None);
    assert_eq!(probe(&mut table, 12, 5), Some((10, 11, 12)));
}

#[test]
fn fusion_finds_three_in_a_run() {
    let mut table = vec![row(2, 9), row(5, 1), row(5, 1), row(5, 2), row(5, 3), row(6, 4)];
    assert_eq!(fuse_runs(&mut table), Some((1, 2, 3)));
}

#[test]
fn fusion_ignores_repeated_preimages() {
    let mut table = vec![row(5, 1), row(5, 1), row(5, 1), row(8, 2), row(8, 3)];
    assert_eq!(fuse_runs(&mut table), None);
    assert_eq!(table[0].pre_2, None);
    assert_eq!(table[3].pre_2, Some(3));
}

#[test]
fn fusion_of_empty_and_single_tables() {
    let mut empty: Vec<Triple> = Vec::new();
    assert_eq!(fuse_runs(&mut empty), None);
    let mut one = vec![row(1, 1)];
    assert_eq!(fuse_runs(&mut one), None);
    assert_eq!(one[0].pre_2, None);
}

#[test]
fn probe_outcomes() {
    let mut table = vec![row(1, 4), row(3, 5), row(3, 6), row(9, 7)];
    assert_eq!(probe(&mut table, 5, 3), None);
    assert_eq!(table[1].pre_2, None);
    assert_eq!(probe(&mut table, 8, 3), None);
    assert_eq!(table[1].pre_2, Some(8));
    assert_eq!(table[2].pre_2, None);
    assert_eq!(probe(&mut table, 8, 3), None);
    assert_eq!(probe(&mut table, 20, 4), None);
    assert_eq!(table, vec![row(1, 4), Triple { image: 3, pre_1: 5, pre_2: Some(8) }, row(3, 6), row(9, 7)]);
    assert_eq!(probe(&mut table, 21, 3), Some((5, 8, 21)));
}

#[test]
fn filled_table_is_sorted_and_sound() {
    let b = working_block(10);
    let table = fill_table(&b, 200);
    assert_eq!(table.len(), 200);
    for i in 0..table.len() {
        assert!(table[i].pre_1 < 1024);
        assert_eq!(table[i].pre_2, None);
        assert_eq!(table[i].image, b.image_of(table[i].pre_1));
        if i > 0 {
            assert!(table[i - 1].image <= table[i].image);
        }
    }
}

#[test]
fn feasibility_of_parameters() {
    assert!(MemoParams::new(DEFAULT_ALPHA_MILLI, DEFAULT_BETA_MILLI).is_ok());
    assert!(MemoParams::new(750, 625).is_ok());
    assert_eq!(MemoParams::new(500, 500), Err(ParamError::Infeasible));
    assert_eq!(MemoParams::new(750, 624), Err(ParamError::Infeasible));
    assert_eq!(MemoParams::new(0, 999), Err(ParamError::Infeasible));
    assert_eq!(MemoParams::new(1000, 999), Err(ParamError::Infeasible));
}

#[test]
fn memory_budget() {
    assert!(fits_memory_budget(1 << 20, 4, 32, 128 << 20));
    assert!(!fits_memory_budget(1 << 20, 4, 32, (128 << 20) - 1));
    assert!(!fits_memory_budget(u64::MAX, 2, 32, u64::MAX));
    assert!(fits_memory_budget(u64::MAX, 2, 0, 0));
}

#[test]
fn tiny_difficulty_memoization_solves() {
    let params = MemoParams::new(750, 625).unwrap();
    let mut solution = None;
    for _ in 0..3 {
        let (mut search, fused) = MemoSearch::start(&params, working_block(8), 256, 38);
        if fused.is_some() {
            solution = fused;
            break;
        }
        loop {
            match search.step(false) {
                SearchStep::Continue => {}
                SearchStep::Restart => break,
                SearchStep::Solved(b) => {
                    solution = Some(b);
                    break;
                }
            }
        }
        if solution.is_some() {
            break;
        }
    }
    let b = solution.expect("no solution within three rounds");
    assert!(b.has_valid_proof_of_work());
    assert_eq!(b.difficulty, 8);
    let n = b.nonces;
    assert!(n[0] != n[1] && n[0] != n[2] && n[1] != n[2]);
    assert_eq!(b.image_of(n[0]), b.image_of(n[1]));
    assert_eq!(b.image_of(n[1]), b.image_of(n[2]));
}

#[test]
fn preemption_restarts_without_a_solution() {
    let params = MemoParams::new(DEFAULT_ALPHA_MILLI, DEFAULT_BETA_MILLI).unwrap();
    let mut queue = Queue::new(working_block(20), 100);
    let start_time = 150;
    let (mut search, _) = MemoSearch::start(&params, queue.template(), 64, 1 << 20);
    match search.step(queue.is_preempted(start_time)) {
        SearchStep::Restart => panic!("not preempted yet"),
        _ => {}
    }
    queue.install(working_block(20), 200);
    assert!(queue.is_preempted(start_time));
    let probes = search.probes;
    assert!(matches!(search.step(queue.is_preempted(start_time)), SearchStep::Restart));
    assert_eq!(search.probes, probes);
    assert!(queue.solved_blocks.is_empty());
}

#[test]
fn probe_budget_ends_the_round() {
    let params = MemoParams::new(DEFAULT_ALPHA_MILLI, DEFAULT_BETA_MILLI).unwrap();
    let (mut search, _) = MemoSearch::start(&params, working_block(40), 4, 3);
    let mut steps = 0;
    loop {
        match search.step(false) {
            SearchStep::Restart => break,
            _ => steps += 1,
        }
    }
    assert_eq!(steps, 3);
    assert_eq!(search.probes, 3);
}

#[test]
fn solved_block_keeps_header() {
    let b = working_block(8);
    let s = solved_block(&b, 1, 2, 3);
    assert_eq!(s.nonces, [1, 2, 3]);
    assert_eq!(s.root.to_hex(), b.root.to_hex());
    assert_eq!(s.timestamp, b.timestamp);
    assert_eq!(s.image_of(77), b.image_of(77));
}
