use collision_miner::block::Block;
use collision_miner::chains::{dp_params, dp_round, resolve_chains, resolve_group, walk_chain, ChainTriple};
use collision_miner::memo::solved_block;
use collision_miner::template::make_block_at;

fn working_block(difficulty: u64) -> Block {
    let mut parent = vec![0u8; 32];
    parent[31] = 1;
    let mut root = vec![0u8; 32];
    root[31] = 2;
    let t = Block { version: 1, root: collision_miner::hash::Hash(root), parentid: collision_miner::hash::Hash(parent), difficulty, timestamp: 0, nonces: [0, 0, 0] };
    make_block_at(&t, "abc", 5_000)
}

#[test]
fn chain_parameters() {
    assert_eq!(dp_params(12), (256, 320));
    assert_eq!(dp_params(0), (1, 20));
    assert_eq!(dp_params(1), (2, 40));
    assert_eq!(dp_params(2), (3, 40));
    assert_eq!(dp_params(3), (4, 40));
    assert_eq!(dp_params(64), (6_981_463_658_332, 52_844_920));
}

#[test]
fn walk_stops_at_first_distinguished_point() {
    let b = working_block(12);
    for start in 0..50u64 {
        match walk_chain(&b, start, 256, 320) {
            Some(c) => {
                assert_eq!(c.start_point, start);
                let mut p = start;
                for k in 1..=c.chain_length {
                    p = b.image_of(p);
                    if k < c.chain_length {
                        assert!(p >= 256);
                    }
                }
                assert_eq!(p, c.end_point);
                assert!(c.end_point < 256);
            }
            None => {
                let mut p = start;
                for _ in 0..320 {
                    p = b.image_of(p);
                    assert!(p >= 256);
                }
            }
        }
    }
}

#[test]
fn walk_with_zero_cap_yields_nothing() {
    let b = working_block(12);
    assert_eq!(walk_chain(&b, 3, 4096, 0), None);
    let c = walk_chain(&b, 3, 4096, 1).unwrap();
    assert_eq!(c.chain_length, 1);
    assert_eq!(c.end_point, b.image_of(3));
}

#[test]
fn resolving_needs_three_chains() {
    let b = working_block(12);
    let c = ChainTriple { start_point: 1, end_point: b.image_of(1), chain_length: 1 };
    assert_eq!(resolve_group(&b, &vec![c, c]), None);
    assert_eq!(resolve_group(&b, &vec![]), None);
}

#[test]
fn resolving_finds_a_planted_collision() {
    let b = working_block(8);
    let mut by_image: Vec<Vec<u64>> = vec![Vec::new(); 256];
    let mut found = None;
    for n in 0..5000u64 {
        let img = b.image_of(n) as usize;
        by_image[img].push(n);
        if by_image[img].len() == 3 {
            found = Some((by_image[img][0], by_image[img][1], by_image[img][2]));
            break;
        }
    }
    let (x, y, z) = found.unwrap();
    let end = b.image_of(x);
    let chains = vec![
        ChainTriple { start_point: x, end_point: end, chain_length: 1 },
        ChainTriple { start_point: 999_999, end_point: 0, chain_length: 1 },
        ChainTriple { start_point: y, end_point: end, chain_length: 1 },
        ChainTriple { start_point: z, end_point: end, chain_length: 1 },
    ];
    let (p, q, r) = resolve_chains(&b, &chains).unwrap();
    let mut got = vec![p, q, r];
    got.sort();
    let mut want = vec![x, y, z];
    want.sort();
    assert_eq!(got, want);
    assert!(solved_block(&b, p, q, r).has_valid_proof_of_work());
}

#[test]
fn distinguished_points_solve_difficulty_12() {
    let b = working_block(12);
    let (max_distinguished, max_length) = dp_params(12);
    let mut chains = Vec::new();
    let mut solution = None;
    for _round in 0..60 {
        for _worker in 0..8 {
            if let Some(c) = dp_round(&b, max_distinguished, max_length) {
                assert!(c.start_point < 4096);
                chains.push(c);
            }
        }
        if let Some(s) = resolve_chains(&b, &chains) {
            solution = Some(s);
            break;
        }
    }
    let (x, y, z) = solution.expect("no solution");
    let solved = solved_block(&b, x, y, z);
    assert!(solved.has_valid_proof_of_work());
}
