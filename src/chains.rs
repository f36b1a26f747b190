//! The distinguished-points search: chains of hash iterations that stop at a
//! distinguished point, and the backward walk that turns chains sharing an
//! end into a three-way collision.

use vstd::prelude::*;

use crate::block::{image, Block};
use crate::random::{nonce_space, nonce_space_of, random_below};
use vstd::arithmetic::power2::{
    lemma2_to64, lemma2_to64_rest, lemma_pow2_adds, lemma_pow2_pos, lemma_pow2_strictly_increases,
    lemma_pow2_unfold, pow2,
};

verus! {

/// A chain: `chain_length` hash steps lead from `start_point` to
/// `end_point`.
#[derive(Clone, Copy, Debug, PartialEq, Eq, Structural)]
pub struct ChainTriple {
    pub start_point: u64,
    pub end_point: u64,
    pub chain_length: u64,
}

/// The point `k` hash steps after `p`.
pub open spec fn iterate(b: Block, p: u64, k: nat) -> u64
    decreases k,
{
    if k == 0 {
        p
    } else {
        image(b, iterate(b, p, (k - 1) as nat))
    }
}

/// `r` is the walk from `start`: the chain up to the first point below
/// `max_distinguished` within `max_length` steps, if there is one.
pub open spec fn walk_result(b: Block, start: u64, max_distinguished: u64, max_length: u64, r: Option<ChainTriple>) -> bool {
    &&& r matches Some(c) ==> {
        &&& c.start_point == start
        &&& 1 <= c.chain_length <= max_length
        &&& c.end_point == iterate(b, start, c.chain_length as nat)
        &&& c.end_point < max_distinguished
        &&& forall|k: nat| 1 <= k < c.chain_length ==> #[trigger] iterate(b, start, k) >= max_distinguished
    }
    &&& r is None ==> forall|k: nat|
        1 <= k <= max_length ==> #[trigger] iterate(b, start, k) >= max_distinguished
}

/// Walks from `start` until a point below `max_distinguished` or
/// `max_length` steps. A chain that reaches a distinguished point is
/// returned; the first distinguished point after `start` ends it.
pub fn walk_chain(block: &Block, start: u64, max_distinguished: u64, max_length: u64) -> (r: Option<
    ChainTriple,
>)
    requires
        block.wf(),
    ensures
        walk_result(*block, start, max_distinguished, max_length, r),
{
    let mut point = start;
    let mut len: u64 = 0;
    while len < max_length
        invariant
            block.wf(),
            len <= max_length,
            point == iterate(*block, start, len as nat),
            forall|k: nat| 1 <= k <= len ==> #[trigger] iterate(*block, start, k) >= max_distinguished,
        decreases max_length - len,
    {
        point = block.image_of(point);
        len = len + 1;
        assert(point == iterate(*block, start, len as nat));
        if point < max_distinguished {
            return Some(ChainTriple { start_point: start, end_point: point, chain_length: len });
        }
    }
    None
}

/// One round of a worker: a chain from a random start below
/// `nonce_space(difficulty)`.
pub fn dp_round(block: &Block, max_distinguished: u64, max_length: u64) -> (r: Option<ChainTriple>)
    requires
        block.wf(),
    ensures
        exists|s: u64|
            s < nonce_space(block.difficulty) && #[trigger] walk_result(
                *block,
                s,
                max_distinguished,
                max_length,
                r,
            ),
{
    let bound = nonce_space_of(block.difficulty);
    let start = random_below(bound);
    let r = walk_chain(block, start, max_distinguished, max_length);
    assert(start < nonce_space(block.difficulty));
    r
}

/// Entries `a`, `b`, `c` are active, at pairwise distinct points, with one
/// next point.
pub open spec fn triple_at(curs: Seq<u64>, nexts: Seq<u64>, active: Seq<bool>, a: int, b: int, c: int) -> bool {
    &&& active[a] && active[b] && active[c]
    &&& curs[a] != curs[b] && curs[a] != curs[c] && curs[b] != curs[c]
    &&& nexts[a] == nexts[b] && nexts[b] == nexts[c]
}

/// Some three entries for which `triple_at` holds, if any.
fn find_triple(curs: &Vec<u64>, nexts: &Vec<u64>, active: &Vec<bool>) -> (r: Option<(usize, usize, usize)>)
    requires
        curs@.len() == nexts@.len(),
        curs@.len() == active@.len(),
    ensures
        r matches Some((a, b, c)) ==> a < curs@.len() && b < curs@.len() && c < curs@.len()
            && triple_at(curs@, nexts@, active@, a as int, b as int, c as int),
        r is None ==> forall|a: int, b: int, c: int|
            0 <= a < curs@.len() && 0 <= b < curs@.len() && 0 <= c < curs@.len() ==> !#[trigger] triple_at(
                curs@,
                nexts@,
                active@,
                a,
                b,
                c,
            ),
{
    let m = curs.len();
    let mut a: usize = 0;
    while a < m
        invariant
            m == curs@.len(),
            m == nexts@.len(),
            m == active@.len(),
            a <= m,
            forall|x: int, y: int, z: int|
                0 <= x < a && 0 <= y < m && 0 <= z < m ==> !#[trigger] triple_at(curs@, nexts@, active@, x, y, z),
        decreases m - a,
    {
        let mut b: usize = 0;
        while b < m
            invariant
                m == curs@.len(),
                m == nexts@.len(),
                m == active@.len(),
                a < m,
                b <= m,
                forall|x: int, y: int, z: int|
                    0 <= x < a && 0 <= y < m && 0 <= z < m ==> !#[trigger] triple_at(curs@, nexts@, active@, x, y, z),
                forall|y: int, z: int|
                    0 <= y < b && 0 <= z < m ==> !#[trigger] triple_at(curs@, nexts@, active@, a as int, y, z),
            decreases m - b,
        {
            let mut c: usize = 0;
            while c < m
                invariant
                    m == curs@.len(),
                    m == nexts@.len(),
                    m == active@.len(),
                    a < m,
                    b < m,
                    c <= m,
                    forall|x: int, y: int, z: int|
                        0 <= x < a && 0 <= y < m && 0 <= z < m ==> !#[trigger] triple_at(curs@, nexts@, active@, x, y, z),
                    forall|y: int, z: int|
                        0 <= y < b && 0 <= z < m ==> !#[trigger] triple_at(curs@, nexts@, active@, a as int, y, z),
                    forall|z: int| 0 <= z < c ==> !#[trigger] triple_at(curs@, nexts@, active@, a as int, b as int, z),
                decreases m - c,
            {
                if active[a] && active[b] && active[c] && curs[a] != curs[b] && curs[a] != curs[c]
                    && curs[b] != curs[c] && nexts[a] == nexts[b] && nexts[b] == nexts[c] {
                    return Some((a, b, c));
                }
                c = c + 1;
            }
            b = b + 1;
        }
        a = a + 1;
    }
    None
}

/// The point of chain `c` that lies `k` steps before its end.
pub open spec fn point_at(b: Block, c: ChainTriple, k: nat) -> u64 {
    iterate(b, c.start_point, (c.chain_length - k) as nat)
}

/// Chains `x`, `y`, `z` are at least `k` long, and their points `k` steps
/// before their ends are pairwise distinct and share one image.
pub open spec fn meet_at(b: Block, x: ChainTriple, y: ChainTriple, z: ChainTriple, k: nat) -> bool {
    &&& 1 <= k
    &&& k <= x.chain_length && k <= y.chain_length && k <= z.chain_length
    &&& point_at(b, x, k) != point_at(b, y, k)
    &&& point_at(b, x, k) != point_at(b, z, k)
    &&& point_at(b, y, k) != point_at(b, z, k)
    &&& image(b, point_at(b, x, k)) == image(b, point_at(b, y, k))
    &&& image(b, point_at(b, y, k)) == image(b, point_at(b, z, k))
}

/// `x`, `y`, `z` are pairwise distinct nonces with one image.
pub open spec fn collision(b: Block, x: u64, y: u64, z: u64) -> bool {
    &&& x != y && x != z && y != z
    &&& image(b, x) == image(b, y) && image(b, y) == image(b, z)
}

/// Walks a group of chains back from their ends in step: at distance `k`
/// from the end, for `k` from the longest length down to 1, every chain at
/// least `k` long stands at its point `k` steps before its end. Three chains
/// at distinct points with one image there give a collision.
pub fn resolve_group(block: &Block, group: &Vec<ChainTriple>) -> (r: Option<(u64, u64, u64)>)
    requires
        block.wf(),
    ensures
        r matches Some((x, y, z)) ==> collision(*block, x, y, z),
        r is None ==> forall|a: int, b: int, c: int, k: nat|
            0 <= a < group@.len() && 0 <= b < group@.len() && 0 <= c < group@.len()
                ==> !#[trigger] meet_at(*block, group@[a], group@[b], group@[c], k),
{
    let m = group.len();
    let mut max_len: u64 = 0;
    let mut curs: Vec<u64> = Vec::new();
    let mut i: usize = 0;
    while i < m
        invariant
            m == group@.len(),
            i <= m,
            curs@.len() == i,
            forall|c: int| 0 <= c < i ==> (#[trigger] group@[c]).chain_length <= max_len,
            forall|c: int| 0 <= c < i ==> #[trigger] curs@[c] == group@[c].start_point,
        decreases m - i,
    {
        if group[i].chain_length > max_len {
            max_len = group[i].chain_length;
        }
        curs.push(group[i].start_point);
        i = i + 1;
    }
    let mut k: u64 = max_len;
    while k > 0
        invariant
            block.wf(),
            m == group@.len(),
            curs@.len() == m,
            k <= max_len,
            forall|c: int| 0 <= c < m ==> (#[trigger] group@[c]).chain_length <= max_len,
            forall|c: int|
                0 <= c < m && group@[c].chain_length >= k ==> #[trigger] curs@[c] == point_at(
                    *block,
                    group@[c],
                    k as nat,
                ),
            forall|c: int|
                0 <= c < m && group@[c].chain_length < k ==> #[trigger] curs@[c] == group@[c].start_point,
            forall|a: int, b: int, c: int, kk: nat|
                0 <= a < m && 0 <= b < m && 0 <= c < m && k < kk ==> !#[trigger] meet_at(
                    *block,
                    group@[a],
                    group@[b],
                    group@[c],
                    kk,
                ),
        decreases k,
    {
        let mut nexts: Vec<u64> = Vec::new();
        let mut active: Vec<bool> = Vec::new();
        let mut j: usize = 0;
        while j < m
            invariant
                block.wf(),
                m == group@.len(),
                curs@.len() == m,
                j <= m,
                nexts@.len() == j,
                active@.len() == j,
                forall|c: int|
                    0 <= c < j ==> (#[trigger] active@[c] == (group@[c].chain_length >= k)),
                forall|c: int|
                    0 <= c < j ==> #[trigger] nexts@[c] == if group@[c].chain_length >= k {
                        image(*block, curs@[c])
                    } else {
                        curs@[c]
                    },
            decreases m - j,
        {
            if group[j].chain_length >= k {
                nexts.push(block.image_of(curs[j]));
                active.push(true);
            } else {
                nexts.push(curs[j]);
                active.push(false);
            }
            j = j + 1;
        }
        match find_triple(&curs, &nexts, &active) {
            Some((a, b, c)) => {
                return Some((curs[a], curs[b], curs[c]));
            },
            None => {},
        }
        proof {
            assert forall|a: int, b: int, c: int, kk: nat|
                0 <= a < m && 0 <= b < m && 0 <= c < m && k - 1 < kk implies !#[trigger] meet_at(
                    *block,
                    group@[a],
                    group@[b],
                    group@[c],
                    kk,
                ) by {
                if kk == k && meet_at(*block, group@[a], group@[b], group@[c], kk) {
                    assert(triple_at(curs@, nexts@, active@, a, b, c));
                }
            }
        }
        let mut j: usize = 0;
        let ghost prev = curs@;
        while j < m
            invariant
                block.wf(),
                m == group@.len(),
                curs@.len() == m,
                nexts@.len() == m,
                j <= m,
                k >= 1,
                forall|c: int| 0 <= c < j && group@[c].chain_length >= k ==> #[trigger] curs@[c] == nexts@[c],
                forall|c: int| j <= c < m ==> #[trigger] curs@[c] == prev[c],
                forall|c: int| 0 <= c < j && group@[c].chain_length < k ==> #[trigger] curs@[c] == prev[c],
            decreases m - j,
        {
            if group[j].chain_length >= k {
                curs.set(j, nexts[j]);
            }
            j = j + 1;
        }
        proof {
            assert forall|c: int|
                0 <= c < m && group@[c].chain_length >= k - 1 implies #[trigger] curs@[c] == point_at(
                *block,
                group@[c],
                (k - 1) as nat,
            ) by {
                let len = group@[c].chain_length;
                if len >= k {
                    assert((len - (k - 1)) as nat - 1 == (len - k) as nat);
                } else {
                    assert(len - (k - 1) == 0);
                }
            }
        }
        k = k - 1;
    }
    None
}

/// Resolves every group of chains that share an end. A collision found in a
/// group is returned; without one, no three chains with one end meet.
pub fn resolve_chains(block: &Block, chains: &Vec<ChainTriple>) -> (r: Option<(u64, u64, u64)>)
    requires
        block.wf(),
    ensures
        r matches Some((x, y, z)) ==> collision(*block, x, y, z),
        r is None ==> forall|a: int, b: int, c: int, k: nat|
            0 <= a < chains@.len() && 0 <= b < chains@.len() && 0 <= c < chains@.len()
                && chains@[b].end_point == chains@[a].end_point && chains@[c].end_point
                == chains@[a].end_point ==> !#[trigger] meet_at(*block, chains@[a], chains@[b], chains@[c], k),
{
    let n = chains.len();
    let mut i: usize = 0;
    while i < n
        invariant
            block.wf(),
            n == chains@.len(),
            i <= n,
            forall|a: int, b: int, c: int, k: nat|
                0 <= a < i && 0 <= b < n && 0 <= c < n && chains@[b].end_point == chains@[a].end_point
                    && chains@[c].end_point == chains@[a].end_point ==> !#[trigger] meet_at(
                    *block,
                    chains@[a],
                    chains@[b],
                    chains@[c],
                    k,
                ),
        decreases n - i,
    {
        let end = chains[i].end_point;
        let mut group: Vec<ChainTriple> = Vec::new();
        let mut j: usize = 0;
        while j < n
            invariant
                n == chains@.len(),
                j <= n,
                end == chains@[i as int].end_point,
                i < n,
                forall|x: int|
                    0 <= x < j && chains@[x].end_point == end ==> exists|g: int|
                        0 <= g < group@.len() && #[trigger] group@[g] == chains@[x],
            decreases n - j,
        {
            let ghost prev = group@;
            if chains[j].end_point == end {
                group.push(chains[j]);
            }
            proof {
                assert forall|x: int| 0 <= x < j + 1 && chains@[x].end_point == end implies exists|g: int|
                    0 <= g < group@.len() && #[trigger] group@[g] == chains@[x] by {
                    if x < j {
                        let g = choose|g: int| 0 <= g < prev.len() && #[trigger] prev[g] == chains@[x];
                        assert(group@[g] == prev[g]);
                    } else {
                        assert(group@[group@.len() - 1] == chains@[x]);
                    }
                }
            }
            j = j + 1;
        }
        match resolve_group(block, &group) {
            Some(t) => {
                return Some(t);
            },
            None => {},
        }
        proof {
            assert forall|a: int, b: int, c: int, k: nat|
                0 <= a < i + 1 && 0 <= b < n && 0 <= c < n && chains@[b].end_point == chains@[a].end_point
                    && chains@[c].end_point == chains@[a].end_point implies !#[trigger] meet_at(
                    *block,
                    chains@[a],
                    chains@[b],
                    chains@[c],
                    k,
                ) by {
                if a == i {
                    let ga = choose|g: int| 0 <= g < group@.len() && #[trigger] group@[g] == chains@[a];
                    let gb = choose|g: int| 0 <= g < group@.len() && #[trigger] group@[g] == chains@[b];
                    let gc = choose|g: int| 0 <= g < group@.len() && #[trigger] group@[g] == chains@[c];
                    assert(!meet_at(*block, group@[ga], group@[gb], group@[gc], k));
                }
            }
        }
        i = i + 1;
    }
    None
}

/// `m` is `⌈2^(e/3)⌉`: the least number whose cube is at least `2^e`.
pub open spec fn is_ceil_cube_root_pow2(m: nat, e: nat) -> bool {
    &&& m * m * m >= pow2(e)
    &&& (m == 0 || (m - 1) * (m - 1) * (m - 1) < pow2(e))
}

proof fn lemma_pow2_128()
    ensures
        pow2(128) == 0x1_0000_0000_0000_0000_0000_0000_0000_0000,
        pow2(127) == 0x8000_0000_0000_0000_0000_0000_0000_0000,
        pow2(129) == 0x80000000000 * 0x80000000000 * 0x80000000000,
{
    lemma2_to64();
    lemma2_to64_rest();
    lemma_pow2_adds(64, 64);
    lemma_pow2_adds(64, 63);
    lemma_pow2_adds(43, 43);
    lemma_pow2_adds(86, 43);
}

/// `2^e` as a 128-bit integer.
fn pow2_u128(e: u64) -> (r: u128)
    requires
        e <= 127,
    ensures
        r == pow2(e as nat),
{
    let mut t: u128 = 1;
    let mut i: u64 = 0;
    proof {
        lemma2_to64();
        lemma_pow2_128();
    }
    while i < e
        invariant
            i <= e <= 127,
            t == pow2(i as nat),
            pow2(127) == 0x8000_0000_0000_0000_0000_0000_0000_0000,
        decreases e - i,
    {
        proof {
            lemma_pow2_unfold((i + 1) as nat);
            if i + 1 < 127 {
                lemma_pow2_strictly_increases((i + 1) as nat, 127);
            }
        }
        t = t * 2;
        i = i + 1;
    }
    t
}

/// Whether `m^3 >= 2^e`.
fn cube_at_least(m: u64, e: u64) -> (r: bool)
    requires
        m <= 0x80000000000,
        e <= 128,
    ensures
        r == (m * m * m >= pow2(e as nat)),
{
    assert((m as int) * (m as int) <= 0x80000000000 * 0x80000000000) by (nonlinear_arith)
        requires
            m <= 0x80000000000,
    ;
    let mm: u128 = (m as u128) * (m as u128);
    proof {
        lemma_pow2_128();
        if e < 128 {
            lemma_pow2_strictly_increases(e as nat, 128);
        }
    }
    match mm.checked_mul(m as u128) {
        None => true,
        Some(c) => {
            if e == 128 {
                false
            } else {
                c >= pow2_u128(e)
            }
        },
    }
}

/// `⌈2^(e/3)⌉`.
fn ceil_cube_root_pow2(e: u64) -> (r: u64)
    requires
        e <= 128,
    ensures
        is_ceil_cube_root_pow2(r as nat, e as nat),
        r <= 0x80000000000,
{
    let mut lo: u64 = 0;
    let mut hi: u64 = 0x80000000000;
    proof {
        lemma_pow2_128();
        lemma_pow2_pos(e as nat);
        if e < 129 {
            lemma_pow2_strictly_increases(e as nat, 129);
        }
    }
    while hi - lo > 1
        invariant
            lo < hi <= 0x80000000000,
            e <= 128,
            lo * lo * lo < pow2(e as nat),
            hi * hi * hi >= pow2(e as nat),
        decreases hi - lo,
    {
        let mid = lo + (hi - lo) / 2;
        if cube_at_least(mid, e) {
            hi = mid;
        } else {
            lo = mid;
        }
    }
    assert(hi - 1 == lo);
    hi
}

/// The chain parameters at difficulty `d`: the distinguished bound
/// `⌈2^(2d/3)⌉` and the chain cap `20 * ⌈2^(d/3)⌉`.
pub fn dp_params(d: u64) -> (r: (u64, u64))
    requires
        d <= 64,
    ensures
        is_ceil_cube_root_pow2(r.0 as nat, 2 * d as nat),
        r.1 % 20 == 0,
        is_ceil_cube_root_pow2((r.1 / 20) as nat, d as nat),
{
    let max_distinguished = ceil_cube_root_pow2(2 * d);
    let step = ceil_cube_root_pow2(d);
    (max_distinguished, 20 * step)
}

} // verus!
