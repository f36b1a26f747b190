//! The memoization search: a table of images and preimages, sorted by image,
//! whose runs are fused into pairs and then probed with fresh nonces until
//! three preimages of one image turn up.

use vstd::prelude::*;

use crate::block::{image, pow_valid, Block};
use crate::order::{lemma_sorted_from, pair_le, sort_pairs};
use crate::random::{nonce_space, nonce_space_of, random_below};

verus! {

/// A row of the table: an image and up to two distinct preimages of it.
#[derive(Clone, Copy, Debug, PartialEq, Eq, Structural)]
pub struct Triple {
    pub image: u64,
    pub pre_1: u64,
    pub pre_2: Option<u64>,
}

/// Rows in ascending order of image.
pub open spec fn sorted_by_image(s: Seq<Triple>) -> bool {
    forall|i: int, j: int| 0 <= i <= j < s.len() ==> s[i].image <= s[j].image
}

/// No row holds a second preimage yet.
pub open spec fn unfused(s: Seq<Triple>) -> bool {
    forall|i: int| 0 <= i < s.len() ==> (#[trigger] s[i]).pre_2 is None
}

/// Some row of `s` has first preimage `p` and image `img`.
pub open spec fn preimage_in(s: Seq<Triple>, p: u64, img: u64) -> bool {
    exists|k: int| 0 <= k < s.len() && (#[trigger] s[k]).pre_1 == p && s[k].image == img
}

/// Each row's preimages map to its image under `b`, and a second preimage
/// differs from the first.
pub open spec fn table_sound(b: Block, s: Seq<Triple>) -> bool {
    forall|i: int|
        0 <= i < s.len() ==> {
            &&& image(b, (#[trigger] s[i]).pre_1) == s[i].image
            &&& (s[i].pre_2 matches Some(p) ==> p != s[i].pre_1 && image(b, p) == s[i].image)
        }
}

/// Every preimage in the table lies below `bound`.
pub open spec fn table_bounded(s: Seq<Triple>, bound: u64) -> bool {
    forall|i: int|
        0 <= i < s.len() ==> (#[trigger] s[i]).pre_1 < bound && (s[i].pre_2 matches Some(p) ==> p
            < bound)
}

/// The block's nonces all lie below `bound`.
pub open spec fn nonces_below(b: Block, bound: u64) -> bool {
    forall|i: int| 0 <= i < 3 ==> #[trigger] b.nonces@[i] < bound
}

/// Row `j` is the first whose image is `img`.
pub open spec fn first_with_image(s: Seq<Triple>, img: u64, j: int) -> bool {
    &&& 0 <= j < s.len()
    &&& s[j].image == img
    &&& forall|k: int| 0 <= k < j ==> (#[trigger] s[k]).image != img
}

/// What probing row `t` with a nonce `a` of the same image gives: a solution
/// when the row already holds two preimages other than `a`; otherwise `a`
/// becomes the row's second preimage if it has none and `a` is new.
pub open spec fn probe_outcome(t: Triple, a: u64) -> (Option<(u64, u64, u64)>, Triple) {
    if t.pre_1 == a {
        (None, t)
    } else {
        match t.pre_2 {
            None => (None, Triple { pre_2: Some(a), ..t }),
            Some(p) => if p == a {
                (None, t)
            } else {
                (Some((t.pre_1, p, a)), t)
            },
        }
    }
}

/// `new` and `res` are what probing `old` with nonce `a` of image `b` gives:
/// nothing changes without a row of image `b`, and otherwise the first such
/// row is treated as `probe_outcome` says.
pub open spec fn probed(old: Seq<Triple>, new: Seq<Triple>, a: u64, b: u64, res: Option<(u64, u64, u64)>) -> bool {
    &&& (forall|k: int| 0 <= k < old.len() ==> (#[trigger] old[k]).image != b) ==> res is None && new
        == old
    &&& forall|j: int|
        #[trigger] first_with_image(old, b, j) ==> res == probe_outcome(old[j], a).0 && new
            == old.update(j, probe_outcome(old[j], a).1)
}

/// The first row whose image is at least `img`, or the length.
fn lower_bound(table: &Vec<Triple>, img: u64) -> (r: usize)
    requires
        sorted_by_image(table@),
    ensures
        r <= table@.len(),
        forall|k: int| 0 <= k < r ==> (#[trigger] table@[k]).image < img,
        forall|k: int| r <= k < table@.len() ==> (#[trigger] table@[k]).image >= img,
{
    let mut lo: usize = 0;
    let mut hi: usize = table.len();
    while lo < hi
        invariant
            lo <= hi <= table@.len(),
            sorted_by_image(table@),
            forall|k: int| 0 <= k < lo ==> (#[trigger] table@[k]).image < img,
            forall|k: int| hi <= k < table@.len() ==> (#[trigger] table@[k]).image >= img,
        decreases hi - lo,
    {
        let mid = lo + (hi - lo) / 2;
        if table[mid].image < img {
            lo = mid + 1;
        } else {
            hi = mid;
        }
    }
    lo
}

/// Probes the table with nonce `a`, whose image is `b`: the first row with
/// image `b`, if any, is updated or yields a solution as `probe_outcome`
/// says.
pub fn probe(table: &mut Vec<Triple>, a: u64, b: u64) -> (r: Option<(u64, u64, u64)>)
    requires
        sorted_by_image(old(table)@),
    ensures
        (forall|k: int| 0 <= k < old(table)@.len() ==> (#[trigger] old(table)@[k]).image != b)
            ==> r is None && final(table)@ == old(table)@,
        forall|j: int|
            #[trigger] first_with_image(old(table)@, b, j) ==> r == probe_outcome(old(table)@[j], a).0
                && final(table)@ == old(table)@.update(j, probe_outcome(old(table)@[j], a).1),
        (exists|k: int| 0 <= k < old(table)@.len() && (#[trigger] old(table)@[k]).image == b)
            ==> exists|j: int| first_with_image(old(table)@, b, j),
{
    let j = lower_bound(table, b);
    if j >= table.len() || table[j].image != b {
        assert forall|k: int| 0 <= k < table@.len() implies (#[trigger] table@[k]).image != b by {
            if k >= j {
                assert(table@[j as int].image <= table@[k].image);
            }
        }
        return None;
    }
    proof {
        assert(first_with_image(table@, b, j as int));
        assert forall|j2: int| #[trigger] first_with_image(table@, b, j2) implies j2 == j by {
            if j2 < j {
                assert(table@[j2].image < b);
            } else if j2 > j {
                assert(table@[j as int].image == b);
            }
        }
    }
    let t = table[j];
    if t.pre_1 == a {
        return None;
    }
    match t.pre_2 {
        None => {
            table.set(j, Triple { pre_2: Some(a), ..t });
            None
        },
        Some(p) => {
            if p == a {
                None
            } else {
                Some((t.pre_1, p, a))
            }
        },
    }
}

/// Rows `a`, `b` and `c` share one image and have three distinct first
/// preimages.
pub open spec fn three_preimages(s: Seq<Triple>, a: int, b: int, c: int) -> bool {
    &&& s[a].image == s[b].image
    &&& s[b].image == s[c].image
    &&& s[a].pre_1 != s[b].pre_1
    &&& s[a].pre_1 != s[c].pre_1
    &&& s[b].pre_1 != s[c].pre_1
}

/// Row `h` starts a run of equal images.
pub open spec fn run_head(s: Seq<Triple>, h: int) -> bool {
    h == 0 || s[h - 1].image != s[h].image
}

/// `x`, `y` and `z` are pairwise distinct first preimages of one image in `s`.
pub open spec fn fused_solution(s: Seq<Triple>, x: u64, y: u64, z: u64) -> bool {
    &&& x != y && x != z && y != z
    &&& exists|img: u64| preimage_in(s, x, img) && preimage_in(s, y, img) && preimage_in(s, z, img)
}

/// Rows keep their image and first preimage; a second preimage, where one
/// was set, is another first preimage of the same image.
pub open spec fn fused_from(old: Seq<Triple>, new: Seq<Triple>) -> bool {
    &&& new.len() == old.len()
    &&& forall|k: int|
        0 <= k < new.len() ==> (#[trigger] new[k]).image == old[k].image && new[k].pre_1
            == old[k].pre_1
    &&& forall|k: int|
        0 <= k < new.len() ==> ((#[trigger] new[k]).pre_2 matches Some(p) ==> p != old[k].pre_1
            && preimage_in(old, p, old[k].image))
}

/// Scans each run of equal images in a sorted table whose rows hold one
/// preimage each. The run's first row takes the first other preimage as its
/// second; a third distinct preimage is a solution, returned at once.
/// Without a solution, no image has three distinct preimages in the table,
/// and the first row of every run with two has its second set.
pub fn fuse_runs(table: &mut Vec<Triple>) -> (r: Option<(u64, u64, u64)>)
    requires
        sorted_by_image(old(table)@),
        unfused(old(table)@),
    ensures
        fused_from(old(table)@, final(table)@),
        r matches Some((x, y, z)) ==> fused_solution(old(table)@, x, y, z),
        r is None ==> forall|a: int, b: int, c: int|
            0 <= a < old(table)@.len() && 0 <= b < old(table)@.len() && 0 <= c < old(table)@.len()
                ==> !#[trigger] three_preimages(old(table)@, a, b, c),
        r is None ==> forall|h: int, k: int|
            0 <= h < old(table)@.len() && 0 <= k < old(table)@.len() && run_head(old(table)@, h)
                && (#[trigger] old(table)@[k]).image == old(table)@[h].image && old(table)@[k].pre_1
                != old(table)@[h].pre_1 ==> (#[trigger] final(table)@[h]).pre_2 is Some,
{
    let ghost s0 = table@;
    let n = table.len();
    let mut i: usize = 0;
    while i < n
        invariant
            n == table@.len(),
            i <= n,
            s0 == old(table)@,
            sorted_by_image(s0),
            unfused(s0),
            fused_from(s0, table@),
            forall|k: int| i <= k < n ==> (#[trigger] table@[k]).pre_2 is None,
            0 < i < n ==> s0[i - 1].image != s0[i as int].image,
            forall|a: int, b: int, c: int|
                0 <= a < i && 0 <= b < i && 0 <= c < i ==> !#[trigger] three_preimages(s0, a, b, c),
            forall|h: int, k: int|
                0 <= h < i && 0 <= k < i && run_head(s0, h) && (#[trigger] s0[k]).image
                    == s0[h].image && s0[k].pre_1 != s0[h].pre_1 ==> (#[trigger] table@[h]).pre_2 is Some,
        decreases n - i,
    {
        let ghost before = table@;
        let mut j: usize = i + 1;
        while j < n && table[j].image == table[i].image
            invariant
                n == table@.len(),
                i < j <= n,
                sorted_by_image(s0),
                fused_from(s0, table@),
                forall|k: int| i < k < n ==> (#[trigger] table@[k]).pre_2 is None,
                forall|k: int| i <= k < j ==> (#[trigger] s0[k]).image == s0[i as int].image,
                table@[i as int].pre_2 is None ==> forall|k: int|
                    i <= k < j ==> (#[trigger] s0[k]).pre_1 == s0[i as int].pre_1,
                table@[i as int].pre_2 matches Some(p) ==> forall|k: int|
                    i <= k < j ==> (#[trigger] s0[k]).pre_1 == s0[i as int].pre_1
                        || s0[k].pre_1 == p,
                s0 == old(table)@,
                forall|k: int| 0 <= k < n && k != i ==> #[trigger] table@[k] == before[k],
            decreases n - j,
        {
            let ti = table[i];
            let tj = table[j];
            if ti.pre_1 != tj.pre_1 {
                match ti.pre_2 {
                    None => {
                        proof {
                            assert(preimage_in(s0, tj.pre_1, s0[i as int].image)) by {
                                assert(s0[j as int].pre_1 == tj.pre_1);
                            }
                        }
                        table.set(i, Triple { pre_2: Some(tj.pre_1), ..ti });
                    },
                    Some(p) => {
                        if p != tj.pre_1 {
                            proof {
                                let img = s0[i as int].image;
                                assert(preimage_in(s0, ti.pre_1, img)) by {
                                    assert(s0[i as int].pre_1 == ti.pre_1);
                                }
                                assert(preimage_in(s0, tj.pre_1, img)) by {
                                    assert(s0[j as int].pre_1 == tj.pre_1);
                                }
                                assert(preimage_in(s0, p, img));
                            }
                            return Some((ti.pre_1, p, tj.pre_1));
                        }
                    },
                }
            }
            j = j + 1;
        }
        proof {
            let ii = i as int;
            let jj = j as int;
            assert(jj < n ==> s0[jj].image != s0[ii].image);
            assert forall|a: int, b: int, c: int|
                0 <= a < jj && 0 <= b < jj && 0 <= c < jj implies !#[trigger] three_preimages(s0, a, b, c) by {
                if three_preimages(s0, a, b, c) {
                    if a >= ii && b >= ii && c >= ii {
                    } else if a < ii && (b >= ii || c >= ii) {
                        assert(s0[a].image <= s0[ii - 1].image);
                        assert(s0[ii - 1].image <= s0[ii].image);
                    } else if b < ii && (a >= ii || c >= ii) {
                        assert(s0[b].image <= s0[ii - 1].image);
                        assert(s0[ii - 1].image <= s0[ii].image);
                    } else if c < ii && (a >= ii || b >= ii) {
                        assert(s0[c].image <= s0[ii - 1].image);
                        assert(s0[ii - 1].image <= s0[ii].image);
                    }
                }
            }
            assert forall|h: int, k: int|
                0 <= h < jj && 0 <= k < jj && run_head(s0, h) && (#[trigger] s0[k]).image
                    == s0[h].image && s0[k].pre_1 != s0[h].pre_1 implies (#[trigger] table@[h]).pre_2 is Some by {
                if h < ii && k >= ii {
                    assert(s0[h].image <= s0[ii - 1].image);
                    assert(s0[ii - 1].image <= s0[ii].image);
                } else if h >= ii && k < ii {
                    assert(s0[k].image <= s0[ii - 1].image);
                    assert(s0[ii - 1].image <= s0[ii].image);
                } else if h > ii {
                    assert(s0[h - 1].image == s0[ii].image);
                }
            }
        }
        i = j;
    }
    None
}

/// Fusing keeps a table sound.
pub proof fn lemma_fused_sound(b: Block, old: Seq<Triple>, new: Seq<Triple>)
    requires
        table_sound(b, old),
        fused_from(old, new),
    ensures
        table_sound(b, new),
{
    assert forall|i: int| 0 <= i < new.len() implies {
        &&& image(b, (#[trigger] new[i]).pre_1) == new[i].image
        &&& (new[i].pre_2 matches Some(p) ==> p != new[i].pre_1 && image(b, p) == new[i].image)
    } by {
        if new[i].pre_2 is Some {
            let p = new[i].pre_2->0;
            let k = choose|k: int| 0 <= k < old.len() && (#[trigger] old[k]).pre_1 == p && old[k].image == old[i].image;
            assert(image(b, old[k].pre_1) == old[k].image);
        }
    }
}

/// A fused solution of a sound table is a three-way collision.
pub proof fn lemma_fused_solution_collides(b: Block, s: Seq<Triple>, x: u64, y: u64, z: u64)
    requires
        table_sound(b, s),
        fused_solution(s, x, y, z),
    ensures
        image(b, x) == image(b, y),
        image(b, y) == image(b, z),
{
    let img = choose|img: u64| preimage_in(s, x, img) && preimage_in(s, y, img) && preimage_in(s, z, img);
    let kx = choose|k: int| 0 <= k < s.len() && (#[trigger] s[k]).pre_1 == x && s[k].image == img;
    let ky = choose|k: int| 0 <= k < s.len() && (#[trigger] s[k]).pre_1 == y && s[k].image == img;
    let kz = choose|k: int| 0 <= k < s.len() && (#[trigger] s[k]).pre_1 == z && s[k].image == img;
    assert(image(b, s[kx].pre_1) == s[kx].image);
    assert(image(b, s[ky].pre_1) == s[ky].image);
    assert(image(b, s[kz].pre_1) == s[kz].image);
}

/// A run of exactly two rows `a < b` with image `v` and distinct preimages,
/// in a sorted table fused into `new` with result `r` as `fuse_runs`
/// promises: no solution has its three preimages at image `v`, and without
/// a solution the run's first row holds the second row's preimage.
pub proof fn lemma_two_preimage_run(
    old: Seq<Triple>,
    new: Seq<Triple>,
    r: Option<(u64, u64, u64)>,
    v: u64,
    a: int,
    b: int,
)
    requires
        sorted_by_image(old),
        fused_from(old, new),
        r matches Some((x, y, z)) ==> fused_solution(old, x, y, z),
        r is None ==> forall|h: int, k: int|
            0 <= h < old.len() && 0 <= k < old.len() && run_head(old, h) && (#[trigger] old[k]).image
                == old[h].image && old[k].pre_1 != old[h].pre_1 ==> (#[trigger] new[h]).pre_2 is Some,
        0 <= a < b < old.len(),
        old[a].image == v,
        old[b].image == v,
        old[a].pre_1 != old[b].pre_1,
        forall|k: int| 0 <= k < old.len() && (#[trigger] old[k]).image == v ==> k == a || k == b,
    ensures
        r matches Some((x, y, z)) ==> !(preimage_in(old, x, v) && preimage_in(old, y, v)
            && preimage_in(old, z, v)),
        r is None ==> new[a].pre_2 == Some(old[b].pre_1),
{
    if let Some((x, y, z)) = r {
        if preimage_in(old, x, v) && preimage_in(old, y, v) && preimage_in(old, z, v) {
            let kx = choose|k: int| 0 <= k < old.len() && (#[trigger] old[k]).pre_1 == x && old[k].image == v;
            let ky = choose|k: int| 0 <= k < old.len() && (#[trigger] old[k]).pre_1 == y && old[k].image == v;
            let kz = choose|k: int| 0 <= k < old.len() && (#[trigger] old[k]).pre_1 == z && old[k].image == v;
            assert(kx == a || kx == b);
            assert(ky == a || ky == b);
            assert(kz == a || kz == b);
        }
    }
    if r is None {
        if a > 0 {
            assert(old[a - 1].image != v);
        }
        assert(run_head(old, a));
        assert(new[a].pre_2 is Some);
        let p = new[a].pre_2->0;
        let k = choose|k: int| 0 <= k < old.len() && (#[trigger] old[k]).pre_1 == p && old[k].image == old[a].image;
        assert(k == a || k == b);
    }
}

/// Draws `n_alpha` nonces below `nonce_space(difficulty)` and returns their
/// rows, sorted by image, each with one preimage.
pub fn fill_table(block: &Block, n_alpha: usize) -> (r: Vec<Triple>)
    requires
        block.wf(),
    ensures
        r@.len() == n_alpha,
        sorted_by_image(r@),
        unfused(r@),
        table_sound(*block, r@),
        forall|i: int| 0 <= i < r@.len() ==> (#[trigger] r@[i]).pre_1 < nonce_space(block.difficulty),
{
    let bound = nonce_space_of(block.difficulty);
    let mut pairs: Vec<(u64, u64)> = Vec::new();
    let mut i: usize = 0;
    while i < n_alpha
        invariant
            block.wf(),
            bound == nonce_space(block.difficulty),
            bound > 0,
            i <= n_alpha,
            pairs@.len() == i,
            forall|k: int|
                0 <= k < pairs@.len() ==> image(*block, (#[trigger] pairs@[k]).1) == pairs@[k].0
                    && pairs@[k].1 < bound,
        decreases n_alpha - i,
    {
        let a = random_below(bound);
        let img = block.image_of(a);
        pairs.push((img, a));
        i = i + 1;
    }
    let ghost before = pairs@;
    sort_pairs(&mut pairs);
    proof {
        assert forall|k: int| 0 <= k < pairs@.len() implies image(*block, (#[trigger] pairs@[k]).1)
            == pairs@[k].0 && pairs@[k].1 < bound by {
            lemma_sorted_from(before, pairs@, k);
            let m = choose|m: int| 0 <= m < before.len() && before[m] == pairs@[k];
        }
        if pairs@.len() > 0 {
            lemma_sorted_from(before, pairs@, 0);
        } else {
            before.to_multiset_ensures();
            pairs@.to_multiset_ensures();
        }
    }
    let mut table: Vec<Triple> = Vec::new();
    let mut k: usize = 0;
    while k < pairs.len()
        invariant
            k <= pairs@.len(),
            pairs@.len() == n_alpha,
            table@.len() == k,
            forall|m: int|
                0 <= m < k ==> #[trigger] table@[m] == (Triple {
                    image: pairs@[m].0,
                    pre_1: pairs@[m].1,
                    pre_2: None,
                }),
        decreases pairs@.len() - k,
    {
        let p = pairs[k];
        table.push(Triple { image: p.0, pre_1: p.1, pre_2: None });
        k = k + 1;
    }
    proof {
        assert forall|x: int, y: int| 0 <= x <= y < table@.len() implies table@[x].image
            <= table@[y].image by {
            assert(pair_le(pairs@[x], pairs@[y]));
        }
    }
    table
}

/// Two headers agree on everything but the nonces.
pub open spec fn same_header(a: Block, b: Block) -> bool {
    &&& a.version == b.version
    &&& a.root@ == b.root@
    &&& a.parentid@ == b.parentid@
    &&& a.difficulty == b.difficulty
    &&& a.timestamp == b.timestamp
}

/// `block` with nonces `x`, `y`, `z`.
pub fn solved_block(block: &Block, x: u64, y: u64, z: u64) -> (r: Block)
    requires
        block.wf(),
    ensures
        r.wf(),
        same_header(r, *block),
        r.nonces@ == seq![x, y, z],
        forall|n: u64| #[trigger] image(r, n) == image(*block, n),
{
    let mut r = block.duplicate();
    r.nonces = [x, y, z];
    proof {
        assert forall|n: u64| #[trigger] image(r, n) == image(*block, n) by {
            assert(crate::block::canonical(r, n) =~= crate::block::canonical(*block, n));
        }
    }
    assert(r.nonces@ =~= seq![x, y, z]);
    r
}

/// The table-size exponents in thousandths, `alpha` for the table and `beta`
/// for the probes.
#[derive(Clone, Copy, Debug, PartialEq, Eq, Structural)]
pub struct MemoParams {
    pub alpha_milli: u64,
    pub beta_milli: u64,
}

/// The default exponents: 0.666 and 0.667.
pub const DEFAULT_ALPHA_MILLI: u64 = 666;

pub const DEFAULT_BETA_MILLI: u64 = 667;

/// Both exponents lie strictly between 0 and 1, and
/// `alpha + beta - 1 >= alpha / 2`.
pub open spec fn feasible(alpha_milli: u64, beta_milli: u64) -> bool {
    &&& 0 < alpha_milli < 1000
    &&& 0 < beta_milli < 1000
    &&& 2 * (alpha_milli + beta_milli - 1000) >= alpha_milli
}

/// Why the search refuses its parameters.
#[derive(Clone, Copy, Debug, PartialEq, Eq, Structural)]
pub enum ParamError {
    /// The exponents break `alpha + beta - 1 >= alpha / 2` or leave `(0, 1)`.
    Infeasible,
}

impl MemoParams {
    /// The parameters, if they are feasible.
    pub fn new(alpha_milli: u64, beta_milli: u64) -> (r: Result<MemoParams, ParamError>)
        ensures
            r is Ok <==> feasible(alpha_milli, beta_milli),
            r matches Ok(p) ==> p.alpha_milli == alpha_milli && p.beta_milli == beta_milli,
            r matches Err(e) ==> e == ParamError::Infeasible,
    {
        if 0 < alpha_milli && alpha_milli < 1000 && 0 < beta_milli && beta_milli < 1000 && 2 * (
        alpha_milli + beta_milli) >= alpha_milli + 2000 {
            Ok(MemoParams { alpha_milli, beta_milli })
        } else {
            Err(ParamError::Infeasible)
        }
    }
}

/// The default exponents are feasible.
pub proof fn lemma_default_params_feasible()
    ensures
        feasible(DEFAULT_ALPHA_MILLI, DEFAULT_BETA_MILLI),
{
}

/// Whether `workers` tables of `n_alpha` rows of `row_bytes` bytes each fit
/// in `cap` bytes.
pub fn fits_memory_budget(n_alpha: u64, workers: u64, row_bytes: u64, cap: u64) -> (r: bool)
    ensures
        r == (n_alpha * workers * row_bytes <= cap),
{
    match n_alpha.checked_mul(workers) {
        None => {
            assert(n_alpha * workers * row_bytes <= cap ==> row_bytes == 0 || n_alpha * workers
                <= cap) by (nonlinear_arith);
            if row_bytes == 0 {
                assert(n_alpha * workers * row_bytes == 0) by (nonlinear_arith)
                    requires
                        row_bytes == 0,
                ;
                true
            } else {
                false
            }
        },
        Some(rows) => match rows.checked_mul(row_bytes) {
            None => false,
            Some(total) => total <= cap,
        },
    }
}

/// One round of the memoization search on one template.
#[derive(Debug)]
pub struct MemoSearch {
    pub block: Block,
    pub table: Vec<Triple>,
    pub n_beta: usize,
    pub probes: usize,
}

/// What a probe step asks of the worker.
#[derive(Debug)]
pub enum SearchStep {
    /// Probe again.
    Continue,
    /// Start a new round from the latest template.
    Restart,
    /// Hand in this solved block, then start a new round.
    Solved(Block),
}

impl MemoSearch {
    /// The table is sorted and sound for the block, and no more than `n_beta`
    /// probes were made.
    pub open spec fn wf(&self) -> bool {
        &&& self.block.wf()
        &&& sorted_by_image(self.table@)
        &&& table_sound(self.block, self.table@)
        &&& table_bounded(self.table@, nonce_space(self.block.difficulty))
        &&& self.probes <= self.n_beta
    }

    /// Starts a round on `block`: fills a table of `n_alpha` rows and fuses
    /// its runs. A solution found there comes back beside the search.
    pub fn start(params: &MemoParams, block: Block, n_alpha: usize, n_beta: usize) -> (r: (
        MemoSearch,
        Option<Block>,
    ))
        requires
            feasible(params.alpha_milli, params.beta_milli),
            block.wf(),
        ensures
            r.0.wf(),
            r.0.block == block,
            r.0.n_beta == n_beta,
            r.0.probes == 0,
            r.0.table@.len() == n_alpha,
            r.1 matches Some(s) ==> s.wf() && pow_valid(s) && same_header(s, block) && nonces_below(
                s,
                nonce_space(block.difficulty),
            ),
            r.1 is None ==> forall|h: int, k: int|
                0 <= h < n_alpha && 0 <= k < n_alpha && run_head(r.0.table@, h) && (#[trigger] r.0.table@[k]).image
                    == r.0.table@[h].image && r.0.table@[k].pre_1 != r.0.table@[h].pre_1
                    ==> (#[trigger] r.0.table@[h]).pre_2 is Some,
            r.1 is None ==> forall|a: int, b: int, c: int|
                0 <= a < n_alpha && 0 <= b < n_alpha && 0 <= c < n_alpha ==> !#[trigger] three_preimages(
                    r.0.table@,
                    a,
                    b,
                    c,
                ),
    {
        let mut table = fill_table(&block, n_alpha);
        let ghost filled = table@;
        let found = fuse_runs(&mut table);
        proof {
            lemma_fused_sound(block, filled, table@);
            let bound = nonce_space(block.difficulty);
            assert forall|i: int| 0 <= i < table@.len() implies (#[trigger] table@[i]).pre_1 < bound
                && (table@[i].pre_2 matches Some(p) ==> p < bound) by {
                if table@[i].pre_2 is Some {
                    let p = table@[i].pre_2->0;
                    let k = choose|k: int| 0 <= k < filled.len() && (#[trigger] filled[k]).pre_1 == p && filled[k].image == filled[i].image;
                    assert(filled[k].pre_1 < bound);
                }
            }
            assert forall|x: int, y: int| 0 <= x <= y < table@.len() implies table@[x].image
                <= table@[y].image by {
                assert(filled[x].image <= filled[y].image);
            }
        }
        match found {
            Some((x, y, z)) => {
                proof {
                    lemma_fused_solution_collides(block, filled, x, y, z);
                    let img = choose|img: u64| preimage_in(filled, x, img) && preimage_in(filled, y, img) && preimage_in(filled, z, img);
                    let kx = choose|k: int| 0 <= k < filled.len() && (#[trigger] filled[k]).pre_1 == x && filled[k].image == img;
                    let ky = choose|k: int| 0 <= k < filled.len() && (#[trigger] filled[k]).pre_1 == y && filled[k].image == img;
                    let kz = choose|k: int| 0 <= k < filled.len() && (#[trigger] filled[k]).pre_1 == z && filled[k].image == img;
                    assert(filled[kx].pre_1 < nonce_space(block.difficulty));
                    assert(filled[ky].pre_1 < nonce_space(block.difficulty));
                    assert(filled[kz].pre_1 < nonce_space(block.difficulty));
                }
                let s = solved_block(&block, x, y, z);
                (MemoSearch { block, table, n_beta, probes: 0 }, Some(s))
            },
            None => {
                proof {
                    assert forall|h: int, k: int|
                        0 <= h < n_alpha && 0 <= k < n_alpha && run_head(table@, h) && (#[trigger] table@[k]).image
                            == table@[h].image && table@[k].pre_1 != table@[h].pre_1
                            implies (#[trigger] table@[h]).pre_2 is Some by {
                        assert(table@[k].image == filled[k].image && table@[k].pre_1 == filled[k].pre_1);
                        assert(table@[h].image == filled[h].image && table@[h].pre_1 == filled[h].pre_1);
                        if h > 0 {
                            assert(table@[h - 1].image == filled[h - 1].image);
                        }
                        assert(filled[k].image == filled[h].image);
                    }
                    assert forall|a: int, b: int, c: int|
                        0 <= a < n_alpha && 0 <= b < n_alpha && 0 <= c < n_alpha implies !#[trigger] three_preimages(
                        table@,
                        a,
                        b,
                        c,
                    ) by {
                        assert(!three_preimages(filled, a, b, c));
                        assert(table@[a].image == filled[a].image && table@[a].pre_1 == filled[a].pre_1);
                        assert(table@[b].image == filled[b].image && table@[b].pre_1 == filled[b].pre_1);
                        assert(table@[c].image == filled[c].image && table@[c].pre_1 == filled[c].pre_1);
                    }
                }
                (MemoSearch { block, table, n_beta, probes: 0 }, None)
            },
        }
    }

    /// One probe iteration. A preempted round, or one that has made its
    /// `n_beta` probes, restarts at once without hashing. Otherwise a fresh
    /// nonce is drawn and probed; a third preimage solves the block.
    pub fn step(&mut self, preempted: bool) -> (r: SearchStep)
        requires
            old(self).wf(),
        ensures
            final(self).wf(),
            final(self).block == old(self).block,
            final(self).n_beta == old(self).n_beta,
            r is Restart <==> (preempted || old(self).probes >= old(self).n_beta),
            r is Restart ==> final(self).probes == old(self).probes && final(self).table@
                == old(self).table@,
            !(r is Restart) ==> final(self).probes == old(self).probes + 1,
            r matches SearchStep::Solved(s) ==> s.wf() && pow_valid(s) && same_header(
                s,
                old(self).block,
            ) && nonces_below(s, nonce_space(old(self).block.difficulty)),
            !(r is Restart) ==> exists|a: u64, res: Option<(u64, u64, u64)>|
                {
                    &&& a < nonce_space(old(self).block.difficulty)
                    &&& #[trigger] probed(old(self).table@, final(self).table@, a, image(old(self).block, a), res)
                    &&& (res is None <==> r is Continue)
                    &&& (res matches Some((x, y, z)) ==> r matches SearchStep::Solved(s) && s.nonces@
                        == seq![x, y, z])
                },
    {
        if preempted || self.probes >= self.n_beta {
            return SearchStep::Restart;
        }
        let bound = nonce_space_of(self.block.difficulty);
        let a = random_below(bound);
        let b = self.block.image_of(a);
        let ghost before = self.table@;
        let res = probe(&mut self.table, a, b);
        proof {
            let blk = self.block;
            if exists|k: int| 0 <= k < before.len() && (#[trigger] before[k]).image == b {
                let j = choose|j: int| first_with_image(before, b, j);
                let t = before[j];
                assert(image(blk, t.pre_1) == t.image);
                assert forall|i: int| 0 <= i < self.table@.len() implies {
                    &&& image(blk, (#[trigger] self.table@[i]).pre_1) == self.table@[i].image
                    &&& (self.table@[i].pre_2 matches Some(p) ==> p != self.table@[i].pre_1 && image(
                        blk,
                        p,
                    ) == self.table@[i].image)
                } by {
                    if i != j {
                        assert(self.table@[i] == before[i]);
                    }
                }
                assert forall|x: int, y: int| 0 <= x <= y < self.table@.len() implies self.table@[x].image
                    <= self.table@[y].image by {
                    assert(before[x].image <= before[y].image);
                }
                assert forall|i: int| 0 <= i < self.table@.len() implies (#[trigger] self.table@[i]).pre_1
                    < bound && (self.table@[i].pre_2 matches Some(p) ==> p < bound) by {
                    if i != j {
                        assert(self.table@[i] == before[i]);
                    }
                }
            }
        }
        self.probes = self.probes + 1;
        let r = match res {
            Some((x, y, z)) => SearchStep::Solved(solved_block(&self.block, x, y, z)),
            None => SearchStep::Continue,
        };
        assert(probed(before, self.table@, a, image(self.block, a), res));
        r
    }
}

} // verus!
