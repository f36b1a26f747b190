//! Floyd's cycle finding on a function of 64-bit values, used to find a
//! 2-collision on the orbit of a start value.

use vstd::prelude::*;

verus! {

/// `y` can come out of `k` chained calls of `f` that start at `x`.
pub open spec fn reaches<F: Fn(u64) -> u64>(f: F, x: u64, k: nat, y: u64) -> bool
    decreases k,
{
    if k == 0 {
        y == x
    } else {
        exists|z: u64| reaches(f, x, (k - 1) as nat, z) && f.ensures((z,), y)
    }
}

/// `f` gives one result for each argument.
pub open spec fn is_function<F: Fn(u64) -> u64>(f: F) -> bool {
    forall|x: u64, y1: u64, y2: u64|
        #[trigger] f.ensures((x,), y1) && #[trigger] f.ensures((x,), y2) ==> y1 == y2
}

/// In none of the rounds `1..=n` did the tortoise, `j` calls from `x`, stand
/// where the hare, `2j` calls from `x`, stood.
pub open spec fn never_met<F: Fn(u64) -> u64>(f: F, x: u64, n: nat) -> bool {
    forall|j: nat, y1: u64, y2: u64|
        1 <= j <= n && #[trigger] reaches(f, x, j, y1) && #[trigger] reaches(f, x, 2 * j, y2) ==> y1
            != y2
}

/// For a function, `k` calls from `x` lead to one value.
proof fn lemma_reaches_unique<F: Fn(u64) -> u64>(f: F, x: u64, k: nat, y1: u64, y2: u64)
    requires
        is_function(f),
        reaches(f, x, k, y1),
        reaches(f, x, k, y2),
    ensures
        y1 == y2,
    decreases k,
{
    if k > 0 {
        let z1 = choose|z: u64| reaches(f, x, (k - 1) as nat, z) && f.ensures((z,), y1);
        let z2 = choose|z: u64| reaches(f, x, (k - 1) as nat, z) && f.ensures((z,), y2);
        lemma_reaches_unique(f, x, (k - 1) as nat, z1, z2);
    }
}

/// Finds two distinct values on the orbit of `x_0` with one image under `f`.
/// A tortoise, one call a round, and a hare, two calls a round, run from
/// `x_0` until they meet; then one walker from `x_0` and one from the meeting
/// point step together, and the values they stand on just before their images
/// agree are returned. Equal values come back only when `x_0` lies on a cycle
/// (there is no collision to find), or when the first phase ran its `2^64`
/// rounds without a meeting.
pub fn cycle_finder<F: Fn(u64) -> u64>(f: F, x_0: u64) -> (r: (u64, u64))
    requires
        forall|x: u64| f.requires((x,)),
        is_function(f),
    ensures
        exists|i: nat| #[trigger] reaches(f, x_0, i, r.0),
        exists|i: nat| #[trigger] reaches(f, x_0, i, r.1),
        r.0 != r.1 ==> exists|y: u64| #[trigger] f.ensures((r.0,), y) && f.ensures((r.1,), y),
        r.0 == r.1 ==> (exists|k: nat| 1 <= k && #[trigger] reaches(f, x_0, k, x_0)) || never_met(
            f,
            x_0,
            u64::MAX as nat,
        ),
{
    let mut tortoise = f(x_0);
    let h = f(x_0);
    let mut hare = f(h);
    proof {
        assert(reaches(f, x_0, 0, x_0));
        assert(reaches(f, x_0, 1, tortoise));
        assert(reaches(f, x_0, 1, h));
        assert(reaches(f, x_0, 2, hare));
    }
    let mut steps: u64 = 0;
    let ghost mut k: nat = 1;
    while tortoise != hare && steps < u64::MAX
        invariant
            forall|x: u64| f.requires((x,)),
            is_function(f),
            k == steps + 1,
            reaches(f, x_0, k, tortoise),
            reaches(f, x_0, 2 * k, hare),
            never_met(f, x_0, (k - 1) as nat),
        decreases u64::MAX - steps,
    {
        proof {
            assert forall|j: nat, y1: u64, y2: u64|
                1 <= j <= k && #[trigger] reaches(f, x_0, j, y1) && #[trigger] reaches(
                    f,
                    x_0,
                    2 * j,
                    y2,
                ) implies y1 != y2 by {
                if j == k {
                    lemma_reaches_unique(f, x_0, k, y1, tortoise);
                    lemma_reaches_unique(f, x_0, 2 * k, y2, hare);
                }
            }
        }
        let t = f(tortoise);
        let h1 = f(hare);
        let h2 = f(h1);
        proof {
            assert(reaches(f, x_0, k + 1, t));
            assert(reaches(f, x_0, 2 * k + 1, h1));
            assert(reaches(f, x_0, 2 * k + 2, h2));
            k = k + 1;
        }
        tortoise = t;
        hare = h2;
        steps = steps + 1;
    }
    if tortoise != hare {
        proof {
            assert forall|j: nat, y1: u64, y2: u64|
                1 <= j <= u64::MAX as nat && #[trigger] reaches(f, x_0, j, y1) && #[trigger] reaches(
                    f,
                    x_0,
                    2 * j,
                    y2,
                ) implies y1 != y2 by {
                if j == k {
                    lemma_reaches_unique(f, x_0, k, y1, tortoise);
                    lemma_reaches_unique(f, x_0, 2 * k, y2, hare);
                }
            }
        }
        let r = (tortoise, tortoise);
        assert(reaches(f, x_0, k, r.0) && reaches(f, x_0, k, r.1));
        return r;
    }
    let mut a = x_0;
    let mut b = tortoise;
    if a == b {
        let r = (a, b);
        assert(reaches(f, x_0, 0, r.0) && reaches(f, x_0, 0, r.1) && reaches(f, x_0, k, x_0));
        return r;
    }
    let ghost mut s: nat = 0;
    loop
        invariant
            forall|x: u64| f.requires((x,)),
            is_function(f),
            1 <= k,
            s < k,
            reaches(f, x_0, k, tortoise),
            reaches(f, x_0, 2 * k, tortoise),
            reaches(f, x_0, s, a),
            reaches(f, x_0, k + s, b),
            a != b,
        decreases k - s,
    {
        let na = f(a);
        let nb = f(b);
        if na == nb {
            let r = (a, b);
            assert(reaches(f, x_0, s, r.0) && reaches(f, x_0, k + s, r.1));
            assert(f.ensures((r.0,), na) && f.ensures((r.1,), na));
            return r;
        }
        proof {
            assert(reaches(f, x_0, s + 1, na));
            assert(reaches(f, x_0, k + s + 1, nb));
            if s + 1 == k {
                lemma_reaches_unique(f, x_0, k, na, tortoise);
                lemma_reaches_unique(f, x_0, 2 * k, nb, tortoise);
            }
            s = s + 1;
        }
        a = na;
        b = nb;
    }
}

} // verus!
