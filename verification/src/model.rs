use vstd::prelude::*;

use crate::classifier::{sum_min, Classifier};
use crate::maker::PasswordMaker;
use crate::random::draw_value;

verus! {

/// The views of a sequence of string entries.
pub open spec fn views_of(entries: Seq<String>) -> Seq<Seq<char>> {
    entries.map_values(|s: String| s@)
}

/// Buffer and trace after `n` uniform draws from the pool, each draw
/// appending the drawn entry.
pub open spec fn fill_rec(pool: Seq<Seq<char>>, seed: u64, h0: Seq<int>, n: int) -> (
    Seq<Seq<char>>,
    Seq<int>,
)
    decreases n,
{
    if n <= 0 {
        (Seq::<Seq<char>>::empty(), h0)
    } else {
        let (buf, h) = fill_rec(pool, seed, h0, n - 1);
        let d = draw_value(seed, h, pool.len() as int);
        (buf.push(pool[d]), h.push(pool.len() as int))
    }
}

/// The values `start`, `start + 1`, ..., `end - 1` in order.
pub open spec fn range_vals(start: u32, end: u32) -> Seq<u32> {
    Seq::new((end - start) as nat, |i: int| (start + i) as u32)
}

/// Values and trace after the first `k` steps of a partial shuffle: step
/// `j` swaps position `j` with a position drawn uniformly from the rest.
pub open spec fn shuffle_rec(vals: Seq<u32>, seed: u64, h0: Seq<int>, k: int) -> (
    Seq<u32>,
    Seq<int>,
)
    decreases k,
{
    if k <= 0 {
        (vals, h0)
    } else {
        let (v, h) = shuffle_rec(vals, seed, h0, k - 1);
        let j = k - 1;
        let bound = v.len() - j;
        let d = draw_value(seed, h, bound);
        let t = j + d;
        (v.update(j, v[t]).update(t, v[j]), h.push(bound))
    }
}

/// The distinct values drawn from `[start, end)` by a partial shuffle of
/// the whole range, and the trace it leaves.
pub open spec fn sample_spec(start: u32, end: u32, count: int, seed: u64, h0: Seq<int>) -> (
    Seq<u32>,
    Seq<int>,
)
{
    let (v, h) = shuffle_rec(range_vals(start, end), seed, h0, count);
    (v.take(count), h)
}

/// Buffer and trace after overwriting the first `k` listed positions, each
/// with a fresh uniform draw from the pool.
pub open spec fn replace_rec(
    buf: Seq<Seq<char>>,
    pool: Seq<Seq<char>>,
    idxs: Seq<int>,
    k: int,
    seed: u64,
    h0: Seq<int>,
) -> (Seq<Seq<char>>, Seq<int>)
    decreases k,
{
    if k <= 0 {
        (buf, h0)
    } else {
        let (b, h) = replace_rec(buf, pool, idxs, k - 1, seed, h0);
        let d = draw_value(seed, h, pool.len() as int);
        (b.update(idxs[k - 1], pool[d]), h.push(pool.len() as int))
    }
}

/// Buffer and trace after the first `j` classifiers have each overwritten
/// their share of the drawn positions: classifier `k` takes the
/// `minimum_count` positions starting at the sum of the earlier minimums.
pub open spec fn overwrite_rec(
    buf: Seq<Seq<char>>,
    idxs: Seq<u32>,
    cs: Seq<Classifier>,
    j: int,
    seed: u64,
    h0: Seq<int>,
) -> (Seq<Seq<char>>, Seq<int>)
    decreases j,
{
    if j <= 0 {
        (buf, h0)
    } else {
        let (b, h) = overwrite_rec(buf, idxs, cs, j - 1, seed, h0);
        let c = cs[j - 1];
        let lo = sum_min(cs.take(j - 1));
        let assigned = idxs.subrange(lo, lo + c.minimum_count).map_values(|x: u32| x as int);
        replace_rec(b, c.pool(), assigned, c.minimum_count as int, seed, h)
    }
}

/// The whole overwrite phase on a buffer: draw distinct positions, then let
/// every classifier overwrite its share.
pub open spec fn overwrite_full(
    m: PasswordMaker,
    buf: Seq<Seq<char>>,
    seed: u64,
    h0: Seq<int>,
) -> (Seq<Seq<char>>, Seq<int>) {
    let count = if (m.length as int) < m.total_min() {
        m.length as int
    } else {
        m.total_min()
    };
    let (idxs, h1) = sample_spec(0, buf.len() as u32, count, seed, h0);
    overwrite_rec(buf, idxs, m.all_classifiers(), m.all_classifiers().len() as int, seed, h1)
}

/// The password a seeded source yields for a satisfiable specification:
/// a uniform fill of `length` entries, the overwrite phase, then the
/// concatenation of the buffer.
pub open spec fn generate_spec(m: PasswordMaker, seed: u64, h0: Seq<int>) -> Seq<char> {
    let (buf0, h1) = fill_rec(m.assembled(), seed, h0, m.length as int);
    let (buf, h2) = overwrite_full(m, buf0, seed, h1);
    buf.flatten()
}

/// The trace a seeded source has left once the password is generated.
pub open spec fn generate_trace(m: PasswordMaker, seed: u64, h0: Seq<int>) -> Seq<int> {
    let (buf0, h1) = fill_rec(m.assembled(), seed, h0, m.length as int);
    let (buf, h2) = overwrite_full(m, buf0, seed, h1);
    h2
}

/// How many buffer entries lie in the pool.
pub open spec fn count_from(buf: Seq<Seq<char>>, pool: Seq<Seq<char>>) -> int {
    buf.filter(|e: Seq<char>| pool.contains(e)).len() as int
}

/// A buffer holds at least as many entries of a pool as there are distinct
/// positions whose entry lies in the pool.
pub proof fn lemma_count_from_positions(buf: Seq<Seq<char>>, pool: Seq<Seq<char>>, pos: Seq<int>)
    requires
        pos.no_duplicates(),
        forall|t: int| 0 <= t < pos.len() ==> 0 <= #[trigger] pos[t] < buf.len(),
        forall|t: int| 0 <= t < pos.len() ==> pool.contains(buf[#[trigger] pos[t]]),
    ensures
        count_from(buf, pool) >= pos.len(),
    decreases buf.len(),
{
    reveal(Seq::filter);
    if buf.len() == 0 {
        if pos.len() > 0 {
            assert(0 <= pos[0] < buf.len());
        }
    } else {
        let n = buf.len() - 1;
        let rest = buf.drop_last();
        if pos.contains(n) {
            let t = choose|t: int| 0 <= t < pos.len() && pos[t] == n;
            let pos2 = pos.remove(t);
            pos.remove_ensures(t);
            assert forall|u: int| 0 <= u < pos2.len() implies 0 <= #[trigger] pos2[u] < rest.len()
                && pool.contains(rest[pos2[u]]) by {
                let v = if u < t {
                    u
                } else {
                    u + 1
                };
                assert(pos2[u] == pos[v]);
                assert(pos[v] != n);
                assert(rest[pos2[u]] == buf[pos[v]]);
            }
            assert(pos2.no_duplicates()) by {
                assert forall|u1: int, u2: int|
                    0 <= u1 < pos2.len() && 0 <= u2 < pos2.len() && u1 != u2 implies pos2[u1]
                    != pos2[u2] by {
                    let v1 = if u1 < t {
                        u1
                    } else {
                        u1 + 1
                    };
                    let v2 = if u2 < t {
                        u2
                    } else {
                        u2 + 1
                    };
                    assert(pos2[u1] == pos[v1] && pos2[u2] == pos[v2]);
                }
            }
            lemma_count_from_positions(rest, pool, pos2);
            assert(pool.contains(buf.last()));
        } else {
            assert forall|u: int| 0 <= u < pos.len() implies 0 <= #[trigger] pos[u] < rest.len()
                && pool.contains(rest[pos[u]]) by {
                assert(pos[u] != n);
                assert(rest[pos[u]] == buf[pos[u]]);
            }
            lemma_count_from_positions(rest, pool, pos);
        }
    }
}

/// Each classifier finds at least its minimum count of entries drawn from
/// its own pool in the buffer.
pub open spec fn meets_minimums(buf: Seq<Seq<char>>, cs: Seq<Classifier>) -> bool {
    forall|k: int|
        0 <= k < cs.len() ==> count_from(buf, (#[trigger] cs[k]).pool()) >= cs[k].minimum_count
}

/// Whether the entry lies in the own pool of some classifier with a
/// positive minimum count: the pools the overwrite phase draws from.
pub open spec fn from_minimum_pool(m: PasswordMaker, e: Seq<char>) -> bool {
    exists|k: int|
        0 <= k < m.all_classifiers().len() && (#[trigger] m.all_classifiers()[k]).minimum_count > 0
            && m.all_classifiers()[k].pool().contains(e)
}

/// An entry the finished password may hold: one of the assembled pool, or
/// one from the own pool of a classifier whose minimum had to be met.
pub open spec fn entry_allowed(m: PasswordMaker, e: Seq<char>) -> bool {
    m.assembled().contains(e) || from_minimum_pool(m, e)
}

/// What the generated buffer promises: the requested number of entries,
/// each one allowed, with every classifier's minimum met.
pub open spec fn buffer_ok(m: PasswordMaker, buf: Seq<Seq<char>>) -> bool {
    &&& buf.len() == m.length
    &&& forall|i: int| 0 <= i < buf.len() ==> entry_allowed(m, #[trigger] buf[i])
    &&& meets_minimums(buf, m.all_classifiers())
}

} // verus!
