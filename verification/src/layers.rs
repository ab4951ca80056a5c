//! Order in which continuous effects apply (rule 613).
//!
//! Effects apply layer by layer. An effect depends on another when it reads a
//! characteristic category the other writes. Within a layer, effects are
//! applied in dependency order: each time, among the effects not yet placed
//! whose dependencies all are, the one with the earliest timestamp (then the
//! earliest position) goes next. Effects caught in a dependency cycle, and
//! those that depend on them, follow in position order.
use vstd::prelude::*;

use crate::types::{
    ce_categories_match, ce_read_category, ce_write_category, CeReads, CeWrites, ContinuousLayer,
};

verus! {

/// What the ordering reads of a continuous-effect instance: the categories
/// it reads and writes, and when it was registered.
pub struct CeOrderKey {
    pub layer: ContinuousLayer,
    pub reads: Vec<CeReads>,
    pub writes: Vec<CeWrites>,
    pub timestamp: u32,
}

/// The instance with a combined index: first the static instances, then the
/// ephemeral ones.
pub open spec fn key_at(st: Seq<CeOrderKey>, ep: Seq<CeOrderKey>, idx: int) -> CeOrderKey {
    if idx < st.len() {
        st[idx]
    } else {
        ep[idx - st.len()]
    }
}

/// Instance `a` reads a category that instance `b` writes.
pub open spec fn reads_what_writes(a: CeOrderKey, b: CeOrderKey) -> bool {
    exists|r: int, w: int|
        0 <= r < a.reads@.len() && 0 <= w < b.writes@.len() && ce_read_category(
            #[trigger] a.reads@[r],
        ) == ce_write_category(#[trigger] b.writes@[w])
}

/// The instance at position `i` of the layer depends on the one at `j`.
pub open spec fn depends(st: Seq<CeOrderKey>, ep: Seq<CeOrderKey>, ls: Seq<usize>, i: int, j: int) -> bool {
    i != j && reads_what_writes(key_at(st, ep, ls[i] as int), key_at(st, ep, ls[j] as int))
}

/// Position `i` is not placed yet, and everything it depends on is.
pub open spec fn ready(st: Seq<CeOrderKey>, ep: Seq<CeOrderKey>, ls: Seq<usize>, done: Seq<bool>, i: int) -> bool {
    &&& !done[i]
    &&& forall|j: int| 0 <= j < ls.len() && depends(st, ep, ls, i, j) ==> #[trigger] done[j]
}

pub open spec fn stamp(st: Seq<CeOrderKey>, ep: Seq<CeOrderKey>, ls: Seq<usize>, i: int) -> u32 {
    key_at(st, ep, ls[i] as int).timestamp
}

/// Position `a` goes before position `b`: earlier timestamp, then earlier
/// position.
pub open spec fn goes_first(st: Seq<CeOrderKey>, ep: Seq<CeOrderKey>, ls: Seq<usize>, a: int, b: int) -> bool {
    stamp(st, ep, ls, a) < stamp(st, ep, ls, b) || (stamp(st, ep, ls, a) == stamp(st, ep, ls, b)
        && a < b)
}

/// The first ready position among `0..k`.
pub open spec fn best_below(st: Seq<CeOrderKey>, ep: Seq<CeOrderKey>, ls: Seq<usize>, done: Seq<bool>, k: int) -> Option<int>
    decreases k,
{
    if k <= 0 {
        None
    } else {
        let b = best_below(st, ep, ls, done, k - 1);
        if ready(st, ep, ls, done, k - 1) && (b is None || goes_first(st, ep, ls, k - 1, b->0)) {
            Some(k - 1)
        } else {
            b
        }
    }
}

/// The positions placed in dependency order, at most `fuel` of them.
pub open spec fn placed(st: Seq<CeOrderKey>, ep: Seq<CeOrderKey>, ls: Seq<usize>, done: Seq<bool>, fuel: nat) -> Seq<int>
    decreases fuel,
{
    if fuel == 0 {
        Seq::empty()
    } else {
        match best_below(st, ep, ls, done, ls.len() as int) {
            None => Seq::empty(),
            Some(i) => seq![i] + placed(st, ep, ls, done.update(i, true), (fuel - 1) as nat),
        }
    }
}

/// `out` followed by the layer's entries it does not hold yet, in position
/// order (an entry already added is not added again).
pub open spec fn with_rest(out: Seq<usize>, ls: Seq<usize>, k: int) -> Seq<usize>
    decreases k,
{
    if k <= 0 {
        out
    } else {
        let prev = with_rest(out, ls, k - 1);
        if prev.contains(ls[k - 1]) {
            prev
        } else {
            prev.push(ls[k - 1])
        }
    }
}

/// The layer's entries in application order.
pub open spec fn layer_order(st: Seq<CeOrderKey>, ep: Seq<CeOrderKey>, ls: Seq<usize>) -> Seq<usize> {
    let p = placed(st, ep, ls, Seq::new(ls.len(), |_i: int| false), ls.len());
    let vals = p.map_values(|i: int| ls[i]);
    if p.len() < ls.len() {
        with_rest(vals, ls, ls.len() as int)
    } else {
        vals
    }
}

/// The positions placed in dependency order, for the whole layer.
pub open spec fn placement(st: Seq<CeOrderKey>, ep: Seq<CeOrderKey>, ls: Seq<usize>) -> Seq<int> {
    placed(st, ep, ls, Seq::new(ls.len(), |_i: int| false), ls.len())
}

proof fn lemma_best_below(st: Seq<CeOrderKey>, ep: Seq<CeOrderKey>, ls: Seq<usize>, done: Seq<bool>, k: int)
    requires
        0 <= k <= ls.len(),
        done.len() == ls.len(),
    ensures
        match best_below(st, ep, ls, done, k) {
            Some(i) => 0 <= i < k && ready(st, ep, ls, done, i) && forall|j: int|
                0 <= j < k && j != i && ready(st, ep, ls, done, j) ==> goes_first(st, ep, ls, i, j),
            None => forall|j: int| 0 <= j < k ==> !ready(st, ep, ls, done, j),
        },
    decreases k,
{
    if k > 0 {
        lemma_best_below(st, ep, ls, done, k - 1);
    }
}

/// What `placed` gives from `done` on: fresh distinct positions, none
/// placed before a position it depends on, each going first among the
/// positions ready when it is placed; and when it stops early, every
/// position left waits on another one left.
proof fn lemma_placed(st: Seq<CeOrderKey>, ep: Seq<CeOrderKey>, ls: Seq<usize>, done: Seq<bool>, fuel: nat)
    requires
        done.len() == ls.len(),
    ensures
        ({
            let p = placed(st, ep, ls, done, fuel);
            &&& p.len() <= fuel
            &&& forall|a: int| 0 <= a < p.len() ==> 0 <= #[trigger] p[a] < ls.len() && !done[p[a]]
            &&& forall|a: int, b: int| 0 <= a < b < p.len() ==> p[a] != p[b]
            &&& forall|a: int, b: int|
                0 <= a < p.len() && 0 <= b < p.len() && depends(st, ep, ls, #[trigger] p[b], #[trigger] p[a])
                    ==> a < b
            &&& forall|a: int, b: int|
                #![trigger p[a], p[b]]
                0 <= a < b < p.len() && (forall|j: int|
                    0 <= j < ls.len() && depends(st, ep, ls, p[b], j) ==> done[j] || exists|c: int|
                        0 <= c < a && p[c] == j) ==> goes_first(st, ep, ls, p[a], p[b])
            &&& p.len() < fuel ==> forall|x: int|
                0 <= x < ls.len() && !done[x] && !p.contains(x) ==> exists|y: int|
                    0 <= y < ls.len() && depends(st, ep, ls, x, y) && !done[y] && !p.contains(y)
        }),
    decreases fuel,
{
    let p = placed(st, ep, ls, done, fuel);
    lemma_best_below(st, ep, ls, done, ls.len() as int);
    if fuel == 0 {
        return;
    }
    match best_below(st, ep, ls, done, ls.len() as int) {
        None => {
            assert(p.len() == 0);
            assert forall|x: int| 0 <= x < ls.len() && !done[x] && !p.contains(x) implies exists|y: int|
                0 <= y < ls.len() && depends(st, ep, ls, x, y) && !done[y] && !p.contains(y) by {
                assert(!ready(st, ep, ls, done, x));
                let y = choose|y: int| 0 <= y < ls.len() && depends(st, ep, ls, x, y) && !done[y];
                assert(!p.contains(y));
            }
        },
        Some(i) => {
            let d2 = done.update(i, true);
            let q = placed(st, ep, ls, d2, (fuel - 1) as nat);
            lemma_placed(st, ep, ls, d2, (fuel - 1) as nat);
            assert(p == seq![i] + q);
            assert forall|a: int| 0 <= a < p.len() implies 0 <= #[trigger] p[a] < ls.len() && !done[p[a]] by {
                if a > 0 {
                    assert(p[a] == q[a - 1]);
                }
            }
            assert forall|a: int, b: int| 0 <= a < b < p.len() implies p[a] != p[b] by {
                assert(p[b] == q[b - 1]);
                if a > 0 {
                    assert(p[a] == q[a - 1]);
                } else {
                    assert(d2[q[b - 1]] == false);
                }
            }
            assert forall|a: int, b: int|
                0 <= a < p.len() && 0 <= b < p.len() && depends(st, ep, ls, #[trigger] p[b], #[trigger] p[a])
                    implies a < b by {
                if a == 0 && b > 0 {
                    assert(p[b] == q[b - 1]);
                } else if a == 0 && b == 0 {
                } else if b == 0 {
                    // i is ready: every position it depends on is done
                    assert(p[a] == q[a - 1]);
                    assert(ready(st, ep, ls, done, i));
                    assert(done[p[a]]);
                } else {
                    assert(p[a] == q[a - 1]);
                    assert(p[b] == q[b - 1]);
                    assert(depends(st, ep, ls, q[b - 1], q[a - 1]));
                }
            }
            assert forall|a: int, b: int|
                #![trigger p[a], p[b]]
                0 <= a < b < p.len() && (forall|j: int|
                    0 <= j < ls.len() && depends(st, ep, ls, p[b], j) ==> done[j] || exists|c: int|
                        0 <= c < a && p[c] == j) implies goes_first(st, ep, ls, p[a], p[b]) by {
                let x = p[b];
                assert(x == q[b - 1]);
                if a == 0 {
                    assert forall|j: int| 0 <= j < ls.len() && depends(st, ep, ls, x, j) implies #[trigger] done[j] by {
                        if exists|c: int| 0 <= c < 0 && p[c] == j {
                            let c = choose|c: int| 0 <= c < 0 && p[c] == j;
                        }
                    }
                    assert(ready(st, ep, ls, done, x));
                    assert(x != i);
                } else {
                    assert(p[a] == q[a - 1]);
                    assert forall|j: int|
                        0 <= j < ls.len() && depends(st, ep, ls, q[b - 1], j) implies d2[j] || exists|c: int|
                            0 <= c < a - 1 && q[c] == j by {
                        if !done[j] {
                            let c = choose|c: int| 0 <= c < a && p[c] == j;
                            if c == 0 {
                                assert(j == i);
                            } else {
                                assert(q[c - 1] == j);
                            }
                        }
                    }
                }
            }
            if p.len() < fuel {
                assert forall|x: int| 0 <= x < ls.len() && !done[x] && !p.contains(x) implies exists|y: int|
                    0 <= y < ls.len() && depends(st, ep, ls, x, y) && !done[y] && !p.contains(y) by {
                    if x == i {
                        assert(p[0] == i);
                    }
                    if q.contains(x) {
                        let k = choose|k: int| 0 <= k < q.len() && q[k] == x;
                        assert(p[k + 1] == x);
                    }
                    let y = choose|y: int| 0 <= y < ls.len() && depends(st, ep, ls, x, y) && !d2[y] && !q.contains(y);
                    assert(y != i);
                    if p.contains(y) {
                        let k = choose|k: int| 0 <= k < p.len() && p[k] == y;
                        if k > 0 {
                            assert(q[k - 1] == y);
                        }
                    }
                }
            }
        },
    }
}

/// The order within a layer (rule 613.7): among the placed effects, none
/// comes before an effect it depends on; an effect goes after another only
/// when that one has the earlier timestamp (then position) or this one was
/// still waiting for a dependency; and when effects are left over, each of
/// them depends on another left over — only dependency cycles, and what
/// depends on them, are left to the position-order fallback.
pub proof fn lemma_layer_order(st: Seq<CeOrderKey>, ep: Seq<CeOrderKey>, ls: Seq<usize>)
    ensures
        ({
            let p = placement(st, ep, ls);
            &&& p.len() <= ls.len()
            &&& forall|a: int| 0 <= a < p.len() ==> 0 <= #[trigger] p[a] < ls.len()
            &&& forall|a: int, b: int| 0 <= a < b < p.len() ==> p[a] != p[b]
            &&& forall|a: int, b: int|
                0 <= a < p.len() && 0 <= b < p.len() && depends(st, ep, ls, #[trigger] p[b], #[trigger] p[a])
                    ==> a < b
            &&& forall|a: int, b: int|
                #![trigger p[a], p[b]]
                0 <= a < b < p.len() && (forall|j: int|
                    0 <= j < ls.len() && depends(st, ep, ls, p[b], j) ==> exists|c: int|
                        0 <= c < a && p[c] == j) ==> goes_first(st, ep, ls, p[a], p[b])
            &&& p.len() < ls.len() ==> forall|x: int|
                0 <= x < ls.len() && !p.contains(x) ==> exists|y: int|
                    0 <= y < ls.len() && depends(st, ep, ls, x, y) && !p.contains(y)
            &&& p.len() == ls.len() ==> layer_order(st, ep, ls) == p.map_values(|i: int| ls[i])
        }),
{
    let init = Seq::new(ls.len(), |_i: int| false);
    lemma_placed(st, ep, ls, init, ls.len());
}

proof fn lemma_no_low_leftover(
    st: Seq<CeOrderKey>,
    ep: Seq<CeOrderKey>,
    ls: Seq<usize>,
    rank: spec_fn(int) -> nat,
    r: nat,
)
    requires
        forall|i: int, j: int|
            0 <= i < ls.len() && 0 <= j < ls.len() && #[trigger] depends(st, ep, ls, i, j) ==> rank(j) < rank(i),
        placement(st, ep, ls).len() < ls.len() ==> forall|x: int|
            0 <= x < ls.len() && !placement(st, ep, ls).contains(x) ==> exists|y: int|
                0 <= y < ls.len() && depends(st, ep, ls, x, y) && !placement(st, ep, ls).contains(y),
        placement(st, ep, ls).len() < ls.len(),
    ensures
        forall|x: int| 0 <= x < ls.len() && !placement(st, ep, ls).contains(x) ==> rank(x) >= r,
    decreases r,
{
    if r > 0 {
        lemma_no_low_leftover(st, ep, ls, rank, (r - 1) as nat);
        assert forall|x: int| 0 <= x < ls.len() && !placement(st, ep, ls).contains(x) implies rank(x) >= r by {
            let y = choose|y: int|
                0 <= y < ls.len() && depends(st, ep, ls, x, y) && !placement(st, ep, ls).contains(y);
        }
    }
}

/// Rule 613.7 when the dependencies form no cycle (`rank` decreases along
/// every dependency): every effect of the layer is applied, each after
/// every effect it depends on; an effect goes after another only when that
/// one has the earlier timestamp (then position) or this one was still
/// waiting for a dependency, so effects that depend on nothing apply in
/// timestamp order.
pub proof fn lemma_layer_order_acyclic(
    st: Seq<CeOrderKey>,
    ep: Seq<CeOrderKey>,
    ls: Seq<usize>,
    rank: spec_fn(int) -> nat,
)
    requires
        forall|i: int, j: int|
            0 <= i < ls.len() && 0 <= j < ls.len() && #[trigger] depends(st, ep, ls, i, j) ==> rank(j) < rank(i),
    ensures
        ({
            let p = placement(st, ep, ls);
            &&& p.len() == ls.len()
            &&& forall|x: int| 0 <= x < ls.len() ==> p.contains(x)
            &&& forall|a: int, b: int| 0 <= a < b < p.len() ==> p[a] != p[b]
            &&& layer_order(st, ep, ls) == p.map_values(|i: int| ls[i])
            &&& forall|a: int, b: int|
                0 <= a < p.len() && 0 <= b < p.len() && depends(st, ep, ls, #[trigger] p[b], #[trigger] p[a])
                    ==> a < b
            &&& forall|a: int, b: int|
                #![trigger p[a], p[b]]
                0 <= a < b < p.len() && (forall|j: int| 0 <= j < ls.len() ==> !depends(st, ep, ls, p[b], j))
                    ==> goes_first(st, ep, ls, p[a], p[b])
        }),
{
    lemma_layer_order(st, ep, ls);
    let p = placement(st, ep, ls);
    if p.len() < ls.len() {
        assert(p.no_duplicates());
        p.unique_seq_to_set();
        vstd::set_lib::lemma_int_range(0, ls.len() as int);
        let range = vstd::set_lib::set_int_range(0, ls.len() as int);
        if range.subset_of(p.to_set()) {
            vstd::set_lib::lemma_len_subset(range, p.to_set());
            assert(false);
        }
        let x = choose|x: int| range.contains(x) && !p.to_set().contains(x);
        assert(!p.contains(x));
        lemma_no_low_leftover(st, ep, ls, rank, rank(x) + 1);
        assert(false);
    }
    assert forall|x: int| 0 <= x < ls.len() implies p.contains(x) by {
        if !p.contains(x) {
            p.unique_seq_to_set();
            vstd::set_lib::lemma_int_range(0, ls.len() as int);
            let range = vstd::set_lib::set_int_range(0, ls.len() as int);
            assert(p.to_set().subset_of(range));
            assert(p.to_set().insert(x).subset_of(range));
            vstd::set_lib::lemma_len_subset(p.to_set().insert(x), range);
            assert(false);
        }
    }
    assert forall|a: int, b: int|
        #![trigger p[a], p[b]]
        0 <= a < b < p.len() && (forall|j: int| 0 <= j < ls.len() ==> !depends(st, ep, ls, p[b], j))
            implies goes_first(st, ep, ls, p[a], p[b]) by {
        assert forall|j: int| 0 <= j < ls.len() && depends(st, ep, ls, p[b], j) implies exists|c: int|
            0 <= c < a && p[c] == j by {
            assert(!depends(st, ep, ls, p[b], j));
        }
    }
}

/// The positions below `k` that `p` does not hold, in increasing order.
pub open spec fn leftovers(p: Seq<int>, k: int) -> Seq<int>
    decreases k,
{
    if k <= 0 {
        Seq::empty()
    } else if p.contains(k - 1) {
        leftovers(p, k - 1)
    } else {
        leftovers(p, k - 1).push(k - 1)
    }
}

proof fn lemma_with_rest(ls: Seq<usize>, p: Seq<int>, k: int)
    requires
        0 <= k <= ls.len(),
        forall|i: int, j: int| 0 <= i < j < ls.len() ==> ls[i] != ls[j],
        forall|a: int| 0 <= a < p.len() ==> 0 <= #[trigger] p[a] < ls.len(),
    ensures
        with_rest(p.map_values(|i: int| ls[i]), ls, k) == p.map_values(|i: int| ls[i]) + leftovers(p, k).map_values(
            |i: int| ls[i],
        ),
        forall|t: int| 0 <= t < leftovers(p, k).len() ==> 0 <= #[trigger] leftovers(p, k)[t] < k,
        forall|t: int, u: int| 0 <= t < u < leftovers(p, k).len() ==> leftovers(p, k)[t] < leftovers(p, k)[u],
    decreases k,
{
    let vals = p.map_values(|i: int| ls[i]);
    if k > 0 {
        lemma_with_rest(ls, p, k - 1);
        let prev = with_rest(vals, ls, k - 1);
        let l = leftovers(p, k - 1);
        let lm = l.map_values(|i: int| ls[i]);
        if p.contains(k - 1) {
            let a = choose|a: int| 0 <= a < p.len() && p[a] == k - 1;
            assert(prev[a] == ls[k - 1]);
            assert(prev.contains(ls[k - 1]));
        } else {
            if prev.contains(ls[k - 1]) {
                let t = choose|t: int| 0 <= t < prev.len() && prev[t] == ls[k - 1];
                if t < vals.len() {
                    assert(vals[t] == ls[p[t]]);
                    assert(p[t] != k - 1);
                } else {
                    assert(prev[t] == lm[t - vals.len()]);
                    assert(l[t - vals.len()] < k - 1);
                }
                assert(false);
            }
            assert(leftovers(p, k).map_values(|i: int| ls[i]) =~= lm.push(ls[k - 1]));
            assert(prev.push(ls[k - 1]) =~= vals + lm.push(ls[k - 1]));
        }
    } else {
        assert(with_rest(vals, ls, k) =~= vals + leftovers(p, k).map_values(|i: int| ls[i]));
    }
}

/// Rule 613.7's fallback: when the dependencies leave effects unplaced (a
/// cycle, or what depends on one), the layer applies the placed effects in
/// dependency order, then the effects left over in position order; each
/// of those depends on another one left over.
pub proof fn lemma_layer_order_cycle_fallback(st: Seq<CeOrderKey>, ep: Seq<CeOrderKey>, ls: Seq<usize>)
    requires
        forall|i: int, j: int| 0 <= i < j < ls.len() ==> ls[i] != ls[j],
        placement(st, ep, ls).len() < ls.len(),
    ensures
        ({
            let p = placement(st, ep, ls);
            let rest = leftovers(p, ls.len() as int);
            &&& layer_order(st, ep, ls) == p.map_values(|i: int| ls[i]) + rest.map_values(|i: int| ls[i])
            &&& forall|t: int, u: int| 0 <= t < u < rest.len() ==> rest[t] < rest[u]
            &&& forall|t: int| 0 <= t < rest.len() ==> 0 <= #[trigger] rest[t] < ls.len() && !p.contains(rest[t])
            &&& forall|x: int| 0 <= x < ls.len() && !p.contains(x) ==> exists|y: int|
                0 <= y < ls.len() && depends(st, ep, ls, x, y) && !p.contains(y)
        }),
{
    lemma_layer_order(st, ep, ls);
    let p = placement(st, ep, ls);
    lemma_with_rest(ls, p, ls.len() as int);
    lemma_leftovers_fresh(p, ls.len() as int);
}

proof fn lemma_leftovers_fresh(p: Seq<int>, k: int)
    ensures
        forall|t: int| 0 <= t < leftovers(p, k).len() ==> !p.contains(#[trigger] leftovers(p, k)[t]),
    decreases k,
{
    if k > 0 {
        lemma_leftovers_fresh(p, k - 1);
        let l = leftovers(p, k - 1);
        assert forall|t: int| 0 <= t < leftovers(p, k).len() implies !p.contains(
            #[trigger] leftovers(p, k)[t],
        ) by {
            if t < l.len() {
                assert(leftovers(p, k)[t] == l[t]);
            }
        }
    }
}

fn key_of<'a>(st: &'a [CeOrderKey], ep: &'a [CeOrderKey], idx: usize) -> (r: &'a CeOrderKey)
    requires
        idx < st@.len() + ep@.len(),
    ensures
        *r == key_at(st@, ep@, idx as int),
{
    if idx < st.len() {
        &st[idx]
    } else {
        &ep[idx - st.len()]
    }
}

/// Whether `a` reads a category `b` writes.
fn reads_written(a: &CeOrderKey, b: &CeOrderKey) -> (r: bool)
    ensures
        r == reads_what_writes(*a, *b),
{
    for x in 0..a.reads.len()
        invariant
            forall|r: int, w: int|
                0 <= r < x && 0 <= w < b.writes@.len() ==> ce_read_category(#[trigger] a.reads@[r])
                    != ce_write_category(#[trigger] b.writes@[w]),
    {
        for y in 0..b.writes.len()
            invariant
                0 <= x < a.reads@.len(),
                forall|r: int, w: int|
                    0 <= r < x && 0 <= w < b.writes@.len() ==> ce_read_category(
                        #[trigger] a.reads@[r],
                    ) != ce_write_category(#[trigger] b.writes@[w]),
                forall|w: int|
                    0 <= w < y ==> ce_read_category(a.reads@[x as int]) != ce_write_category(
                        #[trigger] b.writes@[w],
                    ),
        {
            if ce_categories_match(a.reads[x], b.writes[y]) {
                return true;
            }
        }
    }
    false
}

/// Whether position `i` can be placed now.
fn is_ready(st: &[CeOrderKey], ep: &[CeOrderKey], ls: &[usize], done: &Vec<bool>, i: usize) -> (r: bool)
    requires
        i < ls@.len(),
        done@.len() == ls@.len(),
        forall|k: int| 0 <= k < ls@.len() ==> (#[trigger] ls@[k]) < st@.len() + ep@.len(),
    ensures
        r == ready(st@, ep@, ls@, done@, i as int),
{
    if done[i] {
        return false;
    }
    for j in 0..ls.len()
        invariant
            i < ls@.len(),
            done@.len() == ls@.len(),
            !done@[i as int],
            forall|k: int| 0 <= k < ls@.len() ==> (#[trigger] ls@[k]) < st@.len() + ep@.len(),
            forall|k: int| 0 <= k < j && depends(st@, ep@, ls@, i as int, k) ==> #[trigger] done@[k],
    {
        if j != i && !done[j] {
            let a = key_of(st, ep, ls[i]);
            let b = key_of(st, ep, ls[j]);
            if reads_written(a, b) {
                return false;
            }
        }
    }
    true
}

/// Position `a` goes before position `b`.
fn first_of(st: &[CeOrderKey], ep: &[CeOrderKey], ls: &[usize], a: usize, b: usize) -> (r: bool)
    requires
        a < ls@.len(),
        b < ls@.len(),
        forall|k: int| 0 <= k < ls@.len() ==> (#[trigger] ls@[k]) < st@.len() + ep@.len(),
    ensures
        r == goes_first(st@, ep@, ls@, a as int, b as int),
{
    let ta = key_of(st, ep, ls[a]).timestamp;
    let tb = key_of(st, ep, ls[b]).timestamp;
    ta < tb || (ta == tb && a < b)
}

/// The ready position that goes first, if any.
fn next_ready(st: &[CeOrderKey], ep: &[CeOrderKey], ls: &[usize], done: &Vec<bool>) -> (r: Option<usize>)
    requires
        done@.len() == ls@.len(),
        forall|k: int| 0 <= k < ls@.len() ==> (#[trigger] ls@[k]) < st@.len() + ep@.len(),
    ensures
        match r {
            Some(i) => best_below(st@, ep@, ls@, done@, ls@.len() as int) == Some(i as int) && i
                < ls@.len(),
            None => best_below(st@, ep@, ls@, done@, ls@.len() as int) is None,
        },
{
    let mut best: Option<usize> = None;
    for k in 0..ls.len()
        invariant
            done@.len() == ls@.len(),
            forall|q: int| 0 <= q < ls@.len() ==> (#[trigger] ls@[q]) < st@.len() + ep@.len(),
            match best {
                Some(b) => best_below(st@, ep@, ls@, done@, k as int) == Some(b as int) && b < k,
                None => best_below(st@, ep@, ls@, done@, k as int) is None,
            },
    {
        if is_ready(st, ep, ls, done, k) {
            let take = match best {
                None => true,
                Some(b) => first_of(st, ep, ls, k, b),
            };
            if take {
                best = Some(k);
            }
        }
    }
    best
}

/// Append the layer's entries to `out` in application order.
pub fn topo_sort_layer(
    layer_slice: &[usize],
    static_cis: &[CeOrderKey],
    ephemeral_cis: &[CeOrderKey],
    out: &mut Vec<usize>,
)
    requires
        forall|k: int|
            0 <= k < layer_slice@.len() ==> (#[trigger] layer_slice@[k]) < static_cis@.len()
                + ephemeral_cis@.len(),
    ensures
        final(out)@ == old(out)@ + layer_order(static_cis@, ephemeral_cis@, layer_slice@),
{
    let ghost st = static_cis@;
    let ghost ep = ephemeral_cis@;
    let ghost ls = layer_slice@;
    let ghost start = out@;
    let start_n = out.len();
    let n = layer_slice.len();
    let mut done: Vec<bool> = Vec::new();
    for k in 0..n
        invariant
            done@ == Seq::new(k as nat, |_i: int| false),
    {
        done.push(false);
        proof {
            assert(done@ =~= Seq::new((k + 1) as nat, |_i: int| false));
        }
    }
    let ghost init = done@;
    let ghost mut picked: Seq<int> = Seq::empty();
    let mut count: usize = 0;
    let mut stopped = false;
    while count < n && !stopped
        invariant
            n == ls.len(),
            st == static_cis@,
            ep == ephemeral_cis@,
            ls == layer_slice@,
            init == Seq::new(n as nat, |_i: int| false),
            done@.len() == n,
            forall|k: int| 0 <= k < n ==> (#[trigger] ls[k]) < st.len() + ep.len(),
            count <= n,
            picked.len() == count,
            !stopped ==> picked + placed(st, ep, ls, done@, (n - count) as nat) == placed(
                st,
                ep,
                ls,
                init,
                n as nat,
            ),
            stopped ==> picked == placed(st, ep, ls, init, n as nat),
            out@ == start + picked.map_values(|i: int| ls[i]),
            start_n == start.len(),
        decreases n - count + (if stopped { 0int } else { 1int }),
    {
        match next_ready(static_cis, ephemeral_cis, layer_slice, &done) {
            None => {
                proof {
                    assert(placed(st, ep, ls, done@, (n - count) as nat) =~= Seq::<int>::empty());
                    assert(picked + Seq::<int>::empty() =~= picked);
                }
                stopped = true;
            },
            Some(i) => {
                let ghost before = done@;
                out.push(layer_slice[i]);
                done.set(i, true);
                proof {
                    assert(done@ == before.update(i as int, true));
                    let rest = placed(st, ep, ls, done@, (n - count - 1) as nat);
                    assert(placed(st, ep, ls, before, (n - count) as nat) == seq![i as int] + rest);
                    assert(picked + (seq![i as int] + rest) =~= picked.push(i as int) + rest);
                    assert(picked.push(i as int).map_values(|q: int| ls[q]) =~= picked.map_values(
                        |q: int| ls[q],
                    ).push(ls[i as int]));
                    picked = picked.push(i as int);
                }
                count = count + 1;
            },
        }
    }
    proof {
        if !stopped {
            assert(placed(st, ep, ls, done@, 0) =~= Seq::<int>::empty());
            assert(picked + Seq::<int>::empty() =~= picked);
        }
    }
    if count < n {
        let ghost vals = picked.map_values(|i: int| ls[i]);
        let ghost placed_vals = out@;
        for i in 0..n
            invariant
                n == ls.len(),
                ls == layer_slice@,
                placed_vals == start + vals,
                start_n == start.len(),
                start.len() <= out@.len(),
                out@.subrange(0, start.len() as int) == start,
                out@.subrange(start.len() as int, out@.len() as int) == with_rest(vals, ls, i as int),
        {
            let ghost prev = out@;
            let v = layer_slice[i];
            let mut present = false;
            let mut q: usize = start_n;
            let ghost seg = prev.subrange(start.len() as int, prev.len() as int);
            while q < out.len()
                invariant
                    out@ == prev,
                    start.len() <= q <= out@.len(),
                    seg == prev.subrange(start.len() as int, prev.len() as int),
                    present == (exists|t: int| start.len() <= t < q && prev[t] == v),
                decreases out@.len() - q,
            {
                if out[q] == v {
                    present = true;
                }
                q = q + 1;
            }
            proof {
                assert(present == seg.contains(v)) by {
                    if present {
                        let t = choose|t: int| start.len() <= t < out@.len() && prev[t] == v;
                        assert(seg[t - start.len()] == v);
                    }
                    if seg.contains(v) {
                        let t = choose|t: int| 0 <= t < seg.len() && seg[t] == v;
                        assert(prev[start.len() + t] == v);
                    }
                }
            }
            if !present {
                out.push(v);
            }
            proof {
                assert(out@.subrange(0, start.len() as int) =~= start) by {
                    assert forall|t: int| 0 <= t < start.len() implies out@[t] == start[t] by {
                        assert(prev.subrange(0, start.len() as int)[t] == start[t]);
                    }
                }
                if !present {
                    assert(out@.subrange(start.len() as int, out@.len() as int) =~= seg.push(v));
                } else {
                    assert(out@.subrange(start.len() as int, out@.len() as int) =~= seg);
                }
            }
        }
        proof {
            let l = layer_order(st, ep, ls);
            assert(picked.len() < ls.len());
            assert(l == with_rest(vals, ls, n as int));
            assert(out@ =~= out@.subrange(0, start.len() as int) + out@.subrange(
                start.len() as int,
                out@.len() as int,
            ));
        }
    }
}

/// Index `a` comes before index `b` when sorted by layer, then timestamp,
/// then index.
pub open spec fn key_lt(st: Seq<CeOrderKey>, ep: Seq<CeOrderKey>, a: usize, b: usize) -> bool {
    let ka = key_at(st, ep, a as int);
    let kb = key_at(st, ep, b as int);
    ||| ka.layer.spec_number() < kb.layer.spec_number()
    ||| ka.layer.spec_number() == kb.layer.spec_number() && ka.timestamp < kb.timestamp
    ||| ka.layer.spec_number() == kb.layer.spec_number() && ka.timestamp == kb.timestamp && a < b
}

/// `s` is strictly increasing by `key_lt`.
pub open spec fn key_sorted(st: Seq<CeOrderKey>, ep: Seq<CeOrderKey>, s: Seq<usize>) -> bool {
    forall|i: int, j: int| 0 <= i < j < s.len() ==> key_lt(st, ep, #[trigger] s[i], #[trigger] s[j])
}

/// `s` lists every combined index `0..total`.
pub open spec fn lists_indices(s: Seq<usize>, total: nat) -> bool {
    &&& s.len() == total
    &&& forall|i: int| 0 <= i < s.len() ==> #[trigger] s[i] < total
    &&& forall|x: usize| x < total ==> #[trigger] s.contains(x)
}

/// `s` is the combined indices sorted by layer, then timestamp, then index.
pub open spec fn sorted_indices(st: Seq<CeOrderKey>, ep: Seq<CeOrderKey>, s: Seq<usize>) -> bool {
    key_sorted(st, ep, s) && lists_indices(s, st.len() + ep.len())
}

pub open spec fn layer_of(st: Seq<CeOrderKey>, ep: Seq<CeOrderKey>, idx: usize) -> u8 {
    key_at(st, ep, idx as int).layer.spec_number()
}

/// The first position from `k` on whose entry is not in layer `l`.
pub open spec fn run_end_from(st: Seq<CeOrderKey>, ep: Seq<CeOrderKey>, s: Seq<usize>, l: u8, k: int) -> int
    decreases s.len() - k,
{
    if k < 0 || k >= s.len() || layer_of(st, ep, s[k]) != l {
        k
    } else {
        run_end_from(st, ep, s, l, k + 1)
    }
}

/// Where the run of one layer that starts at `start` ends.
pub open spec fn run_end(st: Seq<CeOrderKey>, ep: Seq<CeOrderKey>, s: Seq<usize>, start: int) -> int {
    run_end_from(st, ep, s, layer_of(st, ep, s[start]), start + 1)
}

proof fn lemma_run_end_from(st: Seq<CeOrderKey>, ep: Seq<CeOrderKey>, s: Seq<usize>, l: u8, k: int)
    requires
        0 <= k <= s.len(),
    ensures
        k <= run_end_from(st, ep, s, l, k) <= s.len(),
    decreases s.len() - k,
{
    if k < s.len() && layer_of(st, ep, s[k]) == l {
        lemma_run_end_from(st, ep, s, l, k + 1);
    }
}

/// The order in which the entries of `s` from `start` on apply: each run of
/// one layer in dependency order (a run of one entry as it is).
pub open spec fn order_from(st: Seq<CeOrderKey>, ep: Seq<CeOrderKey>, s: Seq<usize>, start: int) -> Seq<usize>
    decreases s.len() - start,
{
    if start < 0 || start >= s.len() {
        Seq::empty()
    } else {
        let e = run_end(st, ep, s, start);
        if e <= start || e > s.len() {
            Seq::empty()
        } else {
            let run = s.subrange(start, e);
            (if run.len() <= 1 {
                run
            } else {
                layer_order(st, ep, run)
            }) + order_from(st, ep, s, e)
        }
    }
}

/// The order in which all continuous effects apply, given the indices
/// sorted by layer, timestamp and index.
pub open spec fn application_order(st: Seq<CeOrderKey>, ep: Seq<CeOrderKey>, sorted: Seq<usize>) -> Seq<usize> {
    order_from(st, ep, sorted, 0)
}

proof fn lemma_key_sorted_unique(st: Seq<CeOrderKey>, ep: Seq<CeOrderKey>, s1: Seq<usize>, s2: Seq<usize>)
    requires
        key_sorted(st, ep, s1),
        key_sorted(st, ep, s2),
        forall|x: usize| #![trigger s1.contains(x)] #![trigger s2.contains(x)] s1.contains(x) <==> s2.contains(x),
    ensures
        s1 == s2,
    decreases s1.len(),
{
    if s1.len() == 0 {
        if s2.len() > 0 {
            assert(s2.contains(s2[0]));
        }
        assert(s1 =~= s2);
    } else {
        assert(s1.contains(s1[0]));
        assert(s2.len() > 0);
        let a = s1.last();
        let b = s2.last();
        assert(s1.contains(a));
        assert(s2.contains(b));
        let ka = choose|k: int| 0 <= k < s2.len() && s2[k] == a;
        let kb = choose|k: int| 0 <= k < s1.len() && s1[k] == b;
        if a != b {
            assert(ka < s2.len() - 1);
            assert(kb < s1.len() - 1);
            assert(key_lt(st, ep, s2[ka], s2[s2.len() - 1]));
            assert(key_lt(st, ep, s1[kb], s1[s1.len() - 1]));
        }
        let t1 = s1.drop_last();
        let t2 = s2.drop_last();
        assert forall|i: int, j: int| 0 <= i < j < t1.len() implies key_lt(
            st,
            ep,
            #[trigger] t1[i],
            #[trigger] t1[j],
        ) by {
            assert(t1[i] == s1[i] && t1[j] == s1[j]);
        }
        assert forall|i: int, j: int| 0 <= i < j < t2.len() implies key_lt(
            st,
            ep,
            #[trigger] t2[i],
            #[trigger] t2[j],
        ) by {
            assert(t2[i] == s2[i] && t2[j] == s2[j]);
        }
        assert forall|x: usize| #![trigger t1.contains(x)] #![trigger t2.contains(x)] t1.contains(x) <==> t2.contains(x) by {
            lemma_drop_last_contains(st, ep, s1, x);
            lemma_drop_last_contains(st, ep, s2, x);
        }
        lemma_key_sorted_unique(st, ep, t1, t2);
        assert(s1 =~= t1.push(a));
        assert(s2 =~= t2.push(b));
    }
}

proof fn lemma_drop_last_contains(st: Seq<CeOrderKey>, ep: Seq<CeOrderKey>, s: Seq<usize>, x: usize)
    requires
        key_sorted(st, ep, s),
        s.len() > 0,
    ensures
        s.drop_last().contains(x) <==> (s.contains(x) && x != s.last()),
{
    let t = s.drop_last();
    if t.contains(x) {
        let k = choose|k: int| 0 <= k < t.len() && t[k] == x;
        assert(s[k] == x);
        assert(key_lt(st, ep, s[k], s[s.len() - 1]));
    }
    if s.contains(x) && x != s.last() {
        let k = choose|k: int| 0 <= k < s.len() && s[k] == x;
        assert(t[k] == x);
    }
}

/// There is one way only to sort the combined indices by layer, timestamp
/// and index, so the application order depends on the effects alone.
pub proof fn lemma_sorted_indices_unique(st: Seq<CeOrderKey>, ep: Seq<CeOrderKey>, s1: Seq<usize>, s2: Seq<usize>)
    requires
        sorted_indices(st, ep, s1),
        sorted_indices(st, ep, s2),
    ensures
        s1 == s2,
{
    assert forall|x: usize| #![trigger s1.contains(x)] #![trigger s2.contains(x)] s1.contains(x) <==> s2.contains(x) by {
        if s1.contains(x) {
            let k = choose|k: int| 0 <= k < s1.len() && s1[k] == x;
            assert(s1[k] < st.len() + ep.len());
        }
        if s2.contains(x) {
            let k = choose|k: int| 0 <= k < s2.len() && s2[k] == x;
            assert(s2[k] < st.len() + ep.len());
        }
    }
    lemma_key_sorted_unique(st, ep, s1, s2);
}

fn key_before(st: &[CeOrderKey], ep: &[CeOrderKey], a: usize, b: usize) -> (r: bool)
    requires
        a < st@.len() + ep@.len(),
        b < st@.len() + ep@.len(),
    ensures
        r == key_lt(st@, ep@, a, b),
{
    let ka = key_of(st, ep, a);
    let kb = key_of(st, ep, b);
    let la = ka.layer.number();
    let lb = kb.layer.number();
    la < lb || (la == lb && ka.timestamp < kb.timestamp) || (la == lb && ka.timestamp == kb.timestamp
        && a < b)
}

/// The combined indices sorted by layer, then timestamp, then index.
fn sort_indices(st: &[CeOrderKey], ep: &[CeOrderKey]) -> (r: Vec<usize>)
    requires
        st@.len() + ep@.len() <= usize::MAX,
    ensures
        sorted_indices(st@, ep@, r@),
{
    let total = st.len() + ep.len();
    let mut sorted: Vec<usize> = Vec::new();
    for idx in 0..total
        invariant
            total == st@.len() + ep@.len(),
            sorted@.len() == idx,
            key_sorted(st@, ep@, sorted@),
            forall|i: int| 0 <= i < sorted@.len() ==> #[trigger] sorted@[i] < idx,
            forall|x: usize| x < idx ==> #[trigger] sorted@.contains(x),
    {
        let mut p: usize = 0;
        while p < sorted.len() && key_before(st, ep, sorted[p], idx)
            invariant
                total == st@.len() + ep@.len(),
                idx < total,
                p <= sorted@.len(),
                forall|i: int| 0 <= i < sorted@.len() ==> #[trigger] sorted@[i] < idx,
                forall|q: int| 0 <= q < p ==> key_lt(st@, ep@, #[trigger] sorted@[q], idx),
            decreases sorted@.len() - p,
        {
            p = p + 1;
        }
        let ghost old_s = sorted@;
        sorted.insert(p, idx);
        proof {
            let t = sorted@;
            assert(t == old_s.insert(p as int, idx));
            assert forall|q: int| p <= q < old_s.len() implies key_lt(st@, ep@, idx, #[trigger] old_s[q]) by {
                assert(!key_lt(st@, ep@, old_s[p as int], idx));
                assert(old_s[p as int] < idx);
                if q > p {
                    assert(key_lt(st@, ep@, old_s[p as int], old_s[q]));
                }
            }
            assert forall|i: int, j: int| 0 <= i < j < t.len() implies key_lt(
                st@,
                ep@,
                #[trigger] t[i],
                #[trigger] t[j],
            ) by {
                if j < p {
                    assert(t[i] == old_s[i] && t[j] == old_s[j]);
                } else if j == p {
                    assert(t[i] == old_s[i]);
                } else if i < p {
                    assert(t[i] == old_s[i] && t[j] == old_s[j - 1]);
                    assert(key_lt(st@, ep@, old_s[i], idx));
                    assert(key_lt(st@, ep@, idx, old_s[j - 1]));
                } else if i == p {
                    assert(t[j] == old_s[j - 1]);
                } else {
                    assert(t[i] == old_s[i - 1] && t[j] == old_s[j - 1]);
                }
            }
            assert forall|x: usize| x < idx + 1 implies #[trigger] t.contains(x) by {
                if x == idx {
                    assert(t[p as int] == idx);
                } else {
                    assert(old_s.contains(x));
                    let k = choose|k: int| 0 <= k < old_s.len() && old_s[k] == x;
                    if k < p {
                        assert(t[k] == x);
                    } else {
                        assert(t[k + 1] == x);
                    }
                }
            }
            assert forall|i: int| 0 <= i < t.len() implies #[trigger] t[i] < idx + 1 by {
                if i < p {
                    assert(t[i] == old_s[i]);
                } else if i > p {
                    assert(t[i] == old_s[i - 1]);
                }
            }
        }
    }
    sorted
}

/// The order in which the continuous effects apply: the combined indices
/// (the static instances, then the ephemeral ones) sorted by layer, then
/// timestamp, then index; each run of one layer then put in dependency
/// order.
pub fn application_order_of(static_cis: &[CeOrderKey], ephemeral_cis: &[CeOrderKey]) -> (r: Vec<usize>)
    requires
        static_cis@.len() + ephemeral_cis@.len() <= usize::MAX,
    ensures
        exists|sorted: Seq<usize>|
            sorted_indices(static_cis@, ephemeral_cis@, sorted) && r@ == application_order(
                static_cis@,
                ephemeral_cis@,
                sorted,
            ),
{
    let ghost st = static_cis@;
    let ghost ep = ephemeral_cis@;
    let ci_order = sort_indices(static_cis, ephemeral_cis);
    let ghost s = ci_order@;
    let n = ci_order.len();
    let mut final_order: Vec<usize> = Vec::new();
    let mut layer_start: usize = 0;
    while layer_start < n
        invariant
            n == s.len(),
            s == ci_order@,
            st == static_cis@,
            ep == ephemeral_cis@,
            sorted_indices(st, ep, s),
            layer_start <= n,
            final_order@ + order_from(st, ep, s, layer_start as int) == order_from(st, ep, s, 0),
        decreases n - layer_start,
    {
        let current_layer = key_of(static_cis, ephemeral_cis, ci_order[layer_start]).layer.number();
        let mut layer_end = layer_start;
        while layer_end < n && key_of(static_cis, ephemeral_cis, ci_order[layer_end]).layer.number()
            == current_layer
            invariant
                n == s.len(),
                s == ci_order@,
                st == static_cis@,
                ep == ephemeral_cis@,
                sorted_indices(st, ep, s),
                layer_start < n,
                current_layer == layer_of(st, ep, s[layer_start as int]),
                layer_start <= layer_end <= n,
                run_end_from(st, ep, s, current_layer, layer_end as int) == run_end(
                    st,
                    ep,
                    s,
                    layer_start as int,
                ),
            decreases n - layer_end,
        {
            layer_end = layer_end + 1;
        }
        let ghost run = s.subrange(layer_start as int, layer_end as int);
        let ghost before = final_order@;
        proof {
            assert(layer_end > layer_start);
            assert(layer_end as int == run_end(st, ep, s, layer_start as int));
            assert(forall|k: int| 0 <= k < run.len() ==> #[trigger] run[k] == s[layer_start + k]);
        }
        if layer_end - layer_start <= 1 {
            final_order.push(ci_order[layer_start]);
            proof {
                assert(run =~= seq![s[layer_start as int]]);
            }
        } else {
            let layer_slice = vstd::slice::slice_subrange(ci_order.as_slice(), layer_start, layer_end);
            topo_sort_layer(layer_slice, static_cis, ephemeral_cis, &mut final_order);
        }
        proof {
            let piece = if run.len() <= 1 {
                run
            } else {
                layer_order(st, ep, run)
            };
            assert(final_order@ == before + piece);
            assert(order_from(st, ep, s, layer_start as int) == piece + order_from(
                st,
                ep,
                s,
                layer_end as int,
            ));
            assert(before + piece + order_from(st, ep, s, layer_end as int) =~= before + (piece
                + order_from(st, ep, s, layer_end as int)));
        }
        layer_start = layer_end;
    }
    proof {
        assert(final_order@ + Seq::<usize>::empty() =~= final_order@);
    }
    final_order
}

} // verus!
