//! What the audio of the episodes of a season has in common.
//!
//! A fingerprint is a list of 32-bit items, one for each eighth of a second or so.
//! Two episodes are laid over one another at the offsets where most of their items
//! are equal; where they match for long enough, they share a segment.

use crate::markers::{Confidence, Marker, MarkerKind};
use crate::markers;
use crate::text;
use crate::types;
use std::collections::HashMap;
use vstd::prelude::*;

verus! {

/// The longest fingerprint that is compared.
pub const MAX_ITEMS: usize = 0x7fff_ffff;

/// The fewest items that a shared run must have.
pub const MIN_SEGMENT_ITEMS: usize = 121;

/// How many items the shortest segment worth a marker has.
pub fn min_segment_items() -> (r: usize)
    ensures
        r == MIN_SEGMENT_ITEMS,
        r == markers::MIN_SEGMENT_US / markers::FP_ITEM_US,
{
    (markers::MIN_SEGMENT_US / markers::FP_ITEM_US) as usize
}

// ---- items ----

/// How many bits of `x` are set.
pub open spec fn ones(x: u32) -> nat
    decreases x,
{
    if x == 0 {
        0
    } else {
        (x % 2) as nat + ones(x / 2)
    }
}

fn count_ones(x: u32) -> (r: u32)
    ensures
        r == ones(x),
        r <= 32,
{
    let mut n: u32 = 0;
    let mut rest: u32 = x;
    proof {
        vstd::arithmetic::power2::lemma2_to64();
        ones_bound(x, 32);
    }
    while rest > 0
        invariant
            n + ones(rest) == ones(x),
            ones(x) <= 32,
        decreases rest,
    {
        n += rest % 2;
        rest = rest / 2;
    }
    n
}

proof fn ones_bound(x: u32, bits: nat)
    requires
        bits <= 32,
        x < vstd::arithmetic::power2::pow2(bits),
    ensures
        ones(x) <= bits,
    decreases bits,
{
    vstd::arithmetic::power2::lemma2_to64();
    if x > 0 {
        if bits == 0 {
            assert(false);
        } else {
            vstd::arithmetic::power2::lemma_pow2_unfold(bits);
            ones_bound(x / 2, (bits - 1) as nat);
        }
    }
}

/// How often `v` stands in `b` before `j`.
pub open spec fn count_before(b: Seq<u32>, v: u32, j: int) -> nat
    decreases j,
{
    if j <= 0 {
        0
    } else {
        count_before(b, v, j - 1) + if b[j - 1] == v {
            1nat
        } else {
            0
        }
    }
}

/// Position `j` is among the first few of its value.
pub open spec fn is_early(b: Seq<u32>, j: int) -> bool {
    count_before(b, b[j], j) < markers::MAX_VALUE_POSITIONS
}

/// Item `i` of `a` equals the item of `b` that lies over it at offset `d`, and that one
/// is an early one of its value.
pub open spec fn is_anchor(a: Seq<u32>, b: Seq<u32>, d: int, i: int) -> bool {
    &&& 0 <= i < a.len()
    &&& 0 <= i + d < b.len()
    &&& a[i] == b[i + d]
    &&& is_early(b, i + d)
}

/// How many of the first `n` items of `a` are anchors at offset `d`.
pub open spec fn anchors(a: Seq<u32>, b: Seq<u32>, d: int, n: int) -> nat
    decreases n,
{
    if n <= 0 {
        0
    } else {
        anchors(a, b, d, n - 1) + if is_anchor(a, b, d, n - 1) {
            1nat
        } else {
            0
        }
    }
}

/// How many anchors the offset `d` has.
pub open spec fn hits(a: Seq<u32>, b: Seq<u32>, d: int) -> nat {
    anchors(a, b, d, a.len() as int)
}

proof fn anchors_bound(a: Seq<u32>, b: Seq<u32>, d: int, n: int)
    ensures
        n >= 0 ==> anchors(a, b, d, n) <= n,
    decreases n,
{
    if n > 0 {
        anchors_bound(a, b, d, n - 1);
    }
}

// ---- where the items of an episode stand ----

/// `list` holds, in order, the early positions of `v` among the first `n` items of `b`.
pub open spec fn lists_early(list: Seq<usize>, b: Seq<u32>, v: u32, n: int) -> bool {
    &&& forall|p: usize|
        #![trigger list.contains(p)]
        list.contains(p) <==> (p < n && b[p as int] == v && is_early(b, p as int))
    &&& list.no_duplicates()
    &&& list.len() == if count_before(b, v, n) < markers::MAX_VALUE_POSITIONS {
        count_before(b, v, n)
    } else {
        markers::MAX_VALUE_POSITIONS as nat
    }
}

/// `m` lists the early positions of every value among the first `n` items of `b`.
pub open spec fn indexes(m: Map<u32, Vec<usize>>, b: Seq<u32>, n: int) -> bool {
    &&& forall|v: u32| #[trigger] m.contains_key(v) ==> lists_early(m[v]@, b, v, n)
    &&& forall|v: u32| !(#[trigger] m.contains_key(v)) ==> count_before(b, v, n) == 0
}

proof fn count_before_step(b: Seq<u32>, v: u32, j: int)
    requires
        0 <= j,
    ensures
        count_before(b, v, j + 1) == count_before(b, v, j) + if b[j] == v {
            1nat
        } else {
            0
        },
{
}

proof fn none_before(b: Seq<u32>, v: u32, n: int, p: int)
    requires
        count_before(b, v, n) == 0,
        0 <= p < n,
    ensures
        b[p] != v,
    decreases n,
{
    if p < n - 1 {
        none_before(b, v, n - 1, p);
    }
}

fn index_positions(b: &Vec<u32>) -> (r: HashMap<u32, Vec<usize>>)
    ensures
        indexes(r@, b@, b@.len() as int),
{
    broadcast use vstd::std_specs::hash::group_hash_axioms;

    let mut m: HashMap<u32, Vec<usize>> = HashMap::new();
    let mut j: usize = 0;
    while j < b.len()
        invariant
            j <= b@.len(),
            indexes(m@, b@, j as int),
        decreases b@.len() - j,
    {
        let v: u32 = b[j];
        let ghost before = m@;
        let taken = m.remove(&v);
        let mut list: Vec<usize> = match taken {
            Some(l) => l,
            None => Vec::new(),
        };
        let ghost old_list = list@;
        proof {
            if !before.contains_key(v) {
                assert(count_before(b@, v, j as int) == 0);
                assert forall|p: usize|
                    #![trigger old_list.contains(p)]
                    old_list.contains(p) <==> (p < j && b@[p as int] == v && is_early(
                        b@,
                        p as int,
                    )) by {
                    if p < j {
                        none_before(b@, v, j as int, p as int);
                    }
                }
            }
            assert(lists_early(old_list, b@, v, j as int));
            count_before_step(b@, v, j as int);
        }
        if list.len() < markers::MAX_VALUE_POSITIONS {
            list.push(j);
            assert(list@ == old_list.push(j));
            assert(is_early(b@, j as int));
        }
        proof {
            assert forall|p: usize|
                #![trigger list@.contains(p)]
                list@.contains(p) <==> (p < j + 1 && b@[p as int] == v && is_early(
                    b@,
                    p as int,
                )) by {
                assert(old_list.contains(p) <==> (p < j && b@[p as int] == v && is_early(
                    b@,
                    p as int,
                )));
                if list@.len() > old_list.len() {
                    if old_list.contains(p) {
                        let k = choose|k: int| 0 <= k < old_list.len() && old_list[k] == p;
                        assert(list@[k] == p);
                    }
                    if p == j {
                        assert(list@[old_list.len() as int] == p);
                    }
                    if list@.contains(p) && p != j {
                        let k = choose|k: int| 0 <= k < list@.len() && list@[k] == p;
                        assert(old_list[k] == p);
                    }
                }
            }
            assert(list@.no_duplicates()) by {
                if list@.len() > old_list.len() {
                    assert(!old_list.contains(j));
                    assert forall|x: int, y: int|
                        0 <= x < list@.len() && 0 <= y < list@.len() && x != y implies list@[x]
                        != list@[y] by {
                        if x < old_list.len() && y < old_list.len() {
                        } else if x < old_list.len() {
                            assert(old_list.contains(old_list[x]));
                        } else {
                            assert(old_list.contains(old_list[y]));
                        }
                    }
                }
            }
            assert(lists_early(list@, b@, v, j + 1));
        }
        m.insert(v, list);
        proof {
            assert forall|w: u32| #[trigger] m@.contains_key(w) implies lists_early(
                m@[w]@,
                b@,
                w,
                j + 1,
            ) by {
                if w != v {
                    assert(before.contains_key(w));
                    assert(m@[w] == before[w]);
                    count_before_step(b@, w, j as int);
                    assert(lists_early(before[w]@, b@, w, j as int));
                    assert forall|p: usize|
                        #![trigger m@[w]@.contains(p)]
                        m@[w]@.contains(p) <==> (p < j + 1 && b@[p as int] == w && is_early(
                            b@,
                            p as int,
                        )) by {
                        assert(before[w]@.contains(p) <==> (p < j && b@[p as int] == w && is_early(
                            b@,
                            p as int,
                        )));
                    }
                }
            }
            assert forall|w: u32| !(#[trigger] m@.contains_key(w)) implies count_before(
                b@,
                w,
                j + 1,
            ) == 0 by {
                assert(!before.contains_key(w));
                count_before_step(b@, w, j as int);
            }
        }
        j += 1;
    }
    m
}

// ---- offsets ----

/// The offset with number `k`: the least one lays the last item of `a` over the first of `b`.
pub open spec fn offset_of(la: int, k: int) -> int {
    k - (la - 1)
}

/// The number of anchors of every offset, counted over the items of `a`.
fn count_hits(a: &Vec<u32>, b: &Vec<u32>) -> (r: Vec<usize>)
    requires
        0 < a@.len() <= MAX_ITEMS,
        0 < b@.len() <= MAX_ITEMS,
    ensures
        r@.len() == a@.len() + b@.len() - 1,
        forall|k: int|
            0 <= k < r@.len() ==> #[trigger] r@[k] == hits(
                a@,
                b@,
                offset_of(a@.len() as int, k),
            ),
{
    broadcast use vstd::std_specs::hash::group_hash_axioms;

    let la: usize = a.len();
    let lb: usize = b.len();
    let index = index_positions(b);
    let total: usize = la + lb - 1;
    let mut counts: Vec<usize> = Vec::new();
    let mut z: usize = 0;
    while z < total
        invariant
            z <= total,
            counts@.len() == z,
            forall|k: int| 0 <= k < z ==> counts@[k] == 0,
        decreases total - z,
    {
        counts.push(0);
        z += 1;
    }
    let mut i: usize = 0;
    while i < la
        invariant
            i <= la,
            la == a@.len() <= MAX_ITEMS,
            lb == b@.len() <= MAX_ITEMS,
            0 < la,
            0 < lb,
            total == la + lb - 1,
            counts@.len() == total,
            indexes(index@, b@, lb as int),
            forall|k: int|
                0 <= k < total ==> #[trigger] counts@[k] == anchors(
                    a@,
                    b@,
                    offset_of(la as int, k),
                    i as int,
                ),
        decreases la - i,
    {
        let v: u32 = a[i];
        let ghost base = counts@;
        match index.get(&v) {
            Some(list) => {
                let ghost ls = list@;
                assert(lists_early(ls, b@, v, lb as int));
                let mut t: usize = 0;
                while t < list.len()
                    invariant
                        t <= list@.len(),
                        ls == list@,
                        i < la,
                        la == a@.len() <= MAX_ITEMS,
                        lb == b@.len() <= MAX_ITEMS,
                        total == la + lb - 1,
                        counts@.len() == total,
                        base.len() == total,
                        a@[i as int] == v,
                        lists_early(ls, b@, v, lb as int),
                        forall|k: int|
                            0 <= k < total ==> #[trigger] base[k] == anchors(
                                a@,
                                b@,
                                offset_of(la as int, k),
                                i as int,
                            ),
                        forall|k: int|
                            0 <= k < total ==> #[trigger] counts@[k] == base[k] + if ls.take(
                                t as int,
                            ).contains((k - (la - 1) + i) as usize) && 0 <= k - (la - 1) + i {
                                1int
                            } else {
                                0
                            },
                    decreases list@.len() - t,
                {
                    let j: usize = list[t];
                    assert(ls.contains(j));
                    assert(j < lb);
                    let k: usize = j + (la - 1 - i);
                    proof {
                        anchors_bound(a@, b@, offset_of(la as int, k as int), i as int);
                        assert(ls.take(t + 1) =~= ls.take(t as int).push(j));
                        assert(!ls.take(t as int).contains(j)) by {
                            if ls.take(t as int).contains(j) {
                                let x = choose|x: int|
                                    0 <= x < ls.take(t as int).len() && ls.take(t as int)[x] == j;
                                assert(ls[x] == ls[t as int]);
                            }
                        }
                        assert((k - (la - 1) + i) as usize == j);
                    }
                    let ghost prev = counts@;
                    let now: usize = counts[k] + 1;
                    counts.set(k, now);
                    proof {
                        assert forall|q: int| 0 <= q < total implies #[trigger] counts@[q] == base[q]
                            + if ls.take(t + 1).contains((q - (la - 1) + i) as usize) && 0 <= q - (la
                            - 1) + i {
                            1int
                        } else {
                            0
                        } by {
                            let p = q - (la - 1) + i;
                            assert(prev[q] == base[q] + if ls.take(t as int).contains(p as usize)
                                && 0 <= p {
                                1int
                            } else {
                                0
                            });
                            if 0 <= p {
                                let s = ls.take(t as int);
                                if p as usize == j {
                                    assert(q == k);
                                    assert(s.push(j)[t as int] == j);
                                    assert(s.push(j).contains(j));
                                } else {
                                    assert(s.push(j).contains(p as usize) <==> s.contains(
                                        p as usize,
                                    )) by {
                                        if s.contains(p as usize) {
                                            let x = choose|x: int|
                                                0 <= x < s.len() && s[x] == p as usize;
                                            assert(s.push(j)[x] == p as usize);
                                        }
                                        if s.push(j).contains(p as usize) {
                                            let x = choose|x: int|
                                                0 <= x < s.push(j).len() && s.push(j)[x]
                                                    == p as usize;
                                            assert(s[x] == p as usize);
                                        }
                                    }
                                }
                            }
                        }
                    }
                    t += 1;
                }
                proof {
                    assert(ls.take(t as int) =~= ls);
                    assert forall|k: int| 0 <= k < total implies #[trigger] counts@[k] == anchors(
                        a@,
                        b@,
                        offset_of(la as int, k),
                        i + 1,
                    ) by {
                        let d = offset_of(la as int, k);
                        let p = i + d;
                        assert(base[k] == anchors(a@, b@, d, i as int));
                        if 0 <= p {
                            assert(ls.contains(p as usize) <==> ((p as usize) < lb && b@[p] == v
                                && is_early(b@, p)));
                        }
                        assert(is_anchor(a@, b@, d, i as int) <==> (0 <= p && ls.contains(
                            p as usize,
                        )));
                    }
                }
            },
            None => {
                proof {
                    assert(!index@.contains_key(v));
                    assert forall|k: int| 0 <= k < total implies #[trigger] counts@[k] == anchors(
                        a@,
                        b@,
                        offset_of(la as int, k),
                        i + 1,
                    ) by {
                        let d = offset_of(la as int, k);
                        if 0 <= i + d < lb {
                            none_before(b@, v, lb as int, i + d);
                        }
                    }
                }
            },
        }
        i += 1;
    }
    counts
}

/// Of the offsets with numbers below `k` that are not in `taken` and have enough
/// anchors, the one with most; the least of them where several have.
pub open spec fn best_upto(a: Seq<u32>, b: Seq<u32>, taken: Seq<int>, k: int) -> Option<int>
    decreases k,
{
    if k <= 0 {
        None
    } else {
        let d = offset_of(a.len() as int, k - 1);
        let best = best_upto(a, b, taken, k - 1);
        let beats = match best {
            Some(o) => hits(a, b, d) > hits(a, b, o),
            None => true,
        };
        if hits(a, b, d) >= markers::MIN_ANCHOR_HITS && !taken.contains(d) && beats {
            Some(d)
        } else {
            best
        }
    }
}

/// The offset with most anchors that is not in `taken`.
pub open spec fn best_offset(a: Seq<u32>, b: Seq<u32>, taken: Seq<int>) -> Option<int> {
    best_upto(a, b, taken, a.len() + b.len() - 1)
}

/// The `n` offsets with most anchors, in that order.
pub open spec fn top_offsets(a: Seq<u32>, b: Seq<u32>, n: nat) -> Seq<int>
    decreases n,
{
    if n == 0 {
        Seq::empty()
    } else {
        let rest = top_offsets(a, b, (n - 1) as nat);
        match best_offset(a, b, rest) {
            Some(d) => rest.push(d),
            None => rest,
        }
    }
}

/// The offsets that are tried are those with most anchors: each has enough of them, and
/// none that was left out has more.
pub proof fn top_offsets_are_best(a: Seq<u32>, b: Seq<u32>, taken: Seq<int>, k: int)
    requires
        a.len() > 0,
        b.len() > 0,
    ensures
        match best_upto(a, b, taken, k) {
            Some(d) => {
                &&& hits(a, b, d) >= markers::MIN_ANCHOR_HITS
                &&& !taken.contains(d)
                &&& forall|q: int|
                    0 <= q < k && !taken.contains(#[trigger] offset_of(a.len() as int, q)) ==> hits(
                        a,
                        b,
                        offset_of(a.len() as int, q),
                    ) <= hits(a, b, d)
            },
            None => forall|q: int|
                0 <= q < k && !taken.contains(#[trigger] offset_of(a.len() as int, q)) ==> hits(
                    a,
                    b,
                    offset_of(a.len() as int, q),
                ) < markers::MIN_ANCHOR_HITS,
        },
    decreases k,
{
    if k > 0 {
        top_offsets_are_best(a, b, taken, k - 1);
    }
}

proof fn best_upto_in_range(a: Seq<u32>, b: Seq<u32>, taken: Seq<int>, k: int)
    ensures
        best_upto(a, b, taken, k) matches Some(d) ==> -(a.len() - 1) <= d < k - (a.len() - 1),
    decreases k,
{
    if k > 0 {
        best_upto_in_range(a, b, taken, k - 1);
    }
}

/// The items of `a` that lie over an item of `b` at offset `d`.
pub open spec fn overlap(la: int, lb: int, d: int) -> (int, int) {
    let lo = if d < 0 {
        -d
    } else {
        0
    };
    let hi = if lb - d > 0 {
        lb - d
    } else {
        0
    };
    (
        if lo < la {
            lo
        } else {
            la
        },
        if hi < la {
            hi
        } else {
            la
        },
    )
}

/// The part of the first fingerprint that meets the second at the distance `d`.
pub fn overlap_range(la: usize, lb: usize, d: i64) -> (r: (usize, usize))
    requires
        la <= MAX_ITEMS,
        lb <= MAX_ITEMS,
        -0x1_0000_0000 <= d <= 0x1_0000_0000,
    ensures
        (r.0 as int, r.1 as int) == overlap(la as int, lb as int, d as int),
{
    let lo: i64 = if d < 0 { -d } else { 0 };
    let hi: i64 = if lb as i64 - d > 0 { lb as i64 - d } else { 0 };
    let from: usize = if lo < la as i64 { lo as usize } else { la };
    let to: usize = if hi < la as i64 { hi as usize } else { la };
    (from, to)
}

/// Exactly the items of the range lie over an item of the other episode.
pub proof fn overlap_is_exact(la: int, lb: int, d: int, i: int)
    requires
        la >= 0,
        lb >= 0,
    ensures
        overlap(la, lb, d).0 <= i < overlap(la, lb, d).1 <==> (0 <= i < la && 0 <= i + d < lb),
{
}

// ---- runs ----

/// Item `i` of `a` and the item of `b` over it at offset `d` differ in few bits.
pub open spec fn is_match(a: Seq<u32>, b: Seq<u32>, d: int, i: int) -> bool {
    ones(a[i] ^ b[i + d]) <= markers::HAMMING_BITS
}

/// A run of items of one episode.
pub type Span = (int, int);

/// `done` with the run from `s` to `l`, if it is long enough.
pub open spec fn closed_run(done: Seq<Span>, open: Option<Span>) -> Seq<Span> {
    match open {
        Some(r) => if r.1 + 1 - r.0 >= MIN_SEGMENT_ITEMS {
            done.push((r.0, r.1 + 1))
        } else {
            done
        },
        None => done,
    }
}

/// The runs of matching items among `a[lo..hi]`: those that are complete, and the first
/// and last match of the one that is open. A match joins the open run if no more than
/// the bridged number of mismatches lies between.
pub open spec fn scan_runs(a: Seq<u32>, b: Seq<u32>, d: int, lo: int, hi: int) -> (
    Seq<Span>,
    Option<Span>,
)
    decreases hi - lo,
{
    if hi <= lo {
        (Seq::empty(), None)
    } else {
        let (done, open) = scan_runs(a, b, d, lo, hi - 1);
        let i = hi - 1;
        if is_match(a, b, d, i) {
            match open {
                Some(r) => if i - r.1 - 1 <= markers::MAX_GAP_ITEMS {
                    (done, Some((r.0, i)))
                } else {
                    (closed_run(done, open), Some((i, i)))
                },
                None => (done, Some((i, i))),
            }
        } else {
            (done, open)
        }
    }
}

/// The runs that two episodes share at offset `d`, as items of the first.
pub open spec fn runs_at(a: Seq<u32>, b: Seq<u32>, d: int) -> Seq<Span> {
    let (lo, hi) = overlap(a.len() as int, b.len() as int, d);
    let (done, open) = scan_runs(a, b, d, lo, hi);
    closed_run(done, open)
}

/// A run that two episodes share, as items of each.
#[derive(Debug, Clone, Copy, PartialEq, Eq, Structural)]
pub struct PairRun {
    pub a_from: usize,
    pub a_to: usize,
    pub b_from: usize,
    pub b_to: usize,
}

pub open spec fn pair_run(r: Span, d: int) -> PairRun {
    PairRun {
        a_from: r.0 as usize,
        a_to: r.1 as usize,
        b_from: (r.0 + d) as usize,
        b_to: (r.1 + d) as usize,
    }
}

/// The runs that two episodes share at the given offsets.
pub open spec fn runs_at_all(a: Seq<u32>, b: Seq<u32>, ds: Seq<int>) -> Seq<PairRun>
    decreases ds.len(),
{
    if ds.len() == 0 {
        Seq::empty()
    } else {
        let d = ds.last();
        runs_at_all(a, b, ds.drop_last()) + runs_at(a, b, d).map_values(|r: Span| pair_run(r, d))
    }
}

/// All runs that two episodes share: none where one of them is too short.
pub open spec fn shared_runs(a: Seq<u32>, b: Seq<u32>) -> Seq<PairRun> {
    if a.len() < MIN_SEGMENT_ITEMS || b.len() < MIN_SEGMENT_ITEMS {
        Seq::empty()
    } else {
        runs_at_all(a, b, top_offsets(a, b, markers::TOP_OFFSETS as nat))
    }
}

/// A run lies within `lo..hi` and is long enough.
pub open spec fn run_fits(r: Span, lo: int, hi: int) -> bool {
    lo <= r.0 && r.1 <= hi && r.1 - r.0 >= MIN_SEGMENT_ITEMS
}

proof fn scan_bounds(a: Seq<u32>, b: Seq<u32>, d: int, lo: int, hi: int)
    ensures
        ({
            let (done, open) = scan_runs(a, b, d, lo, hi);
            &&& forall|k: int| 0 <= k < done.len() ==> run_fits(#[trigger] done[k], lo, hi)
            &&& open matches Some(r) ==> lo <= r.0 <= r.1 < hi
            &&& forall|k: int|
                0 <= k < closed_run(done, open).len() ==> run_fits(
                    #[trigger] closed_run(done, open)[k],
                    lo,
                    hi,
                )
        }),
    decreases hi - lo,
{
    if hi > lo {
        scan_bounds(a, b, d, lo, hi - 1);
    }
}

/// Every run that two episodes share lies within both of them, is as long in one as in
/// the other, and is long enough.
pub proof fn shared_run_fits(a: Seq<u32>, b: Seq<u32>, d: int, k: int)
    requires
        0 <= k < runs_at(a, b, d).len(),
    ensures
        0 <= runs_at(a, b, d)[k].0,
        runs_at(a, b, d)[k].1 <= a.len(),
        0 <= runs_at(a, b, d)[k].0 + d,
        runs_at(a, b, d)[k].1 + d <= b.len(),
        runs_at(a, b, d)[k].1 - runs_at(a, b, d)[k].0 >= MIN_SEGMENT_ITEMS,
{
    let (lo, hi) = overlap(a.len() as int, b.len() as int, d);
    scan_bounds(a, b, d, lo, hi);
}

fn push_runs(a: &Vec<u32>, b: &Vec<u32>, d: i64, out: &mut Vec<PairRun>)
    requires
        a@.len() <= MAX_ITEMS,
        b@.len() <= MAX_ITEMS,
        -0x1_0000_0000 <= d <= 0x1_0000_0000,
    ensures
        final(out)@ == old(out)@ + runs_at(a@, b@, d as int).map_values(
            |r: Span| pair_run(r, d as int),
        ),
{
    let (lo, hi) = overlap_range(a.len(), b.len(), d);
    let ghost f = |r: Span| pair_run(r, d as int);
    let mut open: Option<(usize, usize)> = None;
    let mut i: usize = lo;
    assert(out@ =~= old(out)@ + scan_runs(a@, b@, d as int, lo as int, lo as int).0.map_values(f));
    while i < hi
        invariant
            lo <= i,
            i <= hi || i == lo,
            hi <= a@.len(),
            a@.len() <= MAX_ITEMS,
            b@.len() <= MAX_ITEMS,
            -0x1_0000_0000 <= d <= 0x1_0000_0000,
            (lo as int, hi as int) == overlap(a@.len() as int, b@.len() as int, d as int),
            f == (|r: Span| pair_run(r, d as int)),
            out@ == old(out)@ + scan_runs(a@, b@, d as int, lo as int, i as int).0.map_values(f),
            match open {
                Some(r) => scan_runs(a@, b@, d as int, lo as int, i as int).1 == Some(
                    (r.0 as int, r.1 as int),
                ) && lo <= r.0 <= r.1 < i,
                None => scan_runs(a@, b@, d as int, lo as int, i as int).1 is None,
            },
        decreases hi - i,
    {
        proof {
            overlap_is_exact(a@.len() as int, b@.len() as int, d as int, i as int);
        }
        let j: usize = (i as i64 + d) as usize;
        let x: u32 = a[i] ^ b[j];
        let ghost before = scan_runs(a@, b@, d as int, lo as int, i as int);
        if count_ones(x) <= markers::HAMMING_BITS {
            match open {
                Some(r) => {
                    if i - r.1 - 1 <= markers::MAX_GAP_ITEMS {
                        open = Some((r.0, i));
                    } else {
                        if r.1 + 1 - r.0 >= MIN_SEGMENT_ITEMS {
                            proof {
                                overlap_is_exact(
                                    a@.len() as int,
                                    b@.len() as int,
                                    d as int,
                                    r.0 as int,
                                );
                                overlap_is_exact(
                                    a@.len() as int,
                                    b@.len() as int,
                                    d as int,
                                    r.1 as int,
                                );
                            }
                            out.push(
                                PairRun {
                                    a_from: r.0,
                                    a_to: r.1 + 1,
                                    b_from: (r.0 as i64 + d) as usize,
                                    b_to: (r.1 as i64 + 1 + d) as usize,
                                },
                            );
                            assert(before.0.push((r.0 as int, r.1 + 1)).map_values(f)
                                =~= before.0.map_values(f).push(f((r.0 as int, r.1 + 1))));
                        }
                        open = Some((i, i));
                    }
                },
                None => {
                    open = Some((i, i));
                },
            }
        }
        assert(out@ =~= old(out)@ + scan_runs(
            a@,
            b@,
            d as int,
            lo as int,
            i + 1,
        ).0.map_values(f));
        i += 1;
    }
    let ghost last = scan_runs(a@, b@, d as int, lo as int, hi as int);
    proof {
        if hi < lo {
            assert(scan_runs(a@, b@, d as int, lo as int, i as int) == (
                Seq::<Span>::empty(),
                None::<Span>,
            ));
        }
    }
    if let Some(r) = open {
        if r.1 + 1 - r.0 >= MIN_SEGMENT_ITEMS {
            proof {
                overlap_is_exact(a@.len() as int, b@.len() as int, d as int, r.0 as int);
                overlap_is_exact(a@.len() as int, b@.len() as int, d as int, r.1 as int);
            }
            out.push(
                PairRun {
                    a_from: r.0,
                    a_to: r.1 + 1,
                    b_from: (r.0 as i64 + d) as usize,
                    b_to: (r.1 as i64 + 1 + d) as usize,
                },
            );
            assert(last.0.push((r.0 as int, r.1 + 1)).map_values(f) =~= last.0.map_values(f).push(
                f((r.0 as int, r.1 + 1)),
            ));
        }
    }
    assert(out@ =~= old(out)@ + runs_at(a@, b@, d as int).map_values(f));
}

pub open spec fn as_offsets(v: Seq<i64>) -> Seq<int> {
    v.map_values(|d: i64| d as int)
}

/// Finds the runs that two episodes share.
pub fn find_pair_segments(a: &Vec<u32>, b: &Vec<u32>) -> (r: Vec<PairRun>)
    requires
        a@.len() <= MAX_ITEMS,
        b@.len() <= MAX_ITEMS,
    ensures
        r@ == shared_runs(a@, b@),
{
    let mut out: Vec<PairRun> = Vec::new();
    let least: usize = min_segment_items();
    if a.len() < least || b.len() < least {
        return out;
    }
    let counts = count_hits(a, b);
    let la: usize = a.len();
    let mut taken: Vec<i64> = Vec::new();
    let mut n: usize = 0;
    assert(as_offsets(taken@) =~= Seq::<int>::empty());
    while n < markers::TOP_OFFSETS
        invariant
            n <= markers::TOP_OFFSETS,
            la == a@.len(),
            0 < la <= MAX_ITEMS,
            0 < b@.len() <= MAX_ITEMS,
            counts@.len() == a@.len() + b@.len() - 1,
            forall|k: int|
                0 <= k < counts@.len() ==> #[trigger] counts@[k] == hits(
                    a@,
                    b@,
                    offset_of(a@.len() as int, k),
                ),
            as_offsets(taken@) == top_offsets(a@, b@, n as nat),
            out@ == runs_at_all(a@, b@, as_offsets(taken@)),
        decreases markers::TOP_OFFSETS - n,
    {
        let mut best: Option<usize> = None;
        let mut k: usize = 0;
        while k < counts.len()
            invariant
                k <= counts@.len(),
                la == a@.len(),
                0 < la <= MAX_ITEMS,
                0 < b@.len() <= MAX_ITEMS,
                    counts@.len() == a@.len() + b@.len() - 1,
                forall|q: int|
                    0 <= q < counts@.len() ==> #[trigger] counts@[q] == hits(
                        a@,
                        b@,
                        offset_of(a@.len() as int, q),
                    ),
                match best {
                    Some(q) => q < k && best_upto(a@, b@, as_offsets(taken@), k as int) == Some(
                        offset_of(la as int, q as int),
                    ),
                    None => best_upto(a@, b@, as_offsets(taken@), k as int) is None,
                },
            decreases counts@.len() - k,
        {
            let d: i64 = k as i64 - (la as i64 - 1);
            let c: usize = counts[k];
            let beats = match best {
                Some(q) => c > counts[q],
                None => true,
            };
            if c >= markers::MIN_ANCHOR_HITS && beats && !holds(&taken, d) {
                best = Some(k);
            }
            proof {
                assert(taken@.contains(d) <==> as_offsets(taken@).contains(d as int)) by {
                    if taken@.contains(d) {
                        let x = choose|x: int| 0 <= x < taken@.len() && taken@[x] == d;
                        assert(as_offsets(taken@)[x] == d as int);
                    }
                    if as_offsets(taken@).contains(d as int) {
                        let x = choose|x: int|
                            0 <= x < as_offsets(taken@).len() && as_offsets(taken@)[x] == d as int;
                        assert(taken@[x] == d);
                    }
                }
            }
            k += 1;
        }
        if let Some(q) = best {
            let d: i64 = q as i64 - (la as i64 - 1);
            let ghost before = taken@;
            push_runs(a, b, d, &mut out);
            taken.push(d);
            proof {
                assert(as_offsets(taken@) =~= as_offsets(before).push(d as int));
                assert(as_offsets(taken@).drop_last() =~= as_offsets(before));
            }
        }
        n += 1;
    }
    out
}

fn holds(v: &Vec<i64>, x: i64) -> (r: bool)
    ensures
        r == v@.contains(x),
{
    let mut i: usize = 0;
    while i < v.len()
        invariant
            i <= v@.len(),
            forall|j: int| 0 <= j < i ==> v@[j] != x,
        decreases v@.len() - i,
    {
        if v[i] == x {
            assert(v@[i as int] == x);
            return true;
        }
        i += 1;
    }
    false
}

// ---- a season ----

/// A run of one episode: its first item, the item after its last, and the number of the
/// episode it is shared with.
pub type Run = (usize, usize, usize);

/// A segment of one episode and the episodes it is shared with.
#[derive(Debug)]
pub struct SharedSegment {
    pub from: usize,
    pub to: usize,
    pub partners: Vec<usize>,
}

impl View for SharedSegment {
    type V = (usize, usize, Seq<usize>);

    open spec fn view(&self) -> (usize, usize, Seq<usize>) {
        (self.from, self.to, self.partners@)
    }
}

pub open spec fn segment_views(v: Seq<SharedSegment>) -> Seq<(usize, usize, Seq<usize>)> {
    v.map_values(|s: SharedSegment| s@)
}

/// `runs`, in the order of their starts, with `r` put behind those that start no later.
pub open spec fn with_run(runs: Seq<Run>, r: Run) -> Seq<Run>
    decreases runs.len(),
{
    if runs.len() == 0 || runs.last().0 <= r.0 {
        runs.push(r)
    } else {
        with_run(runs.drop_last(), r).push(runs.last())
    }
}

/// The runs in the order of their starts; those that start together keep their order.
pub open spec fn by_start(runs: Seq<Run>) -> Seq<Run>
    decreases runs.len(),
{
    if runs.len() == 0 {
        runs
    } else {
        with_run(by_start(runs.drop_last()), runs.last())
    }
}

/// `partners` with `p`, once.
pub open spec fn with_partner(partners: Seq<usize>, p: usize) -> Seq<usize> {
    if partners.contains(p) {
        partners
    } else {
        partners.push(p)
    }
}

/// The segments that runs in the order of their starts add up to: a run that starts
/// less than the gap behind a segment belongs to it.
pub open spec fn merged(runs: Seq<Run>) -> Seq<(usize, usize, Seq<usize>)>
    decreases runs.len(),
{
    if runs.len() == 0 {
        Seq::empty()
    } else {
        let done = merged(runs.drop_last());
        let (s, e, p) = runs.last();
        if done.len() > 0 && s < done.last().1 + markers::MERGE_GAP_ITEMS {
            let (from, to, partners) = done.last();
            done.drop_last().push(
                (
                    from,
                    if to < e {
                        e
                    } else {
                        to
                    },
                    with_partner(partners, p),
                ),
            )
        } else {
            done.push((s, e, seq![p]))
        }
    }
}

/// Two neighbouring segments are at least as far apart as the gap that is bridged.
pub proof fn merged_are_apart(runs: Seq<Run>, k: int)
    requires
        0 < k < merged(runs).len(),
    ensures
        merged(runs)[k].0 >= merged(runs)[k - 1].1 + markers::MERGE_GAP_ITEMS,
    decreases runs.len(),
{
    let done = merged(runs.drop_last());
    if k < done.len() {
        merged_are_apart(runs.drop_last(), k);
    }
}

/// Runs in the order of their starts.
pub open spec fn starts_ascend(runs: Seq<Run>) -> bool {
    forall|i: int, j: int| 0 <= i <= j < runs.len() ==> (#[trigger] runs[i]).0 <= (#[trigger] runs[j]).0
}

proof fn with_run_ascends(runs: Seq<Run>, r: Run)
    requires
        starts_ascend(runs),
    ensures
        starts_ascend(with_run(runs, r)),
        with_run(runs, r).len() == runs.len() + 1,
        with_run(runs, r).last().0 == r.0 || (runs.len() > 0 && with_run(runs, r).last()
            == runs.last() && r.0 < runs.last().0),
    decreases runs.len(),
{
    if runs.len() > 0 && runs.last().0 > r.0 {
        with_run_ascends(runs.drop_last(), r);
        let rest = with_run(runs.drop_last(), r);
        assert forall|i: int| 0 <= i < rest.len() implies (#[trigger] rest[i]).0
            <= runs.last().0 by {
            assert(rest[i].0 <= rest[rest.len() - 1].0);
            if runs.len() > 1 {
                assert(runs[runs.len() - 2].0 <= runs[runs.len() - 1].0);
            }
        }
    }
}

/// However the runs of an episode are listed, they are merged in the order of their starts.
pub proof fn by_start_ascends(runs: Seq<Run>)
    ensures
        starts_ascend(by_start(runs)),
        by_start(runs).len() == runs.len(),
    decreases runs.len(),
{
    if runs.len() > 0 {
        by_start_ascends(runs.drop_last());
        with_run_ascends(by_start(runs.drop_last()), runs.last());
    }
}

/// The segment `s` takes in the run `r`, and names its partner.
pub open spec fn takes_in(s: (usize, usize, Seq<usize>), r: Run) -> bool {
    s.0 <= r.0 && r.1 <= s.1 && s.2.contains(r.2)
}

proof fn merged_starts(runs: Seq<Run>)
    requires
        starts_ascend(runs),
    ensures
        runs.len() > 0 ==> merged(runs).len() > 0 && merged(runs).last().0 <= runs.last().0,
        forall|k: int|
            0 < k < merged(runs).len() ==> merged(runs)[k - 1].0 <= (#[trigger] merged(runs)[k]).0,
    decreases runs.len(),
{
    if runs.len() > 0 {
        let before = runs.drop_last();
        merged_starts(before);
        let done = merged(before);
        if before.len() > 0 {
            assert(runs[runs.len() - 2].0 <= runs[runs.len() - 1].0);
            assert(before.last() == runs[runs.len() - 2]);
        }
        assert forall|k: int| 0 < k < merged(runs).len() implies merged(runs)[k - 1].0 <= (
        #[trigger] merged(runs)[k]).0 by {
            if k < done.len() {
                assert(done[k - 1].0 <= done[k].0);
            }
        }
    }
}

/// The segments come in the order of their starts.
pub proof fn merged_ascend(runs: Seq<Run>, k: int)
    requires
        0 < k < merged(by_start(runs)).len(),
    ensures
        merged(by_start(runs))[k - 1].0 <= merged(by_start(runs))[k].0,
{
    by_start_ascends(runs);
    merged_starts(by_start(runs));
}

/// No run is lost: each lies within a segment that names its partner.
pub proof fn merged_hold_all(runs: Seq<Run>, i: int)
    requires
        starts_ascend(runs),
        0 <= i < runs.len(),
    ensures
        exists|q: int| 0 <= q < merged(runs).len() && takes_in(#[trigger] merged(runs)[q], runs[i]),
    decreases runs.len(),
{
    let before = runs.drop_last();
    let done = merged(before);
    let all = merged(runs);
    if i < before.len() {
        merged_hold_all(before, i);
        let q = choose|q: int| 0 <= q < done.len() && takes_in(#[trigger] done[q], before[i]);
        if all.len() == done.len() && q == done.len() - 1 {
            let w = choose|w: int| 0 <= w < done[q].2.len() && done[q].2[w] == before[i].2;
            assert(all[q].2[w] == before[i].2);
        }
        assert(takes_in(all[q], runs[i]));
    } else {
        let q = all.len() - 1;
        let p = runs.last().2;
        merged_starts(before);
        if before.len() > 0 {
            assert(before[before.len() - 1].0 <= runs[runs.len() - 1].0) by {
                assert(runs[runs.len() - 2].0 <= runs[runs.len() - 1].0);
            }
        }
        assert(all[q].2.contains(p)) by {
            if all.len() == done.len() {
                let old_partners = done.last().2;
                if !old_partners.contains(p) {
                    assert(old_partners.push(p)[old_partners.len() as int] == p);
                }
            } else {
                assert(seq![p][0] == p);
            }
        }
        assert(takes_in(all[q], runs[i]));
    }
}

/// A segment names each episode that it is shared with once.
pub proof fn merged_partners_once(runs: Seq<Run>, k: int)
    requires
        0 <= k < merged(runs).len(),
    ensures
        merged(runs)[k].2.no_duplicates(),
    decreases runs.len(),
{
    let done = merged(runs.drop_last());
    if k < done.len() {
        merged_partners_once(runs.drop_last(), k);
    }
}

proof fn with_run_at(runs: Seq<Run>, r: Run, k: int)
    requires
        0 <= k <= runs.len(),
        k == 0 || runs[k - 1].0 <= r.0,
        forall|i: int| k <= i < runs.len() ==> #[trigger] runs[i].0 > r.0,
    ensures
        with_run(runs, r) == runs.insert(k, r),
    decreases runs.len(),
{
    if k == runs.len() {
        assert(runs.insert(k, r) =~= runs.push(r));
    } else {
        assert(runs[runs.len() - 1].0 > r.0);
        with_run_at(runs.drop_last(), r, k);
        assert(runs.drop_last().insert(k, r).push(runs.last()) =~= runs.insert(k, r));
    }
}

fn sort_runs(runs: &Vec<Run>) -> (r: Vec<Run>)
    ensures
        r@ == by_start(runs@),
        forall|q: Run| r@.contains(q) <==> runs@.contains(q),
{
    let mut sorted: Vec<Run> = Vec::new();
    let mut i: usize = 0;
    assert(runs@.take(0) =~= Seq::<Run>::empty());
    while i < runs.len()
        invariant
            i <= runs@.len(),
            sorted@ == by_start(runs@.take(i as int)),
            sorted@.len() == i,
            forall|q: Run| sorted@.contains(q) <==> runs@.take(i as int).contains(q),
        decreases runs@.len() - i,
    {
        let run: Run = runs[i];
        let mut k: usize = sorted.len();
        while k > 0 && sorted[k - 1].0 > run.0
            invariant
                k <= sorted@.len(),
                forall|x: int| k <= x < sorted@.len() ==> #[trigger] sorted@[x].0 > run.0,
            decreases k,
        {
            k -= 1;
        }
        let ghost before = sorted@;
        proof {
            with_run_at(sorted@, run, k as int);
            assert(runs@.take(i + 1).drop_last() =~= runs@.take(i as int));
        }
        sorted.insert(k, run);
        proof {
            assert forall|q: Run| sorted@.contains(q) <==> runs@.take(i + 1).contains(q) by {
                if sorted@.contains(q) {
                    let x = choose|x: int| 0 <= x < sorted@.len() && sorted@[x] == q;
                    if x == k {
                        assert(runs@.take(i + 1)[i as int] == q);
                    } else {
                        let y = if x < k {
                            x
                        } else {
                            x - 1
                        };
                        assert(before[y] == q);
                        assert(before.contains(q));
                        assert(runs@.take(i as int).contains(q));
                        let z = choose|z: int|
                            0 <= z < i && #[trigger] runs@.take(i as int)[z] == q;
                        assert(runs@.take(i + 1)[z] == q);
                    }
                }
                if runs@.take(i + 1).contains(q) {
                    let z = choose|z: int| 0 <= z < i + 1 && #[trigger] runs@.take(i + 1)[z] == q;
                    if z == i {
                        assert(sorted@[k as int] == q);
                    } else {
                        assert(runs@.take(i as int)[z] == q);
                        assert(before.contains(q));
                        let y = choose|y: int| 0 <= y < before.len() && before[y] == q;
                        let x = if y < k {
                            y
                        } else {
                            y + 1
                        };
                        assert(sorted@[x] == q);
                    }
                }
            }
        }
        i += 1;
    }
    assert(runs@.take(i as int) =~= runs@);
    sorted
}

fn has_partner(v: &Vec<usize>, x: usize) -> (r: bool)
    ensures
        r == v@.contains(x),
{
    let mut i: usize = 0;
    while i < v.len()
        invariant
            i <= v@.len(),
            forall|j: int| 0 <= j < i ==> v@[j] != x,
        decreases v@.len() - i,
    {
        if v[i] == x {
            assert(v@[i as int] == x);
            return true;
        }
        i += 1;
    }
    false
}

/// A run, or a segment, starts no later than it ends and is no longer than a fingerprint.
pub open spec fn run_in_range(from: usize, to: usize) -> bool {
    from <= to <= MAX_ITEMS
}

/// Adds the runs of one episode up to segments.
pub fn merge_runs(runs: &Vec<Run>) -> (r: Vec<SharedSegment>)
    requires
        forall|k: int|
            0 <= k < runs@.len() ==> (#[trigger] runs@[k]).1 <= usize::MAX
                - markers::MERGE_GAP_ITEMS,
    ensures
        segment_views(r@) == merged(by_start(runs@)),
        all_in_range(runs@) ==> forall|k: int|
            0 <= k < r@.len() ==> run_in_range(#[trigger] r@[k].from, r@[k].to),
{
    let sorted = sort_runs(runs);
    let ghost fits = all_in_range(runs@);
    proof {
        assert forall|k: int| 0 <= k < sorted@.len() implies (#[trigger] sorted@[k]).1
            <= usize::MAX - markers::MERGE_GAP_ITEMS && (fits ==> run_in_range(
            sorted@[k].0,
            sorted@[k].1,
        )) by {
            assert(sorted@.contains(sorted@[k]));
            let x = choose|x: int| 0 <= x < runs@.len() && runs@[x] == sorted@[k];
            assert(runs@[x].1 == sorted@[k].1);
            assert(fits ==> run_in_range(runs@[x].0, runs@[x].1));
        }
    }
    let mut out: Vec<SharedSegment> = Vec::new();
    let mut i: usize = 0;
    assert(sorted@.take(0) =~= Seq::<Run>::empty());
    assert(segment_views(out@) =~= merged(sorted@.take(0)));
    while i < sorted.len()
        invariant
            i <= sorted@.len(),
            forall|k: int|
                0 <= k < sorted@.len() ==> (#[trigger] sorted@[k]).1 <= usize::MAX
                    - markers::MERGE_GAP_ITEMS && (fits ==> run_in_range(sorted@[k].0, sorted@[k].1)),
            forall|k: int|
                0 <= k < out@.len() ==> (#[trigger] out@[k]).to <= usize::MAX
                    - markers::MERGE_GAP_ITEMS && (fits ==> run_in_range(out@[k].from, out@[k].to)),
            segment_views(out@) == merged(sorted@.take(i as int)),
        decreases sorted@.len() - i,
    {
        let (s, e, p) = sorted[i];
        let ghost done = segment_views(out@);
        assert(sorted@[i as int].1 == e);
        proof {
            assert(sorted@.take(i + 1).drop_last() =~= sorted@.take(i as int));
        }
        let joins = match out.pop() {
            Some(last) => {
                assert(done.last() == last@);
                assert(segment_views(out@) =~= done.drop_last());
                if s < last.to + markers::MERGE_GAP_ITEMS {
                    let mut last = last;
                    if last.to < e {
                        last.to = e;
                    }
                    if !has_partner(&last.partners, p) {
                        last.partners.push(p);
                    }
                    out.push(last);
                    true
                } else {
                    out.push(last);
                    false
                }
            },
            None => false,
        };
        if !joins {
            assert(segment_views(out@) =~= done);
            let mut partners: Vec<usize> = Vec::new();
            partners.push(p);
            assert(partners@ =~= seq![p]);
            out.push(SharedSegment { from: s, to: e, partners });
        }
        assert(segment_views(out@) =~= merged(sorted@.take(i + 1)));
        i += 1;
    }
    assert(sorted@.take(i as int) =~= sorted@);
    out
}

/// One episode of a season that is analysed.
#[derive(Debug)]
pub struct SeasonEpisode {
    pub media_id: String,
    pub duration_us: i64,
    pub fp: Vec<u32>,
}

/// The runs of a pair, as those of its first episode.
pub open spec fn first_runs(pairs: Seq<PairRun>, partner: usize) -> Seq<Run> {
    pairs.map_values(|r: PairRun| (r.a_from, r.a_to, partner))
}

/// The runs of a pair, as those of its second episode.
pub open spec fn second_runs(pairs: Seq<PairRun>, partner: usize) -> Seq<Run> {
    pairs.map_values(|r: PairRun| (r.b_from, r.b_to, partner))
}

/// The runs that episode `k` has from the pair `i`, `j`.
pub open spec fn runs_from_pair(eps: Seq<SeasonEpisode>, k: int, i: int, j: int) -> Seq<Run> {
    let pairs = shared_runs(eps[i].fp@, eps[j].fp@);
    if k == i {
        first_runs(pairs, j as usize)
    } else if k == j {
        second_runs(pairs, i as usize)
    } else {
        Seq::empty()
    }
}

/// The runs that episode `k` has from the pairs of episode `i` with the later ones below `j`.
pub open spec fn runs_from_row(eps: Seq<SeasonEpisode>, k: int, i: int, j: int) -> Seq<Run>
    decreases j - i,
{
    if j <= i + 1 {
        Seq::empty()
    } else {
        runs_from_row(eps, k, i, j - 1) + runs_from_pair(eps, k, i, j - 1)
    }
}

/// The runs that episode `k` has from all pairs whose first episode is below `i`.
pub open spec fn runs_from_rows(eps: Seq<SeasonEpisode>, k: int, i: int) -> Seq<Run>
    decreases i,
{
    if i <= 0 {
        Seq::empty()
    } else {
        runs_from_rows(eps, k, i - 1) + runs_from_row(eps, k, i - 1, eps.len() as int)
    }
}

/// The segments that episode `k` shares with another of the season.
pub open spec fn shared_segments(eps: Seq<SeasonEpisode>, k: int) -> Seq<
    (usize, usize, Seq<usize>),
> {
    merged(by_start(runs_from_rows(eps, k, eps.len() as int)))
}

pub open spec fn is_long(s: (usize, usize, Seq<usize>)) -> bool {
    (s.1 - s.0) * markers::FP_ITEM_US >= markers::MIN_SEGMENT_US
}

/// The segments that last long enough for a marker.
pub open spec fn long_ones(v: Seq<(usize, usize, Seq<usize>)>) -> Seq<(usize, usize, Seq<usize>)> {
    v.filter(|s: (usize, usize, Seq<usize>)| is_long(s))
}

/// `m` marks the segment `s` of an episode of a season with `n` episodes.
pub open spec fn marks_segment(
    m: Marker,
    s: (usize, usize, Seq<usize>),
    duration: int,
    n: int,
) -> bool {
    &&& m.start_us == s.0 * markers::FP_ITEM_US
    &&& m.end_us == s.1 * markers::FP_ITEM_US
    &&& m.kind == markers::position_kind(m.start_us as int, m.end_us as int, duration)
    &&& types::opt_text(m.title) == if m.kind is Chapter {
        Some("Recurring segment"@)
    } else {
        None
    }
    &&& m.source@ == "audio"@
    &&& m.confidence.agreeing == s.2.len()
    &&& m.confidence.of == if n > 1 {
        n - 1
    } else {
        1
    }
}

pub open spec fn mark_segments(
    m: Seq<Marker>,
    s: Seq<(usize, usize, Seq<usize>)>,
    duration: int,
    n: int,
) -> bool {
    &&& m.len() == s.len()
    &&& forall|k: int| 0 <= k < m.len() ==> marks_segment(#[trigger] m[k], s[k], duration, n)
}

proof fn all_shared_in_range(a: Seq<u32>, b: Seq<u32>, ds: Seq<int>, k: int)
    requires
        a.len() <= MAX_ITEMS,
        b.len() <= MAX_ITEMS,
        0 <= k < runs_at_all(a, b, ds).len(),
    ensures
        run_in_range(runs_at_all(a, b, ds)[k].a_from, runs_at_all(a, b, ds)[k].a_to),
        run_in_range(runs_at_all(a, b, ds)[k].b_from, runs_at_all(a, b, ds)[k].b_to),
    decreases ds.len(),
{
    let rest = runs_at_all(a, b, ds.drop_last());
    if k < rest.len() {
        all_shared_in_range(a, b, ds.drop_last(), k);
    } else {
        let d = ds.last();
        shared_run_fits(a, b, d, k - rest.len());
        let r = runs_at(a, b, d)[k - rest.len()];
        assert(runs_at_all(a, b, ds)[k] == pair_run(r, d));
    }
}

/// The runs of a season's episode, as they are found.
pub open spec fn all_in_range(runs: Seq<Run>) -> bool {
    forall|k: int| 0 <= k < runs.len() ==> run_in_range(#[trigger] runs[k].0, runs[k].1)
}

fn tag_runs(pairs: &Vec<PairRun>, first: bool, partner: usize) -> (r: Vec<Run>)
    ensures
        r@ == if first {
            first_runs(pairs@, partner)
        } else {
            second_runs(pairs@, partner)
        },
{
    let mut out: Vec<Run> = Vec::new();
    let mut i: usize = 0;
    while i < pairs.len()
        invariant
            i <= pairs@.len(),
            out@ == if first {
                first_runs(pairs@.take(i as int), partner)
            } else {
                second_runs(pairs@.take(i as int), partner)
            },
        decreases pairs@.len() - i,
    {
        let p: PairRun = pairs[i];
        if first {
            out.push((p.a_from, p.a_to, partner));
        } else {
            out.push((p.b_from, p.b_to, partner));
        }
        assert(pairs@.take(i + 1) =~= pairs@.take(i as int).push(p));
        i += 1;
    }
    assert(pairs@.take(i as int) =~= pairs@);
    out
}

/// The runs of every episode of a season.
fn season_runs(eps: &Vec<SeasonEpisode>) -> (r: Vec<Vec<Run>>)
    requires
        forall|k: int| 0 <= k < eps@.len() ==> (#[trigger] eps@[k]).fp@.len() <= MAX_ITEMS,
    ensures
        r@.len() == eps@.len(),
        forall|k: int|
            0 <= k < r@.len() ==> (#[trigger] r@[k])@ == runs_from_rows(
                eps@,
                k,
                eps@.len() as int,
            ),
        forall|k: int| 0 <= k < r@.len() ==> all_in_range((#[trigger] r@[k])@),
{
    let n: usize = eps.len();
    let mut raw: Vec<Vec<Run>> = Vec::new();
    let mut z: usize = 0;
    while z < n
        invariant
            z <= n,
            raw@.len() == z,
            forall|k: int| 0 <= k < z ==> (#[trigger] raw@[k])@ == Seq::<Run>::empty(),
        decreases n - z,
    {
        raw.push(Vec::new());
        z += 1;
    }
    let mut i: usize = 0;
    while i < n
        invariant
            i <= n,
            n == eps@.len(),
            raw@.len() == n,
            forall|k: int| 0 <= k < eps@.len() ==> (#[trigger] eps@[k]).fp@.len() <= MAX_ITEMS,
            forall|k: int| 0 <= k < n ==> (#[trigger] raw@[k])@ == runs_from_rows(eps@, k, i as int),
            forall|k: int| 0 <= k < n ==> all_in_range((#[trigger] raw@[k])@),
        decreases n - i,
    {
        let mut j: usize = i + 1;
        proof {
            assert forall|k: int| 0 <= k < n implies (#[trigger] raw@[k])@ == runs_from_rows(
                eps@,
                k,
                i as int,
            ) + runs_from_row(eps@, k, i as int, j as int) by {
                assert(raw@[k]@ =~= runs_from_rows(eps@, k, i as int) + runs_from_row(
                    eps@,
                    k,
                    i as int,
                    j as int,
                ));
            }
        }
        while j < n
            invariant
                i < j <= n,
                n == eps@.len(),
                raw@.len() == n,
                forall|k: int| 0 <= k < eps@.len() ==> (#[trigger] eps@[k]).fp@.len() <= MAX_ITEMS,
                forall|k: int|
                    0 <= k < n ==> (#[trigger] raw@[k])@ == runs_from_rows(eps@, k, i as int)
                        + runs_from_row(eps@, k, i as int, j as int),
                forall|k: int| 0 <= k < n ==> all_in_range((#[trigger] raw@[k])@),
            decreases n - j,
        {
            let pairs = find_pair_segments(&eps[i].fp, &eps[j].fp);
            let mut mine = tag_runs(&pairs, true, j);
            let mut theirs = tag_runs(&pairs, false, i);
            let ghost before = raw@;
            let ghost a = eps@[i as int].fp@;
            let ghost b = eps@[j as int].fp@;
            let ghost mine_seq = mine@;
            let ghost theirs_seq = theirs@;
            proof {
                assert forall|k: int| 0 <= k < pairs@.len() implies run_in_range(
                    (#[trigger] pairs@[k]).a_from,
                    pairs@[k].a_to,
                ) && run_in_range(pairs@[k].b_from, pairs@[k].b_to) by {
                    all_shared_in_range(a, b, top_offsets(a, b, markers::TOP_OFFSETS as nat), k);
                }
                assert(mine_seq == runs_from_pair(eps@, i as int, i as int, j as int));
                assert(theirs_seq == runs_from_pair(eps@, j as int, i as int, j as int));
            }
            raw[i].append(&mut mine);
            raw[j].append(&mut theirs);
            proof {
                assert(raw@[i as int]@ == before[i as int]@ + mine_seq);
                assert(raw@[j as int]@ == before[j as int]@ + theirs_seq);
                assert forall|k: int| 0 <= k < n implies (#[trigger] raw@[k])@ == runs_from_rows(
                    eps@,
                    k,
                    i as int,
                ) + runs_from_row(eps@, k, i as int, j + 1) by {
                    let add = runs_from_pair(eps@, k, i as int, j as int);
                    assert(before[k]@ == runs_from_rows(eps@, k, i as int) + runs_from_row(
                        eps@,
                        k,
                        i as int,
                        j as int,
                    ));
                    assert(raw@[k]@ =~= before[k]@ + add);
                    assert(raw@[k]@ =~= runs_from_rows(eps@, k, i as int) + (runs_from_row(
                        eps@,
                        k,
                        i as int,
                        j as int,
                    ) + add));
                }
                assert forall|k: int| 0 <= k < n implies all_in_range((#[trigger] raw@[k])@) by {
                    assert(all_in_range(before[k]@));
                    let add = runs_from_pair(eps@, k, i as int, j as int);
                    assert(raw@[k]@ =~= before[k]@ + add);
                    assert(all_in_range(add)) by {
                        if k == i || k == j {
                            assert forall|x: int| 0 <= x < add.len() implies run_in_range(
                                #[trigger] add[x].0,
                                add[x].1,
                            ) by {
                                let p = pairs@[x];
                            }
                        }
                    }
                }
            }
            j += 1;
        }
        i += 1;
    }
    raw
}

/// Compares every two episodes of a season: for each episode, its id and the markers of
/// the segments that it shares with another. A segment counts for more the more episodes
/// have it.
pub fn analyze_season(eps: &Vec<SeasonEpisode>) -> (r: Vec<(String, Vec<Marker>)>)
    requires
        forall|k: int| 0 <= k < eps@.len() ==> (#[trigger] eps@[k]).fp@.len() <= MAX_ITEMS,
    ensures
        r@.len() == eps@.len(),
        forall|k: int|
            0 <= k < r@.len() ==> (#[trigger] r@[k]).0@ == eps@[k].media_id@ && mark_segments(
                r@[k].1@,
                long_ones(shared_segments(eps@, k)),
                eps@[k].duration_us as int,
                eps@.len() as int,
            ),
{
    let n: usize = eps.len();
    let raw = season_runs(eps);
    let mut out: Vec<(String, Vec<Marker>)> = Vec::new();
    let mut i: usize = 0;
    while i < n
        invariant
            i <= n,
            n == eps@.len(),
            raw@.len() == n,
            forall|k: int|
                0 <= k < n ==> (#[trigger] raw@[k])@ == runs_from_rows(eps@, k, n as int),
            forall|k: int| 0 <= k < n ==> all_in_range((#[trigger] raw@[k])@),
            out@.len() == i,
            forall|k: int|
                0 <= k < i ==> (#[trigger] out@[k]).0@ == eps@[k].media_id@ && mark_segments(
                    out@[k].1@,
                    long_ones(shared_segments(eps@, k)),
                    eps@[k].duration_us as int,
                    n as int,
                ),
        decreases n - i,
    {
        assert(all_in_range(raw@[i as int]@));
        assert forall|k: int| 0 <= k < raw@[i as int]@.len() implies (#[trigger] raw@[i as int]@[k]).1
            <= usize::MAX - markers::MERGE_GAP_ITEMS by {
            assert(run_in_range(raw@[i as int]@[k].0, raw@[i as int]@[k].1));
        }
        let segments = merge_runs(&raw[i]);
        let found = segment_markers(&segments, eps[i].duration_us, n);
        out.push((text::own(&eps[i].media_id), found));
        i += 1;
    }
    out
}

fn segment_markers(segments: &Vec<SharedSegment>, duration_us: i64, n: usize) -> (r: Vec<Marker>)
    requires
        forall|k: int|
            0 <= k < segments@.len() ==> run_in_range(
                #[trigger] segments@[k].from,
                segments@[k].to,
            ),
    ensures
        mark_segments(
            r@,
            long_ones(segment_views(segments@)),
            duration_us as int,
            n as int,
        ),
{
    let mut out: Vec<Marker> = Vec::new();
    let ghost views = segment_views(segments@);
    let ghost f = |s: (usize, usize, Seq<usize>)| is_long(s);
    let mut i: usize = 0;
    proof {
        assert(views.take(0) =~= Seq::empty());
        reveal(Seq::filter);
    }
    while i < segments.len()
        invariant
            i <= segments@.len(),
            views == segment_views(segments@),
            f == (|s: (usize, usize, Seq<usize>)| is_long(s)),
            forall|k: int|
                0 <= k < segments@.len() ==> run_in_range(
                    #[trigger] segments@[k].from,
                    segments@[k].to,
                ),
            mark_segments(out@, views.take(i as int).filter(f), duration_us as int, n as int),
        decreases segments@.len() - i,
    {
        let s = &segments[i];
        assert(run_in_range(segments@[i as int].from, segments@[i as int].to));
        proof {
            assert(views[i as int] == s@);
            assert(views.take(i + 1).drop_last() =~= views.take(i as int));
            reveal(Seq::filter);
        }
        if (s.to - s.from) as u64 * markers::FP_ITEM_US >= markers::MIN_SEGMENT_US {
            let start_us: i64 = (s.from as u64 * markers::FP_ITEM_US) as i64;
            let end_us: i64 = (s.to as u64 * markers::FP_ITEM_US) as i64;
            let kind = markers::classify_by_position(start_us, end_us, duration_us);
            let title: Option<String> = match kind {
                MarkerKind::Chapter => Some(text::own("Recurring segment")),
                _ => None,
            };
            let of: u64 = if n > 1 { (n - 1) as u64 } else { 1 };
            out.push(
                Marker {
                    kind,
                    start_us,
                    end_us,
                    title,
                    source: text::own("audio"),
                    confidence: Confidence { agreeing: s.partners.len() as u64, of },
                },
            );
        }
        i += 1;
    }
    assert(views.take(i as int) =~= views);
    out
}

// ---- how sure a marker is ----

/// `p` is the number of an episode of a season with `n` episodes, and not that of `k`.
pub open spec fn is_other(p: usize, k: int, n: int) -> bool {
    p < n && p != k
}

spec fn from_others(runs: Seq<Run>, k: int, n: int) -> bool {
    forall|x: int| 0 <= x < runs.len() ==> is_other(#[trigger] runs[x].2, k, n)
}

proof fn row_is_from_others(eps: Seq<SeasonEpisode>, k: int, i: int, j: int)
    requires
        0 <= k < eps.len() <= usize::MAX,
        0 <= i < eps.len(),
        j <= eps.len(),
    ensures
        from_others(runs_from_row(eps, k, i, j), k, eps.len() as int),
    decreases j - i,
{
    if j > i + 1 {
        row_is_from_others(eps, k, i, j - 1);
        let rest = runs_from_row(eps, k, i, j - 1);
        let last = runs_from_pair(eps, k, i, j - 1);
        assert(from_others(last, k, eps.len() as int));
        assert forall|x: int| 0 <= x < (rest + last).len() implies is_other(
            #[trigger] (rest + last)[x].2,
            k,
            eps.len() as int,
        ) by {
            if x < rest.len() {
                assert((rest + last)[x] == rest[x]);
            } else {
                assert((rest + last)[x] == last[x - rest.len()]);
            }
        }
    }
}

proof fn rows_are_from_others(eps: Seq<SeasonEpisode>, k: int, i: int)
    requires
        0 <= k < eps.len() <= usize::MAX,
        i <= eps.len(),
    ensures
        from_others(runs_from_rows(eps, k, i), k, eps.len() as int),
    decreases i,
{
    if i > 0 {
        rows_are_from_others(eps, k, i - 1);
        row_is_from_others(eps, k, i - 1, eps.len() as int);
        let rest = runs_from_rows(eps, k, i - 1);
        let last = runs_from_row(eps, k, i - 1, eps.len() as int);
        assert forall|x: int| 0 <= x < (rest + last).len() implies is_other(
            #[trigger] (rest + last)[x].2,
            k,
            eps.len() as int,
        ) by {
            if x < rest.len() {
                assert((rest + last)[x] == rest[x]);
            } else {
                assert((rest + last)[x] == last[x - rest.len()]);
            }
        }
    }
}

proof fn with_run_from_others(runs: Seq<Run>, r: Run, k: int, n: int)
    requires
        from_others(runs, k, n),
        is_other(r.2, k, n),
    ensures
        from_others(with_run(runs, r), k, n),
    decreases runs.len(),
{
    if runs.len() != 0 && runs.last().0 > r.0 {
        assert(is_other(runs[runs.len() - 1].2, k, n));
        with_run_from_others(runs.drop_last(), r, k, n);
    }
}

proof fn by_start_from_others(runs: Seq<Run>, k: int, n: int)
    requires
        from_others(runs, k, n),
    ensures
        from_others(by_start(runs), k, n),
    decreases runs.len(),
{
    if runs.len() != 0 {
        by_start_from_others(runs.drop_last(), k, n);
        assert(is_other(runs[runs.len() - 1].2, k, n));
        with_run_from_others(by_start(runs.drop_last()), runs.last(), k, n);
    }
}

proof fn merged_from_others(runs: Seq<Run>, k: int, n: int, q: int, x: int)
    requires
        from_others(runs, k, n),
        0 <= q < merged(runs).len(),
        0 <= x < merged(runs)[q].2.len(),
    ensures
        is_other(merged(runs)[q].2[x], k, n),
    decreases runs.len(),
{
    let done = merged(runs.drop_last());
    assert(is_other(runs[runs.len() - 1].2, k, n));
    if q < done.len() && x < done[q].2.len() {
        merged_from_others(runs.drop_last(), k, n, q, x);
    }
}

/// The episodes that a segment is shared with are others of the season, each named once.
/// So a marker never has more episodes agreeing than there are to agree: how sure it is
/// lies between none and all.
pub proof fn agreeing_are_others(eps: Seq<SeasonEpisode>, k: int, q: int)
    requires
        0 <= k < eps.len() <= usize::MAX,
        0 <= q < shared_segments(eps, k).len(),
    ensures
        shared_segments(eps, k)[q].2.no_duplicates(),
        forall|x: int|
            0 <= x < shared_segments(eps, k)[q].2.len() ==> is_other(
                #[trigger] shared_segments(eps, k)[q].2[x],
                k,
                eps.len() as int,
            ),
        shared_segments(eps, k)[q].2.len() <= eps.len() - 1,
{
    let n = eps.len() as int;
    let runs = runs_from_rows(eps, k, n);
    let partners = shared_segments(eps, k)[q].2;
    rows_are_from_others(eps, k, n);
    by_start_from_others(runs, k, n);
    merged_partners_once(by_start(runs), q);
    assert forall|x: int| 0 <= x < partners.len() implies is_other(
        #[trigger] partners[x],
        k,
        n,
    ) by {
        merged_from_others(by_start(runs), k, n, q, x);
    }
    let numbers = partners.map_values(|p: usize| p as int);
    assert(numbers.no_duplicates());
    numbers.unique_seq_to_set();
    vstd::set_lib::lemma_int_range(0, n);
    let others = vstd::set_lib::set_int_range(0, n).remove(k);
    assert(numbers.to_set().subset_of(others)) by {
        assert forall|v: int| numbers.to_set().contains(v) implies others.contains(v) by {
            let x = choose|x: int| 0 <= x < numbers.len() && numbers[x] == v;
            assert(is_other(partners[x], k, n));
        }
    }
    vstd::set_lib::lemma_len_subset(numbers.to_set(), others);
}

// ---- what the segments have in common ----

/// Clearing the lowest set bit of an item leaves one bit less to count, down to none.
pub proof fn ones_are_set_bits(x: u32)
    ensures
        ones(0) == 0,
        x > 0 ==> ones(x) == ones(x & ((x - 1) as u32)) + 1,
    decreases x,
{
    if x > 0 {
        let y: u32 = x / 2;
        let z: u32 = (x - 1) as u32;
        if x % 2 == 1 {
            assert(x & z == z && z % 2 == 0 && z / 2 == y) by (bit_vector)
                requires
                    x % 2 == 1,
                    y == x / 2,
                    z == x - 1,
            ;
        } else {
            ones_are_set_bits(y);
            let w: u32 = (y - 1) as u32;
            assert((x & z) % 2 == 0 && (x & z) / 2 == y & w) by (bit_vector)
                requires
                    x > 0,
                    x % 2 == 0,
                    y == x / 2,
                    z == x - 1,
                    w == y - 1,
            ;
            if x & z == 0 {
                assert(ones(y & w) == 0);
            }
        }
    }
}

/// Two items are alike where they differ in six bits at most.
pub open spec fn alike(x: u32, y: u32) -> bool {
    ones(x ^ y) <= 6
}

proof fn alike_both_ways(x: u32, y: u32)
    ensures
        alike(x, y) == alike(y, x),
{
    assert(x ^ y == y ^ x) by (bit_vector);
}

/// Among the nine items of `x` from `p` on, before `to`, one is like the item of `y` that
/// lies `shift` behind it.
pub open spec fn alike_soon(x: Seq<u32>, y: Seq<u32>, shift: int, p: int, to: int) -> bool {
    exists|q: int| p <= q <= p + 8 && q < to && alike(#[trigger] x[q], y[q + shift])
}

/// The items `from..to` of `x` and those of `y` that lie `shift` behind them: the first two
/// are alike, the last two are, and between them no more than eight in a row are not.
pub open spec fn is_stretch(x: Seq<u32>, y: Seq<u32>, shift: int, from: int, to: int) -> bool {
    &&& 0 <= from < to <= x.len()
    &&& 0 <= from + shift
    &&& to + shift <= y.len()
    &&& alike(x[from], y[from + shift])
    &&& alike(x[to - 1], y[to - 1 + shift])
    &&& forall|p: int| from <= p < to ==> #[trigger] alike_soon(x, y, shift, p, to)
}

/// A stretch that is long enough to count.
pub open spec fn is_shared_stretch(x: Seq<u32>, y: Seq<u32>, shift: int, from: int, to: int) -> bool {
    is_stretch(x, y, shift, from, to) && to - from >= 121
}

proof fn stretch_both_ways(x: Seq<u32>, y: Seq<u32>, shift: int, from: int, to: int)
    requires
        is_stretch(x, y, shift, from, to),
    ensures
        is_stretch(y, x, -shift, from + shift, to + shift),
{
    alike_both_ways(x[from], y[from + shift]);
    alike_both_ways(x[to - 1], y[to - 1 + shift]);
    assert forall|p: int| from + shift <= p < to + shift implies #[trigger] alike_soon(
        y,
        x,
        -shift,
        p,
        to + shift,
    ) by {
        assert(alike_soon(x, y, shift, p - shift, to));
        let q = choose|q: int|
            p - shift <= q <= p - shift + 8 && q < to && alike(#[trigger] x[q], y[q + shift]);
        alike_both_ways(x[q], y[q + shift]);
        let w = q + shift;
        assert(alike(y[w], x[w - shift]));
    }
}

/// Prefix of a stretch: it ends wherever two items are alike.
proof fn stretch_cut(x: Seq<u32>, y: Seq<u32>, shift: int, from: int, to: int, cut: int)
    requires
        is_stretch(x, y, shift, from, to),
        from < cut <= to,
        alike(x[cut - 1], y[cut - 1 + shift]),
        forall|q: int| cut <= q < to - 1 ==> !alike(#[trigger] x[q], y[q + shift]),
    ensures
        is_stretch(x, y, shift, from, cut),
{
    assert forall|p: int| from <= p < cut implies #[trigger] alike_soon(x, y, shift, p, cut) by {
        assert(alike_soon(x, y, shift, p, to));
        let q = choose|q: int|
            p <= q <= p + 8 && q < to && alike(#[trigger] x[q], y[q + shift]);
        if q >= cut {
            assert(alike(x[cut - 1], y[cut - 1 + shift]));
        }
    }
}

proof fn stretch_extended(x: Seq<u32>, y: Seq<u32>, shift: int, from: int, to: int, i: int)
    requires
        is_stretch(x, y, shift, from, to),
        to <= i < x.len(),
        i + shift < y.len(),
        i - to <= 8,
        alike(x[i], y[i + shift]),
    ensures
        is_stretch(x, y, shift, from, i + 1),
{
    assert forall|p: int| from <= p < i + 1 implies #[trigger] alike_soon(
        x,
        y,
        shift,
        p,
        i + 1,
    ) by {
        if p < to {
            assert(alike_soon(x, y, shift, p, to));
            let q = choose|q: int|
                p <= q <= p + 8 && q < to && alike(#[trigger] x[q], y[q + shift]);
            assert(alike(x[q], y[q + shift]));
        } else {
            assert(alike(x[i], y[i + shift]));
        }
    }
}

proof fn scanned_stretches(a: Seq<u32>, b: Seq<u32>, d: int, lo: int, hi: int)
    requires
        0 <= lo <= hi <= a.len(),
        0 <= lo + d,
        hi + d <= b.len(),
    ensures
        ({
            let (done, open) = scan_runs(a, b, d, lo, hi);
            &&& forall|k: int|
                0 <= k < done.len() ==> is_shared_stretch(
                    a,
                    b,
                    d,
                    (#[trigger] done[k]).0,
                    done[k].1,
                )
            &&& match open {
                Some(r) => {
                    &&& lo <= r.0 <= r.1 < hi
                    &&& is_stretch(a, b, d, r.0, r.1 + 1)
                    &&& forall|q: int| r.1 < q < hi ==> !alike(#[trigger] a[q], b[q + d])
                },
                None => forall|q: int| lo <= q < hi ==> !alike(#[trigger] a[q], b[q + d]),
            }
        }),
    decreases hi - lo,
{
    if hi > lo {
        scanned_stretches(a, b, d, lo, hi - 1);
        let (done, open) = scan_runs(a, b, d, lo, hi - 1);
        let i = hi - 1;
        if is_match(a, b, d, i) {
            assert(alike(a[i], b[i + d]));
            assert(is_stretch(a, b, d, i, i + 1)) by {
                assert forall|p: int| i <= p < i + 1 implies #[trigger] alike_soon(
                    a,
                    b,
                    d,
                    p,
                    i + 1,
                ) by {
                    assert(alike(a[i], b[i + d]));
                }
            }
            match open {
                Some(r) => if i - r.1 - 1 <= markers::MAX_GAP_ITEMS {
                    stretch_extended(a, b, d, r.0, r.1 + 1, i);
                },
                None => {},
            }
        }
    }
}

spec fn within(r: Span, from: int, to: int) -> bool {
    r.0 <= from && to <= r.1
}

proof fn scan_misses_none(a: Seq<u32>, b: Seq<u32>, d: int, lo: int, hi: int, from: int, to: int)
    requires
        0 <= lo <= hi <= a.len(),
        0 <= lo + d,
        hi + d <= b.len(),
        lo <= from,
        to <= hi,
        is_stretch(a, b, d, from, to),
    ensures
        ({
            let (done, open) = scan_runs(a, b, d, lo, hi);
            &&& open matches Some(r) ==> to == r.1 + 1 ==> within((r.0, r.1 + 1), from, to)
            &&& to - from >= 121 ==> (exists|k: int|
                0 <= k < done.len() && within(#[trigger] done[k], from, to)) || (open is Some
                && within(((open->0).0, (open->0).1 + 1), from, to))
        }),
    decreases hi - lo,
{
    scanned_stretches(a, b, d, lo, hi);
    scanned_stretches(a, b, d, lo, hi - 1);
    let (done, open) = scan_runs(a, b, d, lo, hi - 1);
    let (now, still) = scan_runs(a, b, d, lo, hi);
    let i = hi - 1;
    if to < hi {
        scan_misses_none(a, b, d, lo, hi - 1, from, to);
        if to - from >= 121 && exists|k: int|
            0 <= k < done.len() && within(#[trigger] done[k], from, to) {
            let k = choose|k: int| 0 <= k < done.len() && within(#[trigger] done[k], from, to);
            assert(now[k] == done[k]);
        } else if to - from >= 121 {
            let r = open->0;
            if still != Some((r.0, i)) && is_match(a, b, d, i) {
                assert(now == done.push((r.0, r.1 + 1)));
                assert(within(now[done.len() as int], from, to));
            }
        }
    } else {
        assert(alike(a[i], b[i + d]));
        assert(is_match(a, b, d, i));
        if from < i {
            assert(alike(a[from], b[from + d]));
            assert(open is Some);
            let r = open->0;
            assert(from <= r.1);
            stretch_cut(a, b, d, from, to, r.1 + 1);
            scan_misses_none(a, b, d, lo, hi - 1, from, r.1 + 1);
            assert(alike_soon(a, b, d, r.1 + 1, to));
        }
    }
}

/// A run that two episodes share is a stretch of both: its items in the one, moved by the
/// offset, are like those in the other.
pub proof fn runs_at_match(a: Seq<u32>, b: Seq<u32>, d: int, k: int)
    requires
        0 <= k < runs_at(a, b, d).len(),
    ensures
        is_shared_stretch(a, b, d, runs_at(a, b, d)[k].0, runs_at(a, b, d)[k].1),
        is_shared_stretch(b, a, -d, runs_at(a, b, d)[k].0 + d, runs_at(a, b, d)[k].1 + d),
{
    let (lo, hi) = overlap(a.len() as int, b.len() as int, d);
    if lo < hi {
        scanned_stretches(a, b, d, lo, hi);
        let r = runs_at(a, b, d)[k];
        let (done, open) = scan_runs(a, b, d, lo, hi);
        if k < done.len() {
            assert(r == done[k]);
        }
        stretch_both_ways(a, b, d, r.0, r.1);
    }
}

/// At an offset that is tried no stretch is missed: each lies within a run.
pub proof fn stretches_lie_in_runs(a: Seq<u32>, b: Seq<u32>, d: int, from: int, to: int)
    requires
        is_shared_stretch(a, b, d, from, to),
    ensures
        exists|k: int|
            0 <= k < runs_at(a, b, d).len() && (#[trigger] runs_at(a, b, d)[k]).0 <= from && to
                <= runs_at(a, b, d)[k].1,
{
    let (lo, hi) = overlap(a.len() as int, b.len() as int, d);
    overlap_is_exact(a.len() as int, b.len() as int, d, from);
    overlap_is_exact(a.len() as int, b.len() as int, d, to - 1);
    scan_misses_none(a, b, d, lo, hi, from, to);
    let (done, open) = scan_runs(a, b, d, lo, hi);
    let all = runs_at(a, b, d);
    if exists|k: int| 0 <= k < done.len() && within(#[trigger] done[k], from, to) {
        let k = choose|k: int| 0 <= k < done.len() && within(#[trigger] done[k], from, to);
        assert(all[k] == done[k]);
    } else {
        assert(all[done.len() as int].0 <= from);
    }
}

proof fn runs_at_all_match(a: Seq<u32>, b: Seq<u32>, ds: Seq<int>, k: int)
    requires
        a.len() <= usize::MAX,
        b.len() <= usize::MAX,
        0 <= k < runs_at_all(a, b, ds).len(),
    ensures
        ({
            let r = runs_at_all(a, b, ds)[k];
            let d = r.b_from - r.a_from;
            &&& ds.contains(d)
            &&& r.b_to - r.a_to == d
            &&& is_shared_stretch(a, b, d, r.a_from as int, r.a_to as int)
            &&& is_shared_stretch(b, a, -d, r.b_from as int, r.b_to as int)
        }),
    decreases ds.len(),
{
    let rest = runs_at_all(a, b, ds.drop_last());
    if k < rest.len() {
        runs_at_all_match(a, b, ds.drop_last(), k);
        let r = rest[k];
        let w = choose|w: int|
            0 <= w < ds.drop_last().len() && ds.drop_last()[w] == r.b_from - r.a_from;
        assert(ds[w] == r.b_from - r.a_from);
    } else {
        let d = ds.last();
        runs_at_match(a, b, d, k - rest.len());
        let r = runs_at(a, b, d)[k - rest.len()];
        assert(runs_at_all(a, b, ds)[k] == pair_run(r, d));
        assert(ds[ds.len() - 1] == d);
    }
}

/// Every run that is found between two episodes is as long in the one as in the other, and
/// a stretch of both: each of the two ranges lies within its own episode and is like the
/// other range, moved by the offset between them.
pub proof fn shared_runs_match(a: Seq<u32>, b: Seq<u32>, k: int)
    requires
        a.len() <= usize::MAX,
        b.len() <= usize::MAX,
        0 <= k < shared_runs(a, b).len(),
    ensures
        ({
            let r = shared_runs(a, b)[k];
            let d = r.b_from - r.a_from;
            &&& r.b_to - r.a_to == d
            &&& is_shared_stretch(a, b, d, r.a_from as int, r.a_to as int)
            &&& is_shared_stretch(b, a, -d, r.b_from as int, r.b_to as int)
        }),
{
    runs_at_all_match(a, b, top_offsets(a, b, markers::TOP_OFFSETS as nat), k);
}

proof fn runs_at_all_hold(a: Seq<u32>, b: Seq<u32>, ds: Seq<int>, w: int, k: int)
    requires
        0 <= w < ds.len(),
        0 <= k < runs_at(a, b, ds[w]).len(),
    ensures
        runs_at_all(a, b, ds).contains(pair_run(runs_at(a, b, ds[w])[k], ds[w])),
    decreases ds.len(),
{
    let rest = runs_at_all(a, b, ds.drop_last());
    let all = runs_at_all(a, b, ds);
    let r = pair_run(runs_at(a, b, ds[w])[k], ds[w]);
    if w < ds.len() - 1 {
        runs_at_all_hold(a, b, ds.drop_last(), w, k);
        let x = choose|x: int| 0 <= x < rest.len() && rest[x] == r;
        assert(all[x] == r);
    } else {
        assert(all[rest.len() + k] == r);
    }
}

/// Of two episodes that are both long enough, every stretch at an offset that is tried lies
/// within a run that is found, in both of them.
pub proof fn stretches_are_found(a: Seq<u32>, b: Seq<u32>, w: int, from: int, to: int)
    requires
        a.len() <= usize::MAX,
        b.len() <= usize::MAX,
        0 <= w < top_offsets(a, b, 6).len(),
        is_shared_stretch(a, b, top_offsets(a, b, 6)[w], from, to),
    ensures
        ({
            let d = top_offsets(a, b, 6)[w];
            exists|k: int| #![trigger shared_runs(a, b)[k]]
                {
                    let r = shared_runs(a, b)[k];
                    &&& 0 <= k < shared_runs(a, b).len()
                    &&& r.a_from <= from && to <= r.a_to
                    &&& r.b_from <= from + d && to + d <= r.b_to
                }
        }),
{
    let ds = top_offsets(a, b, 6);
    let d = ds[w];
    stretches_lie_in_runs(a, b, d, from, to);
    let x = choose|x: int|
        0 <= x < runs_at(a, b, d).len() && (#[trigger] runs_at(a, b, d)[x]).0 <= from && to
            <= runs_at(a, b, d)[x].1;
    shared_run_fits(a, b, d, x);
    runs_at_all_hold(a, b, ds, w, x);
    let r = pair_run(runs_at(a, b, d)[x], d);
    let k = choose|k: int| 0 <= k < shared_runs(a, b).len() && shared_runs(a, b)[k] == r;
    assert(shared_runs(a, b)[k] == r);
}

proof fn best_upto_is_best(a: Seq<u32>, b: Seq<u32>, taken: Seq<int>, d: int)
    requires
        a.len() > 0,
        b.len() > 0,
        -(a.len() - 1) <= d < b.len(),
        !taken.contains(d),
    ensures
        match best_offset(a, b, taken) {
            Some(o) => hits(a, b, d) <= hits(a, b, o),
            None => hits(a, b, d) < 10,
        },
{
    top_offsets_are_best(a, b, taken, a.len() + b.len() - 1);
    let q = d + (a.len() - 1);
    assert(offset_of(a.len() as int, q) == d);
}

/// The offsets that are tried: at most as many as asked for, none twice, each with ten items
/// or more that are equal at it. An offset that is not tried has fewer than that, or as many
/// as asked for are tried and none of them has fewer.
pub proof fn best_offsets_are_tried(a: Seq<u32>, b: Seq<u32>, n: nat)
    requires
        a.len() > 0,
        b.len() > 0,
    ensures
        ({
            let ds = top_offsets(a, b, n);
            &&& ds.len() <= n
            &&& ds.no_duplicates()
            &&& forall|w: int| 0 <= w < ds.len() ==> hits(a, b, #[trigger] ds[w]) >= 10
            &&& forall|d: int|
                #![trigger hits(a, b, d)]
                -(a.len() - 1) <= d < b.len() && !ds.contains(d) ==> hits(a, b, d) < 10 || (ds.len()
                    == n && forall|w: int|
                    0 <= w < ds.len() ==> hits(a, b, #[trigger] ds[w]) >= hits(a, b, d))
        }),
    decreases n,
{
    if n > 0 {
        let m = (n - 1) as nat;
        best_offsets_are_tried(a, b, m);
        let rest = top_offsets(a, b, m);
        let ds = top_offsets(a, b, n);
        top_offsets_are_best(a, b, rest, a.len() + b.len() - 1);
        best_upto_in_range(a, b, rest, a.len() + b.len() - 1);
        assert forall|d: int|
            #![trigger hits(a, b, d)]
            -(a.len() - 1) <= d < b.len() && !ds.contains(d) implies hits(a, b, d) < 10 || (
        ds.len() == n && forall|w: int|
            0 <= w < ds.len() ==> hits(a, b, #[trigger] ds[w]) >= hits(a, b, d)) by {
            assert(!rest.contains(d)) by {
                if rest.contains(d) {
                    let w = choose|w: int| 0 <= w < rest.len() && rest[w] == d;
                    assert(ds[w] == d);
                }
            }
            best_upto_is_best(a, b, rest, d);
            match best_offset(a, b, rest) {
                Some(o) => {
                    assert(ds == rest.push(o));
                    if hits(a, b, d) >= 10 {
                        assert(rest.len() == m);
                        assert forall|w: int| 0 <= w < ds.len() implies hits(a, b, #[trigger] ds[w])
                            >= hits(a, b, d) by {
                            if w < rest.len() {
                                assert(rest[w] == ds[w]);
                            }
                        }
                    }
                },
                None => {},
            }
        }
    }
}

/// The run `r` of episode `k` is shared with another episode of the season: its items in the
/// fingerprint of `k` are like items of the partner.
pub open spec fn matches_partner(eps: Seq<SeasonEpisode>, k: int, r: Run) -> bool {
    &&& r.2 < eps.len()
    &&& r.2 != k
    &&& exists|shift: int|
        #[trigger] is_shared_stretch(
            eps[k].fp@,
            eps[r.2 as int].fp@,
            shift,
            r.0 as int,
            r.1 as int,
        )
}

spec fn all_match(eps: Seq<SeasonEpisode>, k: int, runs: Seq<Run>) -> bool {
    forall|x: int| 0 <= x < runs.len() ==> matches_partner(eps, k, #[trigger] runs[x])
}

spec fn fit_in_memory(eps: Seq<SeasonEpisode>) -> bool {
    &&& eps.len() <= usize::MAX
    &&& forall|k: int| 0 <= k < eps.len() ==> (#[trigger] eps[k]).fp@.len() <= usize::MAX
}

proof fn joined_match(eps: Seq<SeasonEpisode>, k: int, x: Seq<Run>, y: Seq<Run>)
    requires
        all_match(eps, k, x),
        all_match(eps, k, y),
    ensures
        all_match(eps, k, x + y),
{
    assert forall|i: int| 0 <= i < (x + y).len() implies matches_partner(
        eps,
        k,
        #[trigger] (x + y)[i],
    ) by {
        if i < x.len() {
            assert((x + y)[i] == x[i]);
        } else {
            assert((x + y)[i] == y[i - x.len()]);
        }
    }
}

proof fn pair_runs_match(eps: Seq<SeasonEpisode>, k: int, i: int, j: int)
    requires
        eps.len() <= usize::MAX,
        eps[i].fp@.len() <= usize::MAX,
        eps[j].fp@.len() <= usize::MAX,
        0 <= i < j < eps.len(),
    ensures
        all_match(eps, k, runs_from_pair(eps, k, i, j)),
{
    let a = eps[i].fp@;
    let b = eps[j].fp@;
    let pairs = shared_runs(a, b);
    let runs = runs_from_pair(eps, k, i, j);
    assert forall|x: int| 0 <= x < runs.len() implies matches_partner(
        eps,
        k,
        #[trigger] runs[x],
    ) by {
        shared_runs_match(a, b, x);
        let r = pairs[x];
        let d = r.b_from - r.a_from;
        if k == i {
            assert(runs[x] == (r.a_from, r.a_to, j as usize));
            assert(is_shared_stretch(
                eps[k].fp@,
                eps[runs[x].2 as int].fp@,
                d,
                runs[x].0 as int,
                runs[x].1 as int,
            ));
        } else {
            assert(runs[x] == (r.b_from, r.b_to, i as usize));
            assert(is_shared_stretch(
                eps[k].fp@,
                eps[runs[x].2 as int].fp@,
                -d,
                runs[x].0 as int,
                runs[x].1 as int,
            ));
        }
    }
}

proof fn row_runs_match(eps: Seq<SeasonEpisode>, k: int, i: int, j: int)
    requires
        fit_in_memory(eps),
        0 <= i < eps.len(),
        j <= eps.len(),
    ensures
        all_match(eps, k, runs_from_row(eps, k, i, j)),
    decreases j - i,
{
    if j > i + 1 {
        row_runs_match(eps, k, i, j - 1);
        pair_runs_match(eps, k, i, j - 1);
        joined_match(eps, k, runs_from_row(eps, k, i, j - 1), runs_from_pair(eps, k, i, j - 1));
    }
}

proof fn rows_runs_match(eps: Seq<SeasonEpisode>, k: int, i: int)
    requires
        fit_in_memory(eps),
        i <= eps.len(),
    ensures
        all_match(eps, k, runs_from_rows(eps, k, i)),
    decreases i,
{
    if i > 0 {
        rows_runs_match(eps, k, i - 1);
        row_runs_match(eps, k, i - 1, eps.len() as int);
        joined_match(
            eps,
            k,
            runs_from_rows(eps, k, i - 1),
            runs_from_row(eps, k, i - 1, eps.len() as int),
        );
    }
}

/// Every run that an episode of a season has is a stretch of its own fingerprint that is
/// like a stretch of the partner's.
pub proof fn runs_match_partners(eps: Seq<SeasonEpisode>, k: int, x: int)
    requires
        eps.len() <= usize::MAX,
        forall|q: int| 0 <= q < eps.len() ==> (#[trigger] eps[q]).fp@.len() <= usize::MAX,
        0 <= x < runs_from_rows(eps, k, eps.len() as int).len(),
    ensures
        matches_partner(eps, k, runs_from_rows(eps, k, eps.len() as int)[x]),
{
    rows_runs_match(eps, k, eps.len() as int);
}

proof fn row_holds_pair(eps: Seq<SeasonEpisode>, k: int, i: int, j: int, upto: int, r: Run)
    requires
        0 <= i < j < upto,
        runs_from_pair(eps, k, i, j).contains(r),
    ensures
        runs_from_row(eps, k, i, upto).contains(r),
    decreases upto - i,
{
    let rest = runs_from_row(eps, k, i, upto - 1);
    let last = runs_from_pair(eps, k, i, upto - 1);
    if j == upto - 1 {
        let x = choose|x: int| 0 <= x < last.len() && last[x] == r;
        assert((rest + last)[rest.len() + x] == r);
    } else {
        row_holds_pair(eps, k, i, j, upto - 1, r);
        let x = choose|x: int| 0 <= x < rest.len() && rest[x] == r;
        assert((rest + last)[x] == r);
    }
}

proof fn rows_hold_pair(eps: Seq<SeasonEpisode>, k: int, i: int, j: int, upto: int, r: Run)
    requires
        0 <= i < j < eps.len(),
        i < upto,
        runs_from_pair(eps, k, i, j).contains(r),
    ensures
        runs_from_rows(eps, k, upto).contains(r),
    decreases upto,
{
    let rest = runs_from_rows(eps, k, upto - 1);
    let last = runs_from_row(eps, k, upto - 1, eps.len() as int);
    if i == upto - 1 {
        row_holds_pair(eps, k, i, j, eps.len() as int, r);
        let x = choose|x: int| 0 <= x < last.len() && last[x] == r;
        assert((rest + last)[rest.len() + x] == r);
    } else {
        rows_hold_pair(eps, k, i, j, upto - 1, r);
        let x = choose|x: int| 0 <= x < rest.len() && rest[x] == r;
        assert((rest + last)[x] == r);
    }
}

/// A run that two episodes share is one of both: the earlier has it where it lies in the
/// earlier, the later where it lies in the later, and each names the other.
pub proof fn both_have_the_run(eps: Seq<SeasonEpisode>, i: int, j: int, x: int)
    requires
        0 <= i < j < eps.len() <= usize::MAX,
        0 <= x < shared_runs(eps[i].fp@, eps[j].fp@).len(),
    ensures
        ({
            let r = shared_runs(eps[i].fp@, eps[j].fp@)[x];
            let n = eps.len() as int;
            &&& runs_from_rows(eps, i, n).contains((r.a_from, r.a_to, j as usize))
            &&& runs_from_rows(eps, j, n).contains((r.b_from, r.b_to, i as usize))
        }),
{
    let r = shared_runs(eps[i].fp@, eps[j].fp@)[x];
    let n = eps.len() as int;
    assert(runs_from_pair(eps, i, i, j)[x] == (r.a_from, r.a_to, j as usize));
    assert(runs_from_pair(eps, j, i, j)[x] == (r.b_from, r.b_to, i as usize));
    rows_hold_pair(eps, i, i, j, n, (r.a_from, r.a_to, j as usize));
    rows_hold_pair(eps, j, i, j, n, (r.b_from, r.b_to, i as usize));
}

proof fn with_run_holds(runs: Seq<Run>, r: Run, q: Run)
    ensures
        with_run(runs, r).contains(q) <==> runs.contains(q) || q == r,
    decreases runs.len(),
{
    let now = with_run(runs, r);
    if runs.len() == 0 || runs.last().0 <= r.0 {
        assert(now[runs.len() as int] == r);
        if runs.contains(q) {
            let x = choose|x: int| 0 <= x < runs.len() && runs[x] == q;
            assert(now[x] == q);
        }
        if now.contains(q) && q != r {
            let x = choose|x: int| 0 <= x < now.len() && now[x] == q;
            assert(runs[x] == q);
        }
    } else {
        let rest = with_run(runs.drop_last(), r);
        with_run_holds(runs.drop_last(), r, q);
        assert(now == rest.push(runs.last()));
        assert(now[rest.len() as int] == runs.last());
        if runs.contains(q) && q != runs.last() {
            let x = choose|x: int| 0 <= x < runs.len() && runs[x] == q;
            assert(runs.drop_last()[x] == q);
        }
        if rest.contains(q) {
            let x = choose|x: int| 0 <= x < rest.len() && rest[x] == q;
            assert(now[x] == q);
        }
        if now.contains(q) && q != runs.last() {
            let x = choose|x: int| 0 <= x < now.len() && now[x] == q;
            assert(rest[x] == q);
        }
        if runs.drop_last().contains(q) {
            let x = choose|x: int| 0 <= x < runs.drop_last().len() && runs.drop_last()[x] == q;
            assert(runs[x] == q);
        }
        assert(runs[runs.len() - 1] == runs.last());
    }
}

/// Putting the runs in order loses none and adds none.
pub proof fn by_start_holds(runs: Seq<Run>, q: Run)
    ensures
        by_start(runs).contains(q) <==> runs.contains(q),
    decreases runs.len(),
{
    if runs.len() > 0 {
        let rest = runs.drop_last();
        by_start_holds(rest, q);
        with_run_holds(by_start(rest), runs.last(), q);
        assert(runs[runs.len() - 1] == runs.last());
        if runs.contains(q) && q != runs.last() {
            let x = choose|x: int| 0 <= x < runs.len() && runs[x] == q;
            assert(rest[x] == q);
        }
        if rest.contains(q) {
            let x = choose|x: int| 0 <= x < rest.len() && rest[x] == q;
            assert(runs[x] == q);
        }
    }
}

/// `r` is one of the runs and lies within the segment `s`, which names its partner.
pub open spec fn is_part(runs: Seq<Run>, s: (usize, usize, Seq<usize>), r: Run) -> bool {
    runs.contains(r) && s.0 <= r.0 && r.1 <= s.1 && s.2.contains(r.2)
}

/// A segment of an episode: it starts where one of its runs starts and ends where one of
/// them ends; each of its items lies in one of them or less than forty items behind its end;
/// each partner that it names has one of them.
pub open spec fn is_made_of(runs: Seq<Run>, s: (usize, usize, Seq<usize>)) -> bool {
    &&& exists|r: Run| #[trigger] is_part(runs, s, r) && r.0 == s.0
    &&& exists|r: Run| #[trigger] is_part(runs, s, r) && r.1 == s.1
    &&& forall|p: int| s.0 <= p < s.1 ==> #[trigger] is_near_a_run(runs, s, p)
    &&& forall|w: int| 0 <= w < s.2.len() ==> exists|r: Run| #[trigger]
        is_part(runs, s, r) && r.2 == #[trigger] s.2[w]
}

/// Item `p` lies in one of the runs of the segment, or less than forty items behind it.
pub open spec fn is_near_a_run(runs: Seq<Run>, s: (usize, usize, Seq<usize>), p: int) -> bool {
    exists|r: Run| #[trigger] is_part(runs, s, r) && r.0 <= p < r.1 + 40
}

proof fn parts_stay(
    runs: Seq<Run>,
    more: Seq<Run>,
    s: (usize, usize, Seq<usize>),
    t: (usize, usize, Seq<usize>),
    r: Run,
)
    requires
        is_part(runs, s, r),
        forall|q: Run| runs.contains(q) ==> more.contains(q),
        s.0 == t.0,
        s.1 <= t.1,
        forall|p: usize| s.2.contains(p) ==> t.2.contains(p),
    ensures
        is_part(more, t, r),
{
}

proof fn made_of_more(runs: Seq<Run>, more: Seq<Run>, s: (usize, usize, Seq<usize>))
    requires
        is_made_of(runs, s),
        forall|q: Run| runs.contains(q) ==> more.contains(q),
    ensures
        is_made_of(more, s),
{
    let first = choose|r: Run| #[trigger] is_part(runs, s, r) && r.0 == s.0;
    let last = choose|r: Run| #[trigger] is_part(runs, s, r) && r.1 == s.1;
    assert(is_part(more, s, first));
    assert(is_part(more, s, last));
    assert forall|p: int| s.0 <= p < s.1 implies #[trigger] is_near_a_run(more, s, p) by {
        assert(is_near_a_run(runs, s, p));
        let r = choose|r: Run| #[trigger] is_part(runs, s, r) && r.0 <= p < r.1 + 40;
        assert(is_part(more, s, r));
    }
    assert forall|w: int| 0 <= w < s.2.len() implies exists|r: Run| #[trigger]
        is_part(more, s, r) && r.2 == #[trigger] s.2[w] by {
        let r = choose|r: Run| #[trigger] is_part(runs, s, r) && r.2 == s.2[w];
        assert(is_part(more, s, r));
    }
}

proof fn made_of_joined(
    runs: Seq<Run>,
    more: Seq<Run>,
    s: (usize, usize, Seq<usize>),
    t: (usize, usize, Seq<usize>),
    x: Run,
)
    requires
        is_made_of(runs, s),
        forall|q: Run| runs.contains(q) ==> more.contains(q),
        forall|q: Run| runs.contains(q) ==> q.0 <= q.1,
        more.contains(x),
        s.0 <= x.0 <= x.1,
        x.0 < s.1 + 40,
        t.0 == s.0,
        t.1 == if s.1 < x.1 {
            x.1
        } else {
            s.1
        },
        t.2 == with_partner(s.2, x.2),
    ensures
        is_made_of(more, t),
{
    assert forall|p: usize| s.2.contains(p) implies t.2.contains(p) by {
        let w = choose|w: int| 0 <= w < s.2.len() && s.2[w] == p;
        assert(t.2[w] == p);
    }
    assert(t.2.contains(x.2)) by {
        if !s.2.contains(x.2) {
            assert(t.2[s.2.len() as int] == x.2);
        }
    }
    assert(is_part(more, t, x));
    let first = choose|r: Run| #[trigger] is_part(runs, s, r) && r.0 == s.0;
    parts_stay(runs, more, s, t, first);
    let last = choose|r: Run| #[trigger] is_part(runs, s, r) && r.1 == s.1;
    parts_stay(runs, more, s, t, last);
    assert forall|p: int| t.0 <= p < t.1 implies #[trigger] is_near_a_run(more, t, p) by {
        if p < s.1 {
            assert(is_near_a_run(runs, s, p));
            let r = choose|r: Run| #[trigger] is_part(runs, s, r) && r.0 <= p < r.1 + 40;
            parts_stay(runs, more, s, t, r);
        } else if p >= x.0 {
            assert(is_part(more, t, x));
        } else {
            assert(is_part(more, t, last));
        }
    }
    assert forall|w: int| 0 <= w < t.2.len() implies exists|r: Run| #[trigger]
        is_part(more, t, r) && r.2 == #[trigger] t.2[w] by {
        if w < s.2.len() {
            assert(t.2[w] == s.2[w]);
            let r = choose|r: Run| #[trigger] is_part(runs, s, r) && r.2 == s.2[w];
            parts_stay(runs, more, s, t, r);
        } else {
            assert(is_part(more, t, x));
        }
    }
}

/// What a segment is made of: see `is_made_of`.
pub proof fn merged_are_made_of_runs(runs: Seq<Run>, k: int)
    requires
        starts_ascend(runs),
        forall|x: int| 0 <= x < runs.len() ==> (#[trigger] runs[x]).0 <= runs[x].1,
        0 <= k < merged(runs).len(),
    ensures
        is_made_of(runs, merged(runs)[k]),
    decreases runs.len(),
{
    let before = runs.drop_last();
    let done = merged(before);
    let x = runs.last();
    assert forall|q: Run| before.contains(q) implies runs.contains(q) && q.0 <= q.1 by {
        let y = choose|y: int| 0 <= y < before.len() && before[y] == q;
        assert(runs[y] == q);
    }
    assert(runs[runs.len() - 1] == x);
    assert(runs.contains(x));
    let s = merged(runs)[k];
    if done.len() > 0 && x.0 < done.last().1 + markers::MERGE_GAP_ITEMS {
        merged_are_made_of_runs(before, k);
        if k == done.len() - 1 {
            merged_starts(before);
            assert(before.last() == runs[runs.len() - 2]);
            assert(runs[runs.len() - 2].0 <= runs[runs.len() - 1].0);
            made_of_joined(before, runs, done[k], s, x);
        } else {
            made_of_more(before, runs, done[k]);
        }
    } else if k < done.len() {
        merged_are_made_of_runs(before, k);
        made_of_more(before, runs, done[k]);
    } else {
        assert(s == (x.0, x.1, seq![x.2]));
        assert(s.2[0] == x.2);
        assert(is_part(runs, s, x));
        assert forall|p: int| s.0 <= p < s.1 implies #[trigger] is_near_a_run(runs, s, p) by {
            assert(is_part(runs, s, x));
        }
    }
}

/// Every segment that is found in an episode is made of stretches of that episode's own
/// fingerprint, each like a stretch of a partner's: it starts with one and ends with one, its
/// items lie in them or less than forty items behind one, and every partner that it names
/// has one.
pub proof fn segments_match_partners(eps: Seq<SeasonEpisode>, k: int, q: int)
    requires
        eps.len() <= usize::MAX,
        forall|x: int| 0 <= x < eps.len() ==> (#[trigger] eps[x]).fp@.len() <= usize::MAX,
        0 <= q < shared_segments(eps, k).len(),
    ensures
        ({
            let runs = runs_from_rows(eps, k, eps.len() as int);
            &&& is_made_of(runs, shared_segments(eps, k)[q])
            &&& forall|r: Run| #[trigger] runs.contains(r) ==> matches_partner(eps, k, r)
        }),
{
    let runs = runs_from_rows(eps, k, eps.len() as int);
    let sorted = by_start(runs);
    rows_runs_match(eps, k, eps.len() as int);
    by_start_ascends(runs);
    assert forall|r: Run| #[trigger] runs.contains(r) implies matches_partner(eps, k, r) by {
        let x = choose|x: int| 0 <= x < runs.len() && runs[x] == r;
        assert(matches_partner(eps, k, runs[x]));
    }
    assert forall|r: Run| sorted.contains(r) implies runs.contains(r) by {
        by_start_holds(runs, r);
    }
    assert forall|x: int| 0 <= x < sorted.len() implies (#[trigger] sorted[x]).0
        <= sorted[x].1 by {
        assert(sorted.contains(sorted[x]));
        assert(matches_partner(eps, k, sorted[x]));
    }
    merged_are_made_of_runs(sorted, q);
    made_of_more(sorted, runs, shared_segments(eps, k)[q]);
}

/// A marker that is set lies on a segment of the episode: it starts and ends with it, at
/// 123.83 ms an item, lasts fifteen seconds or more, and has as many episodes agreeing as the
/// segment names. And every segment that lasts as long has its marker.
pub proof fn markers_lie_on_segments(
    eps: Seq<SeasonEpisode>,
    k: int,
    found: Seq<Marker>,
    duration: int,
)
    requires
        mark_segments(found, long_ones(shared_segments(eps, k)), duration, eps.len() as int),
    ensures
        forall|x: int|
            0 <= x < found.len() ==> lies_on_one(#[trigger] found[x], shared_segments(eps, k)),
        forall|q: int|
            0 <= q < shared_segments(eps, k).len() && (shared_segments(eps, k)[q].1
                - shared_segments(eps, k)[q].0) * 123_830 >= 15_000_000 ==> is_marked(
                #[trigger] shared_segments(eps, k)[q],
                found,
            ),
{
    let all = shared_segments(eps, k);
    let f = |s: (usize, usize, Seq<usize>)| is_long(s);
    let long = all.filter(f);
    assert forall|x: int| 0 <= x < found.len() implies lies_on_one(#[trigger] found[x], all) by {
        all.lemma_filter_pred(f, x);
        assert(f(long[x]));
        assert(long.contains(long[x]));
        all.lemma_filter_contains_rev(f, long[x]);
        let q = choose|q: int| 0 <= q < all.len() && all[q] == long[x];
        assert(lies_on(found[x], all[q]));
    }
    assert forall|q: int|
        0 <= q < all.len() && (all[q].1 - all[q].0) * 123_830 >= 15_000_000 implies is_marked(
        #[trigger] all[q],
        found,
    ) by {
        assert(f(all[q]));
        all.lemma_filter_contains(f, q);
        let x = choose|x: int| 0 <= x < long.len() && long[x] == all[q];
        assert(marks_segment(found[x], long[x], duration, eps.len() as int));
        assert(lies_on(found[x], all[q]));
    }
}

/// The marker `m` starts and ends with the segment `s`, lasts fifteen seconds or more, comes
/// from the sound, and has as many episodes agreeing as `s` names.
pub open spec fn lies_on(m: Marker, s: (usize, usize, Seq<usize>)) -> bool {
    &&& m.start_us == s.0 * 123_830
    &&& m.end_us == s.1 * 123_830
    &&& m.end_us - m.start_us >= 15_000_000
    &&& m.confidence.agreeing == s.2.len()
    &&& m.source@ == "audio"@
}

/// `m` lies on one of the segments.
pub open spec fn lies_on_one(m: Marker, segments: Seq<(usize, usize, Seq<usize>)>) -> bool {
    exists|q: int| 0 <= q < segments.len() && lies_on(m, #[trigger] segments[q])
}

/// One of the markers lies on `s`.
pub open spec fn is_marked(s: (usize, usize, Seq<usize>), found: Seq<Marker>) -> bool {
    exists|x: int| 0 <= x < found.len() && lies_on(#[trigger] found[x], s)
}

/// A marked segment tells how many of the other episodes have it, of how many others there
/// are; one that is neither intro nor credits is called by what it is.
pub proof fn confidence_counts_the_others(
    m: Marker,
    s: (usize, usize, Seq<usize>),
    duration: int,
    n: int,
)
    requires
        marks_segment(m, s, duration, n),
        n > 1,
    ensures
        m.confidence.agreeing == s.2.len(),
        m.confidence.of == n - 1,
        m.source@ == "audio"@,
        m.kind is Chapter <==> m.title is Some,
        m.title matches Some(t) ==> t@ == "Recurring segment"@,
{
}

proof fn unlike_items_are_not_counted(b: Seq<u32>, v: u32, j: int)
    requires
        j <= b.len(),
        forall|k: int| 0 <= k < j ==> #[trigger] b[k] != v,
    ensures
        count_before(b, v, j) == 0,
    decreases j,
{
    if j > 0 {
        unlike_items_are_not_counted(b, v, j - 1);
    }
}

/// Two recordings agree at an offset as often as they have the same item there: never where
/// no item is the same, and at every item where a recording of different items is laid on
/// itself. Of equal items only the first eight count.
pub proof fn offsets_count_equal_items(a: Seq<u32>, b: Seq<u32>, d: int, n: int, j: int)
    requires
        0 <= n <= a.len(),
    ensures
        (forall|i: int| 0 <= i < n && 0 <= i + d < b.len() ==> #[trigger] a[i] != b[i + d])
            ==> anchors(a, b, d, n) == 0,
        a.no_duplicates() ==> anchors(a, a, 0, n) == n,
        is_early(b, j) <==> count_before(b, b[j], j) < 8,
    decreases n,
{
    if n > 0 {
        offsets_count_equal_items(a, b, d, n - 1, j);
        if a.no_duplicates() {
            assert forall|k: int| 0 <= k < n - 1 implies #[trigger] a[k] != a[n - 1] by {}
            unlike_items_are_not_counted(a, a[n - 1], n - 1);
            assert(is_anchor(a, a, 0, n - 1));
        }
    }
}

} // verus!
