//! Stable ordering of a sequence by instants: the position that a stable sort gives
//! each element, and the counting facts behind it.

use vstd::prelude::*;
use crate::time::{Timestamp, ts_lt, ts_le};
use vstd::set_lib::{set_int_range, lemma_int_range, lemma_subset_equality, lemma_map_size};
use vstd::relations::injective_on;

verus! {

/// Number of indices `j` in `0..n` for which `p(j)` holds.
pub open spec fn count_where(n: nat, p: spec_fn(int) -> bool) -> nat
    decreases n,
{
    if n == 0 {
        0
    } else {
        count_where((n - 1) as nat, p) + if p(n - 1) {
            1nat
        } else {
            0nat
        }
    }
}

/// The position of element `i` after a stable sort of `keys` by instant: the number of
/// elements with an earlier key, plus the number of elements before `i` with an equal key.
pub open spec fn stable_rank(keys: Seq<Timestamp>, i: int) -> nat {
    count_where(keys.len(), |j: int| ts_lt(keys[j], keys[i])) + count_where(
        i as nat,
        |j: int| keys[j] == keys[i],
    )
}

/// `out` is `inp` stably sorted by the instants that `key` gives each element.
pub open spec fn is_stable_sort_by<T>(out: Seq<T>, inp: Seq<T>, key: spec_fn(T) -> Timestamp) -> bool {
    &&& out.len() == inp.len()
    &&& forall|i: int|
        0 <= i < inp.len() ==> out[#[trigger] stable_rank(inp.map_values(key), i) as int]
            == inp[i]
}

/// If `p` implies `q` on `0..n`, `p` holds at no more indices than `q`.
pub proof fn lemma_count_mono(n: nat, p: spec_fn(int) -> bool, q: spec_fn(int) -> bool)
    requires
        forall|j: int| 0 <= j < n && #[trigger] p(j) ==> q(j),
    ensures
        count_where(n, p) <= count_where(n, q),
    decreases n,
{
    if n > 0 {
        lemma_count_mono((n - 1) as nat, p, q);
    }
}

/// If moreover `q` holds without `p` at some index `w < n`, the count is strictly smaller.
pub proof fn lemma_count_strict(n: nat, p: spec_fn(int) -> bool, q: spec_fn(int) -> bool, w: int)
    requires
        forall|j: int| 0 <= j < n && #[trigger] p(j) ==> q(j),
        0 <= w < n,
        q(w),
        !p(w),
    ensures
        count_where(n, p) < count_where(n, q),
    decreases n,
{
    if w == n - 1 {
        lemma_count_mono((n - 1) as nat, p, q);
    } else {
        lemma_count_strict((n - 1) as nat, p, q, w);
    }
}

/// Counting a disjoint union adds the counts.
pub proof fn lemma_count_disjoint_union(
    n: nat,
    p: spec_fn(int) -> bool,
    q: spec_fn(int) -> bool,
    r: spec_fn(int) -> bool,
)
    requires
        forall|j: int| 0 <= j < n ==> !(#[trigger] p(j) && q(j)),
        forall|j: int| 0 <= j < n ==> (#[trigger] r(j) <==> p(j) || q(j)),
    ensures
        count_where(n, r) == count_where(n, p) + count_where(n, q),
    decreases n,
{
    if n > 0 {
        lemma_count_disjoint_union((n - 1) as nat, p, q, r);
    }
}

/// Counting over a prefix `0..i` equals counting over `0..n` restricted to indices below `i`.
pub proof fn lemma_count_prefix(i: nat, n: nat, p: spec_fn(int) -> bool, r: spec_fn(int) -> bool)
    requires
        i <= n,
        forall|j: int| 0 <= j < n ==> (#[trigger] r(j) <==> j < i && p(j)),
    ensures
        count_where(i, p) == count_where(n, r),
    decreases n,
{
    if n > i {
        lemma_count_prefix(i, (n - 1) as nat, p, r);
    } else if n > 0 {
        lemma_count_prefix((i - 1) as nat, (n - 1) as nat, p, r);
    }
}

/// Counting depends only on the predicate's values on `0..n`.
pub proof fn lemma_count_ext(n: nat, p: spec_fn(int) -> bool, q: spec_fn(int) -> bool)
    requires
        forall|j: int| 0 <= j < n ==> #[trigger] p(j) == q(j),
    ensures
        count_where(n, p) == count_where(n, q),
{
    lemma_count_mono(n, p, q);
    lemma_count_mono(n, q, p);
}

/// The count never exceeds the range.
pub proof fn lemma_count_bound(n: nat, p: spec_fn(int) -> bool)
    ensures
        count_where(n, p) <= n,
    decreases n,
{
    if n > 0 {
        lemma_count_bound((n - 1) as nat, p);
    }
}

/// The stable rank as one count over `0..n`: elements with an earlier key, or with an
/// equal key and a smaller index.
pub proof fn lemma_rank_as_one_count(keys: Seq<Timestamp>, i: int)
    requires
        0 <= i < keys.len(),
    ensures
        stable_rank(keys, i) == count_where(
            keys.len(),
            |j: int| ts_lt(keys[j], keys[i]) || (j < i && keys[j] == keys[i]),
        ),
{
    let n = keys.len();
    let lt = |j: int| ts_lt(keys[j], keys[i]);
    let eq = |j: int| keys[j] == keys[i];
    let eq_before = |j: int| j < i && keys[j] == keys[i];
    let both = |j: int| ts_lt(keys[j], keys[i]) || (j < i && keys[j] == keys[i]);
    lemma_count_prefix(i as nat, n, eq, eq_before);
    lemma_count_disjoint_union(n, lt, eq_before, both);
}

/// A stable rank lies within the sequence.
pub proof fn lemma_rank_bound(keys: Seq<Timestamp>, i: int)
    requires
        0 <= i < keys.len(),
    ensures
        stable_rank(keys, i) < keys.len(),
{
    let n = keys.len();
    let both = |j: int| ts_lt(keys[j], keys[i]) || (j < i && keys[j] == keys[i]);
    lemma_rank_as_one_count(keys, i);
    lemma_count_strict(n, both, |j: int| true, i);
    lemma_count_bound(n, |j: int| true);
}

/// Stable ranks follow the order of (key, index): an element with an earlier key, or
/// with the same key and a smaller index, gets a smaller rank.
pub proof fn lemma_rank_order(keys: Seq<Timestamp>, a: int, b: int)
    requires
        0 <= a < keys.len(),
        0 <= b < keys.len(),
        ts_lt(keys[a], keys[b]) || (a < b && keys[a] == keys[b]),
    ensures
        stable_rank(keys, a) < stable_rank(keys, b),
{
    let n = keys.len();
    let pa = |j: int| ts_lt(keys[j], keys[a]) || (j < a && keys[j] == keys[a]);
    let pb = |j: int| ts_lt(keys[j], keys[b]) || (j < b && keys[j] == keys[b]);
    lemma_rank_as_one_count(keys, a);
    lemma_rank_as_one_count(keys, b);
    lemma_count_strict(n, pa, pb, a);
}

/// Distinct elements get distinct stable ranks.
pub proof fn lemma_rank_injective(keys: Seq<Timestamp>, a: int, b: int)
    requires
        0 <= a < keys.len(),
        0 <= b < keys.len(),
        a != b,
    ensures
        stable_rank(keys, a) != stable_rank(keys, b),
{
    if ts_lt(keys[a], keys[b]) || (a < b && keys[a] == keys[b]) {
        lemma_rank_order(keys, a, b);
    } else {
        lemma_rank_order(keys, b, a);
    }
}

/// Appending an element: its rank is the number of earlier elements with a key at most
/// its own, and the rank of an earlier element grows by one exactly when the new key is
/// strictly earlier than its own.
pub proof fn lemma_rank_push(keys: Seq<Timestamp>, k: Timestamp, i: int)
    requires
        0 <= i <= keys.len(),
    ensures
        i == keys.len() ==> stable_rank(keys.push(k), i) == count_where(
            keys.len(),
            |j: int| ts_le(keys[j], k),
        ),
        i < keys.len() ==> stable_rank(keys.push(k), i) == stable_rank(keys, i) + if ts_lt(
            k,
            keys[i],
        ) {
            1nat
        } else {
            0nat
        },
{
    let n = keys.len();
    let nk = keys.push(k);
    if i == n {
        let lt = |j: int| ts_lt(nk[j], nk[i]);
        let lt0 = |j: int| ts_lt(keys[j], k);
        let eq = |j: int| nk[j] == nk[i];
        let eq0 = |j: int| keys[j] == k;
        let le0 = |j: int| ts_le(keys[j], k);
        lemma_count_ext(n, lt, lt0);
        lemma_count_ext(n, eq, eq0);
        lemma_count_disjoint_union(n, lt0, eq0, le0);
    } else {
        let lt = |j: int| ts_lt(nk[j], nk[i]);
        let lt0 = |j: int| ts_lt(keys[j], keys[i]);
        let eq = |j: int| nk[j] == nk[i];
        let eq0 = |j: int| keys[j] == keys[i];
        lemma_count_ext(n, lt, lt0);
        lemma_count_ext(i as nat, eq, eq0);
    }
}

/// Every position of a sequence is the stable rank of some element.
pub proof fn lemma_rank_surjective(keys: Seq<Timestamp>, q: int)
    requires
        0 <= q < keys.len(),
    ensures
        exists|i: int| 0 <= i < keys.len() && #[trigger] stable_rank(keys, i) == q,
{
    let n = keys.len() as int;
    let dom = set_int_range(0, n);
    let f = |i: int| stable_rank(keys, i) as int;
    lemma_int_range(0, n);
    assert(injective_on(f, dom)) by {
        assert forall|a: int, b: int| dom.contains(a) && dom.contains(b) && #[trigger] f(a) == #[trigger] f(b)
            implies a == b by {
            if a != b {
                lemma_rank_injective(keys, a, b);
            }
        }
    }
    let img = dom.map(f);
    lemma_map_size(dom, img, f);
    assert(img.subset_of(dom)) by {
        assert forall|x: int| img.contains(x) implies dom.contains(x) by {
            let i = choose|i: int| dom.contains(i) && f(i) == x;
            lemma_rank_bound(keys, i);
        }
    }
    lemma_subset_equality(img, dom);
    assert(img.contains(q));
    let i = choose|i: int| dom.contains(i) && f(i) == q;
    assert(stable_rank(keys, i) == q);
}

/// A stable sort puts its elements in non-decreasing order of their keys, and every
/// element of the result is an element of the input.
pub proof fn lemma_stable_sort_sorted<T>(out: Seq<T>, inp: Seq<T>, key: spec_fn(T) -> Timestamp)
    requires
        is_stable_sort_by(out, inp, key),
    ensures
        forall|a: int, b: int| 0 <= a < b < out.len() ==> ts_le(key(out[a]), key(out[b])),
        forall|q: int| 0 <= q < out.len() ==> inp.contains(#[trigger] out[q]),
{
    let keys = inp.map_values(key);
    assert forall|q: int| 0 <= q < out.len() implies inp.contains(#[trigger] out[q]) by {
        lemma_rank_surjective(keys, q);
        let i = choose|i: int| 0 <= i < keys.len() && #[trigger] stable_rank(keys, i) == q;
        assert(out[stable_rank(keys, i) as int] == inp[i]);
    }
    assert forall|a: int, b: int| 0 <= a < b < out.len() implies ts_le(key(out[a]), key(out[b])) by {
        lemma_rank_surjective(keys, a);
        lemma_rank_surjective(keys, b);
        let ia = choose|i: int| 0 <= i < keys.len() && #[trigger] stable_rank(keys, i) == a;
        let ib = choose|i: int| 0 <= i < keys.len() && #[trigger] stable_rank(keys, i) == b;
        assert(out[stable_rank(keys, ia) as int] == inp[ia]);
        assert(out[stable_rank(keys, ib) as int] == inp[ib]);
        if ts_lt(keys[ib], keys[ia]) {
            lemma_rank_order(keys, ib, ia);
        }
    }
}

} // verus!
