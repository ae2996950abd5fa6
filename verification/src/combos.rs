//! The combination enumerator.
//!
//! `combos_from` is the mathematical list of all k-element index subsets
//! in lexicographic order. The generic generator and the specialized
//! five-deep loop nest both return exactly that list, which makes their
//! equivalence, the C(n, k) count, and distinctness provable facts.

use vstd::prelude::*;

use crate::binom::{binom, lemma_binom_nonneg};

verus! {

/// All strictly increasing `k`-element sequences over `lo..n`, in
/// lexicographic order: first every combination starting with `lo`,
/// then those starting higher.
pub open spec fn combos_from(lo: int, n: int, k: int) -> Seq<Seq<int>>
    decreases n - lo, k,
{
    if k <= 0 {
        seq![Seq::<int>::empty()]
    } else if n - lo < k {
        Seq::empty()
    } else {
        combos_from(lo + 1, n, k - 1).map_values(|c: Seq<int>| seq![lo] + c) + combos_from(
            lo + 1,
            n,
            k,
        )
    }
}

/// A well-formed combination: `k` strictly increasing indices in `lo..n`.
pub open spec fn combo_wf(c: Seq<int>, lo: int, n: int, k: int) -> bool {
    c.len() == k && (forall|i: int| 0 <= i < c.len() ==> lo <= #[trigger] c[i] < n) && (forall|
        i: int,
    |
        0 <= i < c.len() - 1 ==> #[trigger] c[i] < c[i + 1])
}

/// The enumeration is complete in count: exactly C(n - lo, k) entries.
pub proof fn lemma_combos_count(lo: int, n: int, k: int)
    requires
        0 <= k,
        lo <= n,
    ensures
        combos_from(lo, n, k).len() == binom(n - lo, k),
    decreases n - lo, k,
{
    if k == 0 {
    } else if n - lo < k {
    } else {
        lemma_combos_count(lo + 1, n, k - 1);
        lemma_combos_count(lo + 1, n, k);
    }
}

/// Every entry is a well-formed combination over `lo..n`.
pub proof fn lemma_combos_elements(lo: int, n: int, k: int)
    requires
        0 <= k,
        lo <= n,
    ensures
        forall|j: int|
            0 <= j < combos_from(lo, n, k).len() ==> combo_wf(
                #[trigger] combos_from(lo, n, k)[j],
                lo,
                n,
                k,
            ),
    decreases n - lo, k,
{
    if k == 0 {
        assert(combo_wf(combos_from(lo, n, k)[0], lo, n, k));
    } else if n - lo < k {
    } else {
        lemma_combos_elements(lo + 1, n, k - 1);
        lemma_combos_elements(lo + 1, n, k);
        let block = combos_from(lo + 1, n, k - 1).map_values(|c: Seq<int>| seq![lo] + c);
        assert forall|j: int| 0 <= j < combos_from(lo, n, k).len() implies combo_wf(
            #[trigger] combos_from(lo, n, k)[j],
            lo,
            n,
            k,
        ) by {
            if j < block.len() {
                let sub = combos_from(lo + 1, n, k - 1)[j];
                assert(combo_wf(sub, lo + 1, n, k - 1));
                let c = seq![lo] + sub;
                assert(combos_from(lo, n, k)[j] == c);
                assert(c.len() == k);
                assert(forall|i: int| 0 <= i < sub.len() ==> c[i + 1] == sub[i]);
                assert(c[0] == lo);
                assert forall|i: int| 0 <= i < c.len() implies lo <= #[trigger] c[i] < n by {
                    if i > 0 {
                        assert(c[i] == sub[i - 1]);
                    }
                }
                assert forall|i: int| 0 <= i < c.len() - 1 implies #[trigger] c[i] < c[i + 1] by {
                    if i > 0 {
                        assert(c[i] == sub[i - 1] && c[i + 1] == sub[i]);
                    } else {
                        assert(c[0] == lo && c[1] == sub[0]);
                    }
                }
            } else {
                let c = combos_from(lo + 1, n, k)[j - block.len()];
                assert(combos_from(lo, n, k)[j] == c);
                assert(combo_wf(c, lo + 1, n, k));
            }
        }
    }
}

/// No combination is listed twice.
pub proof fn lemma_combos_distinct(lo: int, n: int, k: int)
    requires
        0 <= k,
        lo <= n,
    ensures
        forall|i: int, j: int|
            0 <= i < j < combos_from(lo, n, k).len() ==> #[trigger] combos_from(lo, n, k)[i]
                != #[trigger] combos_from(lo, n, k)[j],
    decreases n - lo, k,
{
    if k == 0 || n - lo < k {
    } else {
        lemma_combos_distinct(lo + 1, n, k - 1);
        lemma_combos_distinct(lo + 1, n, k);
        lemma_combos_elements(lo + 1, n, k - 1);
        lemma_combos_elements(lo + 1, n, k);
        let sub = combos_from(lo + 1, n, k - 1);
        let block = sub.map_values(|c: Seq<int>| seq![lo] + c);
        let rest = combos_from(lo + 1, n, k);
        assert forall|i: int, j: int|
            0 <= i < j < combos_from(lo, n, k).len() implies #[trigger] combos_from(lo, n, k)[i]
            != #[trigger] combos_from(lo, n, k)[j] by {
            if j < block.len() {
                // both prepend `lo`: distinct tails stay distinct
                assert(combos_from(lo, n, k)[i] == seq![lo] + sub[i]);
                assert(combos_from(lo, n, k)[j] == seq![lo] + sub[j]);
                if seq![lo] + sub[i] == seq![lo] + sub[j] {
                    assert(combo_wf(sub[i], lo + 1, n, k - 1));
                    assert(combo_wf(sub[j], lo + 1, n, k - 1));
                    assert(sub[i] =~= sub[j]) by {
                        assert forall|t: int| 0 <= t < sub[i].len() implies sub[i][t] == sub[j][t]
                        by {
                            assert((seq![lo] + sub[i])[t + 1] == sub[i][t]);
                            assert((seq![lo] + sub[j])[t + 1] == sub[j][t]);
                        }
                    }
                }
            } else if i >= block.len() {
                assert(combos_from(lo, n, k)[i] == rest[i - block.len()]);
                assert(combos_from(lo, n, k)[j] == rest[j - block.len()]);
            } else {
                // a combination starting with `lo` versus one starting higher
                let a = combos_from(lo, n, k)[i];
                let b = combos_from(lo, n, k)[j];
                assert(a == seq![lo] + sub[i]);
                assert(b == rest[j - block.len()]);
                assert(combo_wf(b, lo + 1, n, k));
                assert(a[0] == lo);
                assert(b[0] >= lo + 1);
            }
        }
    }
}

/// An index vector's contents read as mathematical integers.
pub open spec fn view_as_ints(v: Seq<usize>) -> Seq<int> {
    v.map_values(|u: usize| u as int)
}

/// The executable views of a generated list: each inner vector read as a
/// mathematical index sequence.
pub open spec fn combo_views(out: Seq<Vec<usize>>) -> Seq<Seq<int>> {
    Seq::new(out.len(), |j: int| view_as_ints(out[j]@))
}

/// Generate `combos_from(lo, n, k)` by direct recursion.
#[verifier::loop_isolation(false)]
fn combos_rec(lo: usize, n: usize, k: usize) -> (out: Vec<Vec<usize>>)
    requires
        lo <= n,
    ensures
        combo_views(out@) == combos_from(lo as int, n as int, k as int),
    decreases n - lo,
{
    let mut out: Vec<Vec<usize>> = Vec::new();
    if k == 0 {
        let empty_combo: Vec<usize> = Vec::new();
        out.push(empty_combo);
        proof {
            assert(combo_views(out@) =~~= combos_from(lo as int, n as int, 0));
        }
        return out;
    }
    if n - lo < k {
        proof {
            assert(combo_views(out@) =~~= combos_from(lo as int, n as int, k as int));
        }
        return out;
    }
    let ghost subspec = combos_from(lo as int + 1, n as int, k as int - 1);
    let ghost block = subspec.map_values(|c: Seq<int>| seq![lo as int] + c);
    let sub1 = combos_rec(lo + 1, n, k - 1);
    let mut i: usize = 0;
    while i < sub1.len()
        invariant
            i <= sub1@.len(),
            combo_views(out@) =~~= block.take(i as int),
        decreases sub1@.len() - i,
    {
        let inner = &sub1[i];
        let mut v: Vec<usize> = Vec::new();
        v.push(lo);
        let mut t: usize = 0;
        while t < inner.len()
            invariant
                t <= inner@.len(),
                v@ =~= seq![lo].add(inner@.take(t as int)),
            decreases inner@.len() - t,
        {
            v.push(inner[t]);
            t = t + 1;
        }
        proof {
            assert(v@ =~= seq![lo] + inner@);
        }
        out.push(v);
        proof {
            assert(combo_views(out@) =~~= block.take(i as int + 1));
        }
        i = i + 1;
    }
    proof {
        assert(combo_views(out@) =~~= block);
    }
    let ghost views_a = combo_views(out@);
    let mut sub2 = combos_rec(lo + 1, n, k);
    proof {
        assert(combo_views(out@ + sub2@) =~= views_a + combo_views(sub2@));
    }
    out.append(&mut sub2);
    proof {
        assert(combo_views(out@) =~~= combos_from(lo as int, n as int, k as int));
    }
    out
}

/// The generic enumerator: every `k`-element subset of `0..n`, each as a
/// strictly increasing index vector, in lexicographic order, C(n, k) of
/// them with no duplicates.
pub fn combinations(n: usize, k: usize) -> (out: Vec<Vec<usize>>)
    ensures
        combo_views(out@) == combos_from(0, n as int, k as int),
        out@.len() == binom(n as int, k as int),
{
    proof {
        lemma_combos_count(0, n as int, k as int);
    }
    combos_rec(0, n, k)
}

/// Every element of `l` with `p` prepended.
pub open spec fn prefixed(p: Seq<int>, l: Seq<Seq<int>>) -> Seq<Seq<int>> {
    l.map_values(|c: Seq<int>| p + c)
}

/// Combinations whose first index lies in `lo..hi` (the rest ascending
/// to `n`), in lexicographic order: the part of `combos_from` a partial
/// scan of first indices has produced.
pub open spec fn combos_range(lo: int, hi: int, n: int, k: int) -> Seq<Seq<int>>
    decreases hi - lo,
{
    if lo >= hi {
        Seq::empty()
    } else {
        combos_from(lo + 1, n, k - 1).map_values(|c: Seq<int>| seq![lo] + c) + combos_range(
            lo + 1,
            hi,
            n,
            k,
        )
    }
}

/// Extending the scanned range by one first-index appends that block.
pub proof fn lemma_combos_range_snoc(lo: int, hi: int, n: int, k: int)
    requires
        lo <= hi,
    ensures
        combos_range(lo, hi + 1, n, k) == combos_range(lo, hi, n, k) + combos_from(
            hi + 1,
            n,
            k - 1,
        ).map_values(|c: Seq<int>| seq![hi] + c),
    decreases hi - lo,
{
    let block_hi = combos_from(hi + 1, n, k - 1).map_values(|c: Seq<int>| seq![hi] + c);
    if lo == hi {
        reveal_with_fuel(combos_range, 3);
        assert(combos_range(lo, hi + 1, n, k) =~~= block_hi);
        assert(combos_range(lo, hi, n, k) + block_hi =~~= block_hi);
    } else {
        lemma_combos_range_snoc(lo + 1, hi, n, k);
        let block_lo = combos_from(lo + 1, n, k - 1).map_values(|c: Seq<int>| seq![lo] + c);
        assert(combos_range(lo, hi + 1, n, k) == block_lo + combos_range(lo + 1, hi + 1, n, k));
        assert(combos_range(lo, hi + 1, n, k) =~= (block_lo + combos_range(lo + 1, hi, n, k))
            + block_hi);
    }
}

/// A full scan of first indices reproduces the lexicographic list.
pub proof fn lemma_combos_range_full(lo: int, n: int, k: int)
    requires
        1 <= k,
        0 <= lo <= n,
    ensures
        combos_from(lo, n, k) == combos_range(lo, n, n, k),
    decreases n - lo,
{
    if lo >= n {
        assert(combos_from(lo, n, k) =~= combos_range(lo, n, n, k));
    } else {
        lemma_combos_range_full(lo + 1, n, k);
        let block = combos_from(lo + 1, n, k - 1).map_values(|c: Seq<int>| seq![lo] + c);
        if n - lo < k {
            lemma_combos_count(lo + 1, n, k - 1);
            lemma_binom_nonneg(n - lo - 1, k - 1);
            assert(binom(n - lo - 1, k - 1) == 0);
            assert(combos_from(lo, n, k) =~= block + combos_from(lo + 1, n, k));
        }
        assert(combos_range(lo, n, n, k) == block + combos_range(lo + 1, n, n, k));
        assert(combos_from(lo, n, k) =~= combos_range(lo, n, n, k));
    }
}

/// The specialized preflop enumerator: all five-element subsets of
/// `0..n` by a direct five-deep loop nest, with no per-combination
/// recursion, producing exactly the generic generator's list.
#[verifier::loop_isolation(false)]
pub fn combinations_five(n: usize) -> (out: Vec<Vec<usize>>)
    ensures
        combo_views(out@) == combos_from(0, n as int, 5),
        out@.len() == binom(n as int, 5),
{
    let ghost ni = n as int;
    let mut out: Vec<Vec<usize>> = Vec::new();
    let mut i0: usize = 0;
    while i0 < n
        invariant
            i0 <= n,
            combo_views(out@) =~~= combos_range(0, i0 as int, ni, 5),
        decreases n - i0,
    {
        let ghost base1 = combo_views(out@);
        let ghost p1 = seq![i0 as int];
        let mut i1: usize = i0 + 1;
        while i1 < n
            invariant
                i0 + 1 <= i1 <= n,
                combo_views(out@) =~~= base1 + prefixed(
                    p1,
                    combos_range(i0 as int + 1, i1 as int, ni, 4),
                ),
            decreases n - i1,
        {
            let ghost base2 = combo_views(out@);
            let ghost p2 = p1.push(i1 as int);
            let mut i2: usize = i1 + 1;
            while i2 < n
                invariant
                    i1 + 1 <= i2 <= n,
                    combo_views(out@) =~~= base2 + prefixed(
                        p2,
                        combos_range(i1 as int + 1, i2 as int, ni, 3),
                    ),
                decreases n - i2,
            {
                let ghost base3 = combo_views(out@);
                let ghost p3 = p2.push(i2 as int);
                let mut i3: usize = i2 + 1;
                while i3 < n
                    invariant
                        i2 + 1 <= i3 <= n,
                        combo_views(out@) =~~= base3 + prefixed(
                            p3,
                            combos_range(i2 as int + 1, i3 as int, ni, 2),
                        ),
                    decreases n - i3,
                {
                    let ghost base4 = combo_views(out@);
                    let ghost p4 = p3.push(i3 as int);
                    let mut i4: usize = i3 + 1;
                    while i4 < n
                        invariant
                            i3 + 1 <= i4 <= n,
                            combo_views(out@) =~~= base4 + prefixed(
                                p4,
                                combos_range(i3 as int + 1, i4 as int, ni, 1),
                            ),
                        decreases n - i4,
                    {
                        let mut v: Vec<usize> = Vec::new();
                        v.push(i0);
                        v.push(i1);
                        v.push(i2);
                        v.push(i3);
                        v.push(i4);
                        let ghost out_before = out@;
                        out.push(v);
                        proof {
                            lemma_combos_range_snoc(i3 as int + 1, i4 as int, ni, 1);
                            assert(combos_from(i4 as int + 1, ni, 0) == seq![Seq::<int>::empty()]);
                            assert(combos_range(i3 as int + 1, i4 as int + 1, ni, 1) =~~= combos_range(
                                i3 as int + 1,
                                i4 as int,
                                ni,
                                1,
                            ) + seq![seq![i4 as int]]);
                            assert(prefixed(
                                p4,
                                combos_range(i3 as int + 1, i4 as int + 1, ni, 1),
                            ) =~~= prefixed(p4, combos_range(i3 as int + 1, i4 as int, ni, 1))
                                + seq![p4.push(i4 as int)]);
                            assert(view_as_ints(v@) =~= p4.push(i4 as int));
                            assert(out@ == out_before.push(v));
                            assert(combo_views(out@) =~~= combo_views(out_before) + seq![
                                view_as_ints(v@),
                            ]);
                            assert(combo_views(out_before) == base4 + prefixed(
                                p4,
                                combos_range(i3 as int + 1, i4 as int, ni, 1),
                            ));
                            assert(combo_views(out@) =~~= base4 + prefixed(
                                p4,
                                combos_range(i3 as int + 1, i4 as int + 1, ni, 1),
                            ));
                        }
                        i4 = i4 + 1;
                    }
                    proof {
                        lemma_combos_range_full(i3 as int + 1, ni, 1);
                        lemma_combos_range_snoc(i2 as int + 1, i3 as int, ni, 2);
                        assert(combo_views(out@) =~~= base3 + prefixed(
                            p3,
                            combos_range(i2 as int + 1, i3 as int + 1, ni, 2),
                        ));
                    }
                    i3 = i3 + 1;
                }
                proof {
                    lemma_combos_range_full(i2 as int + 1, ni, 2);
                    lemma_combos_range_snoc(i1 as int + 1, i2 as int, ni, 3);
                    assert(combo_views(out@) =~~= base2 + prefixed(
                        p2,
                        combos_range(i1 as int + 1, i2 as int + 1, ni, 3),
                    ));
                }
                i2 = i2 + 1;
            }
            proof {
                lemma_combos_range_full(i1 as int + 1, ni, 3);
                lemma_combos_range_snoc(i0 as int + 1, i1 as int, ni, 4);
                assert(combo_views(out@) =~~= base1 + prefixed(
                    p1,
                    combos_range(i0 as int + 1, i1 as int + 1, ni, 4),
                ));
            }
            i1 = i1 + 1;
        }
        proof {
            lemma_combos_range_full(i0 as int + 1, ni, 4);
            lemma_combos_range_snoc(0, i0 as int, ni, 5);
            assert(combo_views(out@) =~~= combos_range(0, i0 as int + 1, ni, 5));
        }
        i0 = i0 + 1;
    }
    proof {
        lemma_combos_range_full(0, ni, 5);
        assert(combo_views(out@) =~~= combos_from(0, ni, 5));
        lemma_combos_count(0, ni, 5);
    }
    out
}

} // verus!
