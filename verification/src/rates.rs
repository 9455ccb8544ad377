//! Refresh-rate lists.
//!
//! The rates gathered for one resolution are sorted in descending order and
//! then deduplicated: walking the sorted list, a rate within 0.01 Hz
//! (10 millihertz) of the last rate kept is treated as the same mode and
//! dropped, so the first representative of each group of near-equal rates
//! survives.

use vstd::prelude::*;

verus! {

/// Two rates closer than this many millihertz count as the same mode.
pub const RATE_DEDUP_EPS_MILLI: u64 = 10;

/// The absolute difference of two rates.
pub open spec fn milli_diff(a: u64, b: u64) -> int {
    if a >= b {
        a - b
    } else {
        b - a
    }
}

/// `s` is in descending order.
pub open spec fn sorted_desc(s: Seq<u64>) -> bool {
    forall|i: int, j: int| 0 <= i < j < s.len() ==> s[i] >= s[j]
}

/// Consecutive entries of `s` are at least the dedup tolerance apart
/// (which makes `s` strictly descending).
pub open spec fn rates_separated(s: Seq<u64>) -> bool {
    forall|i: int| 0 <= i < s.len() - 1 ==> #[trigger] s[i] >= s[i + 1] + RATE_DEDUP_EPS_MILLI
}

/// `x` placed into the descending list `s`, before the first entry it is
/// greater than or equal to.
pub open spec fn insert_desc_spec(s: Seq<u64>, x: u64) -> Seq<u64>
    decreases s.len(),
{
    if s.len() == 0 {
        seq![x]
    } else if x >= s[0] {
        seq![x] + s
    } else {
        seq![s[0]] + insert_desc_spec(s.drop_first(), x)
    }
}

/// `s` sorted in descending order by repeated insertion.
pub open spec fn sort_desc_spec(s: Seq<u64>) -> Seq<u64>
    decreases s.len(),
{
    if s.len() == 0 {
        Seq::empty()
    } else {
        insert_desc_spec(sort_desc_spec(s.drop_last()), s.last())
    }
}

/// The sorted list `s` with every entry within the tolerance of the last
/// entry kept before it removed.
pub open spec fn dedup_desc_spec(s: Seq<u64>) -> Seq<u64>
    decreases s.len(),
{
    if s.len() == 0 {
        Seq::empty()
    } else {
        let p = dedup_desc_spec(s.drop_last());
        let x = s.last();
        if p.len() == 0 {
            seq![x]
        } else if milli_diff(p.last(), x) < RATE_DEDUP_EPS_MILLI {
            p
        } else {
            p.push(x)
        }
    }
}

/// The full normalization a raw rate list goes through.
pub open spec fn normalize_rates_spec(raw: Seq<u64>) -> Seq<u64> {
    dedup_desc_spec(sort_desc_spec(raw))
}

proof fn lemma_insert_desc_sorted(s: Seq<u64>, x: u64)
    requires
        sorted_desc(s),
    ensures
        sorted_desc(insert_desc_spec(s, x)),
        insert_desc_spec(s, x).len() == s.len() + 1,
        insert_desc_spec(s, x).contains(x),
        forall|i: int|
            0 <= i < insert_desc_spec(s, x).len() ==> insert_desc_spec(s, x)[i] == x || s.contains(
                #[trigger] insert_desc_spec(s, x)[i],
            ),
    decreases s.len(),
{
    let r = insert_desc_spec(s, x);
    if s.len() == 0 {
        assert(r[0] == x);
    } else if x >= s[0] {
        assert(r[0] == x);
        assert(forall|i: int| 1 <= i < r.len() ==> r[i] == s[i - 1]);
        assert(forall|i: int| 1 <= i < r.len() ==> s.contains(#[trigger] r[i])) by {
            assert(forall|i: int| 1 <= i < r.len() ==> r[i] == s[i - 1]);
        }
    } else {
        let t = s.drop_first();
        assert(sorted_desc(t));
        lemma_insert_desc_sorted(t, x);
        let rt = insert_desc_spec(t, x);
        assert(r[0] == s[0]);
        assert(forall|i: int| 1 <= i < r.len() ==> r[i] == rt[i - 1]);
        // every entry of rt is x or an entry of t, both of which s[0] bounds
        assert(forall|i: int| 0 <= i < t.len() ==> s[0] >= #[trigger] t[i]) by {
            assert(forall|i: int| 0 <= i < t.len() ==> t[i] == s[i + 1]);
        }
        assert(forall|k: int| 0 <= k < rt.len() ==> s[0] >= #[trigger] rt[k]) by {
            assert(forall|k: int| 0 <= k < rt.len() ==> rt[k] == x || t.contains(rt[k]));
        }
        assert(sorted_desc(r));
        assert(r.contains(x)) by {
            let w = choose|w: int| 0 <= w < rt.len() && rt[w] == x;
            assert(r[w + 1] == x);
        }
        assert(forall|i: int| 0 <= i < r.len() ==> r[i] == x || s.contains(#[trigger] r[i])) by {
            assert(forall|i: int|
                1 <= i < r.len() ==> rt[i - 1] == x || t.contains(#[trigger] r[i]));
            assert(forall|k: int| 0 <= k < t.len() ==> t[k] == s[k + 1]);
            assert(forall|i: int| 0 <= i < t.len() && t.contains(r[i]) ==> s.contains(r[i]));
            assert(s.contains(s[0]));
        }
    }
}

/// Sorting yields a descending list.
pub proof fn lemma_sort_desc_sorted(s: Seq<u64>)
    ensures
        sorted_desc(sort_desc_spec(s)),
        sort_desc_spec(s).len() == s.len(),
    decreases s.len(),
{
    if s.len() > 0 {
        lemma_sort_desc_sorted(s.drop_last());
        lemma_insert_desc_sorted(sort_desc_spec(s.drop_last()), s.last());
    }
}

/// Deduplicating a descending list leaves its first entry in place and
/// keeps the entries at least the tolerance apart.
pub proof fn lemma_dedup_desc_separated(s: Seq<u64>)
    requires
        sorted_desc(s),
    ensures
        rates_separated(dedup_desc_spec(s)),
        dedup_desc_spec(s).len() > 0 <==> s.len() > 0,
        s.len() > 0 ==> dedup_desc_spec(s)[0] == s[0],
        s.len() > 0 ==> dedup_desc_spec(s).last() >= s.last(),
    decreases s.len(),
{
    if s.len() > 0 {
        let p = dedup_desc_spec(s.drop_last());
        let x = s.last();
        let r = dedup_desc_spec(s);
        assert(sorted_desc(s.drop_last()));
        lemma_dedup_desc_separated(s.drop_last());
        if s.len() == 1 {
            assert(r =~= seq![x]);
        } else {
            assert(s.drop_last().len() > 0);
            assert(p.last() >= s.drop_last().last());
            assert(s.drop_last().last() == s[s.len() - 2]);
            assert(s[s.len() - 2] >= x);
            if milli_diff(p.last(), x) < RATE_DEDUP_EPS_MILLI {
                assert(r == p);
            } else {
                assert(r == p.push(x));
                assert(p.last() >= x + RATE_DEDUP_EPS_MILLI);
                assert(forall|i: int|
                    0 <= i < r.len() - 1 ==> #[trigger] r[i] >= r[i + 1]
                        + RATE_DEDUP_EPS_MILLI) by {
                    assert(forall|i: int| 0 <= i < p.len() ==> r[i] == p[i]);
                    assert(r[r.len() - 1] == x);
                }
            }
        }
    }
}

/// No two rates of a normalized list are within the tolerance of one
/// another: the list is strictly descending with gaps of at least
/// 0.01 Hz. This holds of every rate list the catalog builder produces,
/// whose lists are exactly `normalize_rates_spec` of the rates parsed.
pub proof fn lemma_normalized_rates_separated(raw: Seq<u64>)
    ensures
        rates_separated(normalize_rates_spec(raw)),
        forall|i: int, j: int|
            0 <= i < j < normalize_rates_spec(raw).len() ==> normalize_rates_spec(raw)[i]
                >= normalize_rates_spec(raw)[j] + RATE_DEDUP_EPS_MILLI,
{
    lemma_sort_desc_sorted(raw);
    lemma_dedup_desc_separated(sort_desc_spec(raw));
    lemma_separated_pairwise(normalize_rates_spec(raw));
}

/// Separation of neighbours extends to every pair.
pub proof fn lemma_separated_pairwise(s: Seq<u64>)
    requires
        rates_separated(s),
    ensures
        forall|i: int, j: int| 0 <= i < j < s.len() ==> s[i] >= s[j] + RATE_DEDUP_EPS_MILLI,
{
    assert forall|i: int, j: int| 0 <= i < j < s.len() implies s[i] >= s[j]
        + RATE_DEDUP_EPS_MILLI by {
        lemma_separated_chain(s, i, j);
    }
}

proof fn lemma_separated_chain(s: Seq<u64>, i: int, j: int)
    requires
        rates_separated(s),
        0 <= i < j < s.len(),
    ensures
        s[i] >= s[j] + RATE_DEDUP_EPS_MILLI,
    decreases j - i,
{
    if j == i + 1 {
    } else {
        lemma_separated_chain(s, i + 1, j);
    }
}

proof fn lemma_insert_desc_multiset(s: Seq<u64>, x: u64)
    ensures
        insert_desc_spec(s, x).to_multiset() =~= s.to_multiset().insert(x),
    decreases s.len(),
{
    broadcast use vstd::seq_lib::group_seq_properties;

    s.to_multiset_ensures();
    if s.len() == 0 {
        assert(seq![x] =~= Seq::<u64>::empty().push(x));
        Seq::<u64>::empty().to_multiset_ensures();
    } else if x >= s[0] {
        vstd::seq_lib::lemma_multiset_commutative(seq![x], s);
        assert(seq![x] =~= Seq::<u64>::empty().push(x));
        Seq::<u64>::empty().to_multiset_ensures();
        assert(insert_desc_spec(s, x).to_multiset() =~= s.to_multiset().insert(x)) by {
            assert(insert_desc_spec(s, x).to_multiset() == seq![x].to_multiset().add(
                s.to_multiset(),
            ));
        }
    } else {
        let tail = s.drop_first();
        lemma_insert_desc_multiset(tail, x);
        vstd::seq_lib::lemma_multiset_commutative(seq![s[0]], insert_desc_spec(tail, x));
        vstd::seq_lib::lemma_multiset_commutative(seq![s[0]], tail);
        assert(s =~= seq![s[0]] + tail);
    }
}

/// Sorting rearranges the rates and nothing more: the sorted list holds
/// exactly the rates that came in, with their multiplicities.
pub proof fn lemma_sort_desc_multiset(s: Seq<u64>)
    ensures
        sort_desc_spec(s).to_multiset() =~= s.to_multiset(),
    decreases s.len(),
{
    if s.len() == 0 {
        assert(s =~= Seq::<u64>::empty());
    } else {
        let dl = s.drop_last();
        lemma_sort_desc_multiset(dl);
        lemma_insert_desc_multiset(sort_desc_spec(dl), s.last());
        dl.to_multiset_ensures();
        assert(s =~= dl.push(s.last()));
        assert(dl.push(s.last()).to_multiset() =~= dl.to_multiset().insert(s.last()));
        assert(sort_desc_spec(s).to_multiset() =~= sort_desc_spec(dl).to_multiset().insert(
            s.last(),
        ));
        assert(sort_desc_spec(dl).to_multiset().insert(s.last()) =~= dl.to_multiset().insert(
            s.last(),
        ));
    }
}

/// Every rate that survives deduplication was in the list.
pub proof fn lemma_dedup_desc_contains(s: Seq<u64>)
    ensures
        forall|v: u64| dedup_desc_spec(s).contains(v) ==> s.contains(v),
    decreases s.len(),
{
    if s.len() > 0 {
        let dl = s.drop_last();
        let p = dedup_desc_spec(dl);
        let x = s.last();
        let r = dedup_desc_spec(s);
        lemma_dedup_desc_contains(dl);
        assert forall|v: u64| r.contains(v) implies s.contains(v) by {
            let k = choose|k: int| 0 <= k < r.len() && r[k] == v;
            if p.len() == 0 {
                assert(r =~= seq![x]);
                assert(v == x);
                assert(s[s.len() - 1] == v);
            } else if milli_diff(p.last(), x) < RATE_DEDUP_EPS_MILLI {
                assert(r == p);
                assert(p.contains(v));
                assert(dl.contains(v));
                let j = choose|j: int| 0 <= j < dl.len() && dl[j] == v;
                assert(s[j] == v);
            } else {
                assert(r == p.push(x));
                if k == p.len() {
                    assert(v == x);
                    assert(s[s.len() - 1] == v);
                } else {
                    assert(p[k] == v);
                    assert(dl.contains(v));
                    let j = choose|j: int| 0 <= j < dl.len() && dl[j] == v;
                    assert(s[j] == v);
                }
            }
        }
    }
}

/// A normalized list holds only rates that were in the raw list (the
/// first representative of each group of near-equal rates).
pub proof fn lemma_normalize_rates_members(raw: Seq<u64>)
    ensures
        forall|v: u64| normalize_rates_spec(raw).contains(v) ==> raw.contains(v),
{
    lemma_sort_desc_multiset(raw);
    lemma_dedup_desc_contains(sort_desc_spec(raw));
    let sorted = sort_desc_spec(raw);
    sorted.to_multiset_ensures();
    raw.to_multiset_ensures();
    assert forall|v: u64| normalize_rates_spec(raw).contains(v) implies raw.contains(v) by {
        assert(sorted.contains(v));
        assert(sorted.to_multiset().count(v) > 0);
    }
}

/// Deduplication never lengthens a list.
pub proof fn lemma_dedup_desc_len(s: Seq<u64>)
    ensures
        dedup_desc_spec(s).len() <= s.len(),
    decreases s.len(),
{
    if s.len() > 0 {
        lemma_dedup_desc_len(s.drop_last());
    }
}

/// Inserts `x` into the descending list `v`.
fn insert_rate_desc(v: &mut Vec<u64>, x: u64)
    ensures
        final(v)@ == insert_desc_spec(old(v)@, x),
{
    let len = v.len();
    let mut j: usize = 0;
    while j < len && x < v[j]
        invariant
            j <= len,
            len == v@.len(),
            forall|t: int| 0 <= t < j ==> x < v@[t],
        decreases len - j,
    {
        j = j + 1;
    }
    v.insert(j, x);
    proof {
        lemma_insert_desc_at(old(v)@, x, j as int);
        assert(v@ =~= old(v)@.take(j as int) + seq![x] + old(v)@.skip(j as int));
    }
}

proof fn lemma_insert_desc_at(s: Seq<u64>, x: u64, j: int)
    requires
        0 <= j <= s.len(),
        forall|t: int| 0 <= t < j ==> x < s[t],
        j < s.len() ==> x >= s[j],
    ensures
        insert_desc_spec(s, x) == s.take(j) + seq![x] + s.skip(j),
    decreases s.len(),
{
    if s.len() == 0 {
        assert(insert_desc_spec(s, x) =~= s.take(0) + seq![x] + s.skip(0));
    } else if j == 0 {
        assert(x >= s[0]);
        assert(insert_desc_spec(s, x) =~= s.take(0) + seq![x] + s.skip(0));
    } else {
        assert(x < s[0]);
        let t = s.drop_first();
        assert(forall|u: int| 0 <= u < j - 1 ==> x < #[trigger] t[u]) by {
            assert(forall|u: int| 0 <= u < t.len() ==> t[u] == s[u + 1]);
        }
        lemma_insert_desc_at(t, x, j - 1);
        assert(seq![s[0]] + (t.take(j - 1) + seq![x] + t.skip(j - 1)) =~= s.take(j) + seq![x]
            + s.skip(j));
    }
}

/// Sorts a raw rate list in descending order.
pub fn sort_rates_desc(v: &Vec<u64>) -> (r: Vec<u64>)
    ensures
        r@ == sort_desc_spec(v@),
{
    let mut out: Vec<u64> = Vec::new();
    let mut i: usize = 0;
    proof {
        assert(v@.take(0).len() == 0);
    }
    while i < v.len()
        invariant
            i <= v@.len(),
            out@ == sort_desc_spec(v@.take(i as int)),
        decreases v@.len() - i,
    {
        insert_rate_desc(&mut out, v[i]);
        proof {
            assert(v@.take(i as int + 1).drop_last() =~= v@.take(i as int));
            assert(v@.take(i as int + 1).last() == v@[i as int]);
        }
        i = i + 1;
    }
    proof {
        assert(v@.take(v@.len() as int) =~= v@);
    }
    out
}

/// Deduplicates a descending rate list, keeping the first representative
/// of each group of rates within the tolerance.
pub fn dedup_rates(v: &Vec<u64>) -> (r: Vec<u64>)
    ensures
        r@ == dedup_desc_spec(v@),
{
    let mut out: Vec<u64> = Vec::new();
    let mut i: usize = 0;
    proof {
        assert(v@.take(0).len() == 0);
    }
    while i < v.len()
        invariant
            i <= v@.len(),
            out@ == dedup_desc_spec(v@.take(i as int)),
        decreases v@.len() - i,
    {
        let x = v[i];
        proof {
            assert(v@.take(i as int + 1).drop_last() =~= v@.take(i as int));
            assert(v@.take(i as int + 1).last() == v@[i as int]);
        }
        if out.len() == 0 {
            out.push(x);
            proof {
                assert(out@ =~= seq![x]);
            }
        } else {
            let last = out[out.len() - 1];
            let d = if last >= x {
                last - x
            } else {
                x - last
            };
            if d < RATE_DEDUP_EPS_MILLI {
                // same mode as the last rate kept
            } else {
                out.push(x);
            }
        }
        i = i + 1;
    }
    proof {
        assert(v@.take(v@.len() as int) =~= v@);
    }
    out
}

/// Sorts and deduplicates a raw rate list.
pub fn normalize_rates(v: &Vec<u64>) -> (r: Vec<u64>)
    ensures
        r@ == normalize_rates_spec(v@),
        rates_separated(r@),
        r@.len() > 0 <==> v@.len() > 0,
{
    let sorted = sort_rates_desc(v);
    let out = dedup_rates(&sorted);
    proof {
        lemma_sort_desc_sorted(v@);
        lemma_dedup_desc_separated(sorted@);
    }
    out
}

} // verus!
