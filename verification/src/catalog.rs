//! Building the mode catalog.
//!
//! Each mode string that parses contributes its rate to the entry of its
//! resolution label; entries are kept in lexicographic label order, and a
//! label's raw rates are collected in encounter order. Once every string is
//! in, each entry's rates are sorted descending and deduplicated.

use vstd::prelude::*;

use crate::modestr::{parse_mode, parse_mode_spec};
use crate::monitor::{table_view, table_wf, ModeEntry, ModeEntryView};
use crate::order::{lemma_lex_transitive, lemma_lex_trichotomy, lex_lt, str_lex_lt};
use crate::rates::{
    lemma_dedup_desc_separated, lemma_sort_desc_sorted, normalize_rates, normalize_rates_spec,
};

verus! {

/// `res` and `rate` placed into a catalog kept in ascending label order:
/// the rate is appended to the entry labelled `res`, or a new entry is
/// made at the label's position.
pub open spec fn assoc_insert(
    t: Seq<ModeEntryView>,
    res: Seq<char>,
    rate: u64,
) -> Seq<ModeEntryView>
    decreases t.len(),
{
    if t.len() == 0 {
        seq![ModeEntryView { resolution: res, rates: seq![rate] }]
    } else if lex_lt(res, t[0].resolution) {
        seq![ModeEntryView { resolution: res, rates: seq![rate] }] + t
    } else if res == t[0].resolution {
        seq![ModeEntryView { resolution: t[0].resolution, rates: t[0].rates.push(rate) }]
            + t.drop_first()
    } else {
        seq![t[0]] + assoc_insert(t.drop_first(), res, rate)
    }
}

/// The catalog grouped from `texts`, in input order, rates still raw.
pub open spec fn group_modes(texts: Seq<Seq<char>>) -> Seq<ModeEntryView>
    decreases texts.len(),
{
    if texts.len() == 0 {
        Seq::empty()
    } else {
        let t = group_modes(texts.drop_last());
        match parse_mode_spec(texts.last()) {
            Some(p) => assoc_insert(t, p.0, p.1),
            None => t,
        }
    }
}

/// The finished catalog for `texts`: grouped, each rate list sorted
/// descending and deduplicated.
pub open spec fn mode_table_of(texts: Seq<Seq<char>>) -> Seq<ModeEntryView> {
    group_modes(texts).map_values(
        |e: ModeEntryView|
            ModeEntryView { resolution: e.resolution, rates: normalize_rates_spec(e.rates) },
    )
}

/// The views of a list of mode strings.
pub open spec fn strings_view(ss: Seq<String>) -> Seq<Seq<char>> {
    ss.map_values(|s: String| s@)
}

/// Labels strictly ascending and every raw rate list non-empty.
spec fn grouped_wf(t: Seq<ModeEntryView>) -> bool {
    &&& forall|i: int, j: int|
        0 <= i < j < t.len() ==> lex_lt(#[trigger] t[i].resolution, #[trigger] t[j].resolution)
    &&& forall|i: int| 0 <= i < t.len() ==> #[trigger] t[i].rates.len() > 0
}

proof fn lemma_assoc_insert_wf(t: Seq<ModeEntryView>, res: Seq<char>, rate: u64)
    requires
        grouped_wf(t),
    ensures
        grouped_wf(assoc_insert(t, res, rate)),
        forall|k: int|
            0 <= k < assoc_insert(t, res, rate).len() ==> (#[trigger] assoc_insert(
                t,
                res,
                rate,
            )[k].resolution == res || exists|i: int|
                0 <= i < t.len() && t[i].resolution == assoc_insert(t, res, rate)[k].resolution),
    decreases t.len(),
{
    let r = assoc_insert(t, res, rate);
    if t.len() == 0 {
        assert(r[0].resolution == res);
    } else if lex_lt(res, t[0].resolution) {
        assert(forall|k: int| 1 <= k < r.len() ==> r[k] == t[k - 1]);
        assert forall|i: int, j: int| 0 <= i < j < r.len() implies lex_lt(
            #[trigger] r[i].resolution,
            #[trigger] r[j].resolution,
        ) by {
            if i == 0 {
                if j > 1 {
                    lemma_lex_transitive(res, t[0].resolution, t[j - 1].resolution);
                }
            }
        }
        assert forall|k: int| 0 <= k < r.len() implies (#[trigger] r[k].resolution == res || exists|
            i: int,
        | 0 <= i < t.len() && t[i].resolution == r[k].resolution) by {
            if k >= 1 {
                assert(t[k - 1].resolution == r[k].resolution);
            }
        }
    } else if res == t[0].resolution {
        assert(forall|k: int| 1 <= k < r.len() ==> r[k] == t[k]);
        assert(r[0].resolution == t[0].resolution);
        assert forall|k: int| 0 <= k < r.len() implies (#[trigger] r[k].resolution == res || exists|
            i: int,
        | 0 <= i < t.len() && t[i].resolution == r[k].resolution) by {
            if k >= 1 {
                assert(t[k].resolution == r[k].resolution);
            }
        }
    } else {
        lemma_lex_trichotomy(res, t[0].resolution);
        assert(lex_lt(t[0].resolution, res));
        let tail = t.drop_first();
        assert(grouped_wf(tail)) by {
            assert(forall|k: int| 0 <= k < tail.len() ==> tail[k] == t[k + 1]);
        }
        lemma_assoc_insert_wf(tail, res, rate);
        let rt = assoc_insert(tail, res, rate);
        assert(forall|k: int| 1 <= k < r.len() ==> r[k] == rt[k - 1]);
        assert(r[0] == t[0]);
        // the head label is below every label of the recursive result
        assert forall|k: int| 1 <= k < r.len() implies lex_lt(
            t[0].resolution,
            #[trigger] r[k].resolution,
        ) by {
            assert(rt[k - 1].resolution == res || exists|i: int|
                0 <= i < tail.len() && tail[i].resolution == rt[k - 1].resolution);
            if rt[k - 1].resolution == res {
            } else {
                let i = choose|i: int|
                    0 <= i < tail.len() && tail[i].resolution == rt[k - 1].resolution;
                assert(tail[i] == t[i + 1]);
            }
        }
        assert forall|i: int, j: int| 0 <= i < j < r.len() implies lex_lt(
            #[trigger] r[i].resolution,
            #[trigger] r[j].resolution,
        ) by {
            if i >= 1 {
                assert(rt[i - 1].resolution == r[i].resolution);
                assert(rt[j - 1].resolution == r[j].resolution);
            }
        }
        assert forall|k: int| 0 <= k < r.len() implies (#[trigger] r[k].resolution == res || exists|
            i: int,
        | 0 <= i < t.len() && t[i].resolution == r[k].resolution) by {
            if k == 0 {
                assert(t[0].resolution == r[0].resolution);
            } else {
                if rt[k - 1].resolution != res {
                    let i = choose|i: int|
                        0 <= i < tail.len() && tail[i].resolution == rt[k - 1].resolution;
                    assert(t[i + 1].resolution == r[k].resolution);
                }
            }
        }
    }
}

proof fn lemma_assoc_insert_bounds(t: Seq<ModeEntryView>, res: Seq<char>, rate: u64, b: int)
    requires
        forall|i: int| 0 <= i < t.len() ==> #[trigger] t[i].rates.len() <= b,
        b >= 0,
    ensures
        assoc_insert(t, res, rate).len() <= t.len() + 1,
        forall|k: int|
            0 <= k < assoc_insert(t, res, rate).len() ==> #[trigger] assoc_insert(
                t,
                res,
                rate,
            )[k].rates.len() <= b + 1,
    decreases t.len(),
{
    let r = assoc_insert(t, res, rate);
    if t.len() == 0 {
    } else if lex_lt(res, t[0].resolution) {
        assert(forall|k: int| 1 <= k < r.len() ==> r[k] == t[k - 1]);
    } else if res == t[0].resolution {
        assert(forall|k: int| 1 <= k < r.len() ==> r[k] == t[k]);
    } else {
        let tail = t.drop_first();
        assert(forall|k: int| 0 <= k < tail.len() ==> tail[k] == t[k + 1]);
        lemma_assoc_insert_bounds(tail, res, rate, b);
        assert(forall|k: int| 1 <= k < r.len() ==> r[k] == assoc_insert(tail, res, rate)[k - 1]);
    }
}

proof fn lemma_group_modes_bounds(texts: Seq<Seq<char>>)
    ensures
        group_modes(texts).len() <= texts.len(),
        forall|i: int|
            0 <= i < group_modes(texts).len() ==> #[trigger] group_modes(texts)[i].rates.len()
                <= texts.len(),
    decreases texts.len(),
{
    if texts.len() > 0 {
        lemma_group_modes_bounds(texts.drop_last());
        match parse_mode_spec(texts.last()) {
            Some(p) => {
                lemma_assoc_insert_bounds(
                    group_modes(texts.drop_last()),
                    p.0,
                    p.1,
                    texts.len() - 1,
                );
            },
            None => {},
        }
    }
}

/// The catalog never has more entries than there were mode strings, and
/// no rate list is longer than the mode-string list.
pub proof fn lemma_mode_table_bounds(texts: Seq<Seq<char>>)
    ensures
        mode_table_of(texts).len() <= texts.len(),
        forall|i: int|
            0 <= i < mode_table_of(texts).len() ==> #[trigger] mode_table_of(
                texts,
            )[i].rates.len() <= texts.len(),
{
    lemma_group_modes_bounds(texts);
    let g = group_modes(texts);
    let m = mode_table_of(texts);
    assert forall|i: int| 0 <= i < m.len() implies #[trigger] m[i].rates.len() <= texts.len() by {
        assert(m[i].rates == normalize_rates_spec(g[i].rates));
        lemma_sort_desc_sorted(g[i].rates);
        crate::rates::lemma_dedup_desc_len(crate::rates::sort_desc_spec(g[i].rates));
    }
}

proof fn lemma_group_modes_wf(texts: Seq<Seq<char>>)
    ensures
        grouped_wf(group_modes(texts)),
    decreases texts.len(),
{
    if texts.len() > 0 {
        lemma_group_modes_wf(texts.drop_last());
        match parse_mode_spec(texts.last()) {
            Some(p) => {
                lemma_assoc_insert_wf(group_modes(texts.drop_last()), p.0, p.1);
            },
            None => {},
        }
    }
}

/// The finished catalog is well-formed: labels strictly ascending, every
/// rate list non-empty, descending, and separated by the tolerance.
pub proof fn lemma_mode_table_wf(texts: Seq<Seq<char>>)
    ensures
        table_wf(mode_table_of(texts)),
{
    lemma_group_modes_wf(texts);
    let g = group_modes(texts);
    let m = mode_table_of(texts);
    assert(m.len() == g.len());
    assert forall|i: int| 0 <= i < m.len() implies #[trigger] m[i].rates.len() > 0
        && crate::rates::rates_separated(m[i].rates) by {
        assert(m[i].resolution == g[i].resolution && m[i].rates == normalize_rates_spec(
            g[i].rates,
        ));
        lemma_sort_desc_sorted(g[i].rates);
        lemma_dedup_desc_separated(crate::rates::sort_desc_spec(g[i].rates));
    }
    assert forall|i: int, j: int| 0 <= i < j < m.len() implies lex_lt(
        #[trigger] m[i].resolution,
        #[trigger] m[j].resolution,
    ) by {
        assert(m[i].resolution == g[i].resolution && m[j].resolution == g[j].resolution);
    }
}

/// Places one parsed mode into the catalog.
fn insert_mode(table: Vec<ModeEntry>, res: String, rate: u64) -> (r: Vec<ModeEntry>)
    ensures
        table_view(r@) == assoc_insert(table_view(table@), res@, rate),
    decreases table@.len(),
{
    let ghost t_in = table@;
    let mut table = table;
    if table.len() == 0 {
        let mut rates: Vec<u64> = Vec::new();
        rates.push(rate);
        table.push(ModeEntry { resolution: res, rates });
        proof {
            assert(table_view(table@) =~= assoc_insert(table_view(t_in), res@, rate));
        }
        table
    } else if str_lex_lt(res.as_str(), table[0].resolution.as_str()) {
        let mut rates: Vec<u64> = Vec::new();
        rates.push(rate);
        table.insert(0, ModeEntry { resolution: res, rates });
        proof {
            assert(table_view(table@) =~= assoc_insert(table_view(t_in), res@, rate));
        }
        table
    } else if res == table[0].resolution {
        let mut head = table.remove(0);
        head.rates.push(rate);
        table.insert(0, head);
        proof {
            assert(table_view(table@) =~= assoc_insert(table_view(t_in), res@, rate));
        }
        table
    } else {
        let ghost t0 = table@;
        let head = table.remove(0);
        let mut rest = insert_mode(table, res, rate);
        rest.insert(0, head);
        proof {
            assert(table_view(t0).drop_first() =~= table_view(t0.drop_first()));
            assert(table_view(rest@) =~= assoc_insert(table_view(t0), res@, rate));
        }
        rest
    }
}

/// Builds the normalized catalog from the raw mode strings.
pub fn parse_modes(texts: &Vec<String>) -> (r: Vec<ModeEntry>)
    ensures
        table_view(r@) == mode_table_of(strings_view(texts@)),
        table_wf(table_view(r@)),
{
    let ghost tv = strings_view(texts@);
    let mut table: Vec<ModeEntry> = Vec::new();
    let mut i: usize = 0;
    proof {
        assert(tv.take(0).len() == 0);
        assert(table_view(table@) =~= group_modes(tv.take(0)));
    }
    while i < texts.len()
        invariant
            i <= texts@.len(),
            tv == strings_view(texts@),
            tv.len() == texts@.len(),
            table_view(table@) == group_modes(tv.take(i as int)),
        decreases texts@.len() - i,
    {
        proof {
            assert(tv.take(i as int + 1).drop_last() =~= tv.take(i as int));
            assert(tv.take(i as int + 1).last() == texts@[i as int]@);
        }
        match parse_mode(texts[i].as_str()) {
            Some(p) => {
                let (res, rate) = p;
                table = insert_mode(table, res, rate);
            },
            None => {},
        }
        i = i + 1;
    }
    proof {
        assert(tv.take(tv.len() as int) =~= tv);
    }
    // Normalize each entry's rates.
    let mut out: Vec<ModeEntry> = Vec::new();
    let mut j: usize = 0;
    while j < table.len()
        invariant
            j <= table@.len(),
            table_view(table@) == group_modes(tv),
            out@.len() == j,
            forall|k: int|
                0 <= k < j ==> #[trigger] table_view(out@)[k] == mode_table_of(tv)[k],
        decreases table@.len() - j,
    {
        let e = &table[j];
        let resolution = e.resolution.clone();
        let rates = normalize_rates(&e.rates);
        let ghost prev = out@;
        out.push(ModeEntry { resolution, rates });
        proof {
            let g = group_modes(tv);
            assert(forall|k: int| 0 <= k < j ==> out@[k] == prev[k]);
            assert(forall|k: int|
                0 <= k < j ==> #[trigger] table_view(out@)[k] == table_view(prev)[k]);
            assert(g[j as int] == table_view(table@)[j as int]);
            assert(g[j as int] == table@[j as int]@);
            assert(table_view(out@)[j as int] == out@[j as int]@);
            assert(out@[j as int]@ == ModeEntryView {
                resolution: g[j as int].resolution,
                rates: normalize_rates_spec(g[j as int].rates),
            });
            assert(table_view(out@)[j as int] == mode_table_of(tv)[j as int]);
        }
        j = j + 1;
    }
    proof {
        assert(table_view(out@) =~= mode_table_of(tv));
        lemma_mode_table_wf(tv);
    }
    out
}

} // verus!
