//! The monitor model.
//!
//! A `Monitor` holds the normalized mode catalog built from an output's
//! raw description: resolution labels in lexicographic order, each with a
//! non-empty descending list of millihertz refresh rates whose entries are
//! kept at least the dedup tolerance apart. A `MonitorConfig` is the
//! operator's working selection for that monitor; its string and value
//! fields are cached positions that stay in lock-step with its two index
//! fields.

use vstd::prelude::*;

use crate::numfmt::{centi_of_milli, format_centi, format_milli, two_dec_chars};
use crate::order::lex_lt;
use crate::rates::rates_separated;

verus! {

/// One resolution of the catalog and its normalized refresh rates.
pub struct ModeEntry {
    pub resolution: String,
    pub rates: Vec<u64>,
}

/// The mathematical content of a `ModeEntry`.
pub struct ModeEntryView {
    pub resolution: Seq<char>,
    pub rates: Seq<u64>,
}

impl View for ModeEntry {
    type V = ModeEntryView;

    open spec fn view(&self) -> ModeEntryView {
        ModeEntryView { resolution: self.resolution@, rates: self.rates@ }
    }
}

/// The view of a whole catalog.
pub open spec fn table_view(t: Seq<ModeEntry>) -> Seq<ModeEntryView> {
    t.map_values(|e: ModeEntry| e@)
}

/// A usable rate list: non-empty, descending, entries at least the dedup
/// tolerance apart.
pub open spec fn rates_wf(rates: Seq<u64>) -> bool {
    rates.len() > 0 && rates_separated(rates)
}

/// A well-formed catalog: resolution labels strictly ascending (hence
/// unique), every rate list usable.
pub open spec fn table_wf(t: Seq<ModeEntryView>) -> bool {
    &&& forall|i: int| 0 <= i < t.len() ==> rates_wf(#[trigger] t[i].rates)
    &&& forall|i: int, j: int|
        0 <= i < j < t.len() ==> lex_lt(#[trigger] t[i].resolution, #[trigger] t[j].resolution)
}

/// One output as reported by the compositor, with its normalized catalog.
pub struct Monitor {
    pub name: String,
    pub active: bool,
    pub modes: Vec<ModeEntry>,
}

/// The mathematical content of a `Monitor`.
pub struct MonitorView {
    pub name: Seq<char>,
    pub active: bool,
    pub modes: Seq<ModeEntryView>,
}

impl View for Monitor {
    type V = MonitorView;

    open spec fn view(&self) -> MonitorView {
        MonitorView { name: self.name@, active: self.active, modes: table_view(self.modes@) }
    }
}

/// The operator's working selection for one monitor.
pub struct MonitorConfig {
    pub resolution: String,
    /// Selected refresh rate, in millihertz.
    pub refresh_rate: u64,
    /// Scale as a percentage, in hundredths of the scale factor.
    pub scale: i32,
    pub resolution_index: usize,
    pub refresh_rate_index: usize,
    pub dpms_on: bool,
}

/// The mathematical content of a `MonitorConfig`.
pub struct ConfigView {
    pub resolution: Seq<char>,
    pub refresh_rate: u64,
    pub scale: i32,
    pub resolution_index: usize,
    pub refresh_rate_index: usize,
    pub dpms_on: bool,
}

impl View for MonitorConfig {
    type V = ConfigView;

    open spec fn view(&self) -> ConfigView {
        ConfigView {
            resolution: self.resolution@,
            refresh_rate: self.refresh_rate,
            scale: self.scale,
            resolution_index: self.resolution_index,
            refresh_rate_index: self.refresh_rate_index,
            dpms_on: self.dpms_on,
        }
    }
}

/// The invariant across a monitor and its config: whenever the catalog is
/// non-empty, the two indices are valid positions and the cached
/// resolution label and refresh rate are exactly the entries they index.
pub open spec fn pair_wf(m: MonitorView, c: ConfigView) -> bool {
    &&& table_wf(m.modes)
    &&& c.scale >= 0
    &&& m.modes.len() > 0 ==> {
        &&& (c.resolution_index as int) < m.modes.len()
        &&& c.resolution == m.modes[c.resolution_index as int].resolution
        &&& (c.refresh_rate_index as int) < m.modes[c.resolution_index as int].rates.len()
        &&& c.refresh_rate == m.modes[c.resolution_index as int].rates[c.refresh_rate_index as int]
    }
}

impl MonitorConfig {
    /// The scale factor rendered with exactly two decimal digits,
    /// e.g. a scale of `150` renders as `1.50`.
    pub fn scale_text(&self) -> (r: String)
        requires
            self.scale >= 0,
        ensures
            r@ == two_dec_chars(self.scale as nat),
    {
        format_centi(self.scale as u64)
    }

    /// The refresh rate rendered in hertz with exactly two decimal digits,
    /// e.g. `59940` millihertz renders as `59.94`.
    pub fn refresh_rate_text(&self) -> (r: String)
        ensures
            r@ == two_dec_chars(centi_of_milli(self.refresh_rate as nat)),
    {
        format_milli(self.refresh_rate)
    }
}

/// The position of the first catalog entry labelled `res`, or the
/// catalog's length when there is none.
pub open spec fn find_label(t: Seq<ModeEntryView>, res: Seq<char>) -> int
    decreases t.len(),
{
    if t.len() == 0 {
        0
    } else if t[0].resolution == res {
        0
    } else {
        1 + find_label(t.drop_first(), res)
    }
}

/// The defining characterization of `find_label`.
pub proof fn lemma_find_label_is(t: Seq<ModeEntryView>, res: Seq<char>, i: int)
    requires
        0 <= i <= t.len(),
        forall|j: int| 0 <= j < i ==> (#[trigger] t[j].resolution) != res,
        i < t.len() ==> t[i].resolution == res,
    ensures
        find_label(t, res) == i,
    decreases t.len(),
{
    if t.len() == 0 {
    } else if t[0].resolution == res {
        assert(i == 0);
    } else {
        assert(i >= 1);
        let tail = t.drop_first();
        assert(forall|j: int| 0 <= j < tail.len() ==> tail[j] == t[j + 1]);
        lemma_find_label_is(tail, res, i - 1);
    }
}

/// In a well-formed catalog the entry a config indexes is found by its
/// own label.
pub proof fn lemma_find_label_of_entry(t: Seq<ModeEntryView>, i: int)
    requires
        table_wf(t),
        0 <= i < t.len(),
    ensures
        find_label(t, t[i].resolution) == i,
{
    assert forall|j: int| 0 <= j < i implies (#[trigger] t[j].resolution) != t[i].resolution by {
        crate::order::lemma_lex_trichotomy(t[j].resolution, t[i].resolution);
    }
    lemma_find_label_is(t, t[i].resolution, i);
}

/// Finds the position of `res` among the catalog's resolution labels.
pub fn find_resolution(modes: &Vec<ModeEntry>, res: &String) -> (r: Option<usize>)
    ensures
        match r {
            Some(i) => i as int == find_label(table_view(modes@), res@) && i < modes@.len(),
            None => find_label(table_view(modes@), res@) == modes@.len(),
        },
{
    let ghost t = table_view(modes@);
    let mut i: usize = 0;
    while i < modes.len()
        invariant
            i <= modes@.len(),
            t == table_view(modes@),
            t.len() == modes@.len(),
            forall|j: int| 0 <= j < i ==> (#[trigger] t[j].resolution) != res@,
        decreases modes@.len() - i,
    {
        if modes[i].resolution == *res {
            proof {
                lemma_find_label_is(t, res@, i as int);
            }
            return Some(i);
        }
        i = i + 1;
    }
    proof {
        lemma_find_label_is(t, res@, modes@.len() as int);
    }
    None
}

/// The views of the parallel monitor and config lists.
pub open spec fn monitors_view(v: Seq<Monitor>) -> Seq<MonitorView> {
    v.map_values(|m: Monitor| m@)
}

/// The views of a config list.
pub open spec fn configs_view(v: Seq<MonitorConfig>) -> Seq<ConfigView> {
    v.map_values(|c: MonitorConfig| c@)
}

} // verus!
