//! From a raw monitor record to a `(Monitor, MonitorConfig)` pair.
//!
//! A record with a missing or empty name yields nothing. Otherwise its
//! mode strings become the normalized catalog, and the pair of indices
//! naming the "current" mode comes from best-match selection: the
//! resolution whose parsed size is nearest the reported size (first wins
//! on ties), then the first rate within 0.1 Hz of the reported rate, or
//! the highest rate when none is close. An inactive monitor, or one with
//! no usable modes, selects `(0, 0)`.

use vstd::prelude::*;

use crate::catalog::{mode_table_of, parse_modes, strings_view};
use crate::modestr::{res_distance, resolution_distance};
use crate::monitor::{
    pair_wf, table_view, table_wf, ConfigView, ModeEntry, ModeEntryView, Monitor, MonitorConfig,
    MonitorView,
};
use crate::rates::milli_diff;

verus! {

/// Two rates within this many millihertz of one another count as the
/// same reported rate.
pub const RATE_MATCH_EPS_MILLI: u64 = 100;

/// The scale floor a raw record's scale is clamped to, in hundredths.
pub const RAW_SCALE_FLOOR_CENTI: i32 = 10;

/// The scale assumed when a record reports none, in hundredths.
pub const DEFAULT_SCALE_CENTI: i32 = 100;

/// The refresh rate assumed when a record reports none, in millihertz.
pub const DEFAULT_RATE_MILLI: u64 = 60000;

/// One monitor as the compositor query reports it, reduced to plain
/// values: a missing field is `None`, the scale is in hundredths and the
/// current refresh rate in millihertz (both rounded by the caller from
/// the reported numbers), and `available_modes` holds the raw
/// `"WxH@RateHz"` strings.
pub struct RawMonitor {
    pub name: Option<String>,
    pub disabled: Option<bool>,
    pub scale_centi: Option<i32>,
    pub width: Option<i64>,
    pub height: Option<i64>,
    pub refresh_milli: Option<u64>,
    pub available_modes: Vec<String>,
}

/// The mathematical content of a `RawMonitor`.
pub struct RawMonitorView {
    pub name: Option<Seq<char>>,
    pub disabled: Option<bool>,
    pub scale_centi: Option<i32>,
    pub width: Option<i64>,
    pub height: Option<i64>,
    pub refresh_milli: Option<u64>,
    pub available_modes: Seq<Seq<char>>,
}

impl View for RawMonitor {
    type V = RawMonitorView;

    open spec fn view(&self) -> RawMonitorView {
        RawMonitorView {
            name: match self.name {
                Some(n) => Some(n@),
                None => None,
            },
            disabled: self.disabled,
            scale_centi: self.scale_centi,
            width: self.width,
            height: self.height,
            refresh_milli: self.refresh_milli,
            available_modes: strings_view(self.available_modes@),
        }
    }
}

/// The index of the catalog entry whose label is nearest the target
/// size; the first of several equally near entries.
pub open spec fn best_res_index(t: Seq<ModeEntryView>, w: int, h: int) -> int
    decreases t.len(),
{
    if t.len() <= 1 {
        0
    } else {
        let j = best_res_index(t.drop_last(), w, h);
        if res_distance(t.last().resolution, w, h) < res_distance(t[j].resolution, w, h) {
            t.len() - 1
        } else {
            j
        }
    }
}

/// The chosen index is in range, no entry is nearer, and every entry
/// before it is strictly farther.
pub proof fn lemma_best_res_index_ensures(t: Seq<ModeEntryView>, w: int, h: int)
    requires
        t.len() > 0,
    ensures
        0 <= best_res_index(t, w, h) < t.len(),
        forall|i: int|
            0 <= i < t.len() ==> res_distance(#[trigger] t[i].resolution, w, h) >= res_distance(
                t[best_res_index(t, w, h)].resolution,
                w,
                h,
            ),
        forall|i: int|
            0 <= i < best_res_index(t, w, h) ==> res_distance(#[trigger] t[i].resolution, w, h)
                > res_distance(t[best_res_index(t, w, h)].resolution, w, h),
    decreases t.len(),
{
    if t.len() > 1 {
        lemma_best_res_index_ensures(t.drop_last(), w, h);
        assert(forall|i: int| 0 <= i < t.len() - 1 ==> t.drop_last()[i] == t[i]);
    }
}

/// The position of the first rate within the match tolerance of
/// `target`, or the list's length when none is.
pub open spec fn first_close_index(rates: Seq<u64>, target: u64) -> int
    decreases rates.len(),
{
    if rates.len() == 0 {
        0
    } else if milli_diff(rates[0], target) < RATE_MATCH_EPS_MILLI {
        0
    } else {
        1 + first_close_index(rates.drop_first(), target)
    }
}

/// The refresh-rate index selected for a reported rate: the first rate
/// within the tolerance, or 0 (the highest rate) when none matches.
pub open spec fn rate_choice_index(rates: Seq<u64>, target: u64) -> int {
    if first_close_index(rates, target) == rates.len() {
        0
    } else {
        first_close_index(rates, target)
    }
}

/// The defining characterization of `first_close_index`.
pub proof fn lemma_first_close_is(rates: Seq<u64>, target: u64, i: int)
    requires
        0 <= i <= rates.len(),
        forall|j: int| 0 <= j < i ==> milli_diff(#[trigger] rates[j], target)
            >= RATE_MATCH_EPS_MILLI,
        i < rates.len() ==> milli_diff(rates[i], target) < RATE_MATCH_EPS_MILLI,
    ensures
        first_close_index(rates, target) == i,
    decreases rates.len(),
{
    if rates.len() == 0 {
    } else if milli_diff(rates[0], target) < RATE_MATCH_EPS_MILLI {
        assert(i == 0);
    } else {
        assert(i >= 1);
        let tail = rates.drop_first();
        assert(forall|j: int| 0 <= j < tail.len() ==> tail[j] == rates[j + 1]);
        lemma_first_close_is(tail, target, i - 1);
    }
}

/// The rate index is always a valid position of a non-empty list.
pub proof fn lemma_rate_choice_in_range(rates: Seq<u64>, target: u64)
    requires
        rates.len() > 0,
    ensures
        0 <= rate_choice_index(rates, target) < rates.len(),
    decreases rates.len(),
{
    if milli_diff(rates[0], target) < RATE_MATCH_EPS_MILLI {
    } else {
        let tail = rates.drop_first();
        if tail.len() > 0 {
            lemma_rate_choice_in_range(tail, target);
        }
    }
}

/// The index pair naming the current mode: best-match selection for an
/// active monitor with modes, `(0, 0)` otherwise.
pub open spec fn spec_current_indices(
    t: Seq<ModeEntryView>,
    active: bool,
    w: int,
    h: int,
    rate: u64,
) -> (int, int) {
    if !active || t.len() == 0 {
        (0, 0)
    } else {
        let j = best_res_index(t, w, h);
        (j, rate_choice_index(t[j].rates, rate))
    }
}

/// Selects the catalog position of the monitor's current mode.
pub fn find_current_mode(
    modes: &Vec<ModeEntry>,
    active: bool,
    width: i64,
    height: i64,
    refresh_milli: u64,
) -> (r: (usize, usize))
    ensures
        (r.0 as int, r.1 as int) == spec_current_indices(
            table_view(modes@),
            active,
            width as int,
            height as int,
            refresh_milli,
        ),
        r.0 as int <= modes@.len(),
        r.1 == 0 || (r.0 as int) < modes@.len() && (r.1 as int) < table_view(
            modes@,
        )[r.0 as int].rates.len(),
{
    let ghost t = table_view(modes@);
    if !active || modes.len() == 0 {
        return (0, 0);
    }
    // Nearest resolution, first on ties.
    let mut best: usize = 0;
    let mut best_d: u128 = resolution_distance(modes[0].resolution.as_str(), width, height);
    let mut i: usize = 1;
    proof {
        assert(t.take(1).len() == 1);
        assert(best_res_index(t.take(1), width as int, height as int) == 0);
        assert(t.take(1)[0] == t[0]);
    }
    while i < modes.len()
        invariant
            1 <= i <= modes@.len(),
            t == table_view(modes@),
            t.len() == modes@.len(),
            active,
            modes@.len() > 0,
            best < i,
            best as int == best_res_index(t.take(i as int), width as int, height as int),
            best_d as int == res_distance(t[best as int].resolution, width as int, height as int),
        decreases modes@.len() - i,
    {
        let d = resolution_distance(modes[i].resolution.as_str(), width, height);
        proof {
            let tk = t.take(i as int + 1);
            assert(tk.drop_last() =~= t.take(i as int));
            assert(tk.last() == t[i as int]);
            assert(tk[best as int] == t[best as int]);
        }
        if d < best_d {
            best = i;
            best_d = d;
        }
        i = i + 1;
    }
    proof {
        assert(t.take(modes@.len() as int) =~= t);
    }
    // First rate within the tolerance of the reported rate.
    let entry = &modes[best];
    let ghost rates = t[best as int].rates;
    let n = entry.rates.len();
    let mut k: usize = 0;
    while k < n
        invariant
            k <= n,
            n == rates.len(),
            entry.rates@ == rates,
            t == table_view(modes@),
            t.len() == modes@.len(),
            active,
            modes@.len() > 0,
            best < modes@.len(),
            best as int == best_res_index(t, width as int, height as int),
            rates == t[best as int].rates,
            forall|j: int| 0 <= j < k ==> milli_diff(#[trigger] rates[j], refresh_milli)
                >= RATE_MATCH_EPS_MILLI,
        decreases n - k,
    {
        let rv = entry.rates[k];
        let d = if rv >= refresh_milli {
            rv - refresh_milli
        } else {
            refresh_milli - rv
        };
        if d < RATE_MATCH_EPS_MILLI {
            proof {
                lemma_first_close_is(rates, refresh_milli, k as int);
            }
            return (best, k);
        }
        k = k + 1;
    }
    proof {
        lemma_first_close_is(rates, refresh_milli, n as int);
    }
    (best, 0)
}

/// What `build_monitor` yields for a raw record: nothing for a nameless
/// record, otherwise the monitor with its normalized catalog and the
/// config selecting the current mode, scale clamped to the floor, power
/// assumed on.
pub open spec fn spec_build(r: RawMonitorView) -> Option<(MonitorView, ConfigView)> {
    match r.name {
        None => None,
        Some(name) => {
            if name.len() == 0 {
                None
            } else {
                let modes = mode_table_of(r.available_modes);
                let active = !(match r.disabled {
                    Some(d) => d,
                    None => true,
                });
                let raw_scale = match r.scale_centi {
                    Some(s) => s,
                    None => DEFAULT_SCALE_CENTI,
                };
                let scale = if raw_scale >= RAW_SCALE_FLOOR_CENTI {
                    raw_scale
                } else {
                    RAW_SCALE_FLOOR_CENTI
                };
                let w = match r.width {
                    Some(v) => v as int,
                    None => 0,
                };
                let h = match r.height {
                    Some(v) => v as int,
                    None => 0,
                };
                let rate = match r.refresh_milli {
                    Some(v) => v,
                    None => DEFAULT_RATE_MILLI,
                };
                let idx = spec_current_indices(modes, active, w, h, rate);
                let resolution = if modes.len() > 0 {
                    modes[idx.0].resolution
                } else {
                    Seq::empty()
                };
                let refresh = if modes.len() > 0 {
                    modes[idx.0].rates[idx.1]
                } else {
                    DEFAULT_RATE_MILLI
                };
                Some(
                    (
                        MonitorView { name, active, modes },
                        ConfigView {
                            resolution,
                            refresh_rate: refresh,
                            scale,
                            resolution_index: idx.0 as usize,
                            refresh_rate_index: idx.1 as usize,
                            dpms_on: true,
                        },
                    ),
                )
            }
        },
    }
}

/// Every pair the builder yields satisfies the cross-field invariant:
/// with a non-empty catalog both indices are valid positions and the
/// cached resolution and rate are the entries they index.
#[verifier::rlimit(50)]
pub proof fn lemma_build_pair_wf(r: RawMonitorView)
    requires
        spec_build(r) is Some,
        r.available_modes.len() <= usize::MAX,
    ensures
        pair_wf(spec_build(r)->Some_0.0, spec_build(r)->Some_0.1),
{
    let p = spec_build(r)->Some_0;
    let m = p.0;
    let c = p.1;
    crate::catalog::lemma_mode_table_wf(r.available_modes);
    crate::catalog::lemma_mode_table_bounds(r.available_modes);
    assert(m.modes == mode_table_of(r.available_modes));
    assert(table_wf(m.modes));
    assert(c.scale >= RAW_SCALE_FLOOR_CENTI);
    if m.modes.len() > 0 {
        let w = match r.width {
            Some(v) => v as int,
            None => 0,
        };
        let h = match r.height {
            Some(v) => v as int,
            None => 0,
        };
        let rate = match r.refresh_milli {
            Some(v) => v,
            None => DEFAULT_RATE_MILLI,
        };
        let idx = spec_current_indices(m.modes, m.active, w, h, rate);
        if m.active {
            lemma_best_res_index_ensures(m.modes, w, h);
            let j = best_res_index(m.modes, w, h);
            assert(0 <= j < m.modes.len());
            assert(m.modes[j].rates.len() > 0);
            lemma_rate_choice_in_range(m.modes[j].rates, rate);
            assert(0 <= idx.0 <= usize::MAX && 0 <= idx.1 <= usize::MAX);
            assert(c.resolution_index as int == idx.0);
            assert(c.refresh_rate_index as int == idx.1);
        } else {
            assert(idx == (0int, 0int));
            assert(m.modes[0].rates.len() > 0);
        }
    }
}

/// Builds the monitor and its starting config from one raw record.
pub fn build_monitor(raw: RawMonitor) -> (r: Option<(Monitor, MonitorConfig)>)
    ensures
        match r {
            Some(p) => spec_build(raw@) == Some((p.0@, p.1@)),
            None => spec_build(raw@) is None,
        },
{
    let name = match raw.name {
        Some(n) => n,
        None => {
            return None;
        },
    };
    if name.as_str().is_empty() {
        return None;
    }
    let modes = parse_modes(&raw.available_modes);
    let active = !(match raw.disabled {
        Some(d) => d,
        None => true,
    });
    let raw_scale = match raw.scale_centi {
        Some(s) => s,
        None => DEFAULT_SCALE_CENTI,
    };
    let scale = if raw_scale >= RAW_SCALE_FLOOR_CENTI {
        raw_scale
    } else {
        RAW_SCALE_FLOOR_CENTI
    };
    let width = match raw.width {
        Some(v) => v,
        None => 0,
    };
    let height = match raw.height {
        Some(v) => v,
        None => 0,
    };
    let rate = match raw.refresh_milli {
        Some(v) => v,
        None => DEFAULT_RATE_MILLI,
    };
    let idx = find_current_mode(&modes, active, width, height, rate);
    let (res_idx, refresh_idx) = idx;
    proof {
        if table_view(modes@).len() > 0 {
            if active {
                lemma_best_res_index_ensures(
                    table_view(modes@),
                    width as int,
                    height as int,
                );
                crate::catalog::lemma_mode_table_wf(strings_view(raw.available_modes@));
                lemma_rate_choice_in_range(
                    table_view(modes@)[res_idx as int].rates,
                    rate,
                );
            }
        }
    }
    let (resolution, refresh_rate) = if modes.len() > 0 {
        proof {
            crate::catalog::lemma_mode_table_wf(strings_view(raw.available_modes@));
        }
        let entry = &modes[res_idx];
        (entry.resolution.clone(), entry.rates[refresh_idx])
    } else {
        (String::new(), DEFAULT_RATE_MILLI)
    };
    Some(
        (
            Monitor { name, active, modes },
            MonitorConfig {
                resolution,
                refresh_rate,
                scale,
                resolution_index: res_idx,
                refresh_rate_index: refresh_idx,
                dpms_on: true,
            },
        ),
    )
}

/// The pairs built from a list of records, nameless records dropped.
pub open spec fn spec_build_all(rs: Seq<RawMonitorView>) -> Seq<(MonitorView, ConfigView)>
    decreases rs.len(),
{
    if rs.len() == 0 {
        Seq::empty()
    } else {
        spec_build_all(rs.drop_last()) + match spec_build(rs.last()) {
            Some(p) => seq![p],
            None => Seq::empty(),
        }
    }
}

/// The views of a list of raw records.
pub open spec fn raws_view(rs: Seq<RawMonitor>) -> Seq<RawMonitorView> {
    rs.map_values(|r: RawMonitor| r@)
}

/// Every pair `spec_build_all` yields satisfies the cross-field
/// invariant.
pub proof fn lemma_build_all_pairs_wf(rs: Seq<RawMonitorView>)
    requires
        forall|i: int| 0 <= i < rs.len() ==> #[trigger] rs[i].available_modes.len() <= usize::MAX,
    ensures
        forall|i: int|
            0 <= i < spec_build_all(rs).len() ==> pair_wf(
                #[trigger] spec_build_all(rs)[i].0,
                spec_build_all(rs)[i].1,
            ),
    decreases rs.len(),
{
    if rs.len() > 0 {
        lemma_build_all_pairs_wf(rs.drop_last());
        let prefix = spec_build_all(rs.drop_last());
        match spec_build(rs.last()) {
            Some(p) => {
                lemma_build_pair_wf(rs.last());
                assert(forall|i: int|
                    0 <= i < prefix.len() ==> #[trigger] spec_build_all(rs)[i] == prefix[i]);
                assert(spec_build_all(rs)[prefix.len() as int] == p);
            },
            None => {
                assert(spec_build_all(rs) =~= prefix);
            },
        }
    }
}

/// Builds the monitor list and the parallel config list from the raw
/// records; records without a usable name contribute nothing.
pub fn build_monitors(records: Vec<RawMonitor>) -> (r: (Vec<Monitor>, Vec<MonitorConfig>))
    ensures
        r.0@.len() == r.1@.len(),
        r.0@.len() == spec_build_all(raws_view(records@)).len(),
        forall|i: int|
            0 <= i < r.0@.len() ==> (#[trigger] r.0@[i]@, r.1@[i]@) == spec_build_all(
                raws_view(records@),
            )[i],
{
    let ghost all = raws_view(records@);
    let mut monitors: Vec<Monitor> = Vec::new();
    let mut configs: Vec<MonitorConfig> = Vec::new();
    let mut rest = records;
    let ghost total = all.len();
    proof {
        assert(all.take(0).len() == 0);
        assert(rest@.len() == total);
    }
    while rest.len() > 0
        invariant
            rest@.len() <= total,
            all.len() == total,
            forall|k: int|
                0 <= k < rest@.len() ==> #[trigger] rest@[k]@ == all[total - rest@.len() + k],
            monitors@.len() == configs@.len(),
            monitors@.len() == spec_build_all(all.take(total - rest@.len())).len(),
            forall|i: int|
                0 <= i < monitors@.len() ==> (#[trigger] monitors@[i]@, configs@[i]@)
                    == spec_build_all(all.take(total - rest@.len()))[i],
        decreases rest@.len(),
    {
        let ghost done = total - rest@.len();
        let raw = rest.remove(0);
        proof {
            assert(raw@ == all[done]);
            assert(forall|k: int| 0 <= k < rest@.len() ==> rest@[k]@ == all[done + 1 + k]);
            assert(all.take(done + 1).drop_last() =~= all.take(done));
            assert(all.take(done + 1).last() == all[done]);
        }
        let ghost prefix = spec_build_all(all.take(done));
        match build_monitor(raw) {
            Some(p) => {
                let (m, c) = p;
                monitors.push(m);
                configs.push(c);
                proof {
                    assert(spec_build_all(all.take(done + 1)) =~= prefix + seq![(m@, c@)]);
                }
            },
            None => {
                proof {
                    assert(spec_build_all(all.take(done + 1)) =~= prefix);
                }
            },
        }
    }
    proof {
        assert(all.take(total as int) =~= all);
    }
    (monitors, configs)
}

} // verus!
