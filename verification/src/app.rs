//! The session state machine.
//!
//! An `App` owns the monitor list, the parallel config list, the two list
//! cursors and the focused pane. Operator input maps onto the operations
//! here; every operation preserves the cross-field invariant, and
//! navigation or mutation against an empty list or an empty catalog is a
//! no-op rather than an error. Work that leaves the process — running the
//! configuration command, writing the configuration file — is described by
//! an `Effect` value that the caller carries out.

use vstd::prelude::*;

use crate::builder::{build_monitors, raws_view, spec_build_all, RawMonitor};
use crate::monitor::{
    configs_view, find_label, find_resolution, lemma_find_label_of_entry, monitors_view, pair_wf,
    table_view, ConfigView, Monitor, MonitorConfig, MonitorView,
};
use crate::numfmt::{centi_of_milli, format_centi, format_milli, two_dec_chars};

verus! {

/// Which pane of the two-pane surface holds the focus.
#[derive(PartialEq, Eq, Structural)]
pub enum FocusedPane {
    Monitors,
    Options,
}

/// One operator input, already freed of any key encoding.
#[derive(Clone, Copy, PartialEq, Eq, Structural)]
pub enum Action {
    Quit,
    TogglePane,
    Down,
    Up,
    Right,
    Left,
    Activate,
}

/// How many rows the options pane offers.
pub const OPTION_COUNT: usize = 11;

/// The scale adjustment step, in hundredths.
pub const SCALE_STEP: i32 = 25;

/// The scale floor an adjustment clamps to, in hundredths.
pub const MIN_SCALE: i32 = 50;

/// Option-row positions of the action rows.
pub const APPLY_OPTION_IDX: usize = 3;

pub const SET_MAIN_IDX: usize = 4;

pub const EXTEND_LEFT_IDX: usize = 5;

pub const EXTEND_RIGHT_IDX: usize = 6;

pub const MIRROR_IDX: usize = 7;

pub const BLACK_SCREEN_IDX: usize = 8;

pub const SAVE_OPTION_IDX: usize = 9;

pub const DISABLE_OPTION_IDX: usize = 10;

/// What a command of the external configuration tool needs to know of one
/// monitor: its name and the selected resolution, rate and scale.
pub struct ModeCommand {
    pub name: String,
    pub resolution: String,
    pub refresh_milli: u64,
    pub scale_centi: i32,
}

/// Work for the caller to carry out against the outside world.
pub enum Effect {
    /// Apply the selected mode to the named monitor.
    Apply(ModeCommand),
    /// Make the named monitor the main output.
    SetMain(ModeCommand),
    /// Place the monitor left of the other named monitor.
    ExtendLeft(ModeCommand, String),
    /// Place the monitor right of the other named monitor.
    ExtendRight(ModeCommand, String),
    /// Mirror the monitor onto the other named monitor.
    Mirror(ModeCommand, String),
    /// Switch the named monitor's power state; report the outcome back
    /// through `apply_dpms_result`.
    Dpms { monitor: usize, name: String, turn_on: bool },
    /// Write this content to the configuration file.
    Save(String),
    /// Disable the named monitor.
    Disable(String),
}

/// The whole session: monitors and configs paired by position, the two
/// list cursors, the focused pane, and a transient message line.
pub struct App {
    pub monitors: Vec<Monitor>,
    pub configs: Vec<MonitorConfig>,
    /// Cursor into the monitor list.
    pub monitor_sel: Option<usize>,
    /// Cursor into the options pane.
    pub option_sel: Option<usize>,
    pub focused_pane: FocusedPane,
    pub info_message: Option<String>,
}

/// A cursor advanced one step with wrap-around.
pub open spec fn cycle_index(i: int, n: int, forward: bool) -> int {
    if forward {
        (i + 1) % n
    } else {
        (i + n - 1) % n
    }
}

/// What `cycle_selection` returns: no selection when the list is empty,
/// the first row when nothing was selected, else one wrap-around step.
pub open spec fn spec_cycle_selection(current: Option<usize>, max: int, forward: bool) -> Option<
    usize,
> {
    if max == 0 {
        None
    } else {
        match current {
            Some(i) => Some(cycle_index(i as int, max, forward) as usize),
            None => Some(0),
        }
    }
}

/// The selected refresh rate and its cached index move together to the
/// entry `nf` of the current resolution's rate list.
pub open spec fn spec_cycle_refresh(m: MonitorView, c: ConfigView, forward: bool) -> ConfigView {
    let k = find_label(m.modes, c.resolution);
    if k == m.modes.len() {
        c
    } else {
        let rates = m.modes[k].rates;
        if rates.len() == 0 {
            c
        } else {
            let nf = cycle_index(c.refresh_rate_index as int, rates.len() as int, forward);
            ConfigView {
                refresh_rate: rates[nf],
                refresh_rate_index: nf as usize,
                ..c
            }
        }
    }
}

/// The selected resolution moves one step through the catalog, and the
/// refresh-rate selection resets to the first (highest) rate of the new
/// resolution.
pub open spec fn spec_cycle_resolution(m: MonitorView, c: ConfigView, forward: bool) -> ConfigView {
    if m.modes.len() == 0 {
        c
    } else {
        let ni = cycle_index(c.resolution_index as int, m.modes.len() as int, forward);
        let rates = m.modes[ni].rates;
        ConfigView {
            resolution: m.modes[ni].resolution,
            refresh_rate: if rates.len() > 0 {
                rates[0]
            } else {
                crate::builder::DEFAULT_RATE_MILLI
            },
            resolution_index: ni as usize,
            refresh_rate_index: 0,
            ..c
        }
    }
}

/// The scale moves one step and clamps to the floor; the step saturates
/// at the ends of the machine range.
pub open spec fn spec_adjust_scale(c: ConfigView, increase: bool) -> ConfigView {
    let stepped: int = if increase {
        if c.scale + SCALE_STEP <= i32::MAX {
            c.scale + SCALE_STEP
        } else {
            i32::MAX as int
        }
    } else {
        c.scale - SCALE_STEP
    };
    let clamped: int = if stepped >= MIN_SCALE {
        stepped
    } else {
        MIN_SCALE as int
    };
    ConfigView { scale: clamped as i32, ..c }
}

impl App {
    /// The session invariant: the two lists are parallel, every pair
    /// satisfies the cross-field invariant, and each cursor that points
    /// anywhere points into its list.
    pub open spec fn wf(self) -> bool {
        &&& self.monitors@.len() == self.configs@.len()
        &&& forall|i: int|
            0 <= i < self.monitors@.len() ==> pair_wf(
                #[trigger] self.monitors@[i]@,
                self.configs@[i]@,
            )
        &&& match self.monitor_sel {
            Some(i) => (i as int) < self.monitors@.len(),
            None => true,
        }
        &&& match self.option_sel {
            Some(j) => j < OPTION_COUNT,
            None => true,
        }
    }

    /// The starting cursor for a list of `count` rows.
    pub fn initial_selection(count: usize) -> (r: Option<usize>)
        ensures
            r == if count > 0 {
                Some(0usize)
            } else {
                None::<usize>
            },
    {
        if count > 0 {
            Some(0)
        } else {
            None
        }
    }

    /// Builds the session from the raw monitor records: the monitor and
    /// config lists the catalog builder yields, the first monitor and the
    /// first option row selected (when they exist), focus on the monitor
    /// pane, no message.
    pub fn from_records(records: Vec<RawMonitor>) -> (a: App)
        ensures
            a.wf(),
            a.monitors@.len() == a.configs@.len(),
            a.monitors@.len() == spec_build_all(raws_view(records@)).len(),
            forall|i: int|
                0 <= i < a.monitors@.len() ==> (#[trigger] a.monitors@[i]@, a.configs@[i]@)
                    == spec_build_all(raws_view(records@))[i],
            a.monitor_sel == if a.monitors@.len() > 0 {
                Some(0usize)
            } else {
                None::<usize>
            },
            a.option_sel == Some(0usize),
            a.focused_pane == FocusedPane::Monitors,
            a.info_message is None,
    {
        proof {
            assert forall|i: int|
                0 <= i < raws_view(records@).len() implies #[trigger] raws_view(
                records@,
            )[i].available_modes.len() <= usize::MAX by {
                vstd::std_specs::vec::axiom_spec_len(&records@[i].available_modes);
            }
            crate::builder::lemma_build_all_pairs_wf(raws_view(records@));
        }
        let (monitors, configs) = build_monitors(records);
        proof {
            let all = spec_build_all(raws_view(records@));
            assert forall|i: int| 0 <= i < monitors@.len() implies pair_wf(
                #[trigger] monitors@[i]@,
                configs@[i]@,
            ) by {
                assert((monitors@[i]@, configs@[i]@) == all[i]);
                assert(pair_wf(all[i].0, all[i].1));
            }
        }
        let count = monitors.len();
        let app = App {
            monitors,
            configs,
            monitor_sel: Self::initial_selection(count),
            option_sel: Self::initial_selection(OPTION_COUNT),
            focused_pane: FocusedPane::Monitors,
            info_message: None,
        };
        app
    }

    /// Advances a list cursor one step with wrap-around; an empty list
    /// has no selection, and an absent selection becomes the first row.
    pub fn cycle_selection(current: Option<usize>, max: usize, forward: bool) -> (r: Option<usize>)
        requires
            match current {
                Some(i) => max == 0 || i < max,
                None => true,
            },
        ensures
            r == spec_cycle_selection(current, max as int, forward),
            match r {
                Some(i) => max > 0 && i < max,
                None => max == 0,
            },
    {
        if max == 0 {
            return None;
        }
        match current {
            None => Some(0),
            Some(i) => {
                if forward {
                    let ni = if i + 1 == max {
                        0
                    } else {
                        i + 1
                    };
                    proof {
                        if i + 1 == max {
                            vstd::arithmetic::div_mod::lemma_mod_self_0(max as int);
                        } else {
                            vstd::arithmetic::div_mod::lemma_small_mod(
                                (i + 1) as nat,
                                max as nat,
                            );
                        }
                    }
                    Some(ni)
                } else {
                    let ni = if i == 0 {
                        max - 1
                    } else {
                        i - 1
                    };
                    proof {
                        if i == 0 {
                            vstd::arithmetic::div_mod::lemma_small_mod(
                                (max - 1) as nat,
                                max as nat,
                            );
                        } else {
                            vstd::arithmetic::div_mod::lemma_mod_multiples_vanish(
                                1,
                                i - 1,
                                max as int,
                            );
                            vstd::arithmetic::div_mod::lemma_small_mod(
                                (i - 1) as nat,
                                max as nat,
                            );
                        }
                    }
                    Some(ni)
                }
            },
        }
    }

    /// Moves the monitor cursor and resets the option cursor to the top.
    pub fn navigate_monitors(&mut self, forward: bool)
        requires
            old(self).wf(),
        ensures
            final(self).wf(),
            final(self).monitor_sel == spec_cycle_selection(
                old(self).monitor_sel,
                old(self).monitors@.len() as int,
                forward,
            ),
            final(self).option_sel == Some(0usize),
            final(self).monitors@ == old(self).monitors@,
            final(self).configs@ == old(self).configs@,
            final(self).focused_pane == old(self).focused_pane,
            final(self).info_message == old(self).info_message,
    {
        let selection = Self::cycle_selection(self.monitor_sel, self.monitors.len(), forward);
        self.monitor_sel = selection;
        self.option_sel = Some(0);
    }

    /// Moves the option cursor.
    pub fn navigate_options(&mut self, forward: bool)
        requires
            old(self).wf(),
        ensures
            final(self).wf(),
            final(self).option_sel == spec_cycle_selection(
                old(self).option_sel,
                OPTION_COUNT as int,
                forward,
            ),
            final(self).monitors@ == old(self).monitors@,
            final(self).configs@ == old(self).configs@,
            final(self).monitor_sel == old(self).monitor_sel,
            final(self).focused_pane == old(self).focused_pane,
            final(self).info_message == old(self).info_message,
    {
        let selection = Self::cycle_selection(self.option_sel, OPTION_COUNT, forward);
        self.option_sel = selection;
    }

    /// Steps the selected resolution through the catalog, wrapping in
    /// both directions; a monitor without modes is left untouched.
    pub fn cycle_resolution(&mut self, mon_idx: usize, increase: bool)
        requires
            old(self).wf(),
            mon_idx < old(self).monitors@.len(),
        ensures
            final(self).wf(),
            final(self).configs@.len() == old(self).configs@.len(),
            forall|i: int|
                0 <= i < old(self).configs@.len() && i != mon_idx ==> final(self).configs@[i]
                    == #[trigger] old(self).configs@[i],
            final(self).configs@[mon_idx as int]@ == spec_cycle_resolution(
                old(self).monitors@[mon_idx as int]@,
                old(self).configs@[mon_idx as int]@,
                increase,
            ),
            final(self).monitors@ == old(self).monitors@,
            final(self).monitor_sel == old(self).monitor_sel,
            final(self).option_sel == old(self).option_sel,
            final(self).focused_pane == old(self).focused_pane,
            final(self).info_message == old(self).info_message,
    {
        let ghost m = self.monitors@[mon_idx as int]@;
        let ghost c0 = self.configs@[mon_idx as int]@;
        let n = self.monitors[mon_idx].modes.len();
        if n == 0 {
            proof {
                assert(self.configs@[mon_idx as int]@ == spec_cycle_resolution(m, c0, increase));
            }
            return;
        }
        let i = self.configs[mon_idx].resolution_index;
        proof {
            assert(pair_wf(m, c0));
        }
        let ni = if increase {
            if i + 1 == n {
                0
            } else {
                i + 1
            }
        } else {
            if i == 0 {
                n - 1
            } else {
                i - 1
            }
        };
        proof {
            if increase {
                if i + 1 == n {
                    vstd::arithmetic::div_mod::lemma_mod_self_0(n as int);
                } else {
                    vstd::arithmetic::div_mod::lemma_small_mod((i + 1) as nat, n as nat);
                }
            } else {
                if i == 0 {
                    vstd::arithmetic::div_mod::lemma_small_mod((n - 1) as nat, n as nat);
                } else {
                    vstd::arithmetic::div_mod::lemma_mod_multiples_vanish(1, i - 1, n as int);
                    vstd::arithmetic::div_mod::lemma_small_mod((i - 1) as nat, n as nat);
                }
            }
            assert(ni as int == cycle_index(i as int, n as int, increase));
        }
        let entry = &self.monitors[mon_idx].modes[ni];
        let resolution = entry.resolution.clone();
        let refresh_rate = if entry.rates.len() > 0 {
            entry.rates[0]
        } else {
            crate::builder::DEFAULT_RATE_MILLI
        };
        let config = &mut self.configs[mon_idx];
        config.resolution_index = ni;
        config.resolution = resolution;
        config.refresh_rate_index = 0;
        config.refresh_rate = refresh_rate;
        proof {
            assert(self.configs@[mon_idx as int]@ == spec_cycle_resolution(m, c0, increase));
            assert(pair_wf(m, self.configs@[mon_idx as int]@));
        }
    }

    /// Steps the selected refresh rate through the current resolution's
    /// rate list, wrapping in both directions; when the current
    /// resolution is not in the catalog, or has no rates, nothing
    /// changes.
    #[verifier::rlimit(50)]
    pub fn cycle_refresh_rate(&mut self, mon_idx: usize, increase: bool)
        requires
            old(self).wf(),
            mon_idx < old(self).monitors@.len(),
        ensures
            final(self).wf(),
            final(self).configs@.len() == old(self).configs@.len(),
            forall|i: int|
                0 <= i < old(self).configs@.len() && i != mon_idx ==> final(self).configs@[i]
                    == #[trigger] old(self).configs@[i],
            final(self).configs@[mon_idx as int]@ == spec_cycle_refresh(
                old(self).monitors@[mon_idx as int]@,
                old(self).configs@[mon_idx as int]@,
                increase,
            ),
            final(self).monitors@ == old(self).monitors@,
            final(self).monitor_sel == old(self).monitor_sel,
            final(self).option_sel == old(self).option_sel,
            final(self).focused_pane == old(self).focused_pane,
            final(self).info_message == old(self).info_message,
    {
        let ghost m = self.monitors@[mon_idx as int]@;
        let ghost c0 = self.configs@[mon_idx as int]@;
        proof {
            assert(pair_wf(m, c0));
        }
        let found = find_resolution(&self.monitors[mon_idx].modes, &self.configs[mon_idx].resolution);
        let k = match found {
            Some(k) => k,
            None => {
                return;
            },
        };
        let entry = &self.monitors[mon_idx].modes[k];
        let n = entry.rates.len();
        if n == 0 {
            return;
        }
        let f = self.configs[mon_idx].refresh_rate_index;
        proof {
            // the cached index is in range: under the invariant the found
            // entry is the one the config indexes
            if m.modes.len() > 0 {
                lemma_find_label_of_entry(m.modes, c0.resolution_index as int);
            }
        }
        let nf = if increase {
            if f + 1 == n {
                0
            } else {
                f + 1
            }
        } else {
            if f == 0 {
                n - 1
            } else {
                f - 1
            }
        };
        proof {
            if increase {
                if f + 1 == n {
                    vstd::arithmetic::div_mod::lemma_mod_self_0(n as int);
                } else {
                    vstd::arithmetic::div_mod::lemma_small_mod((f + 1) as nat, n as nat);
                }
            } else {
                if f == 0 {
                    vstd::arithmetic::div_mod::lemma_small_mod((n - 1) as nat, n as nat);
                } else {
                    vstd::arithmetic::div_mod::lemma_mod_multiples_vanish(1, f - 1, n as int);
                    vstd::arithmetic::div_mod::lemma_small_mod((f - 1) as nat, n as nat);
                }
            }
            assert(nf as int == cycle_index(f as int, n as int, increase));
        }
        let rate = entry.rates[nf];
        let config = &mut self.configs[mon_idx];
        config.refresh_rate_index = nf;
        config.refresh_rate = rate;
        proof {
            assert(self.configs@[mon_idx as int]@ == spec_cycle_refresh(m, c0, increase));
            assert(pair_wf(m, self.configs@[mon_idx as int]@));
        }
    }

    /// Moves the scale one step, clamping to the floor; never yields a
    /// scale below the floor, whatever the starting value or direction.
    pub fn adjust_scale(&mut self, mon_idx: usize, increase: bool)
        requires
            old(self).wf(),
            mon_idx < old(self).monitors@.len(),
        ensures
            final(self).wf(),
            final(self).configs@.len() == old(self).configs@.len(),
            forall|i: int|
                0 <= i < old(self).configs@.len() && i != mon_idx ==> final(self).configs@[i]
                    == #[trigger] old(self).configs@[i],
            final(self).configs@[mon_idx as int]@ == spec_adjust_scale(
                old(self).configs@[mon_idx as int]@,
                increase,
            ),
            final(self).configs@[mon_idx as int].scale >= MIN_SCALE,
            final(self).monitors@ == old(self).monitors@,
            final(self).monitor_sel == old(self).monitor_sel,
            final(self).option_sel == old(self).option_sel,
            final(self).focused_pane == old(self).focused_pane,
            final(self).info_message == old(self).info_message,
    {
        let ghost m = self.monitors@[mon_idx as int]@;
        proof {
            assert(pair_wf(m, self.configs@[mon_idx as int]@));
        }
        let config = &mut self.configs[mon_idx];
        let stepped = if increase {
            if config.scale <= i32::MAX - SCALE_STEP {
                config.scale + SCALE_STEP
            } else {
                i32::MAX
            }
        } else {
            config.scale - SCALE_STEP
        };
        config.scale = if stepped >= MIN_SCALE {
            stepped
        } else {
            MIN_SCALE
        };
        proof {
            assert(pair_wf(m, self.configs@[mon_idx as int]@));
        }
    }
}

/// The opposite pane.
pub open spec fn other_pane(p: FocusedPane) -> FocusedPane {
    if p == FocusedPane::Monitors {
        FocusedPane::Options
    } else {
        FocusedPane::Monitors
    }
}

/// `b` is `a` with at most the message line changed.
pub open spec fn same_core(a: App, b: App) -> bool {
    &&& b.monitors@ == a.monitors@
    &&& b.configs@ == a.configs@
    &&& b.monitor_sel == a.monitor_sel
    &&& b.option_sel == a.option_sel
    &&& b.focused_pane == a.focused_pane
}

/// The position of the first active monitor other than `cur`, scanning
/// from `k`; the list's length when there is none.
pub open spec fn find_other_from(ms: Seq<MonitorView>, cur: int, k: int) -> int
    decreases ms.len() - k,
    when 0 <= k
{
    if k >= ms.len() {
        ms.len() as int
    } else if k != cur && ms[k].active {
        k
    } else {
        find_other_from(ms, cur, k + 1)
    }
}

/// `cmd` carries monitor `i`'s name and its selected resolution, rate and
/// scale.
pub open spec fn cmd_matches(a: App, i: int, cmd: ModeCommand) -> bool {
    &&& cmd.name@ == a.monitors@[i]@.name
    &&& cmd.resolution@ == a.configs@[i]@.resolution
    &&& cmd.refresh_milli == a.configs@[i]@.refresh_rate
    &&& cmd.scale_centi == a.configs@[i]@.scale
}

/// The one line the configuration file holds for an active monitor.
pub open spec fn config_line(m: MonitorView, c: ConfigView) -> Seq<char> {
    "monitor="@ + m.name + ","@ + c.resolution + "@"@ + two_dec_chars(
        centi_of_milli(c.refresh_rate as nat),
    ) + ",auto,"@ + two_dec_chars(c.scale as nat) + "\n"@
}

/// The configuration file's content: one line per active monitor, in list
/// order.
pub open spec fn content_of(ms: Seq<MonitorView>, cs: Seq<ConfigView>) -> Seq<char>
    decreases ms.len(),
{
    if ms.len() == 0 {
        Seq::empty()
    } else {
        content_of(ms.drop_last(), cs.drop_last()) + if ms.last().active {
            config_line(ms.last(), cs.last())
        } else {
            Seq::empty()
        }
    }
}

impl App {
    /// The monitor the cursor rests on.
    pub fn selected_monitor(&self) -> (r: Option<usize>)
        ensures
            r == self.monitor_sel,
    {
        self.monitor_sel
    }

    /// Whether `pane` holds the focus.
    pub fn is_focused(&self, pane: FocusedPane) -> (r: bool)
        ensures
            r == (self.focused_pane == pane),
    {
        self.focused_pane == pane
    }

    /// Moves the focus to the other pane.
    pub fn toggle_pane(&mut self)
        requires
            old(self).wf(),
        ensures
            final(self).wf(),
            final(self).focused_pane == other_pane(old(self).focused_pane),
            final(self).monitors@ == old(self).monitors@,
            final(self).configs@ == old(self).configs@,
            final(self).monitor_sel == old(self).monitor_sel,
            final(self).option_sel == old(self).option_sel,
            final(self).info_message == old(self).info_message,
    {
        self.focused_pane = if self.focused_pane == FocusedPane::Monitors {
            FocusedPane::Options
        } else {
            FocusedPane::Monitors
        };
    }

    /// Applies the cursor's row: the first three rows step resolution,
    /// refresh rate or scale; other rows are not value rows and nothing
    /// changes. With no monitor or no row selected, nothing changes.
    pub fn modify_selected_option(&mut self, increase: bool)
        requires
            old(self).wf(),
        ensures
            final(self).wf(),
            spec_modified(*old(self), *final(self), increase),
            final(self).info_message == old(self).info_message,
    {
        let mon_idx = match self.monitor_sel {
            Some(i) => i,
            None => {
                return;
            },
        };
        let opt_idx = match self.option_sel {
            Some(i) => i,
            None => {
                return;
            },
        };
        if opt_idx == 0 {
            self.cycle_resolution(mon_idx, increase);
        } else if opt_idx == 1 {
            self.cycle_refresh_rate(mon_idx, increase);
        } else if opt_idx == 2 {
            self.adjust_scale(mon_idx, increase);
        }
    }

    /// The first active monitor other than `current_idx`, with its name.
    pub fn get_other_monitor_info(&self, current_idx: usize) -> (r: Option<(usize, String)>)
        ensures
            ({
                let ms = monitors_view(self.monitors@);
                let o = find_other_from(ms, current_idx as int, 0);
                match r {
                    Some(p) => p.0 as int == o && o < ms.len() && p.1@ == ms[o].name,
                    None => o == ms.len(),
                }
            }),
    {
        let ghost ms = monitors_view(self.monitors@);
        let mut i: usize = 0;
        while i < self.monitors.len()
            invariant
                i <= self.monitors@.len(),
                ms == monitors_view(self.monitors@),
                ms.len() == self.monitors@.len(),
                find_other_from(ms, current_idx as int, 0) == find_other_from(
                    ms,
                    current_idx as int,
                    i as int,
                ),
            decreases self.monitors@.len() - i,
        {
            if i != current_idx && self.monitors[i].active {
                return Some((i, self.monitors[i].name.clone()));
            }
            i = i + 1;
        }
        None
    }

    /// The command data for monitor `idx`'s current selection.
    fn command_for(&self, idx: usize) -> (cmd: ModeCommand)
        requires
            self.wf(),
            idx < self.monitors@.len(),
        ensures
            cmd_matches(*self, idx as int, cmd),
    {
        ModeCommand {
            name: self.monitors[idx].name.clone(),
            resolution: self.configs[idx].resolution.clone(),
            refresh_milli: self.configs[idx].refresh_rate,
            scale_centi: self.configs[idx].scale,
        }
    }

    /// Asks for the selected monitor's mode to be applied.
    pub fn apply_changes(&self) -> (r: Option<Effect>)
        requires
            self.wf(),
        ensures
            match self.monitor_sel {
                Some(i) => r matches Some(Effect::Apply(cmd)) && cmd_matches(*self, i as int, cmd),
                None => r is None,
            },
    {
        match self.monitor_sel {
            Some(idx) => Some(Effect::Apply(self.command_for(idx))),
            None => None,
        }
    }

    /// Asks for the selected monitor to become the main output.
    pub fn set_as_main(&self) -> (r: Option<Effect>)
        requires
            self.wf(),
        ensures
            match self.monitor_sel {
                Some(i) => r matches Some(Effect::SetMain(cmd)) && cmd_matches(
                    *self,
                    i as int,
                    cmd,
                ),
                None => r is None,
            },
    {
        match self.monitor_sel {
            Some(idx) => Some(Effect::SetMain(self.command_for(idx))),
            None => None,
        }
    }

    /// Asks for the selected monitor to be placed beside the first other
    /// active monitor; nothing when no other active monitor exists.
    pub fn extend_relative(&self, left: bool) -> (r: Option<Effect>)
        requires
            self.wf(),
        ensures
            extend_effect_ok(*self, left, r),
    {
        let idx = match self.monitor_sel {
            Some(i) => i,
            None => {
                return None;
            },
        };
        match self.get_other_monitor_info(idx) {
            Some(other) => {
                let (_, other_name) = other;
                let cmd = self.command_for(idx);
                if left {
                    Some(Effect::ExtendLeft(cmd, other_name))
                } else {
                    Some(Effect::ExtendRight(cmd, other_name))
                }
            },
            None => None,
        }
    }

    /// Copies the selected monitor's scale onto the first other active
    /// monitor's config and asks for the mirror command; the rest of the
    /// other config, and every other pair, stay as they were.
    pub fn mirror_monitor(&mut self) -> (r: Option<Effect>)
        requires
            old(self).wf(),
        ensures
            final(self).wf(),
            mirror_ok(*old(self), *final(self), r),
            final(self).info_message == old(self).info_message,
    {
        let idx = match self.monitor_sel {
            Some(i) => i,
            None => {
                return None;
            },
        };
        match self.get_other_monitor_info(idx) {
            Some(other) => {
                let (other_idx, other_name) = other;
                let cmd = self.command_for(idx);
                let source_scale = self.configs[idx].scale;
                let ghost m_other = self.monitors@[other_idx as int]@;
                let ghost c_other = self.configs@[other_idx as int]@;
                proof {
                    assert(pair_wf(m_other, c_other));
                    assert(pair_wf(self.monitors@[idx as int]@, self.configs@[idx as int]@));
                }
                let target = &mut self.configs[other_idx];
                target.scale = source_scale;
                proof {
                    assert(pair_wf(m_other, self.configs@[other_idx as int]@));
                }
                Some(Effect::Mirror(cmd, other_name))
            },
            None => None,
        }
    }

    /// Asks for the selected monitor's power state to be switched; the
    /// local state only follows once `apply_dpms_result` reports success.
    pub fn toggle_dpms_request(&self) -> (r: Option<Effect>)
        requires
            self.wf(),
        ensures
            match self.monitor_sel {
                Some(i) => r matches Some(Effect::Dpms { monitor, name, turn_on })
                    && monitor == i && name@ == self.monitors@[i as int]@.name && turn_on == !self
                    .configs@[i as int]@.dpms_on,
                None => r is None,
            },
    {
        match self.monitor_sel {
            Some(idx) => Some(
                Effect::Dpms {
                    monitor: idx,
                    name: self.monitors[idx].name.clone(),
                    turn_on: !self.configs[idx].dpms_on,
                },
            ),
            None => None,
        }
    }

    /// Records the outcome of a power-state command: on success the
    /// monitor's power flag flips, on failure (or a stale index) nothing
    /// changes, so the flag stays in step with reality.
    pub fn apply_dpms_result(&mut self, mon_idx: usize, success: bool)
        requires
            old(self).wf(),
        ensures
            final(self).wf(),
            final(self).monitors@ == old(self).monitors@,
            final(self).monitor_sel == old(self).monitor_sel,
            final(self).option_sel == old(self).option_sel,
            final(self).focused_pane == old(self).focused_pane,
            final(self).info_message == old(self).info_message,
            final(self).configs@.len() == old(self).configs@.len(),
            if success && (mon_idx as int) < old(self).configs@.len() {
                &&& forall|i: int|
                    0 <= i < old(self).configs@.len() && i != mon_idx ==> final(self).configs@[i]
                        == #[trigger] old(self).configs@[i]
                &&& final(self).configs@[mon_idx as int]@ == ConfigView {
                    dpms_on: !old(self).configs@[mon_idx as int]@.dpms_on,
                    ..old(self).configs@[mon_idx as int]@
                }
            } else {
                final(self).configs@ == old(self).configs@
            },
    {
        if success && mon_idx < self.configs.len() {
            let ghost m = self.monitors@[mon_idx as int]@;
            proof {
                assert(pair_wf(m, self.configs@[mon_idx as int]@));
            }
            let config = &mut self.configs[mon_idx];
            config.dpms_on = !config.dpms_on;
            proof {
                assert(pair_wf(m, self.configs@[mon_idx as int]@));
            }
        }
    }

    /// Asks for the selected monitor to be disabled.
    pub fn disable_monitor(&self) -> (r: Option<Effect>)
        requires
            self.wf(),
        ensures
            match self.monitor_sel {
                Some(i) => r matches Some(Effect::Disable(name)) && name@
                    == self.monitors@[i as int]@.name,
                None => r is None,
            },
    {
        match self.monitor_sel {
            Some(idx) => Some(Effect::Disable(self.monitors[idx].name.clone())),
            None => None,
        }
    }

    /// The configuration file's content for this session: one line per
    /// active monitor naming its selection, rate and scale with exactly
    /// two decimal digits each.
    pub fn config_file_content(&self) -> (r: String)
        requires
            self.wf(),
        ensures
            r@ == content_of(monitors_view(self.monitors@), configs_view(self.configs@)),
    {
        let ghost ms = monitors_view(self.monitors@);
        let ghost cs = configs_view(self.configs@);
        let mut out = String::new();
        let mut i: usize = 0;
        proof {
            assert(ms.take(0).len() == 0);
            assert(out@ =~= content_of(ms.take(0), cs.take(0)));
        }
        while i < self.monitors.len()
            invariant
                i <= self.monitors@.len(),
                self.wf(),
                ms == monitors_view(self.monitors@),
                cs == configs_view(self.configs@),
                ms.len() == self.monitors@.len(),
                cs.len() == self.monitors@.len(),
                out@ == content_of(ms.take(i as int), cs.take(i as int)),
            decreases self.monitors@.len() - i,
        {
            proof {
                assert(ms.take(i as int + 1).drop_last() =~= ms.take(i as int));
                assert(cs.take(i as int + 1).drop_last() =~= cs.take(i as int));
                assert(ms.take(i as int + 1).last() == ms[i as int]);
                assert(cs.take(i as int + 1).last() == cs[i as int]);
                assert(pair_wf(self.monitors@[i as int]@, self.configs@[i as int]@));
            }
            if self.monitors[i].active {
                append_config_line(&mut out, &self.monitors[i], &self.configs[i]);
            }
            i = i + 1;
        }
        proof {
            assert(ms.take(ms.len() as int) =~= ms);
            assert(cs.take(cs.len() as int) =~= cs);
        }
        out
    }

    /// Dispatches one operator action: navigation and value rows mutate
    /// the session, action rows yield the outside work to carry out, and
    /// the quit flag reports whether the session should end. Any action
    /// clears the message line.
    pub fn handle_action(&mut self, action: Action) -> (r: (bool, Option<Effect>))
        requires
            old(self).wf(),
        ensures
            final(self).wf(),
            final(self).info_message is None,
            r.0 == (action == Action::Quit),
            match action {
                Action::Quit => same_core(*old(self), *final(self)) && r.1 is None,
                Action::TogglePane => {
                    &&& final(self).focused_pane == other_pane(old(self).focused_pane)
                    &&& final(self).monitors@ == old(self).monitors@
                    &&& final(self).configs@ == old(self).configs@
                    &&& final(self).monitor_sel == old(self).monitor_sel
                    &&& final(self).option_sel == old(self).option_sel
                    &&& r.1 is None
                },
                Action::Down | Action::Up => {
                    let forward = action == Action::Down;
                    &&& final(self).monitors@ == old(self).monitors@
                    &&& final(self).configs@ == old(self).configs@
                    &&& final(self).focused_pane == old(self).focused_pane
                    &&& if old(self).focused_pane == FocusedPane::Monitors {
                        final(self).monitor_sel == spec_cycle_selection(
                            old(self).monitor_sel,
                            old(self).monitors@.len() as int,
                            forward,
                        ) && final(self).option_sel == Some(0usize)
                    } else {
                        final(self).monitor_sel == old(self).monitor_sel && final(self).option_sel
                            == spec_cycle_selection(
                            old(self).option_sel,
                            OPTION_COUNT as int,
                            forward,
                        )
                    }
                    &&& r.1 is None
                },
                Action::Right | Action::Left => {
                    let increase = action == Action::Right;
                    &&& if old(self).focused_pane == FocusedPane::Options {
                        spec_modified(*old(self), *final(self), increase)
                    } else {
                        same_core(*old(self), *final(self))
                    }
                    &&& r.1 is None
                },
                Action::Activate => {
                    if old(self).focused_pane == FocusedPane::Options {
                        match old(self).option_sel {
                            Some(oi) => {
                                if oi == APPLY_OPTION_IDX {
                                    same_core(*old(self), *final(self)) && apply_like_ok(
                                        *old(self),
                                        r.1,
                                        true,
                                    )
                                } else if oi == SET_MAIN_IDX {
                                    same_core(*old(self), *final(self)) && apply_like_ok(
                                        *old(self),
                                        r.1,
                                        false,
                                    )
                                } else if oi == EXTEND_LEFT_IDX {
                                    same_core(*old(self), *final(self)) && extend_effect_ok(
                                        *old(self),
                                        true,
                                        r.1,
                                    )
                                } else if oi == EXTEND_RIGHT_IDX {
                                    same_core(*old(self), *final(self)) && extend_effect_ok(
                                        *old(self),
                                        false,
                                        r.1,
                                    )
                                } else if oi == MIRROR_IDX {
                                    mirror_ok(*old(self), *final(self), r.1)
                                } else if oi == BLACK_SCREEN_IDX {
                                    same_core(*old(self), *final(self)) && dpms_effect_ok(
                                        *old(self),
                                        r.1,
                                    )
                                } else if oi == SAVE_OPTION_IDX {
                                    same_core(*old(self), *final(self)) && (r.1 matches Some(
                                        Effect::Save(content),
                                    ) && content@ == content_of(
                                        monitors_view(old(self).monitors@),
                                        configs_view(old(self).configs@),
                                    ))
                                } else if oi == DISABLE_OPTION_IDX {
                                    same_core(*old(self), *final(self)) && disable_effect_ok(
                                        *old(self),
                                        r.1,
                                    )
                                } else {
                                    same_core(*old(self), *final(self)) && r.1 is None
                                }
                            },
                            None => same_core(*old(self), *final(self)) && r.1 is None,
                        }
                    } else {
                        same_core(*old(self), *final(self)) && r.1 is None
                    }
                },
            },
    {
        if self.info_message.is_some() {
            self.info_message = None;
        }
        match action {
            Action::Quit => (true, None),
            Action::TogglePane => {
                self.toggle_pane();
                (false, None)
            },
            Action::Down => {
                if self.focused_pane == FocusedPane::Monitors {
                    self.navigate_monitors(true);
                } else {
                    self.navigate_options(true);
                }
                (false, None)
            },
            Action::Up => {
                if self.focused_pane == FocusedPane::Monitors {
                    self.navigate_monitors(false);
                } else {
                    self.navigate_options(false);
                }
                (false, None)
            },
            Action::Right => {
                if self.focused_pane == FocusedPane::Options {
                    self.modify_selected_option(true);
                }
                (false, None)
            },
            Action::Left => {
                if self.focused_pane == FocusedPane::Options {
                    self.modify_selected_option(false);
                }
                (false, None)
            },
            Action::Activate => {
                if self.focused_pane == FocusedPane::Options {
                    match self.option_sel {
                        Some(oi) => {
                            if oi == APPLY_OPTION_IDX {
                                (false, self.apply_changes())
                            } else if oi == SET_MAIN_IDX {
                                (false, self.set_as_main())
                            } else if oi == EXTEND_LEFT_IDX {
                                (false, self.extend_relative(true))
                            } else if oi == EXTEND_RIGHT_IDX {
                                (false, self.extend_relative(false))
                            } else if oi == MIRROR_IDX {
                                (false, self.mirror_monitor())
                            } else if oi == BLACK_SCREEN_IDX {
                                (false, self.toggle_dpms_request())
                            } else if oi == SAVE_OPTION_IDX {
                                (false, Some(Effect::Save(self.config_file_content())))
                            } else if oi == DISABLE_OPTION_IDX {
                                (false, self.disable_monitor())
                            } else {
                                (false, None)
                            }
                        },
                        None => (false, None),
                    }
                } else {
                    (false, None)
                }
            },
        }
    }
}

/// How `modify_selected_option` relates the session after to the session
/// before: with a monitor and a value row selected, that monitor's config
/// steps as the row says; otherwise nothing changes.
pub open spec fn spec_modified(a: App, b: App, increase: bool) -> bool {
    &&& b.monitors@ == a.monitors@
    &&& b.monitor_sel == a.monitor_sel
    &&& b.option_sel == a.option_sel
    &&& b.focused_pane == a.focused_pane
    &&& match (a.monitor_sel, a.option_sel) {
        (Some(mi), Some(oi)) => {
            &&& b.configs@.len() == a.configs@.len()
            &&& forall|i: int|
                0 <= i < a.configs@.len() && i != mi ==> b.configs@[i] == #[trigger] a.configs@[i]
            &&& b.configs@[mi as int]@ == if oi == 0 {
                spec_cycle_resolution(a.monitors@[mi as int]@, a.configs@[mi as int]@, increase)
            } else if oi == 1 {
                spec_cycle_refresh(a.monitors@[mi as int]@, a.configs@[mi as int]@, increase)
            } else if oi == 2 {
                spec_adjust_scale(a.configs@[mi as int]@, increase)
            } else {
                a.configs@[mi as int]@
            }
        },
        _ => b.configs@ == a.configs@,
    }
}

/// The effect of the apply and set-main rows: the selected monitor's
/// command data, or nothing without a selection.
pub open spec fn apply_like_ok(a: App, e: Option<Effect>, apply: bool) -> bool {
    match a.monitor_sel {
        Some(i) => {
            if apply {
                e matches Some(Effect::Apply(cmd)) && cmd_matches(a, i as int, cmd)
            } else {
                e matches Some(Effect::SetMain(cmd)) && cmd_matches(a, i as int, cmd)
            }
        },
        None => e is None,
    }
}

/// The effect of the extend rows: the selected monitor's command data and
/// the first other active monitor's name, or nothing without both.
pub open spec fn extend_effect_ok(a: App, left: bool, e: Option<Effect>) -> bool {
    match a.monitor_sel {
        Some(i) => {
            let ms = monitors_view(a.monitors@);
            let o = find_other_from(ms, i as int, 0);
            if o == ms.len() {
                e is None
            } else if left {
                e matches Some(Effect::ExtendLeft(cmd, other)) && cmd_matches(a, i as int, cmd)
                    && other@ == ms[o].name
            } else {
                e matches Some(Effect::ExtendRight(cmd, other)) && cmd_matches(a, i as int, cmd)
                    && other@ == ms[o].name
            }
        },
        None => e is None,
    }
}

/// The mirror row: the source's scale lands in the other monitor's
/// config, everything else stays, and the effect carries the source's
/// command data with the other monitor's name; without a selection or an
/// other active monitor, nothing happens.
pub open spec fn mirror_ok(a: App, b: App, e: Option<Effect>) -> bool {
    match a.monitor_sel {
        Some(i) => {
            let ms = monitors_view(a.monitors@);
            let o = find_other_from(ms, i as int, 0);
            if o == ms.len() {
                same_core(a, b) && e is None
            } else {
                &&& b.monitors@ == a.monitors@
                &&& b.monitor_sel == a.monitor_sel
                &&& b.option_sel == a.option_sel
                &&& b.focused_pane == a.focused_pane
                &&& b.configs@.len() == a.configs@.len()
                &&& forall|k: int|
                    0 <= k < a.configs@.len() && k != o ==> b.configs@[k] == #[trigger] a.configs@[k]
                &&& b.configs@[o]@ == ConfigView { scale: a.configs@[i as int]@.scale, ..a.configs@[o]@ }
                &&& e matches Some(Effect::Mirror(cmd, other)) && cmd_matches(a, i as int, cmd)
                    && other@ == ms[o].name
            }
        },
        None => same_core(a, b) && e is None,
    }
}

/// The power row's effect: the selected monitor's name and the state to
/// switch to, or nothing without a selection.
pub open spec fn dpms_effect_ok(a: App, e: Option<Effect>) -> bool {
    match a.monitor_sel {
        Some(i) => e matches Some(Effect::Dpms { monitor, name, turn_on }) && monitor == i
            && name@ == a.monitors@[i as int]@.name && turn_on == !a.configs@[i as int]@.dpms_on,
        None => e is None,
    }
}

/// The disable row's effect: the selected monitor's name, or nothing
/// without a selection.
pub open spec fn disable_effect_ok(a: App, e: Option<Effect>) -> bool {
    match a.monitor_sel {
        Some(i) => e matches Some(Effect::Disable(name)) && name@ == a.monitors@[i as int]@.name,
        None => e is None,
    }
}

/// Appends the configuration line for one active monitor.
fn append_config_line(out: &mut String, m: &Monitor, c: &MonitorConfig)
    requires
        c.scale >= 0,
    ensures
        final(out)@ == old(out)@ + config_line(m@, c@),
{
    out.append("monitor=");
    out.append(m.name.as_str());
    out.append(",");
    out.append(c.resolution.as_str());
    out.append("@");
    let rate = format_milli(c.refresh_rate);
    out.append(rate.as_str());
    out.append(",auto,");
    let scale = format_centi(c.scale as u64);
    out.append(scale.as_str());
    out.append("\n");
    proof {
        assert(out@ =~= old(out)@ + config_line(m@, c@));
    }
}

} // verus!
