//! Laws of the cycling operations.
//!
//! Wrap-around cycling is a permutation of the index range: stepping
//! forward any number of times and back the same number of times returns
//! to the starting index, and a full forward pass visits every position
//! exactly once before repeating.

use vstd::prelude::*;

use vstd::arithmetic::div_mod::{
    lemma_add_mod_noop, lemma_mod_multiples_vanish, lemma_mod_self_0, lemma_small_mod,
};

use crate::app::{cycle_index, spec_cycle_refresh, spec_cycle_resolution};
use crate::monitor::{find_label, lemma_find_label_of_entry, pair_wf, ConfigView, MonitorView};

verus! {

/// `i` stepped `count` times through a cycle of length `n`.
pub open spec fn iterate_cycle(i: int, n: int, count: nat, forward: bool) -> int
    decreases count,
{
    if count == 0 {
        i
    } else {
        iterate_cycle(cycle_index(i, n, forward), n, (count - 1) as nat, forward)
    }
}

/// One step stays within the cycle.
pub proof fn lemma_cycle_index_range(i: int, n: int, forward: bool)
    requires
        0 <= i < n,
    ensures
        0 <= cycle_index(i, n, forward) < n,
{
}

/// A backward step undoes a forward step, and the other way round.
pub proof fn lemma_cycle_inverse(i: int, n: int)
    requires
        0 <= i < n,
    ensures
        cycle_index(cycle_index(i, n, true), n, false) == i,
        cycle_index(cycle_index(i, n, false), n, true) == i,
{
    lemma_mod_self_0(n);
    if i + 1 == n {
        lemma_small_mod(0nat, n as nat);
    } else {
        lemma_small_mod((i + 1) as nat, n as nat);
    }
    let j = cycle_index(i, n, true);
    lemma_mod_multiples_vanish(1, j - 1, n);
    if j > 0 {
        lemma_small_mod((j - 1) as nat, n as nat);
    } else {
        lemma_small_mod((n - 1) as nat, n as nat);
    }
    let k = cycle_index(i, n, false);
    lemma_mod_multiples_vanish(1, i - 1, n);
    if i > 0 {
        lemma_small_mod((i - 1) as nat, n as nat);
    } else {
        lemma_small_mod((n - 1) as nat, n as nat);
    }
    if k + 1 == n {
        lemma_small_mod(0nat, n as nat);
    } else {
        lemma_small_mod((k + 1) as nat, n as nat);
    }
}

/// Iterating steps from the back: one more step is one step after the
/// iteration.
proof fn lemma_iterate_unfold_last(i: int, n: int, count: nat, forward: bool)
    ensures
        iterate_cycle(i, n, count + 1, forward) == cycle_index(
            iterate_cycle(i, n, count, forward),
            n,
            forward,
        ),
    decreases count,
{
    if count == 0 {
        reveal_with_fuel(iterate_cycle, 2);
    } else {
        lemma_iterate_unfold_last(cycle_index(i, n, forward), n, (count - 1) as nat, forward);
    }
}

/// Iteration stays within the cycle.
pub proof fn lemma_iterate_range(i: int, n: int, count: nat, forward: bool)
    requires
        0 <= i < n,
    ensures
        0 <= iterate_cycle(i, n, count, forward) < n,
    decreases count,
{
    if count > 0 {
        lemma_cycle_index_range(i, n, forward);
        lemma_iterate_range(cycle_index(i, n, forward), n, (count - 1) as nat, forward);
    }
}

/// Any number of forward steps followed by the same number of backward
/// steps returns to the starting index.
pub proof fn lemma_cycle_round_trip(i: int, n: int, count: nat)
    requires
        0 <= i < n,
    ensures
        iterate_cycle(iterate_cycle(i, n, count, true), n, count, false) == i,
    decreases count,
{
    if count > 0 {
        let c = (count - 1) as nat;
        lemma_cycle_round_trip(i, n, c);
        let f = iterate_cycle(i, n, c, true);
        lemma_iterate_range(i, n, c, true);
        lemma_iterate_unfold_last(i, n, c, true);
        lemma_cycle_inverse(f, n);
        assert(iterate_cycle(i, n, count, true) == cycle_index(f, n, true));
        assert(iterate_cycle(iterate_cycle(i, n, count, true), n, count, false) == iterate_cycle(
            cycle_index(cycle_index(f, n, true), n, false),
            n,
            c,
            false,
        ));
        assert(cycle_index(cycle_index(f, n, true), n, false) == f);
    }
}

/// Forward iteration in closed form.
proof fn lemma_iterate_forward_closed(i: int, n: int, count: nat)
    requires
        0 <= i < n,
    ensures
        iterate_cycle(i, n, count, true) == (i + count) % n,
    decreases count,
{
    if count == 0 {
        lemma_small_mod(i as nat, n as nat);
    } else {
        let c = (count - 1) as nat;
        lemma_iterate_forward_closed(i, n, c);
        lemma_iterate_unfold_last(i, n, c, true);
        if n == 1 {
            lemma_iterate_range(i, n, count, true);
            assert((i + count) % n == 0) by {
                lemma_mod_multiples_vanish(i + count as int, 0, 1);
                lemma_small_mod(0nat, 1nat);
            }
        } else {
            lemma_small_mod(1nat, n as nat);
            lemma_add_mod_noop(i + c, 1, n);
            assert(((i + c) % n + 1int % n) % n == (i + c + 1) % n);
            let x = (i + c) % n;
            lemma_add_mod_noop(x, 1, n);
            lemma_iterate_range(i, n, c, true);
            lemma_small_mod(x as nat, n as nat);
            assert((x + 1) % n == (i + c + 1) % n);
        }
    }
}

/// A full forward pass returns to the start, and no shorter pass does:
/// cycling visits the whole index range before repeating.
pub proof fn lemma_cycle_full_period(i: int, n: int)
    requires
        0 <= i < n,
    ensures
        iterate_cycle(i, n, n as nat, true) == i,
        forall|k: int| 0 < k < n ==> #[trigger] iterate_cycle(i, n, k as nat, true) != i,
{
    lemma_iterate_forward_closed(i, n, n as nat);
    lemma_mod_multiples_vanish(1, i, n);
    lemma_small_mod(i as nat, n as nat);
    assert forall|k: int| 0 < k < n implies #[trigger] iterate_cycle(i, n, k as nat, true) != i by {
        lemma_iterate_forward_closed(i, n, k as nat);
        if i + k < n {
            lemma_small_mod((i + k) as nat, n as nat);
        } else {
            lemma_mod_multiples_vanish(1, i + k - n, n);
            lemma_small_mod((i + k - n) as nat, n as nat);
        }
    }
}

/// A config stepped `count` times through the resolution cycle.
pub open spec fn iter_cycle_resolution(
    m: MonitorView,
    c: ConfigView,
    count: nat,
    forward: bool,
) -> ConfigView
    decreases count,
{
    if count == 0 {
        c
    } else {
        iter_cycle_resolution(m, spec_cycle_resolution(m, c, forward), (count - 1) as nat, forward)
    }
}

/// A config stepped `count` times through the refresh-rate cycle.
pub open spec fn iter_cycle_refresh(
    m: MonitorView,
    c: ConfigView,
    count: nat,
    forward: bool,
) -> ConfigView
    decreases count,
{
    if count == 0 {
        c
    } else {
        iter_cycle_refresh(m, spec_cycle_refresh(m, c, forward), (count - 1) as nat, forward)
    }
}

/// Resolution cycling only moves the resolution index, as `iterate_cycle`
/// does.
proof fn lemma_iter_resolution_index(m: MonitorView, c: ConfigView, count: nat, forward: bool)
    requires
        m.modes.len() > 0,
        m.modes.len() <= usize::MAX,
        (c.resolution_index as int) < m.modes.len(),
    ensures
        iter_cycle_resolution(m, c, count, forward).resolution_index as int == iterate_cycle(
            c.resolution_index as int,
            m.modes.len() as int,
            count,
            forward,
        ),
        (iter_cycle_resolution(m, c, count, forward).resolution_index as int) < m.modes.len(),
    decreases count,
{
    let n = m.modes.len() as int;
    if count > 0 {
        lemma_cycle_index_range(c.resolution_index as int, n, forward);
        let c1 = spec_cycle_resolution(m, c, forward);
        assert(c1.resolution_index as int == cycle_index(c.resolution_index as int, n, forward));
        lemma_iter_resolution_index(m, c1, (count - 1) as nat, forward);
    }
}

/// Stepping the resolution forward `count` times and then backward
/// `count` times returns the resolution index to where it began.
pub proof fn lemma_cycle_resolution_round_trip(m: MonitorView, c: ConfigView, count: nat)
    requires
        pair_wf(m, c),
        m.modes.len() > 0,
        m.modes.len() <= usize::MAX,
    ensures
        iter_cycle_resolution(
            m,
            iter_cycle_resolution(m, c, count, true),
            count,
            false,
        ).resolution_index == c.resolution_index,
{
    let n = m.modes.len() as int;
    lemma_iter_resolution_index(m, c, count, true);
    let cf = iter_cycle_resolution(m, c, count, true);
    lemma_iter_resolution_index(m, cf, count, false);
    lemma_cycle_round_trip(c.resolution_index as int, n, count);
}

/// A full forward pass of the resolution cycle returns to the starting
/// index, no shorter pass does, and every single step resets the
/// refresh-rate selection to the first (highest) rate.
pub proof fn lemma_cycle_resolution_full_period(m: MonitorView, c: ConfigView)
    requires
        pair_wf(m, c),
        m.modes.len() > 0,
        m.modes.len() <= usize::MAX,
    ensures
        iter_cycle_resolution(m, c, m.modes.len() as nat, true).resolution_index
            == c.resolution_index,
        forall|k: int|
            0 < k < m.modes.len() ==> (#[trigger] iter_cycle_resolution(
                m,
                c,
                k as nat,
                true,
            )).resolution_index != c.resolution_index,
        forall|f: bool| (#[trigger] spec_cycle_resolution(m, c, f)).refresh_rate_index == 0,
{
    let n = m.modes.len() as int;
    lemma_iter_resolution_index(m, c, m.modes.len() as nat, true);
    lemma_cycle_full_period(c.resolution_index as int, n);
    assert forall|k: int|
        0 < k < m.modes.len() implies (#[trigger] iter_cycle_resolution(
        m,
        c,
        k as nat,
        true,
    )).resolution_index != c.resolution_index by {
        lemma_iter_resolution_index(m, c, k as nat, true);
    }
}

/// Refresh-rate cycling keeps the resolution and moves the rate index, as
/// `iterate_cycle` does over the current resolution's rate list.
proof fn lemma_iter_refresh_index(m: MonitorView, c: ConfigView, count: nat, forward: bool)
    requires
        0 <= find_label(m.modes, c.resolution) < m.modes.len(),
        m.modes[find_label(m.modes, c.resolution)].rates.len() > 0,
        m.modes[find_label(m.modes, c.resolution)].rates.len() <= usize::MAX,
        (c.refresh_rate_index as int) < m.modes[find_label(m.modes, c.resolution)].rates.len(),
    ensures
        iter_cycle_refresh(m, c, count, forward).resolution == c.resolution,
        iter_cycle_refresh(m, c, count, forward).refresh_rate_index as int == iterate_cycle(
            c.refresh_rate_index as int,
            m.modes[find_label(m.modes, c.resolution)].rates.len() as int,
            count,
            forward,
        ),
        (iter_cycle_refresh(m, c, count, forward).refresh_rate_index as int) < m.modes[find_label(
            m.modes,
            c.resolution,
        )].rates.len(),
    decreases count,
{
    let k = find_label(m.modes, c.resolution);
    let n = m.modes[k].rates.len() as int;
    if count > 0 {
        lemma_cycle_index_range(c.refresh_rate_index as int, n, forward);
        let c1 = spec_cycle_refresh(m, c, forward);
        assert(c1.resolution == c.resolution);
        assert(c1.refresh_rate_index as int == cycle_index(
            c.refresh_rate_index as int,
            n,
            forward,
        ));
        lemma_iter_refresh_index(m, c1, (count - 1) as nat, forward);
    }
}

/// Stepping the refresh rate forward `count` times and then backward
/// `count` times returns the rate index to where it began.
pub proof fn lemma_cycle_refresh_round_trip(m: MonitorView, c: ConfigView, count: nat)
    requires
        pair_wf(m, c),
        m.modes.len() > 0,
        m.modes[c.resolution_index as int].rates.len() <= usize::MAX,
    ensures
        iter_cycle_refresh(
            m,
            iter_cycle_refresh(m, c, count, true),
            count,
            false,
        ).refresh_rate_index == c.refresh_rate_index,
{
    lemma_find_label_of_entry(m.modes, c.resolution_index as int);
    let k = find_label(m.modes, c.resolution);
    let n = m.modes[k].rates.len() as int;
    lemma_iter_refresh_index(m, c, count, true);
    let cf = iter_cycle_refresh(m, c, count, true);
    lemma_iter_refresh_index(m, cf, count, false);
    lemma_cycle_round_trip(c.refresh_rate_index as int, n, count);
}

} // verus!
