use hypr_tui::builder::{build_monitor, find_current_mode, RawMonitor};
use hypr_tui::catalog::parse_modes;

fn raw(
    name: Option<&str>,
    disabled: Option<bool>,
    scale_centi: Option<i32>,
    width: Option<i64>,
    height: Option<i64>,
    refresh_milli: Option<u64>,
    modes: &[&str],
) -> RawMonitor {
    RawMonitor {
        name: name.map(String::from),
        disabled,
        scale_centi,
        width,
        height,
        refresh_milli,
        available_modes: modes.iter().map(|s| String::from(*s)).collect(),
    }
}

#[test]
fn record_without_name_is_dropped() {
    let r = raw(None, Some(false), None, None, None, None, &["1920x1080@60Hz"]);
    assert!(build_monitor(r).is_none());
}

#[test]
fn record_with_empty_name_is_dropped() {
    let r = raw(Some(""), Some(false), None, None, None, None, &["1920x1080@60Hz"]);
    assert!(build_monitor(r).is_none());
}

#[test]
fn missing_disabled_field_means_inactive() {
    let r = raw(Some("DP-1"), None, None, None, None, None, &["1920x1080@60Hz"]);
    let (m, c) = build_monitor(r).unwrap();
    assert!(!m.active);
    // inactive monitors select the first entry of the catalog
    assert_eq!(c.resolution_index, 0);
    assert_eq!(c.refresh_rate_index, 0);
}

#[test]
fn scale_is_clamped_to_the_raw_floor() {
    let r = raw(Some("DP-1"), Some(false), Some(5), None, None, None, &[]);
    let (_, c) = build_monitor(r).unwrap();
    assert_eq!(c.scale, 10);
}

#[test]
fn negative_scale_is_clamped_to_the_raw_floor() {
    let r = raw(Some("DP-1"), Some(false), Some(-300), None, None, None, &[]);
    let (_, c) = build_monitor(r).unwrap();
    assert_eq!(c.scale, 10);
}

#[test]
fn missing_scale_defaults_to_one() {
    let r = raw(Some("DP-1"), Some(false), None, None, None, None, &[]);
    let (_, c) = build_monitor(r).unwrap();
    assert_eq!(c.scale, 100);
}

#[test]
fn empty_catalog_yields_empty_resolution_and_default_rate() {
    let r = raw(Some("DP-1"), Some(false), None, None, None, None, &[]);
    let (m, c) = build_monitor(r).unwrap();
    assert!(m.modes.is_empty());
    assert_eq!(c.resolution, "");
    assert_eq!(c.refresh_rate, 60000);
    assert!(c.dpms_on);
}

#[test]
fn best_match_picks_the_nearest_resolution() {
    let r = raw(
        Some("DP-1"),
        Some(false),
        None,
        Some(1920),
        Some(1080),
        Some(60000),
        &["1920x1080@60Hz", "1280x720@60Hz"],
    );
    let (m, c) = build_monitor(r).unwrap();
    // labels are kept in lexicographic order: "1280x720" then "1920x1080"
    assert_eq!(m.modes[0].resolution, "1280x720");
    assert_eq!(m.modes[1].resolution, "1920x1080");
    assert_eq!(c.resolution_index, 1);
    assert_eq!(c.resolution, "1920x1080");
}

#[test]
fn best_match_rate_within_tolerance() {
    let r = raw(
        Some("DP-1"),
        Some(false),
        None,
        Some(1920),
        Some(1080),
        Some(119950),
        &["1920x1080@144.0Hz", "1920x1080@120.0Hz", "1920x1080@60.0Hz"],
    );
    let (m, c) = build_monitor(r).unwrap();
    assert_eq!(m.modes[0].rates, vec![144000, 120000, 60000]);
    assert_eq!(c.refresh_rate_index, 1);
    assert_eq!(c.refresh_rate, 120000);
}

#[test]
fn no_rate_within_tolerance_selects_the_highest() {
    let r = raw(
        Some("DP-1"),
        Some(false),
        None,
        Some(1920),
        Some(1080),
        Some(100000),
        &["1920x1080@144.0Hz", "1920x1080@120.0Hz", "1920x1080@60.0Hz"],
    );
    let (_, c) = build_monitor(r).unwrap();
    assert_eq!(c.refresh_rate_index, 0);
    assert_eq!(c.refresh_rate, 144000);
}

#[test]
fn unparsable_label_is_never_chosen_over_a_real_one() {
    let r = raw(
        Some("DP-1"),
        Some(false),
        None,
        Some(1),
        Some(1),
        Some(60000),
        &["oddmode@60Hz", "640x480@60Hz"],
    );
    let (m, c) = build_monitor(r).unwrap();
    assert_eq!(m.modes[0].resolution, "640x480");
    assert_eq!(m.modes[1].resolution, "oddmode");
    assert_eq!(c.resolution_index, 0);
}

#[test]
fn malformed_mode_entries_are_skipped_silently() {
    let texts = vec![
        String::from("1920x1080@60Hz"),
        String::from("nonsense"),
        String::from("1920x1080@59.94Hz"),
    ];
    let table = parse_modes(&texts);
    assert_eq!(table.len(), 1);
    assert_eq!(table[0].resolution, "1920x1080");
    assert_eq!(table[0].rates, vec![60000, 59940]);
}

#[test]
fn grouped_rates_collapse_within_tolerance() {
    let texts = vec![
        String::from("1920x1080@60.003Hz"),
        String::from("1920x1080@59.998Hz"),
        String::from("1920x1080@30.0Hz"),
    ];
    let table = parse_modes(&texts);
    assert_eq!(table.len(), 1);
    assert_eq!(table[0].rates, vec![60003, 30000]);
}

#[test]
fn find_current_mode_is_zero_for_inactive_monitors() {
    let texts = vec![String::from("1920x1080@60Hz"), String::from("640x480@75Hz")];
    let table = parse_modes(&texts);
    // labels in lexicographic order: "1920x1080" before "640x480"
    assert_eq!(find_current_mode(&table, false, 640, 480, 75000), (0, 0));
    assert_eq!(find_current_mode(&table, true, 640, 480, 75000), (1, 0));
}
