use hypr_tui::app::{Action, App, Effect, FocusedPane, OPTION_COUNT};
use hypr_tui::builder::RawMonitor;

fn record(name: &str, active: bool, modes: &[&str]) -> RawMonitor {
    RawMonitor {
        name: Some(String::from(name)),
        disabled: Some(!active),
        scale_centi: Some(150),
        width: Some(1920),
        height: Some(1080),
        refresh_milli: Some(59940),
        available_modes: modes.iter().map(|s| String::from(*s)).collect(),
    }
}

fn two_monitor_session() -> App {
    App::from_records(vec![
        record(
            "DP-1",
            true,
            &["1920x1080@59.94Hz", "1920x1080@60Hz", "1280x720@60Hz", "640x480@60Hz"],
        ),
        record("HDMI-1", true, &["1920x1080@60Hz"]),
    ])
}

#[test]
fn session_starts_on_first_monitor_and_option() {
    let app = two_monitor_session();
    assert_eq!(app.monitors.len(), 2);
    assert_eq!(app.selected_monitor(), Some(0));
    assert_eq!(app.option_sel, Some(0));
    assert!(app.is_focused(FocusedPane::Monitors));
    assert!(app.info_message.is_none());
}

#[test]
fn nameless_records_are_dropped_from_the_session() {
    let mut nameless = record("ignored", true, &["1920x1080@60Hz"]);
    nameless.name = None;
    let mut unnamed = record("", true, &["1920x1080@60Hz"]);
    unnamed.name = Some(String::new());
    let app = App::from_records(vec![
        nameless,
        record("DP-1", true, &["1920x1080@60Hz"]),
        unnamed,
        record("HDMI-1", false, &[]),
    ]);
    assert_eq!(app.monitors.len(), 2);
    assert_eq!(app.monitors[0].name, "DP-1");
    assert_eq!(app.monitors[1].name, "HDMI-1");
    assert_eq!(app.configs.len(), 2);
}

#[test]
fn empty_record_list_yields_no_selection() {
    let app = App::from_records(Vec::new());
    assert_eq!(app.selected_monitor(), None);
    assert!(app.monitors.is_empty());
}

#[test]
fn cycle_selection_wraps_both_ways() {
    assert_eq!(App::cycle_selection(Some(0), 3, true), Some(1));
    assert_eq!(App::cycle_selection(Some(2), 3, true), Some(0));
    assert_eq!(App::cycle_selection(Some(0), 3, false), Some(2));
    assert_eq!(App::cycle_selection(Some(1), 3, false), Some(0));
    assert_eq!(App::cycle_selection(None, 3, true), Some(0));
    assert_eq!(App::cycle_selection(None, 0, true), None);
    assert_eq!(App::cycle_selection(Some(0), 0, false), None);
}

#[test]
fn cycling_resolution_resets_refresh_selection() {
    let mut app = two_monitor_session();
    // DP-1's catalog: "1280x720", "1920x1080", "640x480" in label order;
    // current selection is "1920x1080" at 59.94 Hz
    assert_eq!(app.configs[0].resolution, "1920x1080");
    app.cycle_refresh_rate(0, true);
    assert_eq!(app.configs[0].refresh_rate_index, 1);
    app.cycle_resolution(0, true);
    assert_eq!(app.configs[0].resolution, "640x480");
    assert_eq!(app.configs[0].refresh_rate_index, 0);
    assert_eq!(app.configs[0].refresh_rate, 60000);
}

#[test]
fn cycling_resolution_visits_every_entry_before_repeating() {
    let mut app = two_monitor_session();
    let count = app.monitors[0].modes.len();
    let start = app.configs[0].resolution_index;
    let mut seen = vec![start];
    for _ in 0..count - 1 {
        app.cycle_resolution(0, true);
        let idx = app.configs[0].resolution_index;
        assert!(!seen.contains(&idx));
        seen.push(idx);
    }
    app.cycle_resolution(0, true);
    assert_eq!(app.configs[0].resolution_index, start);
}

#[test]
fn cycling_forward_then_backward_returns_to_start() {
    let mut app = two_monitor_session();
    let start_res = app.configs[0].resolution_index;
    for _ in 0..5 {
        app.cycle_resolution(0, true);
    }
    for _ in 0..5 {
        app.cycle_resolution(0, false);
    }
    assert_eq!(app.configs[0].resolution_index, start_res);

    let start_rate = app.configs[0].refresh_rate_index;
    for _ in 0..3 {
        app.cycle_refresh_rate(0, true);
    }
    for _ in 0..3 {
        app.cycle_refresh_rate(0, false);
    }
    assert_eq!(app.configs[0].refresh_rate_index, start_rate);
}

#[test]
fn cycling_is_a_no_op_without_modes() {
    let mut app = App::from_records(vec![record("DP-1", true, &[])]);
    let before_res = app.configs[0].resolution.clone();
    app.cycle_resolution(0, true);
    app.cycle_refresh_rate(0, false);
    assert_eq!(app.configs[0].resolution, before_res);
    assert_eq!(app.configs[0].resolution_index, 0);
    assert_eq!(app.configs[0].refresh_rate_index, 0);
}

#[test]
fn adjust_scale_steps_and_never_goes_below_the_floor() {
    let mut app = two_monitor_session();
    assert_eq!(app.configs[0].scale, 150);
    app.adjust_scale(0, true);
    assert_eq!(app.configs[0].scale, 175);
    for _ in 0..20 {
        app.adjust_scale(0, false);
        assert!(app.configs[0].scale >= 50);
    }
    assert_eq!(app.configs[0].scale, 50);
    app.adjust_scale(0, true);
    assert_eq!(app.configs[0].scale, 75);
}

#[test]
fn tab_toggles_the_focused_pane() {
    let mut app = two_monitor_session();
    let (quit, effect) = app.handle_action(Action::TogglePane);
    assert!(!quit);
    assert!(effect.is_none());
    assert!(app.is_focused(FocusedPane::Options));
    app.handle_action(Action::TogglePane);
    assert!(app.is_focused(FocusedPane::Monitors));
}

#[test]
fn quit_action_reports_quit() {
    let mut app = two_monitor_session();
    let (quit, effect) = app.handle_action(Action::Quit);
    assert!(quit);
    assert!(effect.is_none());
}

#[test]
fn navigation_moves_monitor_cursor_and_resets_options() {
    let mut app = two_monitor_session();
    app.navigate_options(true);
    assert_eq!(app.option_sel, Some(1));
    let (quit, _) = app.handle_action(Action::Down);
    assert!(!quit);
    assert_eq!(app.selected_monitor(), Some(1));
    assert_eq!(app.option_sel, Some(0));
    app.handle_action(Action::Down);
    assert_eq!(app.selected_monitor(), Some(0));
}

#[test]
fn option_navigation_wraps_over_all_rows() {
    let mut app = two_monitor_session();
    app.handle_action(Action::TogglePane);
    for expected in 1..OPTION_COUNT {
        app.handle_action(Action::Down);
        assert_eq!(app.option_sel, Some(expected));
    }
    app.handle_action(Action::Down);
    assert_eq!(app.option_sel, Some(0));
    app.handle_action(Action::Up);
    assert_eq!(app.option_sel, Some(OPTION_COUNT - 1));
}

#[test]
fn value_keys_only_work_in_the_options_pane() {
    let mut app = two_monitor_session();
    let scale = app.configs[0].scale;
    app.handle_action(Action::Right);
    assert_eq!(app.configs[0].scale, scale);
    // move focus to options and down to the scale row
    app.handle_action(Action::TogglePane);
    app.handle_action(Action::Down);
    app.handle_action(Action::Down);
    app.handle_action(Action::Right);
    assert_eq!(app.configs[0].scale, scale + 25);
    app.handle_action(Action::Left);
    assert_eq!(app.configs[0].scale, scale);
}

fn activate_row(app: &mut App, row: usize) -> Option<Effect> {
    if !app.is_focused(FocusedPane::Options) {
        app.handle_action(Action::TogglePane);
    }
    while app.option_sel != Some(row) {
        app.handle_action(Action::Down);
    }
    let (quit, effect) = app.handle_action(Action::Activate);
    assert!(!quit);
    effect
}

#[test]
fn apply_effect_carries_the_selection() {
    let mut app = two_monitor_session();
    match activate_row(&mut app, 3) {
        Some(Effect::Apply(cmd)) => {
            assert_eq!(cmd.name, "DP-1");
            assert_eq!(cmd.resolution, "1920x1080");
            // 59.94 Hz is within the match tolerance of the higher 60 Hz
            // entry, so the build selected 60 Hz
            assert_eq!(cmd.refresh_milli, 60000);
            assert_eq!(cmd.scale_centi, 150);
        },
        other => panic!("expected an apply effect, got {}", effect_kind(&other)),
    }
}

#[test]
fn set_main_effect_carries_the_selection() {
    let mut app = two_monitor_session();
    match activate_row(&mut app, 4) {
        Some(Effect::SetMain(cmd)) => assert_eq!(cmd.name, "DP-1"),
        other => panic!("expected a set-main effect, got {}", effect_kind(&other)),
    }
}

#[test]
fn extend_effects_name_the_other_monitor() {
    let mut app = two_monitor_session();
    match activate_row(&mut app, 5) {
        Some(Effect::ExtendLeft(cmd, other)) => {
            assert_eq!(cmd.name, "DP-1");
            assert_eq!(other, "HDMI-1");
        },
        other => panic!("expected an extend-left effect, got {}", effect_kind(&other)),
    }
    match activate_row(&mut app, 6) {
        Some(Effect::ExtendRight(_, other)) => assert_eq!(other, "HDMI-1"),
        other => panic!("expected an extend-right effect, got {}", effect_kind(&other)),
    }
}

#[test]
fn extend_without_another_active_monitor_does_nothing() {
    let mut app = App::from_records(vec![record("DP-1", true, &["1920x1080@60Hz"])]);
    assert!(activate_row(&mut app, 5).is_none());
}

#[test]
fn mirror_copies_only_the_scale_to_the_other_config() {
    let mut app = two_monitor_session();
    app.configs[0].scale = 175;
    let other_resolution = app.configs[1].resolution.clone();
    match activate_row(&mut app, 7) {
        Some(Effect::Mirror(cmd, other)) => {
            assert_eq!(cmd.name, "DP-1");
            assert_eq!(cmd.scale_centi, 175);
            assert_eq!(other, "HDMI-1");
        },
        other => panic!("expected a mirror effect, got {}", effect_kind(&other)),
    }
    assert_eq!(app.configs[1].scale, 175);
    assert_eq!(app.configs[1].resolution, other_resolution);
}

#[test]
fn dpms_state_follows_only_a_successful_command() {
    let mut app = two_monitor_session();
    assert!(app.configs[0].dpms_on);
    let effect = activate_row(&mut app, 8);
    match effect {
        Some(Effect::Dpms { monitor, name, turn_on }) => {
            assert_eq!(monitor, 0);
            assert_eq!(name, "DP-1");
            assert!(!turn_on);
            app.apply_dpms_result(monitor, false);
            assert!(app.configs[0].dpms_on);
            app.apply_dpms_result(monitor, true);
            assert!(!app.configs[0].dpms_on);
        },
        other => panic!("expected a power effect, got {}", effect_kind(&other)),
    }
}

#[test]
fn save_effect_holds_one_line_per_active_monitor() {
    let mut app = App::from_records(vec![
        record("DP-1", true, &["1920x1080@59.94Hz"]),
        record("OFF-1", false, &["1280x720@60Hz"]),
        record("HDMI-1", true, &["640x480@59.9Hz"]),
    ]);
    match activate_row(&mut app, 9) {
        Some(Effect::Save(content)) => {
            assert_eq!(
                content,
                "monitor=DP-1,1920x1080@59.94,auto,1.50\nmonitor=HDMI-1,640x480@59.90,auto,1.50\n"
            );
        },
        other => panic!("expected a save effect, got {}", effect_kind(&other)),
    }
}

#[test]
fn disable_effect_names_the_selected_monitor() {
    let mut app = two_monitor_session();
    app.handle_action(Action::Down);
    match activate_row(&mut app, 10) {
        Some(Effect::Disable(name)) => assert_eq!(name, "HDMI-1"),
        other => panic!("expected a disable effect, got {}", effect_kind(&other)),
    }
}

#[test]
fn scale_and_rate_render_with_two_decimals() {
    let app = two_monitor_session();
    assert_eq!(app.configs[0].scale_text(), "1.50");
    assert_eq!(app.configs[0].refresh_rate_text(), "60.00");
}

fn effect_kind(e: &Option<Effect>) -> &'static str {
    match e {
        None => "none",
        Some(Effect::Apply(_)) => "apply",
        Some(Effect::SetMain(_)) => "set-main",
        Some(Effect::ExtendLeft(_, _)) => "extend-left",
        Some(Effect::ExtendRight(_, _)) => "extend-right",
        Some(Effect::Mirror(_, _)) => "mirror",
        Some(Effect::Dpms { .. }) => "dpms",
        Some(Effect::Save(_)) => "save",
        Some(Effect::Disable(_)) => "disable",
    }
}
