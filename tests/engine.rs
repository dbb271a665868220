use macnetmon::app::{App, Command, Followup};
use macnetmon::iface::IfaceState;
use macnetmon::order::{compare_names, tile_order};
use macnetmon::visibility::{eviction_window, group_candidates};
use std::cmp::Ordering;
use macnetmon::constants::{HISTORY_LEN, MAX_INTERVAL_MS, MIN_INTERVAL_MS};
use macnetmon::model::{Args, Config, Group, SortMode};
use macnetmon::net::InterfaceSample;

fn no_args() -> Args {
    Args {
        interval: None,
        hide_loopback: false,
        hide_virtual: false,
        show_inactive: false,
        bits: false,
    }
}

fn sample(name: &str, rx: u64, tx: u64, loopback: bool) -> InterfaceSample {
    InterfaceSample {
        name: name.to_string(),
        rx_bytes: rx,
        tx_bytes: tx,
        flags: if loopback { 0x1 | 0x8 } else { 0x1 },
        is_loopback: loopback,
    }
}

fn state<'a>(app: &'a App, name: &str) -> &'a IfaceState {
    app.states.iter().find(|s| s.name == name).expect("state present")
}

fn has(v: &[String], name: &str) -> bool {
    v.iter().any(|n| n == name)
}

#[test]
fn two_interfaces_rates_and_aggregate_without_loopback() {
    let mut app = App::new(&no_args(), Config::default(), "host".to_string());
    app.display.show_loopback = false;
    app.update(
        Ok(vec![sample("en0", 100000, 50000, false), sample("lo0", 7000, 7000, true)]),
        1_000_000,
    );
    app.update(
        Ok(vec![sample("en0", 110000, 50500, false), sample("lo0", 7000, 7000, true)]),
        1_000_000,
    );
    let en0 = state(&app, "en0");
    assert_eq!(en0.rx_rate.rounded_per_second(), 10000);
    assert_eq!(en0.tx_rate.rounded_per_second(), 500);
    let lo0 = state(&app, "lo0");
    assert_eq!(lo0.rx_rate.rounded_per_second(), 0);
    assert_eq!(lo0.tx_rate.rounded_per_second(), 0);
    assert_eq!(app.total_rx.rounded_per_second(), 10000);
    assert_eq!(app.total_tx.rounded_per_second(), 500);
    assert_eq!(app.total_rx_history[0], 10000);
    assert_eq!(app.total_tx_history[0], 500);
}

#[test]
fn aggregate_counts_loopback_when_shown() {
    let mut app = App::new(&no_args(), Config::default(), "host".to_string());
    app.update(Ok(vec![sample("en0", 0, 0, false), sample("lo0", 0, 0, true)]), 1_000_000);
    app.update(Ok(vec![sample("en0", 100, 0, false), sample("lo0", 50, 20, true)]), 1_000_000);
    assert_eq!(app.total_rx.rounded_per_second(), 150);
    assert_eq!(app.total_tx.rounded_per_second(), 20);
}

#[test]
fn cold_start_reports_zero_rate() {
    let mut app = App::new(&no_args(), Config::default(), "host".to_string());
    app.update(Ok(vec![sample("en0", 5_000_000, 9_000_000, false)]), 1_000_000);
    let en0 = state(&app, "en0");
    assert_eq!(en0.rx_rate.bytes, 0);
    assert_eq!(en0.tx_rate.bytes, 0);
    assert_eq!(en0.rx_history, vec![0]);
    assert!(en0.initialized);
}

#[test]
fn counter_regression_gives_zero_rate() {
    let mut app = App::new(&no_args(), Config::default(), "host".to_string());
    app.update(Ok(vec![sample("en0", 100, 100, false)]), 1_000_000);
    app.update(Ok(vec![sample("en0", 50, 40, false)]), 1_000_000);
    let en0 = state(&app, "en0");
    assert_eq!(en0.rx_rate.bytes, 0);
    assert_eq!(en0.tx_rate.bytes, 0);
    assert_eq!(en0.rx_bytes, 50);
}

#[test]
fn absent_interface_is_removed_from_state_and_visibility() {
    let mut app = App::new(&no_args(), Config::default(), "host".to_string());
    app.update(Ok(vec![sample("en0", 0, 0, false), sample("utun3", 0, 0, false)]), 1_000_000);
    app.update(
        Ok(vec![sample("en0", 5000, 5000, false), sample("utun3", 5000, 5000, false)]),
        1_000_000,
    );
    assert!(has(&app.visible_physical, "en0"));
    assert!(has(&app.visible_virtual, "utun3"));
    app.update(Ok(vec![sample("en0", 6000, 6000, false)]), 1_000_000);
    app.update(Ok(vec![sample("en0", 7000, 7000, false)]), 1_000_000);
    assert!(app.states.iter().all(|s| s.name != "utun3"));
    assert!(!has(&app.visible_physical, "utun3"));
    assert!(!has(&app.visible_virtual, "utun3"));
    assert!(has(&app.visible_physical, "en0"));
}

#[test]
fn interface_with_up_flag_clear_is_skipped() {
    let mut app = App::new(&no_args(), Config::default(), "host".to_string());
    let mut down = sample("en1", 10, 10, false);
    down.flags = 0;
    app.update(Ok(vec![sample("en0", 0, 0, false), down]), 1_000_000);
    assert_eq!(app.states.len(), 1);
    assert_eq!(app.states[0].name, "en0");
}

#[test]
fn sampling_error_leaves_state_untouched() {
    let mut app = App::new(&no_args(), Config::default(), "host".to_string());
    app.update(Ok(vec![sample("en0", 10, 10, false)]), 1_000_000);
    app.update(Err("enumeration failed".to_string()), 1_000_000);
    assert_eq!(app.last_error, Some("enumeration failed".to_string()));
    assert_eq!(app.states.len(), 1);
    assert_eq!(app.states[0].rx_history.len(), 1);
    assert_eq!(app.sample_index, 2);
    app.update(Ok(vec![sample("en0", 20, 10, false)]), 1_000_000);
    assert_eq!(app.last_error, None);
}

#[test]
fn tiny_elapsed_is_floored() {
    let mut app = App::new(&no_args(), Config::default(), "host".to_string());
    app.update(Ok(vec![sample("en0", 0, 0, false)]), 0);
    app.update(Ok(vec![sample("en0", 1, 0, false)]), 0);
    assert_eq!(state(&app, "en0").rx_rate.rounded_per_second(), 1000);
}

#[test]
fn history_is_bounded_with_newest_first() {
    let mut app = App::new(&no_args(), Config::default(), "host".to_string());
    let mut rx: u64 = 0;
    for i in 0..(HISTORY_LEN as u64 + 25) {
        rx += i;
        app.update(Ok(vec![sample("en0", rx, 0, false)]), 1_000_000);
    }
    let en0 = state(&app, "en0");
    assert_eq!(en0.rx_history.len(), HISTORY_LEN);
    assert_eq!(en0.rx_history[0], HISTORY_LEN as u64 + 24);
    assert_eq!(en0.rx_history[1], HISTORY_LEN as u64 + 23);
    assert_eq!(app.total_rx_history.len(), HISTORY_LEN);
}

fn app_with_active_en0(last_active: u64) -> App {
    let mut app = App::new(&no_args(), Config::default(), "host".to_string());
    app.update(Ok(vec![sample("en0", 0, 0, false)]), 1_000_000);
    app.update(Ok(vec![sample("en0", 1000, 0, false)]), 1_000_000);
    assert!(has(&app.visible_physical, "en0"));
    app.states[0].last_active_sample = last_active;
    app
}

#[test]
fn eviction_is_exact_at_threshold() {
    // A section 40 cells wide gives one tile of interior 38, so a window of 36.
    let window: u64 = eviction_window(40, 1);
    assert_eq!(window, 36);
    let mut app = app_with_active_en0(10);
    app.sample_index = 10 + window - 1;
    let shown = app.visible_names(Group::Physical, 40);
    assert_eq!(shown, vec!["en0".to_string()]);
    assert!(has(&app.visible_physical, "en0"));
    app.sample_index = 10 + window;
    let shown = app.visible_names(Group::Physical, 40);
    assert!(shown.is_empty());
    assert!(!has(&app.visible_physical, "en0"));
}

#[test]
fn show_inactive_bypasses_decay() {
    let mut app = app_with_active_en0(0);
    app.display.show_inactive = true;
    app.sample_index = 1000;
    let shown = app.visible_names(Group::Physical, 40);
    assert_eq!(shown, vec!["en0".to_string()]);
    assert!(has(&app.visible_physical, "en0"));
}

#[test]
fn hidden_loopback_is_not_listed() {
    let mut app = App::new(&no_args(), Config::default(), "host".to_string());
    app.update(Ok(vec![sample("lo0", 0, 0, true)]), 1_000_000);
    app.update(Ok(vec![sample("lo0", 5000, 0, true)]), 1_000_000);
    assert!(has(&app.visible_virtual, "lo0"));
    assert_eq!(app.visible_names(Group::Virtual, 80), vec!["lo0".to_string()]);
    app.display.show_loopback = false;
    assert!(app.visible_names(Group::Virtual, 80).is_empty());
    app.display.show_inactive = true;
    assert!(app.visible_names(Group::Virtual, 80).is_empty());
}

#[test]
fn new_applies_overrides_and_clamps_interval() {
    let args = Args {
        interval: Some(1),
        hide_loopback: true,
        hide_virtual: true,
        show_inactive: true,
        bits: true,
    };
    let mut cfg = Config::default();
    cfg.theme = "Nord".to_string();
    let app = App::new(&args, cfg, "h".to_string());
    assert_eq!(app.interval_ms, MIN_INTERVAL_MS);
    assert!(!app.display.show_loopback);
    assert!(!app.display.show_virtual);
    assert!(app.display.show_inactive);
    assert!(app.display.show_bits);
    assert_eq!(app.theme().name, "Nord");
    assert!(app.is_advanced_theme());

    let mut cfg = Config::default();
    cfg.interval_ms = 99_999_999;
    cfg.theme = "No Such Theme".to_string();
    let app = App::new(&no_args(), cfg, "h".to_string());
    assert_eq!(app.interval_ms, MAX_INTERVAL_MS);
    assert_eq!(app.theme_index, 0);
    assert_eq!(app.theme().name, "Green");
}

#[test]
fn interval_steps_are_clamped() {
    let mut app = App::new(&no_args(), Config::default(), "h".to_string());
    assert_eq!(app.interval_ms, 1000);
    app.inc_interval();
    assert_eq!(app.interval_ms, 1250);
    app.interval_ms = MAX_INTERVAL_MS;
    app.inc_interval();
    assert_eq!(app.interval_ms, MAX_INTERVAL_MS);
    app.interval_ms = 400;
    app.dec_interval();
    assert_eq!(app.interval_ms, MIN_INTERVAL_MS);
    app.interval_ms = 1000;
    app.dec_interval();
    assert_eq!(app.interval_ms, 750);
}

#[test]
fn theme_cycles_and_sort_toggles() {
    let mut app = App::new(&no_args(), Config::default(), "h".to_string());
    let n = app.themes.len();
    assert_eq!(n, 17);
    for _ in 0..n {
        app.next_theme();
    }
    assert_eq!(app.theme_slot(), 0);
    assert_eq!(app.sort_mode, SortMode::Name);
    app.toggle_sort();
    assert_eq!(app.sort_mode, SortMode::Bandwidth);
    app.toggle_sort();
    assert_eq!(app.sort_mode, SortMode::Name);
}

#[test]
fn config_reflects_current_settings() {
    let mut app = App::new(&no_args(), Config::default(), "h".to_string());
    app.next_theme();
    let cfg = app.config();
    assert_eq!(cfg.theme, "Yellow");
    assert_eq!(cfg.interval_ms, 1000);
    assert_eq!(cfg.sort_mode, SortMode::Name);
}

#[test]
fn alias_refresh_keeps_old_table_on_failure() {
    let mut app = App::new(&no_args(), Config::default(), "h".to_string());
    app.refresh_aliases(Ok(vec![("en0".to_string(), "Wi-Fi".to_string())]));
    assert_eq!(app.aliases.len(), 1);
    assert_eq!(app.name_error, None);
    app.refresh_aliases(Err("lookup failed".to_string()));
    assert_eq!(app.aliases.len(), 1);
    assert_eq!(app.name_error, Some("lookup failed".to_string()));
}

#[test]
fn group_membership_follows_name() {
    let mut app = App::new(&no_args(), Config::default(), "h".to_string());
    app.update(Ok(vec![sample("en0", 0, 0, false), sample("bridge0", 0, 0, false)]), 1);
    let en0 = state(&app, "en0");
    let br = state(&app, "bridge0");
    assert!(app.in_group(en0, Group::Physical));
    assert!(!app.in_group(en0, Group::Virtual));
    assert!(app.in_group(br, Group::Virtual));
}

#[test]
fn tiles_order_by_name_or_bandwidth() {
    assert_eq!(compare_names("en0", "en1"), Ordering::Less);
    assert_eq!(compare_names("en10", "en1"), Ordering::Greater);
    assert_eq!(compare_names("lo0", "lo0"), Ordering::Equal);
    let mut app = App::new(&no_args(), Config::default(), "h".to_string());
    app.update(Ok(vec![sample("en0", 0, 0, false), sample("en1", 0, 0, false)]), 1_000_000);
    app.update(Ok(vec![sample("en0", 10, 0, false), sample("en1", 500, 0, false)]), 1_000_000);
    let a = state(&app, "en0");
    let b = state(&app, "en1");
    assert_eq!(tile_order(a, b, SortMode::Name), Ordering::Less);
    assert_eq!(tile_order(a, b, SortMode::Bandwidth), Ordering::Greater);
}

#[test]
fn group_candidates_follow_group_and_loopback_setting() {
    let mut app = App::new(&no_args(), Config::default(), "h".to_string());
    app.update(
        Ok(vec![
            sample("en0", 0, 0, false),
            sample("en1", 0, 0, false),
            sample("lo0", 0, 0, true),
            sample("utun0", 0, 0, false),
        ]),
        1_000_000,
    );
    assert_eq!(group_candidates(&app.states, Group::Physical, true).len(), 2);
    assert_eq!(group_candidates(&app.states, Group::Virtual, true).len(), 2);
    let hidden = group_candidates(&app.states, Group::Virtual, false);
    assert_eq!(hidden, vec!["utun0".to_string()]);
}

#[test]
fn commands_toggle_settings_and_report_followup() {
    let mut app = App::new(&no_args(), Config::default(), "h".to_string());
    assert_eq!(app.apply(Command::ToggleBits), Followup::Persist);
    assert!(app.display.show_bits);
    assert_eq!(app.apply(Command::ToggleBits), Followup::Persist);
    assert!(!app.display.show_bits);
    assert_eq!(app.apply(Command::ToggleSplit), Followup::Persist);
    assert!(!app.display.show_split);
    assert_eq!(app.apply(Command::IncInterval), Followup::PersistAndResetTimer);
    assert_eq!(app.interval_ms, 1250);
    assert_eq!(app.apply(Command::NextTheme), Followup::Persist);
    assert_eq!(app.theme_index, 1);
    assert_eq!(app.apply(Command::RefreshAliases), Followup::Resolve);
    assert_eq!(app.apply(Command::Quit), Followup::Exit);
}

#[test]
fn alias_lookup_takes_first_entry() {
    let mut app = App::new(&no_args(), Config::default(), "h".to_string());
    app.refresh_aliases(Ok(vec![
        ("en0".to_string(), "Wi-Fi".to_string()),
        ("en0".to_string(), "Other".to_string()),
    ]));
    assert_eq!(app.alias_of(&"en0".to_string()), Some("Wi-Fi".to_string()));
    assert_eq!(app.alias_of(&"en9".to_string()), None);
}

#[test]
fn visible_tiles_follow_sort_mode() {
    let mut app = App::new(&no_args(), Config::default(), "h".to_string());
    app.update(
        Ok(vec![sample("en2", 0, 0, false), sample("en0", 0, 0, false), sample("en1", 0, 0, false)]),
        1_000_000,
    );
    app.update(
        Ok(vec![
            sample("en2", 300, 0, false),
            sample("en0", 100, 0, false),
            sample("en1", 300, 0, false),
        ]),
        1_000_000,
    );
    let by_name = app.visible_tiles(Group::Physical, 200);
    assert_eq!(by_name, vec!["en0".to_string(), "en1".to_string(), "en2".to_string()]);
    app.toggle_sort();
    let by_rate = app.visible_tiles(Group::Physical, 200);
    assert_eq!(by_rate, vec!["en1".to_string(), "en2".to_string(), "en0".to_string()]);
}
