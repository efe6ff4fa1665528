use bsmcp::time::{time_block, TimezoneConfig, TimezoneSource};
use std::time::{SystemTime, UNIX_EPOCH};

fn unix_now() -> i64 {
    SystemTime::now().duration_since(UNIX_EPOCH).unwrap().as_secs() as i64
}

#[test]
fn now_unix_is_within_2s_of_system_time() {
    let cfg = TimezoneConfig { name: "UTC".to_string(), source: TimezoneSource::Utc };
    let before = unix_now();
    let block = cfg.time_block();
    let after = unix_now();
    let now_unix = block.get_i64("now_unix").expect("now_unix is i64");
    assert!(
        (now_unix - before).abs() <= 2 && (now_unix - after).abs() <= 2,
        "now_unix={now_unix} drifted >2s from SystemTime bounds [{before}, {after}]"
    );
}

#[test]
fn block_carries_all_required_fields() {
    let cfg =
        TimezoneConfig { name: "America/New_York".to_string(), source: TimezoneSource::Env };
    let block = time_block(&cfg);
    for key in ["now_unix", "now_utc", "now_local", "now_human", "timezone", "timezone_source"] {
        assert!(block.get(key).is_some(), "missing required key `{key}`");
    }
    assert_eq!(block.get_str("timezone"), Some("America/New_York"));
    assert_eq!(block.get_str("timezone_source"), Some("env"));
}

#[test]
fn utc_fallback_block_is_well_formed() {
    let cfg = TimezoneConfig { name: "UTC".to_string(), source: TimezoneSource::Utc };
    let block = cfg.time_block();
    assert_eq!(block.get_str("timezone"), Some("UTC"));
    assert_eq!(block.get_str("timezone_source"), Some("utc"));
    let local = block.get_str("now_local").unwrap();
    assert!(local.ends_with("+00:00"), "UTC now_local should end with +00:00, got `{local}`");
}

#[test]
fn source_as_str_round_trip() {
    assert_eq!(TimezoneSource::Env.as_str(), "env");
    assert_eq!(TimezoneSource::Tz.as_str(), "tz");
    assert_eq!(TimezoneSource::Utc.as_str(), "utc");
}

#[test]
fn a_time_is_shown_in_three_ways() {
    let cfg = TimezoneConfig { name: "America/New_York".to_string(), source: TimezoneSource::Tz };
    let block = cfg.time_block_at(1_777_259_655);
    assert_eq!(block.get_i64("now_unix"), Some(1_777_259_655));
    assert_eq!(block.get_str("now_utc"), Some("2026-04-27T03:14:15Z"));
    assert_eq!(block.get_str("now_local"), Some("2026-04-26T23:14:15-04:00"));
    assert_eq!(
        block.get_str("now_human"),
        Some("Sunday, April 26, 2026 at 11:14 PM EDT")
    );
}

#[test]
fn an_unknown_zone_is_shown_in_utc() {
    let cfg = TimezoneConfig { name: "Mars/Olympus".to_string(), source: TimezoneSource::Env };
    let block = cfg.time_block_at(0);
    assert_eq!(block.get_str("now_local"), Some("1970-01-01T00:00:00+00:00"));
    assert_eq!(block.get_str("timezone"), Some("Mars/Olympus"));
}

#[test]
fn zones_are_resolved_in_order() {
    let own = TimezoneConfig::from_settings(Some(" Europe/Berlin "), Some("America/New_York"));
    assert_eq!((own.name.as_str(), own.source), ("Europe/Berlin", TimezoneSource::Env));
    let system = TimezoneConfig::from_settings(Some("Nowhere"), Some("America/New_York"));
    assert_eq!((system.name.as_str(), system.source), ("America/New_York", TimezoneSource::Tz));
    let neither = TimezoneConfig::from_settings(Some("  "), None);
    assert_eq!((neither.name.as_str(), neither.source), ("UTC", TimezoneSource::Utc));
}

#[test]
fn the_own_zone_is_chosen_first() {
    let cfg = TimezoneConfig::choose_zone(Some("A".to_string()), Some("B".to_string()));
    assert_eq!((cfg.name.as_str(), cfg.source), ("A", TimezoneSource::Env));
    let cfg = TimezoneConfig::choose_zone(None, Some("B".to_string()));
    assert_eq!((cfg.name.as_str(), cfg.source), ("B", TimezoneSource::Tz));
}
