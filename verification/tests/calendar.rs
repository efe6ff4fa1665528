use bsmcp::backup::{backup_file_name, outdated_backups};
use bsmcp::calendar::{
    current_unix, days_to_ymd, iso_at, iso_now, now_secs, stamp_at, unix_seconds,
    unix_to_components, unix_to_iso,
};

#[test]
fn days_are_counted() {
    assert_eq!(days_to_ymd(0), (1970, 1, 1));
    assert_eq!(days_to_ymd(-1), (1969, 12, 31));
    assert_eq!(days_to_ymd(11_016), (2000, 2, 29));
    assert_eq!(days_to_ymd(20_570), (2026, 4, 27));
}

#[test]
fn moments_are_shown() {
    assert_eq!(unix_to_components(1_777_259_655), (2026, 4, 27, 3, 14, 15));
    assert_eq!(iso_at(1_777_259_655), "2026-04-27T03:14:15Z");
    assert_eq!(unix_to_iso("1777259655"), "2026-04-27T03:14:15Z");
    assert_eq!(unix_to_iso("nope"), "1970-01-01T00:00:00Z");
    assert_eq!(stamp_at(1_777_259_655), "20260427T031415");
}

#[test]
fn later_moments_have_later_texts() {
    let mut last = iso_at(0);
    for i in 1..500i64 {
        let next = iso_at(i * 7_654_321);
        assert!(last < next, "{last} {next}");
        last = next;
    }
}

#[test]
fn the_clock_is_read() {
    let before = std::time::SystemTime::now()
        .duration_since(std::time::UNIX_EPOCH)
        .unwrap()
        .as_secs() as i64;
    assert!(current_unix() >= before && current_unix() <= before + 5);
    assert!(now_secs() >= before);
    assert_eq!(unix_seconds(17), 17);
    assert_eq!(unix_seconds(u64::MAX), i64::MAX);
    assert!(iso_now() >= iso_at(before));
}

#[test]
fn three_backups_are_kept() {
    let name = |secs: i64| backup_file_name(secs);
    assert_eq!(name(1_777_259_655), "bookstack-mcp-backup-20260427T031415.db");
    let files = vec![
        name(400),
        name(100),
        "other.db".to_string(),
        name(300),
        name(200),
        name(500),
    ];
    assert_eq!(outdated_backups(&files), vec![name(100), name(200)]);
    assert!(outdated_backups(&files[..3].to_vec()).is_empty());
}
