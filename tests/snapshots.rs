use arch_update_manager::models::UpdateError;
use arch_update_manager::settings::{AppSettings, SnapshotRetentionPeriod};
use arch_update_manager::timeshift::{
    cleanup_timeshift_snapshots, created_snapshot_name, list_timeshift_snapshots_with_comments,
    parse_snapshot_table, parse_snapshot_timestamp, parse_snapshot_verbose, retention_cutoff,
    snapshot_deletion_plan, sort_names, DatedSnapshot, Instant, SnapshotRecord, SnapshotTime,
};

const TABLE: &str = "Mounted /dev/sda1 at /run/timeshift/backup
Device : /dev/sda1
------------------------------------------------------------------------------
Num     Name                 Tags  Description
------------------------------------------------------------------------------
0    >  2024-01-01_10-00-01  O     pre-update
1    >  2024-01-02_10-00-01  O
2       2024-01-03_10-00-01  O D   pre-update  run 
3    >  2024-01-04_10-00-0   O     short name
";

const VERBOSE: &str = "Snapshot      : 2024-01-01_10-00-01
Comments      :  pre-update 
Tags          : O

Snapshot      : 2024-01-02_10-00-01
Tags          : D
Snapshot:2024-01-03_10-00-01
Comments:x
";

fn rec(name: &str, comment: Option<&str>) -> SnapshotRecord {
    SnapshotRecord { name: name.to_string(), comment: comment.map(|c| c.to_string()) }
}

fn view(v: &[SnapshotRecord]) -> Vec<(String, Option<String>)> {
    v.iter().map(|r| (r.name.clone(), r.comment.clone())).collect()
}

fn settings(count: u32, period: SnapshotRetentionPeriod) -> AppSettings {
    AppSettings {
        enable_aur_support: false,
        preferred_aur_helper: None,
        create_timeshift_snapshot: true,
        snapshot_retention_count: count,
        snapshot_retention_period: period,
    }
}

#[test]
fn table_rows() {
    let r = parse_snapshot_table(TABLE);
    assert_eq!(
        view(&r),
        vec![
            ("2024-01-01_10-00-01".to_string(), Some("pre-update".to_string())),
            ("2024-01-02_10-00-01".to_string(), None),
            ("2024-01-03_10-00-01".to_string(), Some("D   pre-update  run".to_string())),
        ]
    );
}

#[test]
fn verbose_blocks() {
    let r = parse_snapshot_verbose(VERBOSE);
    assert_eq!(
        view(&r),
        vec![
            ("2024-01-01_10-00-01".to_string(), Some("pre-update".to_string())),
            ("2024-01-02_10-00-01".to_string(), None),
            ("2024-01-03_10-00-01".to_string(), Some("x".to_string())),
        ]
    );
}

#[test]
fn listing_falls_back_to_verbose() {
    assert_eq!(list_timeshift_snapshots_with_comments(TABLE, None).unwrap().len(), 3);
    assert!(list_timeshift_snapshots_with_comments("no rows here\n", None).is_none());
    let r = list_timeshift_snapshots_with_comments("no rows here\n", Some(VERBOSE)).unwrap();
    assert_eq!(r.len(), 3);
    assert!(list_timeshift_snapshots_with_comments("", Some("")).unwrap().is_empty());
}

#[test]
fn snapshot_timestamps() {
    assert_eq!(
        parse_snapshot_timestamp("2024-02-29_23-59-59"),
        Some(SnapshotTime { year: 2024, month: 2, day: 29, hour: 23, minute: 59, second: 59 })
    );
    assert_eq!(
        parse_snapshot_timestamp("snap 1999-12-31_00-00-00 old"),
        Some(SnapshotTime { year: 1999, month: 12, day: 31, hour: 0, minute: 0, second: 0 })
    );
    assert_eq!(parse_snapshot_timestamp("2023-02-29_10-00-00"), None);
    assert_eq!(parse_snapshot_timestamp("1900-02-29_10-00-00"), None);
    assert_eq!(parse_snapshot_timestamp("2000-02-29_10-00-00").unwrap().day, 29);
    assert_eq!(parse_snapshot_timestamp("2024-04-31_10-00-00"), None);
    assert_eq!(parse_snapshot_timestamp("2024-13-01_10-00-00"), None);
    assert_eq!(parse_snapshot_timestamp("2024-01-01_24-00-00"), None);
    assert_eq!(parse_snapshot_timestamp("2024-01-01_10-60-00"), None);
    assert_eq!(parse_snapshot_timestamp("2024-01-01_10-00-60"), None);
    assert_eq!(parse_snapshot_timestamp("2024-01-01 10-00-00"), None);
    assert_eq!(parse_snapshot_timestamp(""), None);
}

#[test]
fn cutoffs_per_period() {
    let now = Instant { seconds: 1_000_000_000, nanos: 5 };
    assert_eq!(retention_cutoff(SnapshotRetentionPeriod::Forever, now), None);
    assert_eq!(
        retention_cutoff(SnapshotRetentionPeriod::Day, now),
        Some(Instant { seconds: 1_000_000_000 - 86_400, nanos: 5 })
    );
    assert_eq!(
        retention_cutoff(SnapshotRetentionPeriod::Week, now),
        Some(Instant { seconds: 1_000_000_000 - 604_800, nanos: 5 })
    );
    assert_eq!(
        retention_cutoff(SnapshotRetentionPeriod::Month, now),
        Some(Instant { seconds: 1_000_000_000 - 2_592_000, nanos: 5 })
    );
    assert_eq!(
        retention_cutoff(SnapshotRetentionPeriod::Year, now),
        Some(Instant { seconds: 1_000_000_000 - 31_536_000, nanos: 5 })
    );
    assert_eq!(
        retention_cutoff(SnapshotRetentionPeriod::Day, Instant { seconds: i64::MIN, nanos: 0 }),
        None
    );
}

fn dated(names: &[(&str, Option<i64>)]) -> Vec<DatedSnapshot> {
    names.iter().map(|(n, t)| DatedSnapshot { name: n.to_string(), time: *t }).collect()
}

#[test]
fn keep_two_of_five_forever_deletes_three_oldest() {
    let e = dated(&[("a1", None), ("a2", None), ("a3", None), ("a4", None), ("a5", None)]);
    assert_eq!(snapshot_deletion_plan(&e, None, 2, "a5"), vec!["a1", "a2", "a3"]);
}

#[test]
fn protected_name_among_oldest_is_spared() {
    let e = dated(&[("a1", None), ("a2", None), ("a3", None), ("a4", None), ("a5", None)]);
    assert_eq!(snapshot_deletion_plan(&e, None, 2, "a2"), vec!["a1", "a3"]);
    assert!(snapshot_deletion_plan(&e, None, 5, "a2").is_empty());
    assert!(snapshot_deletion_plan(&e, None, 9, "x").is_empty());
}

#[test]
fn week_cutoff_applies_before_count() {
    let day = 86_400;
    let now = 100 * day;
    let cutoff = Some(Instant { seconds: now - 7 * day, nanos: 0 });
    let e = dated(&[
        ("old1", Some(now - 30 * day)),
        ("old2", Some(now - 20 * day)),
        ("new1", Some(now - 3 * day)),
        ("bad", None),
        ("new2", Some(now - 2 * day)),
        ("new3", Some(now - day)),
    ]);
    assert_eq!(snapshot_deletion_plan(&e, cutoff, 2, "new3"), vec!["new1", "bad"]);
    assert!(snapshot_deletion_plan(&e, cutoff, 4, "new3").is_empty());
    let edge = dated(&[("e1", Some(now - 7 * day)), ("e2", Some(now))]);
    assert_eq!(snapshot_deletion_plan(&edge, cutoff, 1, "x"), vec!["e1"]);
    let later_cut = Some(Instant { seconds: now - 7 * day, nanos: 1 });
    assert!(snapshot_deletion_plan(&edge, later_cut, 1, "x").is_empty());
}

#[test]
fn names_sort_ascending() {
    let v = vec!["b".to_string(), "a".to_string(), "ab".to_string(), "B".to_string(), "a".to_string()];
    assert_eq!(sort_names(v), vec!["B", "a", "a", "ab", "b"]);
}

#[test]
fn pruning_pass_forever() {
    let snaps = vec![
        rec(" 2024-01-03_00-00-00 ", Some(" pre-update ")),
        rec("2024-01-01_00-00-00", Some("pre-update")),
        rec("2024-01-05_00-00-00", Some("pre-update")),
        rec("2024-01-02_00-00-00", Some("other")),
        rec("2024-01-04_00-00-00", Some("pre-update")),
        rec("2024-01-00_00-00-00", None),
        rec("2024-01-02_00-00-00", Some("pre-update")),
    ];
    let s = settings(2, SnapshotRetentionPeriod::Forever);
    assert_eq!(
        cleanup_timeshift_snapshots(&snaps, "pre-update", &s, "2024-01-02_00-00-00"),
        vec!["2024-01-01_00-00-00", "2024-01-03_00-00-00"]
    );
    assert!(cleanup_timeshift_snapshots(&snaps, "none", &s, "").is_empty());
}

#[test]
fn pruning_pass_week_keeps_old_snapshots_out_of_the_count() {
    let snaps = vec![
        rec("2001-01-01_00-00-00", Some("c")),
        rec("2001-01-02_00-00-00", Some("c")),
        rec("2001-01-03_00-00-00", Some("c")),
    ];
    let s = settings(1, SnapshotRetentionPeriod::Week);
    assert!(cleanup_timeshift_snapshots(&snaps, "c", &s, "").is_empty());
    let odd = vec![rec("first", Some("c")), rec("second", Some("c"))];
    assert_eq!(cleanup_timeshift_snapshots(&odd, "c", &s, ""), vec!["first"]);
}

#[test]
fn created_snapshot_is_the_greatest_name() {
    let snaps = vec![
        rec("2024-01-02_00-00-00", Some("pre")),
        rec("2024-01-05_00-00-00", Some("other")),
        rec("2024-01-03_00-00-00", Some("pre")),
        rec("2024-01-01_00-00-00", Some("pre")),
    ];
    assert_eq!(created_snapshot_name(&snaps, "pre").unwrap(), "2024-01-03_00-00-00");
    let bare = vec![rec("2024-01-07_00-00-00", None), rec("2024-01-06_00-00-00", Some(""))];
    assert_eq!(created_snapshot_name(&bare, "").unwrap(), "2024-01-07_00-00-00");
    match created_snapshot_name(&snaps, "missing") {
        Err(UpdateError::CommandFailed(m)) => assert_eq!(m, "created snapshot not found in list"),
        _ => panic!("expected a command failure"),
    }
}
