use arch_update_manager::aur::{get_aur_updates, install_aur_packages, parse_aur_updates};
use arch_update_manager::aur_managers::AurManagers;
use arch_update_manager::models::UpdateError;
use arch_update_manager::settings::{
    default_snapshot_retention_count, detect_aur_helper, get_available_aur_helpers,
    get_effective_aur_helper, AppSettings, SnapshotRetentionPeriod,
};

fn names(v: &[&str]) -> Vec<String> {
    v.iter().map(|s| s.to_string()).collect()
}

fn settings(enabled: bool, preferred: Option<&str>) -> AppSettings {
    AppSettings {
        enable_aur_support: enabled,
        preferred_aur_helper: preferred.map(|s| s.to_string()),
        create_timeshift_snapshot: true,
        snapshot_retention_count: 1,
        snapshot_retention_period: SnapshotRetentionPeriod::Forever,
    }
}

#[test]
fn helper_commands_and_arguments() {
    assert_eq!(AurManagers::Yay.command(), "yay");
    assert_eq!(AurManagers::PamacCli.command(), "pamac");
    assert_eq!(AurManagers::from_command("paru"), Some(AurManagers::Paru));
    assert_eq!(AurManagers::from_command("pamac"), Some(AurManagers::PamacCli));
    assert_eq!(AurManagers::from_command("yaourt"), None);
    assert_eq!(AurManagers::Trizen.update_check_args(), vec!["-Qua"]);
    assert_eq!(AurManagers::PamacCli.update_check_args(), vec!["list", "-u", "-a"]);
    assert_eq!(AurManagers::Pikaur.install_args(), vec!["-S"]);
    assert_eq!(AurManagers::PamacCli.install_args(), vec!["install"]);
    assert!(AurManagers::Yay.supports_noconfirm());
    assert!(!AurManagers::PamacCli.supports_noconfirm());
}

#[test]
fn helper_round_trip_through_names() {
    for h in [
        AurManagers::Yay,
        AurManagers::Paru,
        AurManagers::Trizen,
        AurManagers::Pikaur,
        AurManagers::PamacCli,
    ] {
        assert_eq!(AurManagers::from_command(h.command()), Some(h));
    }
}

#[test]
fn available_helpers_keep_priority_order() {
    let r = names(&["pamac", "paru", "ls"]);
    assert_eq!(get_available_aur_helpers(&r), vec!["paru", "pamac"]);
    assert!(get_available_aur_helpers(&Vec::new()).is_empty());
}

#[test]
fn effective_helper_policy() {
    let r = names(&["paru", "pikaur", "aura"]);
    assert_eq!(get_effective_aur_helper(&settings(false, Some("paru")), &r), None);
    assert_eq!(
        get_effective_aur_helper(&settings(true, Some("pikaur")), &r),
        Some("pikaur".to_string())
    );
    assert_eq!(
        get_effective_aur_helper(&settings(true, Some("yay")), &r),
        Some("paru".to_string())
    );
    assert_eq!(get_effective_aur_helper(&settings(true, None), &r), Some("paru".to_string()));
    assert_eq!(
        get_effective_aur_helper(&settings(true, Some("aura")), &r),
        Some("aura".to_string())
    );
    assert_eq!(get_effective_aur_helper(&settings(true, None), &Vec::new()), None);
}

#[test]
fn selected_helper_policy() {
    let r = names(&["trizen", "pamac", "aura"]);
    assert_eq!(detect_aur_helper(&settings(false, None), &r), None);
    assert_eq!(detect_aur_helper(&settings(true, Some("pamac")), &r), Some(AurManagers::PamacCli));
    assert_eq!(detect_aur_helper(&settings(true, None), &r), Some(AurManagers::Trizen));
    assert_eq!(detect_aur_helper(&settings(true, Some("aura")), &r), Some(AurManagers::Trizen));
    assert_eq!(detect_aur_helper(&settings(true, None), &names(&["aura"])), None);
}

#[test]
fn settings_defaults() {
    assert_eq!(default_snapshot_retention_count(), 1);
    let s = AppSettings::default();
    assert!(!s.enable_aur_support);
    assert!(s.preferred_aur_helper.is_none());
    assert!(s.create_timeshift_snapshot);
    assert_eq!(s.snapshot_retention_count, 1);
    assert_eq!(s.snapshot_retention_period, SnapshotRetentionPeriod::Forever);
    assert_eq!(SnapshotRetentionPeriod::default(), SnapshotRetentionPeriod::Forever);
    assert_eq!(SnapshotRetentionPeriod::Week.to_string(), "1 Week");
    assert_eq!(SnapshotRetentionPeriod::Forever.to_string(), "Forever");
}

#[test]
fn standard_aur_lines() {
    let out = "foo 1.0-1 -> 1.1-1\nbar-git r10.abc -> r12.def\nbroken line\n\nbaz 1 -> 2 extra\nqux 3 4 -> 5\n";
    let r = parse_aur_updates(out, &AurManagers::Yay);
    let got: Vec<(&str, &str, &str)> = r
        .iter()
        .map(|u| (u.name.as_str(), u.current_version.as_str(), u.new_version.as_str()))
        .collect();
    assert_eq!(
        got,
        vec![("foo", "1.0-1", "1.1-1"), ("bar-git", "r10.abc", "r12.def"), ("qux", "3", "5")]
    );
    for u in &r {
        assert_eq!(u.repository, "AUR");
        assert!(u.selected);
        assert_eq!(u.size, 0);
        assert_eq!(u.description, format!("AUR package: {}", u.name));
    }
}

#[test]
fn pamac_lines() {
    let r = parse_aur_updates("foo 1.0 1.1\nshort 1\nbar 2 3 extra\n", &AurManagers::PamacCli);
    assert_eq!(r.len(), 2);
    assert_eq!(r[0].name, "foo");
    assert_eq!(r[0].current_version, "1.0");
    assert_eq!(r[0].new_version, "1.1");
    assert_eq!(r[1].name, "bar");
    assert_eq!(r[1].new_version, "3");
}

#[test]
fn aur_check_outcomes() {
    assert_eq!(get_aur_updates(&AurManagers::Paru, true, "a 1 -> 2\n", "").unwrap().len(), 1);
    assert!(get_aur_updates(&AurManagers::Paru, false, "x", " there is nothing to do")
        .unwrap()
        .is_empty());
    assert!(get_aur_updates(&AurManagers::Paru, false, "x", "no packages found")
        .unwrap()
        .is_empty());
    assert!(get_aur_updates(&AurManagers::Paru, false, "", "fatal").unwrap().is_empty());
    match get_aur_updates(&AurManagers::Paru, false, "x", "fatal") {
        Err(UpdateError::CommandFailed(m)) => assert_eq!(m, "AUR helper failed: fatal"),
        _ => panic!("expected a command failure"),
    }
}

#[test]
fn aur_install_invocations() {
    match install_aur_packages(None, names(&["foo"]), None) {
        Err(UpdateError::CommandFailed(m)) => {
            assert_eq!(m, "No AUR helper available for installation")
        }
        _ => panic!("expected a command failure"),
    }
    assert_eq!(
        install_aur_packages(Some(AurManagers::Yay), names(&["foo", "bar"]), None).unwrap(),
        vec!["yay", "-S", "foo", "bar"]
    );
    assert_eq!(
        install_aur_packages(Some(AurManagers::Paru), names(&["foo"]), Some("alice".to_string()))
            .unwrap(),
        vec!["sudo", "-u", "alice", "paru", "-S", "foo"]
    );
    assert_eq!(
        install_aur_packages(Some(AurManagers::PamacCli), names(&["x"]), None).unwrap(),
        vec!["pamac", "install", "x"]
    );
}
