use arch_update_manager::install::{install_command_line, install_script, installation_outcome};
use arch_update_manager::lock::{is_lock_error, lock_error_in, LOCK_FILE_PATH};
use arch_update_manager::models::UpdateError;
use arch_update_manager::privilege::{
    find_target_user, find_user_from_loginctl, find_user_from_who, get_original_user,
    pkexec_lookup_uid, session_environment, user_from_sudo_hint, SessionEnv,
};

#[test]
fn lock_error_messages() {
    assert!(is_lock_error("error: unable to lock database"));
    assert!(is_lock_error("ERROR: Unable To Lock Database"));
    assert!(is_lock_error("error: could not lock database: File exists\n  if you're sure, remove /var/lib/pacman/db.lck"));
    assert!(is_lock_error("db.lck"));
    assert!(!is_lock_error("error: failed to synchronize all databases"));
    assert!(!is_lock_error(""));
    assert!(!is_lock_error("DB.LCK"));
    assert!(LOCK_FILE_PATH.ends_with("db.lck"));
}

#[test]
fn lock_error_from_lowercase_form() {
    assert!(lock_error_in("x unable to lock database", "X UNABLE TO LOCK DATABASE"));
    assert!(!lock_error_in("unable to lock", "unable to lock"));
    assert!(lock_error_in("", "see db.lck"));
}

#[test]
fn install_command_and_script() {
    let pkgs = vec!["foo".to_string(), "bar".to_string()];
    assert_eq!(install_command_line(&pkgs), "sudo pacman -S foo bar");
    assert_eq!(install_command_line(&Vec::new()), "sudo pacman -S");
    let script = install_script(&pkgs, "/tmp/m.marker").unwrap();
    assert!(script.starts_with("#!/bin/bash\necho 'Installing packages...'\nsudo pacman -S foo bar\ninstallation_result=$?\n"));
    assert!(script.contains("echo $installation_result > '/tmp/m.marker'\n"));
    assert!(script.ends_with("read -p 'Press Enter to continue...'\n"));
    match install_script(&Vec::new(), "/tmp/m.marker") {
        Err(UpdateError::CommandFailed(m)) => assert_eq!(m, "No packages selected for installation"),
        _ => panic!("expected a command failure"),
    }
}

#[test]
fn completion_marker_outcomes() {
    assert_eq!(installation_outcome(None), None);
    assert_eq!(installation_outcome(Some("0\n")), Some(true));
    assert_eq!(installation_outcome(Some(" -0 ")), Some(true));
    assert_eq!(installation_outcome(Some("1\n")), Some(false));
    assert_eq!(installation_outcome(Some("-2147483648")), Some(false));
    assert_eq!(installation_outcome(Some("+7")), Some(false));
    assert_eq!(installation_outcome(Some("garbage")), Some(true));
    assert_eq!(installation_outcome(Some("")), Some(true));
    assert_eq!(installation_outcome(Some("99999999999")), Some(true));
    assert_eq!(installation_outcome(Some("2147483648")), Some(true));
}

#[test]
fn sudo_and_pkexec_hints() {
    assert_eq!(user_from_sudo_hint(Some("alice")), Some("alice".to_string()));
    assert_eq!(user_from_sudo_hint(Some("root")), None);
    assert_eq!(user_from_sudo_hint(Some("")), None);
    assert_eq!(user_from_sudo_hint(None), None);
    assert_eq!(pkexec_lookup_uid(Some("1000")), Some("1000".to_string()));
    assert_eq!(pkexec_lookup_uid(Some("0")), None);
    assert_eq!(pkexec_lookup_uid(Some("abc")), None);
    assert_eq!(pkexec_lookup_uid(Some("4294967296")), None);
    assert_eq!(pkexec_lookup_uid(Some("+1000")), Some("+1000".to_string()));
}

const WHO: &str = "root     tty1         2024-01-01 10:00\nbob      pts/0        2024-01-01 10:05 (:0)\ncarol    tty2         2024-01-01 10:06\n";

#[test]
fn login_list_users() {
    assert_eq!(find_user_from_who(WHO, false), Some("bob".to_string()));
    assert_eq!(find_user_from_who(WHO, true), Some("root".to_string()));
    assert_eq!(find_user_from_who("dave pts/1 2024\n", false), None);
    assert_eq!(
        find_user_from_loginctl("  2 root  0 seat1 tty3\n  3 1000 alice seat0\n  4 1001 bob  seat0 tty2\n"),
        Some("1000".to_string())
    );
    assert_eq!(
        find_user_from_loginctl("c1 1000 erin seat0\n"),
        Some("1000".to_string())
    );
    assert_eq!(find_user_from_loginctl("1 root\n"), None);
}

#[test]
fn original_user_resolution_order() {
    assert_eq!(
        get_original_user(Some("alice"), Some("1000"), Some("bob\n"), Some(WHO)),
        Some("alice".to_string())
    );
    assert_eq!(
        get_original_user(Some("root"), Some("1000"), Some("  bob \n"), Some(WHO)),
        Some("bob".to_string())
    );
    assert_eq!(
        get_original_user(None, Some("0"), Some("bob\n"), Some(WHO)),
        Some("bob".to_string())
    );
    assert_eq!(
        get_original_user(None, Some("1000"), Some("  \n"), Some("x tty1\n")),
        Some("x".to_string())
    );
    assert_eq!(get_original_user(None, None, None, None), None);
    assert_eq!(get_original_user(None, None, None, Some("root tty1\n")), None);
}

#[test]
fn target_user_resolution_order() {
    assert_eq!(find_target_user(Some("root"), Some(WHO), None), Some("root".to_string()));
    assert_eq!(find_target_user(None, Some(WHO), None), Some("root".to_string()));
    assert_eq!(
        find_target_user(None, Some("nobody pts/4\n"), Some("7 1000 zed seat0\n")),
        Some("1000".to_string())
    );
    assert_eq!(find_target_user(None, None, None), None);
}

#[test]
fn session_variables_for_root() {
    let empty = SessionEnv {
        runtime_dir: None,
        bus_address: None,
        home: Some("/root".to_string()),
        config_home: None,
        data_home: None,
        cache_home: None,
        xauthority: None,
    };
    let got = session_environment("alice", "1000", &empty);
    let want: Vec<(String, String)> = vec![
        ("XDG_RUNTIME_DIR", "/run/user/1000"),
        ("DBUS_SESSION_BUS_ADDRESS", "unix:path=/run/user/1000/bus"),
        ("HOME", "/home/alice"),
        ("XDG_CONFIG_HOME", "/home/alice/.config"),
        ("XDG_DATA_HOME", "/home/alice/.local/share"),
        ("XDG_CACHE_HOME", "/home/alice/.cache"),
        ("XAUTHORITY", "/home/alice/.Xauthority"),
    ]
    .into_iter()
    .map(|(k, v)| (k.to_string(), v.to_string()))
    .collect();
    assert_eq!(got, want);
    let set = SessionEnv {
        runtime_dir: Some("/run/user/0".to_string()),
        bus_address: None,
        home: Some("/home/root2".to_string()),
        config_home: Some("x".to_string()),
        data_home: Some("y".to_string()),
        cache_home: Some("z".to_string()),
        xauthority: Some("w".to_string()),
    };
    assert_eq!(
        session_environment("bob", "7", &set),
        vec![("DBUS_SESSION_BUS_ADDRESS".to_string(), "unix:path=/run/user/7/bus".to_string())]
    );
}
