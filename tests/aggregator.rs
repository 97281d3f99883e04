use arch_update_manager::aur::get_aur_updates;
use arch_update_manager::aur_managers::AurManagers;
use arch_update_manager::models::{PackageUpdate, UpdateError};
use arch_update_manager::package_updates::{
    batch_query_args, extract_field_value, get_batch_installed_sizes, get_batch_repository_info,
    merge_package_updates, parse_upgrade_list, upgradable_packages, RepositoryInfo,
};
use arch_update_manager::size::{calculate_size_difference, parse_size_string};

#[test]
fn size_string_in_each_unit() {
    assert_eq!(parse_size_string("512 B"), Some(512));
    assert_eq!(parse_size_string("2 KiB"), Some(2048));
    assert_eq!(parse_size_string("12.5 MiB"), Some(13_107_200));
    assert_eq!(parse_size_string("1 GiB"), Some(1_073_741_824));
    assert_eq!(parse_size_string("1 TiB"), Some(1_099_511_627_776));
}

#[test]
fn size_string_comma_and_rounding() {
    assert_eq!(parse_size_string("1,5 KiB"), Some(1536));
    assert_eq!(parse_size_string("0.1 KiB"), Some(102));
    assert_eq!(parse_size_string("  3.00 MiB  "), Some(3_145_728));
    assert_eq!(parse_size_string("+4 B"), Some(4));
}

#[test]
fn size_string_unknown_forms() {
    assert_eq!(parse_size_string("Unknown"), None);
    assert_eq!(parse_size_string(""), None);
    assert_eq!(parse_size_string("   "), None);
    assert_eq!(parse_size_string("12 XB"), None);
    assert_eq!(parse_size_string("abc MiB"), None);
    assert_eq!(parse_size_string("12"), None);
    assert_eq!(parse_size_string("1 2 MiB"), None);
    assert_eq!(parse_size_string("1.2.3 MiB"), None);
    assert_eq!(parse_size_string("9999999 TiB"), None);
}

#[test]
fn size_delta_growth_shrink_and_units() {
    assert_eq!(calculate_size_difference("1.0 MiB", "2.0 MiB"), 1_048_576);
    assert_eq!(calculate_size_difference("2 MiB", "1024 KiB"), -1_048_576);
    assert_eq!(calculate_size_difference("1 GiB", "1024 MiB"), 0);
    assert_eq!(calculate_size_difference("100 B", "1 KiB"), 924);
    assert_eq!(calculate_size_difference("Unknown", "1 MiB"), 0);
    assert_eq!(calculate_size_difference("1 MiB", "Unknown"), 0);
    assert_eq!(calculate_size_difference("", ""), 0);
}

#[test]
fn upgrade_list_skips_bad_lines_and_goes_on() {
    let text = "foo 1.0-1 -> 1.1-1\nno arrow here at all\nbar 2.0 -> 2.1 [ignored]\n\n  indented 1 -> 2\nshort -> x\nbaz 1 => 2\nqux 3:1.0-1 -> 3:1.1-1\r\n";
    let r = parse_upgrade_list(text);
    let got: Vec<(&str, &str, &str)> = r
        .iter()
        .map(|u| (u.name.as_str(), u.current_version.as_str(), u.new_version.as_str()))
        .collect();
    assert_eq!(
        got,
        vec![
            ("foo", "1.0-1", "1.1-1"),
            ("bar", "2.0", "2.1"),
            ("qux", "3:1.0-1", "3:1.1-1")
        ]
    );
}

#[test]
fn upgradable_query_outcomes() {
    let ok = upgradable_packages(true, "a 1 -> 2\n", "").unwrap();
    assert_eq!(ok.len(), 1);
    assert!(upgradable_packages(false, "", "").unwrap().is_empty());
    assert!(upgradable_packages(false, " \n", "  ").unwrap().is_empty());
    assert!(upgradable_packages(false, "x", "error: no packages to upgrade")
        .unwrap()
        .is_empty());
    match upgradable_packages(false, "", "error: boom") {
        Err(UpdateError::CommandFailed(m)) => assert_eq!(m, "pacman -Qu failed: error: boom"),
        _ => panic!("expected a command failure"),
    }
    match upgradable_packages(false, "partial", "") {
        Err(UpdateError::CommandFailed(m)) => {
            assert_eq!(m, "pacman -Qu failed: Exit code 1 with no output")
        }
        _ => panic!("expected a command failure"),
    }
}

#[test]
fn field_value_extraction() {
    assert_eq!(extract_field_value("Name            : foo"), "foo");
    assert_eq!(extract_field_value("Description : a: b "), "a: b");
    assert_eq!(extract_field_value("Name"), "Unknown");
    assert_eq!(extract_field_value("Name :"), "");
}

const REMOTE: &str = "Repository      : extra
Name            : foo
Version         : 1.1-1
Description     : The first foo
Installed Size  : 2.00 MiB

Repository      : community
Name            : foo
Description     : A second foo
Installed Size  : 9.00 MiB

Repository      : core
Name            : bar
Description     : Bar tool
Installed Size  : 512.00 KiB
";

#[test]
fn first_block_for_a_name_wins() {
    let info = get_batch_repository_info(REMOTE);
    assert_eq!(info.packages.len(), 2);
    assert_eq!(info.packages[0].name, "foo");
    assert_eq!(info.packages[0].description, "The first foo");
    assert_eq!(info.packages[0].repository, "extra");
    assert_eq!(info.packages[1].name, "bar");
    assert_eq!(info.packages[1].description, "Bar tool");
    assert_eq!(info.packages[1].repository, "core");
    assert_eq!(info.sizes.len(), 2);
    assert_eq!(info.sizes[0].name, "foo");
    assert_eq!(info.sizes[0].size, "2.00 MiB");
    assert_eq!(info.sizes[1].size, "512.00 KiB");
}

#[test]
fn block_without_description_gets_default() {
    let info = get_batch_repository_info("Name : lone\nRepository : extra\n");
    assert_eq!(info.packages.len(), 1);
    assert_eq!(info.packages[0].description, "No description available");
    assert_eq!(info.packages[0].repository, "extra");
}

#[test]
fn installed_sizes_later_value_replaces() {
    let sizes = get_batch_installed_sizes(
        "Name : foo\nInstalled Size : 1.00 MiB\nName : bar\nInstalled Size : 3 KiB\nName : foo\nInstalled Size : 4.00 MiB\n",
    );
    assert_eq!(sizes.len(), 2);
    assert_eq!(sizes[0].name, "foo");
    assert_eq!(sizes[0].size, "4.00 MiB");
    assert_eq!(sizes[1].name, "bar");
    assert_eq!(sizes[1].size, "3 KiB");
}

#[test]
fn merge_fills_records_from_both_listings() {
    let ups = parse_upgrade_list("foo 1.0-1 -> 1.1-1\nbaz 1 -> 2\n");
    let remote = get_batch_repository_info(REMOTE);
    let local = get_batch_installed_sizes("Name : foo\nInstalled Size : 1.00 MiB\n");
    let merged: Vec<PackageUpdate> = merge_package_updates(&ups, &remote, &local);
    assert_eq!(merged.len(), 2);
    assert_eq!(merged[0].name, "foo");
    assert_eq!(merged[0].repository, "extra");
    assert_eq!(merged[0].description, "The first foo");
    assert_eq!(merged[0].current_version, "1.0-1");
    assert_eq!(merged[0].new_version, "1.1-1");
    assert_eq!(merged[0].size, 1_048_576);
    assert!(merged[0].selected);
    assert_eq!(merged[1].name, "baz");
    assert_eq!(merged[1].repository, "Unknown");
    assert_eq!(merged[1].description, "No description available");
    assert_eq!(merged[1].size, 0);
}

#[test]
fn batch_arguments_list_names() {
    let ups = parse_upgrade_list("foo 1 -> 2\nbar 3 -> 4\n");
    assert_eq!(batch_query_args("-Si", &ups), vec!["-Si", "foo", "bar"]);
    let none = parse_upgrade_list("");
    assert_eq!(batch_query_args("-Qi", &none), vec!["-Qi"]);
}

#[test]
fn end_to_end_official_and_aur_records() {
    let ups = upgradable_packages(true, "foo 1.0-1 -> 1.1-1\n", "").unwrap();
    let remote = get_batch_repository_info("");
    let local = get_batch_installed_sizes("");
    let mut all = merge_package_updates(&ups, &remote, &local);
    let aur = get_aur_updates(&AurManagers::Yay, true, "bar 2.0-1 -> 2.1-1\n", "").unwrap();
    all.extend(aur);
    assert_eq!(all.len(), 2);
    assert_eq!(all[0].name, "foo");
    assert_eq!(all[0].repository, "Unknown");
    assert_eq!(all[1].name, "bar");
    assert_eq!(all[1].repository, "AUR");
    assert_eq!(all[1].current_version, "2.0-1");
    assert_eq!(all[1].new_version, "2.1-1");
}

#[test]
fn default_record_is_empty() {
    let p = PackageUpdate::default();
    assert!(p.name.is_empty() && p.repository.is_empty() && p.description.is_empty());
    assert!(!p.selected);
    assert_eq!(p.size, 0);
    let _unused = RepositoryInfo { packages: Vec::new(), sizes: Vec::new() };
}

#[test]
fn error_messages() {
    assert_eq!(UpdateError::CommandFailed("x".to_string()).to_string(), "Command failed: x");
    assert_eq!(UpdateError::IoError("y".to_string()).to_string(), "IO error: y");
    assert_eq!(UpdateError::SyncFailed("z".to_string()).to_string(), "Sync failed: z");
}
