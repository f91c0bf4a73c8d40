use log_error_rate::compliance::{missing_required_files, permissions_violation, ComplianceRule};
use log_error_rate::disk::{find_mounted, parse_df_output, split_fields, Filesystem};
use log_error_rate::disk::{select_executable, which_executable};
use log_error_rate::textscan::is_text_content;

const DF_OUTPUT: &str = "Filesystem     1K-blocks     Used Available Use% Mounted on\n\
                         overlay         32847680 14055420  17098164  46% /\n\
                         tmpfs              65536        0     65536   0% /dev\n\
                         /dev/root       30298176 13645408  16636384  46% /vscode\n\
                         \n\
                         /dev/sdb1       46127956 20409036  23343344  47% /tmp\n";

#[test]
fn df_parsing_keeps_only_device_lines() {
    let devices = parse_df_output(DF_OUTPUT);
    assert_eq!(devices.len(), 2);
    assert_eq!(devices[0].filesystem, "/dev/root");
    assert_eq!(devices[0].size, "30298176");
    assert_eq!(devices[0].used, "13645408");
    assert_eq!(devices[0].available, "16636384");
    assert_eq!(devices[0].use_percent, "46%");
    assert_eq!(devices[0].mounted_on, "/vscode");
    assert_eq!(devices[1].filesystem, "/dev/sdb1");
    assert_eq!(devices[1].mounted_on, "/tmp");
}

#[test]
fn df_parsing_of_empty_input_yields_no_devices() {
    assert_eq!(parse_df_output("").len(), 0);
    assert_eq!(parse_df_output("Filesystem Used\n\n").len(), 0);
}

#[test]
fn field_splitting_handles_runs_of_whitespace() {
    assert_eq!(
        split_fields("  a   bb\tccc "),
        vec!["a".to_string(), "bb".to_string(), "ccc".to_string()]
    );
    assert_eq!(split_fields(""), Vec::<String>::new());
    assert_eq!(split_fields("   "), Vec::<String>::new());
}

#[test]
fn filesystem_new_keeps_its_fields() {
    let fs = Filesystem::new(
        "overlay".to_string(),
        "1".to_string(),
        "2".to_string(),
        "3".to_string(),
        "4%".to_string(),
        "/x".to_string(),
    );
    assert_eq!(fs.filesystem, "overlay");
    assert_eq!(fs.size, "1");
    assert_eq!(fs.used, "2");
    assert_eq!(fs.available, "3");
    assert_eq!(fs.use_percent, "4%");
    assert_eq!(fs.mounted_on, "/x");
}

#[test]
fn find_mounted_picks_the_first_matching_record() {
    let devices = parse_df_output(DF_OUTPUT);
    assert_eq!(find_mounted(&devices, "/tmp"), Some(1));
    assert_eq!(find_mounted(&devices, "/vscode"), Some(0));
    assert_eq!(find_mounted(&devices, "/nowhere"), None);
}

#[test]
fn which_executable_falls_back_to_the_command() {
    // A name that no system directory holds comes back unchanged.
    assert_eq!(which_executable("no-such-command-zzz"), "no-such-command-zzz");
}

#[test]
fn which_executable_resolves_from_a_system_directory() {
    let resolved = which_executable("sh");
    assert!(
        resolved == "/bin/sh" || resolved == "/usr/bin/sh" || resolved == "/usr/local/bin/sh"
            || resolved == "sh"
    );
}

#[test]
fn field_splitting_treats_unicode_whitespace_as_separator() {
    assert_eq!(
        split_fields("a\u{00A0}b\u{2003}c"),
        vec!["a".to_string(), "b".to_string(), "c".to_string()]
    );
}

#[test]
fn executable_selection_follows_the_priority_order() {
    assert_eq!(select_executable("sh", true, true, true), "/bin/sh");
    assert_eq!(select_executable("sh", false, true, true), "/usr/bin/sh");
    assert_eq!(select_executable("sh", false, false, true), "/usr/local/bin/sh");
    assert_eq!(select_executable("sh", false, false, false), "sh");
}

#[test]
fn permission_mode_violates_iff_it_differs() {
    let rule = ComplianceRule::new("/tmp/*".to_string(), 33188, vec![], vec![]);
    assert!(!permissions_violation(33188, &rule));
    assert!(permissions_violation(33261, &rule));
}

#[test]
fn compliance_rule_new_keeps_its_fields() {
    let rule = ComplianceRule::new(
        "/etc/*.conf".to_string(),
        420,
        vec!["/etc/a.conf".to_string()],
        vec!["/etc/b.conf".to_string()],
    );
    assert_eq!(rule.path_regex, "/etc/*.conf");
    assert_eq!(rule.file_permissions, 420);
    assert_eq!(rule.required_files, vec!["/etc/a.conf".to_string()]);
    assert_eq!(rule.non_existent_files, vec!["/etc/b.conf".to_string()]);
}

#[test]
fn missing_required_files_reports_the_absent_ones_in_order() {
    let required = vec!["a".to_string(), "b".to_string(), "c".to_string()];
    let seen = vec!["b".to_string(), "x".to_string()];
    assert_eq!(missing_required_files(&required, &seen), vec!["a".to_string(), "c".to_string()]);
    assert_eq!(missing_required_files(&required, &required), Vec::<String>::new());
}

#[test]
fn text_content_needs_nonempty_valid_utf8() {
    assert!(is_text_content(b"hello world"));
    assert!(!is_text_content(b""));
    assert!(!is_text_content(&[0xff, 0xfe]));
    assert!(is_text_content("héllo".as_bytes()));
}
