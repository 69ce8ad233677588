use nfs_manager::mount::failure_report;
use nfs_manager::nfs::{MountStatus, NfsConfig, NfsError, Platform};

fn config(name: &str, server: &str, mount_point: &str, options: &str) -> NfsConfig {
    NfsConfig {
        name: name.to_string(),
        server: server.to_string(),
        mount_point: mount_point.to_string(),
        options: options.to_string(),
    }
}

#[test]
fn platform_from_os_name() {
    assert_eq!(Platform::current("macos"), Some(Platform::MacOS));
    assert_eq!(Platform::current("linux"), Some(Platform::Linux));
    assert_eq!(Platform::current("windows"), Some(Platform::Windows));
    assert_eq!(Platform::current("freebsd"), None);
    assert_eq!(Platform::current(""), None);
}

#[test]
fn from_line_reads_four_fields() {
    let c = NfsConfig::from_line("company|192.168.1.100:/data|company-data|rw,sync,hard,intr").unwrap();
    assert_eq!(c.name, "company");
    assert_eq!(c.server, "192.168.1.100:/data");
    assert_eq!(c.mount_point, "company-data");
    assert_eq!(c.options, "rw,sync,hard,intr");
}

#[test]
fn from_line_trims_unicode_white_space() {
    let c = NfsConfig::from_line("\u{3000} a\u{a0}| b |c\t|\u{2003}d ").unwrap();
    assert_eq!(c.name, "a");
    assert_eq!(c.server, "b");
    assert_eq!(c.mount_point, "c");
    assert_eq!(c.options, "d");
}

#[test]
fn from_line_keeps_empty_fields() {
    let c = NfsConfig::from_line("|||").unwrap();
    assert_eq!(c.name, "");
    assert_eq!(c.options, "");
}

#[test]
fn from_line_rejects_wrong_field_counts() {
    for line in ["a|b|c", "a|b|c|d|e", "", "no separators"] {
        match NfsConfig::from_line(line) {
            Err(NfsError::ConfigError(msg)) => assert_eq!(msg, format!("Invalid config line: {}", line)),
            other => panic!("unexpected {:?}", other),
        }
    }
}

#[test]
fn to_line_joins_fields() {
    let c = config("backup", "192.168.1.200:/backup", "backup", "ro,sync");
    assert_eq!(c.to_line(), "backup|192.168.1.200:/backup|backup|ro,sync");
}

#[test]
fn line_round_trip() {
    let c = config("dev", "dev.example.com:/projects", "/Users/username/projects", "rw,async");
    let back = NfsConfig::from_line(&c.to_line()).unwrap();
    assert_eq!(back.name, c.name);
    assert_eq!(back.server, c.server);
    assert_eq!(back.mount_point, c.mount_point);
    assert_eq!(back.options, c.options);
}

#[test]
fn line_round_trip_fails_with_a_bar_in_a_field() {
    let c = config("a|b", "s", "m", "o");
    assert!(NfsConfig::from_line(&c.to_line()).is_err());
}

#[test]
fn relative_mount_point_goes_under_nfs_mounts() {
    let c = config("company", "192.168.1.100:/data", "company-data", "rw");
    assert_eq!(c.get_actual_mount_path(Platform::MacOS, Some("/Users/me")), "/Users/me/nfs-mounts/company-data");
    assert_eq!(c.get_actual_mount_path(Platform::Linux, Some("/home/me/")), "/home/me/nfs-mounts/company-data");
    assert_eq!(c.get_actual_mount_path(Platform::Linux, None), "/tmp/nfs-mounts/company-data");
}

#[test]
fn absolute_mount_point_is_used_directly() {
    let c = config("dev", "dev.example.com:/projects", "/Users/username/projects", "rw,async");
    assert_eq!(c.get_actual_mount_path(Platform::MacOS, Some("/Users/me")), "/Users/username/projects");
    assert_eq!(c.get_actual_mount_path(Platform::Linux, None), "/Users/username/projects");
}

#[test]
fn windows_mount_point_is_the_drive() {
    let c = config("w", "server:/share", "Z", "");
    assert_eq!(c.get_actual_mount_path(Platform::Windows, Some("C:\\Users\\me")), "Z");
}

#[test]
fn empty_mount_point_ends_in_a_separator() {
    let c = config("e", "s", "", "");
    assert_eq!(c.get_actual_mount_path(Platform::Linux, Some("/h")), "/h/nfs-mounts/");
}

#[test]
fn error_messages() {
    assert_eq!(NfsError::Io("denied".to_string()).message(), "IO error: denied");
    assert_eq!(NfsError::MountFailed("x".to_string()).message(), "Mount failed: x");
    assert_eq!(NfsError::UmountFailed("y".to_string()).message(), "Umount failed: y");
    assert_eq!(NfsError::ConfigError("z".to_string()).message(), "Config error: z");
}

#[test]
fn failure_report_lists_failures_only() {
    let outcomes = vec![
        ("a".to_string(), Ok(())),
        ("b".to_string(), Err(NfsError::MountFailed("mount.nfs: access denied".to_string()))),
        ("c".to_string(), Ok(())),
        ("d".to_string(), Err(NfsError::Io("No such file or directory".to_string()))),
    ];
    assert_eq!(
        failure_report(&outcomes),
        vec![
            "b: Mount failed: mount.nfs: access denied".to_string(),
            "d: IO error: No such file or directory".to_string()
        ]
    );
    let all_ok = vec![("a".to_string(), Ok(()))];
    assert!(failure_report(&all_ok).is_empty());
}

#[test]
fn mount_status_of_config() {
    let c = config("company", "192.168.1.100:/data", "company-data", "rw");
    let s = MountStatus::of(&c, true, Platform::Linux, Some("/home/me"));
    assert_eq!(s.name, "company");
    assert!(s.mounted);
    assert_eq!(s.mount_point, "company-data");
    assert_eq!(s.actual_path, "/home/me/nfs-mounts/company-data");
}

#[test]
fn line_round_trip_trims_fields() {
    let c = config(" a ", "\ts:/x", "m\u{3000}", "  ");
    let back = NfsConfig::from_line(&c.to_line()).unwrap();
    assert_eq!(back.name, "a");
    assert_eq!(back.server, "s:/x");
    assert_eq!(back.mount_point, "m");
    assert_eq!(back.options, "");
}

#[test]
fn configs_can_be_cloned() {
    let c = config("a", "s", "m", "o");
    let d = c.clone();
    assert_eq!(d.name, "a");
    let s = MountStatus::of(&c, false, Platform::Linux, None).clone();
    assert_eq!(s.actual_path, "/tmp/nfs-mounts/m");
}
