use nfs_manager::command::{CommandEvent, CommandLine, CommandPlan, Phase};
use nfs_manager::nfs::{NfsConfig, NfsError, Platform};

fn config(name: &str, server: &str, mount_point: &str, options: &str) -> NfsConfig {
    NfsConfig {
        name: name.to_string(),
        server: server.to_string(),
        mount_point: mount_point.to_string(),
        options: options.to_string(),
    }
}

fn line(c: &CommandLine) -> Vec<String> {
    let mut v = vec![c.program.clone()];
    v.extend(c.args.iter().cloned());
    v
}

fn lines(plan: &CommandPlan) -> Vec<Vec<String>> {
    plan.attempts.iter().map(line).collect()
}

fn strs(v: &[&str]) -> Vec<String> {
    v.iter().map(|s| s.to_string()).collect()
}

/// Runs a plan against a script of events, one per command it asks for.
fn run(plan: &CommandPlan, events: Vec<CommandEvent>) -> (Vec<Vec<String>>, Result<(), NfsError>) {
    let mut phase = plan.first_phase();
    let mut ran = Vec::new();
    let mut events = events.into_iter();
    while let Some(cmd) = plan.command_for(&phase) {
        ran.push(line(cmd));
        let ev = events.next().expect("plan asked for more commands than scripted");
        phase = plan.advance(phase, ev);
    }
    match phase {
        Phase::Over(r) => (ran, r),
        _ => panic!("plan stopped before it was over"),
    }
}

fn exited(success: bool, stderr: &str) -> CommandEvent {
    CommandEvent::Exited { success, stderr: stderr.to_string() }
}

fn not_started(why: &str) -> CommandEvent {
    CommandEvent::NotStarted(why.to_string())
}

#[test]
fn linux_mount_uses_pkexec_then_sudo() {
    let c = config("company", "192.168.1.100:/data", "company-data", "rw,sync,hard,intr");
    let plan = c.mount_plan(Platform::Linux, Some("/home/me")).unwrap();
    let args = ["mount", "-t", "nfs", "-o", "rw,sync,hard,intr", "192.168.1.100:/data", "/home/me/nfs-mounts/company-data"];
    let mut pk = strs(&["pkexec"]);
    pk.extend(strs(&args));
    let mut su = strs(&["sudo"]);
    su.extend(strs(&args));
    assert_eq!(lines(&plan), vec![pk.clone(), su.clone()]);
    assert!(plan.waits);
    assert!(plan.retry.is_none());

    let (ran, r) = run(&plan, vec![exited(true, "")]);
    assert_eq!(ran, vec![pk.clone()]);
    assert!(r.is_ok());

    let (ran, r) = run(&plan, vec![not_started("no pkexec"), exited(false, "access denied")]);
    assert_eq!(ran, vec![pk.clone(), su.clone()]);
    match r {
        Err(NfsError::MountFailed(s)) => assert_eq!(s, "access denied"),
        other => panic!("unexpected {:?}", other),
    }

    let (_, r) = run(&plan, vec![not_started("no pkexec"), not_started("no sudo")]);
    match r {
        Err(NfsError::Io(s)) => assert_eq!(s, "no sudo"),
        other => panic!("unexpected {:?}", other),
    }

    let (ran, r) = run(&plan, vec![exited(false, "bad option")]);
    assert_eq!(ran.len(), 1);
    match r {
        Err(NfsError::MountFailed(s)) => assert_eq!(s, "bad option"),
        other => panic!("unexpected {:?}", other),
    }
}

#[test]
fn macos_mount_asks_for_administrator_rights() {
    let c = config("company", "192.168.1.100:/data", "company-data", "rw,sync");
    let plan = c.mount_plan(Platform::MacOS, Some("/Users/me")).unwrap();
    assert_eq!(
        lines(&plan),
        vec![strs(&[
            "osascript",
            "-e",
            "do shell script \"mount -t nfs -o resvport,rw,sync 192.168.1.100:/data /Users/me/nfs-mounts/company-data\" with administrator privileges",
        ])]
    );
    let (_, r) = run(&plan, vec![not_started("no osascript")]);
    match r {
        Err(NfsError::Io(s)) => assert_eq!(s, "no osascript"),
        other => panic!("unexpected {:?}", other),
    }
}

#[test]
fn windows_mount_uses_net_use() {
    let c = config("w", "192.168.1.100:/data/sub", "Z", "");
    let plan = c.mount_plan(Platform::Windows, None).unwrap();
    assert_eq!(lines(&plan), vec![strs(&["net", "use", "Z:", "\\\\192.168.1.100\\data\\sub"])]);
}

#[test]
fn windows_mount_needs_a_drive_letter() {
    let c = config("w", "s:/x", "", "");
    match c.mount_plan(Platform::Windows, None) {
        Err(NfsError::ConfigError(s)) => assert_eq!(s, "Invalid mount point"),
        _ => panic!("expected an error"),
    }
    match c.umount_plan(Platform::Windows, None, false) {
        Err(NfsError::ConfigError(s)) => assert_eq!(s, "Invalid mount point"),
        _ => panic!("expected an error"),
    }
}

#[test]
fn linux_umount_with_and_without_force() {
    let c = config("b", "s:/x", "/mnt/b", "");
    let plan = c.umount_plan(Platform::Linux, None, false).unwrap();
    assert_eq!(lines(&plan), vec![strs(&["pkexec", "umount", "/mnt/b"]), strs(&["sudo", "umount", "/mnt/b"])]);
    let plan = c.umount_plan(Platform::Linux, None, true).unwrap();
    assert_eq!(lines(&plan), vec![strs(&["pkexec", "umount", "-f", "/mnt/b"]), strs(&["sudo", "umount", "-f", "/mnt/b"])]);
    let (_, r) = run(&plan, vec![exited(false, "target is busy")]);
    match r {
        Err(NfsError::UmountFailed(s)) => assert_eq!(s, "target is busy"),
        other => panic!("unexpected {:?}", other),
    }
}

#[test]
fn macos_umount_falls_back_to_forced_umount() {
    let c = config("b", "s:/x", "b", "");
    let plan = c.umount_plan(Platform::MacOS, Some("/Users/me"), false).unwrap();
    let first = strs(&["osascript", "-e", "do shell script \"diskutil unmount /Users/me/nfs-mounts/b\" with administrator privileges"]);
    let fallback = strs(&["osascript", "-e", "do shell script \"umount -f /Users/me/nfs-mounts/b\" with administrator privileges"]);
    assert_eq!(lines(&plan), vec![first.clone()]);
    assert_eq!(line(plan.retry.as_ref().unwrap()), fallback);

    let (ran, r) = run(&plan, vec![exited(true, "")]);
    assert_eq!(ran, vec![first.clone()]);
    assert!(r.is_ok());

    let (ran, r) = run(&plan, vec![exited(false, "busy"), exited(true, "")]);
    assert_eq!(ran, vec![first.clone(), fallback.clone()]);
    assert!(r.is_ok());

    let (_, r) = run(&plan, vec![exited(false, "busy"), exited(false, "still busy")]);
    match r {
        Err(NfsError::UmountFailed(s)) => assert_eq!(s, "still busy"),
        other => panic!("unexpected {:?}", other),
    }

    let forced = c.umount_plan(Platform::MacOS, Some("/Users/me"), true).unwrap();
    assert_eq!(
        lines(&forced),
        vec![strs(&["osascript", "-e", "do shell script \"diskutil unmount force /Users/me/nfs-mounts/b\" with administrator privileges"])]
    );
}

#[test]
fn windows_umount_deletes_the_drive() {
    let c = config("w", "s:/x", "Y", "");
    let plan = c.umount_plan(Platform::Windows, None, true).unwrap();
    assert_eq!(lines(&plan), vec![strs(&["net", "use", "Y:", "/delete"])]);
}

#[test]
fn open_needs_an_existing_mount_point() {
    let c = config("a", "s:/x", "a", "");
    match c.open_plan(Platform::Linux, Some("/home/me"), false) {
        Err(NfsError::ConfigError(s)) => assert_eq!(s, "挂载点不存在: /home/me/nfs-mounts/a"),
        _ => panic!("expected an error"),
    }
}

#[test]
fn linux_open_tries_file_managers_in_turn() {
    let c = config("a", "s:/x", "/mnt/a", "");
    let plan = c.open_plan(Platform::Linux, None, true).unwrap();
    let expected: Vec<Vec<String>> = ["xdg-open", "nautilus", "dolphin", "thunar", "nemo", "caja"]
        .iter()
        .map(|p| strs(&[p, "/mnt/a"]))
        .collect();
    assert_eq!(lines(&plan), expected);
    assert!(!plan.waits);

    let (ran, r) = run(&plan, vec![not_started("x"), not_started("x"), CommandEvent::Started]);
    assert_eq!(ran.len(), 3);
    assert!(r.is_ok());

    let six = (0..6).map(|_| not_started("missing")).collect();
    let (ran, r) = run(&plan, six);
    assert_eq!(ran.len(), 6);
    match r {
        Err(NfsError::ConfigError(s)) => assert_eq!(s, "未找到可用的文件管理器"),
        other => panic!("unexpected {:?}", other),
    }
}

#[test]
fn macos_and_windows_open_report_the_cause() {
    let c = config("a", "s:/x", "/mnt/a", "");
    let plan = c.open_plan(Platform::MacOS, None, true).unwrap();
    assert_eq!(lines(&plan), vec![strs(&["open", "/mnt/a"])]);
    let (_, r) = run(&plan, vec![not_started("denied")]);
    match r {
        Err(NfsError::ConfigError(s)) => assert_eq!(s, "打开文件管理器失败: denied"),
        other => panic!("unexpected {:?}", other),
    }
    let w = config("w", "s:/x", "Z", "");
    let plan = w.open_plan(Platform::Windows, None, true).unwrap();
    assert_eq!(lines(&plan), vec![strs(&["explorer", "Z"])]);
}

#[test]
fn mounted_when_listing_names_the_path() {
    let c = config("company", "192.168.1.100:/data", "company-data", "rw");
    let probe = c.mount_probe(Platform::Linux, Some("/home/me")).unwrap();
    assert_eq!(line(&probe.command), strs(&["mount"]));
    assert_eq!(probe.needle, "/home/me/nfs-mounts/company-data");
    let listing = "192.168.1.100:/data on /home/me/nfs-mounts/company-data type nfs (rw)\n";
    assert!(c.is_mounted(Platform::Linux, Some("/home/me"), Some(listing)));
    assert!(!c.is_mounted(Platform::Linux, Some("/home/me"), Some("proc on /proc type proc\n")));
    assert!(!c.is_mounted(Platform::Linux, Some("/home/me"), None));
}

#[test]
fn windows_mounted_when_drive_is_listed() {
    let c = config("w", "s:/x", "Z", "");
    let probe = c.mount_probe(Platform::Windows, None).unwrap();
    assert_eq!(line(&probe.command), strs(&["net", "use"]));
    assert_eq!(probe.needle, "Z:");
    assert!(c.is_mounted(Platform::Windows, None, Some("OK  Z:  \\\\s\\x  NFS Network")));
    assert!(!c.is_mounted(Platform::Windows, None, Some("There are no entries in the list.")));
    let empty = config("e", "s", "", "");
    assert!(empty.mount_probe(Platform::Windows, None).is_none());
    assert!(!empty.is_mounted(Platform::Windows, None, Some("Z:")));
}

#[test]
fn finished_phase_stays_finished() {
    let c = config("a", "s:/x", "/mnt/a", "");
    let plan = c.mount_plan(Platform::Linux, None).unwrap();
    let over = plan.advance(plan.first_phase(), exited(true, ""));
    assert!(plan.command_for(&over).is_none());
    let still = plan.advance(over, exited(false, "late"));
    assert!(matches!(still, Phase::Over(Ok(()))));
}
