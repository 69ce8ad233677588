//! What it takes, on each platform, to mount a share, unmount it, open it
//! in a file manager and find out whether it is mounted; and the reports
//! the manager gives for several shares at once.
use vstd::prelude::*;
use crate::command::{
    plan_ok, CommandLine, CommandPlan, CommandView, FailureKind, GiveUp, GiveUpView, PlanView,
};
use crate::nfs::{
    error_message, mount_path, opt_view, outcome_view, ConfigView, ErrorView, MountStatus,
    NfsConfig, NfsError, Platform,
};
use crate::text::{occurs, occurs_in, remove_char, replace_char, replaced, views, without};

verus! {

/// A command line from its program and arguments.
pub open spec fn cmd(program: Seq<char>, args: Seq<Seq<char>>) -> CommandView {
    CommandView { program, args }
}

/// An AppleScript that runs `command` in a shell with administrator rights.
pub open spec fn admin_script(command: Seq<char>) -> Seq<char> {
    "do shell script \""@ + command + "\" with administrator privileges"@
}

/// The drive of a Windows mount point: its first character and a colon.
pub open spec fn drive_of(mount_point: Seq<char>) -> Seq<char> {
    seq![mount_point[0]] + ":"@
}

/// The UNC path of a server such as `host:/share`: `\\` followed by the
/// server without colons and with `/` turned into `\`.
pub open spec fn unc_path(server: Seq<char>) -> Seq<char> {
    "\\\\"@ + replaced(without(server, ':'), '/', '\\')
}

/// The error for a Windows configuration without a drive letter.
pub open spec fn no_drive_error() -> ErrorView {
    ErrorView::ConfigError("Invalid mount point"@)
}

/// A plan whose commands run to completion, with no retry.
pub open spec fn waiting_plan(attempts: Seq<CommandView>, failure: FailureKind) -> PlanView {
    PlanView { attempts, waits: true, retry: None, failure, give_up: GiveUpView::Io }
}

/// How a configuration is mounted: with `mount -t nfs` through an
/// administrator AppleScript on macOS, through `pkexec` or else `sudo` on
/// Linux, and with `net use` on a drive letter on Windows.
pub open spec fn mount_plan_of(c: ConfigView, p: Platform, home: Option<Seq<char>>) -> Result<
    PlanView,
    ErrorView,
> {
    let path = mount_path(c, p, home);
    match p {
        Platform::MacOS => Ok(
            waiting_plan(
                seq![
                    cmd(
                        "osascript"@,
                        seq![
                            "-e"@,
                            admin_script(
                                "mount -t nfs -o resvport,"@ + c.options + " "@ + c.server + " "@
                                    + path,
                            ),
                        ],
                    ),
                ],
                FailureKind::Mount,
            ),
        ),
        Platform::Linux => {
            let args = seq!["mount"@, "-t"@, "nfs"@, "-o"@, c.options, c.server, path];
            Ok(waiting_plan(seq![cmd("pkexec"@, args), cmd("sudo"@, args)], FailureKind::Mount))
        },
        Platform::Windows => if c.mount_point.len() == 0 {
            Err(no_drive_error())
        } else {
            Ok(
                waiting_plan(
                    seq![cmd("net"@, seq!["use"@, drive_of(c.mount_point), unc_path(c.server)])],
                    FailureKind::Mount,
                ),
            )
        },
    }
}

/// How a configuration is unmounted: with `diskutil unmount` (forced or not)
/// through an administrator AppleScript on macOS, falling back to
/// `umount -f` when that fails; with `umount` (`-f` when forced) through
/// `pkexec` or else `sudo` on Linux; with `net use ... /delete` on Windows.
pub open spec fn umount_plan_of(
    c: ConfigView,
    p: Platform,
    home: Option<Seq<char>>,
    force: bool,
) -> Result<PlanView, ErrorView> {
    let path = mount_path(c, p, home);
    match p {
        Platform::MacOS => {
            let diskutil = if force {
                "diskutil unmount force "@ + path
            } else {
                "diskutil unmount "@ + path
            };
            Ok(
                PlanView {
                    attempts: seq![cmd("osascript"@, seq!["-e"@, admin_script(diskutil)])],
                    waits: true,
                    retry: Some(cmd("osascript"@, seq!["-e"@, admin_script("umount -f "@ + path)])),
                    failure: FailureKind::Umount,
                    give_up: GiveUpView::Io,
                },
            )
        },
        Platform::Linux => {
            let args = if force {
                seq!["umount"@, "-f"@, path]
            } else {
                seq!["umount"@, path]
            };
            Ok(waiting_plan(seq![cmd("pkexec"@, args), cmd("sudo"@, args)], FailureKind::Umount))
        },
        Platform::Windows => if c.mount_point.len() == 0 {
            Err(no_drive_error())
        } else {
            Ok(
                waiting_plan(
                    seq![cmd("net"@, seq!["use"@, drive_of(c.mount_point), "/delete"@])],
                    FailureKind::Umount,
                ),
            )
        },
    }
}

/// The error for opening a mount point that does not exist.
pub open spec fn missing_mount_point_error(path: Seq<char>) -> ErrorView {
    ErrorView::ConfigError("挂载点不存在: "@ + path)
}

/// How a mounted share is shown in a file manager: with `open` on macOS,
/// `explorer` on Windows, and on Linux with `xdg-open` or else the first
/// of the common file managers that starts.
pub open spec fn open_plan_of(
    c: ConfigView,
    p: Platform,
    home: Option<Seq<char>>,
    exists: bool,
) -> Result<PlanView, ErrorView> {
    let path = mount_path(c, p, home);
    if !exists {
        Err(missing_mount_point_error(path))
    } else {
        let with_cause = GiveUpView::ConfigWithCause("打开文件管理器失败: "@);
        match p {
            Platform::MacOS => Ok(
                PlanView {
                    attempts: seq![cmd("open"@, seq![path])],
                    waits: false,
                    retry: None,
                    failure: FailureKind::Mount,
                    give_up: with_cause,
                },
            ),
            Platform::Linux => Ok(
                PlanView {
                    attempts: seq![
                        cmd("xdg-open"@, seq![path]),
                        cmd("nautilus"@, seq![path]),
                        cmd("dolphin"@, seq![path]),
                        cmd("thunar"@, seq![path]),
                        cmd("nemo"@, seq![path]),
                        cmd("caja"@, seq![path]),
                    ],
                    waits: false,
                    retry: None,
                    failure: FailureKind::Mount,
                    give_up: GiveUpView::Config("未找到可用的文件管理器"@),
                },
            ),
            Platform::Windows => Ok(
                PlanView {
                    attempts: seq![cmd("explorer"@, seq![path])],
                    waits: false,
                    retry: None,
                    failure: FailureKind::Mount,
                    give_up: with_cause,
                },
            ),
        }
    }
}

/// A command whose output lists what is mounted, and the text whose
/// presence in that output means the share is mounted.
pub struct MountProbe {
    pub command: CommandLine,
    pub needle: String,
}

/// How to find out whether a configuration is mounted: its mount path in
/// the output of `mount` on macOS and Linux; its drive in the output of
/// `net use` on Windows, where a configuration without a drive letter is
/// never mounted.
pub open spec fn probe_of(c: ConfigView, p: Platform, home: Option<Seq<char>>) -> Option<
    (CommandView, Seq<char>),
> {
    match p {
        Platform::Windows => if c.mount_point.len() == 0 {
            None
        } else {
            Some((cmd("net"@, seq!["use"@]), drive_of(c.mount_point)))
        },
        _ => Some((cmd("mount"@, Seq::<Seq<char>>::empty()), mount_path(c, p, home))),
    }
}

/// The line of the report for a share that failed: its name, a colon, and
/// the error's message.
pub open spec fn failure_line(name: Seq<char>, e: ErrorView) -> Seq<char> {
    name + ": "@ + error_message(e)
}

/// The report lines of the shares whose operation failed, in order.
pub open spec fn failures(outcomes: Seq<(Seq<char>, Result<(), ErrorView>)>) -> Seq<Seq<char>>
    decreases outcomes.len(),
{
    if outcomes.len() == 0 {
        Seq::<Seq<char>>::empty()
    } else {
        let front = failures(outcomes.drop_last());
        match outcomes.last().1 {
            Ok(()) => front,
            Err(e) => front.push(failure_line(outcomes.last().0, e)),
        }
    }
}

/// Names and results as views.
pub open spec fn outcome_views(v: Seq<(String, Result<(), NfsError>)>) -> Seq<
    (Seq<char>, Result<(), ErrorView>),
> {
    v.map_values(|o: (String, Result<(), NfsError>)| (o.0@, outcome_view(o.1)))
}

/// Every plan for mounting, unmounting or opening a share has a command to
/// try, so carrying it out runs to an end (see `law_plan_runs_to_an_end`);
/// mounting and unmounting wait for their commands, opening does not.
pub proof fn law_plans_have_attempts(
    c: ConfigView,
    p: Platform,
    home: Option<Seq<char>>,
    force: bool,
    exists: bool,
)
    ensures
        mount_plan_of(c, p, home) matches Ok(plan) ==> plan_ok(plan) && plan.waits,
        umount_plan_of(c, p, home, force) matches Ok(plan) ==> plan_ok(plan) && plan.waits,
        open_plan_of(c, p, home, exists) matches Ok(plan) ==> plan_ok(plan) && !plan.waits,
{
}

/// Whether a configuration counts as mounted, given the output `listing` of
/// its probe's command (`None` when that could not be run).
pub open spec fn mounted_in(
    c: ConfigView,
    p: Platform,
    home: Option<Seq<char>>,
    listing: Option<Seq<char>>,
) -> bool {
    match probe_of(c, p, home) {
        Some((_, needle)) => listing is Some && occurs_in(needle, listing->Some_0),
        None => false,
    }
}

/// The text the AppleScript `script` runs ends with `path`.
pub open spec fn script_ends_with_path(script: Seq<char>, path: Seq<char>) -> bool {
    exists|before: Seq<char>| script == before + path + "\" with administrator privileges"@
}

/// Mounting and unmounting act on the directory the share is mounted on:
/// on Linux every mount and unmount command ends with `mount_path`, the
/// same path for both; on macOS the administrator script of the mount
/// command, of the unmount command and of its forced fallback each end with
/// that path; on Windows both name the drive of the mount point.
pub proof fn law_mount_and_umount_target_mount_path(
    c: ConfigView,
    home: Option<Seq<char>>,
    force: bool,
)
    ensures
        mount_plan_of(c, Platform::Linux, home) matches Ok(plan) && plan.attempts.len() == 2
            && forall|i: int|
            0 <= i < plan.attempts.len() ==> #[trigger] plan.attempts[i].args.last() == mount_path(
                c,
                Platform::Linux,
                home,
            ),
        umount_plan_of(c, Platform::Linux, home, force) matches Ok(plan) && plan.attempts.len() == 2
            && forall|i: int|
            0 <= i < plan.attempts.len() ==> #[trigger] plan.attempts[i].args.last() == mount_path(
                c,
                Platform::Linux,
                home,
            ),
        mount_plan_of(c, Platform::MacOS, home) matches Ok(plan) && plan.attempts.len() == 1
            && script_ends_with_path(plan.attempts[0].args[1], mount_path(c, Platform::MacOS, home)),
        umount_plan_of(c, Platform::MacOS, home, force) matches Ok(plan) && plan.attempts.len() == 1
            && script_ends_with_path(plan.attempts[0].args[1], mount_path(c, Platform::MacOS, home))
            && plan.retry is Some && script_ends_with_path(
            plan.retry->Some_0.args[1],
            mount_path(c, Platform::MacOS, home),
        ),
        c.mount_point.len() > 0 ==> (mount_plan_of(c, Platform::Windows, home) matches Ok(plan)
            && plan.attempts[0].args[1] == seq![c.mount_point[0], ':']),
        c.mount_point.len() > 0 ==> (umount_plan_of(c, Platform::Windows, home, force) matches Ok(
            plan,
        ) && plan.attempts[0].args[1] == seq![c.mount_point[0], ':']),
{
    reveal_strlit(":");
    let lp = mount_path(c, Platform::Linux, home);
    let mp = mount_path(c, Platform::MacOS, home);
    let tail = "\" with administrator privileges"@;
    let head = "do shell script \""@;
    let mount_cmd = "mount -t nfs -o resvport,"@ + c.options + " "@ + c.server + " "@ + mp;
    assert(admin_script(mount_cmd) =~= (head + "mount -t nfs -o resvport,"@ + c.options + " "@
        + c.server + " "@) + mp + tail);
    let du = if force {
        "diskutil unmount force "@
    } else {
        "diskutil unmount "@
    };
    assert(admin_script(du + mp) =~= (head + du) + mp + tail);
    assert(admin_script("umount -f "@ + mp) =~= (head + "umount -f "@) + mp + tail);
    assert(drive_of(c.mount_point) =~= seq![c.mount_point[0], ':']) by {
        if c.mount_point.len() > 0 {
            assert(":"@ =~= seq![':']);
        }
    }
}

/// A mount is detected by the mount path: on macOS and Linux a
/// configuration counts as mounted exactly when the listing of `mount` holds
/// the directory it is mounted on; on Windows exactly when its mount point
/// is not empty and the listing of `net use` holds its drive.
pub proof fn law_mounted_when_listed(
    c: ConfigView,
    p: Platform,
    home: Option<Seq<char>>,
    listing: Seq<char>,
)
    ensures
        p != Platform::Windows ==> (mounted_in(c, p, home, Some(listing)) == occurs_in(
            mount_path(c, p, home),
            listing,
        )),
        p != Platform::Windows ==> (probe_of(c, p, home) matches Some((probe, _))
            && probe.program == "mount"@ && probe.args.len() == 0),
        p == Platform::Windows ==> (mounted_in(c, p, home, Some(listing)) == (c.mount_point.len()
            > 0 && occurs_in(seq![c.mount_point[0], ':'], listing))),
        !mounted_in(c, p, home, None),
{
    reveal_strlit(":");
    if c.mount_point.len() > 0 {
        assert(drive_of(c.mount_point) =~= seq![c.mount_point[0], ':']);
    }
}

/// Opening shows the directory the share is mounted on: every command of an
/// open plan takes exactly that path as its one argument, and a missing
/// mount point is reported by that same path.
pub proof fn law_open_targets_mount_path(
    c: ConfigView,
    p: Platform,
    home: Option<Seq<char>>,
    exists: bool,
)
    ensures
        exists ==> (open_plan_of(c, p, home, exists) matches Ok(plan) && plan.attempts.len() >= 1
            && forall|i: int|
            0 <= i < plan.attempts.len() ==> #[trigger] plan.attempts[i].args == seq![
                mount_path(c, p, home),
            ]),
        !exists ==> open_plan_of(c, p, home, exists) == Err::<PlanView, ErrorView>(
            ErrorView::ConfigError("挂载点不存在: "@ + mount_path(c, p, home)),
        ),
{
}

/// The report of several operations lists exactly the failed ones, in order,
/// each as its name, `": "` and the error's message, whatever kind of error
/// it is: the report of a run is the reports of its parts one after the
/// other, a success adds no line, and a failure adds one line.
pub proof fn law_report_lists_every_failure(
    xs: Seq<(Seq<char>, Result<(), ErrorView>)>,
    ys: Seq<(Seq<char>, Result<(), ErrorView>)>,
    name: Seq<char>,
    e: ErrorView,
)
    ensures
        failures(xs + ys) == failures(xs) + failures(ys),
        failures(seq![(name, Ok::<(), ErrorView>(()))]).len() == 0,
        failures(seq![(name, Err::<(), ErrorView>(e))]) == seq![name + ": "@ + error_message(e)],
        failures(Seq::<(Seq<char>, Result<(), ErrorView>)>::empty()).len() == 0,
    decreases ys.len(),
{
    let one_ok = seq![(name, Ok::<(), ErrorView>(()))];
    let one_err = seq![(name, Err::<(), ErrorView>(e))];
    assert(one_ok.drop_last() =~= Seq::<(Seq<char>, Result<(), ErrorView>)>::empty());
    assert(one_err.drop_last() =~= Seq::<(Seq<char>, Result<(), ErrorView>)>::empty());
    assert(one_ok.last() == (name, Ok::<(), ErrorView>(())));
    assert(one_err.last() == (name, Err::<(), ErrorView>(e)));
    assert(failures(Seq::<(Seq<char>, Result<(), ErrorView>)>::empty()) =~= Seq::<Seq<char>>::empty());
    assert(failures(one_ok) =~= Seq::<Seq<char>>::empty());
    assert(failures(one_err) =~= Seq::<Seq<char>>::empty().push(failure_line(name, e)));
    assert(Seq::<Seq<char>>::empty().push(failure_line(name, e)) =~= seq![
        name + ": "@ + error_message(e),
    ]);
    if ys.len() == 0 {
        assert(xs + ys =~= xs);
        assert(failures(xs) + failures(ys) =~= failures(xs));
    } else {
        law_report_lists_every_failure(xs, ys.drop_last(), name, e);
        assert((xs + ys).drop_last() =~= xs + ys.drop_last());
        assert((xs + ys).last() == ys.last());
        match ys.last().1 {
            Ok(()) => {},
            Err(f) => {
                assert(failures(xs) + failures(ys.drop_last()).push(failure_line(ys.last().0, f))
                    =~= (failures(xs) + failures(ys.drop_last())).push(
                    failure_line(ys.last().0, f),
                ));
            },
        }
    }
}

/// On Linux the fallback repeats the first command through `sudo`: a plan
/// first tries `pkexec` and then `sudo`, with the same arguments.  Forcing
/// an unmount only adds `-f` right after `umount`, and mounting passes the
/// options after `-o`, then the server, then the mount path.
pub proof fn law_linux_commands(c: ConfigView, home: Option<Seq<char>>, force: bool)
    ensures
        mount_plan_of(c, Platform::Linux, home) matches Ok(plan) && plan.attempts[0].program
            == "pkexec"@ && plan.attempts[1].program == "sudo"@ && plan.attempts[0].args
            == plan.attempts[1].args && plan.attempts[0].args.len() == 7
            && plan.attempts[0].args[3] == "-o"@ && plan.attempts[0].args[4] == c.options
            && plan.attempts[0].args[5] == c.server,
        umount_plan_of(c, Platform::Linux, home, force) matches Ok(plan) && plan.attempts[0].program
            == "pkexec"@ && plan.attempts[1].program == "sudo"@ && plan.attempts[0].args
            == plan.attempts[1].args,
        ({
            let forced = umount_plan_of(c, Platform::Linux, home, true)->Ok_0.attempts[0].args;
            let plain = umount_plan_of(c, Platform::Linux, home, false)->Ok_0.attempts[0].args;
            forced == seq![plain[0], "-f"@] + plain.subrange(1, plain.len() as int)
        }),
{
    let plain = umount_plan_of(c, Platform::Linux, home, false)->Ok_0.attempts[0].args;
    assert(plain.subrange(1, plain.len() as int) =~= seq![mount_path(c, Platform::Linux, home)]);
    assert(umount_plan_of(c, Platform::Linux, home, true)->Ok_0.attempts[0].args =~= seq![
        plain[0],
        "-f"@,
    ] + plain.subrange(1, plain.len() as int));
}

fn command(program: &str, args: Vec<String>) -> (c: CommandLine)
    ensures
        c@ == cmd(program@, views(args@)),
{
    CommandLine { program: String::from_str(program), args }
}

fn admin(command: &str) -> (s: String)
    ensures
        s@ == admin_script(command@),
{
    String::from_str("do shell script \"").concat(command).concat(
        "\" with administrator privileges",
    )
}

fn drive(mount_point: &str) -> (s: String)
    requires
        mount_point@.len() > 0,
    ensures
        s@ == drive_of(mount_point@),
{
    let first = String::from_str(mount_point.substring_char(0, 1));
    assert(first@ =~= seq![mount_point@[0]]);
    first.concat(":")
}

fn linux_mount_args(c: &NfsConfig, path: &String) -> (v: Vec<String>)
    ensures
        views(v@) == seq!["mount"@, "-t"@, "nfs"@, "-o"@, c.options@, c.server@, path@],
{
    let mut v: Vec<String> = Vec::new();
    v.push(String::from_str("mount"));
    v.push(String::from_str("-t"));
    v.push(String::from_str("nfs"));
    v.push(String::from_str("-o"));
    v.push(c.options.clone());
    v.push(c.server.clone());
    v.push(path.clone());
    assert(views(v@) =~= seq!["mount"@, "-t"@, "nfs"@, "-o"@, c.options@, c.server@, path@]);
    v
}

fn linux_umount_args(path: &String, force: bool) -> (v: Vec<String>)
    ensures
        views(v@) == if force {
            seq!["umount"@, "-f"@, path@]
        } else {
            seq!["umount"@, path@]
        },
{
    let mut v: Vec<String> = Vec::new();
    v.push(String::from_str("umount"));
    if force {
        v.push(String::from_str("-f"));
    }
    v.push(path.clone());
    if force {
        assert(views(v@) =~= seq!["umount"@, "-f"@, path@]);
    } else {
        assert(views(v@) =~= seq!["umount"@, path@]);
    }
    v
}

fn path_arg(path: &String) -> (v: Vec<String>)
    ensures
        views(v@) == seq![path@],
{
    let mut v: Vec<String> = Vec::new();
    v.push(path.clone());
    assert(views(v@) =~= seq![path@]);
    v
}

impl NfsConfig {
    /// The commands that mount this configuration on `platform`, `home`
    /// being the home directory (`None` when `HOME` is not set).
    pub fn mount_plan(&self, platform: Platform, home: Option<&str>) -> (r: Result<
        CommandPlan,
        NfsError,
    >)
        ensures
            match r {
                Ok(plan) => mount_plan_of(self@, platform, opt_view(home)) == Ok::<
                    PlanView,
                    ErrorView,
                >(plan@),
                Err(e) => mount_plan_of(self@, platform, opt_view(home)) == Err::<
                    PlanView,
                    ErrorView,
                >(e@),
            },
    {
        let path = self.get_actual_mount_path(platform, home);
        let mut attempts: Vec<CommandLine> = Vec::new();
        match platform {
            Platform::MacOS => {
                let inner = String::from_str("mount -t nfs -o resvport,").concat(
                    self.options.as_str(),
                ).concat(" ").concat(self.server.as_str()).concat(" ").concat(path.as_str());
                let mut args: Vec<String> = Vec::new();
                args.push(String::from_str("-e"));
                args.push(admin(inner.as_str()));
                assert(views(args@) =~= seq!["-e"@, admin_script(inner@)]);
                attempts.push(command("osascript", args));
                assert(attempts@.map_values(|c: CommandLine| c@) =~= seq![
                    cmd("osascript"@, seq!["-e"@, admin_script(inner@)]),
                ]);
            },
            Platform::Linux => {
                let first = linux_mount_args(self, &path);
                let second = linux_mount_args(self, &path);
                attempts.push(command("pkexec", first));
                attempts.push(command("sudo", second));
                let ghost args = seq!["mount"@, "-t"@, "nfs"@, "-o"@, self.options@, self.server@, path@];
                assert(attempts@.map_values(|c: CommandLine| c@) =~= seq![
                    cmd("pkexec"@, args),
                    cmd("sudo"@, args),
                ]);
            },
            Platform::Windows => {
                if self.mount_point.as_str().unicode_len() == 0 {
                    return Err(NfsError::ConfigError(String::from_str("Invalid mount point")));
                }
                proof {
                    reveal_strlit("\\");
                }
                let unc = String::from_str("\\\\").concat(
                    replace_char(remove_char(self.server.as_str(), ':').as_str(), '/', "\\").as_str(),
                );
                let mut args: Vec<String> = Vec::new();
                args.push(String::from_str("use"));
                args.push(drive(self.mount_point.as_str()));
                args.push(unc);
                let ghost expected = seq!["use"@, drive_of(self.mount_point@), unc_path(self.server@)];
                assert(views(args@) =~= expected);
                attempts.push(command("net", args));
                assert(attempts@.map_values(|c: CommandLine| c@) =~= seq![cmd("net"@, expected)]);
            },
        }
        let plan = CommandPlan {
            attempts,
            waits: true,
            retry: None,
            failure: FailureKind::Mount,
            give_up: GiveUp::Io,
        };
        Ok(plan)
    }

    /// The commands that unmount this configuration on `platform`, forcibly
    /// when `force` holds.
    pub fn umount_plan(&self, platform: Platform, home: Option<&str>, force: bool) -> (r: Result<
        CommandPlan,
        NfsError,
    >)
        ensures
            match r {
                Ok(plan) => umount_plan_of(self@, platform, opt_view(home), force) == Ok::<
                    PlanView,
                    ErrorView,
                >(plan@),
                Err(e) => umount_plan_of(self@, platform, opt_view(home), force) == Err::<
                    PlanView,
                    ErrorView,
                >(e@),
            },
    {
        let path = self.get_actual_mount_path(platform, home);
        let mut attempts: Vec<CommandLine> = Vec::new();
        let mut retry: Option<CommandLine> = None;
        match platform {
            Platform::MacOS => {
                let diskutil = if force {
                    String::from_str("diskutil unmount force ").concat(path.as_str())
                } else {
                    String::from_str("diskutil unmount ").concat(path.as_str())
                };
                let mut args: Vec<String> = Vec::new();
                args.push(String::from_str("-e"));
                args.push(admin(diskutil.as_str()));
                assert(views(args@) =~= seq!["-e"@, admin_script(diskutil@)]);
                attempts.push(command("osascript", args));
                assert(attempts@.map_values(|c: CommandLine| c@) =~= seq![
                    cmd("osascript"@, seq!["-e"@, admin_script(diskutil@)]),
                ]);
                let fallback = String::from_str("umount -f ").concat(path.as_str());
                let mut fallback_args: Vec<String> = Vec::new();
                fallback_args.push(String::from_str("-e"));
                fallback_args.push(admin(fallback.as_str()));
                assert(views(fallback_args@) =~= seq!["-e"@, admin_script(fallback@)]);
                retry = Some(command("osascript", fallback_args));
            },
            Platform::Linux => {
                let first = linux_umount_args(&path, force);
                let second = linux_umount_args(&path, force);
                let ghost args = views(first@);
                attempts.push(command("pkexec", first));
                attempts.push(command("sudo", second));
                assert(attempts@.map_values(|c: CommandLine| c@) =~= seq![
                    cmd("pkexec"@, args),
                    cmd("sudo"@, args),
                ]);
            },
            Platform::Windows => {
                if self.mount_point.as_str().unicode_len() == 0 {
                    return Err(NfsError::ConfigError(String::from_str("Invalid mount point")));
                }
                let mut args: Vec<String> = Vec::new();
                args.push(String::from_str("use"));
                args.push(drive(self.mount_point.as_str()));
                args.push(String::from_str("/delete"));
                let ghost expected = seq!["use"@, drive_of(self.mount_point@), "/delete"@];
                assert(views(args@) =~= expected);
                attempts.push(command("net", args));
                assert(attempts@.map_values(|c: CommandLine| c@) =~= seq![cmd("net"@, expected)]);
            },
        }
        Ok(
            CommandPlan {
                attempts,
                waits: true,
                retry,
                failure: FailureKind::Umount,
                give_up: GiveUp::Io,
            },
        )
    }

    /// The commands that show this configuration's mount point in a file
    /// manager; `exists` tells whether the mount point exists.
    pub fn open_plan(&self, platform: Platform, home: Option<&str>, exists: bool) -> (r: Result<
        CommandPlan,
        NfsError,
    >)
        ensures
            match r {
                Ok(plan) => open_plan_of(self@, platform, opt_view(home), exists) == Ok::<
                    PlanView,
                    ErrorView,
                >(plan@),
                Err(e) => open_plan_of(self@, platform, opt_view(home), exists) == Err::<
                    PlanView,
                    ErrorView,
                >(e@),
            },
    {
        let path = self.get_actual_mount_path(platform, home);
        if !exists {
            return Err(
                NfsError::ConfigError(String::from_str("挂载点不存在: ").concat(path.as_str())),
            );
        }
        let mut attempts: Vec<CommandLine> = Vec::new();
        let give_up = match platform {
            Platform::MacOS => {
                attempts.push(command("open", path_arg(&path)));
                assert(attempts@.map_values(|c: CommandLine| c@) =~= seq![
                    cmd("open"@, seq![path@]),
                ]);
                GiveUp::ConfigWithCause(String::from_str("打开文件管理器失败: "))
            },
            Platform::Linux => {
                attempts.push(command("xdg-open", path_arg(&path)));
                attempts.push(command("nautilus", path_arg(&path)));
                attempts.push(command("dolphin", path_arg(&path)));
                attempts.push(command("thunar", path_arg(&path)));
                attempts.push(command("nemo", path_arg(&path)));
                attempts.push(command("caja", path_arg(&path)));
                assert(attempts@.map_values(|c: CommandLine| c@) =~= seq![
                    cmd("xdg-open"@, seq![path@]),
                    cmd("nautilus"@, seq![path@]),
                    cmd("dolphin"@, seq![path@]),
                    cmd("thunar"@, seq![path@]),
                    cmd("nemo"@, seq![path@]),
                    cmd("caja"@, seq![path@]),
                ]);
                GiveUp::Config(String::from_str("未找到可用的文件管理器"))
            },
            Platform::Windows => {
                attempts.push(command("explorer", path_arg(&path)));
                assert(attempts@.map_values(|c: CommandLine| c@) =~= seq![
                    cmd("explorer"@, seq![path@]),
                ]);
                GiveUp::ConfigWithCause(String::from_str("打开文件管理器失败: "))
            },
        };
        Ok(
            CommandPlan {
                attempts,
                waits: false,
                retry: None,
                failure: FailureKind::Mount,
                give_up,
            },
        )
    }

    /// How to find out whether this configuration is mounted; `None` when it
    /// cannot be (a Windows configuration without a drive letter).
    pub fn mount_probe(&self, platform: Platform, home: Option<&str>) -> (r: Option<MountProbe>)
        ensures
            match r {
                Some(probe) => probe_of(self@, platform, opt_view(home)) == Some(
                    (probe.command@, probe.needle@),
                ),
                None => probe_of(self@, platform, opt_view(home)) is None,
            },
    {
        match platform {
            Platform::Windows => {
                if self.mount_point.as_str().unicode_len() == 0 {
                    return None;
                }
                let mut args: Vec<String> = Vec::new();
                args.push(String::from_str("use"));
                assert(views(args@) =~= seq!["use"@]);
                Some(
                    MountProbe {
                        command: command("net", args),
                        needle: drive(self.mount_point.as_str()),
                    },
                )
            },
            _ => {
                let args: Vec<String> = Vec::new();
                assert(views(args@) =~= Seq::<Seq<char>>::empty());
                Some(
                    MountProbe {
                        command: command("mount", args),
                        needle: self.get_actual_mount_path(platform, home),
                    },
                )
            },
        }
    }

    /// Whether this configuration is mounted, as `is_mounted` reports it,
    /// given `listing`, the output of the probe's command (`None` when the
    /// command could not be run); without a probe it is not mounted.
    pub fn is_mounted(&self, platform: Platform, home: Option<&str>, listing: Option<&str>) -> (b: bool)
        ensures
            b == match probe_of(self@, platform, opt_view(home)) {
                Some((_, needle)) => listing is Some && occurs_in(needle, listing->Some_0@),
                None => false,
            },
            b == mounted_in(self@, platform, opt_view(home), opt_view(listing)),
    {
        match self.mount_probe(platform, home) {
            Some(probe) => probe.is_listed(listing),
            None => false,
        }
    }
}

impl MountProbe {
    /// Whether the probe's text occurs in `listing`, the output of its
    /// command (`None` when the command could not be run).
    pub fn is_listed(&self, listing: Option<&str>) -> (b: bool)
        ensures
            b == (listing is Some && occurs_in(self.needle@, listing->Some_0@)),
    {
        match listing {
            Some(text) => occurs(self.needle.as_str(), text),
            None => false,
        }
    }
}

impl MountStatus {
    /// The status shown for `config`: its name, whether it is mounted, its
    /// mount point, and the path it is mounted on.
    pub fn of(config: &NfsConfig, mounted: bool, platform: Platform, home: Option<&str>) -> (s: MountStatus)
        ensures
            s.name@ == config.name@,
            s.mounted == mounted,
            s.mount_point@ == config.mount_point@,
            s.actual_path@ == mount_path(config@, platform, opt_view(home)),
    {
        MountStatus {
            name: config.name.clone(),
            mounted,
            mount_point: config.mount_point.clone(),
            actual_path: config.get_actual_mount_path(platform, home),
        }
    }
}

/// The report of an operation on several shares: one line
/// `name: message` for each share whose operation failed, in order; empty
/// when all succeeded.
pub fn failure_report(outcomes: &Vec<(String, Result<(), NfsError>)>) -> (r: Vec<String>)
    ensures
        views(r@) == failures(outcome_views(outcomes@)),
{
    let mut lines: Vec<String> = Vec::new();
    let mut i: usize = 0;
    while i < outcomes.len()
        invariant
            i <= outcomes.len(),
            views(lines@) == failures(outcome_views(outcomes@).take(i as int)),
        decreases outcomes.len() - i,
    {
        let ghost prev = views(lines@);
        let ghost upto = outcome_views(outcomes@).take(i + 1);
        assert(upto.drop_last() =~= outcome_views(outcomes@).take(i as int));
        assert(upto.last() == (outcomes@[i as int].0@, outcome_view(outcomes@[i as int].1)));
        match &outcomes[i].1 {
            Ok(()) => {},
            Err(e) => {
                let line = outcomes[i].0.clone().concat(": ").concat(e.message().as_str());
                lines.push(line);
                assert(views(lines@) =~= prev.push(line@));
            },
        }
        i = i + 1;
    }
    assert(outcome_views(outcomes@).take(outcomes.len() as int) =~= outcome_views(outcomes@));
    lines
}


} // verus!
