//! NFS configurations: the line format they are stored in, where each one is
//! mounted on each platform, and the errors the manager reports.
use vstd::prelude::*;
use crate::text::{
    chars_of, free_of, is_trimmed, join, join_strings, law_split_after_join, lemma_trim_trimmed, split,
    split_string, trim, trim_string, views,
};

verus! {

/// The operating systems the manager knows how to drive.
#[derive(Clone, Copy, Debug, PartialEq, Eq, Structural)]
pub enum Platform {
    MacOS,
    Linux,
    Windows,
}

/// The platform named by `os`, in the spelling of `std::env::consts::OS`;
/// `None` for a system the manager does not support.
pub open spec fn platform_named(os: Seq<char>) -> Option<Platform> {
    if os == "macos"@ {
        Some(Platform::MacOS)
    } else if os == "linux"@ {
        Some(Platform::Linux)
    } else if os == "windows"@ {
        Some(Platform::Windows)
    } else {
        None
    }
}

impl Platform {
    /// The platform the program was built for, given the target's operating
    /// system name (`std::env::consts::OS`).
    pub fn current(os: &str) -> (p: Option<Platform>)
        ensures
            p == platform_named(os@),
    {
        let os = String::from_str(os);
        if os == String::from_str("macos") {
            Some(Platform::MacOS)
        } else if os == String::from_str("linux") {
            Some(Platform::Linux)
        } else if os == String::from_str("windows") {
            Some(Platform::Windows)
        } else {
            None
        }
    }
}

/// What went wrong; each variant carries its explanation.
#[derive(Debug)]
pub enum NfsError {
    /// A file or process could not be read, written or started.
    Io(String),
    MountFailed(String),
    UmountFailed(String),
    ConfigError(String),
}

/// An error as its kind and its explanation.
pub enum ErrorView {
    Io(Seq<char>),
    MountFailed(Seq<char>),
    UmountFailed(Seq<char>),
    ConfigError(Seq<char>),
}

impl View for NfsError {
    type V = ErrorView;

    open spec fn view(&self) -> ErrorView {
        match self {
            NfsError::Io(s) => ErrorView::Io(s@),
            NfsError::MountFailed(s) => ErrorView::MountFailed(s@),
            NfsError::UmountFailed(s) => ErrorView::UmountFailed(s@),
            NfsError::ConfigError(s) => ErrorView::ConfigError(s@),
        }
    }
}

/// The text shown to the user for an error.
pub open spec fn error_message(e: ErrorView) -> Seq<char> {
    match e {
        ErrorView::Io(s) => "IO error: "@ + s,
        ErrorView::MountFailed(s) => "Mount failed: "@ + s,
        ErrorView::UmountFailed(s) => "Umount failed: "@ + s,
        ErrorView::ConfigError(s) => "Config error: "@ + s,
    }
}

/// A result without a value, seen through the error's view.
pub open spec fn outcome_view(r: Result<(), NfsError>) -> Result<(), ErrorView> {
    match r {
        Ok(()) => Ok(()),
        Err(e) => Err(e@),
    }
}

impl NfsError {
    /// The text shown to the user for this error.
    pub fn message(&self) -> (m: String)
        ensures
            m@ == error_message(self@),
    {
        match self {
            NfsError::Io(s) => String::from_str("IO error: ").concat(s.as_str()),
            NfsError::MountFailed(s) => String::from_str("Mount failed: ").concat(s.as_str()),
            NfsError::UmountFailed(s) => String::from_str("Umount failed: ").concat(s.as_str()),
            NfsError::ConfigError(s) => String::from_str("Config error: ").concat(s.as_str()),
        }
    }
}

/// One NFS share: what to mount, where, and with which options.
#[derive(Clone, Debug)]
pub struct NfsConfig {
    pub name: String,
    pub server: String,
    pub mount_point: String,
    pub options: String,
}

/// The four fields of a configuration as character sequences.
pub struct ConfigView {
    pub name: Seq<char>,
    pub server: Seq<char>,
    pub mount_point: Seq<char>,
    pub options: Seq<char>,
}

impl View for NfsConfig {
    type V = ConfigView;

    open spec fn view(&self) -> ConfigView {
        ConfigView {
            name: self.name@,
            server: self.server@,
            mount_point: self.mount_point@,
            options: self.options@,
        }
    }
}

/// A configuration as it is shown, with its mount state.
#[derive(Clone, Debug)]
pub struct MountStatus {
    pub name: String,
    pub mounted: bool,
    pub mount_point: String,
    pub actual_path: String,
}

/// The error for a line that is not four `|`-separated fields.
pub open spec fn invalid_line(line: Seq<char>) -> ErrorView {
    ErrorView::ConfigError("Invalid config line: "@ + line)
}

/// A configuration read from one line `name|server|mount_point|options`:
/// exactly four fields, each with white space trimmed at both ends.
pub open spec fn parse_line(line: Seq<char>) -> Result<ConfigView, ErrorView> {
    let parts = split(line, '|');
    if parts.len() != 4 {
        Err(invalid_line(line))
    } else {
        Ok(
            ConfigView {
                name: trim(parts[0]),
                server: trim(parts[1]),
                mount_point: trim(parts[2]),
                options: trim(parts[3]),
            },
        )
    }
}

/// The line `name|server|mount_point|options` of a configuration.
pub open spec fn render_line(c: ConfigView) -> Seq<char> {
    join(seq![c.name, c.server, c.mount_point, c.options], '|')
}

/// A field that a line keeps intact: no `|`, no line break, nothing to trim.
pub open spec fn field_ok(s: Seq<char>) -> bool {
    free_of(s, '|') && free_of(s, '\n') && is_trimmed(s)
}

/// A configuration whose line reads back as itself.
pub open spec fn config_ok(c: ConfigView) -> bool {
    &&& field_ok(c.name)
    &&& field_ok(c.server)
    &&& field_ok(c.mount_point)
    &&& field_ok(c.options)
}

/// No field of the configuration holds a `|`.
pub open spec fn bar_free(c: ConfigView) -> bool {
    &&& free_of(c.name, '|')
    &&& free_of(c.server, '|')
    &&& free_of(c.mount_point, '|')
    &&& free_of(c.options, '|')
}

/// The configuration as its line reads back: each field trimmed.
pub open spec fn read_back(c: ConfigView) -> ConfigView {
    ConfigView {
        name: trim(c.name),
        server: trim(c.server),
        mount_point: trim(c.mount_point),
        options: trim(c.options),
    }
}

/// The home directory, or `/tmp` when `HOME` is not set.
pub open spec fn home_or_tmp(home: Option<Seq<char>>) -> Seq<char> {
    match home {
        Some(h) => h,
        None => "/tmp"@,
    }
}

/// A `&str` option as an option of character sequences.
pub open spec fn opt_view(o: Option<&str>) -> Option<Seq<char>> {
    match o {
        Some(s) => Some(s@),
        None => None,
    }
}

/// Whether `c` separates path components on platform `p`.
pub open spec fn is_separator(p: Platform, c: char) -> bool {
    c == '/' || (p == Platform::Windows && c == '\\')
}

/// The separator that joining puts between path components on `p`.
pub open spec fn main_separator(p: Platform) -> char {
    if p == Platform::Windows {
        '\\'
    } else {
        '/'
    }
}

/// A bare Windows drive such as `C:`.
pub open spec fn is_drive(s: Seq<char>) -> bool {
    &&& s.len() == 2
    &&& s[1] == ':'
    &&& (('a' as u32) <= (s[0] as u32) <= ('z' as u32) || ('A' as u32) <= (s[0] as u32) <= (
    'Z' as u32))
}

/// The relative path `part` appended to `base` on platform `p`, as
/// `Path::join` does it: a separator goes between them unless `base` is
/// empty, already ends in a separator, or is a bare Windows drive.
pub open spec fn joined(p: Platform, base: Seq<char>, part: Seq<char>) -> Seq<char> {
    if base.len() > 0 && !is_separator(p, base.last()) && !(p == Platform::Windows && is_drive(
        base,
    )) {
        base.push(main_separator(p)) + part
    } else {
        base + part
    }
}

/// Where a configuration is mounted on platform `p`: on macOS and Linux an
/// absolute mount point as it is and a relative one under `~/nfs-mounts`;
/// on Windows the mount point (a drive letter) itself.
pub open spec fn mount_path(c: ConfigView, p: Platform, home: Option<Seq<char>>) -> Seq<char> {
    if p == Platform::Windows || (c.mount_point.len() > 0 && c.mount_point[0] == '/') {
        c.mount_point
    } else {
        joined(p, joined(p, home_or_tmp(home), "nfs-mounts"@), c.mount_point)
    }
}

/// The line of a configuration, spelled out.
pub(crate) proof fn lemma_render_line_shape(c: ConfigView)
    ensures
        render_line(c) == c.name.push('|') + c.server.push('|') + c.mount_point.push('|')
            + c.options,
{
    let p4 = seq![c.name, c.server, c.mount_point, c.options];
    let p3 = seq![c.name, c.server, c.mount_point];
    let p2 = seq![c.name, c.server];
    let p1 = seq![c.name];
    assert(p4.drop_last() =~= p3);
    assert(p3.drop_last() =~= p2);
    assert(p2.drop_last() =~= p1);
    assert(join(p1, '|') == c.name);
    assert(join(p2, '|') == c.name.push('|') + c.server);
    assert(join(p3, '|') == (c.name.push('|') + c.server).push('|') + c.mount_point);
    assert(join(p4, '|') == ((c.name.push('|') + c.server).push('|') + c.mount_point).push('|')
        + c.options);
    assert(render_line(c) =~= c.name.push('|') + c.server.push('|') + c.mount_point.push('|')
        + c.options);
}

/// Reading a configuration's line back gives its fields with white space
/// trimmed, as long as no field holds a `|`; a configuration whose fields
/// have nothing to trim comes back unchanged.
pub proof fn law_line_round_trip(c: ConfigView)
    requires
        bar_free(c),
    ensures
        parse_line(render_line(c)) == Ok::<ConfigView, ErrorView>(read_back(c)),
        config_ok(c) ==> read_back(c) == c,
{
    let parts = seq![c.name, c.server, c.mount_point, c.options];
    assert forall|k: int| 0 <= k < parts.len() implies free_of(#[trigger] parts[k], '|') by {}
    law_split_after_join(parts, '|');
    if config_ok(c) {
        lemma_trim_trimmed(c.name);
        lemma_trim_trimmed(c.server);
        lemma_trim_trimmed(c.mount_point);
        lemma_trim_trimmed(c.options);
    }
}

/// On macOS and Linux, a mount point that starts with `/` is used as it is,
/// and any other goes under `nfs-mounts` in the home directory: for a home
/// such as `/home/me`, mount point `data` is mounted on
/// `/home/me/nfs-mounts/data`; with `HOME` unset, on `/tmp/nfs-mounts/data`.
pub proof fn law_mount_path_layout(c: ConfigView, p: Platform, home: Seq<char>)
    requires
        p != Platform::Windows,
        home.len() > 0,
        home.last() != '/',
    ensures
        c.mount_point.len() > 0 && c.mount_point[0] == '/' ==> mount_path(c, p, Some(home))
            == c.mount_point,
        !(c.mount_point.len() > 0 && c.mount_point[0] == '/') ==> mount_path(c, p, Some(home))
            == home + "/nfs-mounts/"@ + c.mount_point,
        !(c.mount_point.len() > 0 && c.mount_point[0] == '/') ==> mount_path(c, p, None)
            == "/tmp/nfs-mounts/"@ + c.mount_point,
{
    reveal_strlit("nfs-mounts");
    reveal_strlit("/nfs-mounts/");
    reveal_strlit("/tmp/nfs-mounts/");
    reveal_strlit("/tmp");
    let mounts = joined(p, home, "nfs-mounts"@);
    assert(mounts == home.push('/') + "nfs-mounts"@);
    assert(mounts.last() == 's');
    assert(home.push('/') + "nfs-mounts"@ + "/"@ =~= home + "/nfs-mounts/"@) by {
        reveal_strlit("/");
    }
    if !(c.mount_point.len() > 0 && c.mount_point[0] == '/') {
        assert(joined(p, mounts, c.mount_point) =~= home + "/nfs-mounts/"@ + c.mount_point);
        let tmp = joined(p, "/tmp"@, "nfs-mounts"@);
        assert(tmp =~= "/tmp/nfs-mounts"@) by {
            reveal_strlit("/tmp/nfs-mounts");
        }
        assert(joined(p, tmp, c.mount_point) =~= "/tmp/nfs-mounts/"@ + c.mount_point);
    }
}

/// `part` appended to `base` as a path on platform `p`.
pub fn join_path(p: Platform, base: &str, part: &str) -> (r: String)
    ensures
        r@ == joined(p, base@, part@),
{
    let v = chars_of(base);
    let n = v.len();
    let need_sep = if n == 0 {
        false
    } else {
        let last = v[n - 1];
        let ends_in_separator = last == '/' || (p == Platform::Windows && last == '\\');
        let c0 = v[0] as u32;
        let drive = p == Platform::Windows && n == 2 && v[1] == ':' && ((('a' as u32) <= c0 && c0
            <= ('z' as u32)) || (('A' as u32) <= c0 && c0 <= ('Z' as u32)));
        !ends_in_separator && !drive
    };
    let mut r = String::from_str(base);
    if need_sep {
        let sep = if p == Platform::Windows {
            "\\"
        } else {
            "/"
        };
        proof {
            reveal_strlit("\\");
            reveal_strlit("/");
        }
        r.append(sep);
        assert(base@ + sep@ =~= base@.push(main_separator(p)));
    }
    r.append(part);
    assert(n > 0 ==> v@[n - 1] == base@.last());
    assert(need_sep == (base@.len() > 0 && !is_separator(p, base@.last()) && !(p
        == Platform::Windows && is_drive(base@))));
    r
}

impl NfsConfig {
    /// Reads a configuration from a line `name|server|mount_point|options`.
    pub fn from_line(line: &str) -> (r: Result<NfsConfig, NfsError>)
        ensures
            match r {
                Ok(c) => parse_line(line@) == Ok::<ConfigView, ErrorView>(c@),
                Err(e) => parse_line(line@) == Err::<ConfigView, ErrorView>(e@),
            },
    {
        let parts = split_string(line, '|');
        if parts.len() != 4 {
            return Err(
                NfsError::ConfigError(String::from_str("Invalid config line: ").concat(line)),
            );
        }
        let c = NfsConfig {
            name: trim_string(parts[0].as_str()),
            server: trim_string(parts[1].as_str()),
            mount_point: trim_string(parts[2].as_str()),
            options: trim_string(parts[3].as_str()),
        };
        assert(views(parts@)[0] == parts@[0]@);
        assert(views(parts@)[1] == parts@[1]@);
        assert(views(parts@)[2] == parts@[2]@);
        assert(views(parts@)[3] == parts@[3]@);
        Ok(c)
    }

    /// The line `name|server|mount_point|options` that stores this configuration.
    pub fn to_line(&self) -> (r: String)
        ensures
            r@ == render_line(self@),
    {
        let mut parts: Vec<String> = Vec::new();
        parts.push(self.name.clone());
        parts.push(self.server.clone());
        parts.push(self.mount_point.clone());
        parts.push(self.options.clone());
        proof {
            reveal_strlit("|");
        }
        let r = join_strings(&parts, "|");
        assert(views(parts@) =~= seq![self.name@, self.server@, self.mount_point@, self.options@]);
        r
    }

    /// The directory (or, on Windows, the drive) this configuration is mounted on.
    pub fn get_actual_mount_path(&self, platform: Platform, home: Option<&str>) -> (r: String)
        ensures
            r@ == mount_path(self@, platform, opt_view(home)),
    {
        let absolute = self.mount_point.as_str().unicode_len() > 0
            && self.mount_point.as_str().get_char(0) == '/';
        if platform == Platform::Windows || absolute {
            self.mount_point.clone()
        } else {
            let base = match home {
                Some(h) => String::from_str(h),
                None => String::from_str("/tmp"),
            };
            let mounts = join_path(platform, base.as_str(), "nfs-mounts");
            join_path(platform, mounts.as_str(), self.mount_point.as_str())
        }
    }
}

} // verus!
