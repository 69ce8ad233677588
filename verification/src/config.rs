//! The configuration file `~/.nfs-manager.conf`: one share per line in the
//! form `name|server|mount_point|options`, blank lines and lines that start
//! with `#` ignored.  The manager holds the file's path and its text; the
//! program around it reads the text in before an operation and writes it
//! back after one that changes it.
use vstd::prelude::*;
use crate::nfs::{
    bar_free, config_ok, join_path, read_back, joined, law_line_round_trip, lemma_render_line_shape, parse_line,
    render_line, ConfigView, ErrorView, NfsConfig, NfsError, Platform,
};
use crate::text::{
    all_white, free_of, is_trimmed, join, join_strings, law_split_after_join, lemma_join_free,
    lemma_split_first_prefix, lemma_split_nonempty, lemma_split_pieces, lemma_trim_bounds,
    lemma_trim_frame, lemma_trim_result, lemma_trim_trimmed, split, split_string, trim,
    trim_string, views,
};

verus! {

/// The configurations of a list, in order.
pub open spec fn config_views(v: Seq<NfsConfig>) -> Seq<ConfigView> {
    v.map_values(|c: NfsConfig| c@)
}

/// A trimmed line that holds no configuration: empty, or a comment.
pub open spec fn is_skipped(t: Seq<char>) -> bool {
    t.len() == 0 || t[0] == '#'
}

/// The configurations held by `lines`, or the error of the first line that
/// is neither blank, a comment, nor a valid configuration.
pub open spec fn parse_lines(lines: Seq<Seq<char>>) -> Result<Seq<ConfigView>, ErrorView>
    decreases lines.len(),
{
    if lines.len() == 0 {
        Ok(Seq::<ConfigView>::empty())
    } else {
        match parse_lines(lines.drop_last()) {
            Err(e) => Err(e),
            Ok(cs) => {
                let t = trim(lines.last());
                if is_skipped(t) {
                    Ok(cs)
                } else {
                    match parse_line(t) {
                        Ok(c) => Ok(cs.push(c)),
                        Err(e) => Err(e),
                    }
                }
            },
        }
    }
}

/// The configurations stored in the text of a configuration file.
pub open spec fn parse_content(text: Seq<char>) -> Result<Seq<ConfigView>, ErrorView> {
    parse_lines(split(text, '\n'))
}

/// The lines of a list of configurations.
pub open spec fn rendered_lines(cs: Seq<ConfigView>) -> Seq<Seq<char>> {
    cs.map_values(|c: ConfigView| render_line(c))
}

/// The text of a configuration file that stores `cs`: their lines joined by
/// line breaks, with no line break after the last.
pub open spec fn render_content(cs: Seq<ConfigView>) -> Seq<char> {
    join(rendered_lines(cs), '\n')
}

/// Whether some configuration of `cs` is called `name`.
pub open spec fn has_name(cs: Seq<ConfigView>, name: Seq<char>) -> bool {
    exists|i: int| 0 <= i < cs.len() && #[trigger] cs[i].name == name
}

/// The first configuration of `cs` called `name`.
pub open spec fn lookup(cs: Seq<ConfigView>, name: Seq<char>) -> Option<ConfigView>
    decreases cs.len(),
{
    if cs.len() == 0 {
        None
    } else if cs[0].name == name {
        Some(cs[0])
    } else {
        lookup(cs.drop_first(), name)
    }
}

/// `cs` without the configurations called `name`, the others in order.
pub open spec fn drop_named(cs: Seq<ConfigView>, name: Seq<char>) -> Seq<ConfigView>
    decreases cs.len(),
{
    if cs.len() == 0 {
        cs
    } else if cs.last().name == name {
        drop_named(cs.drop_last(), name)
    } else {
        drop_named(cs.drop_last(), name).push(cs.last())
    }
}

/// The error for adding a configuration whose name is taken.
pub open spec fn duplicate_error(name: Seq<char>) -> ErrorView {
    ErrorView::ConfigError("Config with name '"@ + name + "' already exists"@)
}

/// The error for asking for a configuration that is not there.
pub open spec fn missing_error(name: Seq<char>) -> ErrorView {
    ErrorView::ConfigError("Config '"@ + name + "' not found"@)
}

/// The error when the home directory is unknown.
pub open spec fn no_home_error() -> ErrorView {
    ErrorView::ConfigError("HOME not set"@)
}

/// The manager's file: where it is and what it holds.
pub struct ConfigFileView {
    pub path: Seq<char>,
    pub text: Seq<char>,
}

/// The configuration file: its path, and its text as last read or written.
pub struct ConfigManager {
    config_path: String,
    text: String,
}

impl View for ConfigManager {
    type V = ConfigFileView;

    closed spec fn view(&self) -> ConfigFileView {
        ConfigFileView { path: self.config_path@, text: self.text@ }
    }
}

/// The configurations read by `parse_content`, as the manager returns them.
pub open spec fn loaded(
    r: Result<Vec<NfsConfig>, NfsError>,
    expected: Result<Seq<ConfigView>, ErrorView>,
) -> bool {
    match r {
        Ok(v) => expected == Ok::<Seq<ConfigView>, ErrorView>(config_views(v@)),
        Err(e) => expected == Err::<Seq<ConfigView>, ErrorView>(e@),
    }
}

/// An error on some line is the error of the whole text: later lines do
/// not change it.
proof fn lemma_parse_error_persists(lines: Seq<Seq<char>>, k: int)
    requires
        0 <= k <= lines.len(),
        parse_lines(lines.take(k)) is Err,
    ensures
        parse_lines(lines) == parse_lines(lines.take(k)),
    decreases lines.len() - k,
{
    if k < lines.len() {
        let longer = lines.take(k + 1);
        assert(longer.drop_last() =~= lines.take(k));
        lemma_parse_error_persists(lines, k + 1);
    } else {
        assert(lines.take(k) =~= lines);
    }
}

fn render_configs(configs: &[NfsConfig]) -> (r: String)
    ensures
        r@ == render_content(config_views(configs@)),
{
    let mut lines: Vec<String> = Vec::new();
    let mut i: usize = 0;
    while i < configs.len()
        invariant
            i <= configs.len(),
            views(lines@) == rendered_lines(config_views(configs@)).take(i as int),
        decreases configs.len() - i,
    {
        let ghost prev = views(lines@);
        let line = configs[i].to_line();
        lines.push(line);
        assert(views(lines@) =~= prev.push(line@));
        assert(views(lines@) =~= rendered_lines(config_views(configs@)).take(i + 1));
        i = i + 1;
    }
    assert(rendered_lines(config_views(configs@)).take(configs.len() as int) =~= rendered_lines(
        config_views(configs@),
    ));
    proof {
        reveal_strlit("\n");
    }
    join_strings(&lines, "\n")
}

fn parse_configs(text: &str) -> (r: Result<Vec<NfsConfig>, NfsError>)
    ensures
        loaded(r, parse_content(text@)),
{
    let lines = split_string(text, '\n');
    let mut configs: Vec<NfsConfig> = Vec::new();
    let mut i: usize = 0;
    assert(views(lines@).take(0) =~= Seq::<Seq<char>>::empty());
    assert(config_views(configs@) =~= Seq::<ConfigView>::empty());
    while i < lines.len()
        invariant
            i <= lines.len(),
            views(lines@) == split(text@, '\n'),
            parse_lines(views(lines@).take(i as int)) == Ok::<Seq<ConfigView>, ErrorView>(
                config_views(configs@),
            ),
        decreases lines.len() - i,
    {
        let ghost prefix = views(lines@).take(i + 1);
        assert(prefix.drop_last() =~= views(lines@).take(i as int));
        assert(prefix.last() == lines@[i as int]@);
        let ghost prev = config_views(configs@);
        let t = trim_string(lines[i].as_str());
        let skip = t.as_str().is_empty() || t.as_str().get_char(0) == '#';
        if !skip {
            match NfsConfig::from_line(t.as_str()) {
                Ok(c) => {
                    configs.push(c);
                    assert(config_views(configs@) =~= prev.push(c@));
                },
                Err(e) => {
                    proof {
                        lemma_parse_error_persists(views(lines@), i + 1);
                    }
                    return Err(e);
                },
            }
        }
        i = i + 1;
    }
    assert(views(lines@).take(lines.len() as int) =~= views(lines@));
    Ok(configs)
}

impl ConfigManager {
    /// The manager of `.nfs-manager.conf` in the home directory `home`
    /// (`None` when `HOME` is not set), with its text not read yet (empty).
    pub fn new(home: Option<&str>, platform: Platform) -> (r: Result<ConfigManager, NfsError>)
        ensures
            match home {
                None => r matches Err(e) && e@ == no_home_error(),
                Some(h) => r matches Ok(m) && m@.path == joined(
                    platform,
                    h@,
                    ".nfs-manager.conf"@,
                ) && m@.text.len() == 0,
            },
    {
        match home {
            None => Err(NfsError::ConfigError(String::from_str("HOME not set"))),
            Some(h) => Ok(
                ConfigManager {
                    config_path: join_path(platform, h, ".nfs-manager.conf"),
                    text: String::new(),
                },
            ),
        }
    }

    /// Where the configuration file is.
    pub fn config_path(&self) -> (r: &str)
        ensures
            r@ == self@.path,
    {
        self.config_path.as_str()
    }

    /// The file's text as the manager holds it, to be written back.
    pub fn text(&self) -> (r: &str)
        ensures
            r@ == self@.text,
    {
        self.text.as_str()
    }

    /// Takes the text just read from the file.
    pub fn set_text(&mut self, text: String)
        ensures
            final(self)@.path == old(self)@.path,
            final(self)@.text == text@,
    {
        self.text = text;
    }

    /// The configurations the file holds, in order; the error of the first
    /// line that is neither blank, a comment, nor a valid configuration.
    pub fn load_configs(&self) -> (r: Result<Vec<NfsConfig>, NfsError>)
        ensures
            loaded(r, parse_content(self@.text)),
    {
        parse_configs(self.text.as_str())
    }

    /// Replaces the file's text with the lines of `configs`, one per line.
    pub fn save_configs(&mut self, configs: &[NfsConfig])
        ensures
            final(self)@.path == old(self)@.path,
            final(self)@.text == render_content(config_views(configs@)),
    {
        self.text = render_configs(configs);
    }

    /// Appends `config` to the file, unless the file already holds a
    /// configuration of the name `config` will be read back with (its name
    /// trimmed); the text stays as it was on an error.  When the names in
    /// the file were unique and the file can read `config` back, they stay
    /// unique, whatever the result.
    pub fn add_config(&mut self, config: NfsConfig) -> (r: Result<(), NfsError>)
        ensures
            final(self)@.path == old(self)@.path,
            match parse_content(old(self)@.text) {
                Err(e) => r matches Err(f) && f@ == e && final(self)@ == old(self)@,
                Ok(cs) => if has_name(cs, trim(config@.name)) {
                    r matches Err(f) && f@ == duplicate_error(config@.name) && final(self)@
                        == old(self)@
                } else {
                    &&& r is Ok
                    &&& final(self)@.text == render_content(cs.push(config@))
                    &&& storable(config@) ==> parse_content(final(self)@.text) == Ok::<
                        Seq<ConfigView>,
                        ErrorView,
                    >(cs.push(read_back(config@)))
                },
            },
            parse_content(old(self)@.text) matches Ok(cs) ==> (names_unique(cs) && storable(config@)
                ==> (parse_content(final(self)@.text) matches Ok(cs2) && names_unique(cs2))),
    {
        let mut configs = match self.load_configs() {
            Ok(v) => v,
            Err(e) => return Err(e),
        };
        let ghost cs = config_views(configs@);
        let key = trim_string(config.name.as_str());
        let mut i: usize = 0;
        while i < configs.len()
            invariant
                i <= configs.len(),
                cs == config_views(configs@),
                parse_content(self@.text) == Ok::<Seq<ConfigView>, ErrorView>(cs),
                self@ == old(self)@,
                key@ == trim(config.name@),
                forall|k: int| 0 <= k < i ==> configs@[k].name@ != key@,
            decreases configs.len() - i,
        {
            if configs[i].name == key {
                let msg = String::from_str("Config with name '").concat(config.name.as_str()).concat(
                    "' already exists",
                );
                assert(config_views(configs@)[i as int].name == key@);
                return Err(NfsError::ConfigError(msg));
            }
            i = i + 1;
        }
        assert(!has_name(cs, key@)) by {
            assert forall|k: int| 0 <= k < configs@.len() implies #[trigger] config_views(
                configs@,
            )[k].name != key@ by {
                assert(configs@[k].name@ != key@);
            }
        }
        let ghost added = config@;
        let ghost before = config_views(configs@);
        configs.push(config);
        assert(config_views(configs@) =~= before.push(configs@.last()@));
        self.save_configs(configs.as_slice());
        proof {
            if storable(added) {
                law_added_config_is_found(old(self)@.text, added);
                if names_unique(cs) {
                    lemma_unique_after_push(cs, read_back(added));
                }
            }
        }
        Ok(())
    }

    /// Drops every configuration called `name` from the file (rewriting it
    /// even when there is none); the text stays as it was on an error.
    pub fn remove_config(&mut self, name: &str) -> (r: Result<(), NfsError>)
        ensures
            final(self)@.path == old(self)@.path,
            match parse_content(old(self)@.text) {
                Err(e) => r matches Err(f) && f@ == e && final(self)@ == old(self)@,
                Ok(cs) => r is Ok && final(self)@.text == render_content(drop_named(cs, name@)),
            },
    {
        let mut configs = match self.load_configs() {
            Ok(v) => v,
            Err(e) => return Err(e),
        };
        let ghost all = config_views(configs@);
        let name = String::from_str(name);
        let mut kept: Vec<NfsConfig> = Vec::new();
        let n = configs.len();
        let mut k: usize = 0;
        assert(all.take(0) =~= Seq::<ConfigView>::empty());
        assert(config_views(kept@) =~= Seq::<ConfigView>::empty());
        while configs.len() > 0
            invariant
                k + configs.len() == n,
                n == all.len(),
                parse_content(self@.text) == Ok::<Seq<ConfigView>, ErrorView>(all),
                self@ == old(self)@,
                config_views(configs@) == all.skip(k as int),
                config_views(kept@) == drop_named(all.take(k as int), name@),
            decreases configs.len(),
        {
            let ghost rest = config_views(configs@);
            let ghost prev = config_views(kept@);
            let c = configs.remove(0);
            assert(rest[0] == c@);
            assert(config_views(configs@) =~= rest.drop_first());
            assert(all.skip(k + 1) =~= all.skip(k as int).drop_first());
            assert(all.take(k + 1).drop_last() =~= all.take(k as int));
            assert(all.take(k + 1).last() == all.skip(k as int)[0]);
            if c.name != name {
                kept.push(c);
                assert(config_views(kept@) =~= prev.push(c@));
            }
            k = k + 1;
        }
        assert(all.take(k as int) =~= all);
        self.save_configs(kept.as_slice());
        Ok(())
    }

    /// The first configuration called `name`.
    pub fn get_config(&self, name: &str) -> (r: Result<NfsConfig, NfsError>)
        ensures
            match parse_content(self@.text) {
                Err(e) => r matches Err(f) && f@ == e,
                Ok(cs) => match lookup(cs, name@) {
                    Some(c) => r matches Ok(found) && found@ == c,
                    None => r matches Err(f) && f@ == missing_error(name@),
                },
            },
    {
        let mut configs = match self.load_configs() {
            Ok(v) => v,
            Err(e) => return Err(e),
        };
        let ghost all = config_views(configs@);
        let wanted = String::from_str(name);
        let mut i: usize = 0;
        assert(all.skip(0) =~= all);
        while i < configs.len()
            invariant
                i <= configs.len(),
                config_views(configs@) == all,
                parse_content(self@.text) == Ok::<Seq<ConfigView>, ErrorView>(all),
                wanted@ == name@,
                lookup(all, name@) == lookup(all.skip(i as int), name@),
            decreases configs.len() - i,
        {
            assert(all.skip(i as int)[0] == configs@[i as int]@);
            assert(all.skip(i as int).len() > 0);
            if configs[i].name == wanted {
                let ghost picked = configs@[i as int];
                let found = configs.remove(i);
                assert(found == picked);
                return Ok(found);
            }
            assert(all.skip(i as int).drop_first() =~= all.skip(i + 1));
            i = i + 1;
        }
        assert(all.skip(i as int) =~= Seq::<ConfigView>::empty());
        Err(
            NfsError::ConfigError(
                String::from_str("Config '").concat(name).concat("' not found"),
            ),
        )
    }
}

/// A configuration that the file keeps intact: valid fields, and a name
/// that does not make its line a comment.
pub open spec fn entry_ok(c: ConfigView) -> bool {
    config_ok(c) && !(c.name.len() > 0 && c.name[0] == '#')
}

/// Every configuration of `cs` is kept intact by the file.
pub open spec fn all_ok(cs: Seq<ConfigView>) -> bool {
    forall|i: int| 0 <= i < cs.len() ==> entry_ok(#[trigger] cs[i])
}

/// No two configurations of `cs` share a name.
pub open spec fn names_unique(cs: Seq<ConfigView>) -> bool {
    forall|i: int, j: int| 0 <= i < j < cs.len() ==> #[trigger] cs[i].name != #[trigger] cs[j].name
}

/// A configuration whose line the file reads back: no field holds a `|` or a
/// line break, and its trimmed name does not make the line a comment.  What
/// the file then reads back is `read_back`, the fields trimmed.
pub open spec fn storable(c: ConfigView) -> bool {
    &&& bar_free(c)
    &&& free_of(c.name, '\n')
    &&& free_of(c.server, '\n')
    &&& free_of(c.mount_point, '\n')
    &&& free_of(c.options, '\n')
    &&& !(trim(c.name).len() > 0 && trim(c.name)[0] == '#')
}

/// Every configuration of `cs` is one the file reads back.
pub open spec fn all_storable(cs: Seq<ConfigView>) -> bool {
    forall|i: int| 0 <= i < cs.len() ==> storable(#[trigger] cs[i])
}

/// The configurations as the file reads them back.
pub open spec fn read_backs(cs: Seq<ConfigView>) -> Seq<ConfigView> {
    cs.map_values(|c: ConfigView| read_back(c))
}

/// A configuration kept intact is storable and reads back as itself.
pub proof fn lemma_entry_ok_storable(c: ConfigView)
    requires
        entry_ok(c),
    ensures
        storable(c),
        read_back(c) == c,
{
    lemma_trim_trimmed(c.name);
    lemma_trim_trimmed(c.server);
    lemma_trim_trimmed(c.mount_point);
    lemma_trim_trimmed(c.options);
}

proof fn lemma_free_sub(s: Seq<char>, a: int, b: int, c: char)
    requires
        free_of(s, c),
        0 <= a <= b <= s.len(),
    ensures
        free_of(s.subrange(a, b), c),
{
    assert forall|i: int| 0 <= i < s.subrange(a, b).len() implies s.subrange(a, b)[i] != c by {
        assert(s.subrange(a, b)[i] == s[a + i]);
    }
}

proof fn lemma_free_concat(x: Seq<char>, y: Seq<char>, c: char)
    requires
        free_of(x, c),
        free_of(y, c),
    ensures
        free_of(x + y, c),
{
    assert forall|i: int| 0 <= i < (x + y).len() implies (x + y)[i] != c by {
        if i < x.len() {
            assert((x + y)[i] == x[i]);
        } else {
            assert((x + y)[i] == y[i - x.len()]);
        }
    }
}

/// `s` as white space, its trimmed part, and white space; when nothing is
/// kept, all of `s` goes to the front (`to_front`) or to the back.
proof fn lemma_white_frame(s: Seq<char>, to_front: bool) -> (r: (Seq<char>, Seq<char>))
    ensures
        s == r.0 + trim(s) + r.1,
        all_white(r.0),
        all_white(r.1),
        trim(s).len() == 0 && to_front ==> r.1.len() == 0,
        trim(s).len() == 0 && !to_front ==> r.0.len() == 0,
        free_of(s, '|') ==> free_of(r.0, '|') && free_of(r.1, '|'),
        free_of(s, '\n') ==> free_of(r.0, '\n') && free_of(r.1, '\n'),
{
    let (a, b) = lemma_trim_bounds(s);
    let e = Seq::<char>::empty();
    if trim(s).len() > 0 {
        let p = s.subrange(0, a);
        let q = s.subrange(b, s.len() as int);
        assert(s =~= p + trim(s) + q);
        if free_of(s, '|') {
            lemma_free_sub(s, 0, a, '|');
            lemma_free_sub(s, b, s.len() as int, '|');
        }
        if free_of(s, '\n') {
            lemma_free_sub(s, 0, a, '\n');
            lemma_free_sub(s, b, s.len() as int, '\n');
        }
        (p, q)
    } else if to_front {
        assert(s =~= s + trim(s) + e);
        (s, e)
    } else {
        assert(s =~= e + trim(s) + s);
        (e, s)
    }
}

/// The line of a storable configuration, as the file reads it: trimmed, it
/// holds no line break, is not skipped, and reads back as `read_back`.
#[verifier::rlimit(40)]
proof fn lemma_stored_line(c: ConfigView)
    requires
        storable(c),
    ensures
        !is_skipped(trim(render_line(c))),
        free_of(trim(render_line(c)), '\n'),
        parse_line(trim(render_line(c))) == Ok::<ConfigView, ErrorView>(read_back(c)),
{
    let n = c.name;
    let o = c.options;
    let tn = trim(n);
    let to = trim(o);
    lemma_trim_result(n, '|');
    lemma_trim_result(n, '\n');
    lemma_trim_result(o, '|');
    lemma_trim_result(o, '\n');
    let (pn, qn) = lemma_white_frame(n, true);
    let (po, qo) = lemma_white_frame(o, false);
    let first = tn + qn;
    let last = po + to;
    lemma_free_concat(tn, qn, '|');
    lemma_free_concat(tn, qn, '\n');
    lemma_free_concat(po, to, '|');
    lemma_free_concat(po, to, '\n');
    let inner = ConfigView { name: first, server: c.server, mount_point: c.mount_point, options: last };
    lemma_render_line_shape(inner);
    lemma_render_line_shape(c);
    let m = render_line(inner);
    assert(render_line(c) =~= pn + m + qo);
    assert(is_trimmed(m)) by {
        if tn.len() > 0 {
            assert(m[0] == tn[0]);
        } else {
            assert(first =~= Seq::<char>::empty());
            assert(m[0] == '|');
        }
        if to.len() > 0 {
            assert(m.last() == to.last());
        } else {
            assert(last =~= Seq::<char>::empty());
            assert(m.last() == '|');
        }
    }
    lemma_trim_frame(pn, m, qo);
    assert(!is_skipped(m)) by {
        if tn.len() == 0 {
            assert(first =~= Seq::<char>::empty());
            assert(m[0] == '|');
        } else {
            assert(m[0] == tn[0]);
        }
    }
    let parts = seq![first, c.server, c.mount_point, last];
    assert forall|k: int| 0 <= k < parts.len() implies free_of(#[trigger] parts[k], '|') by {}
    assert forall|k: int| 0 <= k < parts.len() implies free_of(#[trigger] parts[k], '\n') by {}
    law_split_after_join(parts, '|');
    lemma_join_free(parts, '|', '\n');
    assert(Seq::<char>::empty() + tn + qn =~= first);
    lemma_trim_frame(Seq::<char>::empty(), tn, qn);
    assert(po + to + Seq::<char>::empty() =~= last);
    lemma_trim_frame(po, to, Seq::<char>::empty());
}

proof fn lemma_parse_rendered(cs: Seq<ConfigView>)
    requires
        all_storable(cs),
    ensures
        parse_lines(rendered_lines(cs)) == Ok::<Seq<ConfigView>, ErrorView>(read_backs(cs)),
    decreases cs.len(),
{
    if cs.len() == 0 {
        assert(rendered_lines(cs) =~= Seq::<Seq<char>>::empty());
        assert(read_backs(cs) =~= Seq::<ConfigView>::empty());
    } else {
        let front = cs.drop_last();
        assert(all_storable(front)) by {
            assert forall|i: int| 0 <= i < front.len() implies storable(#[trigger] front[i]) by {
                assert(front[i] == cs[i]);
            }
        }
        lemma_parse_rendered(front);
        assert(rendered_lines(cs).drop_last() =~= rendered_lines(front));
        assert(rendered_lines(cs).last() == render_line(cs.last()));
        assert(storable(cs[cs.len() - 1]));
        lemma_stored_line(cs.last());
        assert(read_backs(front).push(read_back(cs.last())) =~= read_backs(cs));
    }
}

/// Saving configurations and loading them again gives them back with their
/// fields trimmed, as long as the file can read each of them back; those it
/// keeps intact come back unchanged.
pub proof fn law_save_then_load(cs: Seq<ConfigView>)
    requires
        all_storable(cs),
    ensures
        parse_content(render_content(cs)) == Ok::<Seq<ConfigView>, ErrorView>(read_backs(cs)),
        all_ok(cs) ==> read_backs(cs) == cs,
{
    let lines = rendered_lines(cs);
    if cs.len() == 0 {
        assert(lines.len() == 0);
        assert(render_content(cs) == Seq::<char>::empty());
        let pieces = split(Seq::<char>::empty(), '\n');
        assert(pieces == seq![Seq::<char>::empty()]);
        assert(pieces.drop_last() =~= Seq::<Seq<char>>::empty());
        assert(pieces.last() == Seq::<char>::empty());
        lemma_trim_trimmed(Seq::<char>::empty());
        assert(is_skipped(trim(pieces.last())));
        assert(parse_lines(pieces.drop_last()) == Ok::<Seq<ConfigView>, ErrorView>(
            Seq::<ConfigView>::empty(),
        ));
        assert(parse_lines(pieces) == Ok::<Seq<ConfigView>, ErrorView>(Seq::<ConfigView>::empty()));
        assert(read_backs(cs) =~= Seq::<ConfigView>::empty());
    } else {
        assert forall|k: int| 0 <= k < lines.len() implies free_of(#[trigger] lines[k], '\n') by {
            assert(storable(cs[k]));
            lemma_stored_line(cs[k]);
            let parts = seq![cs[k].name, cs[k].server, cs[k].mount_point, cs[k].options];
            assert forall|j: int| 0 <= j < parts.len() implies free_of(#[trigger] parts[j], '\n') by {}
            lemma_join_free(parts, '|', '\n');
        }
        law_split_after_join(lines, '\n');
        lemma_parse_rendered(cs);
    }
    if all_ok(cs) {
        assert forall|i: int| 0 <= i < cs.len() implies read_backs(cs)[i] == cs[i] by {
            assert(entry_ok(cs[i]));
            lemma_entry_ok_storable(cs[i]);
        }
        assert(read_backs(cs) =~= cs);
    }
}

proof fn lemma_parse_lines_ok(lines: Seq<Seq<char>>)
    requires
        forall|k: int| 0 <= k < lines.len() ==> free_of(#[trigger] lines[k], '\n'),
        parse_lines(lines) is Ok,
    ensures
        all_ok(parse_lines(lines)->Ok_0),
    decreases lines.len(),
{
    if lines.len() > 0 {
        let front = lines.drop_last();
        assert forall|k: int| 0 <= k < front.len() implies free_of(#[trigger] front[k], '\n') by {
            assert(front[k] == lines[k]);
        }
        lemma_parse_lines_ok(front);
        let cs = parse_lines(front)->Ok_0;
        let l = lines.last();
        assert(free_of(lines[lines.len() - 1], '\n'));
        let t = trim(l);
        lemma_trim_result(l, '\n');
        if !is_skipped(t) {
            let parts = split(t, '|');
            let c = parse_line(t)->Ok_0;
            lemma_split_pieces(t, '|', '\n');
            lemma_split_nonempty(t, '|');
            assert(free_of(parts[0], '|') && free_of(parts[0], '\n'));
            assert(free_of(parts[1], '|') && free_of(parts[1], '\n'));
            assert(free_of(parts[2], '|') && free_of(parts[2], '\n'));
            assert(free_of(parts[3], '|') && free_of(parts[3], '\n'));
            lemma_trim_result(parts[0], '|');
            lemma_trim_result(parts[0], '\n');
            lemma_trim_result(parts[1], '|');
            lemma_trim_result(parts[1], '\n');
            lemma_trim_result(parts[2], '|');
            lemma_trim_result(parts[2], '\n');
            lemma_trim_result(parts[3], '|');
            lemma_trim_result(parts[3], '\n');
            lemma_split_first_prefix(t, '|');
            if parts[0].len() > 0 {
                assert(parts[0][0] == t[0]);
            }
            assert(entry_ok(c));
            let all = cs.push(c);
            assert forall|i: int| 0 <= i < all.len() implies entry_ok(#[trigger] all[i]) by {
                if i < cs.len() {
                    assert(all[i] == cs[i]);
                }
            }
        }
    }
}

/// Every configuration read from a file is one that the file keeps intact.
pub proof fn law_loaded_configs_are_intact(text: Seq<char>)
    requires
        parse_content(text) is Ok,
    ensures
        all_ok(parse_content(text)->Ok_0),
{
    lemma_split_pieces(text, '\n', '\n');
    lemma_parse_lines_ok(split(text, '\n'));
}

proof fn lemma_lookup_absent(cs: Seq<ConfigView>, name: Seq<char>)
    requires
        !has_name(cs, name),
    ensures
        lookup(cs, name) is None,
    decreases cs.len(),
{
    if cs.len() > 0 {
        assert(cs[0].name != name);
        let rest = cs.drop_first();
        assert(!has_name(rest, name)) by {
            assert forall|i: int| 0 <= i < rest.len() implies #[trigger] rest[i].name != name by {
                assert(rest[i] == cs[i + 1]);
            }
        }
        lemma_lookup_absent(rest, name);
    }
}

proof fn lemma_lookup_appended(cs: Seq<ConfigView>, c: ConfigView)
    requires
        !has_name(cs, c.name),
    ensures
        lookup(cs.push(c), c.name) == Some(c),
    decreases cs.len(),
{
    if cs.len() == 0 {
        assert(cs.push(c)[0] == c);
    } else {
        assert(cs[0].name != c.name);
        assert(cs.push(c)[0] == cs[0]);
        let rest = cs.drop_first();
        assert(!has_name(rest, c.name)) by {
            assert forall|i: int| 0 <= i < rest.len() implies #[trigger] rest[i].name != c.name by {
                assert(rest[i] == cs[i + 1]);
            }
        }
        lemma_lookup_appended(rest, c);
        assert(cs.push(c).drop_first() =~= rest.push(c));
    }
}

proof fn lemma_drop_named_elements(cs: Seq<ConfigView>, name: Seq<char>)
    ensures
        forall|i: int|
            0 <= i < drop_named(cs, name).len() ==> #[trigger] drop_named(cs, name)[i].name != name
                && exists|j: int| 0 <= j < cs.len() && drop_named(cs, name)[i] == cs[j],
    decreases cs.len(),
{
    if cs.len() > 0 {
        let front = cs.drop_last();
        lemma_drop_named_elements(front, name);
        let d = drop_named(front, name);
        assert forall|i: int| 0 <= i < drop_named(cs, name).len() implies #[trigger] drop_named(
            cs,
            name,
        )[i].name != name && exists|j: int| 0 <= j < cs.len() && drop_named(cs, name)[i] == cs[j] by {
            if i < d.len() {
                assert(drop_named(cs, name)[i] == d[i]);
                assert(d[i].name != name);
                let j = choose|j: int| 0 <= j < front.len() && d[i] == front[j];
                assert(cs[j] == front[j]);
            } else {
                assert(drop_named(cs, name)[i] == cs[cs.len() - 1]);
            }
        }
    }
}

proof fn lemma_drop_named_unique(cs: Seq<ConfigView>, name: Seq<char>)
    requires
        names_unique(cs),
    ensures
        names_unique(drop_named(cs, name)),
    decreases cs.len(),
{
    if cs.len() > 0 {
        let front = cs.drop_last();
        assert(names_unique(front)) by {
            assert forall|i: int, j: int| 0 <= i < j < front.len() implies #[trigger] front[i].name
                != #[trigger] front[j].name by {
                assert(front[i] == cs[i] && front[j] == cs[j]);
            }
        }
        lemma_drop_named_unique(front, name);
        lemma_drop_named_elements(front, name);
        let d = drop_named(front, name);
        let l = cs.last();
        if l.name != name {
            let all = d.push(l);
            assert forall|i: int, j: int| 0 <= i < j < all.len() implies #[trigger] all[i].name
                != #[trigger] all[j].name by {
                if j < d.len() {
                    assert(all[i] == d[i] && all[j] == d[j]);
                } else {
                    assert(all[i] == d[i]);
                    assert(d[i].name != name);
                    let k = choose|k: int| 0 <= k < front.len() && d[i] == front[k];
                    assert(front[k] == cs[k]);
                    assert(cs[k].name != cs[cs.len() - 1].name);
                }
            }
        }
    }
}

proof fn lemma_unique_after_push(cs: Seq<ConfigView>, c: ConfigView)
    requires
        names_unique(cs),
        !has_name(cs, c.name),
    ensures
        names_unique(cs.push(c)),
{
    let all = cs.push(c);
    assert forall|i: int, j: int| 0 <= i < j < all.len() implies #[trigger] all[i].name
        != #[trigger] all[j].name by {
        if j < cs.len() {
            assert(all[i] == cs[i] && all[j] == cs[j]);
        } else {
            assert(all[i] == cs[i]);
            assert(cs[i].name != c.name);
        }
    }
}

/// After a configuration is added, the file loads the configurations it
/// held before followed by the new one as the file reads it back (fields
/// trimmed), and asking for that name gives it.  This holds for any
/// configuration the file can read back (`storable`) whose trimmed name is
/// not taken, the case in which adding succeeds.
pub proof fn law_added_config_is_found(text: Seq<char>, c: ConfigView)
    requires
        parse_content(text) is Ok,
        !has_name(parse_content(text)->Ok_0, trim(c.name)),
        storable(c),
    ensures
        parse_content(render_content(parse_content(text)->Ok_0.push(c))) == Ok::<
            Seq<ConfigView>,
            ErrorView,
        >(parse_content(text)->Ok_0.push(read_back(c))),
        lookup(parse_content(text)->Ok_0.push(read_back(c)), trim(c.name)) == Some(read_back(c)),
{
    let cs = parse_content(text)->Ok_0;
    law_loaded_configs_are_intact(text);
    let all = cs.push(c);
    assert(all_storable(all)) by {
        assert forall|i: int| 0 <= i < all.len() implies storable(#[trigger] all[i]) by {
            if i < cs.len() {
                assert(all[i] == cs[i]);
                assert(entry_ok(cs[i]));
                lemma_entry_ok_storable(cs[i]);
            }
        }
    }
    law_save_then_load(all);
    law_save_then_load(cs);
    assert(read_backs(all) =~= read_backs(cs).push(read_back(c)));
    lemma_lookup_appended(cs, read_back(c));
}

/// After the configurations called `name` are removed, the file loads the
/// others, in order, and asking for `name` finds nothing.
pub proof fn law_removed_config_is_gone(text: Seq<char>, name: Seq<char>)
    requires
        parse_content(text) is Ok,
    ensures
        parse_content(render_content(drop_named(parse_content(text)->Ok_0, name))) == Ok::<
            Seq<ConfigView>,
            ErrorView,
        >(drop_named(parse_content(text)->Ok_0, name)),
        lookup(drop_named(parse_content(text)->Ok_0, name), name) is None,
{
    let cs = parse_content(text)->Ok_0;
    let d = drop_named(cs, name);
    law_loaded_configs_are_intact(text);
    lemma_drop_named_elements(cs, name);
    assert(all_ok(d)) by {
        assert forall|i: int| 0 <= i < d.len() implies entry_ok(#[trigger] d[i]) by {
            assert(d[i].name != name);
            let j = choose|j: int| 0 <= j < cs.len() && d[i] == cs[j];
            assert(entry_ok(cs[j]));
        }
    }
    law_save_then_load(d);
    assert(!has_name(d, name)) by {
        assert forall|i: int| 0 <= i < d.len() implies #[trigger] d[i].name != name by {}
    }
    lemma_lookup_absent(d, name);
}

proof fn lemma_drop_absent(cs: Seq<ConfigView>, name: Seq<char>)
    requires
        !has_name(cs, name),
    ensures
        drop_named(cs, name) == cs,
    decreases cs.len(),
{
    if cs.len() > 0 {
        let front = cs.drop_last();
        assert(cs[cs.len() - 1].name != name);
        assert(!has_name(front, name)) by {
            assert forall|i: int| 0 <= i < front.len() implies #[trigger] front[i].name != name by {
                assert(front[i] == cs[i]);
            }
        }
        lemma_drop_absent(front, name);
        assert(front.push(cs.last()) =~= cs);
    }
}

/// Removing a configuration right after adding it leaves a file that loads
/// exactly the configurations it held before the addition.
pub proof fn law_remove_undoes_add(text: Seq<char>, c: ConfigView)
    requires
        parse_content(text) is Ok,
        !has_name(parse_content(text)->Ok_0, trim(c.name)),
        storable(c),
    ensures
        parse_content(
            render_content(
                drop_named(
                    parse_content(render_content(parse_content(text)->Ok_0.push(c)))->Ok_0,
                    trim(c.name),
                ),
            ),
        ) == parse_content(text),
{
    let cs = parse_content(text)->Ok_0;
    law_added_config_is_found(text, c);
    lemma_drop_absent(cs, trim(c.name));
    let all = cs.push(read_back(c));
    assert(all.drop_last() =~= cs);
    assert(drop_named(all, trim(c.name)) == cs);
    law_loaded_configs_are_intact(text);
    assert(all_storable(cs)) by {
        assert forall|i: int| 0 <= i < cs.len() implies storable(#[trigger] cs[i]) by {
            assert(entry_ok(cs[i]));
            lemma_entry_ok_storable(cs[i]);
        }
    }
    law_save_then_load(cs);
}

/// Names that are unique in the file stay unique: after a configuration the
/// file can read back is added (which succeeds only when its trimmed name
/// is not taken), and after the configurations of any name are removed, the
/// file loads configurations with pairwise distinct names.
pub proof fn law_names_stay_unique(text: Seq<char>, c: ConfigView, name: Seq<char>)
    requires
        parse_content(text) is Ok,
        names_unique(parse_content(text)->Ok_0),
    ensures
        storable(c) && !has_name(parse_content(text)->Ok_0, trim(c.name)) ==> (parse_content(
            render_content(parse_content(text)->Ok_0.push(c)),
        ) matches Ok(cs2) && names_unique(cs2)),
        parse_content(render_content(drop_named(parse_content(text)->Ok_0, name))) matches Ok(cs2)
            && names_unique(cs2),
{
    let cs = parse_content(text)->Ok_0;
    if storable(c) && !has_name(cs, trim(c.name)) {
        law_added_config_is_found(text, c);
        lemma_unique_after_push(cs, read_back(c));
    }
    law_removed_config_is_gone(text, name);
    lemma_drop_named_unique(cs, name);
}

/// A line that loading accepts: once trimmed, it is empty, starts with `#`,
/// or has exactly four fields separated by `|`.
pub open spec fn line_accepted(line: Seq<char>) -> bool {
    let t = trim(line);
    t.len() == 0 || t[0] == '#' || split(t, '|').len() == 4
}

/// Loads of the lines `xs` then `ys`, put together: the first error wins.
pub open spec fn then_load(
    a: Result<Seq<ConfigView>, ErrorView>,
    b: Result<Seq<ConfigView>, ErrorView>,
) -> Result<Seq<ConfigView>, ErrorView> {
    match a {
        Err(e) => Err(e),
        Ok(x) => match b {
            Err(e) => Err(e),
            Ok(y) => Ok(x + y),
        },
    }
}

proof fn lemma_lines_accepted(lines: Seq<Seq<char>>)
    ensures
        parse_lines(lines) is Ok <==> forall|k: int|
            0 <= k < lines.len() ==> line_accepted(#[trigger] lines[k]),
        parse_lines(lines) matches Err(e) ==> exists|k: int|
            0 <= k < lines.len() && !line_accepted(#[trigger] lines[k]) && (forall|j: int|
                0 <= j < k ==> line_accepted(#[trigger] lines[j])) && e == ErrorView::ConfigError(
                "Invalid config line: "@ + trim(lines[k]),
            ),
    decreases lines.len(),
{
    if lines.len() > 0 {
        let front = lines.drop_last();
        lemma_lines_accepted(front);
        assert forall|k: int| 0 <= k < front.len() implies front[k] == lines[k] by {}
        if parse_lines(front) is Ok {
            assert(forall|k: int| 0 <= k < front.len() ==> line_accepted(#[trigger] front[k]));
        }
        if let Err(e) = parse_lines(front) {
            let k = choose|k: int|
                0 <= k < front.len() && !line_accepted(#[trigger] front[k]) && (forall|j: int|
                    0 <= j < k ==> line_accepted(#[trigger] front[j])) && e
                    == ErrorView::ConfigError("Invalid config line: "@ + trim(front[k]));
            assert(lines[k] == front[k]);
            assert forall|j: int| 0 <= j < k implies line_accepted(#[trigger] lines[j]) by {
                assert(lines[j] == front[j]);
            }
        }
        assert(lines.last() == lines[lines.len() - 1]);
    }
}

/// Loading succeeds exactly when every line of the text is accepted (blank,
/// a comment, or four `|`-separated fields once trimmed); otherwise it fails
/// with the first line that is not, trimmed, in the message.
pub proof fn law_load_accepts_only_well_formed_lines(text: Seq<char>)
    ensures
        parse_content(text) is Ok <==> forall|k: int|
            0 <= k < split(text, '\n').len() ==> line_accepted(#[trigger] split(text, '\n')[k]),
        parse_content(text) matches Err(e) ==> exists|k: int|
            0 <= k < split(text, '\n').len() && !line_accepted(#[trigger] split(text, '\n')[k])
                && (forall|j: int|
                0 <= j < k ==> line_accepted(#[trigger] split(text, '\n')[j])) && e
                == ErrorView::ConfigError("Invalid config line: "@ + trim(split(text, '\n')[k])),
{
    lemma_lines_accepted(split(text, '\n'));
}

/// Loading goes line by line: the lines `xs` followed by `ys` load as `xs`
/// then `ys`, the first error winning; a blank or comment line loads
/// nothing; a line of four fields loads one configuration, its fields
/// trimmed; any other line is an error that quotes it trimmed.
pub proof fn law_load_line_by_line(xs: Seq<Seq<char>>, ys: Seq<Seq<char>>, line: Seq<char>)
    ensures
        parse_lines(xs + ys) == then_load(parse_lines(xs), parse_lines(ys)),
        ({
            let t = trim(line);
            let parts = split(t, '|');
            parse_lines(seq![line]) == if t.len() == 0 || t[0] == '#' {
                Ok::<Seq<ConfigView>, ErrorView>(Seq::<ConfigView>::empty())
            } else if parts.len() == 4 {
                Ok::<Seq<ConfigView>, ErrorView>(
                    seq![
                        ConfigView {
                            name: trim(parts[0]),
                            server: trim(parts[1]),
                            mount_point: trim(parts[2]),
                            options: trim(parts[3]),
                        },
                    ],
                )
            } else {
                Err::<Seq<ConfigView>, ErrorView>(
                    ErrorView::ConfigError("Invalid config line: "@ + t),
                )
            }
        }),
    decreases ys.len(),
{
    let one = seq![line];
    assert(one.drop_last() =~= Seq::<Seq<char>>::empty());
    assert(one.last() == line);
    assert(parse_lines(Seq::<Seq<char>>::empty()) == Ok::<Seq<ConfigView>, ErrorView>(
        Seq::<ConfigView>::empty(),
    ));
    assert(Seq::<ConfigView>::empty().push(parse_line(trim(line))->Ok_0) =~= seq![
        parse_line(trim(line))->Ok_0,
    ]);
    if ys.len() == 0 {
        assert(xs + ys =~= xs);
        if let Ok(a) = parse_lines(xs) {
            assert(a + Seq::<ConfigView>::empty() =~= a);
        }
    } else {
        law_load_line_by_line(xs, ys.drop_last(), line);
        assert((xs + ys).drop_last() =~= xs + ys.drop_last());
        assert((xs + ys).last() == ys.last());
        if let Ok(a) = parse_lines(xs) {
            if let Ok(b) = parse_lines(ys.drop_last()) {
                if let Ok(c) = parse_line(trim(ys.last())) {
                    assert((a + b).push(c) =~= a + b.push(c));
                }
            }
        }
    }
}

/// Looking a name up gives the first configuration of that name, and
/// nothing exactly when no configuration has it.
pub proof fn law_lookup_finds_first(cs: Seq<ConfigView>, name: Seq<char>)
    ensures
        lookup(cs, name) is None <==> !has_name(cs, name),
        lookup(cs, name) matches Some(c) ==> exists|i: int|
            0 <= i < cs.len() && cs[i] == c && c.name == name && forall|j: int|
                0 <= j < i ==> #[trigger] cs[j].name != name,
    decreases cs.len(),
{
    if cs.len() > 0 {
        let rest = cs.drop_first();
        law_lookup_finds_first(rest, name);
        assert forall|i: int| 0 <= i < rest.len() implies rest[i] == cs[i + 1] by {}
        if cs[0].name != name {
            if has_name(cs, name) {
                let i = choose|i: int| 0 <= i < cs.len() && #[trigger] cs[i].name == name;
                assert(rest[i - 1].name == name);
            }
            if has_name(rest, name) {
                let i = choose|i: int| 0 <= i < rest.len() && #[trigger] rest[i].name == name;
                assert(cs[i + 1].name == name);
            }
            if let Some(c) = lookup(rest, name) {
                let i = choose|i: int|
                    0 <= i < rest.len() && rest[i] == c && c.name == name && forall|j: int|
                        0 <= j < i ==> #[trigger] rest[j].name != name;
                assert(cs[i + 1] == c);
                assert forall|j: int| 0 <= j < i + 1 implies #[trigger] cs[j].name != name by {
                    if j > 0 {
                        assert(cs[j] == rest[j - 1]);
                    }
                }
            }
        } else {
            assert(cs[0].name == name);
        }
    }
}

/// Removing a name keeps every configuration of another name: each of them
/// is still there, and none of the removed name is.
pub proof fn law_remove_keeps_others(cs: Seq<ConfigView>, name: Seq<char>)
    ensures
        forall|i: int|
            0 <= i < cs.len() && cs[i].name != name ==> exists|j: int|
                0 <= j < drop_named(cs, name).len() && #[trigger] drop_named(cs, name)[j] == cs[i],
        !has_name(drop_named(cs, name), name),
    decreases cs.len(),
{
    lemma_drop_named_elements(cs, name);
    if cs.len() > 0 {
        let front = cs.drop_last();
        law_remove_keeps_others(front, name);
        let d = drop_named(front, name);
        assert forall|i: int| 0 <= i < cs.len() && cs[i].name != name implies exists|j: int|
            0 <= j < drop_named(cs, name).len() && #[trigger] drop_named(cs, name)[j] == cs[i] by {
            if i < front.len() {
                assert(front[i] == cs[i]);
                let j = choose|j: int| 0 <= j < d.len() && #[trigger] d[j] == front[i];
                assert(drop_named(cs, name)[j] == d[j]);
            } else {
                assert(drop_named(cs, name)[d.len() as int] == cs[i]);
            }
        }
    }
    assert forall|i: int| 0 <= i < drop_named(cs, name).len() implies #[trigger] drop_named(
        cs,
        name,
    )[i].name != name by {}
}

} // verus!
