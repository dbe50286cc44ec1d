//! The core's small pieces: the error that the segment dispatcher lets
//! through, the logger that prefixes its messages, and the default theme.

use vstd::prelude::*;
use crate::text::{append_chars, append_str, chars_of, fields, split_on, join_seqs, join_strings, split_fields, string_from, string_of, string_views};

verus! {

/// An error that the segment dispatcher does not catch.
#[derive(Debug, Clone)]
pub struct NotInterceptedError(pub String);

impl NotInterceptedError {
    /// The error's message.
    pub fn to_string(&self) -> (r: String)
        ensures
            r@ == self.0@,
    {
        self.0.clone()
    }
}

/// `ext:prefix:message`.
pub open spec fn log_line(ext: Seq<char>, prefix: Seq<char>, message: Seq<char>) -> Seq<char> {
    ext + ":"@ + prefix + ":"@ + message
}

/// The messages of a logger as plain values: (level, line) pairs.
pub open spec fn messages_view(v: Seq<(String, String)>) -> Seq<(Seq<char>, Seq<char>)> {
    v.map_values(|m: (String, String)| (m.0@, m.1@))
}

/// A logger for one extension that prefixes each message with the
/// extension and a prefix, and keeps the (level, line) pairs it logged.
#[derive(Debug, Clone)]
pub struct PowerlineLogger {
    pub ext: String,
    pub prefix: String,
    pub messages: Vec<(String, String)>,
}

impl PowerlineLogger {
    /// A logger with no messages yet.
    pub fn new(ext: &str, prefix: &str) -> (r: Self)
        ensures
            r.ext@ == ext@,
            r.prefix@ == prefix@,
            r.messages@.len() == 0,
    {
        PowerlineLogger { ext: string_from(ext), prefix: string_from(prefix), messages: Vec::new() }
    }

    /// `ext:prefix:message`, with `prefix` in place of the logger's own
    /// when it is given.
    pub fn format_message(&self, message: &str, prefix: Option<&str>) -> (r: String)
        ensures
            r@ == log_line(self.ext@, match prefix {
                Some(p) => p@,
                None => self.prefix@,
            }, message@),
    {
        proof {
            reveal_strlit(":");
        }
        let mut out = chars_of(self.ext.as_str());
        append_str(&mut out, ":");
        match prefix {
            Some(p) => append_str(&mut out, p),
            None => append_str(&mut out, self.prefix.as_str()),
        }
        append_str(&mut out, ":");
        append_str(&mut out, message);
        string_of(&out)
    }

    /// Logs `message` at `level`.
    pub fn log(&mut self, level: &str, message: &str)
        ensures
            final(self).ext == old(self).ext,
            final(self).prefix == old(self).prefix,
            messages_view(final(self).messages@) == messages_view(old(self).messages@).push((level@, log_line(old(self).ext@, old(self).prefix@, message@))),
    {
        let line = self.format_message(message, None);
        let ghost before = self.messages@;
        let entry = (string_from(level), line);
        self.messages.push(entry);
        assert(self.messages@ == before.push(entry));
        assert(messages_view(self.messages@) =~= messages_view(before).push((level@, log_line(self.ext@, self.prefix@, message@))));
    }

    /// Logs `message` at level `DEBUG`.
    pub fn debug(&mut self, message: &str)
        ensures
            final(self).ext == old(self).ext,
            final(self).prefix == old(self).prefix,
            messages_view(final(self).messages@) == messages_view(old(self).messages@).push(("DEBUG"@, log_line(old(self).ext@, old(self).prefix@, message@))),
    {
        self.log("DEBUG", message);
    }

    /// Logs `message` at level `INFO`.
    pub fn info(&mut self, message: &str)
        ensures
            final(self).ext == old(self).ext,
            final(self).prefix == old(self).prefix,
            messages_view(final(self).messages@) == messages_view(old(self).messages@).push(("INFO"@, log_line(old(self).ext@, old(self).prefix@, message@))),
    {
        self.log("INFO", message);
    }

    /// Logs `message` at level `WARNING`.
    pub fn warn(&mut self, message: &str)
        ensures
            final(self).ext == old(self).ext,
            final(self).prefix == old(self).prefix,
            messages_view(final(self).messages@) == messages_view(old(self).messages@).push(("WARNING"@, log_line(old(self).ext@, old(self).prefix@, message@))),
    {
        self.log("WARNING", message);
    }

    /// Logs `message` at level `ERROR`.
    pub fn error(&mut self, message: &str)
        ensures
            final(self).ext == old(self).ext,
            final(self).prefix == old(self).prefix,
            messages_view(final(self).messages@) == messages_view(old(self).messages@).push(("ERROR"@, log_line(old(self).ext@, old(self).prefix@, message@))),
    {
        self.log("ERROR", message);
    }

    /// Logs `message` at level `CRITICAL`.
    pub fn critical(&mut self, message: &str)
        ensures
            final(self).ext == old(self).ext,
            final(self).prefix == old(self).prefix,
            messages_view(final(self).messages@) == messages_view(old(self).messages@).push(("CRITICAL"@, log_line(old(self).ext@, old(self).prefix@, message@))),
    {
        self.log("CRITICAL", message);
    }

    /// Logs `message` at level `EXCEPTION`.
    pub fn exception(&mut self, message: &str)
        ensures
            final(self).ext == old(self).ext,
            final(self).prefix == old(self).prefix,
            messages_view(final(self).messages@) == messages_view(old(self).messages@).push(("EXCEPTION"@, log_line(old(self).ext@, old(self).prefix@, message@))),
    {
        self.log("EXCEPTION", message);
    }
}

/// The theme used when none is configured: `powerline_terminus` where
/// Unicode can be shown, `ascii` elsewhere.
pub fn get_default_theme(is_unicode: bool) -> (r: &'static str)
    ensures
        r@ == if is_unicode { "powerline_terminus"@ } else { "ascii"@ },
{
    if is_unicode {
        "powerline_terminus"
    } else {
        "ascii"
    }
}

/// The Powerline of the Python debugger.
#[derive(Debug, Clone, Copy)]
pub struct PDBPowerline;

impl PDBPowerline {
    /// The debugger's Powerline.
    pub fn new() -> (r: Self) {
        PDBPowerline
    }

    /// Sets the debugger up to show the prompt. The renderer that would be
    /// told of `pdb` is not part of this library, so nothing changes.
    pub fn do_setup(&self, pdb: &serde_json::Value) {
    }

    /// The configuration directories that `POWERLINE_CONFIG_PATHS` names
    /// (`paths_var`, when it is set): its non-empty `:`-separated pieces.
    /// None when it is unset or names none; the caller then uses the
    /// usual directories.
    pub fn get_config_paths(paths_var: Option<&str>) -> (r: Vec<String>)
        ensures
            string_views(r@) == match paths_var {
                Some(v) => fields(v@, ':'),
                None => Seq::<Seq<char>>::empty(),
            },
    {
        match paths_var {
            Some(v) => split_fields(v, ':'),
            None => Vec::new(),
        }
    }

    /// The extension and the renderer module it runs with: both `pdb`.
    pub fn init() -> (r: (&'static str, &'static str))
        ensures
            r.0@ == "pdb"@,
            r.1@ == "pdb"@,
    {
        ("pdb", "pdb")
    }
}

/// The path of a configuration file to load: `path` when it names a file
/// (`is_file` says whether it does), else none.
pub fn _config_loader_condition(path: Option<&str>, is_file: bool) -> (r: Option<String>)
    ensures
        match path {
            Some(p) => if is_file { r matches Some(q) && q@ == p@ } else { r is None },
            None => r is None,
        },
{
    match path {
        Some(p) => if is_file { Some(string_from(p)) } else { None },
        None => None,
    }
}

/// `file` under the directory `dir`.
pub open spec fn joined_path(dir: Seq<char>, file: Seq<char>) -> Seq<char> {
    if dir.len() == 0 {
        file
    } else if dir.last() == '/' {
        dir + file
    } else {
        dir + "/"@ + file
    }
}

/// Where `config_file`.json would be under each of the search paths.
pub fn config_file_candidates(search_paths: &[String], config_file: &str) -> (r: Vec<String>)
    ensures
        r@.len() == search_paths@.len(),
        forall|i: int| 0 <= i < r@.len() ==> #[trigger] r@[i]@ == joined_path(search_paths@[i]@, config_file@ + ".json"@),
{
    proof {
        reveal_strlit(".json");
        reveal_strlit("/");
    }
    let mut out: Vec<String> = Vec::new();
    let mut i: usize = 0;
    while i < search_paths.len()
        invariant
            i <= search_paths.len(),
            out@.len() == i,
            forall|j: int| 0 <= j < i ==> #[trigger] out@[j]@ == joined_path(search_paths@[j]@, config_file@ + ".json"@),
        decreases search_paths.len() - i,
    {
        let mut file = chars_of(config_file);
        append_str(&mut file, ".json");
        let dir = chars_of(search_paths[i].as_str());
        let mut path: Vec<char> = Vec::new();
        if dir.len() == 0 {
            append_chars(&mut path, &file);
        } else {
            append_chars(&mut path, &dir);
            if dir[dir.len() - 1] != '/' {
                append_str(&mut path, "/");
            }
            append_chars(&mut path, &file);
        }
        out.push(string_of(&path));
        i = i + 1;
    }
    out
}

/// The candidates that are files (`is_file` says which, by position), in
/// order.
pub open spec fn files_found(cands: Seq<Seq<char>>, is_file: Seq<bool>) -> Seq<Seq<char>>
    decreases cands.len(),
{
    if cands.len() == 0 {
        Seq::empty()
    } else {
        let rest = files_found(cands.drop_last(), is_file);
        if is_file[cands.len() - 1] {
            rest.push(cands.last())
        } else {
            rest
        }
    }
}

/// The message when no search path holds the configuration file.
pub open spec fn not_found_message(search_paths: Seq<String>, config_file: Seq<char>) -> Seq<char> {
    "Config file not found in search paths ("@ + join_seqs(string_views(search_paths), ", "@) + "): "@ + config_file + ".json"@
}

/// The paths of `config_file`.json under the search paths, in order, given
/// which of the candidates (see `config_file_candidates`) are files; an
/// error naming the search paths and the file when none is.
pub fn _find_config_files(search_paths: &[String], config_file: &str, is_file: &[bool]) -> (r: Result<Vec<String>, String>)
    requires
        is_file@.len() == search_paths@.len(),
    ensures
        ({
            let cands = Seq::new(search_paths@.len(), |i: int| joined_path(search_paths@[i]@, config_file@ + ".json"@));
            match r {
                Ok(v) => v@.len() > 0 && string_views(v@) == files_found(cands, is_file@),
                Err(m) => (forall|i: int| 0 <= i < is_file@.len() ==> !#[trigger] is_file@[i]) && m@ == not_found_message(search_paths@, config_file@),
            }
        }),
{
    proof {
        reveal_strlit(".json");
        reveal_strlit("Config file not found in search paths (");
        reveal_strlit(", ");
        reveal_strlit("): ");
    }
    let candidates = config_file_candidates(search_paths, config_file);
    let ghost cands = Seq::new(search_paths@.len(), |i: int| joined_path(search_paths@[i]@, config_file@ + ".json"@));
    assert(string_views(candidates@) =~= cands);
    let mut found: Vec<String> = Vec::new();
    let mut i: usize = 0;
    while i < candidates.len()
        invariant
            i <= candidates.len(),
            candidates@.len() == is_file@.len(),
            cands.len() == candidates@.len(),
            string_views(candidates@) == cands,
            string_views(found@) == files_found(cands.take(i as int), is_file@),
            found@.len() == 0 <==> (forall|j: int| 0 <= j < i ==> !#[trigger] is_file@[j]),
        decreases candidates.len() - i,
    {
        let ghost before = found@;
        assert(cands.take(i + 1).drop_last() =~= cands.take(i as int));
        assert(cands[i as int] == candidates@[i as int]@);
        if is_file[i] {
            found.push(candidates[i].clone());
            assert(string_views(found@) =~= string_views(before).push(candidates@[i as int]@));
        }
        i = i + 1;
    }
    assert(cands.take(candidates.len() as int) =~= cands);
    if found.len() == 0 {
        let paths = crate::text::copy_strings(search_paths);
        let joined = join_strings(&paths, ", ");
        let mut m = chars_of("Config file not found in search paths (");
        let jc = chars_of(joined.as_str());
        append_chars(&mut m, &jc);
        append_str(&mut m, "): ");
        append_str(&mut m, config_file);
        append_str(&mut m, ".json");
        Err(string_of(&m))
    } else {
        Ok(found)
    }
}

/// `dir/powerline`.
pub open spec fn powerline_dir(dir: Seq<char>) -> Seq<char> {
    dir + "/powerline"@
}

/// The directories searched for configuration, first to last: the
/// `config_files` directory that comes with the program, then the
/// `powerline` directory of each entry of `XDG_CONFIG_DIRS` (or of the
/// system's configuration directory when that is unset), last entry
/// first, then that of `XDG_CONFIG_HOME` (`home/.config` when unset).
pub open spec fn config_paths(
    home: Seq<char>,
    xdg_config_home: Option<Seq<char>>,
    xdg_config_dirs: Option<Seq<char>>,
    system_config_dir: Option<Seq<char>>,
) -> Seq<Seq<char>> {
    let config_home = match xdg_config_home {
        Some(h) => h,
        None => home + "/.config"@,
    };
    let dirs = match xdg_config_dirs {
        Some(d) => d,
        None => match system_config_dir {
            Some(d) => d,
            None => Seq::<char>::empty(),
        },
    };
    seq!["config_files"@] + fields(dirs, ':').reverse().map_values(|d: Seq<char>| powerline_dir(d)) + seq![powerline_dir(config_home)]
}

/// `dir/powerline`.
fn powerline_dir_of(dir: &str) -> (r: String)
    ensures
        r@ == powerline_dir(dir@),
{
    let mut out = chars_of(dir);
    append_str(&mut out, "/powerline");
    string_of(&out)
}

/// The directories searched for configuration, from the values of
/// `HOME`, `XDG_CONFIG_HOME` and `XDG_CONFIG_DIRS` (`None` where unset)
/// and the system's configuration directory, if there is one.
pub fn get_config_paths(
    home: &str,
    xdg_config_home: Option<&str>,
    xdg_config_dirs: Option<&str>,
    system_config_dir: Option<&str>,
) -> (r: Vec<String>)
    ensures
        string_views(r@) == config_paths(
            home@,
            match xdg_config_home { Some(h) => Some(h@), None => None },
            match xdg_config_dirs { Some(d) => Some(d@), None => None },
            match system_config_dir { Some(d) => Some(d@), None => None },
        ),
{
    let config_home = match xdg_config_home {
        Some(h) => string_from(h),
        None => {
            let mut cs = chars_of(home);
            append_str(&mut cs, "/.config");
            string_of(&cs)
        },
    };
    let dirs = match xdg_config_dirs {
        Some(d) => split_fields(d, ':'),
        None => match system_config_dir {
            Some(d) => split_fields(d, ':'),
            None => Vec::new(),
        },
    };
    let ghost ds = string_views(dirs@);
    let mut out: Vec<String> = Vec::new();
    out.push(string_from("config_files"));
    let mut i: usize = dirs.len();
    while i > 0
        invariant
            i <= dirs@.len(),
            ds == string_views(dirs@),
            string_views(out@) == seq!["config_files"@] + ds.reverse().take(dirs@.len() - i).map_values(|d: Seq<char>| powerline_dir(d)),
        decreases i,
    {
        i = i - 1;
        let p = powerline_dir_of(dirs[i].as_str());
        let ghost before = out@;
        out.push(p);
        proof {
            assert(ds.reverse()[dirs@.len() - 1 - i] == ds[i as int]);
            assert(ds.reverse().take(dirs@.len() - i).drop_last() =~= ds.reverse().take(dirs@.len() - 1 - i));
            assert(string_views(out@) =~= string_views(before).push(p@));
            assert(string_views(out@) =~= seq!["config_files"@] + ds.reverse().take(dirs@.len() - i).map_values(|d: Seq<char>| powerline_dir(d)));
        }
    }
    let last = powerline_dir_of(config_home.as_str());
    let ghost before = out@;
    out.push(last);
    proof {
        reveal_strlit("/.config");
        let spec_home = match xdg_config_home { Some(h) => h@, None => home@ + "/.config"@ };
        let spec_dirs = match xdg_config_dirs {
            Some(d) => d@,
            None => match system_config_dir { Some(d) => d@, None => Seq::<char>::empty() },
        };
        assert(config_home@ == spec_home);
        if xdg_config_dirs.is_none() && system_config_dir.is_none() {
            reveal_with_fuel(Seq::filter, 2);
            assert(split_on(spec_dirs, ':') =~= seq![Seq::<char>::empty()]);
            assert(split_on(spec_dirs, ':').drop_last() =~= Seq::<Seq<char>>::empty());
            assert(fields(spec_dirs, ':') =~= Seq::<Seq<char>>::empty());
        }
        assert(ds == fields(spec_dirs, ':'));
        assert(ds.reverse().take(dirs@.len() as int) =~= ds.reverse());
        assert(string_views(out@) =~= string_views(before).push(last@));
    }
    out
}

} // verus!
