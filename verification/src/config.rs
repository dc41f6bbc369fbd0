//! Where the ledger directory comes from: the `--ledger-dir` option, else the
//! first configuration file found, `$XDG_CONFIG_HOME/time-ledger/config.toml`
//! then `~/.config/time-ledger/config.toml`.
use vstd::prelude::*;

use crate::text::{chars_of, has_prefix, join_with, push_char, push_chars, push_str};

verus! {

/// Why no ledger directory could be settled on.
#[derive(Debug, Clone)]
pub enum ConfigError {
    /// A configuration file exists but could not be read.
    Read { path: String, message: String },
    /// A configuration file could not be parsed.
    Parse { path: String, message: String },
    /// No option was given and no configuration file was found.
    MissingLedgerDir { searched_paths: Vec<String> },
}

/// What was found at a candidate configuration path.
#[derive(Debug, Clone)]
pub enum ConfigProbe {
    /// No file there.
    Missing,
    /// A file that could not be read, and why.
    Unreadable(String),
    /// A file that could not be parsed, and why.
    Unparsable(String),
    /// A file naming this ledger directory.
    LedgerDir(String),
}

/// The environment the resolution looks at: `$XDG_CONFIG_HOME` and `$HOME`.
#[derive(Debug, Clone)]
pub struct ResolveContext {
    pub xdg_config_home: Option<String>,
    pub home_dir: Option<String>,
}

pub open spec fn opt_text(o: Option<String>) -> Option<Seq<char>> {
    match o {
        Some(s) => Some(s@),
        None => None,
    }
}

/// Joining paths as `Path::join` does on Unix: an absolute `comp` replaces
/// `base`; otherwise `comp` follows `base`, with a `/` between them unless
/// `base` is empty or ends with one. The paths joined here are Unix ones
/// (`$XDG_CONFIG_HOME`, `$HOME/.config`, the ledger directory), written with
/// `/` on every platform.
pub open spec fn join_path(base: Seq<char>, comp: Seq<char>) -> Seq<char> {
    if comp.len() > 0 && comp[0] == '/' {
        comp
    } else if base.len() > 0 && base.last() != '/' {
        base + seq!['/'] + comp
    } else {
        base + comp
    }
}

/// Joins a path and a component, as `Path::join` does on Unix.
pub fn path_join(base: &str, comp: &str) -> (r: String)
    ensures
        r@ == join_path(base@, comp@),
{
    let b = chars_of(base);
    let c = chars_of(comp);
    let mut r = String::new();
    if c.len() > 0 && c[0] == '/' {
        push_str(&mut r, comp);
        return r;
    }
    push_str(&mut r, base);
    if b.len() > 0 && b[b.len() - 1] != '/' {
        push_char(&mut r, '/');
    }
    push_str(&mut r, comp);
    r
}

/// Whether two paths are equal as `Path`s: component by component.
pub uninterp spec fn spec_paths_equal(a: Seq<char>, b: Seq<char>) -> bool;

/// A path written plainly: no backslash or `:` (no Windows prefix or separator),
/// no empty component (no `//`, no `/` at the end but in `/` itself) and no
/// `.` component. Its components, as `Path::components` reads them, are an
/// optional root and the texts between the `/`s, which give the text back.
pub open spec fn plain_path(p: Seq<char>) -> bool {
    &&& forall|i: int| 0 <= i < p.len() ==> p[i] != '\\' && p[i] != ':'
    &&& forall|i: int| 0 <= i < p.len() - 1 ==> !(p[i] == '/' && #[trigger] p[i + 1] == '/')
    &&& (p.len() > 1 ==> p.last() != '/')
    &&& !(p.len() >= 1 && p[0] == '.' && (p.len() == 1 || p[1] == '/'))
    &&& forall|i: int|
        0 <= i < p.len() - 1 && p[i] == '/' && #[trigger] p[i + 1] == '.' ==> i + 2 < p.len()
            && p[i + 2] != '/'
}

/// Calls `Path::eq`, which compares the paths component by component; the
/// result is named. `Path` is `Eq`, so a path equals itself; and two plain
/// paths ([`plain_path`]) have the same components exactly when they are
/// the same text.
#[verifier::external_body]
fn paths_equal(a: &str, b: &str) -> (r: bool)
    ensures
        r == spec_paths_equal(a@, b@),
        a@ == b@ ==> r,
        plain_path(a@) && plain_path(b@) ==> r == (a@ == b@),
{
    std::path::Path::new(a) == std::path::Path::new(b)
}

pub open spec fn app_dir_name() -> Seq<char> {
    seq!['t', 'i', 'm', 'e', '-', 'l', 'e', 'd', 'g', 'e', 'r']
}

pub open spec fn config_file_name() -> Seq<char> {
    seq!['c', 'o', 'n', 'f', 'i', 'g', '.', 't', 'o', 'm', 'l']
}

pub open spec fn dot_config() -> Seq<char> {
    seq!['.', 'c', 'o', 'n', 'f', 'i', 'g']
}

/// The configuration paths to look at, in order: under `$XDG_CONFIG_HOME`,
/// then under `$HOME/.config` unless that is the same path.
pub open spec fn candidates_of(xdg: Option<Seq<char>>, home: Option<Seq<char>>) -> Seq<
    Seq<char>,
> {
    let first: Seq<Seq<char>> = match xdg {
        Some(x) => seq![join_path(join_path(x, app_dir_name()), config_file_name())],
        None => seq![],
    };
    match home {
        Some(h) => {
            let hc = join_path(join_path(join_path(h, dot_config()), app_dir_name()), config_file_name());
            if first.len() > 0 && spec_paths_equal(first[0], hc) {
                first
            } else {
                first.push(hc)
            }
        },
        None => first,
    }
}

impl ResolveContext {
    /// The configuration paths to look at, in order.
    pub fn config_candidates(&self) -> (r: Vec<String>)
        ensures
            r@.map_values(|s: String| s@) == candidates_of(
                opt_text(self.xdg_config_home),
                opt_text(self.home_dir),
            ),
            (opt_text(self.xdg_config_home), opt_text(self.home_dir)) matches (Some(x), Some(h))
                && join_path(join_path(x, app_dir_name()), config_file_name()) == join_path(
                join_path(join_path(h, dot_config()), app_dir_name()),
                config_file_name(),
            ) ==> r.len() == 1,
            (opt_text(self.xdg_config_home), opt_text(self.home_dir)) matches (Some(x), Some(h))
                && plain_path(join_path(join_path(x, app_dir_name()), config_file_name()))
                && plain_path(
                join_path(join_path(join_path(h, dot_config()), app_dir_name()), config_file_name()),
            ) && join_path(join_path(x, app_dir_name()), config_file_name()) != join_path(
                join_path(join_path(h, dot_config()), app_dir_name()),
                config_file_name(),
            ) ==> r.len() == 2,
    {
        let mut candidates: Vec<String> = Vec::new();
        proof {
            reveal_strlit("time-ledger");
            reveal_strlit("config.toml");
            reveal_strlit(".config");
            assert("time-ledger"@ =~= app_dir_name());
            assert("config.toml"@ =~= config_file_name());
            assert(".config"@ =~= dot_config());
        }
        match &self.xdg_config_home {
            Some(x) => {
                let a = path_join(x.as_str(), "time-ledger");
                let b = path_join(a.as_str(), "config.toml");
                candidates.push(b);
            },
            None => {},
        }
        let ghost first = candidates@.map_values(|s: String| s@);
        match &self.home_dir {
            Some(h) => {
                let a = path_join(h.as_str(), ".config");
                let b = path_join(a.as_str(), "time-ledger");
                let home_candidate = path_join(b.as_str(), "config.toml");
                let mut seen = false;
                let mut i: usize = 0;
                while i < candidates.len()
                    invariant
                        i <= candidates.len(),
                        candidates@.len() <= 1,
                        seen == (exists|k: int|
                            0 <= k < i && spec_paths_equal(
                                #[trigger] candidates@[k]@,
                                home_candidate@,
                            )),
                        forall|k: int|
                            0 <= k < i && #[trigger] candidates@[k]@ == home_candidate@
                                ==> spec_paths_equal(candidates@[k]@, home_candidate@),
                        forall|k: int|
                            0 <= k < i && plain_path(#[trigger] candidates@[k]@) && plain_path(
                                home_candidate@,
                            ) && candidates@[k]@ != home_candidate@ ==> !spec_paths_equal(
                                candidates@[k]@,
                                home_candidate@,
                            ),
                    decreases candidates.len() - i,
                {
                    if paths_equal(candidates[i].as_str(), home_candidate.as_str()) {
                        seen = true;
                    }
                    i = i + 1;
                }
                if !seen {
                    candidates.push(home_candidate);
                }
                proof {
                    if candidates@.len() > 0 {
                        assert(first.len() > 0 ==> first[0] == candidates@[0]@);
                    }
                }
                assert(candidates@.map_values(|s: String| s@) =~= candidates_of(
                    opt_text(self.xdg_config_home),
                    opt_text(self.home_dir),
                ));
            },
            None => {
                assert(candidates@.map_values(|s: String| s@) =~= candidates_of(
                    opt_text(self.xdg_config_home),
                    opt_text(self.home_dir),
                ));
            },
        }
        candidates
    }
}

/// `~` is the home directory, and `~/rest` is `rest` under it, when the home
/// directory is known.
pub open spec fn expand_home_spec(path: Seq<char>, home: Option<Seq<char>>) -> Seq<char> {
    match home {
        None => path,
        Some(h) => if path == seq!['~'] {
            h
        } else if has_prefix(path, seq!['~', '/']) {
            join_path(h, path.skip(2))
        } else {
            path
        },
    }
}

/// Expands a leading `~` to the home directory.
pub fn expand_home(path: &str, home_dir: Option<&str>) -> (r: String)
    ensures
        r@ == expand_home_spec(
            path@,
            match home_dir {
                Some(h) => Some(h@),
                None => None,
            },
        ),
{
    let mut r = String::new();
    let home = match home_dir {
        None => {
            push_str(&mut r, path);
            return r;
        },
        Some(h) => h,
    };
    let p = chars_of(path);
    if p.len() == 1 && p[0] == '~' {
        assert(p@ =~= seq!['~']);
        push_str(&mut r, home);
        return r;
    }
    assert(p@ != seq!['~'] || !(p.len() == 1 && p[0] == '~'));
    if p.len() >= 2 && p[0] == '~' && p[1] == '/' {
        assert(p@.subrange(0, 2) =~= seq!['~', '/']);
        let mut rest = String::new();
        push_chars(&mut rest, &p, 2, p.len());
        assert(p@.subrange(2, p@.len() as int) =~= p@.skip(2));
        return path_join(home, rest.as_str());
    }
    if p.len() >= 2 {
        assert(!has_prefix(p@, seq!['~', '/'])) by {
            if has_prefix(p@, seq!['~', '/']) {
                assert(p@.subrange(0, 2)[0] == p@[0]);
                assert(p@.subrange(0, 2)[1] == p@[1]);
            }
        }
    }
    push_str(&mut r, path);
    r
}

/// `'path'`.
pub open spec fn quoted(p: Seq<char>) -> Seq<char> {
    seq!['\''] + p + seq!['\'']
}

/// The paths in quotes: the last joined by ` or `, the others by `, `.
pub open spec fn paths_message(ps: Seq<Seq<char>>) -> Seq<char> {
    if ps.len() == 0 {
        seq![]
    } else if ps.len() == 1 {
        quoted(ps[0])
    } else {
        join_with(ps.drop_last().map_values(|p: Seq<char>| quoted(p)), seq![',', ' '])
            + seq![' ', 'o', 'r', ' '] + quoted(ps.last())
    }
}

/// Lists paths for a message: `'a'`, `'a' or 'b'`, `'a', 'b' or 'c'`.
pub fn format_config_paths_for_message(paths: &Vec<String>) -> (r: String)
    ensures
        r@ == paths_message(paths@.map_values(|s: String| s@)),
{
    let ghost ps = paths@.map_values(|s: String| s@);
    let mut r = String::new();
    let n = paths.len();
    if n == 0 {
        return r;
    }
    if n == 1 {
        push_char(&mut r, '\'');
        push_str(&mut r, paths[0].as_str());
        push_char(&mut r, '\'');
        assert(r@ =~= paths_message(ps));
        return r;
    }
    let ghost heads = ps.drop_last().map_values(|p: Seq<char>| quoted(p));
    let mut i: usize = 0;
    assert(heads.take(0) =~= Seq::<Seq<char>>::empty());
    while i < n - 1
        invariant
            n == paths.len(),
            n >= 2,
            i <= n - 1,
            ps == paths@.map_values(|s: String| s@),
            heads == ps.drop_last().map_values(|p: Seq<char>| quoted(p)),
            r@ == join_with(heads.take(i as int), seq![',', ' ']),
        decreases n - 1 - i,
    {
        let ghost prev = r@;
        if i > 0 {
            push_char(&mut r, ',');
            push_char(&mut r, ' ');
        }
        push_char(&mut r, '\'');
        push_str(&mut r, paths[i].as_str());
        push_char(&mut r, '\'');
        proof {
            assert(heads[i as int] == quoted(paths@[i as int]@));
            assert(heads.take(i + 1).drop_last() =~= heads.take(i as int));
            if i == 0 {
                assert(heads.take(1) =~= seq![heads[0]]);
            }
        }
        assert(r@ =~= join_with(heads.take(i + 1), seq![',', ' ']));
        i = i + 1;
    }
    assert(heads.take(i as int) =~= heads);
    push_str(&mut r, " or ");
    proof {
        reveal_strlit(" or ");
    }
    push_char(&mut r, '\'');
    push_str(&mut r, paths[n - 1].as_str());
    push_char(&mut r, '\'');
    assert(r@ =~= paths_message(ps));
    r
}

pub open spec fn read_error_text(path: Seq<char>, msg: Seq<char>) -> Seq<char> {
    seq![
        'f',
        'a',
        'i',
        'l',
        'e',
        'd',
        ' ',
        't',
        'o',
        ' ',
        'r',
        'e',
        'a',
        'd',
        ' ',
        'c',
        'o',
        'n',
        'f',
        'i',
        'g',
        ' ',
        'f',
        'i',
        'l',
        'e',
        ' ',
    ] + quoted(path) + seq![':', ' '] + msg
}

pub open spec fn parse_error_text(path: Seq<char>, msg: Seq<char>) -> Seq<char> {
    seq![
        'f',
        'a',
        'i',
        'l',
        'e',
        'd',
        ' ',
        't',
        'o',
        ' ',
        'p',
        'a',
        'r',
        's',
        'e',
        ' ',
        'c',
        'o',
        'n',
        'f',
        'i',
        'g',
        ' ',
        'f',
        'i',
        'l',
        'e',
        ' ',
    ] + quoted(path) + seq![':', ' '] + msg
}

pub open spec fn missing_dir_prefix() -> Seq<char> {
    seq![
        'n',
        'o',
        ' ',
        'l',
        'e',
        'd',
        'g',
        'e',
        'r',
        ' ',
        'd',
        'i',
        'r',
        'e',
        'c',
        't',
        'o',
        'r',
        'y',
        ' ',
        'c',
        'o',
        'n',
        'f',
        'i',
        'g',
        'u',
        'r',
        'e',
        'd',
        '.',
        ' ',
        'P',
        'a',
        's',
        's',
        ' ',
        '-',
        '-',
        'l',
        'e',
        'd',
        'g',
        'e',
        'r',
        '-',
        'd',
        'i',
        'r',
        ' ',
        'D',
        'I',
        'R',
        ',',
        ' ',
        'o',
        'r',
        ' ',
    ]
}

pub open spec fn set_env_tail() -> Seq<char> {
    seq![
        's',
        'e',
        't',
        ' ',
        'H',
        'O',
        'M',
        'E',
        '/',
        'X',
        'D',
        'G',
        '_',
        'C',
        'O',
        'N',
        'F',
        'I',
        'G',
        '_',
        'H',
        'O',
        'M',
        'E',
        ' ',
        'a',
        'n',
        'd',
        ' ',
        'c',
        'r',
        'e',
        'a',
        't',
        'e',
        ' ',
        'a',
        ' ',
        'c',
        'o',
        'n',
        'f',
        'i',
        'g',
        ' ',
        'f',
        'i',
        'l',
        'e',
    ]
}

pub open spec fn create_in_tail() -> Seq<char> {
    seq![
        'c',
        'r',
        'e',
        'a',
        't',
        'e',
        ' ',
        'a',
        ' ',
        'c',
        'o',
        'n',
        'f',
        'i',
        'g',
        ' ',
        'f',
        'i',
        'l',
        'e',
        ' ',
        'i',
        'n',
        ':',
        ' ',
    ]
}

/// The message of a [`ConfigError`], as `to_string()` writes it.
pub open spec fn config_error_text(e: ConfigError) -> Seq<char> {
    match e {
        ConfigError::Read { path, message } => read_error_text(path@, message@),
        ConfigError::Parse { path, message } => parse_error_text(path@, message@),
        ConfigError::MissingLedgerDir { searched_paths } => if searched_paths@.len() == 0 {
            missing_dir_prefix() + set_env_tail()
        } else {
            missing_dir_prefix() + create_in_tail() + paths_message(
                searched_paths@.map_values(|s: String| s@),
            )
        },
    }
}

impl ConfigError {
    /// The message of the error, as `to_string()` writes it.
    pub fn message(&self) -> (r: String)
        ensures
            r@ == config_error_text(*self),
    {
        let mut r = String::new();
        match self {
            ConfigError::Read { path, message } => {
                push_str(&mut r, "failed to read config file '");
                push_str(&mut r, path.as_str());
                push_str(&mut r, "': ");
                push_str(&mut r, message.as_str());
                proof {
                    reveal_strlit("failed to read config file '");
                    reveal_strlit("': ");
                }
                assert(r@ =~= config_error_text(*self));
            },
            ConfigError::Parse { path, message } => {
                push_str(&mut r, "failed to parse config file '");
                push_str(&mut r, path.as_str());
                push_str(&mut r, "': ");
                push_str(&mut r, message.as_str());
                proof {
                    reveal_strlit("failed to parse config file '");
                    reveal_strlit("': ");
                }
                assert(r@ =~= config_error_text(*self));
            },
            ConfigError::MissingLedgerDir { searched_paths } => {
                push_str(&mut r, "no ledger directory configured. Pass --ledger-dir DIR, or ");
                proof {
                    reveal_strlit("no ledger directory configured. Pass --ledger-dir DIR, or ");
                }
                if searched_paths.len() == 0 {
                    push_str(&mut r, "set HOME/XDG_CONFIG_HOME and create a config file");
                    proof {
                        reveal_strlit("set HOME/XDG_CONFIG_HOME and create a config file");
                    }
                } else {
                    push_str(&mut r, "create a config file in: ");
                    proof {
                        reveal_strlit("create a config file in: ");
                    }
                    let list = format_config_paths_for_message(searched_paths);
                    push_str(&mut r, list.as_str());
                }
                assert(r@ =~= config_error_text(*self));
            },
        }
        r
    }
}

/// The index of the first probe that found a file, or the number of probes.
pub open spec fn first_found(probes: Seq<ConfigProbe>) -> nat
    decreases probes.len(),
{
    if probes.len() == 0 {
        0
    } else if probes[0] is Missing {
        1 + first_found(probes.drop_first())
    } else {
        0
    }
}

/// A `--ledger-dir` value is settled on as given, but for a leading `~`:
/// with the home directory `h` known, `~` is `h` and `~/rest` is `rest`
/// under `h` (`h/rest` when `h` does not end with `/` and `rest` is
/// relative), whatever the configuration files say.
pub proof fn lemma_cli_dir_is_expanded(
    r: Result<String, ConfigError>,
    cli: Seq<char>,
    home: Option<Seq<char>>,
    candidates: Seq<Seq<char>>,
    probes: Seq<ConfigProbe>,
)
    requires
        resolution_matches(r, Some(cli), home, candidates, probes),
    ensures
        r is Ok,
        home is Some && cli.len() >= 2 && cli[0] == '~' && cli[1] == '/' ==> r->Ok_0@
            == join_path(home->0, cli.skip(2)),
        home is Some && cli.len() >= 2 && cli[0] == '~' && cli[1] == '/' && home->0.len() > 0
            && home->0.last() != '/' && (cli.len() == 2 || cli[2] != '/') ==> r->Ok_0@ == home->0
            + seq!['/'] + cli.skip(2),
        home is Some && cli =~= seq!['~'] ==> r->Ok_0@ == home->0,
        home is None || cli.len() == 0 || cli[0] != '~' ==> r->Ok_0@ == cli,
{
    if let Some(h) = home {
        if cli.len() >= 2 && cli[0] == '~' && cli[1] == '/' {
            assert(has_prefix(cli, seq!['~', '/'])) by {
                assert(cli.subrange(0, 2) =~= seq!['~', '/']);
            }
        }
        if cli.len() >= 1 && cli[0] != '~' {
            assert(!has_prefix(cli, seq!['~', '/'])) by {
                if has_prefix(cli, seq!['~', '/']) {
                    assert(cli.subrange(0, 2)[0] == cli[0]);
                }
            }
            assert(cli != seq!['~']) by {
                assert(seq!['~'][0] == '~');
            }
        }
    }
}

/// Whether `r` is the outcome of settling on a ledger directory.
pub open spec fn resolution_matches(
    r: Result<String, ConfigError>,
    cli: Option<Seq<char>>,
    home: Option<Seq<char>>,
    candidates: Seq<Seq<char>>,
    probes: Seq<ConfigProbe>,
) -> bool {
    match cli {
        Some(c) => r matches Ok(d) && d@ == expand_home_spec(c, home),
        None => {
            let i = first_found(probes) as int;
            if i < probes.len() && i < candidates.len() {
                match probes[i] {
                    ConfigProbe::Unreadable(m) => r matches Err(ConfigError::Read { path, message })
                        && path@ == candidates[i] && message@ == m@,
                    ConfigProbe::Unparsable(m) => r matches Err(ConfigError::Parse { path, message })
                        && path@ == candidates[i] && message@ == m@,
                    ConfigProbe::LedgerDir(dir) => r matches Ok(d) && d@ == expand_home_spec(
                        dir@,
                        home,
                    ),
                    ConfigProbe::Missing => false,
                }
            } else {
                r matches Err(ConfigError::MissingLedgerDir { searched_paths }) && searched_paths@.map_values(
                    |s: String| s@,
                ) == candidates
            }
        },
    }
}

/// Settles on the ledger directory: the `--ledger-dir` value, else the
/// directory named by the first candidate configuration file that exists,
/// with a leading `~` expanded. `probes[i]` is what was found at the `i`-th
/// candidate path; probing may stop at the first file found.
pub fn resolve_ledger_dir_with_context(
    cli_ledger_dir: Option<&str>,
    context: &ResolveContext,
    probes: &Vec<ConfigProbe>,
) -> (r: Result<String, ConfigError>)
    ensures
        cli_ledger_dir is Some && context.home_dir is Some && cli_ledger_dir->0@.len() >= 2
            && cli_ledger_dir->0@[0] == '~' && cli_ledger_dir->0@[1] == '/' ==> (r is Ok
            && r->Ok_0@ == join_path(context.home_dir->0@, cli_ledger_dir->0@.skip(2))),
        resolution_matches(
            r,
            match cli_ledger_dir {
                Some(c) => Some(c@),
                None => None,
            },
            opt_text(context.home_dir),
            candidates_of(opt_text(context.xdg_config_home), opt_text(context.home_dir)),
            probes@,
        ),
{
    let home = match &context.home_dir {
        Some(h) => Some(h.as_str()),
        None => None,
    };
    assert(match home {
        Some(h) => opt_text(context.home_dir) == Some(h@),
        None => context.home_dir is None,
    });
    if let Some(cli_dir) = cli_ledger_dir {
        proof {
            let c = cli_dir@;
            if c.len() >= 2 && c[0] == '~' && c[1] == '/' {
                assert(has_prefix(c, seq!['~', '/'])) by {
                    assert(c.subrange(0, 2) =~= seq!['~', '/']);
                }
                assert(c != seq!['~']) by {
                    assert(seq!['~'].len() == 1);
                }
            }
        }
        return Ok(expand_home(cli_dir, home));
    }
    let candidates = context.config_candidates();
    let ghost cs = candidates@.map_values(|s: String| s@);
    let mut i: usize = 0;
    assert(probes@.skip(0) =~= probes@);
    while i < probes.len() && i < candidates.len()
        invariant
            i <= probes.len(),
            cli_ledger_dir is None,
            match home {
                Some(h) => opt_text(context.home_dir) == Some(h@),
                None => context.home_dir is None,
            },
            cs == candidates_of(opt_text(context.xdg_config_home), opt_text(context.home_dir)),
            cs == candidates@.map_values(|s: String| s@),
            cs.len() == candidates.len(),
            first_found(probes@) == i + first_found(probes@.skip(i as int)),
        decreases probes.len() - i,
    {
        assert(probes@.skip(i as int)[0] == probes@[i as int]);
        match &probes[i] {
            ConfigProbe::Missing => {},
            ConfigProbe::Unreadable(m) => {
                assert(cs[i as int] == candidates@[i as int]@);
                return Err(ConfigError::Read { path: candidates[i].clone(), message: m.clone() });
            },
            ConfigProbe::Unparsable(m) => {
                assert(cs[i as int] == candidates@[i as int]@);
                return Err(ConfigError::Parse { path: candidates[i].clone(), message: m.clone() });
            },
            ConfigProbe::LedgerDir(dir) => {
                return Ok(expand_home(dir.as_str(), home));
            },
        }
        assert(probes@.skip(i as int).drop_first() =~= probes@.skip(i + 1));
        i = i + 1;
    }
    proof {
        lemma_first_found_bound(probes@.skip(i as int));
        if i < probes.len() {
            lemma_first_found_bound(probes@);
        }
    }
    Err(ConfigError::MissingLedgerDir { searched_paths: candidates })
}

proof fn lemma_first_found_bound(probes: Seq<ConfigProbe>)
    ensures
        first_found(probes) <= probes.len(),
    decreases probes.len(),
{
    if probes.len() > 0 && probes[0] is Missing {
        lemma_first_found_bound(probes.drop_first());
    }
}

} // verus!
