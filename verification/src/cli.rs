//! The command line: the run mode the arguments ask for and the log level
//! the configuration names.
use vstd::prelude::*;
use crate::text::{ascii_lowercase, owned, same_text, to_ascii_lowercase, trim, trimmed};

verus! {

broadcast use vstd::string::group_string_axioms;

#[derive(Debug, Clone, Copy, PartialEq, Eq, Structural)]
pub enum LogLevel {
    Trace,
    Debug,
    Info,
    Warn,
    Error,
}

/// The level a configured name selects: the trimmed name in ASCII lowercase
/// among `trace`, `debug`, `warn` or `warning`, `error`; anything else is `info`.
pub open spec fn level_named(value: Seq<char>) -> LogLevel {
    let v = ascii_lowercase(trim(value));
    if v == "trace"@ {
        LogLevel::Trace
    } else if v == "debug"@ {
        LogLevel::Debug
    } else if v == "warn"@ || v == "warning"@ {
        LogLevel::Warn
    } else if v == "error"@ {
        LogLevel::Error
    } else {
        LogLevel::Info
    }
}

pub fn log_level(value: &str) -> (r: LogLevel)
    ensures
        r == level_named(value@),
{
    let t = trimmed(value);
    let v = to_ascii_lowercase(t.as_str());
    if same_text(v.as_str(), "trace") {
        LogLevel::Trace
    } else if same_text(v.as_str(), "debug") {
        LogLevel::Debug
    } else if same_text(v.as_str(), "warn") || same_text(v.as_str(), "warning") {
        LogLevel::Warn
    } else if same_text(v.as_str(), "error") {
        LogLevel::Error
    } else {
        LogLevel::Info
    }
}

/// The views of the arguments.
pub open spec fn arg_views(args: Seq<String>) -> Seq<Seq<char>> {
    args.map_values(|a: String| a@)
}

/// The position of the first argument equal to `flag`, or the number of arguments.
pub open spec fn flag_position(args: Seq<Seq<char>>, flag: Seq<char>) -> int
    decreases args.len(),
{
    if args.len() == 0 {
        0
    } else if args[0] == flag {
        0
    } else {
        1 + flag_position(args.drop_first(), flag)
    }
}

/// The argument after the first `flag`, when both are there.
pub open spec fn value_after(args: Seq<Seq<char>>, flag: Seq<char>) -> Option<Seq<char>> {
    let p = flag_position(args, flag);
    if p + 1 < args.len() {
        Some(args[p + 1])
    } else {
        None
    }
}

/// What the command line asks for.
pub struct CliOptions {
    pub once: bool,
    pub stats: bool,
    pub console: bool,
    pub gui: bool,
    pub rebuild_fts: bool,
    pub config_path: String,
    /// `Some` when `--search` is given, holding the query that follows it.
    pub search: Option<Option<String>>,
}

fn position_of(args: &Vec<String>, flag: &str) -> (r: usize)
    ensures
        r == flag_position(arg_views(args@), flag@),
        r <= args@.len(),
{
    let ghost a = arg_views(args@);
    let n = args.len();
    let mut i: usize = 0;
    assert(a.skip(0) =~= a);
    while i < n && !same_text(args[i].as_str(), flag)
        invariant
            i <= n == args@.len(),
            a == arg_views(args@),
            flag_position(a, flag@) == i + flag_position(a.skip(i as int), flag@),
        decreases n - i,
    {
        assert(a.skip(i as int)[0] == args@[i as int]@);
        assert(a.skip(i as int).drop_first() =~= a.skip(i + 1));
        i = i + 1;
    }
    if i < n {
        assert(a.skip(i as int)[0] == args@[i as int]@);
    }
    i
}

fn has_flag(args: &Vec<String>, flag: &str) -> (r: bool)
    ensures
        r == arg_views(args@).contains(flag@),
{
    let p = position_of(args, flag);
    proof {
        lemma_flag_position(arg_views(args@), flag@);
    }
    p < args.len()
}

proof fn lemma_flag_position(args: Seq<Seq<char>>, flag: Seq<char>)
    ensures
        0 <= flag_position(args, flag) <= args.len(),
        flag_position(args, flag) < args.len() <==> args.contains(flag),
        flag_position(args, flag) < args.len() ==> args[flag_position(args, flag)] == flag,
    decreases args.len(),
{
    if args.len() > 0 {
        lemma_flag_position(args.drop_first(), flag);
        if args[0] != flag && args.drop_first().contains(flag) {
            let j = choose|j: int| 0 <= j < args.drop_first().len() && args.drop_first()[j] == flag;
            assert(args[j + 1] == flag);
        }
        if args.contains(flag) && args[0] != flag {
            let j = choose|j: int| 0 <= j < args.len() && args[j] == flag;
            assert(args.drop_first()[j - 1] == flag);
        }
    }
}

/// The options for the arguments (the program name included).
pub open spec fn options_for(args: Seq<Seq<char>>, o: CliOptions) -> bool {
    &&& o.once == args.contains("--once"@)
    &&& o.stats == args.contains("--stats"@)
    &&& o.console == (args.contains("--cli"@) || args.contains("--console"@) || args.contains(
        "--terminal"@,
    ))
    &&& o.gui == args.contains("--gui"@)
    &&& o.rebuild_fts == args.contains("--rebuild-fts"@)
    &&& o.config_path@ == match value_after(args, "--config"@) {
        Some(p) => p,
        None => "config.toml"@,
    }
    &&& match o.search {
        None => !args.contains("--search"@),
        Some(q) => args.contains("--search"@) && match q {
            Some(s) => value_after(args, "--search"@) == Some(s@),
            None => value_after(args, "--search"@) is None,
        },
    }
}

impl CliOptions {
    pub fn parse(args: &Vec<String>) -> (o: Self)
        ensures
            options_for(arg_views(args@), o),
    {
        let once = has_flag(args, "--once");
        let stats = has_flag(args, "--stats");
        let console = has_flag(args, "--cli") || has_flag(args, "--console") || has_flag(
            args,
            "--terminal",
        );
        let gui = has_flag(args, "--gui");
        let rebuild_fts = has_flag(args, "--rebuild-fts");
        let ghost a = arg_views(args@);
        let p = position_of(args, "--config");
        let config_path = if p < args.len() && p + 1 < args.len() {
            assert(a[p + 1] == args@[p + 1]@);
            args[p + 1].clone()
        } else {
            owned("config.toml")
        };
        let s = position_of(args, "--search");
        proof {
            lemma_flag_position(a, "--search"@);
        }
        let search = if s < args.len() {
            if s + 1 < args.len() {
                assert(a[s + 1] == args@[s + 1]@);
                Some(Some(args[s + 1].clone()))
            } else {
                Some(None)
            }
        } else {
            None
        };
        CliOptions { once, stats, console, gui, rebuild_fts, config_path, search }
    }
}

/// What the program does.
#[derive(Debug)]
pub enum RunMode {
    RebuildIndex,
    Stats,
    Search(Option<String>),
    Gui,
    Console { once: bool },
}

/// The mode the options select, in this order: rebuilding the index,
/// statistics, a search, the window (asked for, or neither console nor a
/// single run asked for), else the console loop.
pub open spec fn mode_for(o: CliOptions) -> RunMode {
    if o.rebuild_fts {
        RunMode::RebuildIndex
    } else if o.stats {
        RunMode::Stats
    } else if o.search is Some {
        RunMode::Search(o.search->0)
    } else if o.gui || (!o.console && !o.once) {
        RunMode::Gui
    } else {
        RunMode::Console { once: o.once }
    }
}

impl CliOptions {
    pub fn mode(&self) -> (m: RunMode)
        ensures
            m == mode_for(*self),
    {
        if self.rebuild_fts {
            RunMode::RebuildIndex
        } else if self.stats {
            RunMode::Stats
        } else if let Some(q) = &self.search {
            RunMode::Search(crate::models::clone_opt(q))
        } else if (self.gui || (!self.console && !self.once)) && !self.stats {
            RunMode::Gui
        } else {
            RunMode::Console { once: self.once }
        }
    }
}

} // verus!
