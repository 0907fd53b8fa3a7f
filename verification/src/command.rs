//! The command line of `modelhub`: `download`, `list` and `clear`, their
//! options, and what is refused.

use vstd::prelude::*;

use crate::cli::{parse_jobs, parse_jobs_spec};
use crate::text::{chars_of, str_eq, string_of};

verus! {

/// The subcommands.
#[derive(Clone, Copy, Debug, PartialEq, Eq, Structural)]
pub enum Sub {
    Download,
    List,
    Clear,
}

/// The options, with or without a value.
#[derive(Clone, Copy, Debug, PartialEq, Eq, Structural)]
pub enum Opt {
    Revision,
    CacheDir,
    Jobs,
    AllBackends,
    All,
}

/// Why a command line was refused.
#[derive(Clone, Debug, PartialEq, Eq)]
pub enum CliError {
    /// Help was asked for.
    Help,
    /// The version was asked for.
    Version,
    /// No subcommand was given.
    MissingSubcommand,
    /// The first argument is no subcommand.
    UnknownSubcommand(String),
    /// An option the subcommand does not have.
    UnknownArgument(String),
    /// An argument the subcommand does not take.
    UnexpectedArgument(String),
    /// An option was given without its value.
    MissingValue(Opt),
    /// A flag was given a value.
    UnexpectedValue(Opt),
    /// An option was given twice.
    Duplicate(Opt),
    /// `--jobs` was not a positive integer; the message says why.
    InvalidJobs(String),
    /// The model id is required (for `clear`, unless `--all` is given).
    MissingModelId,
    /// `clear` was given both a model id and `--all`.
    Conflict,
}

/// A parsed subcommand.
#[derive(Debug)]
pub enum Command {
    /// Detect every supported backend, download the model once, and link all caches.
    Download {
        model_id: String,
        revision: Option<String>,
        cache_dir: Option<String>,
        jobs: usize,
        all_backends: bool,
    },
    /// List models stored in the modelhub cache.
    List { cache_dir: Option<String> },
    /// Remove one model or all models from the modelhub cache.
    Clear { model_id: Option<String>, all: bool, cache_dir: Option<String> },
}

/// A parsed command line.
#[derive(Debug)]
pub struct Cli {
    pub command: Command,
}

/// The model of an error.
pub enum CliErrorView {
    Help,
    Version,
    MissingSubcommand,
    UnknownSubcommand(Seq<char>),
    UnknownArgument(Seq<char>),
    UnexpectedArgument(Seq<char>),
    MissingValue(Opt),
    UnexpectedValue(Opt),
    Duplicate(Opt),
    InvalidJobs(Seq<char>),
    MissingModelId,
    Conflict,
}

impl View for CliError {
    type V = CliErrorView;

    open spec fn view(&self) -> CliErrorView {
        match self {
            CliError::Help => CliErrorView::Help,
            CliError::Version => CliErrorView::Version,
            CliError::MissingSubcommand => CliErrorView::MissingSubcommand,
            CliError::UnknownSubcommand(s) => CliErrorView::UnknownSubcommand(s@),
            CliError::UnknownArgument(s) => CliErrorView::UnknownArgument(s@),
            CliError::UnexpectedArgument(s) => CliErrorView::UnexpectedArgument(s@),
            CliError::MissingValue(o) => CliErrorView::MissingValue(*o),
            CliError::UnexpectedValue(o) => CliErrorView::UnexpectedValue(*o),
            CliError::Duplicate(o) => CliErrorView::Duplicate(*o),
            CliError::InvalidJobs(s) => CliErrorView::InvalidJobs(s@),
            CliError::MissingModelId => CliErrorView::MissingModelId,
            CliError::Conflict => CliErrorView::Conflict,
        }
    }
}

/// The model of a parsed command.
pub enum CommandView {
    Download {
        model_id: Seq<char>,
        revision: Option<Seq<char>>,
        cache_dir: Option<Seq<char>>,
        jobs: nat,
        all_backends: bool,
    },
    List { cache_dir: Option<Seq<char>> },
    Clear { model_id: Option<Seq<char>>, all: bool, cache_dir: Option<Seq<char>> },
}

impl View for Command {
    type V = CommandView;

    open spec fn view(&self) -> CommandView {
        match self {
            Command::Download { model_id, revision, cache_dir, jobs, all_backends } => CommandView::Download {
                model_id: model_id@,
                revision: crate::unified::opt_view(*revision),
                cache_dir: crate::unified::opt_view(*cache_dir),
                jobs: *jobs as nat,
                all_backends: *all_backends,
            },
            Command::List { cache_dir } => CommandView::List { cache_dir: crate::unified::opt_view(*cache_dir) },
            Command::Clear { model_id, all, cache_dir } => CommandView::Clear {
                model_id: crate::unified::opt_view(*model_id),
                all: *all,
                cache_dir: crate::unified::opt_view(*cache_dir),
            },
        }
    }
}

/// The state of a parse, after some arguments.
pub struct ParseState {
    pub error: Option<CliErrorView>,
    pub sub: Option<Sub>,
    pub pending: Option<Opt>,
    pub raw: bool,
    pub model_id: Option<Seq<char>>,
    pub revision: Option<Seq<char>>,
    pub cache_dir: Option<Seq<char>>,
    pub jobs: Option<nat>,
    pub all_backends: bool,
    pub all: bool,
}

/// The state before any argument.
pub open spec fn initial_state() -> ParseState {
    ParseState {
        error: None,
        sub: None,
        pending: None,
        raw: false,
        model_id: None,
        revision: None,
        cache_dir: None,
        jobs: None,
        all_backends: false,
        all: false,
    }
}

/// The state with an error.
pub open spec fn fail(st: ParseState, e: CliErrorView) -> ParseState {
    ParseState { error: Some(e), ..st }
}

/// Whether an option of the subcommand has been given.
pub open spec fn given(st: ParseState, o: Opt) -> bool {
    match o {
        Opt::Revision => st.revision is Some,
        Opt::CacheDir => st.cache_dir is Some,
        Opt::Jobs => st.jobs is Some,
        Opt::AllBackends => st.all_backends,
        Opt::All => st.all,
    }
}

/// Whether an option takes no value.
pub open spec fn is_flag(o: Opt) -> bool {
    o == Opt::AllBackends || o == Opt::All
}

/// The long option of a subcommand with a given name.
pub open spec fn long_opt(sub: Sub, name: Seq<char>) -> Option<Opt> {
    if name == "cache-dir"@ {
        Some(Opt::CacheDir)
    } else if sub == Sub::Download && name == "revision"@ {
        Some(Opt::Revision)
    } else if sub == Sub::Download && name == "jobs"@ {
        Some(Opt::Jobs)
    } else if sub == Sub::Download && name == "all-backends"@ {
        Some(Opt::AllBackends)
    } else if sub == Sub::Clear && name == "all"@ {
        Some(Opt::All)
    } else {
        None
    }
}

/// The short option of a subcommand with a given letter.
pub open spec fn short_opt(sub: Sub, c: char) -> Option<Opt> {
    if sub == Sub::Download && c == 'r' {
        Some(Opt::Revision)
    } else if sub == Sub::Download && c == 'j' {
        Some(Opt::Jobs)
    } else {
        None
    }
}

/// The state once an option has its value.
pub open spec fn set_value(st: ParseState, o: Opt, v: Seq<char>) -> ParseState {
    let st2 = ParseState { pending: None, ..st };
    match o {
        Opt::Revision => ParseState { revision: Some(v), ..st2 },
        Opt::CacheDir => ParseState { cache_dir: Some(v), ..st2 },
        Opt::Jobs => match parse_jobs_spec(v) {
            Ok(n) => ParseState { jobs: Some(n), ..st2 },
            Err(m) => fail(st2, CliErrorView::InvalidJobs(m)),
        },
        Opt::AllBackends => ParseState { all_backends: true, ..st2 },
        Opt::All => ParseState { all: true, ..st2 },
    }
}

/// The state once an option is met, with the value it came with.
pub open spec fn use_opt(st: ParseState, o: Opt, value: Option<Seq<char>>) -> ParseState {
    if given(st, o) {
        fail(st, CliErrorView::Duplicate(o))
    } else if is_flag(o) {
        match value {
            Some(_) => fail(st, CliErrorView::UnexpectedValue(o)),
            None => set_value(st, o, seq![]),
        }
    } else {
        match value {
            Some(v) => set_value(st, o, v),
            None => ParseState { pending: Some(o), ..st },
        }
    }
}

/// Where the first `=` of a string stands, or -1.
pub open spec fn eq_index(s: Seq<char>) -> int {
    crate::cli::find_from(s, "="@, 0)
}

/// The state once a positional argument is met.
pub open spec fn positional(st: ParseState, t: Seq<char>) -> ParseState {
    match st.sub {
        Some(Sub::List) => fail(st, CliErrorView::UnexpectedArgument(t)),
        _ => if st.model_id is Some {
            fail(st, CliErrorView::UnexpectedArgument(t))
        } else {
            ParseState { model_id: Some(t), ..st }
        },
    }
}

/// The state after one more argument.
pub open spec fn step(st: ParseState, t: Seq<char>) -> ParseState {
    if st.error is Some {
        st
    } else if st.pending is Some {
        if t.len() > 1 && t[0] == '-' {
            fail(st, CliErrorView::MissingValue(st.pending->0))
        } else {
            set_value(st, st.pending->0, t)
        }
    } else if st.sub is None {
        if t == "-h"@ || t == "--help"@ || t == "help"@ {
            fail(st, CliErrorView::Help)
        } else if t == "-V"@ || t == "--version"@ {
            fail(st, CliErrorView::Version)
        } else if t == "download"@ {
            ParseState { sub: Some(Sub::Download), ..st }
        } else if t == "list"@ {
            ParseState { sub: Some(Sub::List), ..st }
        } else if t == "clear"@ {
            ParseState { sub: Some(Sub::Clear), ..st }
        } else if t.len() > 1 && t[0] == '-' {
            fail(st, CliErrorView::UnknownArgument(t))
        } else {
            fail(st, CliErrorView::UnknownSubcommand(t))
        }
    } else if st.raw {
        positional(st, t)
    } else if t == "--"@ {
        ParseState { raw: true, ..st }
    } else if t.len() > 2 && t[0] == '-' && t[1] == '-' {
        let body = t.skip(2);
        let k = eq_index(body);
        let name = if k >= 0 {
            body.take(k)
        } else {
            body
        };
        let value = if k >= 0 {
            Some(body.skip(k + 1))
        } else {
            None
        };
        if name == "help"@ {
            fail(st, CliErrorView::Help)
        } else {
            match long_opt(st.sub->0, name) {
                Some(o) => use_opt(st, o, value),
                None => fail(st, CliErrorView::UnknownArgument(t)),
            }
        }
    } else if t.len() > 1 && t[0] == '-' {
        if t[1] == 'h' {
            fail(st, CliErrorView::Help)
        } else {
            let rest = t.skip(2);
            let value = if rest.len() == 0 {
                None
            } else if rest[0] == '=' {
                Some(rest.skip(1))
            } else {
                Some(rest)
            };
            match short_opt(st.sub->0, t[1]) {
                Some(o) => use_opt(st, o, value),
                None => fail(st, CliErrorView::UnknownArgument(t)),
            }
        }
    } else {
        positional(st, t)
    }
}

/// The state after a list of arguments.
pub open spec fn run(args: Seq<Seq<char>>) -> ParseState
    decreases args.len(),
{
    if args.len() == 0 {
        initial_state()
    } else {
        step(run(args.drop_last()), args.last())
    }
}

/// The outcome of a finished parse: the first error, else a missing value
/// or subcommand, else the subcommand with its defaults (four jobs), where
/// `download` needs a model id and `clear` needs a model id or `--all` but
/// not both.
pub open spec fn finish(st: ParseState) -> Result<CommandView, CliErrorView> {
    if st.error is Some {
        Err(st.error->0)
    } else if st.pending is Some {
        Err(CliErrorView::MissingValue(st.pending->0))
    } else {
        match st.sub {
            None => Err(CliErrorView::MissingSubcommand),
            Some(Sub::Download) => match st.model_id {
                None => Err(CliErrorView::MissingModelId),
                Some(m) => Ok(CommandView::Download {
                    model_id: m,
                    revision: st.revision,
                    cache_dir: st.cache_dir,
                    jobs: match st.jobs {
                        Some(n) => n,
                        None => 4,
                    },
                    all_backends: st.all_backends,
                }),
            },
            Some(Sub::List) => Ok(CommandView::List { cache_dir: st.cache_dir }),
            Some(Sub::Clear) => if st.all && st.model_id is Some {
                Err(CliErrorView::Conflict)
            } else if !st.all && st.model_id is None {
                Err(CliErrorView::MissingModelId)
            } else {
                Ok(CommandView::Clear { model_id: st.model_id, all: st.all, cache_dir: st.cache_dir })
            },
        }
    }
}

/// The arguments after the program name.
pub open spec fn arg_views(args: Seq<&str>) -> Seq<Seq<char>> {
    if args.len() == 0 {
        seq![]
    } else {
        args.map_values(|a: &str| a@).skip(1)
    }
}

/// The parse state as it is built.
struct State {
    error: Option<CliError>,
    sub: Option<Sub>,
    pending: Option<Opt>,
    raw: bool,
    model_id: Option<String>,
    revision: Option<String>,
    cache_dir: Option<String>,
    jobs: Option<usize>,
    all_backends: bool,
    all: bool,
}

impl View for State {
    type V = ParseState;

    closed spec fn view(&self) -> ParseState {
        ParseState {
            error: match self.error {
                Some(e) => Some(e@),
                None => None,
            },
            sub: self.sub,
            pending: self.pending,
            raw: self.raw,
            model_id: crate::unified::opt_view(self.model_id),
            revision: crate::unified::opt_view(self.revision),
            cache_dir: crate::unified::opt_view(self.cache_dir),
            jobs: match self.jobs {
                Some(n) => Some(n as nat),
                None => None,
            },
            all_backends: self.all_backends,
            all: self.all,
        }
    }
}

fn is_given(st: &State, o: Opt) -> (res: bool)
    ensures
        res == given(st@, o),
{
    match o {
        Opt::Revision => st.revision.is_some(),
        Opt::CacheDir => st.cache_dir.is_some(),
        Opt::Jobs => st.jobs.is_some(),
        Opt::AllBackends => st.all_backends,
        Opt::All => st.all,
    }
}

fn exec_set_value(st: &mut State, o: Opt, v: String)
    requires
        old(st).error is None,
    ensures
        final(st)@ == set_value(old(st)@, o, v@),
{
    st.pending = None;
    match o {
        Opt::Revision => {
            st.revision = Some(v);
        },
        Opt::CacheDir => {
            st.cache_dir = Some(v);
        },
        Opt::Jobs => match parse_jobs(v.as_str()) {
            Ok(n) => {
                st.jobs = Some(n);
            },
            Err(m) => {
                st.error = Some(CliError::InvalidJobs(m));
            },
        },
        Opt::AllBackends => {
            st.all_backends = true;
        },
        Opt::All => {
            st.all = true;
        },
    }
}

fn exec_use_opt(st: &mut State, o: Opt, value: Option<String>)
    requires
        old(st).error is None,
    ensures
        final(st)@ == use_opt(old(st)@, o, crate::unified::opt_view(value)),
{
    if is_given(st, o) {
        st.error = Some(CliError::Duplicate(o));
    } else if o == Opt::AllBackends || o == Opt::All {
        match value {
            Some(_) => {
                st.error = Some(CliError::UnexpectedValue(o));
            },
            None => {
                exec_set_value(st, o, String::new());
            },
        }
    } else {
        match value {
            Some(v) => exec_set_value(st, o, v),
            None => {
                st.pending = Some(o);
            },
        }
    }
}

fn exec_positional(st: &mut State, t: &str)
    requires
        old(st).error is None,
    ensures
        final(st)@ == positional(old(st)@, t@),
{
    match st.sub {
        Some(Sub::List) => {
            st.error = Some(CliError::UnexpectedArgument(String::from_str(t)));
        },
        _ => if st.model_id.is_some() {
            st.error = Some(CliError::UnexpectedArgument(String::from_str(t)));
        } else {
            st.model_id = Some(String::from_str(t));
        },
    }
}

fn exec_long_opt(sub: Sub, name: &str) -> (res: Option<Opt>)
    ensures
        res == long_opt(sub, name@),
{
    if str_eq(name, "cache-dir") {
        Some(Opt::CacheDir)
    } else if sub == Sub::Download && str_eq(name, "revision") {
        Some(Opt::Revision)
    } else if sub == Sub::Download && str_eq(name, "jobs") {
        Some(Opt::Jobs)
    } else if sub == Sub::Download && str_eq(name, "all-backends") {
        Some(Opt::AllBackends)
    } else if sub == Sub::Clear && str_eq(name, "all") {
        Some(Opt::All)
    } else {
        None
    }
}

fn exec_step(st: &mut State, t: &str)
    ensures
        final(st)@ == step(old(st)@, t@),
{
    if st.error.is_some() {
        return;
    }
    let tc = chars_of(t);
    let dashed = tc.len() > 1 && tc[0] == '-';
    if let Some(p) = st.pending {
        if dashed {
            st.error = Some(CliError::MissingValue(p));
        } else {
            exec_set_value(st, p, String::from_str(t));
        }
        return;
    }
    match st.sub {
        None => {
            if str_eq(t, "-h") || str_eq(t, "--help") || str_eq(t, "help") {
                st.error = Some(CliError::Help);
            } else if str_eq(t, "-V") || str_eq(t, "--version") {
                st.error = Some(CliError::Version);
            } else if str_eq(t, "download") {
                st.sub = Some(Sub::Download);
            } else if str_eq(t, "list") {
                st.sub = Some(Sub::List);
            } else if str_eq(t, "clear") {
                st.sub = Some(Sub::Clear);
            } else if dashed {
                st.error = Some(CliError::UnknownArgument(String::from_str(t)));
            } else {
                st.error = Some(CliError::UnknownSubcommand(String::from_str(t)));
            }
        },
        Some(sub) => {
            if st.raw {
                exec_positional(st, t);
            } else if str_eq(t, "--") {
                st.raw = true;
            } else if tc.len() > 2 && tc[0] == '-' && tc[1] == '-' {
                let body = crate::cli::string_of_range(&tc, 2, tc.len());
                let ghost bv = t@.skip(2);
                assert(body@ =~= bv);
                let (name, value): (String, Option<String>) = match crate::cli::split_once(body.as_str(), "=") {
                    Some((n, v)) => (n, Some(v)),
                    None => (body, None),
                };
                proof {
                    reveal_strlit("=");
                    crate::cli::lemma_find_from_range_pub(bv, "="@, 0);
                }
                if str_eq(name.as_str(), "help") {
                    st.error = Some(CliError::Help);
                } else {
                    match exec_long_opt(sub, name.as_str()) {
                        Some(o) => exec_use_opt(st, o, value),
                        None => {
                            st.error = Some(CliError::UnknownArgument(String::from_str(t)));
                        },
                    }
                }
            } else if dashed {
                if tc[1] == 'h' {
                    st.error = Some(CliError::Help);
                } else {
                    let rest = crate::cli::string_of_range(&tc, 2, tc.len());
                    assert(rest@ =~= t@.skip(2));
                    let value: Option<String> = if tc.len() == 2 {
                        None
                    } else if tc[2] == '=' {
                        let v = crate::cli::string_of_range(&tc, 3, tc.len());
                        assert(v@ =~= t@.skip(2).skip(1));
                        Some(v)
                    } else {
                        Some(rest)
                    };
                    let short: Option<Opt> = if sub == Sub::Download && tc[1] == 'r' {
                        Some(Opt::Revision)
                    } else if sub == Sub::Download && tc[1] == 'j' {
                        Some(Opt::Jobs)
                    } else {
                        None
                    };
                    match short {
                        Some(o) => exec_use_opt(st, o, value),
                        None => {
                            st.error = Some(CliError::UnknownArgument(String::from_str(t)));
                        },
                    }
                }
            } else {
                exec_positional(st, t);
            }
        },
    }
}

proof fn lemma_run_jobs_positive(args: Seq<Seq<char>>)
    ensures
        run(args).jobs matches Some(n) ==> n >= 1,
    decreases args.len(),
{
    if args.len() > 0 {
        lemma_run_jobs_positive(args.drop_last());
    }
}

/// A download that the command line accepts runs at least one transfer at
/// a time: `--jobs` takes positive numbers only, and the default is four.
pub proof fn law_download_jobs_positive(args: Seq<Seq<char>>)
    ensures
        finish(run(args)) matches Ok(CommandView::Download { jobs, .. }) ==> jobs >= 1,
{
    lemma_run_jobs_positive(args);
}

/// A `clear` that the command line accepts names exactly one target: a
/// model id, or `--all`.
pub proof fn law_clear_names_one_target(args: Seq<Seq<char>>)
    ensures
        finish(run(args)) matches Ok(CommandView::Clear { model_id, all, .. }) ==> (model_id is Some) != all,
{
}

impl Cli {
    /// Parses a command line, the program name first.
    pub fn try_parse_from(args: &[&str]) -> (res: Result<Cli, CliError>)
        ensures
            match res {
                Ok(cli) => finish(run(arg_views(args@))) == Ok::<CommandView, CliErrorView>(cli.command@),
                Err(e) => finish(run(arg_views(args@))) == Err::<CommandView, CliErrorView>(e@),
            },
    {
        let mut st = State {
            error: None,
            sub: None,
            pending: None,
            raw: false,
            model_id: None,
            revision: None,
            cache_dir: None,
            jobs: None,
            all_backends: false,
            all: false,
        };
        let ghost all = args@.map_values(|a: &str| a@);
        if args.len() == 0 {
            assert(arg_views(args@) =~= Seq::<Seq<char>>::empty());
            return Err(CliError::MissingSubcommand);
        }
        let mut i: usize = 1;
        assert(all.skip(1).take(0) =~= Seq::<Seq<char>>::empty());
        while i < args.len()
            invariant
                1 <= i <= args@.len(),
                all == args@.map_values(|a: &str| a@),
                st@ == run(all.skip(1).take(i - 1)),
            decreases args@.len() - i,
        {
            exec_step(&mut st, args[i]);
            proof {
                assert(all.skip(1).take(i as int).drop_last() =~= all.skip(1).take(i - 1));
                assert(all.skip(1).take(i as int).last() == args@[i as int]@);
            }
            i += 1;
        }
        assert(all.skip(1).take(i - 1) =~= all.skip(1));
        if let Some(e) = st.error {
            return Err(e);
        }
        if let Some(p) = st.pending {
            return Err(CliError::MissingValue(p));
        }
        match st.sub {
            None => Err(CliError::MissingSubcommand),
            Some(Sub::Download) => match st.model_id {
                None => Err(CliError::MissingModelId),
                Some(m) => Ok(Cli {
                    command: Command::Download {
                        model_id: m,
                        revision: st.revision,
                        cache_dir: st.cache_dir,
                        jobs: match st.jobs {
                            Some(n) => n,
                            None => 4,
                        },
                        all_backends: st.all_backends,
                    },
                }),
            },
            Some(Sub::List) => Ok(Cli { command: Command::List { cache_dir: st.cache_dir } }),
            Some(Sub::Clear) => if st.all && st.model_id.is_some() {
                Err(CliError::Conflict)
            } else if !st.all && st.model_id.is_none() {
                Err(CliError::MissingModelId)
            } else {
                Ok(Cli { command: Command::Clear { model_id: st.model_id, all: st.all, cache_dir: st.cache_dir } })
            },
        }
    }
}

} // verus!
