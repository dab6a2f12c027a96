//! The command line: which command to run and with which files.

use vstd::prelude::*;

use crate::paths::{beside, resolve_beside};
use crate::text::{
    join_strings, join_with, starts_with, str_is, str_starts_with, strings_view,
    strip_prefixes, strip_prefixes_str,
};
use crate::url::opt_view;

verus! {

/// The configuration file and, when given, the file that holds the relay's API key.
#[derive(Debug, Clone, PartialEq, Eq)]
pub struct CliPaths {
    pub config_path: String,
    pub api_key_file: Option<String>,
}

pub struct PathsView {
    pub config_path: Seq<char>,
    pub api_key_file: Option<Seq<char>>,
}

impl View for CliPaths {
    type V = PathsView;

    open spec fn view(&self) -> PathsView {
        PathsView { config_path: self.config_path@, api_key_file: opt_view(self.api_key_file) }
    }
}

/// The paths used when the command line names none: the configuration file given from
/// outside, else `/etc/llm-relay/config.yaml`, and the key file given from outside, if any.
pub fn paths_from(config: Option<String>, key: Option<String>) -> (p: CliPaths)
    ensures
        p.config_path@ == match config {
            Some(c) => c@,
            None => "/etc/llm-relay/config.yaml"@,
        },
        opt_view(p.api_key_file) == opt_view(key),
{
    let config_path = match config {
        Some(c) => c,
        None => String::from_str("/etc/llm-relay/config.yaml"),
    };
    CliPaths { config_path, api_key_file: key }
}

/// What the command line asks for.
#[derive(Debug, PartialEq, Eq)]
pub enum Command {
    Run { paths: CliPaths },
    Start,
    Stop,
    Restart,
    Status,
    Logs,
    GenerateKey { paths: CliPaths, force: bool },
    ShowKey { paths: CliPaths },
    Help,
}

pub enum CommandView {
    Run { paths: PathsView },
    Start,
    Stop,
    Restart,
    Status,
    Logs,
    GenerateKey { paths: PathsView, force: bool },
    ShowKey { paths: PathsView },
    Help,
}

impl View for Command {
    type V = CommandView;

    open spec fn view(&self) -> CommandView {
        match self {
            Command::Run { paths } => CommandView::Run { paths: paths@ },
            Command::Start => CommandView::Start,
            Command::Stop => CommandView::Stop,
            Command::Restart => CommandView::Restart,
            Command::Status => CommandView::Status,
            Command::Logs => CommandView::Logs,
            Command::GenerateKey { paths, force } => CommandView::GenerateKey {
                paths: paths@,
                force: *force,
            },
            Command::ShowKey { paths } => CommandView::ShowKey { paths: paths@ },
            Command::Help => CommandView::Help,
        }
    }
}

/// A parse outcome as values.
pub open spec fn outcome_view<T: View>(r: Result<T, String>) -> Result<T::V, Seq<char>> {
    match r {
        Ok(t) => Ok(t@),
        Err(e) => Err(e@),
    }
}

/// The paths that the options from position `i` on select, starting from `acc`.
pub open spec fn paths_after(args: Seq<Seq<char>>, i: int, acc: PathsView) -> Result<
    PathsView,
    Seq<char>,
>
    decreases args.len() - i,
{
    if i < 0 || i >= args.len() {
        Ok(acc)
    } else {
        let a = args[i];
        if a == "-c"@ || a == "--config"@ {
            if i + 1 < args.len() {
                paths_after(
                    args,
                    i + 2,
                    PathsView { config_path: args[i + 1], api_key_file: acc.api_key_file },
                )
            } else {
                Err("missing value after --config"@)
            }
        } else if starts_with(a, "--config="@) {
            let v = strip_prefixes(a, "--config="@);
            if v.len() == 0 {
                Err("missing value after --config="@)
            } else {
                paths_after(args, i + 1, PathsView { config_path: v, api_key_file: acc.api_key_file })
            }
        } else if a == "--api-key-file"@ {
            if i + 1 < args.len() {
                paths_after(
                    args,
                    i + 2,
                    PathsView { config_path: acc.config_path, api_key_file: Some(args[i + 1]) },
                )
            } else {
                Err("missing value after --api-key-file"@)
            }
        } else if starts_with(a, "--api-key-file="@) {
            let v = strip_prefixes(a, "--api-key-file="@);
            if v.len() == 0 {
                Err("missing value after --api-key-file="@)
            } else {
                paths_after(
                    args,
                    i + 1,
                    PathsView { config_path: acc.config_path, api_key_file: Some(v) },
                )
            }
        } else if a == "--help"@ || a == "-h"@ {
            Ok(acc)
        } else {
            Err("unknown option: "@ + a)
        }
    }
}

pub open spec fn is_help_flag(a: Seq<char>) -> bool {
    a == "--help"@ || a == "-h"@
}

pub open spec fn has_help_flag(args: Seq<Seq<char>>) -> bool {
    exists|i: int| 0 <= i < args.len() && is_help_flag(#[trigger] args[i])
}

/// `args` without any `--force`.
pub open spec fn without_force(args: Seq<Seq<char>>) -> Seq<Seq<char>>
    decreases args.len(),
{
    if args.len() == 0 {
        args
    } else if args.last() == "--force"@ {
        without_force(args.drop_last())
    } else {
        without_force(args.drop_last()).push(args.last())
    }
}

fn copy_paths(p: &CliPaths) -> (q: CliPaths)
    ensures
        q@ == p@,
{
    CliPaths {
        config_path: p.config_path.clone(),
        api_key_file: match &p.api_key_file {
            Some(k) => Some(k.clone()),
            None => None,
        },
    }
}

/// Reads `--config`/`-c` and `--api-key-file` options, in either the `--name value` or the
/// `--name=value` form, over `defaults`; stops at `--help`/`-h`.
pub fn parse_paths(args: &[String], defaults: &CliPaths) -> (r: Result<CliPaths, String>)
    ensures
        outcome_view(r) == paths_after(strings_view(args@), 0, defaults@),
{
    let ghost av = strings_view(args@);
    let mut paths = copy_paths(defaults);
    let n = args.len();
    let mut index: usize = 0;
    while index < n
        invariant
            n == args@.len(),
            av == strings_view(args@),
            index <= n,
            paths_after(av, 0, defaults@) == paths_after(av, index as int, paths@),
        decreases n - index,
    {
        let a = args[index].as_str();
        assert(av[index as int] == a@);
        if str_is(a, "-c") || str_is(a, "--config") {
            index = index + 1;
            if index >= n {
                return Err(String::from_str("missing value after --config"));
            }
            assert(av[index as int] == args@[index as int]@);
            paths.config_path = args[index].clone();
        } else if str_starts_with(a, "--config=") {
            let v = strip_prefixes_str(a, "--config=");
            if v.as_str().is_empty() {
                return Err(String::from_str("missing value after --config="));
            }
            paths.config_path = v;
        } else if str_is(a, "--api-key-file") {
            index = index + 1;
            if index >= n {
                return Err(String::from_str("missing value after --api-key-file"));
            }
            assert(av[index as int] == args@[index as int]@);
            paths.api_key_file = Some(args[index].clone());
        } else if str_starts_with(a, "--api-key-file=") {
            let v = strip_prefixes_str(a, "--api-key-file=");
            if v.as_str().is_empty() {
                return Err(String::from_str("missing value after --api-key-file="));
            }
            paths.api_key_file = Some(v);
        } else if str_is(a, "--help") || str_is(a, "-h") {
            return Ok(paths);
        } else {
            let mut m = String::from_str("unknown option: ");
            m.append(a);
            return Err(m);
        }
        index = index + 1;
    }
    Ok(paths)
}

/// Whether any argument is `--help` or `-h`.
pub fn contains_help_flag(args: &[String]) -> (b: bool)
    ensures
        b == has_help_flag(strings_view(args@)),
{
    let ghost av = strings_view(args@);
    let n = args.len();
    for i in 0..n
        invariant
            n == args@.len(),
            av == strings_view(args@),
            forall|j: int| 0 <= j < i ==> !is_help_flag(#[trigger] av[j]),
    {
        assert(av[i as int] == args@[i as int]@);
        if str_is(args[i].as_str(), "--help") || str_is(args[i].as_str(), "-h") {
            return true;
        }
    }
    false
}

/// Takes every `--force` out of `args`; tells whether there was one.
pub fn split_force_flag(args: &[String]) -> (r: Result<(Vec<String>, bool), String>)
    ensures
        r matches Ok((rest, force)) && strings_view(rest@) == without_force(strings_view(args@))
            && force == strings_view(args@).contains("--force"@),
{
    let ghost av = strings_view(args@);
    let mut config_args: Vec<String> = Vec::new();
    let mut force = false;
    let n = args.len();
    for i in 0..n
        invariant
            n == args@.len(),
            av == strings_view(args@),
            strings_view(config_args@) == without_force(av.take(i as int)),
            force == av.take(i as int).contains("--force"@),
    {
        assert(av.take(i + 1).drop_last() =~= av.take(i as int));
        assert(av.take(i + 1).last() == args@[i as int]@);
        if str_is(args[i].as_str(), "--force") {
            force = true;
            assert(av.take(i + 1)[i as int] == "--force"@);
        } else {
            let ghost before = config_args@;
            config_args.push(args[i].clone());
            assert(strings_view(config_args@) =~= strings_view(before).push(args@[i as int]@));
            assert(!av.take(i as int).contains("--force"@) ==> !av.take(i + 1).contains("--force"@)) by {
                if !av.take(i as int).contains("--force"@) {
                    assert forall|j: int| 0 <= j < i + 1 implies #[trigger] av.take(i + 1)[j] != "--force"@ by {
                        if j < i {
                            assert(av.take(i + 1)[j] == av.take(i as int)[j]);
                        }
                    }
                }
            }
            assert(av.take(i as int).contains("--force"@) ==> av.take(i + 1).contains("--force"@)) by {
                if av.take(i as int).contains("--force"@) {
                    let j = choose|j: int| 0 <= j < i && av.take(i as int)[j] == "--force"@;
                    assert(av.take(i + 1)[j] == "--force"@);
                }
            }
        }
    }
    assert(av.take(n as int) =~= av);
    Ok((config_args, force))
}

} // verus!

verus! {

/// Arguments that make the command line a bare `run` with options.
pub open spec fn is_run_option(a: Seq<char>) -> bool {
    ||| a == "-c"@
    ||| a == "--config"@
    ||| a == "--api-key-file"@
    ||| starts_with(a, "--config="@)
    ||| starts_with(a, "--api-key-file="@)
}

/// A command that takes no arguments, given the arguments that follow it.
pub open spec fn bare_command(c: CommandView, rest: Seq<Seq<char>>) -> Result<
    CommandView,
    Seq<char>,
> {
    if rest.len() == 0 {
        Ok(c)
    } else {
        Err("unexpected arguments: "@ + join_with(rest, " "@))
    }
}

pub open spec fn run_with(p: Result<PathsView, Seq<char>>) -> Result<CommandView, Seq<char>> {
    match p {
        Ok(paths) => Ok(CommandView::Run { paths }),
        Err(e) => Err(e),
    }
}

/// The command that a command line (without the program name) asks for, with `defaults`
/// for the paths that it leaves out.
pub open spec fn command_of(args: Seq<Seq<char>>, defaults: PathsView) -> Result<
    CommandView,
    Seq<char>,
> {
    if args.len() == 0 {
        run_with(paths_after(args, 0, defaults))
    } else {
        let c = args[0];
        let rest = args.skip(1);
        if is_help_flag(c) || c == "help"@ {
            Ok(CommandView::Help)
        } else if c == "run"@ {
            if has_help_flag(rest) {
                Ok(CommandView::Help)
            } else {
                run_with(paths_after(rest, 0, defaults))
            }
        } else if c == "start"@ {
            bare_command(CommandView::Start, rest)
        } else if c == "stop"@ {
            bare_command(CommandView::Stop, rest)
        } else if c == "restart"@ {
            bare_command(CommandView::Restart, rest)
        } else if c == "status"@ {
            bare_command(CommandView::Status, rest)
        } else if c == "logs"@ {
            bare_command(CommandView::Logs, rest)
        } else if c == "generate-key"@ {
            if has_help_flag(rest) {
                Ok(CommandView::Help)
            } else {
                match paths_after(without_force(rest), 0, defaults) {
                    Ok(paths) => Ok(
                        CommandView::GenerateKey { paths, force: rest.contains("--force"@) },
                    ),
                    Err(e) => Err(e),
                }
            }
        } else if c == "show-key"@ {
            if has_help_flag(rest) {
                Ok(CommandView::Help)
            } else {
                match paths_after(rest, 0, defaults) {
                    Ok(paths) => Ok(CommandView::ShowKey { paths }),
                    Err(e) => Err(e),
                }
            }
        } else if is_run_option(c) {
            if has_help_flag(args) {
                Ok(CommandView::Help)
            } else {
                run_with(paths_after(args, 0, defaults))
            }
        } else if c.len() > 0 && c[0] == '-' {
            Err("unknown option: "@ + c)
        } else {
            Err("unknown command: "@ + c)
        }
    }
}

/// `command` when no arguments follow it.
pub fn service_command_without_arguments(command: Command, args: &[String]) -> (r: Result<
    Command,
    String,
>)
    ensures
        outcome_view(r) == bare_command(command@, strings_view(args@)),
{
    if args.len() == 0 {
        Ok(command)
    } else {
        let joined = join_strings(args, " ");
        let mut m = String::from_str("unexpected arguments: ");
        m.append(joined.as_str());
        Err(m)
    }
}

fn starts_with_dash(s: &str) -> (b: bool)
    ensures
        b == (s@.len() > 0 && s@[0] == '-'),
{
    let c = crate::text::to_chars(s);
    c.len() > 0 && c[0] == '-'
}

/// Reads the command line (without the program name).
pub fn parse_command_args(args: &[String], defaults: &CliPaths) -> (r: Result<Command, String>)
    ensures
        outcome_view(r) == command_of(strings_view(args@), defaults@),
{
    let ghost av = strings_view(args@);
    let n = args.len();
    if n == 0 {
        return match parse_paths(args, defaults) {
            Ok(paths) => Ok(Command::Run { paths }),
            Err(e) => Err(e),
        };
    }
    let c = args[0].as_str();
    let rest = &args[1..n];
    assert(av[0] == c@);
    assert(strings_view(rest@) =~= av.skip(1));
    if str_is(c, "--help") || str_is(c, "-h") || str_is(c, "help") {
        Ok(Command::Help)
    } else if str_is(c, "run") {
        if contains_help_flag(rest) {
            Ok(Command::Help)
        } else {
            match parse_paths(rest, defaults) {
                Ok(paths) => Ok(Command::Run { paths }),
                Err(e) => Err(e),
            }
        }
    } else if str_is(c, "start") {
        service_command_without_arguments(Command::Start, rest)
    } else if str_is(c, "stop") {
        service_command_without_arguments(Command::Stop, rest)
    } else if str_is(c, "restart") {
        service_command_without_arguments(Command::Restart, rest)
    } else if str_is(c, "status") {
        service_command_without_arguments(Command::Status, rest)
    } else if str_is(c, "logs") {
        service_command_without_arguments(Command::Logs, rest)
    } else if str_is(c, "generate-key") {
        if contains_help_flag(rest) {
            Ok(Command::Help)
        } else {
            match split_force_flag(rest) {
                Ok((config_args, force)) => match parse_paths(config_args.as_slice(), defaults) {
                    Ok(paths) => Ok(Command::GenerateKey { paths, force }),
                    Err(e) => Err(e),
                },
                Err(e) => Err(e),
            }
        }
    } else if str_is(c, "show-key") {
        if contains_help_flag(rest) {
            Ok(Command::Help)
        } else {
            match parse_paths(rest, defaults) {
                Ok(paths) => Ok(Command::ShowKey { paths }),
                Err(e) => Err(e),
            }
        }
    } else if str_is(c, "-c") || str_is(c, "--config") || str_is(c, "--api-key-file")
        || str_starts_with(c, "--config=") || str_starts_with(c, "--api-key-file=") {
        if contains_help_flag(args) {
            Ok(Command::Help)
        } else {
            match parse_paths(args, defaults) {
                Ok(paths) => Ok(Command::Run { paths }),
                Err(e) => Err(e),
            }
        }
    } else if starts_with_dash(c) {
        let mut m = String::from_str("unknown option: ");
        m.append(c);
        Err(m)
    } else {
        let mut m = String::from_str("unknown command: ");
        m.append(c);
        Err(m)
    }
}

/// Where the key file given on the command line lies: absolute as it is, relative beside
/// the configuration file.
pub fn resolve_key_path(config_path: &str, api_key_file: &str) -> (r: String)
    ensures
        r@ == beside(config_path@, api_key_file@),
{
    resolve_beside(config_path, String::from_str(api_key_file))
}

/// Puts the key file given on the command line, if any, into a loaded configuration.
pub fn apply_key_file_override(config: &mut crate::config::Config, paths: &CliPaths)
    ensures
        match paths.api_key_file {
            Some(k) => final(config).security.api_key_file@ == beside(paths.config_path@, k@),
            None => final(config).security.api_key_file@ == old(config).security.api_key_file@,
        },
        final(config).server == old(config).server,
        final(config).runtime == old(config).runtime,
        final(config).timeout == old(config).timeout,
        final(config).pool == old(config).pool,
        final(config).proxy == old(config).proxy,
        final(config).providers == old(config).providers,
{
    match &paths.api_key_file {
        Some(k) => {
            config.security.api_key_file = resolve_key_path(paths.config_path.as_str(), k.as_str());
        },
        None => {},
    }
}

} // verus!

verus! {

proof fn lemma_strip_one_prefix(prefix: Seq<char>, v: Seq<char>)
    requires
        prefix.len() > 0,
        !starts_with(v, prefix),
    ensures
        starts_with(prefix + v, prefix),
        strip_prefixes(prefix + v, prefix) == v,
{
    assert((prefix + v).take(prefix.len() as int) =~= prefix);
    assert((prefix + v).skip(prefix.len() as int) =~= v);
    assert(strip_prefixes(prefix + v, prefix) == strip_prefixes(
        (prefix + v).skip(prefix.len() as int),
        prefix,
    ));
}

/// The configuration file given as `--config value` or as `--config=value` is the same,
/// whatever options follow.
pub proof fn lemma_config_option_forms_agree(
    v: Seq<char>,
    rest: Seq<Seq<char>>,
    defaults: PathsView,
)
    requires
        v.len() > 0,
        !starts_with(v, "--config="@),
    ensures
        paths_after(seq!["--config"@, v] + rest, 0, defaults) == paths_after(
            seq!["--config="@ + v] + rest,
            0,
            defaults,
        ),
{
    reveal_strlit("--config");
    reveal_strlit("--config=");
    reveal_strlit("-c");
    lemma_strip_one_prefix("--config="@, v);
    let a = seq!["--config"@, v] + rest;
    let b = seq!["--config="@ + v] + rest;
    let acc = PathsView { config_path: v, api_key_file: defaults.api_key_file };
    assert(a[0] == "--config"@);
    assert(a[1] == v);
    assert(b[0] == "--config="@ + v);
    assert(b[0] != "--config"@ && b[0] != "-c"@) by {
        assert(b[0].len() != "--config"@.len());
        assert(b[0].len() != "-c"@.len());
    }
    assert(a.skip(2) =~= rest);
    assert(b.skip(1) =~= rest);
    lemma_paths_after_shift(a, b, 2, 1, acc);
}

/// The key file given as `--api-key-file value` or as `--api-key-file=value` is the same,
/// whatever options follow.
pub proof fn lemma_key_file_option_forms_agree(
    v: Seq<char>,
    rest: Seq<Seq<char>>,
    defaults: PathsView,
)
    requires
        v.len() > 0,
        !starts_with(v, "--api-key-file="@),
    ensures
        paths_after(seq!["--api-key-file"@, v] + rest, 0, defaults) == paths_after(
            seq!["--api-key-file="@ + v] + rest,
            0,
            defaults,
        ),
{
    reveal_strlit("--config");
    reveal_strlit("--config=");
    reveal_strlit("-c");
    reveal_strlit("--api-key-file");
    reveal_strlit("--api-key-file=");
    lemma_strip_one_prefix("--api-key-file="@, v);
    let c = seq!["--api-key-file"@, v] + rest;
    let d = seq!["--api-key-file="@ + v] + rest;
    let acc2 = PathsView { config_path: defaults.config_path, api_key_file: Some(v) };
    assert(c[0] == "--api-key-file"@);
    assert(c[1] == v);
    assert(d[0] == "--api-key-file="@ + v);
    assert(c[0] != "--config"@ && c[0] != "-c"@) by {
        assert(c[0].len() != "--config"@.len());
        assert(c[0].len() != "-c"@.len());
    }
    assert(!starts_with(c[0], "--config="@)) by {
        if starts_with(c[0], "--config="@) {
            assert(c[0][2] == "--config="@[2]);
        }
    }
    assert(d[0] != "--config"@ && d[0] != "-c"@ && d[0] != "--api-key-file"@) by {
        assert(d[0].len() != "--config"@.len());
        assert(d[0].len() != "-c"@.len());
        assert(d[0].len() != "--api-key-file"@.len());
    }
    assert(!starts_with(d[0], "--config="@)) by {
        if starts_with(d[0], "--config="@) {
            assert(d[0][2] == "--config="@[2]);
        }
    }
    assert(c.skip(2) =~= rest);
    assert(d.skip(1) =~= rest);
    lemma_paths_after_shift(c, d, 2, 1, acc2);
}

/// Two argument lists that agree after positions `i` and `j` select the same paths from
/// there on.
proof fn lemma_paths_after_shift(
    a: Seq<Seq<char>>,
    b: Seq<Seq<char>>,
    i: int,
    j: int,
    acc: PathsView,
)
    requires
        0 <= i <= a.len(),
        0 <= j <= b.len(),
        a.skip(i) == b.skip(j),
    ensures
        paths_after(a, i, acc) == paths_after(b, j, acc),
    decreases a.len() - i,
{
    assert(a.skip(i).len() == b.skip(j).len());
    assert(a.skip(i).len() == a.len() - i);
    assert(b.skip(j).len() == b.len() - j);
    if i < a.len() {
        assert(j < b.len());
        assert(a[i] == a.skip(i)[0]);
        assert(b[j] == b.skip(j)[0]);
        if i + 1 <= a.len() {
            assert(a.skip(i + 1) =~= a.skip(i).skip(1));
            assert(b.skip(j + 1) =~= b.skip(j).skip(1));
        }
        if i + 2 <= a.len() {
            assert(a[i + 1] == a.skip(i)[1]);
            assert(b[j + 1] == b.skip(j)[1]);
            assert(a.skip(i + 2) =~= a.skip(i).skip(2));
            assert(b.skip(j + 2) =~= b.skip(j).skip(2));
        }
        let x = a[i];
        if x == "-c"@ || x == "--config"@ {
            if i + 1 < a.len() {
                lemma_paths_after_shift(
                    a,
                    b,
                    i + 2,
                    j + 2,
                    PathsView { config_path: a[i + 1], api_key_file: acc.api_key_file },
                );
            }
        } else if starts_with(x, "--config="@) {
            let v = strip_prefixes(x, "--config="@);
            if v.len() != 0 {
                lemma_paths_after_shift(
                    a,
                    b,
                    i + 1,
                    j + 1,
                    PathsView { config_path: v, api_key_file: acc.api_key_file },
                );
            }
        } else if x == "--api-key-file"@ {
            if i + 1 < a.len() {
                lemma_paths_after_shift(
                    a,
                    b,
                    i + 2,
                    j + 2,
                    PathsView { config_path: acc.config_path, api_key_file: Some(a[i + 1]) },
                );
            }
        } else if starts_with(x, "--api-key-file="@) {
            let v = strip_prefixes(x, "--api-key-file="@);
            if v.len() != 0 {
                lemma_paths_after_shift(
                    a,
                    b,
                    i + 1,
                    j + 1,
                    PathsView { config_path: acc.config_path, api_key_file: Some(v) },
                );
            }
        }
    } else {
        assert(b.skip(j).len() == 0);
    }
}

/// The word `run` may be left out: a command line that starts with `-c`, `--config`,
/// `--api-key-file`, `--config=...` or `--api-key-file=...`, or that is empty, asks for the
/// same as `run` followed by it.
pub proof fn lemma_run_word_is_optional(rest: Seq<Seq<char>>, defaults: PathsView)
    requires
        rest.len() == 0 || rest[0] == "-c"@ || rest[0] == "--config"@ || rest[0]
            == "--api-key-file"@ || starts_with(rest[0], "--config="@) || starts_with(
            rest[0],
            "--api-key-file="@,
        ),
    ensures
        command_of(seq!["run"@].add(rest), defaults) == command_of(rest, defaults),
{
    let args = seq!["run"@].add(rest);
    reveal_strlit("--help");
    reveal_strlit("-h");
    reveal_strlit("help");
    reveal_strlit("run");
    reveal_strlit("start");
    reveal_strlit("stop");
    reveal_strlit("restart");
    reveal_strlit("status");
    reveal_strlit("logs");
    reveal_strlit("generate-key");
    reveal_strlit("show-key");
    reveal_strlit("-c");
    reveal_strlit("--config");
    reveal_strlit("--api-key-file");
    reveal_strlit("--config=");
    reveal_strlit("--api-key-file=");
    assert(args[0] == "run"@);
    assert(args.skip(1) =~= rest);
    assert(!is_help_flag(args[0]) && args[0] != "help"@);
    assert(command_of(args, defaults) == if has_help_flag(rest) {
        Ok(CommandView::Help)
    } else {
        run_with(paths_after(rest, 0, defaults))
    });
    if rest.len() > 0 {
        let c = rest[0];
        if c == "-c"@ {
            assert(c.len() == 2 && c[1] == 'c');
        } else if c == "--config"@ {
            assert(c.len() == 8 && c[0] == '-' && c[1] == '-' && c[2] == 'c');
        } else if c == "--api-key-file"@ {
            assert(c.len() == 14 && c[0] == '-');
        } else if starts_with(c, "--config="@) {
            assert(c.len() >= 9 && c.take(9)[0] == '-');
            assert(c[0] == '-');
        } else {
            assert(c.len() >= 15 && c.take(15)[0] == '-');
            assert(c[0] == '-');
        }
        assert(!is_help_flag(c));
        assert(c != "help"@);
        assert(c != "run"@);
        assert(c != "start"@ && c != "stop"@ && c != "restart"@ && c != "status"@);
        assert(c != "logs"@ && c != "generate-key"@ && c != "show-key"@);
        assert(command_of(rest, defaults) == if has_help_flag(rest) {
            Ok(CommandView::Help)
        } else {
            run_with(paths_after(rest, 0, defaults))
        });
    }
}

/// `--api-key-file <path>` on its own runs the relay with that key file and the default
/// configuration file.
pub proof fn lemma_bare_key_file_option_runs(v: Seq<char>, defaults: PathsView)
    requires
        v != "--help"@,
        v != "-h"@,
    ensures
        command_of(seq!["--api-key-file"@, v], defaults) == Ok::<CommandView, Seq<char>>(
            CommandView::Run {
                paths: PathsView { config_path: defaults.config_path, api_key_file: Some(v) },
            },
        ),
{
    let args = seq!["--api-key-file"@, v];
    lemma_run_word_is_optional(args, defaults);
    let with_run = seq!["run"@].add(args);
    assert(with_run.skip(1) =~= args);
    reveal_strlit("run");
    reveal_strlit("help");
    assert(with_run[0] == "run"@);
    reveal_strlit("--api-key-file");
    reveal_strlit("--help");
    reveal_strlit("-h");
    assert(!is_help_flag(with_run[0]) && with_run[0] != "help"@) by {
        assert(with_run[0].len() == 3);
        assert(with_run[0][0] == 'r');
    }
    reveal_strlit("-c");
    reveal_strlit("--config");
    reveal_strlit("--config=");
    assert(!is_help_flag(args[0]));
    assert(!has_help_flag(args)) by {
        assert forall|i: int| 0 <= i < args.len() implies !is_help_flag(#[trigger] args[i]) by {
            if i == 0 {
                assert(args[0].len() == 14);
            } else {
                assert(args[1] == v);
            }
        }
    }
    let acc = PathsView { config_path: defaults.config_path, api_key_file: Some(v) };
    assert(args[0] != "-c"@ && args[0] != "--config"@) by {
        assert(args[0].len() == 14);
    }
    assert(!starts_with(args[0], "--config="@)) by {
        assert(args[0][8] == 'y');
        assert(args[0].take(9)[8] == args[0][8]);
    }
    assert(paths_after(args, 2, acc) == Ok::<PathsView, Seq<char>>(acc));
    assert(paths_after(args, 0, defaults) == paths_after(args, 2, acc));
    assert(command_of(with_run, defaults) == run_with(paths_after(args, 0, defaults)));
}

/// `--help`, `-h` or `help` first asks for the help text, whatever follows; so does
/// `--help` or `-h` anywhere after `run`, `generate-key` or `show-key`.
pub proof fn lemma_help_wins(args: Seq<Seq<char>>, defaults: PathsView)
    requires
        args.len() > 0,
        (args[0] == "--help"@ || args[0] == "-h"@ || args[0] == "help"@) || ((args[0] == "run"@
            || args[0] == "generate-key"@ || args[0] == "show-key"@) && exists|i: int|
            1 <= i < args.len() && (#[trigger] args[i] == "--help"@ || args[i] == "-h"@)),
    ensures
        command_of(args, defaults) == Ok::<CommandView, Seq<char>>(CommandView::Help),
{
    reveal_strlit("--help");
    reveal_strlit("-h");
    reveal_strlit("help");
    reveal_strlit("run");
    reveal_strlit("generate-key");
    reveal_strlit("show-key");
    let c = args[0];
    if !(c == "--help"@ || c == "-h"@ || c == "help"@) {
        let i = choose|i: int| 1 <= i < args.len() && (#[trigger] args[i] == "--help"@ || args[i] == "-h"@);
        let rest = args.skip(1);
        assert(rest[i - 1] == args[i]);
        assert(is_help_flag(rest[i - 1]));
        assert(has_help_flag(rest));
        assert(!is_help_flag(c)) by {
            assert(c.len() >= 3);
        }
        assert(c != "help"@) by {
            if c == "run"@ {
                assert(c.len() == 3);
            } else {
                assert(c.len() == 12 || c.len() == 8);
            }
        }
        if c == "run"@ {
        } else if c == "generate-key"@ {
            assert(c != "run"@ && c != "start"@ && c != "stop"@ && c != "restart"@ && c != "status"@
                && c != "logs"@) by {
                reveal_strlit("start");
                reveal_strlit("stop");
                reveal_strlit("restart");
                reveal_strlit("status");
                reveal_strlit("logs");
                assert(c.len() == 12);
            }
        } else {
            assert(c != "run"@ && c != "start"@ && c != "stop"@ && c != "restart"@ && c != "status"@
                && c != "logs"@ && c != "generate-key"@) by {
                reveal_strlit("start");
                reveal_strlit("stop");
                reveal_strlit("restart");
                reveal_strlit("status");
                reveal_strlit("logs");
                assert(c.len() == 8 && c[1] == 'h');
                assert("restart"@[1] == 'e');
            }
        }
    }
}

/// `start`, `stop`, `restart`, `status` and `logs` take nothing after them: alone they ask
/// for that service command, and with anything after them they are refused.
pub proof fn lemma_service_commands(args: Seq<Seq<char>>, defaults: PathsView)
    requires
        args.len() > 0,
        args[0] == "start"@ || args[0] == "stop"@ || args[0] == "restart"@ || args[0]
            == "status"@ || args[0] == "logs"@,
    ensures
        args.len() == 1 ==> command_of(args, defaults) == Ok::<CommandView, Seq<char>>(
            if args[0] == "start"@ {
                CommandView::Start
            } else if args[0] == "stop"@ {
                CommandView::Stop
            } else if args[0] == "restart"@ {
                CommandView::Restart
            } else if args[0] == "status"@ {
                CommandView::Status
            } else {
                CommandView::Logs
            },
        ),
        args.len() > 1 ==> command_of(args, defaults) is Err,
{
    reveal_strlit("--help");
    reveal_strlit("-h");
    reveal_strlit("help");
    reveal_strlit("run");
    reveal_strlit("start");
    reveal_strlit("stop");
    reveal_strlit("restart");
    reveal_strlit("status");
    reveal_strlit("logs");
    let c = args[0];
    assert(c.len() >= 4 && c.len() <= 7);
    assert(c[0] == 's' || c[0] == 'r' || c[0] == 'l');
    assert(!is_help_flag(c)) by {
        assert("--help"@[0] == '-');
    }
    assert(c != "run"@);
    assert(c != "help"@) by {
        if c.len() == 4 {
            assert(c[0] == 's' || c[0] == 'l');
        }
    }
    if c == "status"@ {
        assert(c != "start"@ && c != "stop"@ && c != "restart"@) by {
            assert(c[3] == 't' && c.len() == 6);
        }
    } else if c == "restart"@ {
        assert(c != "start"@ && c != "stop"@);
    } else if c == "logs"@ {
        assert(c != "start"@ && c != "stop"@ && c != "restart"@ && c != "status"@) by {
            assert(c[0] == 'l');
        }
    } else if c == "stop"@ {
        assert(c != "start"@);
    }
}

/// `generate-key` asks for a forced new key exactly when `--force` is among its arguments.
pub proof fn lemma_force_flag(args: Seq<Seq<char>>, defaults: PathsView)
    requires
        args.len() > 0,
        args[0] == "generate-key"@,
    ensures
        command_of(args, defaults) matches Ok(CommandView::GenerateKey { force, .. }) ==> force
            == exists|i: int| 1 <= i < args.len() && #[trigger] args[i] == "--force"@,
{
    reveal_strlit("generate-key");
    reveal_strlit("--force");
    let rest = args.skip(1);
    assert(rest.contains("--force"@) == exists|i: int|
        1 <= i < args.len() && #[trigger] args[i] == "--force"@) by {
        if rest.contains("--force"@) {
            let j = choose|j: int| 0 <= j < rest.len() && rest[j] == "--force"@;
            assert(args[j + 1] == rest[j]);
        }
        if exists|i: int| 1 <= i < args.len() && #[trigger] args[i] == "--force"@ {
            let i = choose|i: int| 1 <= i < args.len() && #[trigger] args[i] == "--force"@;
            assert(rest[i - 1] == args[i]);
        }
    }
}

} // verus!
