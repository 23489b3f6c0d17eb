//! The command line of `ir`: splitting `ir run` and `ir tool run` arguments
//! and choosing the subcommand.
use vstd::prelude::*;

use crate::frontmatter::opt_text;
use crate::rig::rig_client::texts;
use crate::text::{strip_prefix_str, strip_prefix_text, chars_of, is_whitespace, is_ws, split, split_ranges, ranges_view, ranges_within, lemma_split_nonempty, string_of, trim, trim_bounds, text_eq};

verus! {

/// The entries of a `--with` value: its comma-separated pieces, trimmed,
/// without the empty ones, in order.
pub open spec fn nonempty_trimmed(ps: Seq<Seq<char>>) -> Seq<Seq<char>>
    decreases ps.len(),
{
    if ps.len() == 0 {
        Seq::<Seq<char>>::empty()
    } else {
        let rest = nonempty_trimmed(ps.drop_last());
        if trim(ps.last()).len() > 0 {
            rest.push(trim(ps.last()))
        } else {
            rest
        }
    }
}

/// The dependency specs of a `--with` value.
pub open spec fn with_entries(value: Seq<char>) -> Seq<Seq<char>> {
    nonempty_trimmed(split(value, ','))
}

proof fn lemma_split_concat(a: Seq<char>, b: Seq<char>, sep: char)
    ensures
        split(a + seq![sep] + b, sep) == split(a, sep) + split(b, sep),
    decreases b.len(),
{
    let s = a + seq![sep] + b;
    if b.len() == 0 {
        assert(s.drop_last() =~= a);
        assert(s.last() == sep);
        assert(split(b, sep) =~= seq![Seq::<char>::empty()]);
        assert(split(s, sep) =~= split(a, sep) + split(b, sep));
    } else {
        let bd = b.drop_last();
        lemma_split_concat(a, bd, sep);
        lemma_split_nonempty(bd, sep);
        assert(s.drop_last() =~= a + seq![sep] + bd);
        assert(s.last() == b.last());
        let pa = split(a, sep);
        let pb = split(bd, sep);
        let p = split(s.drop_last(), sep);
        assert(p == pa + pb);
        if b.last() == sep {
            assert(split(s, sep) =~= pa + pb.push(Seq::<char>::empty()));
        } else {
            assert(p.last() == pb.last());
            assert(split(s, sep) =~= pa + pb.update(pb.len() - 1, pb.last().push(b.last())));
        }
    }
}

proof fn lemma_nonempty_trimmed_concat(x: Seq<Seq<char>>, y: Seq<Seq<char>>)
    ensures
        nonempty_trimmed(x + y) == nonempty_trimmed(x) + nonempty_trimmed(y),
    decreases y.len(),
{
    if y.len() == 0 {
        assert(x + y =~= x);
        assert(nonempty_trimmed(x) + nonempty_trimmed(y) =~= nonempty_trimmed(x));
    } else {
        lemma_nonempty_trimmed_concat(x, y.drop_last());
        assert((x + y).drop_last() =~= x + y.drop_last());
        assert((x + y).last() == y.last());
        if trim(y.last()).len() > 0 {
            assert(nonempty_trimmed(x + y) =~= nonempty_trimmed(x) + nonempty_trimmed(y));
        } else {
            assert(nonempty_trimmed(x + y) =~= nonempty_trimmed(x) + nonempty_trimmed(y));
        }
    }
}

/// A comma-separated `--with` value declares what its parts declare one
/// after the other: `--with a,b` is `--with a --with b`.
pub proof fn law_with_list_is_repeated_with(a: Seq<char>, b: Seq<char>)
    ensures
        with_entries(a + seq![','] + b) == with_entries(a) + with_entries(b),
{
    lemma_split_concat(a, b, ',');
    lemma_nonempty_trimmed_concat(split(a, ','), split(b, ','));
}

/// Append the dependency specs in a `--with` value, which may be a single
/// spec or a comma-separated list, to `with_deps`. Blank entries are
/// ignored.
pub fn push_with_deps(with_deps: &mut Vec<String>, value: &str)
    ensures
        texts(final(with_deps)@) == texts(old(with_deps)@) + with_entries(value@),
{
    let cs = chars_of(value);
    let rs = split_ranges(cs.as_slice(), ',');
    let ghost ps = split(cs@, ',');
    let ghost start = texts(with_deps@);
    let mut k: usize = 0;
    assert(ps.take(0) == Seq::<Seq<char>>::empty());
    assert(start + Seq::<Seq<char>>::empty() == start);
    while k < rs.len()
        invariant
            k <= rs@.len(),
            ranges_within(cs@, rs@),
            ranges_view(cs@, rs@) == ps,
            ps == split(value@, ','),
            texts(with_deps@) == start + nonempty_trimmed(ps.take(k as int)),
        decreases rs.len() - k,
    {
        let (a, b) = rs[k];
        assert(cs@.subrange(a as int, b as int) == ps[k as int]);
        let ghost t = ps.take(k as int + 1);
        assert(t.drop_last() == ps.take(k as int));
        assert(t.last() == ps[k as int]);
        let (x, y) = trim_bounds(cs.as_slice(), a, b);
        if x < y {
            let ghost before = with_deps@;
            with_deps.push(string_of(cs.as_slice(), x, y));
            assert(texts(with_deps@) =~= texts(before).push(cs@.subrange(x as int, y as int)));
        }
        k = k + 1;
    }
    assert(ps.take(rs@.len() as int) == ps);
}

/// A character that ends the package name in a package ref (`@`, `<`, `>`,
/// `=`, `!` or a space).
pub open spec fn is_ref_stop(c: char) -> bool {
    c == '@' || c == '<' || c == '>' || c == '=' || c == '!' || c == ' '
}

fn is_ref_stop_char(c: char) -> (r: bool)
    ensures
        r == is_ref_stop(c),
{
    c == '@' || c == '<' || c == '>' || c == '=' || c == '!' || c == ' '
}

/// The index of the first `is_ref_stop` character of `s` at or after `i`,
/// or the length of `s`.
pub open spec fn first_stop_from(s: Seq<char>, i: int) -> int
    decreases s.len() - i,
{
    if i < 0 || i >= s.len() {
        s.len() as int
    } else if is_ref_stop(s[i]) {
        i
    } else {
        first_stop_from(s, i + 1)
    }
}

/// An ASCII letter.
pub open spec fn is_ascii_alpha(c: char) -> bool {
    ('a' <= c && c <= 'z') || ('A' <= c && c <= 'Z')
}

/// An ASCII letter or digit.
pub open spec fn is_ascii_alnum(c: char) -> bool {
    is_ascii_alpha(c) || ('0' <= c && c <= '9')
}

/// An R package name: an ASCII letter, then ASCII letters, digits and dots,
/// not ending in a dot.
pub open spec fn r_package_name(s: Seq<char>) -> bool {
    &&& s.len() > 0
    &&& is_ascii_alpha(s[0])
    &&& s.last() != '.'
    &&& forall|i: int| 1 <= i < s.len() ==> is_ascii_alnum(#[trigger] s[i]) || s[i] == '.'
}

fn is_r_package_name_chars(cs: &[char], a: usize, b: usize) -> (r: bool)
    requires
        a <= b <= cs@.len(),
    ensures
        r == r_package_name(cs@.subrange(a as int, b as int)),
{
    let ghost s = cs@.subrange(a as int, b as int);
    if a == b {
        return false;
    }
    let first = cs[a];
    if !(('a' <= first && first <= 'z') || ('A' <= first && first <= 'Z')) {
        return false;
    }
    if cs[b - 1] == '.' {
        return false;
    }
    let mut i = a + 1;
    while i < b
        invariant
            a < i <= b <= cs@.len(),
            s == cs@.subrange(a as int, b as int),
            forall|j: int| 1 <= j < i - a ==> is_ascii_alnum(#[trigger] s[j]) || s[j] == '.',
        decreases b - i,
    {
        let c = cs[i];
        assert(s[i - a] == c);
        if !(('a' <= c && c <= 'z') || ('A' <= c && c <= 'Z') || ('0' <= c && c <= '9') || c == '.') {
            return false;
        }
        i = i + 1;
    }
    true
}

/// Whether `name` is a valid R package name.
pub fn is_r_package_name(name: &str) -> (r: bool)
    ensures
        r == r_package_name(name@),
{
    let cs = chars_of(name);
    proof {
        assert(cs@.subrange(0, cs@.len() as int) == cs@);
    }
    is_r_package_name_chars(cs.as_slice(), 0, cs.len())
}

/// What `infer_self_named_executable` gives: the text before the first
/// version or ref marker, when it is an R package name.
pub open spec fn inferred_executable(package_ref: Seq<char>) -> Option<Seq<char>> {
    let name = package_ref.subrange(0, first_stop_from(package_ref, 0));
    if r_package_name(name) {
        Some(name)
    } else {
        None
    }
}

proof fn lemma_first_stop_bounds(s: Seq<char>, i: int)
    requires
        0 <= i <= s.len(),
    ensures
        i <= first_stop_from(s, i) <= s.len(),
    decreases s.len() - i,
{
    if i < s.len() && !is_ref_stop(s[i]) {
        lemma_first_stop_bounds(s, i + 1);
    }
}

/// The package name that a package ref such as `btw@1.0` or `cli>=3.6`
/// names, when it is a valid R package name.
pub fn infer_self_named_executable(package_ref: &str) -> (r: Option<String>)
    ensures
        match r {
            Some(n) => inferred_executable(package_ref@) == Some(n@),
            None => inferred_executable(package_ref@) is None,
        },
{
    let cs = chars_of(package_ref);
    let mut end: usize = 0;
    while end < cs.len() && !is_ref_stop_char(cs[end])
        invariant
            end <= cs@.len(),
            cs@ == package_ref@,
            first_stop_from(cs@, 0) == first_stop_from(cs@, end as int),
        decreases cs.len() - end,
    {
        end = end + 1;
    }
    assert(first_stop_from(cs@, end as int) == end);
    if is_r_package_name_chars(cs.as_slice(), 0, end) {
        Some(string_of(cs.as_slice(), 0, end))
    } else {
        None
    }
}

/// A command name with no path separator, drive colon or whitespace.
pub open spec fn package_executable_name(s: Seq<char>) -> bool {
    &&& s.len() > 0
    &&& forall|i: int|
        0 <= i < s.len() ==> #[trigger] s[i] != '/' && s[i] != '\\' && s[i] != ':' && !is_ws(s[i])
}

/// Whether `name` can name an executable in a package's `exec/` directory.
pub fn is_package_executable_name(name: &str) -> (r: bool)
    ensures
        r == package_executable_name(name@),
{
    let cs = chars_of(name);
    if cs.len() == 0 {
        return false;
    }
    let mut i: usize = 0;
    while i < cs.len()
        invariant
            i <= cs@.len(),
            cs@ == name@,
            forall|j: int| 0 <= j < i ==> #[trigger] cs@[j] != '/' && cs@[j] != '\\' && cs@[j] != ':'
                && !is_ws(cs@[j]),
        decreases cs.len() - i,
    {
        let c = cs[i];
        if c == '/' || c == '\\' || c == ':' || is_whitespace(c) {
            return false;
        }
        i = i + 1;
    }
    true
}

/// Why the command line was refused.
#[derive(Debug)]
pub enum CliError {
    /// An `-e` with no expression after it.
    MissingExpression,
    /// `--from` given to `ir run`.
    FromOnlyForTool,
    /// An `ir run` `--with` with no value after it.
    RunMissingWith,
    /// An `ir run` `--r-version` with no value after it.
    RunMissingRVersion,
    /// `ir run` with neither a script nor an `-e`.
    MissingScript,
    /// A `--from` with no value after it.
    ToolMissingFrom,
    /// `--from=` with an empty value.
    EmptyFrom,
    /// An `ir tool run` `--with` with no value after it.
    ToolMissingWith,
    /// An `ir tool run` `--r-version` with no value after it.
    ToolMissingRVersion,
    /// `-e` given to `ir tool run`.
    ExpressionNotForTool,
    /// `--from` with no command after the options.
    MissingCommand,
    /// A `--from` command that looks like a path.
    CommandIsPath,
    /// `ir tool run` with no package ref.
    MissingPackageRef,
    /// A bare package ref whose package name cannot be inferred.
    NotInferable,
    /// An unknown `ir` subcommand.
    UnknownCommand(String),
    /// `ir tool` alone.
    ToolSubcommandRequired,
    /// An unknown `ir tool` subcommand.
    UnrecognizedToolSubcommand(String),
    /// `ir cache` alone.
    CacheSubcommandRequired,
    /// An unknown `ir cache` subcommand.
    UnrecognizedSubcommand(String),
    /// An argument that the subcommand does not take.
    UnexpectedArgument(String),
}

pub enum CliErrorView {
    MissingExpression,
    FromOnlyForTool,
    RunMissingWith,
    RunMissingRVersion,
    MissingScript,
    ToolMissingFrom,
    EmptyFrom,
    ToolMissingWith,
    ToolMissingRVersion,
    ExpressionNotForTool,
    MissingCommand,
    CommandIsPath,
    MissingPackageRef,
    NotInferable,
    UnknownCommand(Seq<char>),
    ToolSubcommandRequired,
    UnrecognizedToolSubcommand(Seq<char>),
    CacheSubcommandRequired,
    UnrecognizedSubcommand(Seq<char>),
    UnexpectedArgument(Seq<char>),
}

impl View for CliError {
    type V = CliErrorView;

    open spec fn view(&self) -> CliErrorView {
        match self {
            CliError::MissingExpression => CliErrorView::MissingExpression,
            CliError::FromOnlyForTool => CliErrorView::FromOnlyForTool,
            CliError::RunMissingWith => CliErrorView::RunMissingWith,
            CliError::RunMissingRVersion => CliErrorView::RunMissingRVersion,
            CliError::MissingScript => CliErrorView::MissingScript,
            CliError::ToolMissingFrom => CliErrorView::ToolMissingFrom,
            CliError::EmptyFrom => CliErrorView::EmptyFrom,
            CliError::ToolMissingWith => CliErrorView::ToolMissingWith,
            CliError::ToolMissingRVersion => CliErrorView::ToolMissingRVersion,
            CliError::ExpressionNotForTool => CliErrorView::ExpressionNotForTool,
            CliError::MissingCommand => CliErrorView::MissingCommand,
            CliError::CommandIsPath => CliErrorView::CommandIsPath,
            CliError::MissingPackageRef => CliErrorView::MissingPackageRef,
            CliError::NotInferable => CliErrorView::NotInferable,
            CliError::UnknownCommand(x) => CliErrorView::UnknownCommand(x@),
            CliError::ToolSubcommandRequired => CliErrorView::ToolSubcommandRequired,
            CliError::UnrecognizedToolSubcommand(x) => CliErrorView::UnrecognizedToolSubcommand(x@),
            CliError::CacheSubcommandRequired => CliErrorView::CacheSubcommandRequired,
            CliError::UnrecognizedSubcommand(x) => CliErrorView::UnrecognizedSubcommand(x@),
            CliError::UnexpectedArgument(x) => CliErrorView::UnexpectedArgument(x@),
        }
    }
}

/// The message that a `CliError` is reported with.
pub open spec fn cli_message(e: CliErrorView) -> Seq<char> {
    match e {
        CliErrorView::MissingExpression => "`-e` requires an expression (try `ir run -e '1 + 1'`)"@,
        CliErrorView::FromOnlyForTool => "`--from` is only supported by `ir tool run`"@,
        CliErrorView::RunMissingWith => "`--with` requires a package (try `ir run --with dplyr script.R`)"@,
        CliErrorView::RunMissingRVersion => "`--r-version` requires a version spec (try `ir run --r-version 4.5 script.R`)"@,
        CliErrorView::MissingScript => "`ir run` requires a script path or -e expression (try `ir run script.R`)"@,
        CliErrorView::ToolMissingFrom => "`--from` requires a package ref (try `ir tool run --from cli cli`)"@,
        CliErrorView::EmptyFrom => "`--from` requires a package ref"@,
        CliErrorView::ToolMissingWith => "`--with` requires a package (try `ir tool run --with dplyr btw`)"@,
        CliErrorView::ToolMissingRVersion => "`--r-version` requires a version spec (try `ir tool run --r-version 4.5 btw`)"@,
        CliErrorView::ExpressionNotForTool => "`-e` is not supported by `ir tool run`"@,
        CliErrorView::MissingCommand => "`--from` requires a command to run"@,
        CliErrorView::CommandIsPath => "`--from` requires a command name, not a path"@,
        CliErrorView::MissingPackageRef => "`ir tool run` requires a package ref or `--from <pkg-ref> <command>`"@,
        CliErrorView::NotInferable => "self-named package tools require an inferable package name; use `--from <pkg-ref> <command>`"@,
        CliErrorView::UnknownCommand(x) => "unknown command `"@ + x + "` (try `ir run script.R`)"@,
        CliErrorView::ToolSubcommandRequired => "`ir tool` requires a subcommand"@,
        CliErrorView::UnrecognizedToolSubcommand(x) => "unrecognized tool subcommand `"@ + x + "`"@,
        CliErrorView::CacheSubcommandRequired => "`ir cache` requires a subcommand"@,
        CliErrorView::UnrecognizedSubcommand(x) => "unrecognized subcommand `"@ + x + "`"@,
        CliErrorView::UnexpectedArgument(x) => "unexpected argument `"@ + x + "`"@,
    }
}

impl CliError {
    /// The message this error is reported with.
    pub fn message(&self) -> (m: String)
        ensures
            m@ == cli_message(self@),
    {
        match self {
            CliError::MissingExpression => String::from_str("`-e` requires an expression (try `ir run -e '1 + 1'`)"),
            CliError::FromOnlyForTool => String::from_str("`--from` is only supported by `ir tool run`"),
            CliError::RunMissingWith => String::from_str("`--with` requires a package (try `ir run --with dplyr script.R`)"),
            CliError::RunMissingRVersion => String::from_str("`--r-version` requires a version spec (try `ir run --r-version 4.5 script.R`)"),
            CliError::MissingScript => String::from_str("`ir run` requires a script path or -e expression (try `ir run script.R`)"),
            CliError::ToolMissingFrom => String::from_str("`--from` requires a package ref (try `ir tool run --from cli cli`)"),
            CliError::EmptyFrom => String::from_str("`--from` requires a package ref"),
            CliError::ToolMissingWith => String::from_str("`--with` requires a package (try `ir tool run --with dplyr btw`)"),
            CliError::ToolMissingRVersion => String::from_str("`--r-version` requires a version spec (try `ir tool run --r-version 4.5 btw`)"),
            CliError::ExpressionNotForTool => String::from_str("`-e` is not supported by `ir tool run`"),
            CliError::MissingCommand => String::from_str("`--from` requires a command to run"),
            CliError::CommandIsPath => String::from_str("`--from` requires a command name, not a path"),
            CliError::MissingPackageRef => String::from_str("`ir tool run` requires a package ref or `--from <pkg-ref> <command>`"),
            CliError::NotInferable => String::from_str("self-named package tools require an inferable package name; use `--from <pkg-ref> <command>`"),
            CliError::UnknownCommand(x) => {
                let mut m = String::from_str("unknown command `");
                m.append(x.as_str());
                m.append("` (try `ir run script.R`)");
                m
            },
            CliError::ToolSubcommandRequired => String::from_str("`ir tool` requires a subcommand"),
            CliError::UnrecognizedToolSubcommand(x) => {
                let mut m = String::from_str("unrecognized tool subcommand `");
                m.append(x.as_str());
                m.append("`");
                m
            },
            CliError::CacheSubcommandRequired => String::from_str("`ir cache` requires a subcommand"),
            CliError::UnrecognizedSubcommand(x) => {
                let mut m = String::from_str("unrecognized subcommand `");
                m.append(x.as_str());
                m.append("`");
                m
            },
            CliError::UnexpectedArgument(x) => {
                let mut m = String::from_str("unexpected argument `");
                m.append(x.as_str());
                m.append("`");
                m
            },
        }
    }
}

/// Where the user's program comes from: a script file, or one or more
/// inline `-e` expressions evaluated in its place.
#[derive(Debug)]
pub enum RunSource {
    Script(String),
    Expressions(Vec<String>),
}

pub enum RunSourceView {
    Script(Seq<char>),
    Expressions(Seq<Seq<char>>),
}

impl View for RunSource {
    type V = RunSourceView;

    open spec fn view(&self) -> RunSourceView {
        match self {
            RunSource::Script(s) => RunSourceView::Script(s@),
            RunSource::Expressions(e) => RunSourceView::Expressions(texts(e@)),
        }
    }
}

/// The parts of an `ir run` command line.
#[derive(Debug)]
pub struct RunArgs {
    pub rscript_args: Vec<String>,
    pub with_deps: Vec<String>,
    pub r_requirement: Option<String>,
    pub source: RunSource,
    pub script_args: Vec<String>,
    pub isolated: bool,
}

pub struct RunArgsView {
    pub rscript_args: Seq<Seq<char>>,
    pub with_deps: Seq<Seq<char>>,
    pub r_requirement: Option<Seq<char>>,
    pub source: RunSourceView,
    pub script_args: Seq<Seq<char>>,
    pub isolated: bool,
}


impl View for RunArgs {
    type V = RunArgsView;

    open spec fn view(&self) -> RunArgsView {
        RunArgsView {
            rscript_args: texts(self.rscript_args@),
            with_deps: texts(self.with_deps@),
            r_requirement: opt_text(self.r_requirement),
            source: self.source@,
            script_args: texts(self.script_args@),
            isolated: self.isolated,
        }
    }
}

/// The options gathered while scanning `ir run` arguments.
pub struct RunScan {
    pub rscript_args: Seq<Seq<char>>,
    pub with_deps: Seq<Seq<char>>,
    pub r_requirement: Option<Seq<char>>,
    pub expressions: Seq<Seq<char>>,
    pub isolated: bool,
}

/// Scan `ir run` arguments from index `i`: options are consumed until the
/// first argument that does not start with `-`. Gives the options, the
/// index after the last argument consumed, and that first positional
/// argument, if any.
pub open spec fn run_scan(args: Seq<Seq<char>>, i: int, st: RunScan) -> Result<
    (RunScan, int, Option<Seq<char>>),
    CliErrorView,
>
    decreases args.len() - i,
{
    if i < 0 || i >= args.len() {
        Ok((st, args.len() as int, None))
    } else {
        let a = args[i];
        if a == "-e"@ {
            if i + 1 < args.len() {
                run_scan(args, i + 2, RunScan { expressions: st.expressions.push(args[i + 1]), ..st })
            } else {
                Err(CliErrorView::MissingExpression)
            }
        } else if a == "--from"@ || strip_prefix_text(a, "--from="@) is Some {
            Err(CliErrorView::FromOnlyForTool)
        } else if a == "--with"@ {
            if i + 1 < args.len() {
                run_scan(
                    args,
                    i + 2,
                    RunScan { with_deps: st.with_deps + with_entries(args[i + 1]), ..st },
                )
            } else {
                Err(CliErrorView::RunMissingWith)
            }
        } else if strip_prefix_text(a, "--with="@) is Some {
            run_scan(
                args,
                i + 1,
                RunScan {
                    with_deps: st.with_deps + with_entries(strip_prefix_text(a, "--with="@).unwrap()),
                    ..st
                },
            )
        } else if a == "--r-version"@ {
            if i + 1 < args.len() {
                run_scan(args, i + 2, RunScan { r_requirement: Some(args[i + 1]), ..st })
            } else {
                Err(CliErrorView::RunMissingRVersion)
            }
        } else if strip_prefix_text(a, "--r-version="@) is Some {
            run_scan(
                args,
                i + 1,
                RunScan { r_requirement: strip_prefix_text(a, "--r-version="@), ..st },
            )
        } else if a == "--isolated"@ {
            run_scan(args, i + 1, RunScan { isolated: true, ..st })
        } else if strip_prefix_text(a, "-"@) is Some {
            run_scan(args, i + 1, RunScan { rscript_args: st.rscript_args.push(a), ..st })
        } else {
            Ok((st, i + 1, Some(a)))
        }
    }
}

pub open spec fn empty_run_scan() -> RunScan {
    RunScan {
        rscript_args: Seq::empty(),
        with_deps: Seq::empty(),
        r_requirement: None,
        expressions: Seq::empty(),
        isolated: false,
    }
}

/// What `parse_run_args` gives for `args`. Without `-e` the first
/// positional argument is the script and the rest are its arguments; with
/// `-e` the first positional argument and the rest are all program
/// arguments.
pub open spec fn run_args_of(args: Seq<Seq<char>>) -> Result<RunArgsView, CliErrorView> {
    match run_scan(args, 0, empty_run_scan()) {
        Err(e) => Err(e),
        Ok((st, next, pos)) => {
            let rest = args.subrange(next, args.len() as int);
            if st.expressions.len() == 0 {
                match pos {
                    None => Err(CliErrorView::MissingScript),
                    Some(p) => Ok(
                        RunArgsView {
                            rscript_args: st.rscript_args,
                            with_deps: st.with_deps,
                            r_requirement: st.r_requirement,
                            source: RunSourceView::Script(p),
                            script_args: rest,
                            isolated: st.isolated,
                        },
                    ),
                }
            } else {
                let program_args = match pos {
                    Some(p) => seq![p] + rest,
                    None => rest,
                };
                Ok(
                    RunArgsView {
                        rscript_args: st.rscript_args,
                        with_deps: st.with_deps,
                        r_requirement: st.r_requirement,
                        source: RunSourceView::Expressions(st.expressions),
                        script_args: program_args,
                        isolated: st.isolated,
                    },
                )
            }
        },
    }
}

proof fn lemma_run_scan_extend(args: Seq<Seq<char>>, extra: Seq<Seq<char>>, i: int, st: RunScan)
    requires
        0 <= i,
        run_scan(args, i, st) matches Ok((_, _, Some(_))),
    ensures
        run_scan(args + extra, i, st) == run_scan(args, i, st),
    decreases args.len() - i,
{
    let all = args + extra;
    if i < args.len() {
        let a = args[i];
        assert(all[i] == a);
        if a == "-e"@ {
            assert(all[i + 1] == args[i + 1]);
            lemma_run_scan_extend(
                args,
                extra,
                i + 2,
                RunScan { expressions: st.expressions.push(args[i + 1]), ..st },
            );
        } else if a == "--from"@ || strip_prefix_text(a, "--from="@) is Some {
        } else if a == "--with"@ {
            assert(all[i + 1] == args[i + 1]);
            lemma_run_scan_extend(
                args,
                extra,
                i + 2,
                RunScan { with_deps: st.with_deps + with_entries(args[i + 1]), ..st },
            );
        } else if strip_prefix_text(a, "--with="@) is Some {
            lemma_run_scan_extend(
                args,
                extra,
                i + 1,
                RunScan {
                    with_deps: st.with_deps + with_entries(strip_prefix_text(a, "--with="@).unwrap()),
                    ..st
                },
            );
        } else if a == "--r-version"@ {
            assert(all[i + 1] == args[i + 1]);
            lemma_run_scan_extend(
                args,
                extra,
                i + 2,
                RunScan { r_requirement: Some(args[i + 1]), ..st },
            );
        } else if strip_prefix_text(a, "--r-version="@) is Some {
            lemma_run_scan_extend(
                args,
                extra,
                i + 1,
                RunScan { r_requirement: strip_prefix_text(a, "--r-version="@), ..st },
            );
        } else if a == "--isolated"@ {
            lemma_run_scan_extend(args, extra, i + 1, RunScan { isolated: true, ..st });
        } else if strip_prefix_text(a, "-"@) is Some {
            lemma_run_scan_extend(
                args,
                extra,
                i + 1,
                RunScan { rscript_args: st.rscript_args.push(a), ..st },
            );
        }
    }
}

/// Everything after the script belongs to the script: adding arguments
/// after them changes none of the options and only extends the script's
/// arguments.
pub proof fn law_arguments_after_script_pass_through(args: Seq<Seq<char>>, extra: Seq<Seq<char>>)
    requires
        run_args_of(args) matches Ok(v) && v.source is Script,
    ensures
        run_args_of(args) matches Ok(v) ==> run_args_of(args + extra) == Ok::<
            RunArgsView,
            CliErrorView,
        >(RunArgsView { script_args: v.script_args + extra, ..v }),
{
    lemma_run_scan_bounds(args, 0, empty_run_scan());
    if let Ok((st, next, pos)) = run_scan(args, 0, empty_run_scan()) {
        assert(st.expressions.len() == 0);
        assert(pos is Some);
        lemma_run_scan_extend(args, extra, 0, empty_run_scan());
        assert((args + extra).subrange(next, (args + extra).len() as int) =~= args.subrange(
            next,
            args.len() as int,
        ) + extra);
    }
}

proof fn lemma_run_scan_bounds(args: Seq<Seq<char>>, i: int, st: RunScan)
    requires
        0 <= i,
    ensures
        run_scan(args, i, st) matches Ok((_, next, _)) ==> 0 <= next <= args.len(),
    decreases args.len() - i,
{
    if i < args.len() {
        let a = args[i];
        if a == "-e"@ {
            if i + 1 < args.len() {
                lemma_run_scan_bounds(
                    args,
                    i + 2,
                    RunScan { expressions: st.expressions.push(args[i + 1]), ..st },
                );
            }
        } else if a == "--from"@ || strip_prefix_text(a, "--from="@) is Some {
        } else if a == "--with"@ {
            if i + 1 < args.len() {
                lemma_run_scan_bounds(
                    args,
                    i + 2,
                    RunScan { with_deps: st.with_deps + with_entries(args[i + 1]), ..st },
                );
            }
        } else if strip_prefix_text(a, "--with="@) is Some {
            lemma_run_scan_bounds(
                args,
                i + 1,
                RunScan {
                    with_deps: st.with_deps + with_entries(strip_prefix_text(a, "--with="@).unwrap()),
                    ..st
                },
            );
        } else if a == "--r-version"@ {
            if i + 1 < args.len() {
                lemma_run_scan_bounds(args, i + 2, RunScan { r_requirement: Some(args[i + 1]), ..st });
            }
        } else if strip_prefix_text(a, "--r-version="@) is Some {
            lemma_run_scan_bounds(
                args,
                i + 1,
                RunScan { r_requirement: strip_prefix_text(a, "--r-version="@), ..st },
            );
        } else if a == "--isolated"@ {
            lemma_run_scan_bounds(args, i + 1, RunScan { isolated: true, ..st });
        } else if strip_prefix_text(a, "-"@) is Some {
            lemma_run_scan_bounds(args, i + 1, RunScan { rscript_args: st.rscript_args.push(a), ..st });
        }
    }
}

/// The options of `st` followed by those gathered in `s0`: lists are
/// appended, and a requirement set in `s0` replaces the earlier one.
spec fn run_scan_join(st: RunScan, s0: RunScan) -> RunScan {
    RunScan {
        rscript_args: st.rscript_args + s0.rscript_args,
        with_deps: st.with_deps + s0.with_deps,
        r_requirement: if s0.r_requirement is Some {
            s0.r_requirement
        } else {
            st.r_requirement
        },
        expressions: st.expressions + s0.expressions,
        isolated: st.isolated || s0.isolated,
    }
}

/// A scan result with the options of `st` put before the ones it gathered.
spec fn run_scan_framed(res: Result<(RunScan, int, Option<Seq<char>>), CliErrorView>, st: RunScan)
    -> Result<(RunScan, int, Option<Seq<char>>), CliErrorView> {
    match res {
        Err(e) => Err(e),
        Ok((s0, n, p)) => Ok((run_scan_join(st, s0), n, p)),
    }
}

proof fn lemma_run_join_assoc(a: RunScan, b: RunScan, c: RunScan)
    ensures
        run_scan_join(a, run_scan_join(b, c)) == run_scan_join(run_scan_join(a, b), c),
{
    assert(a.rscript_args + (b.rscript_args + c.rscript_args) =~= (a.rscript_args + b.rscript_args)
        + c.rscript_args);
    assert(a.with_deps + (b.with_deps + c.with_deps) =~= (a.with_deps + b.with_deps) + c.with_deps);
    assert(a.expressions + (b.expressions + c.expressions) =~= (a.expressions + b.expressions)
        + c.expressions);
    assert(run_scan_join(a, run_scan_join(b, c)) =~= run_scan_join(run_scan_join(a, b), c));
}

proof fn lemma_run_frame_compose(args: Seq<Seq<char>>, j: int, st: RunScan, d: RunScan)
    requires
        run_scan(args, j, run_scan_join(st, d)) == run_scan_framed(
            run_scan(args, j, empty_run_scan()),
            run_scan_join(st, d),
        ),
        run_scan(args, j, d) == run_scan_framed(run_scan(args, j, empty_run_scan()), d),
    ensures
        run_scan(args, j, run_scan_join(st, d)) == run_scan_framed(run_scan(args, j, d), st),
{
    if let Ok((s0, n, p)) = run_scan(args, j, empty_run_scan()) {
        lemma_run_join_assoc(st, d, s0);
    }
}

/// Scanning from any options gives the options gathered from none, put
/// after them.
proof fn lemma_run_scan_frame(args: Seq<Seq<char>>, i: int, st: RunScan)
    requires
        0 <= i,
    ensures
        run_scan(args, i, st) == run_scan_framed(run_scan(args, i, empty_run_scan()), st),
    decreases args.len() - i,
{
    let e0 = empty_run_scan();
    if i >= args.len() {
        assert(run_scan_join(st, e0) =~= st);
    } else {
        let a = args[i];
        if a == "-e"@ {
            if i + 1 < args.len() {
                let d = RunScan { expressions: e0.expressions.push(args[i + 1]), ..e0 };
                let st2 = RunScan { expressions: st.expressions.push(args[i + 1]), ..st };
                assert(st2 =~= run_scan_join(st, d));
                lemma_run_scan_frame(args, i + 2, st2);
                lemma_run_scan_frame(args, i + 2, d);
                lemma_run_frame_compose(args, i + 2, st, d);
            }
        } else if a == "--from"@ || strip_prefix_text(a, "--from="@) is Some {
        } else if a == "--with"@ {
            if i + 1 < args.len() {
                let d = RunScan { with_deps: e0.with_deps + with_entries(args[i + 1]), ..e0 };
                let st2 = RunScan { with_deps: st.with_deps + with_entries(args[i + 1]), ..st };
                assert(st2 =~= run_scan_join(st, d));
                lemma_run_scan_frame(args, i + 2, st2);
                lemma_run_scan_frame(args, i + 2, d);
                lemma_run_frame_compose(args, i + 2, st, d);
            }
        } else if strip_prefix_text(a, "--with="@) is Some {
            let w = strip_prefix_text(a, "--with="@).unwrap();
            let d = RunScan { with_deps: e0.with_deps + with_entries(w), ..e0 };
            let st2 = RunScan { with_deps: st.with_deps + with_entries(w), ..st };
            assert(st2 =~= run_scan_join(st, d));
            lemma_run_scan_frame(args, i + 1, st2);
            lemma_run_scan_frame(args, i + 1, d);
            lemma_run_frame_compose(args, i + 1, st, d);
        } else if a == "--r-version"@ {
            if i + 1 < args.len() {
                let d = RunScan { r_requirement: Some(args[i + 1]), ..e0 };
                let st2 = RunScan { r_requirement: Some(args[i + 1]), ..st };
                assert(st2 =~= run_scan_join(st, d));
                lemma_run_scan_frame(args, i + 2, st2);
                lemma_run_scan_frame(args, i + 2, d);
                lemma_run_frame_compose(args, i + 2, st, d);
            }
        } else if strip_prefix_text(a, "--r-version="@) is Some {
            let d = RunScan { r_requirement: strip_prefix_text(a, "--r-version="@), ..e0 };
            let st2 = RunScan { r_requirement: strip_prefix_text(a, "--r-version="@), ..st };
            assert(st2 =~= run_scan_join(st, d));
            lemma_run_scan_frame(args, i + 1, st2);
            lemma_run_scan_frame(args, i + 1, d);
            lemma_run_frame_compose(args, i + 1, st, d);
        } else if a == "--isolated"@ {
            let d = RunScan { isolated: true, ..e0 };
            let st2 = RunScan { isolated: true, ..st };
            assert(st2 =~= run_scan_join(st, d));
            lemma_run_scan_frame(args, i + 1, st2);
            lemma_run_scan_frame(args, i + 1, d);
            lemma_run_frame_compose(args, i + 1, st, d);
        } else if strip_prefix_text(a, "-"@) is Some {
            let d = RunScan { rscript_args: e0.rscript_args.push(a), ..e0 };
            let st2 = RunScan { rscript_args: st.rscript_args.push(a), ..st };
            assert(st2 =~= run_scan_join(st, d));
            lemma_run_scan_frame(args, i + 1, st2);
            lemma_run_scan_frame(args, i + 1, d);
            lemma_run_frame_compose(args, i + 1, st, d);
        } else {
            assert(run_scan_join(st, e0) =~= st);
        }
    }
}

/// Scanning `pre + args` past `pre` is scanning `args`, with the indices
/// moved by the length of `pre`.
proof fn lemma_run_scan_shift(pre: Seq<Seq<char>>, args: Seq<Seq<char>>, i: int, st: RunScan)
    requires
        0 <= i,
    ensures
        run_scan(pre + args, i + pre.len(), st) == match run_scan(args, i, st) {
            Err(e) => Err(e),
            Ok((s, n, p)) => Ok((s, n + pre.len(), p)),
        },
    decreases args.len() - i,
{
    let all = pre + args;
    let k = i + pre.len();
    if i < args.len() {
        let a = args[i];
        assert(all[k] == a);
        if i + 1 < args.len() {
            assert(all[k + 1] == args[i + 1]);
        }
        if a == "-e"@ {
            if i + 1 < args.len() {
                lemma_run_scan_shift(
                    pre,
                    args,
                    i + 2,
                    RunScan { expressions: st.expressions.push(args[i + 1]), ..st },
                );
            }
        } else if a == "--from"@ || strip_prefix_text(a, "--from="@) is Some {
        } else if a == "--with"@ {
            if i + 1 < args.len() {
                lemma_run_scan_shift(
                    pre,
                    args,
                    i + 2,
                    RunScan { with_deps: st.with_deps + with_entries(args[i + 1]), ..st },
                );
            }
        } else if strip_prefix_text(a, "--with="@) is Some {
            lemma_run_scan_shift(
                pre,
                args,
                i + 1,
                RunScan {
                    with_deps: st.with_deps + with_entries(strip_prefix_text(a, "--with="@).unwrap()),
                    ..st
                },
            );
        } else if a == "--r-version"@ {
            if i + 1 < args.len() {
                lemma_run_scan_shift(pre, args, i + 2, RunScan { r_requirement: Some(args[i + 1]), ..st });
            }
        } else if strip_prefix_text(a, "--r-version="@) is Some {
            lemma_run_scan_shift(
                pre,
                args,
                i + 1,
                RunScan { r_requirement: strip_prefix_text(a, "--r-version="@), ..st },
            );
        } else if a == "--isolated"@ {
            lemma_run_scan_shift(pre, args, i + 1, RunScan { isolated: true, ..st });
        } else if strip_prefix_text(a, "-"@) is Some {
            lemma_run_scan_shift(pre, args, i + 1, RunScan { rscript_args: st.rscript_args.push(a), ..st });
        }
    }
}

/// `run_args_of` on a command line that begins with the arguments `pre`
/// of one option, which the scan takes in one step to the options `d`.
proof fn lemma_run_args_after_option(pre: Seq<Seq<char>>, args: Seq<Seq<char>>, d: RunScan)
    requires
        d.expressions.len() == 0,
        run_scan(pre + args, 0, empty_run_scan()) == run_scan(pre + args, pre.len() as int, d),
    ensures
        run_args_of(pre + args) == match run_args_of(args) {
            Err(e) => Err(e),
            Ok(v) => Ok::<RunArgsView, CliErrorView>(
                RunArgsView {
                    rscript_args: d.rscript_args + v.rscript_args,
                    with_deps: d.with_deps + v.with_deps,
                    r_requirement: if v.r_requirement is Some {
                        v.r_requirement
                    } else {
                        d.r_requirement
                    },
                    isolated: d.isolated || v.isolated,
                    ..v
                },
            ),
        },
{
    let e0 = empty_run_scan();
    let all = pre + args;
    lemma_run_scan_shift(pre, args, 0, d);
    lemma_run_scan_frame(args, 0, d);
    lemma_run_scan_bounds(args, 0, e0);
    if let Ok((s0, n, p)) = run_scan(args, 0, e0) {
        assert(run_scan_join(d, s0).expressions =~= s0.expressions);
        assert(all.subrange(n + pre.len(), all.len() as int) =~= args.subrange(n, args.len() as int));
    }
}

/// Law: a leading `--with w` adds the entries of `w` in front of the
/// dependency specs and changes nothing else, whether the program is a
/// script or `-e` expressions; so the dependency specs are the entries of
/// every `--with` value, in order.
pub proof fn law_run_leading_with(w: Seq<char>, args: Seq<Seq<char>>)
    ensures
        run_args_of(seq!["--with"@, w] + args) == match run_args_of(args) {
            Err(e) => Err(e),
            Ok(v) => Ok::<RunArgsView, CliErrorView>(
                RunArgsView { with_deps: with_entries(w) + v.with_deps, ..v },
            ),
        },
{
    reveal_strlit("-e");
    reveal_strlit("--from");
    reveal_strlit("--from=");
    reveal_strlit("--with");
    let pre = seq!["--with"@, w];
    let all = pre + args;
    let e0 = empty_run_scan();
    assert(all[0] == "--with"@);
    assert(all[1] == w);
    assert("--with"@ != "-e"@);
    assert("--with"@[2] != "--from"@[2]);
    assert(strip_prefix_text("--with"@, "--from="@) is None);
    let d = RunScan { with_deps: e0.with_deps + with_entries(all[1]), ..e0 };
    assert(run_scan(all, 0, e0) == run_scan(all, 2, d));
    lemma_run_args_after_option(pre, args, d);
    if let Ok(v) = run_args_of(args) {
        assert(d.rscript_args + v.rscript_args =~= v.rscript_args);
        assert(d.with_deps + v.with_deps =~= with_entries(w) + v.with_deps);
    }
}

/// Law: a leading `--with=w` does what `--with w` does.
pub proof fn law_run_leading_with_equals(w: Seq<char>, args: Seq<Seq<char>>)
    ensures
        run_args_of(seq!["--with="@ + w] + args) == match run_args_of(args) {
            Err(e) => Err(e),
            Ok(v) => Ok::<RunArgsView, CliErrorView>(
                RunArgsView { with_deps: with_entries(w) + v.with_deps, ..v },
            ),
        },
{
    reveal_strlit("-e");
    reveal_strlit("--from");
    reveal_strlit("--from=");
    reveal_strlit("--with");
    reveal_strlit("--with=");
    let a = "--with="@ + w;
    let pre = seq![a];
    let all = pre + args;
    let e0 = empty_run_scan();
    assert(all[0] == a);
    assert(a.subrange(0, 7) =~= "--with="@);
    assert(a.subrange(7, a.len() as int) =~= w);
    assert(a[2] == 'w');
    assert(a != "-e"@);
    assert(a != "--from"@);
    assert(a != "--with"@);
    assert(strip_prefix_text(a, "--from="@) is None);
    assert(strip_prefix_text(a, "--with="@) == Some(w));
    let d = RunScan { with_deps: e0.with_deps + with_entries(w), ..e0 };
    assert(run_scan(all, 0, e0) == run_scan(all, 1, d));
    lemma_run_args_after_option(pre, args, d);
    if let Ok(v) = run_args_of(args) {
        assert(d.rscript_args + v.rscript_args =~= v.rscript_args);
        assert(d.with_deps + v.with_deps =~= with_entries(w) + v.with_deps);
    }
}

/// Law: a leading `--r-version v` asks for `v` unless a later
/// `--r-version` among the options replaces it, and changes nothing else,
/// whether the program is a script or `-e` expressions.
pub proof fn law_run_leading_r_version(v: Seq<char>, args: Seq<Seq<char>>)
    ensures
        run_args_of(seq!["--r-version"@, v] + args) == match run_args_of(args) {
            Err(e) => Err(e),
            Ok(x) => Ok::<RunArgsView, CliErrorView>(
                RunArgsView {
                    r_requirement: if x.r_requirement is Some {
                        x.r_requirement
                    } else {
                        Some(v)
                    },
                    ..x
                },
            ),
        },
{
    reveal_strlit("-e");
    reveal_strlit("--from");
    reveal_strlit("--from=");
    reveal_strlit("--with");
    reveal_strlit("--with=");
    reveal_strlit("--r-version");
    let pre = seq!["--r-version"@, v];
    let all = pre + args;
    let e0 = empty_run_scan();
    assert(all[0] == "--r-version"@);
    assert(all[1] == v);
    assert("--r-version"@ != "-e"@);
    assert("--r-version"@ != "--from"@);
    assert("--r-version"@[2] != "--from="@[2]);
    assert(strip_prefix_text("--r-version"@, "--from="@) is None);
    assert("--r-version"@ != "--with"@);
    assert("--r-version"@[2] != "--with="@[2]);
    assert(strip_prefix_text("--r-version"@, "--with="@) is None);
    let d = RunScan { r_requirement: Some(all[1]), ..e0 };
    assert(run_scan(all, 0, e0) == run_scan(all, 2, d));
    lemma_run_args_after_option(pre, args, d);
    if let Ok(x) = run_args_of(args) {
        assert(d.rscript_args + x.rscript_args =~= x.rscript_args);
        assert(d.with_deps + x.with_deps =~= x.with_deps);
    }
}

fn clone_string(s: &String) -> (r: String)
    ensures
        r@ == s@,
{
    s.clone()
}

/// `args[from..]`, copied.
fn tail_of(args: &Vec<String>, from: usize) -> (r: Vec<String>)
    requires
        from <= args@.len(),
    ensures
        texts(r@) == texts(args@).subrange(from as int, args@.len() as int),
{
    let mut r: Vec<String> = Vec::new();
    let mut i = from;
    while i < args.len()
        invariant
            from <= i <= args@.len(),
            texts(r@) == texts(args@).subrange(from as int, i as int),
        decreases args.len() - i,
    {
        let ghost before = r@;
        r.push(clone_string(&args[i]));
        assert(texts(r@) =~= texts(before).push(args@[i as int]@));
        assert(texts(args@).subrange(from as int, i + 1) =~= texts(args@).subrange(
            from as int,
            i as int,
        ).push(args@[i as int]@));
        i = i + 1;
    }
    r
}

/// Split the leading region of `ir run`'s arguments into Rscript options,
/// `--with` dependency specs, an optional `--r-version` spec, and the
/// program source, with everything after the source treated as program
/// arguments.
pub fn parse_run_args(args: Vec<String>) -> (r: Result<RunArgs, CliError>)
    ensures
        match r {
            Ok(v) => run_args_of(texts(args@)) == Ok::<RunArgsView, CliErrorView>(v@),
            Err(e) => run_args_of(texts(args@)) == Err::<RunArgsView, CliErrorView>(e@),
        },
{
    let ghost av = texts(args@);
    let mut rscript_args: Vec<String> = Vec::new();
    let mut with_deps: Vec<String> = Vec::new();
    let mut r_requirement: Option<String> = None;
    let mut expressions: Vec<String> = Vec::new();
    let mut isolated = false;
    let mut positional: Option<String> = None;
    let mut i: usize = 0;
    assert(texts(rscript_args@) =~= Seq::<Seq<char>>::empty());
    assert(texts(with_deps@) =~= Seq::<Seq<char>>::empty());
    assert(texts(expressions@) =~= Seq::<Seq<char>>::empty());
    while i < args.len()
        invariant_except_break
            i <= args@.len(),
            positional is None,
            av == texts(args@),
            run_scan(av, 0, empty_run_scan()) == run_scan(
                av,
                i as int,
                RunScan {
                    rscript_args: texts(rscript_args@),
                    with_deps: texts(with_deps@),
                    r_requirement: opt_text(r_requirement),
                    expressions: texts(expressions@),
                    isolated,
                },
            ),
        ensures
            i <= args@.len(),
            av == texts(args@),
            run_scan(av, 0, empty_run_scan()) == Ok::<
                (RunScan, int, Option<Seq<char>>),
                CliErrorView,
            >(
                (
                    RunScan {
                        rscript_args: texts(rscript_args@),
                        with_deps: texts(with_deps@),
                        r_requirement: opt_text(r_requirement),
                        expressions: texts(expressions@),
                        isolated,
                    },
                    i as int,
                    opt_text(positional),
                ),
            ),
        decreases args.len() - i,
    {
        let arg = clone_string(&args[i]);
        assert(av[i as int] == arg@);
        if text_eq(arg.as_str(), "-e") {
            if i + 1 < args.len() {
                let ghost before = expressions@;
                expressions.push(clone_string(&args[i + 1]));
                assert(texts(expressions@) =~= texts(before).push(av[i + 1]));
                i = i + 2;
            } else {
                return Err(CliError::MissingExpression);
            }
        } else if text_eq(arg.as_str(), "--from") || strip_prefix_str(arg.as_str(), "--from=").is_some() {
            return Err(CliError::FromOnlyForTool);
        } else if text_eq(arg.as_str(), "--with") {
            if i + 1 < args.len() {
                push_with_deps(&mut with_deps, args[i + 1].as_str());
                i = i + 2;
            } else {
                return Err(CliError::RunMissingWith);
            }
        } else if let Some(v) = strip_prefix_str(arg.as_str(), "--with=") {
            push_with_deps(&mut with_deps, v.as_str());
            i = i + 1;
        } else if text_eq(arg.as_str(), "--r-version") {
            if i + 1 < args.len() {
                r_requirement = Some(clone_string(&args[i + 1]));
                i = i + 2;
            } else {
                return Err(CliError::RunMissingRVersion);
            }
        } else if let Some(v) = strip_prefix_str(arg.as_str(), "--r-version=") {
            r_requirement = Some(v);
            i = i + 1;
        } else if text_eq(arg.as_str(), "--isolated") {
            isolated = true;
            i = i + 1;
        } else if strip_prefix_str(arg.as_str(), "-").is_some() {
            let ghost before = rscript_args@;
            rscript_args.push(arg);
            assert(texts(rscript_args@) =~= texts(before).push(av[i as int]));
            i = i + 1;
        } else {
            positional = Some(arg);
            i = i + 1;
            break;
        }
    }
    let script_args = tail_of(&args, i);
    if expressions.len() == 0 {
        match positional {
            None => Err(CliError::MissingScript),
            Some(p) => Ok(
                RunArgs {
                    rscript_args,
                    with_deps,
                    r_requirement,
                    source: RunSource::Script(p),
                    script_args,
                    isolated,
                },
            ),
        }
    } else {
        let mut program_args: Vec<String> = Vec::new();
        let ghost rest = texts(script_args@);
        match positional {
            Some(p) => {
                program_args.push(p);
            },
            None => {},
        }
        let mut k: usize = 0;
        let ghost head = texts(program_args@);
        while k < script_args.len()
            invariant
                k <= script_args@.len(),
                rest == texts(script_args@),
                texts(program_args@) == head + rest.subrange(0, k as int),
            decreases script_args.len() - k,
        {
            let ghost before = program_args@;
            program_args.push(clone_string(&script_args[k]));
            assert(texts(program_args@) =~= texts(before).push(rest[k as int]));
            assert(rest.subrange(0, k + 1) =~= rest.subrange(0, k as int).push(rest[k as int]));
            k = k + 1;
        }
        assert(rest.subrange(0, rest.len() as int) == rest);
        assert(head + rest == match opt_text(positional) {
            Some(p) => seq![p] + rest,
            None => rest,
        });
        Ok(
            RunArgs {
                rscript_args,
                with_deps,
                r_requirement,
                source: RunSource::Expressions(expressions),
                script_args: program_args,
                isolated,
            },
        )
    }
}


/// The package a tool run resolves and the executable it runs from it.
#[derive(Debug)]
pub struct PackageExecTarget {
    pub package_ref: String,
    pub package_name: Option<String>,
    pub executable: String,
}

pub struct PackageExecTargetView {
    pub package_ref: Seq<char>,
    pub package_name: Option<Seq<char>>,
    pub executable: Seq<char>,
}

impl View for PackageExecTarget {
    type V = PackageExecTargetView;

    open spec fn view(&self) -> PackageExecTargetView {
        PackageExecTargetView {
            package_ref: self.package_ref@,
            package_name: opt_text(self.package_name),
            executable: self.executable@,
        }
    }
}

/// The parts of an `ir tool run` command line.
#[derive(Debug)]
pub struct ToolRunArgs {
    pub rscript_args: Vec<String>,
    pub with_deps: Vec<String>,
    pub r_requirement: Option<String>,
    pub target: PackageExecTarget,
    pub tool_args: Vec<String>,
}

pub struct ToolRunArgsView {
    pub rscript_args: Seq<Seq<char>>,
    pub with_deps: Seq<Seq<char>>,
    pub r_requirement: Option<Seq<char>>,
    pub target: PackageExecTargetView,
    pub tool_args: Seq<Seq<char>>,
}

impl View for ToolRunArgs {
    type V = ToolRunArgsView;

    open spec fn view(&self) -> ToolRunArgsView {
        ToolRunArgsView {
            rscript_args: texts(self.rscript_args@),
            with_deps: texts(self.with_deps@),
            r_requirement: opt_text(self.r_requirement),
            target: self.target@,
            tool_args: texts(self.tool_args@),
        }
    }
}

/// The options gathered while scanning `ir tool run` arguments.
pub struct ToolScan {
    pub rscript_args: Seq<Seq<char>>,
    pub with_deps: Seq<Seq<char>>,
    pub r_requirement: Option<Seq<char>>,
    pub from: Option<Seq<char>>,
}

pub open spec fn empty_tool_scan() -> ToolScan {
    ToolScan {
        rscript_args: Seq::empty(),
        with_deps: Seq::empty(),
        r_requirement: None,
        from: None,
    }
}

/// Scan `ir tool run` arguments from index `i`, as `run_scan` does for
/// `ir run`; `--isolated` is accepted and changes nothing.
pub open spec fn tool_scan(args: Seq<Seq<char>>, i: int, st: ToolScan) -> Result<
    (ToolScan, int, Option<Seq<char>>),
    CliErrorView,
>
    decreases args.len() - i,
{
    if i < 0 || i >= args.len() {
        Ok((st, args.len() as int, None))
    } else {
        let a = args[i];
        if a == "--from"@ {
            if i + 1 < args.len() {
                tool_scan(args, i + 2, ToolScan { from: Some(args[i + 1]), ..st })
            } else {
                Err(CliErrorView::ToolMissingFrom)
            }
        } else if strip_prefix_text(a, "--from="@) is Some {
            if strip_prefix_text(a, "--from="@).unwrap().len() == 0 {
                Err(CliErrorView::EmptyFrom)
            } else {
                tool_scan(args, i + 1, ToolScan { from: strip_prefix_text(a, "--from="@), ..st })
            }
        } else if a == "--with"@ {
            if i + 1 < args.len() {
                tool_scan(
                    args,
                    i + 2,
                    ToolScan { with_deps: st.with_deps + with_entries(args[i + 1]), ..st },
                )
            } else {
                Err(CliErrorView::ToolMissingWith)
            }
        } else if strip_prefix_text(a, "--with="@) is Some {
            tool_scan(
                args,
                i + 1,
                ToolScan {
                    with_deps: st.with_deps + with_entries(strip_prefix_text(a, "--with="@).unwrap()),
                    ..st
                },
            )
        } else if a == "--r-version"@ {
            if i + 1 < args.len() {
                tool_scan(args, i + 2, ToolScan { r_requirement: Some(args[i + 1]), ..st })
            } else {
                Err(CliErrorView::ToolMissingRVersion)
            }
        } else if strip_prefix_text(a, "--r-version="@) is Some {
            tool_scan(
                args,
                i + 1,
                ToolScan { r_requirement: strip_prefix_text(a, "--r-version="@), ..st },
            )
        } else if a == "--isolated"@ {
            tool_scan(args, i + 1, st)
        } else if a == "-e"@ {
            Err(CliErrorView::ExpressionNotForTool)
        } else if strip_prefix_text(a, "-"@) is Some {
            tool_scan(args, i + 1, ToolScan { rscript_args: st.rscript_args.push(a), ..st })
        } else {
            Ok((st, i + 1, Some(a)))
        }
    }
}

/// The target of a tool run: with `--from`, the positional argument is the
/// command, which must be a plain name; without it, the positional argument
/// is a package ref whose inferred package name is also the command.
pub open spec fn tool_target_of(from: Option<Seq<char>>, pos: Option<Seq<char>>) -> Result<
    PackageExecTargetView,
    CliErrorView,
> {
    match from {
        Some(package_ref) => match pos {
            None => Err(CliErrorView::MissingCommand),
            Some(exe) => if !package_executable_name(exe) {
                Err(CliErrorView::CommandIsPath)
            } else {
                Ok(
                    PackageExecTargetView {
                        package_ref,
                        package_name: inferred_executable(package_ref),
                        executable: exe,
                    },
                )
            },
        },
        None => match pos {
            None => Err(CliErrorView::MissingPackageRef),
            Some(package_ref) => match inferred_executable(package_ref) {
                None => Err(CliErrorView::NotInferable),
                Some(exe) => Ok(
                    PackageExecTargetView { package_ref, package_name: Some(exe), executable: exe },
                ),
            },
        },
    }
}

/// What `parse_tool_run_args` gives for `args`.
pub open spec fn tool_run_args_of(args: Seq<Seq<char>>) -> Result<ToolRunArgsView, CliErrorView> {
    match tool_scan(args, 0, empty_tool_scan()) {
        Err(e) => Err(e),
        Ok((st, next, pos)) => match tool_target_of(st.from, pos) {
            Err(e) => Err(e),
            Ok(target) => Ok(
                ToolRunArgsView {
                    rscript_args: st.rscript_args,
                    with_deps: st.with_deps,
                    r_requirement: st.r_requirement,
                    target,
                    tool_args: args.subrange(next, args.len() as int),
                },
            ),
        },
    }
}

/// The options of `st` followed by those gathered in `s0`: lists are
/// appended, and a value set in `s0` replaces the earlier one.
spec fn tool_scan_join(st: ToolScan, s0: ToolScan) -> ToolScan {
    ToolScan {
        rscript_args: st.rscript_args + s0.rscript_args,
        with_deps: st.with_deps + s0.with_deps,
        r_requirement: if s0.r_requirement is Some {
            s0.r_requirement
        } else {
            st.r_requirement
        },
        from: if s0.from is Some {
            s0.from
        } else {
            st.from
        },
    }
}

/// A scan result with the options of `st` put before the ones it gathered.
spec fn tool_scan_framed(
    res: Result<(ToolScan, int, Option<Seq<char>>), CliErrorView>,
    st: ToolScan,
) -> Result<(ToolScan, int, Option<Seq<char>>), CliErrorView> {
    match res {
        Err(e) => Err(e),
        Ok((s0, n, p)) => Ok((tool_scan_join(st, s0), n, p)),
    }
}

proof fn lemma_tool_join_assoc(a: ToolScan, b: ToolScan, c: ToolScan)
    ensures
        tool_scan_join(a, tool_scan_join(b, c)) == tool_scan_join(tool_scan_join(a, b), c),
{
    assert(a.rscript_args + (b.rscript_args + c.rscript_args) =~= (a.rscript_args + b.rscript_args)
        + c.rscript_args);
    assert(a.with_deps + (b.with_deps + c.with_deps) =~= (a.with_deps + b.with_deps) + c.with_deps);
    assert(tool_scan_join(a, tool_scan_join(b, c)) =~= tool_scan_join(tool_scan_join(a, b), c));
}

proof fn lemma_tool_frame_compose(args: Seq<Seq<char>>, j: int, st: ToolScan, d: ToolScan)
    requires
        tool_scan(args, j, tool_scan_join(st, d)) == tool_scan_framed(
            tool_scan(args, j, empty_tool_scan()),
            tool_scan_join(st, d),
        ),
        tool_scan(args, j, d) == tool_scan_framed(tool_scan(args, j, empty_tool_scan()), d),
    ensures
        tool_scan(args, j, tool_scan_join(st, d)) == tool_scan_framed(tool_scan(args, j, d), st),
{
    if let Ok((s0, n, p)) = tool_scan(args, j, empty_tool_scan()) {
        lemma_tool_join_assoc(st, d, s0);
    }
}

/// Scanning from any options gives the options gathered from none, put
/// after them.
proof fn lemma_tool_scan_frame(args: Seq<Seq<char>>, i: int, st: ToolScan)
    requires
        0 <= i,
    ensures
        tool_scan(args, i, st) == tool_scan_framed(tool_scan(args, i, empty_tool_scan()), st),
    decreases args.len() - i,
{
    let e0 = empty_tool_scan();
    if i >= args.len() {
        assert(tool_scan_join(st, e0) =~= st);
    } else {
        let a = args[i];
        if a == "--from"@ {
            if i + 1 < args.len() {
                let d = ToolScan { from: Some(args[i + 1]), ..e0 };
                let st2 = ToolScan { from: Some(args[i + 1]), ..st };
                assert(st2 =~= tool_scan_join(st, d));
                lemma_tool_scan_frame(args, i + 2, st2);
                lemma_tool_scan_frame(args, i + 2, d);
                lemma_tool_frame_compose(args, i + 2, st, d);
            }
        } else if strip_prefix_text(a, "--from="@) is Some {
            if strip_prefix_text(a, "--from="@).unwrap().len() != 0 {
                let d = ToolScan { from: strip_prefix_text(a, "--from="@), ..e0 };
                let st2 = ToolScan { from: strip_prefix_text(a, "--from="@), ..st };
                assert(st2 =~= tool_scan_join(st, d));
                lemma_tool_scan_frame(args, i + 1, st2);
                lemma_tool_scan_frame(args, i + 1, d);
                lemma_tool_frame_compose(args, i + 1, st, d);
            }
        } else if a == "--with"@ {
            if i + 1 < args.len() {
                let d = ToolScan { with_deps: e0.with_deps + with_entries(args[i + 1]), ..e0 };
                let st2 = ToolScan { with_deps: st.with_deps + with_entries(args[i + 1]), ..st };
                assert(st2 =~= tool_scan_join(st, d));
                lemma_tool_scan_frame(args, i + 2, st2);
                lemma_tool_scan_frame(args, i + 2, d);
                lemma_tool_frame_compose(args, i + 2, st, d);
            }
        } else if strip_prefix_text(a, "--with="@) is Some {
            let w = strip_prefix_text(a, "--with="@).unwrap();
            let d = ToolScan { with_deps: e0.with_deps + with_entries(w), ..e0 };
            let st2 = ToolScan { with_deps: st.with_deps + with_entries(w), ..st };
            assert(st2 =~= tool_scan_join(st, d));
            lemma_tool_scan_frame(args, i + 1, st2);
            lemma_tool_scan_frame(args, i + 1, d);
            lemma_tool_frame_compose(args, i + 1, st, d);
        } else if a == "--r-version"@ {
            if i + 1 < args.len() {
                let d = ToolScan { r_requirement: Some(args[i + 1]), ..e0 };
                let st2 = ToolScan { r_requirement: Some(args[i + 1]), ..st };
                assert(st2 =~= tool_scan_join(st, d));
                lemma_tool_scan_frame(args, i + 2, st2);
                lemma_tool_scan_frame(args, i + 2, d);
                lemma_tool_frame_compose(args, i + 2, st, d);
            }
        } else if strip_prefix_text(a, "--r-version="@) is Some {
            let d = ToolScan { r_requirement: strip_prefix_text(a, "--r-version="@), ..e0 };
            let st2 = ToolScan { r_requirement: strip_prefix_text(a, "--r-version="@), ..st };
            assert(st2 =~= tool_scan_join(st, d));
            lemma_tool_scan_frame(args, i + 1, st2);
            lemma_tool_scan_frame(args, i + 1, d);
            lemma_tool_frame_compose(args, i + 1, st, d);
        } else if a == "--isolated"@ {
            lemma_tool_scan_frame(args, i + 1, st);
        } else if a == "-e"@ {
        } else if strip_prefix_text(a, "-"@) is Some {
            let d = ToolScan { rscript_args: e0.rscript_args.push(a), ..e0 };
            let st2 = ToolScan { rscript_args: st.rscript_args.push(a), ..st };
            assert(st2 =~= tool_scan_join(st, d));
            lemma_tool_scan_frame(args, i + 1, st2);
            lemma_tool_scan_frame(args, i + 1, d);
            lemma_tool_frame_compose(args, i + 1, st, d);
        } else {
            assert(tool_scan_join(st, e0) =~= st);
        }
    }
}

/// Scanning `pre + args` past `pre` is scanning `args`, with the indices
/// moved by the length of `pre`.
proof fn lemma_tool_scan_shift(pre: Seq<Seq<char>>, args: Seq<Seq<char>>, i: int, st: ToolScan)
    requires
        0 <= i,
    ensures
        tool_scan(pre + args, i + pre.len(), st) == match tool_scan(args, i, st) {
            Err(e) => Err(e),
            Ok((s, n, p)) => Ok((s, n + pre.len(), p)),
        },
    decreases args.len() - i,
{
    let all = pre + args;
    let k = i + pre.len();
    if i < args.len() {
        let a = args[i];
        assert(all[k] == a);
        if i + 1 < args.len() {
            assert(all[k + 1] == args[i + 1]);
        }
        if a == "--from"@ {
            if i + 1 < args.len() {
                lemma_tool_scan_shift(pre, args, i + 2, ToolScan { from: Some(args[i + 1]), ..st });
            }
        } else if strip_prefix_text(a, "--from="@) is Some {
            if strip_prefix_text(a, "--from="@).unwrap().len() != 0 {
                lemma_tool_scan_shift(
                    pre,
                    args,
                    i + 1,
                    ToolScan { from: strip_prefix_text(a, "--from="@), ..st },
                );
            }
        } else if a == "--with"@ {
            if i + 1 < args.len() {
                lemma_tool_scan_shift(
                    pre,
                    args,
                    i + 2,
                    ToolScan { with_deps: st.with_deps + with_entries(args[i + 1]), ..st },
                );
            }
        } else if strip_prefix_text(a, "--with="@) is Some {
            lemma_tool_scan_shift(
                pre,
                args,
                i + 1,
                ToolScan {
                    with_deps: st.with_deps + with_entries(strip_prefix_text(a, "--with="@).unwrap()),
                    ..st
                },
            );
        } else if a == "--r-version"@ {
            if i + 1 < args.len() {
                lemma_tool_scan_shift(
                    pre,
                    args,
                    i + 2,
                    ToolScan { r_requirement: Some(args[i + 1]), ..st },
                );
            }
        } else if strip_prefix_text(a, "--r-version="@) is Some {
            lemma_tool_scan_shift(
                pre,
                args,
                i + 1,
                ToolScan { r_requirement: strip_prefix_text(a, "--r-version="@), ..st },
            );
        } else if a == "--isolated"@ {
            lemma_tool_scan_shift(pre, args, i + 1, st);
        } else if a == "-e"@ {
        } else if strip_prefix_text(a, "-"@) is Some {
            lemma_tool_scan_shift(
                pre,
                args,
                i + 1,
                ToolScan { rscript_args: st.rscript_args.push(a), ..st },
            );
        }
    }
}

/// `tool_run_args_of` on a command line that begins with the arguments
/// `pre` of one option other than `--from`, which the scan takes in one
/// step to the options `d`.
proof fn lemma_tool_args_after_option(pre: Seq<Seq<char>>, args: Seq<Seq<char>>, d: ToolScan)
    requires
        d.from is None,
        tool_scan(pre + args, 0, empty_tool_scan()) == tool_scan(pre + args, pre.len() as int, d),
    ensures
        tool_run_args_of(pre + args) == match tool_run_args_of(args) {
            Err(e) => Err(e),
            Ok(v) => Ok::<ToolRunArgsView, CliErrorView>(
                ToolRunArgsView {
                    rscript_args: d.rscript_args + v.rscript_args,
                    with_deps: d.with_deps + v.with_deps,
                    r_requirement: if v.r_requirement is Some {
                        v.r_requirement
                    } else {
                        d.r_requirement
                    },
                    ..v
                },
            ),
        },
{
    let e0 = empty_tool_scan();
    let all = pre + args;
    lemma_tool_scan_shift(pre, args, 0, d);
    lemma_tool_scan_frame(args, 0, d);
    lemma_tool_scan_bounds(args, 0, e0);
    if let Ok((s0, n, p)) = tool_scan(args, 0, e0) {
        assert(tool_scan_join(d, s0).from == s0.from);
        assert(all.subrange(n + pre.len(), all.len() as int) =~= args.subrange(n, args.len() as int));
    }
}

proof fn lemma_tool_scan_bounds(args: Seq<Seq<char>>, i: int, st: ToolScan)
    requires
        0 <= i,
    ensures
        tool_scan(args, i, st) matches Ok((_, next, _)) ==> 0 <= next <= args.len(),
    decreases args.len() - i,
{
    if i < args.len() {
        let a = args[i];
        if a == "--from"@ {
            if i + 1 < args.len() {
                lemma_tool_scan_bounds(args, i + 2, ToolScan { from: Some(args[i + 1]), ..st });
            }
        } else if strip_prefix_text(a, "--from="@) is Some {
            lemma_tool_scan_bounds(args, i + 1, ToolScan { from: strip_prefix_text(a, "--from="@), ..st });
        } else if a == "--with"@ {
            if i + 1 < args.len() {
                lemma_tool_scan_bounds(
                    args,
                    i + 2,
                    ToolScan { with_deps: st.with_deps + with_entries(args[i + 1]), ..st },
                );
            }
        } else if strip_prefix_text(a, "--with="@) is Some {
            lemma_tool_scan_bounds(
                args,
                i + 1,
                ToolScan {
                    with_deps: st.with_deps + with_entries(strip_prefix_text(a, "--with="@).unwrap()),
                    ..st
                },
            );
        } else if a == "--r-version"@ {
            if i + 1 < args.len() {
                lemma_tool_scan_bounds(args, i + 2, ToolScan { r_requirement: Some(args[i + 1]), ..st });
            }
        } else if strip_prefix_text(a, "--r-version="@) is Some {
            lemma_tool_scan_bounds(
                args,
                i + 1,
                ToolScan { r_requirement: strip_prefix_text(a, "--r-version="@), ..st },
            );
        } else if a == "--isolated"@ {
            lemma_tool_scan_bounds(args, i + 1, st);
        } else if a == "-e"@ {
        } else if strip_prefix_text(a, "-"@) is Some {
            lemma_tool_scan_bounds(args, i + 1, ToolScan { rscript_args: st.rscript_args.push(a), ..st });
        }
    }
}

/// Law: a leading `--r-version v` asks for `v` unless a later
/// `--r-version` among the options replaces it, and changes nothing else.
pub proof fn law_tool_leading_r_version(v: Seq<char>, args: Seq<Seq<char>>)
    ensures
        tool_run_args_of(seq!["--r-version"@, v] + args) == match tool_run_args_of(args) {
            Err(e) => Err(e),
            Ok(x) => Ok::<ToolRunArgsView, CliErrorView>(
                ToolRunArgsView {
                    r_requirement: if x.r_requirement is Some {
                        x.r_requirement
                    } else {
                        Some(v)
                    },
                    ..x
                },
            ),
        },
{
    reveal_strlit("--from");
    reveal_strlit("--from=");
    reveal_strlit("--with");
    reveal_strlit("--with=");
    reveal_strlit("--r-version");
    let pre = seq!["--r-version"@, v];
    let all = pre + args;
    let e0 = empty_tool_scan();
    assert(all[0] == "--r-version"@);
    assert(all[1] == v);
    assert("--r-version"@ != "--from"@);
    assert("--r-version"@[2] != "--from="@[2]);
    assert(strip_prefix_text("--r-version"@, "--from="@) is None);
    assert("--r-version"@ != "--with"@);
    assert("--r-version"@[2] != "--with="@[2]);
    assert(strip_prefix_text("--r-version"@, "--with="@) is None);
    let d = ToolScan { r_requirement: Some(all[1]), ..e0 };
    assert(tool_scan(all, 0, e0) == tool_scan(all, 2, d));
    lemma_tool_args_after_option(pre, args, d);
    if let Ok(x) = tool_run_args_of(args) {
        assert(d.rscript_args + x.rscript_args =~= x.rscript_args);
        assert(d.with_deps + x.with_deps =~= x.with_deps);
    }
}

/// Law: a leading `--r-version=v` does what `--r-version v` does.
pub proof fn law_tool_leading_r_version_equals(v: Seq<char>, args: Seq<Seq<char>>)
    ensures
        tool_run_args_of(seq!["--r-version="@ + v] + args) == match tool_run_args_of(args) {
            Err(e) => Err(e),
            Ok(x) => Ok::<ToolRunArgsView, CliErrorView>(
                ToolRunArgsView {
                    r_requirement: if x.r_requirement is Some {
                        x.r_requirement
                    } else {
                        Some(v)
                    },
                    ..x
                },
            ),
        },
{
    reveal_strlit("--from");
    reveal_strlit("--from=");
    reveal_strlit("--with");
    reveal_strlit("--with=");
    reveal_strlit("--r-version");
    reveal_strlit("--r-version=");
    let a = "--r-version="@ + v;
    let pre = seq![a];
    let all = pre + args;
    let e0 = empty_tool_scan();
    assert(all[0] == a);
    assert(a.subrange(0, 12) =~= "--r-version="@);
    assert(a.subrange(12, a.len() as int) =~= v);
    assert(a[2] == 'r');
    assert(a != "--from"@);
    assert(a.subrange(0, 7)[2] != "--from="@[2]);
    assert(strip_prefix_text(a, "--from="@) is None);
    assert(a != "--with"@);
    assert(a.subrange(0, 7)[2] != "--with="@[2]);
    assert(strip_prefix_text(a, "--with="@) is None);
    assert(a != "--r-version"@);
    assert(strip_prefix_text(a, "--r-version="@) == Some(v));
    let d = ToolScan { r_requirement: Some(v), ..e0 };
    assert(tool_scan(all, 0, e0) == tool_scan(all, 1, d));
    lemma_tool_args_after_option(pre, args, d);
    if let Ok(x) = tool_run_args_of(args) {
        assert(d.rscript_args + x.rscript_args =~= x.rscript_args);
        assert(d.with_deps + x.with_deps =~= x.with_deps);
    }
}

/// Law: a leading `--with w` adds the entries of `w` in front of the
/// dependency specs of a tool run and changes nothing else.
pub proof fn law_tool_leading_with(w: Seq<char>, args: Seq<Seq<char>>)
    ensures
        tool_run_args_of(seq!["--with"@, w] + args) == match tool_run_args_of(args) {
            Err(e) => Err(e),
            Ok(x) => Ok::<ToolRunArgsView, CliErrorView>(
                ToolRunArgsView { with_deps: with_entries(w) + x.with_deps, ..x },
            ),
        },
{
    reveal_strlit("--from");
    reveal_strlit("--from=");
    reveal_strlit("--with");
    let pre = seq!["--with"@, w];
    let all = pre + args;
    let e0 = empty_tool_scan();
    assert(all[0] == "--with"@);
    assert(all[1] == w);
    assert("--with"@[2] != "--from"@[2]);
    assert(strip_prefix_text("--with"@, "--from="@) is None);
    let d = ToolScan { with_deps: e0.with_deps + with_entries(all[1]), ..e0 };
    assert(tool_scan(all, 0, e0) == tool_scan(all, 2, d));
    lemma_tool_args_after_option(pre, args, d);
    if let Ok(x) = tool_run_args_of(args) {
        assert(d.rscript_args + x.rscript_args =~= x.rscript_args);
        assert(d.with_deps + x.with_deps =~= with_entries(w) + x.with_deps);
    }
}

/// Parse `ir tool run`, which resolves a provider package and runs a
/// command from that package's `exec/` directory.
pub fn parse_tool_run_args(args: Vec<String>) -> (r: Result<ToolRunArgs, CliError>)
    ensures
        match r {
            Ok(v) => tool_run_args_of(texts(args@)) == Ok::<ToolRunArgsView, CliErrorView>(v@),
            Err(e) => tool_run_args_of(texts(args@)) == Err::<ToolRunArgsView, CliErrorView>(e@),
        },
{
    let ghost av = texts(args@);
    let mut rscript_args: Vec<String> = Vec::new();
    let mut with_deps: Vec<String> = Vec::new();
    let mut r_requirement: Option<String> = None;
    let mut from: Option<String> = None;
    let mut positional: Option<String> = None;
    let mut i: usize = 0;
    assert(texts(rscript_args@) =~= Seq::<Seq<char>>::empty());
    assert(texts(with_deps@) =~= Seq::<Seq<char>>::empty());
    while i < args.len()
        invariant_except_break
            i <= args@.len(),
            positional is None,
            av == texts(args@),
            tool_scan(av, 0, empty_tool_scan()) == tool_scan(
                av,
                i as int,
                ToolScan {
                    rscript_args: texts(rscript_args@),
                    with_deps: texts(with_deps@),
                    r_requirement: opt_text(r_requirement),
                    from: opt_text(from),
                },
            ),
        ensures
            i <= args@.len(),
            av == texts(args@),
            tool_scan(av, 0, empty_tool_scan()) == Ok::<
                (ToolScan, int, Option<Seq<char>>),
                CliErrorView,
            >(
                (
                    ToolScan {
                        rscript_args: texts(rscript_args@),
                        with_deps: texts(with_deps@),
                        r_requirement: opt_text(r_requirement),
                        from: opt_text(from),
                    },
                    i as int,
                    opt_text(positional),
                ),
            ),
        decreases args.len() - i,
    {
        let arg = clone_string(&args[i]);
        assert(av[i as int] == arg@);
        if text_eq(arg.as_str(), "--from") {
            if i + 1 < args.len() {
                from = Some(clone_string(&args[i + 1]));
                i = i + 2;
            } else {
                return Err(CliError::ToolMissingFrom);
            }
        } else if let Some(v) = strip_prefix_str(arg.as_str(), "--from=") {
            if v.as_str().is_empty() {
                return Err(CliError::EmptyFrom);
            }
            from = Some(v);
            i = i + 1;
        } else if text_eq(arg.as_str(), "--with") {
            if i + 1 < args.len() {
                push_with_deps(&mut with_deps, args[i + 1].as_str());
                i = i + 2;
            } else {
                return Err(CliError::ToolMissingWith);
            }
        } else if let Some(v) = strip_prefix_str(arg.as_str(), "--with=") {
            push_with_deps(&mut with_deps, v.as_str());
            i = i + 1;
        } else if text_eq(arg.as_str(), "--r-version") {
            if i + 1 < args.len() {
                r_requirement = Some(clone_string(&args[i + 1]));
                i = i + 2;
            } else {
                return Err(CliError::ToolMissingRVersion);
            }
        } else if let Some(v) = strip_prefix_str(arg.as_str(), "--r-version=") {
            r_requirement = Some(v);
            i = i + 1;
        } else if text_eq(arg.as_str(), "--isolated") {
            i = i + 1;
        } else if text_eq(arg.as_str(), "-e") {
            return Err(CliError::ExpressionNotForTool);
        } else if strip_prefix_str(arg.as_str(), "-").is_some() {
            let ghost before = rscript_args@;
            rscript_args.push(arg);
            assert(texts(rscript_args@) =~= texts(before).push(av[i as int]));
            i = i + 1;
        } else {
            positional = Some(arg);
            i = i + 1;
            break;
        }
    }
    let tool_args = tail_of(&args, i);
    let target = match from {
        Some(package_ref) => {
            let executable = match positional {
                Some(e) => e,
                None => return Err(CliError::MissingCommand),
            };
            if !is_package_executable_name(executable.as_str()) {
                return Err(CliError::CommandIsPath);
            }
            PackageExecTarget {
                package_name: infer_self_named_executable(package_ref.as_str()),
                package_ref,
                executable,
            }
        },
        None => {
            let package_ref = match positional {
                Some(p) => p,
                None => return Err(CliError::MissingPackageRef),
            };
            let executable = match infer_self_named_executable(package_ref.as_str()) {
                Some(e) => e,
                None => return Err(CliError::NotInferable),
            };
            PackageExecTarget {
                package_ref,
                package_name: Some(clone_string(&executable)),
                executable,
            }
        },
    };
    Ok(ToolRunArgs { rscript_args, with_deps, r_requirement, target, tool_args })
}


/// `--help` or `-h`.
pub open spec fn is_help_flag(s: Seq<char>) -> bool {
    s == "--help"@ || s == "-h"@
}

fn is_help_arg(s: &str) -> (r: bool)
    ensures
        r == is_help_flag(s@),
{
    text_eq(s, "--help") || text_eq(s, "-h")
}

/// What `ir tool ...` asks for.
#[derive(Debug)]
pub enum ToolCommand {
    /// Show the help of `ir tool run`.
    RunHelp,
    /// Run a package executable.
    Run(ToolRunArgs),
    /// Show the help of `ir tool`.
    Help,
}

pub enum ToolCommandView {
    RunHelp,
    Run(ToolRunArgsView),
    Help,
}

impl View for ToolCommand {
    type V = ToolCommandView;

    open spec fn view(&self) -> ToolCommandView {
        match self {
            ToolCommand::RunHelp => ToolCommandView::RunHelp,
            ToolCommand::Run(r) => ToolCommandView::Run(r@),
            ToolCommand::Help => ToolCommandView::Help,
        }
    }
}

/// What `cmd_tool` decides for the arguments after `ir tool`. With no
/// subcommand the help is shown and the command fails.
pub open spec fn tool_command_of(args: Seq<Seq<char>>) -> Result<ToolCommandView, CliErrorView> {
    if args.len() == 0 {
        Err(CliErrorView::ToolSubcommandRequired)
    } else if args[0] == "run"@ {
        let rest = args.subrange(1, args.len() as int);
        if rest.len() == 1 && is_help_flag(rest[0]) {
            Ok(ToolCommandView::RunHelp)
        } else {
            match tool_run_args_of(rest) {
                Ok(r) => Ok(ToolCommandView::Run(r)),
                Err(e) => Err(e),
            }
        }
    } else if is_help_flag(args[0]) {
        Ok(ToolCommandView::Help)
    } else {
        Err(CliErrorView::UnrecognizedToolSubcommand(args[0]))
    }
}

/// Decide what `ir tool` with `args` does.
pub fn cmd_tool(args: Vec<String>) -> (r: Result<ToolCommand, CliError>)
    ensures
        match r {
            Ok(c) => tool_command_of(texts(args@)) == Ok::<ToolCommandView, CliErrorView>(c@),
            Err(e) => tool_command_of(texts(args@)) == Err::<ToolCommandView, CliErrorView>(e@),
        },
{
    if args.len() == 0 {
        return Err(CliError::ToolSubcommandRequired);
    }
    let first = clone_string(&args[0]);
    assert(texts(args@)[0] == first@);
    if text_eq(first.as_str(), "run") {
        let rest = tail_of(&args, 1);
        if rest.len() == 1 && is_help_arg(rest[0].as_str()) {
            assert(texts(rest@)[0] == rest@[0]@);
            return Ok(ToolCommand::RunHelp);
        }
        proof {
            if rest@.len() == 1 {
                assert(texts(rest@)[0] == rest@[0]@);
            }
        }
        match parse_tool_run_args(rest) {
            Ok(r) => Ok(ToolCommand::Run(r)),
            Err(e) => Err(e),
        }
    } else if is_help_arg(first.as_str()) {
        Ok(ToolCommand::Help)
    } else {
        Err(CliError::UnrecognizedToolSubcommand(first))
    }
}

/// What `ir cache ...` asks for.
#[derive(Debug, PartialEq, Eq, Structural)]
pub enum CacheCommand {
    /// Show the help of `ir cache`.
    Help,
    /// Show the help of `ir cache clean`.
    CleanHelp,
    /// Remove the cache.
    Clean,
    /// Show the help of `ir cache dir`.
    DirHelp,
    /// Print the cache directory.
    Dir,
}

/// What `cmd_cache_clean` decides for its arguments: a help flag anywhere
/// shows the help; otherwise only `--force` is accepted.
pub open spec fn cache_clean_of(args: Seq<Seq<char>>) -> Result<CacheCommand, CliErrorView> {
    if exists|i: int| 0 <= i < args.len() && is_help_flag(#[trigger] args[i]) {
        Ok(CacheCommand::CleanHelp)
    } else {
        match first_not_force(args, 0) {
            Some(a) => Err(CliErrorView::UnexpectedArgument(a)),
            None => Ok(CacheCommand::Clean),
        }
    }
}

/// The first argument at or after `i` that is not `--force`.
pub open spec fn first_not_force(args: Seq<Seq<char>>, i: int) -> Option<Seq<char>>
    decreases args.len() - i,
{
    if i < 0 || i >= args.len() {
        None
    } else if args[i] != "--force"@ {
        Some(args[i])
    } else {
        first_not_force(args, i + 1)
    }
}

fn find_help(args: &Vec<String>, from: usize) -> (r: bool)
    requires
        from <= args@.len(),
    ensures
        r == exists|i: int| from <= i < args@.len() && is_help_flag(#[trigger] texts(args@)[i]),
{
    let mut i = from;
    while i < args.len()
        invariant
            from <= i <= args@.len(),
            forall|j: int| from <= j < i ==> !is_help_flag(#[trigger] texts(args@)[j]),
        decreases args.len() - i,
    {
        if is_help_arg(args[i].as_str()) {
            assert(is_help_flag(texts(args@)[i as int]));
            return true;
        }
        i = i + 1;
    }
    false
}

/// Decide what `ir cache clean` with `args` does.
pub fn cmd_cache_clean(args: &Vec<String>) -> (r: Result<CacheCommand, CliError>)
    ensures
        match r {
            Ok(c) => cache_clean_of(texts(args@)) == Ok::<CacheCommand, CliErrorView>(c),
            Err(e) => cache_clean_of(texts(args@)) == Err::<CacheCommand, CliErrorView>(e@),
        },
{
    let ghost av = texts(args@);
    if find_help(args, 0) {
        return Ok(CacheCommand::CleanHelp);
    }
    let mut i: usize = 0;
    while i < args.len()
        invariant
            i <= args@.len(),
            av == texts(args@),
            first_not_force(av, 0) == first_not_force(av, i as int),
            !(exists|j: int| 0 <= j < av.len() && is_help_flag(#[trigger] av[j])),
        decreases args.len() - i,
    {
        if !text_eq(args[i].as_str(), "--force") {
            assert(av[i as int] != "--force"@);
            return Err(CliError::UnexpectedArgument(clone_string(&args[i])));
        }
        i = i + 1;
    }
    Ok(CacheCommand::Clean)
}

/// What `cmd_cache_dir` decides for its arguments: a help flag anywhere
/// shows the help; any other argument is refused.
pub open spec fn cache_dir_of(args: Seq<Seq<char>>) -> Result<CacheCommand, CliErrorView> {
    if exists|i: int| 0 <= i < args.len() && is_help_flag(#[trigger] args[i]) {
        Ok(CacheCommand::DirHelp)
    } else if args.len() > 0 {
        Err(CliErrorView::UnexpectedArgument(args[0]))
    } else {
        Ok(CacheCommand::Dir)
    }
}

/// Decide what `ir cache dir` with `args` does.
pub fn cmd_cache_dir(args: &Vec<String>) -> (r: Result<CacheCommand, CliError>)
    ensures
        match r {
            Ok(c) => cache_dir_of(texts(args@)) == Ok::<CacheCommand, CliErrorView>(c),
            Err(e) => cache_dir_of(texts(args@)) == Err::<CacheCommand, CliErrorView>(e@),
        },
{
    if find_help(args, 0) {
        return Ok(CacheCommand::DirHelp);
    }
    if args.len() > 0 {
        assert(texts(args@)[0] == args@[0]@);
        return Err(CliError::UnexpectedArgument(clone_string(&args[0])));
    }
    Ok(CacheCommand::Dir)
}

/// What `cmd_cache` decides for the arguments after `ir cache`. With no
/// subcommand the help is shown and the command fails.
pub open spec fn cache_command_of(args: Seq<Seq<char>>) -> Result<CacheCommand, CliErrorView> {
    if args.len() == 0 {
        Err(CliErrorView::CacheSubcommandRequired)
    } else if args[0] == "clean"@ {
        cache_clean_of(args.subrange(1, args.len() as int))
    } else if args[0] == "dir"@ {
        cache_dir_of(args.subrange(1, args.len() as int))
    } else if is_help_flag(args[0]) {
        Ok(CacheCommand::Help)
    } else {
        Err(CliErrorView::UnrecognizedSubcommand(args[0]))
    }
}

/// Decide what `ir cache` with `args` does.
pub fn cmd_cache(args: Vec<String>) -> (r: Result<CacheCommand, CliError>)
    ensures
        match r {
            Ok(c) => cache_command_of(texts(args@)) == Ok::<CacheCommand, CliErrorView>(c),
            Err(e) => cache_command_of(texts(args@)) == Err::<CacheCommand, CliErrorView>(e@),
        },
{
    if args.len() == 0 {
        return Err(CliError::CacheSubcommandRequired);
    }
    let first = clone_string(&args[0]);
    assert(texts(args@)[0] == first@);
    if text_eq(first.as_str(), "clean") {
        let rest = tail_of(&args, 1);
        cmd_cache_clean(&rest)
    } else if text_eq(first.as_str(), "dir") {
        let rest = tail_of(&args, 1);
        cmd_cache_dir(&rest)
    } else if is_help_arg(first.as_str()) {
        Ok(CacheCommand::Help)
    } else {
        Err(CliError::UnrecognizedSubcommand(first))
    }
}

/// What the top-level `ir` command line asks for.
#[derive(Debug)]
pub enum Command {
    /// Show the help of `ir run`.
    RunHelp,
    /// Run a script or expressions.
    Run(RunArgs),
    /// `ir tool ...`.
    Tool(Vec<String>),
    /// `ir cache ...`.
    Cache(Vec<String>),
    /// Print the version.
    Version,
    /// Show the help of `ir`.
    Help,
}

pub enum CommandView {
    RunHelp,
    Run(RunArgsView),
    Tool(Seq<Seq<char>>),
    Cache(Seq<Seq<char>>),
    Version,
    Help,
}

impl View for Command {
    type V = CommandView;

    open spec fn view(&self) -> CommandView {
        match self {
            Command::RunHelp => CommandView::RunHelp,
            Command::Run(r) => CommandView::Run(r@),
            Command::Tool(a) => CommandView::Tool(texts(a@)),
            Command::Cache(a) => CommandView::Cache(texts(a@)),
            Command::Version => CommandView::Version,
            Command::Help => CommandView::Help,
        }
    }
}

/// What the arguments after the program name ask for.
pub open spec fn command_of(args: Seq<Seq<char>>) -> Result<CommandView, CliErrorView> {
    if args.len() == 0 {
        Ok(CommandView::Help)
    } else {
        let rest = args.subrange(1, args.len() as int);
        if args[0] == "run"@ {
            if rest.len() == 1 && is_help_flag(rest[0]) {
                Ok(CommandView::RunHelp)
            } else {
                match run_args_of(rest) {
                    Ok(r) => Ok(CommandView::Run(r)),
                    Err(e) => Err(e),
                }
            }
        } else if args[0] == "tool"@ {
            Ok(CommandView::Tool(rest))
        } else if args[0] == "cache"@ {
            Ok(CommandView::Cache(rest))
        } else if args[0] == "--version"@ || args[0] == "-V"@ {
            Ok(CommandView::Version)
        } else if is_help_flag(args[0]) {
            Ok(CommandView::Help)
        } else {
            Err(CliErrorView::UnknownCommand(args[0]))
        }
    }
}

/// Decide what `ir` does for the arguments after the program name.
pub fn parse_command(args: Vec<String>) -> (r: Result<Command, CliError>)
    ensures
        match r {
            Ok(c) => command_of(texts(args@)) == Ok::<CommandView, CliErrorView>(c@),
            Err(e) => command_of(texts(args@)) == Err::<CommandView, CliErrorView>(e@),
        },
{
    if args.len() == 0 {
        return Ok(Command::Help);
    }
    let first = clone_string(&args[0]);
    assert(texts(args@)[0] == first@);
    let rest = tail_of(&args, 1);
    if text_eq(first.as_str(), "run") {
        if rest.len() == 1 && is_help_arg(rest[0].as_str()) {
            assert(texts(rest@)[0] == rest@[0]@);
            return Ok(Command::RunHelp);
        }
        proof {
            if rest@.len() == 1 {
                assert(texts(rest@)[0] == rest@[0]@);
            }
        }
        match parse_run_args(rest) {
            Ok(r) => Ok(Command::Run(r)),
            Err(e) => Err(e),
        }
    } else if text_eq(first.as_str(), "tool") {
        Ok(Command::Tool(rest))
    } else if text_eq(first.as_str(), "cache") {
        Ok(Command::Cache(rest))
    } else if text_eq(first.as_str(), "--version") || text_eq(first.as_str(), "-V") {
        Ok(Command::Version)
    } else if is_help_arg(first.as_str()) {
        Ok(Command::Help)
    } else {
        Err(CliError::UnknownCommand(first))
    }
}

/// What `ir cache clean` reports after removing `files` files.
pub open spec fn removed_message(files: nat) -> Seq<char> {
    "Removed "@ + crate::text::decimal_text(files) + if files == 1 {
        " file"@
    } else {
        " files"@
    }
}

/// The report of `ir cache clean` after removing `files` files.
pub fn removed_files_message(files: u64) -> (m: String)
    ensures
        m@ == removed_message(files as nat),
{
    let mut m = String::from_str("Removed ");
    let n = crate::text::decimal_string(files as u128);
    m.append(n.as_str());
    if files == 1 {
        m.append(" file");
    } else {
        m.append(" files");
    }
    m
}

} // verus!
