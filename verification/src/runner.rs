//! How a run is launched: the specs handed to the resolver, and the
//! commands (program, arguments, environment) that run scripts, Quarto
//! documents and package executables.
use vstd::prelude::*;

use crate::frontmatter::{opt_text, ScriptSpec, ScriptSpecView};
use crate::launch::PackageLauncher;
use crate::paths::{join_path, joined_path, parent_of, path_parent};
use crate::rig::rig_client::texts;
use crate::text::{decimal_string, decimal_text, trim, trimmed};

verus! {

/// A command to launch: the program, its arguments, and the environment
/// variables it is given on top of the inherited ones.
#[derive(Debug)]
pub struct Launch {
    pub program: String,
    pub args: Vec<String>,
    pub env: Vec<(String, String)>,
}

pub struct LaunchView {
    pub program: Seq<char>,
    pub args: Seq<Seq<char>>,
    pub env: Seq<(Seq<char>, Seq<char>)>,
}

/// The texts of a list of variable settings.
pub open spec fn pair_texts(e: Seq<(String, String)>) -> Seq<(Seq<char>, Seq<char>)> {
    e.map_values(|p: (String, String)| (p.0@, p.1@))
}

impl View for Launch {
    type V = LaunchView;

    open spec fn view(&self) -> LaunchView {
        LaunchView { program: self.program@, args: texts(self.args@), env: pair_texts(self.env@) }
    }
}

fn push_text(v: &mut Vec<String>, s: &str)
    ensures
        texts(final(v)@) == texts(old(v)@).push(s@),
{
    v.push(String::from_str(s));
    assert(texts(v@) =~= texts(old(v)@).push(s@));
}

fn extend_texts(v: &mut Vec<String>, w: &Vec<String>)
    ensures
        texts(final(v)@) == texts(old(v)@) + texts(w@),
{
    let mut i: usize = 0;
    while i < w.len()
        invariant
            i <= w@.len(),
            texts(v@) == texts(old(v)@) + texts(w@).take(i as int),
        decreases w.len() - i,
    {
        let ghost before = v@;
        v.push(w[i].clone());
        assert(texts(v@) =~= texts(before).push(w@[i as int]@));
        assert(texts(w@).take(i + 1) =~= texts(w@).take(i as int).push(w@[i as int]@));
        i = i + 1;
    }
    assert(texts(w@).take(w@.len() as int) =~= texts(w@));
}

fn push_env(e: &mut Vec<(String, String)>, key: &str, value: &str)
    ensures
        pair_texts(final(e)@) == pair_texts(old(e)@).push((key@, value@)),
{
    e.push((String::from_str(key), String::from_str(value)));
    assert(pair_texts(e@) =~= pair_texts(old(e)@).push((key@, value@)));
}

/// `-e <expression>` for each expression, in order.
pub open spec fn expression_args(es: Seq<Seq<char>>) -> Seq<Seq<char>>
    decreases es.len(),
{
    if es.len() == 0 {
        Seq::empty()
    } else {
        expression_args(es.drop_last()) + seq!["-e"@, es.last()]
    }
}

/// `R_LIBS` set to the resolved library, where there is one.
pub open spec fn library_env(library: Option<Seq<char>>) -> Seq<(Seq<char>, Seq<char>)> {
    match library {
        Some(l) => seq![("R_LIBS"@, l)],
        None => Seq::empty(),
    }
}

/// `R_LIBS_USER=NULL`, which drops the user library, for isolated runs.
pub open spec fn isolation_env(isolated: bool) -> Seq<(Seq<char>, Seq<char>)> {
    if isolated {
        seq![("R_LIBS_USER"@, "NULL"@)]
    } else {
        Seq::empty()
    }
}

/// The script, or where there is none, `-e` and each expression.
pub open spec fn program_args(script: Option<Seq<char>>, expressions: Seq<Seq<char>>) -> Seq<Seq<char>> {
    match script {
        Some(s) => seq![s],
        None => expression_args(expressions),
    }
}

/// How a script, or inline expressions where there is no script, runs:
/// `rscript [rscript_args] (script | -e expr...) [script_args]`, with the
/// library on `R_LIBS`.
pub open spec fn script_launch_of(
    rscript: Seq<char>,
    library: Option<Seq<char>>,
    script: Option<Seq<char>>,
    expressions: Seq<Seq<char>>,
    rscript_args: Seq<Seq<char>>,
    script_args: Seq<Seq<char>>,
    isolated: bool,
) -> LaunchView {
    LaunchView {
        program: rscript,
        args: rscript_args + program_args(script, expressions) + script_args,
        env: library_env(library) + isolation_env(isolated),
    }
}

/// The command that runs a script (or, without one, the expressions) in
/// an R session pointed at the resolved library.
pub fn script_launch(
    rscript: &str,
    library: Option<&str>,
    script: Option<&str>,
    expressions: &Vec<String>,
    rscript_args: &Vec<String>,
    script_args: &Vec<String>,
    isolated: bool,
) -> (l: Launch)
    ensures
        l@ == script_launch_of(
            rscript@,
            match library {
                Some(x) => Some(x@),
                None => None,
            },
            match script {
                Some(x) => Some(x@),
                None => None,
            },
            texts(expressions@),
            texts(rscript_args@),
            texts(script_args@),
            isolated,
        ),
{
    let mut args: Vec<String> = Vec::new();
    extend_texts(&mut args, rscript_args);
    let ghost lead = texts(args@);
    match script {
        Some(s) => {
            push_text(&mut args, s);
            assert(texts(args@) =~= lead + seq![s@]);
        },
        None => {
            let mut i: usize = 0;
            while i < expressions.len()
                invariant
                    i <= expressions@.len(),
                    texts(args@) == lead + expression_args(texts(expressions@).take(i as int)),
                decreases expressions.len() - i,
            {
                let ghost t = texts(expressions@).take(i + 1);
                assert(t.drop_last() =~= texts(expressions@).take(i as int));
                push_text(&mut args, "-e");
                push_text(&mut args, expressions[i].as_str());
                i = i + 1;
            }
            assert(texts(expressions@).take(expressions@.len() as int) =~= texts(expressions@));
        },
    }
    let ghost opt_script = match script {
        Some(x) => Some(x@),
        None => None,
    };
    assert(texts(args@) == lead + program_args(opt_script, texts(expressions@)));
    extend_texts(&mut args, script_args);
    let mut env: Vec<(String, String)> = Vec::new();
    if let Some(l) = library {
        push_env(&mut env, "R_LIBS", l);
    }
    let ghost mid = pair_texts(env@);
    if isolated {
        push_env(&mut env, "R_LIBS_USER", "NULL");
    }
    let l = Launch { program: String::from_str(rscript), args, env };
    assert(l@.env =~= library_env(
        match library {
            Some(x) => Some(x@),
            None => None,
        },
    ) + isolation_env(isolated));
    l
}

/// Whether a command looks like a path: it holds a `/` or a `\`.
pub open spec fn path_like(s: Seq<char>) -> bool {
    s.contains('/') || s.contains('\\')
}

/// The value for `QUARTO_R`: the Rscript, where it is path-like or names an
/// existing file (`exists`); else none, which leaves quarto's own lookup in
/// charge.
pub open spec fn quarto_r_of(rscript: Seq<char>, exists: bool) -> Option<Seq<char>> {
    if path_like(rscript) || exists {
        Some(rscript)
    } else {
        None
    }
}

/// The value to pass as `QUARTO_R` for the Rscript `rscript`, where
/// `exists` tells whether a file exists at that path.
pub fn quarto_r_value(rscript: &str, exists: bool) -> (r: Option<String>)
    ensures
        opt_text(r) == quarto_r_of(rscript@, exists),
{
    let cs = crate::text::chars_of(rscript);
    let mut i: usize = 0;
    let mut found = false;
    while i < cs.len()
        invariant
            i <= cs@.len(),
            cs@ == rscript@,
            found == (cs@.take(i as int).contains('/') || cs@.take(i as int).contains('\\')),
        decreases cs.len() - i,
    {
        let ghost t = cs@.take(i + 1);
        assert(t =~= cs@.take(i as int).push(cs@[i as int]));
        if cs[i] == '/' || cs[i] == '\\' {
            assert(t[i as int] == cs@[i as int]);
            found = true;
        } else {
            assert forall|c: char| (c == '/' || c == '\\') && t.contains(c) implies cs@.take(
                i as int,
            ).contains(c) by {
                let k = choose|k: int| 0 <= k < t.len() && t[k] == c;
                assert(k < i);
                assert(cs@.take(i as int)[k] == c);
            }
        }
        if found {
            assert(t.contains('/') || t.contains('\\')) by {
                if cs@.take(i as int).contains('/') {
                    let k = choose|k: int| 0 <= k < i && cs@.take(i as int)[k] == '/';
                    assert(t[k] == '/');
                } else if cs@.take(i as int).contains('\\') {
                    let k = choose|k: int| 0 <= k < i && cs@.take(i as int)[k] == '\\';
                    assert(t[k] == '\\');
                } else {
                    assert(t[i as int] == cs@[i as int]);
                }
            }
        }
        i = i + 1;
    }
    assert(cs@.take(cs@.len() as int) =~= cs@);
    if found || exists {
        Some(String::from_str(rscript))
    } else {
        None
    }
}

/// Texts joined with `,` between them.
pub open spec fn comma_joined(ws: Seq<Seq<char>>) -> Seq<char>
    decreases ws.len(),
{
    if ws.len() == 0 {
        Seq::empty()
    } else if ws.len() == 1 {
        ws[0]
    } else {
        comma_joined(ws.drop_last()) + ","@ + ws.last()
    }
}

fn join_commas(ws: &Vec<String>) -> (s: String)
    ensures
        s@ == comma_joined(texts(ws@)),
{
    let mut s = String::new();
    let mut i: usize = 0;
    while i < ws.len()
        invariant
            i <= ws@.len(),
            s@ == comma_joined(texts(ws@).take(i as int)),
        decreases ws.len() - i,
    {
        let ghost t = texts(ws@).take(i + 1);
        assert(t.drop_last() =~= texts(ws@).take(i as int));
        assert(t.last() == ws@[i as int]@);
        if i > 0 {
            s.append(",");
        }
        s.append(ws[i].as_str());
        proof {
            if i == 0 {
                assert(t.len() == 1);
            }
        }
        i = i + 1;
    }
    assert(texts(ws@).take(ws@.len() as int) =~= texts(ws@));
    s
}

/// How a Quarto document renders: `quarto render <doc> [script_args]`,
/// with `QUARTO_R` pinned to the Rscript where it is path-like, the library
/// on `R_LIBS`, and the Rscript options handed to knitr comma-separated.
pub open spec fn quarto_launch_of(
    quarto: Seq<char>,
    rscript: Seq<char>,
    rscript_exists: bool,
    library: Option<Seq<char>>,
    doc: Seq<char>,
    rscript_args: Seq<Seq<char>>,
    script_args: Seq<Seq<char>>,
    isolated: bool,
) -> LaunchView {
    let pinned: Seq<(Seq<char>, Seq<char>)> = match quarto_r_of(rscript, rscript_exists) {
        Some(v) => seq![("QUARTO_R"@, v)],
        None => Seq::empty(),
    };
    let knitr: Seq<(Seq<char>, Seq<char>)> = if rscript_args.len() > 0 {
        seq![("QUARTO_KNITR_RSCRIPT_ARGS"@, comma_joined(rscript_args))]
    } else {
        Seq::empty()
    };
    LaunchView {
        program: quarto,
        args: seq!["render"@, doc] + script_args,
        env: pinned + library_env(library) + knitr + isolation_env(isolated),
    }
}

/// The command that renders the Quarto document `doc` with the program
/// `quarto`; `rscript_exists` tells whether a file exists at the path
/// `rscript`.
pub fn quarto_launch(
    quarto: &str,
    rscript: &str,
    rscript_exists: bool,
    library: Option<&str>,
    doc: &str,
    rscript_args: &Vec<String>,
    script_args: &Vec<String>,
    isolated: bool,
) -> (l: Launch)
    ensures
        l@ == quarto_launch_of(
            quarto@,
            rscript@,
            rscript_exists,
            match library {
                Some(x) => Some(x@),
                None => None,
            },
            doc@,
            texts(rscript_args@),
            texts(script_args@),
            isolated,
        ),
{
    let mut args: Vec<String> = Vec::new();
    push_text(&mut args, "render");
    push_text(&mut args, doc);
    extend_texts(&mut args, script_args);
    assert(texts(args@) =~= seq!["render"@, doc@] + texts(script_args@));
    let mut env: Vec<(String, String)> = Vec::new();
    let ghost e0 = pair_texts(env@);
    if let Some(v) = quarto_r_value(rscript, rscript_exists) {
        push_env(&mut env, "QUARTO_R", v.as_str());
    }
    let ghost e1 = pair_texts(env@);
    if let Some(lib) = library {
        push_env(&mut env, "R_LIBS", lib);
    }
    let ghost e2 = pair_texts(env@);
    if rscript_args.len() > 0 {
        let joined = join_commas(rscript_args);
        push_env(&mut env, "QUARTO_KNITR_RSCRIPT_ARGS", joined.as_str());
    }
    let ghost e3 = pair_texts(env@);
    if isolated {
        push_env(&mut env, "R_LIBS_USER", "NULL");
    }
    let l = Launch { program: String::from_str(quarto), args, env };
    proof {
        let pinned: Seq<(Seq<char>, Seq<char>)> = match quarto_r_of(rscript@, rscript_exists) {
            Some(v) => seq![("QUARTO_R"@, v)],
            None => Seq::empty(),
        };
        let knitr: Seq<(Seq<char>, Seq<char>)> = if texts(rscript_args@).len() > 0 {
            seq![("QUARTO_KNITR_RSCRIPT_ARGS"@, comma_joined(texts(rscript_args@)))]
        } else {
            Seq::empty()
        };
        let lib = library_env(
            match library {
                Some(x) => Some(x@),
                None => None,
            },
        );
        assert(e1 =~= pinned);
        assert(e2 =~= pinned + lib);
        assert(e3 =~= pinned + lib + knitr);
        assert(l@.env =~= pinned + lib + knitr + isolation_env(isolated));
    }
    l
}

/// The arguments that start a package executable with its launcher.
pub open spec fn launcher_args(launcher: PackageLauncher, executable: Seq<char>) -> Seq<Seq<char>> {
    match launcher {
        PackageLauncher::Rscript => seq![executable],
        PackageLauncher::Rapp => seq!["-e"@, "Rapp::run()"@, executable],
    }
}

/// How a package executable runs: through Rscript with its launcher,
/// against the resolved library alone, with the package `exec` directories
/// on `PATH` (`runtime_path`).
pub open spec fn package_launch_of(
    rscript: Seq<char>,
    library: Seq<char>,
    executable: Seq<char>,
    launcher: PackageLauncher,
    rscript_args: Seq<Seq<char>>,
    args: Seq<Seq<char>>,
    launcher_name: Seq<char>,
    runtime_path: Seq<char>,
) -> LaunchView {
    LaunchView {
        program: rscript,
        args: rscript_args + launcher_args(launcher, executable) + args,
        env: seq![
            ("R_LIBS"@, library),
            ("R_LIBS_USER"@, "NULL"@),
            ("RAPP_LAUNCHER_NAME"@, launcher_name),
            ("PATH"@, runtime_path),
        ],
    }
}

/// The command that runs a package executable.
pub fn package_launch(
    rscript: &str,
    library: &str,
    executable: &str,
    launcher: PackageLauncher,
    rscript_args: &Vec<String>,
    args: &Vec<String>,
    launcher_name: &str,
    runtime_path: &str,
) -> (l: Launch)
    ensures
        l@ == package_launch_of(
            rscript@,
            library@,
            executable@,
            launcher,
            texts(rscript_args@),
            texts(args@),
            launcher_name@,
            runtime_path@,
        ),
{
    let mut a: Vec<String> = Vec::new();
    extend_texts(&mut a, rscript_args);
    let ghost lead = texts(a@);
    match launcher {
        PackageLauncher::Rscript => {
            push_text(&mut a, executable);
        },
        PackageLauncher::Rapp => {
            push_text(&mut a, "-e");
            push_text(&mut a, "Rapp::run()");
            push_text(&mut a, executable);
        },
    }
    assert(texts(a@) =~= lead + launcher_args(launcher, executable@));
    extend_texts(&mut a, args);
    let mut env: Vec<(String, String)> = Vec::new();
    push_env(&mut env, "R_LIBS", library);
    push_env(&mut env, "R_LIBS_USER", "NULL");
    push_env(&mut env, "RAPP_LAUNCHER_NAME", launcher_name);
    push_env(&mut env, "PATH", runtime_path);
    let l = Launch { program: String::from_str(rscript), args: a, env };
    assert(l@.args =~= texts(rscript_args@) + launcher_args(launcher, executable@) + texts(
        args@,
    ));
    assert(l@.env =~= seq![
        ("R_LIBS"@, library@),
        ("R_LIBS_USER"@, "NULL"@),
        ("RAPP_LAUNCHER_NAME"@, launcher_name@),
        ("PATH"@, runtime_path@),
    ]);
    l
}

/// The entries of the `PATH` a package executable runs with: the directory
/// of the Rscript (where it has a non-empty one), then the `exec`
/// directories of the library's packages, then the current `PATH`.
pub open spec fn runtime_path_entries_of(
    rscript: Seq<char>,
    exec_dirs: Seq<Seq<char>>,
    current: Seq<Seq<char>>,
) -> Seq<Seq<char>> {
    let own: Seq<Seq<char>> = match path_parent(rscript) {
        Some(p) => if p.len() > 0 {
            seq![p]
        } else {
            Seq::empty()
        },
        None => Seq::empty(),
    };
    own + exec_dirs + current
}

/// The `PATH` entries for a package executable run by `rscript`, given the
/// library's `exec` directories and the entries of the current `PATH`.
pub fn runtime_path_entries(rscript: &str, exec_dirs: &Vec<String>, current: &Vec<String>) -> (r: Vec<
    String,
>)
    ensures
        texts(r@) == runtime_path_entries_of(rscript@, texts(exec_dirs@), texts(current@)),
{
    let mut r: Vec<String> = Vec::new();
    match parent_of(rscript) {
        Some(p) => {
            if p.as_str().unicode_len() > 0 {
                push_text(&mut r, p.as_str());
            }
        },
        None => {},
    }
    extend_texts(&mut r, exec_dirs);
    extend_texts(&mut r, current);
    r
}

/// The `exec` directory of `package` in `library`.
pub fn package_exec_dir(library: &str, package: &str) -> (r: String)
    ensures
        r@ == joined_path(joined_path(library@, package@), "exec"@),
{
    let dir = join_path(library, package);
    join_path(dir.as_str(), "exec")
}

/// Where an executable of a package may be, in order: `<executable>` and
/// `<executable>.R` in its `exec` directory.
pub fn executable_candidates(exec_dir: &str, executable: &str) -> (r: Vec<String>)
    ensures
        texts(r@) == seq![joined_path(exec_dir@, executable@), joined_path(exec_dir@, executable@ + ".R"@)],
{
    let mut r: Vec<String> = Vec::new();
    let plain = join_path(exec_dir, executable);
    push_text(&mut r, plain.as_str());
    let mut with_ext = String::from_str(executable);
    with_ext.append(".R");
    let sourced = join_path(exec_dir, with_ext.as_str());
    push_text(&mut r, sourced.as_str());
    assert(texts(r@) =~= seq![joined_path(exec_dir@, executable@), joined_path(exec_dir@, executable@ + ".R"@)]);
    r
}

/// The executable in a package's `exec` directory: `<executable>` where
/// that is a file (`plain_is_file`), else `<executable>.R` where that is
/// one (`sourced_is_file`), else none.
pub fn find_package_executable_in_dir(
    exec_dir: &str,
    executable: &str,
    plain_is_file: bool,
    sourced_is_file: bool,
) -> (r: Option<String>)
    ensures
        plain_is_file ==> (r matches Some(p) && p@ == joined_path(exec_dir@, executable@)),
        !plain_is_file && sourced_is_file ==> (r matches Some(p) && p@ == joined_path(
            exec_dir@,
            executable@ + ".R"@,
        )),
        !plain_is_file && !sourced_is_file ==> r is None,
{
    if plain_is_file {
        return Some(join_path(exec_dir, executable));
    }
    if sourced_is_file {
        let mut sourced = String::from_str(executable);
        sourced.append(".R");
        return Some(join_path(exec_dir, sourced.as_str()));
    }
    None
}

/// Why the executable of a named package was not found: the package has no
/// `exec` directory, or neither candidate is in it.
pub open spec fn missing_executable_message(
    package: Seq<char>,
    library: Seq<char>,
    exec_dir: Seq<char>,
    executable: Seq<char>,
    has_exec_dir: bool,
) -> Seq<char> {
    if !has_exec_dir {
        "package `"@ + package + "` does not have an exec directory in `"@ + library + "`"@
    } else {
        "could not find executable `"@ + executable + "` or `"@ + executable + ".R` in `"@
            + exec_dir + "`"@
    }
}

/// The error for an executable not found in the package `package`;
/// `has_exec_dir` tells whether `exec_dir` is a directory.
pub fn missing_package_executable(
    package: &str,
    library: &str,
    exec_dir: &str,
    executable: &str,
    has_exec_dir: bool,
) -> (m: String)
    ensures
        m@ == missing_executable_message(package@, library@, exec_dir@, executable@, has_exec_dir),
{
    if !has_exec_dir {
        let mut m = String::from_str("package `");
        m.append(package);
        m.append("` does not have an exec directory in `");
        m.append(library);
        m.append("`");
        m
    } else {
        let mut m = String::from_str("could not find executable `");
        m.append(executable);
        m.append("` or `");
        m.append(executable);
        m.append(".R` in `");
        m.append(exec_dir);
        m.append("`");
        m
    }
}

/// The message when no package of the library has the executable.
pub open spec fn no_executable_message(executable: Seq<char>, library: Seq<char>) -> Seq<char> {
    "could not find executable `"@ + executable + "` or `"@ + executable
        + ".R` in any package under `"@ + library + "`"@
}

/// The message when several packages of the library have the executable.
pub open spec fn many_executables_message(executable: Seq<char>, library: Seq<char>) -> Seq<char> {
    "found multiple executables named `"@ + executable + "` in `"@ + library
        + "`; use a package ref whose installed package name can be inferred"@
}

/// The executable to run when the package is not known, given the
/// executables `found` across the library's packages: it must be exactly
/// one.
pub fn single_executable(library: &str, executable: &str, found: Vec<String>) -> (r: Result<
    String,
    String,
>)
    ensures
        found@.len() == 1 ==> (r matches Ok(p) && p@ == found@[0]@),
        found@.len() == 0 ==> (r matches Err(m) && m@ == no_executable_message(executable@, library@)),
        found@.len() > 1 ==> (r matches Err(m) && m@ == many_executables_message(
            executable@,
            library@,
        )),
{
    let mut found = found;
    if found.len() == 1 {
        let p = found.pop().unwrap();
        return Ok(p);
    }
    if found.len() == 0 {
        let mut m = String::from_str("could not find executable `");
        m.append(executable);
        m.append("` or `");
        m.append(executable);
        m.append(".R` in any package under `");
        m.append(library);
        m.append("`");
        return Err(m);
    }
    let mut m = String::from_str("found multiple executables named `");
    m.append(executable);
    m.append("` in `");
    m.append(library);
    m.append("`; use a package ref whose installed package name can be inferred");
    Err(m)
}

/// The spec a run resolves: the file's, with the `--with` packages after
/// its dependencies, `--r-version`, where given, in place of its R
/// requirement, and isolated when the file or `--isolated` asks for it.
pub open spec fn run_spec_of(
    spec: ScriptSpecView,
    with_deps: Seq<Seq<char>>,
    r_requirement: Option<Seq<char>>,
    isolated: bool,
) -> ScriptSpecView {
    ScriptSpecView {
        dependencies: spec.dependencies + with_deps,
        exclude_newer: spec.exclude_newer,
        r_requirement: if r_requirement is Some {
            r_requirement
        } else {
            spec.r_requirement
        },
        isolated: spec.isolated || isolated,
    }
}

/// Merge the command line into the spec a file declares.
pub fn run_spec(
    spec: ScriptSpec,
    with_deps: &Vec<String>,
    r_requirement: Option<&str>,
    isolated: bool,
) -> (r: ScriptSpec)
    ensures
        r@ == run_spec_of(
            spec@,
            texts(with_deps@),
            match r_requirement {
                Some(x) => Some(x@),
                None => None,
            },
            isolated,
        ),
{
    let mut spec = spec;
    extend_texts(&mut spec.dependencies, with_deps);
    if let Some(req) = r_requirement {
        spec.r_requirement = Some(String::from_str(req));
    }
    spec.isolated = spec.isolated || isolated;
    spec
}

/// The spec a tool run resolves: the tool's package ref, then the `--with`
/// packages, and `--r-version` where given; tool runs are always isolated.
pub fn tool_spec(package_ref: &str, with_deps: &Vec<String>, r_requirement: Option<&str>) -> (r:
    ScriptSpec)
    ensures
        r@ == run_spec_of(
            ScriptSpecView {
                dependencies: seq![package_ref@],
                exclude_newer: None,
                r_requirement: None,
                isolated: true,
            },
            texts(with_deps@),
            match r_requirement {
                Some(x) => Some(x@),
                None => None,
            },
            true,
        ),
{
    let mut deps: Vec<String> = Vec::new();
    push_text(&mut deps, package_ref);
    let spec = ScriptSpec {
        dependencies: deps,
        exclude_newer: None,
        r_requirement: None,
        isolated: true,
    };
    assert(spec@.dependencies =~= seq![package_ref@]);
    run_spec(spec, with_deps, r_requirement, true)
}

/// What the resolver reads on its standard input: each dependency on a
/// line of its own.
pub open spec fn resolver_input_of(deps: Seq<Seq<char>>) -> Seq<char>
    decreases deps.len(),
{
    if deps.len() == 0 {
        Seq::empty()
    } else {
        resolver_input_of(deps.drop_last()) + deps.last() + "\n"@
    }
}

/// The resolver's standard input for the dependencies of a spec.
pub fn resolver_input(deps: &Vec<String>) -> (s: String)
    ensures
        s@ == resolver_input_of(texts(deps@)),
{
    let mut s = String::new();
    let mut i: usize = 0;
    while i < deps.len()
        invariant
            i <= deps@.len(),
            s@ == resolver_input_of(texts(deps@).take(i as int)),
        decreases deps.len() - i,
    {
        let ghost t = texts(deps@).take(i + 1);
        assert(t.drop_last() =~= texts(deps@).take(i as int));
        s.append(deps[i].as_str());
        s.append("\n");
        i = i + 1;
    }
    assert(texts(deps@).take(deps@.len() as int) =~= texts(deps@));
    s
}

/// `IR_EXCLUDE_NEWER` set to the date, where there is one.
pub open spec fn date_env(exclude_newer: Option<Seq<char>>) -> Seq<(Seq<char>, Seq<char>)> {
    match exclude_newer {
        Some(d) => seq![("IR_EXCLUDE_NEWER"@, d)],
        None => Seq::empty(),
    }
}

/// How the resolver runs: `rscript <driver>`, told where to write its
/// result and the date to resolve as of, if any.
pub open spec fn resolver_launch_of(
    rscript: Seq<char>,
    driver: Seq<char>,
    result_file: Seq<char>,
    exclude_newer: Option<Seq<char>>,
) -> LaunchView {
    LaunchView {
        program: rscript,
        args: seq![driver],
        env: seq![("IR_RESOLVE_RESULT_FILE"@, result_file), ("R_PKG_SHOW_PROGRESS"@, "true"@)]
            + date_env(exclude_newer),
    }
}

/// The command that runs the resolver.
pub fn resolver_launch(
    rscript: &str,
    driver: &str,
    result_file: &str,
    exclude_newer: Option<&str>,
) -> (l: Launch)
    ensures
        l@ == resolver_launch_of(
            rscript@,
            driver@,
            result_file@,
            match exclude_newer {
                Some(x) => Some(x@),
                None => None,
            },
        ),
{
    let mut args: Vec<String> = Vec::new();
    push_text(&mut args, driver);
    assert(texts(args@) =~= seq![driver@]);
    let mut env: Vec<(String, String)> = Vec::new();
    push_env(&mut env, "IR_RESOLVE_RESULT_FILE", result_file);
    push_env(&mut env, "R_PKG_SHOW_PROGRESS", "true");
    if let Some(d) = exclude_newer {
        push_env(&mut env, "IR_EXCLUDE_NEWER", d);
    }
    let l = Launch { program: String::from_str(rscript), args, env };
    assert(l@.env =~= seq![("IR_RESOLVE_RESULT_FILE"@, result_file@), ("R_PKG_SHOW_PROGRESS"@, "true"@)]
        + date_env(
        match exclude_newer {
            Some(x) => Some(x@),
            None => None,
        },
    ));
    l
}

/// The library the resolver reported: its trimmed result, where that is
/// not empty.
pub open spec fn resolved_library_of(result: Seq<char>) -> Option<Seq<char>> {
    if trim(result).len() == 0 {
        None
    } else {
        Some(trim(result))
    }
}

/// The library path the resolver wrote to its result file.
pub fn resolved_library(result: &str) -> (r: Option<String>)
    ensures
        opt_text(r) == resolved_library_of(result@),
{
    let t = trimmed(result);
    if t.as_str().unicode_len() == 0 {
        None
    } else {
        Some(t)
    }
}

/// The cache directory R reports on its standard output: the trimmed
/// text, which must not be empty.
pub fn cache_dir_from_r(stdout: &str) -> (r: Result<String, String>)
    ensures
        trim(stdout@).len() == 0 ==> (r matches Err(m) && m@
            == "tools::R_user_dir returned an empty cache dir"@),
        trim(stdout@).len() > 0 ==> (r matches Ok(p) && p@ == trim(stdout@)),
{
    let t = trimmed(stdout);
    if t.as_str().unicode_len() == 0 {
        Err(String::from_str("tools::R_user_dir returned an empty cache dir"))
    } else {
        Ok(t)
    }
}

/// The error when R could not report the cache directory, given what it
/// wrote to standard error.
pub fn cache_dir_failure(stderr: &str) -> (m: String)
    ensures
        m@ == "failed to resolve cache dir with tools::R_user_dir: "@ + stderr@,
{
    let mut m = String::from_str("failed to resolve cache dir with tools::R_user_dir: ");
    m.append(stderr);
    m
}

/// The name of a per-process file: `<prefix>-<pid>-<nanos>.<ext>`.
pub open spec fn unique_file_name_of(prefix: Seq<char>, pid: nat, nanos: nat, ext: Seq<char>) -> Seq<
    char,
> {
    prefix + "-"@ + decimal_text(pid) + "-"@ + decimal_text(nanos) + "."@ + ext
}

/// A path in `dir` unique to this process and moment, from the process id
/// and the time in nanoseconds.
pub fn unique_path(dir: &str, prefix: &str, pid: u32, nanos: u128, ext: &str) -> (r: String)
    ensures
        r@ == joined_path(dir@, unique_file_name_of(prefix@, pid as nat, nanos as nat, ext@)),
{
    let mut name = String::from_str(prefix);
    name.append("-");
    let p = decimal_string(pid as u128);
    name.append(p.as_str());
    name.append("-");
    let n = decimal_string(nanos);
    name.append(n.as_str());
    name.append(".");
    name.append(ext);
    join_path(dir, name.as_str())
}

/// An isolated run drops the user library, and a resolved library is put
/// on `R_LIBS`, for scripts and Quarto documents alike.
pub proof fn law_isolated_runs_drop_the_user_library(
    rscript: Seq<char>,
    quarto: Seq<char>,
    rscript_exists: bool,
    library: Option<Seq<char>>,
    script: Option<Seq<char>>,
    doc: Seq<char>,
    expressions: Seq<Seq<char>>,
    rscript_args: Seq<Seq<char>>,
    script_args: Seq<Seq<char>>,
    isolated: bool,
)
    ensures
        isolated ==> script_launch_of(
            rscript,
            library,
            script,
            expressions,
            rscript_args,
            script_args,
            isolated,
        ).env.contains(("R_LIBS_USER"@, "NULL"@)),
        isolated ==> quarto_launch_of(
            quarto,
            rscript,
            rscript_exists,
            library,
            doc,
            rscript_args,
            script_args,
            isolated,
        ).env.contains(("R_LIBS_USER"@, "NULL"@)),
        library matches Some(l) ==> script_launch_of(
            rscript,
            library,
            script,
            expressions,
            rscript_args,
            script_args,
            isolated,
        ).env.contains(("R_LIBS"@, l)),
        library matches Some(l) ==> quarto_launch_of(
            quarto,
            rscript,
            rscript_exists,
            library,
            doc,
            rscript_args,
            script_args,
            isolated,
        ).env.contains(("R_LIBS"@, l)),
{
    let se = script_launch_of(rscript, library, script, expressions, rscript_args, script_args, isolated).env;
    let qe = quarto_launch_of(
        quarto,
        rscript,
        rscript_exists,
        library,
        doc,
        rscript_args,
        script_args,
        isolated,
    ).env;
    let pinned: Seq<(Seq<char>, Seq<char>)> = match quarto_r_of(rscript, rscript_exists) {
        Some(v) => seq![("QUARTO_R"@, v)],
        None => Seq::empty(),
    };
    let knitr: Seq<(Seq<char>, Seq<char>)> = if rscript_args.len() > 0 {
        seq![("QUARTO_KNITR_RSCRIPT_ARGS"@, comma_joined(rscript_args))]
    } else {
        Seq::empty()
    };
    let lib = library_env(library);
    let iso = isolation_env(isolated);
    assert(se == lib + iso);
    assert(qe == pinned + lib + knitr + iso);
    if isolated {
        assert(se[se.len() - 1] == ("R_LIBS_USER"@, "NULL"@));
        assert(qe[qe.len() - 1] == ("R_LIBS_USER"@, "NULL"@));
    }
    if let Some(l) = library {
        assert(se[0] == ("R_LIBS"@, l));
        assert(qe[pinned.len() as int] == ("R_LIBS"@, l));
    }
}

} // verus!
