//! What rig reports about installed and available R versions.
use vstd::prelude::*;

use crate::launch::{io_error_kind_not_found, io_error_not_found, io_error_text};
use crate::paths::{join_path, joined_path, path_with_file_name, with_file_name};
use crate::runner::{Launch, LaunchView};
use crate::text::{
    chars_of, decimal_string, decimal_text, is_ws, lemma_trimmed_ends, trim, trim_end,
    trim_start, trimmed,
};

verus! {

/// An R installation as `rig list --json` reports it.
#[derive(Debug)]
pub struct InstalledR {
    pub name: String,
    pub version: String,
    /// Whether rig marks this installation as the default one.
    pub is_default: bool,
    pub aliases: Vec<String>,
    pub path: Option<String>,
    pub binary: String,
}

/// An R release as rig's availability metadata reports it.
#[derive(Debug)]
pub struct AvailableR {
    pub name: String,
    pub version: String,
    /// The release date, `YYYY-MM-DD`, where known.
    pub date: Option<String>,
}

/// The texts of a list of strings.
pub open spec fn texts(v: Seq<String>) -> Seq<Seq<char>> {
    v.map_values(|s: String| s@)
}


/// The message for a failure to launch rig.
pub open spec fn rig_launch_message(not_found: bool, detail: Seq<char>) -> Seq<char> {
    if not_found {
        "could not find `rig` on PATH. Install the development version with `cargo install --git https://github.com/r-lib/rig --locked --force rig`, then place Cargo's bin directory before any existing rig on PATH."@
    } else {
        "failed to launch `rig`: "@ + detail
    }
}

/// The message for a failure to launch rig, where `not_found` tells whether
/// no executable was found and `detail` is the error's text.
pub fn rig_launch_message_of(not_found: bool, detail: &str) -> (m: String)
    ensures
        m@ == rig_launch_message(not_found, detail@),
{
    if not_found {
        String::from_str(
            "could not find `rig` on PATH. Install the development version with `cargo install --git https://github.com/r-lib/rig --locked --force rig`, then place Cargo's bin directory before any existing rig on PATH.",
        )
    } else {
        let mut m = String::from_str("failed to launch `rig`: ");
        m.append(detail);
        m
    }
}

/// Turn a failure to launch rig into an actionable message.
pub fn launch_error(error: std::io::Error) -> (m: String)
    ensures
        exists|detail: Seq<char>| m@ == rig_launch_message(io_error_kind_not_found(error), detail),
{
    let not_found = io_error_not_found(&error);
    let detail = io_error_text(&error);
    rig_launch_message_of(not_found, detail.as_str())
}

/// The name of the Rscript executable: `Rscript.exe` on Windows, else
/// `Rscript`.
pub open spec fn rscript_name(windows: bool) -> Seq<char> {
    if windows {
        "Rscript.exe"@
    } else {
        "Rscript"@
    }
}

/// The Rscript beside the R binary `binary`; `windows` tells whether this
/// is a Windows host.
pub fn rscript_from_r_binary(binary: &str, windows: bool) -> (r: String)
    ensures
        r@ == path_with_file_name(binary@, rscript_name(windows)),
{
    if windows {
        with_file_name(binary, "Rscript.exe")
    } else {
        with_file_name(binary, "Rscript")
    }
}

/// A rig selector as the cache stores it: ASCII letters, digits and `/`.
pub open spec fn plain_selector(s: Seq<char>) -> bool {
    forall|i: int|
        0 <= i < s.len() ==> ('a' <= #[trigger] s[i] && s[i] <= 'z') || ('A' <= s[i] && s[i] <= 'Z')
            || ('0' <= s[i] && s[i] <= '9') || s[i] == '/'
}

/// `s` with every `/` replaced by `-`.
pub open spec fn slashes_to_dashes(s: Seq<char>) -> Seq<char> {
    Seq::new(s.len(), |i: int| if s[i] == '/' { '-' } else { s[i] })
}

/// The file, under `resolution_dir`, that caches what rig resolved
/// `selector` to.
pub fn resolution_path(resolution_dir: &str, selector: &str) -> (r: String)
    requires
        plain_selector(selector@),
    ensures
        r@ == joined_path(resolution_dir@, slashes_to_dashes(selector@)),
{
    let cs = chars_of(selector);
    let mut name = String::new();
    let mut i: usize = 0;
    while i < cs.len()
        invariant
            i <= cs@.len(),
            cs@ == selector@,
            name@ == slashes_to_dashes(selector@).subrange(0, i as int),
        decreases cs.len() - i,
    {
        let c = if cs[i] == '/' { '-' } else { cs[i] };
        name.push(c);
        assert(slashes_to_dashes(selector@).subrange(0, i + 1) =~= slashes_to_dashes(selector@).subrange(
            0,
            i as int,
        ).push(c));
        i = i + 1;
    }
    assert(slashes_to_dashes(selector@).subrange(0, cs@.len() as int) == slashes_to_dashes(selector@));
    join_path(resolution_dir, name.as_str())
}

/// Why `rig --user resolve` gave no version.
pub open spec fn resolve_message(selector: Seq<char>, count: nat) -> Seq<char> {
    if count != 1 {
        "`rig --user resolve "@ + selector + "` returned "@ + decimal_text(count)
            + " results; expected one"@
    } else {
        "`rig --user resolve "@ + selector + "` did not return an R version"@
    }
}

/// The version that `rig --user resolve selector` reported, given the
/// versions of the results it listed: there must be exactly one result, and
/// it must carry a version.
pub fn resolved_version(selector: &str, resolved: &Vec<Option<String>>) -> (r: Result<
    String,
    String,
>)
    ensures
        resolved@.len() == 1 && resolved@[0] is Some ==> (r matches Ok(v) && v@
            == resolved@[0].unwrap()@),
        resolved@.len() != 1 || resolved@[0] is None ==> (r matches Err(m) && m@ == resolve_message(
            selector@,
            resolved@.len(),
        )),
{
    if resolved.len() != 1 {
        let mut m = String::from_str("`rig --user resolve ");
        m.append(selector);
        m.append("` returned ");
        let n = decimal_string(resolved.len() as u128);
        m.append(n.as_str());
        m.append(" results; expected one");
        return Err(m);
    }
    match &resolved[0] {
        Some(v) => Ok(v.clone()),
        None => {
            let mut m = String::from_str("`rig --user resolve ");
            m.append(selector);
            m.append("` did not return an R version");
            Err(m)
        },
    }
}

/// The message when rig cannot work on a private installation, given
/// what `rig --user --version` wrote to standard error.
pub open spec fn user_mode_message(stderr: Seq<char>) -> Seq<char> {
    "ir requires the development version of rig for private R installations. Install it with `cargo install --git https://github.com/r-lib/rig --locked --force rig`, then place Cargo's bin directory before any existing rig on PATH.\nrig error: "@
        + trim(stderr)
}

/// The error for a rig without user mode, from what `rig --user --version`
/// wrote to standard error.
pub fn user_mode_error(stderr: &str) -> (m: String)
    ensures
        m@ == user_mode_message(stderr@),
{
    let mut m = String::from_str(
        "ir requires the development version of rig for private R installations. Install it with `cargo install --git https://github.com/r-lib/rig --locked --force rig`, then place Cargo's bin directory before any existing rig on PATH.\nrig error: ",
    );
    let t = trimmed(stderr);
    m.append(t.as_str());
    m
}

/// The message for a cached resolution at `path` that could not be read.
pub open spec fn cache_read_message(path: Seq<char>, detail: Seq<char>) -> Seq<char> {
    "failed to read cached rig resolution `"@ + path + "`: "@ + detail
}

/// The cached resolution, from reading the file at `path`: its trimmed
/// text; none where the file does not exist; else an error.
pub fn cached_resolution(path: &str, read: Result<String, std::io::Error>) -> (r: Result<
    Option<String>,
    String,
>)
    ensures
        read matches Ok(c) ==> (r matches Ok(Some(v)) && v@ == trim(c@)),
        read matches Err(e) ==> (r matches Ok(None) <==> io_error_kind_not_found(e)),
        read is Err ==> (r matches Ok(None) || (r matches Err(m) && exists|d: Seq<char>|
            m@ == cache_read_message(path@, d))),
{
    match read {
        Ok(contents) => {
            let t = trimmed(contents.as_str());
            Ok(Some(t))
        },
        Err(error) => {
            if io_error_not_found(&error) {
                return Ok(None);
            }
            let detail = io_error_text(&error);
            let mut m = String::from_str("failed to read cached rig resolution `");
            m.append(path);
            m.append("`: ");
            m.append(detail.as_str());
            assert(m@ == cache_read_message(path@, detail@));
            Err(m)
        },
    }
}

/// Words joined by single spaces.
pub open spec fn joined_words(ws: Seq<Seq<char>>) -> Seq<char>
    decreases ws.len(),
{
    if ws.len() == 0 {
        Seq::empty()
    } else if ws.len() == 1 {
        ws[0]
    } else {
        joined_words(ws.drop_last()) + " "@ + ws.last()
    }
}

/// The texts of a list of string slices.
pub open spec fn str_texts(v: Seq<&str>) -> Seq<Seq<char>> {
    v.map_values(|s: &str| s@)
}

/// `args` joined by single spaces, as a command line shows them.
pub fn join_args(args: &[&str]) -> (s: String)
    ensures
        s@ == joined_words(str_texts(args@)),
{
    let mut s = String::new();
    let mut i: usize = 0;
    while i < args.len()
        invariant
            i <= args@.len(),
            s@ == joined_words(str_texts(args@).take(i as int)),
        decreases args.len() - i,
    {
        let ghost t = str_texts(args@).take(i as int + 1);
        assert(t.drop_last() =~= str_texts(args@).take(i as int));
        assert(t.last() == args@[i as int]@);
        if i > 0 {
            s.append(" ");
        }
        s.append(args[i]);
        proof {
            reveal_strlit(" ");
            if i == 0 {
                assert(t.len() == 1);
            }
        }
        i = i + 1;
    }
    assert(str_texts(args@).take(args@.len() as int) =~= str_texts(args@));
    s
}

/// The message for a rig command that failed: its arguments, whether it
/// ran in user mode, and what it wrote to standard error.
pub open spec fn rig_failed_message(args: Seq<Seq<char>>, user: bool, stderr: Seq<char>) -> Seq<
    char,
> {
    (if user {
        "`rig --user "@
    } else {
        "`rig "@
    }) + joined_words(args) + "` failed: "@ + stderr
}

/// The error for a rig command that exited with failure.
pub fn rig_failed(args: &[&str], user: bool, stderr: &str) -> (m: String)
    ensures
        m@ == rig_failed_message(str_texts(args@), user, stderr@),
{
    let mut m = if user {
        String::from_str("`rig --user ")
    } else {
        String::from_str("`rig ")
    };
    let joined = join_args(args);
    m.append(joined.as_str());
    m.append("` failed: ");
    m.append(stderr);
    m
}

/// The message for an installation whose Rscript is missing.
pub open spec fn missing_rscript_message(version: Seq<char>, binary: Seq<char>, rscript: Seq<
    char,
>) -> Seq<char> {
    "rig reported R "@ + version + " at `"@ + binary + "`, but `"@ + rscript + "` does not exist"@
}

impl InstalledR {
    /// The error for this installation when its Rscript, `rscript`, does
    /// not exist.
    pub fn missing_rscript(&self, rscript: &str) -> (m: String)
        ensures
            m@ == missing_rscript_message(self.version@, self.binary@, rscript@),
    {
        let mut m = String::from_str("rig reported R ");
        m.append(self.version.as_str());
        m.append(" at `");
        m.append(self.binary.as_str());
        m.append("`, but `");
        m.append(rscript);
        m.append("` does not exist");
        m
    }
}

/// What the resolution cache stores for a resolved version: the version
/// on a line of its own.
pub fn cache_resolution_contents(version: &str) -> (s: String)
    ensures
        s@ == version@ + "\n"@,
{
    let mut s = String::from_str(version);
    s.append("\n");
    s
}

/// Reading back a cached resolution gives the version that was written,
/// for any version without surrounding whitespace (as rig reports them).
pub proof fn law_resolution_cache_round_trip(version: Seq<char>)
    requires
        trim(version) == version,
    ensures
        trim(version + "\n"@) == version,
{
    reveal_strlit("\n");
    let written = version + "\n"@;
    assert(written.last() == '\n');
    assert(written.drop_last() =~= version);
    if version.len() == 0 {
        assert(written.len() == 1 && written[0] == '\n');
        assert(is_ws(written[0]));
        assert(written.drop_first() =~= Seq::<char>::empty());
        assert(trim_start(written.drop_first()) =~= Seq::<char>::empty());
        assert(trim_start(written) =~= Seq::<char>::empty());
    } else {
        lemma_trimmed_ends(version);
        assert(written[0] == version[0]);
        assert(trim_start(written) == written);
        assert(trim_end(written) == trim_end(version));
    }
}

/// The private rig installation under the cache: where R versions,
/// their launchers, rig's home and temporary files, and cached
/// resolutions go, and the `PATH` rig runs with.
#[derive(Debug)]
pub struct UserInstallation {
    pub r_root: String,
    pub binary_dir: String,
    pub home_dir: String,
    pub temp_dir: String,
    pub resolution_dir: String,
    pub path: String,
}

/// The directory `name` of the private rig installation under `cache_dir`.
pub open spec fn rig_dir(cache_dir: Seq<char>, name: Seq<char>) -> Seq<char> {
    joined_path(joined_path(cache_dir, "rig"@), name)
}

impl UserInstallation {
    /// The private installation under the absolute cache directory
    /// `cache_dir`, run with the search path `path`.
    pub fn new(cache_dir: &str, path: String) -> (u: UserInstallation)
        ensures
            u.r_root@ == rig_dir(cache_dir@, "r"@),
            u.binary_dir@ == rig_dir(cache_dir@, "bin"@),
            u.home_dir@ == rig_dir(cache_dir@, "home"@),
            u.temp_dir@ == rig_dir(cache_dir@, "tmp"@),
            u.resolution_dir@ == rig_dir(cache_dir@, "resolutions"@),
            u.path == path,
    {
        let root = join_path(cache_dir, "rig");
        UserInstallation {
            r_root: join_path(root.as_str(), "r"),
            binary_dir: join_path(root.as_str(), "bin"),
            home_dir: join_path(root.as_str(), "home"),
            temp_dir: join_path(root.as_str(), "tmp"),
            resolution_dir: join_path(root.as_str(), "resolutions"),
            path,
        }
    }
}

/// The `PATH` entries of the private installation: its launcher directory
/// first, then the current entries.
pub fn user_path_entries(binary_dir: &str, current: &Vec<String>) -> (r: Vec<String>)
    ensures
        texts(r@) == seq![binary_dir@] + texts(current@),
{
    let mut r: Vec<String> = Vec::new();
    r.push(String::from_str(binary_dir));
    let mut i: usize = 0;
    while i < current.len()
        invariant
            i <= current@.len(),
            texts(r@) == seq![binary_dir@] + texts(current@).take(i as int),
        decreases current.len() - i,
    {
        let ghost before = r@;
        r.push(current[i].clone());
        assert(texts(r@) =~= texts(before).push(current@[i as int]@));
        assert(texts(current@).take(i + 1) =~= texts(current@).take(i as int).push(current@[i as int]@));
        i = i + 1;
    }
    assert(texts(current@).take(current@.len() as int) =~= texts(current@));
    r
}

/// The environment of rig in user mode, on top of the inherited one (from
/// which `user_env_removed` are taken out).
pub open spec fn user_env_of(u: UserInstallation) -> Seq<(Seq<char>, Seq<char>)> {
    seq![
        ("RIG_MODE"@, "user"@),
        ("RIG_R_INSTALL_DIR"@, u.r_root@),
        ("RIG_BINARY_DIR"@, u.binary_dir@),
        ("TMPDIR"@, u.temp_dir@),
        ("TMP"@, u.temp_dir@),
        ("TEMP"@, u.temp_dir@),
        ("PATH"@, u.path@),
        ("HOME"@, u.home_dir@),
    ]
}

/// How rig runs against the private installation: `rig --user <args>`.
pub open spec fn user_rig_launch_of(u: UserInstallation, args: Seq<Seq<char>>) -> LaunchView {
    LaunchView { program: "rig"@, args: seq!["--user"@] + args, env: user_env_of(u) }
}

/// The command that runs rig with `args` against the private
/// installation.
pub fn user_rig_launch(u: &UserInstallation, args: &[&str]) -> (l: Launch)
    ensures
        l@ == user_rig_launch_of(*u, str_texts(args@)),
{
    let mut a: Vec<String> = Vec::new();
    a.push(String::from_str("--user"));
    let mut i: usize = 0;
    while i < args.len()
        invariant
            i <= args@.len(),
            texts(a@) == seq!["--user"@] + str_texts(args@).take(i as int),
        decreases args.len() - i,
    {
        let ghost before = a@;
        a.push(String::from_str(args[i]));
        assert(texts(a@) =~= texts(before).push(args@[i as int]@));
        assert(str_texts(args@).take(i + 1) =~= str_texts(args@).take(i as int).push(args@[i as int]@));
        i = i + 1;
    }
    assert(str_texts(args@).take(args@.len() as int) =~= str_texts(args@));
    let mut env: Vec<(String, String)> = Vec::new();
    env.push((String::from_str("RIG_MODE"), String::from_str("user")));
    env.push((String::from_str("RIG_R_INSTALL_DIR"), u.r_root.clone()));
    env.push((String::from_str("RIG_BINARY_DIR"), u.binary_dir.clone()));
    env.push((String::from_str("TMPDIR"), u.temp_dir.clone()));
    env.push((String::from_str("TMP"), u.temp_dir.clone()));
    env.push((String::from_str("TEMP"), u.temp_dir.clone()));
    env.push((String::from_str("PATH"), u.path.clone()));
    env.push((String::from_str("HOME"), u.home_dir.clone()));
    let l = Launch { program: String::from_str("rig"), args: a, env };
    assert(l@.env =~= user_env_of(*u));
    l
}

/// The variables taken out of rig's environment in user mode.
pub fn user_env_removed() -> (r: Vec<String>)
    ensures
        texts(r@) == seq![
            "RIG_PLATFORM"@,
            "RIG_RTOOLS_INSTALL_DIR"@,
            "XDG_CONFIG_HOME"@,
            "XDG_DATA_HOME"@,
            "XDG_CACHE_HOME"@,
        ],
{
    let mut r: Vec<String> = Vec::new();
    r.push(String::from_str("RIG_PLATFORM"));
    r.push(String::from_str("RIG_RTOOLS_INSTALL_DIR"));
    r.push(String::from_str("XDG_CONFIG_HOME"));
    r.push(String::from_str("XDG_DATA_HOME"));
    r.push(String::from_str("XDG_CACHE_HOME"));
    assert(texts(r@) =~= seq![
        "RIG_PLATFORM"@,
        "RIG_RTOOLS_INSTALL_DIR"@,
        "XDG_CONFIG_HOME"@,
        "XDG_DATA_HOME"@,
        "XDG_CACHE_HOME"@,
    ]);
    r
}

/// The arguments of `rig --user` that install `version` without pak or
/// repository setup.
pub fn install_args(version: &str) -> (r: Vec<&str>)
    ensures
        str_texts(r@) == seq!["add"@, "--without-pak"@, "--without-repos"@, "--"@, version@],
{
    let r = vec!["add", "--without-pak", "--without-repos", "--", version];
    assert(str_texts(r@) =~= seq!["add"@, "--without-pak"@, "--without-repos"@, "--"@, version@]);
    r
}

/// The message for rig output that is not the JSON expected.
pub open spec fn rig_json_message(args: Seq<Seq<char>>, user: bool, detail: Seq<char>) -> Seq<char> {
    (if user {
        "failed to parse `rig --user "@
    } else {
        "failed to parse `rig "@
    }) + joined_words(args) + "` JSON: "@ + detail
}

/// The error for rig output that could not be read as JSON, with the
/// parser's `detail`.
pub fn rig_json_failed(args: &[&str], user: bool, detail: &str) -> (m: String)
    ensures
        m@ == rig_json_message(str_texts(args@), user, detail@),
{
    let mut m = if user {
        String::from_str("failed to parse `rig --user ")
    } else {
        String::from_str("failed to parse `rig ")
    };
    let joined = join_args(args);
    m.append(joined.as_str());
    m.append("` JSON: ");
    m.append(detail);
    m
}

} // verus!
