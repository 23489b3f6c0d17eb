//! Launching R, quarto and package executables: launcher choice and launch
//! failure messages.
use vstd::prelude::*;

use crate::rig::rig_client::texts;
use crate::text::{chars_of, contains_str, contains_text, range_eq, ranges_view, ranges_within, starts_with_str};

verus! {

/// `std::io::Error`.
#[verifier::external_type_specification]
#[verifier::external_body]
pub struct ExIoError(std::io::Error);

/// Whether `io::Error::kind` of an error is `ErrorKind::NotFound`.
pub uninterp spec fn io_error_kind_not_found(e: std::io::Error) -> bool;

/// Whether `io::Error::kind` of `err` is `ErrorKind::NotFound`. Claimed: the
/// kind is a function of the error alone.
#[verifier::external_body]
pub(crate) fn io_error_not_found(err: &std::io::Error) -> (r: bool)
    ensures
        r == io_error_kind_not_found(*err),
{
    matches!(err.kind(), std::io::ErrorKind::NotFound)
}

/// The `Display` text of `err`. Nothing is claimed of the result.
#[verifier::external_body]
pub(crate) fn io_error_text(err: &std::io::Error) -> String {
    format!("{err}")
}

/// The message for a failure to launch quarto.
pub open spec fn quarto_launch_message(not_found: bool, detail: Seq<char>) -> Seq<char> {
    if not_found {
        "could not find `quarto`. Install Quarto (https://quarto.org/docs/get-started/) or set IR_QUARTO to a quarto executable."@
    } else {
        "failed to launch `quarto`: "@ + detail
    }
}

/// The message for a failure to launch quarto, where `not_found` tells
/// whether no executable was found and `detail` is the error's text.
pub fn quarto_launch_message_of(not_found: bool, detail: &str) -> (m: String)
    ensures
        m@ == quarto_launch_message(not_found, detail@),
{
    if not_found {
        String::from_str(
            "could not find `quarto`. Install Quarto (https://quarto.org/docs/get-started/) or set IR_QUARTO to a quarto executable.",
        )
    } else {
        let mut m = String::from_str("failed to launch `quarto`: ");
        m.append(detail);
        m
    }
}

/// Turn a failure to launch quarto into an actionable message.
pub fn quarto_spawn_error(err: std::io::Error) -> (m: String)
    ensures
        exists|detail: Seq<char>|
            m@ == quarto_launch_message(io_error_kind_not_found(err), detail),
{
    let not_found = io_error_not_found(&err);
    let detail = io_error_text(&err);
    quarto_launch_message_of(not_found, detail.as_str())
}

/// The message for a failure to launch the Rscript `rscript`.
pub open spec fn rscript_launch_message(rscript: Seq<char>, not_found: bool, detail: Seq<char>) -> Seq<
    char,
> {
    if not_found {
        "could not find `"@ + rscript + "` on PATH. Install R, or set IR_RSCRIPT to its path."@
    } else {
        "failed to launch `"@ + rscript + "`: "@ + detail
    }
}

/// The message for a failure to launch the Rscript `rscript`.
pub fn rscript_launch_message_of(rscript: &str, not_found: bool, detail: &str) -> (m: String)
    ensures
        m@ == rscript_launch_message(rscript@, not_found, detail@),
{
    if not_found {
        let mut m = String::from_str("could not find `");
        m.append(rscript);
        m.append("` on PATH. Install R, or set IR_RSCRIPT to its path.");
        m
    } else {
        let mut m = String::from_str("failed to launch `");
        m.append(rscript);
        m.append("`: ");
        m.append(detail);
        m
    }
}

/// Turn a failure to launch Rscript into an actionable message.
pub fn spawn_error(rscript: &str, err: std::io::Error) -> (m: String)
    ensures
        exists|detail: Seq<char>|
            m@ == rscript_launch_message(rscript@, io_error_kind_not_found(err), detail),
{
    let not_found = io_error_not_found(&err);
    let detail = io_error_text(&err);
    rscript_launch_message_of(rscript, not_found, detail.as_str())
}

/// A character of a shebang word: an ASCII letter or digit, or `_`.
pub open spec fn is_word_char(c: char) -> bool {
    ('a' <= c && c <= 'z') || ('A' <= c && c <= 'Z') || ('0' <= c && c <= '9') || c == '_'
}

/// The pieces of `s` between characters that are not word characters
/// (`str::split` with that predicate); pieces may be empty.
pub open spec fn word_pieces(s: Seq<char>) -> Seq<Seq<char>>
    decreases s.len(),
{
    if s.len() == 0 {
        seq![Seq::<char>::empty()]
    } else {
        let p = word_pieces(s.drop_last());
        if !is_word_char(s.last()) {
            p.push(Seq::<char>::empty())
        } else {
            p.update(p.len() - 1, p.last().push(s.last()))
        }
    }
}

/// Whether `name` is one of the words of the shebang line `shebang`.
pub open spec fn mentions(shebang: Seq<char>, name: Seq<char>) -> bool {
    exists|k: int| 0 <= k < word_pieces(shebang).len() && word_pieces(shebang)[k] == name
}

fn word_piece_ranges(cs: &[char]) -> (rs: Vec<(usize, usize)>)
    ensures
        ranges_within(cs@, rs@),
        ranges_view(cs@, rs@) == word_pieces(cs@),
{
    let mut rs: Vec<(usize, usize)> = Vec::new();
    let mut start: usize = 0;
    let mut i: usize = 0;
    assert(cs@.take(0) == Seq::<char>::empty());
    assert(ranges_view(cs@, rs@) == Seq::<Seq<char>>::empty());
    assert(cs@.subrange(0, 0) == Seq::<char>::empty());
    while i < cs.len()
        invariant
            start <= i <= cs@.len(),
            ranges_within(cs@, rs@),
            forall|k: int| 0 <= k < rs@.len() ==> #[trigger] rs@[k].1 <= start,
            ranges_view(cs@, rs@).push(cs@.subrange(start as int, i as int)) == word_pieces(
                cs@.take(i as int),
            ),
        decreases cs.len() - i,
    {
        let ghost old_rs = rs@;
        let ghost t = cs@.take(i as int + 1);
        assert(t.drop_last() == cs@.take(i as int));
        assert(t.last() == cs@[i as int]);
        let c = cs[i];
        if !(('a' <= c && c <= 'z') || ('A' <= c && c <= 'Z') || ('0' <= c && c <= '9') || c == '_') {
            rs.push((start, i));
            start = i + 1;
            assert(ranges_view(cs@, rs@) == ranges_view(cs@, old_rs).push(
                cs@.subrange(rs@.last().0 as int, i as int),
            ));
            assert(cs@.subrange(start as int, i as int + 1) == Seq::<char>::empty());
        } else {
            assert(cs@.subrange(start as int, i as int + 1) == cs@.subrange(
                start as int,
                i as int,
            ).push(cs@[i as int]));
        }
        i = i + 1;
    }
    rs.push((start, i));
    assert(cs@.take(cs@.len() as int) == cs@);
    rs
}

/// Whether the shebang line `shebang` names `name` as one of its words.
pub fn shebang_mentions(shebang: &str, name: &str) -> (r: bool)
    ensures
        r == mentions(shebang@, name@),
{
    let cs = chars_of(shebang);
    let rs = word_piece_ranges(cs.as_slice());
    let mut k: usize = 0;
    while k < rs.len()
        invariant
            k <= rs@.len(),
            cs@ == shebang@,
            ranges_within(cs@, rs@),
            ranges_view(cs@, rs@) == word_pieces(cs@),
            forall|j: int| 0 <= j < k ==> word_pieces(cs@)[j] != name@,
        decreases rs.len() - k,
    {
        let (a, b) = rs[k];
        assert(cs@.subrange(a as int, b as int) == word_pieces(cs@)[k as int]);
        if range_eq(cs.as_slice(), a, b, name) {
            return true;
        }
        k = k + 1;
    }
    false
}

/// How a package executable is launched.
#[derive(Debug, PartialEq, Eq, Structural)]
pub enum PackageLauncher {
    /// `Rscript <executable>`.
    Rscript,
    /// `Rscript -e 'Rapp::run()' <executable>`.
    Rapp,
}

/// Why a package executable cannot be launched.
#[derive(Debug, PartialEq, Eq, Structural)]
pub enum LauncherError {
    /// Its first line is no shebang.
    NoShebang,
    /// Its shebang names neither Rscript nor Rapp.
    UnsupportedShebang,
}

/// The launcher that the first line of a package executable asks for:
/// Rapp when its shebang names Rapp, else Rscript when it names Rscript.
pub open spec fn launcher_of(first_line: Seq<char>) -> Result<PackageLauncher, LauncherError> {
    if !(2 <= first_line.len() && first_line.subrange(0, 2) == "#!"@) {
        Err(LauncherError::NoShebang)
    } else if mentions(first_line, "Rapp"@) {
        Ok(PackageLauncher::Rapp)
    } else if mentions(first_line, "Rscript"@) {
        Ok(PackageLauncher::Rscript)
    } else {
        Err(LauncherError::UnsupportedShebang)
    }
}

/// Choose the launcher of a package executable from its first line.
pub fn package_executable_launcher(first_line: &str) -> (r: Result<PackageLauncher, LauncherError>)
    ensures
        r == launcher_of(first_line@),
{
    proof {
        reveal_strlit("#!");
    }
    if !starts_with_str(first_line, "#!") {
        return Err(LauncherError::NoShebang);
    }
    if shebang_mentions(first_line, "Rapp") {
        Ok(PackageLauncher::Rapp)
    } else if shebang_mentions(first_line, "Rscript") {
        Ok(PackageLauncher::Rscript)
    } else {
        Err(LauncherError::UnsupportedShebang)
    }
}

/// The message for a launcher error of the executable at `executable`.
pub open spec fn launcher_message(e: LauncherError, executable: Seq<char>) -> Seq<char> {
    match e {
        LauncherError::NoShebang => "package executable `"@ + executable
            + "` must start with a Rscript or Rapp shebang"@,
        LauncherError::UnsupportedShebang => "package executable `"@ + executable
            + "` must use a Rscript or Rapp shebang"@,
    }
}

impl LauncherError {
    /// The message this error is reported with, for the executable at
    /// `executable`.
    pub fn message(&self, executable: &str) -> (m: String)
        ensures
            m@ == launcher_message(*self, executable@),
    {
        let mut m = String::from_str("package executable `");
        m.append(executable);
        match self {
            LauncherError::NoShebang => m.append("` must start with a Rscript or Rapp shebang"),
            LauncherError::UnsupportedShebang => m.append("` must use a Rscript or Rapp shebang"),
        }
        m
    }
}

/// Quarto's `QUARTO_KNITR_RSCRIPT_ARGS` is comma-separated with no
/// escaping: the first Rscript option that contains a comma, if any.
pub open spec fn first_comma_arg(args: Seq<Seq<char>>, i: int) -> Option<Seq<char>>
    decreases args.len() - i,
{
    if i < 0 || i >= args.len() {
        None
    } else if contains_text(args[i], ","@) {
        Some(args[i])
    } else {
        first_comma_arg(args, i + 1)
    }
}

/// The message for an Rscript option that cannot be forwarded to quarto.
pub open spec fn comma_arg_message(arg: Seq<char>) -> Seq<char> {
    "Rscript option `"@ + arg
        + "` contains a comma, which cannot be forwarded to quarto's knitr engine: QUARTO_KNITR_RSCRIPT_ARGS is comma-separated with no escaping."@
}

/// Refuse Rscript options that contain a comma, which quarto's
/// `QUARTO_KNITR_RSCRIPT_ARGS` cannot carry; the error is the message.
pub fn reject_comma_rscript_args(rscript_args: &[String]) -> (r: Result<(), String>)
    ensures
        match first_comma_arg(texts(rscript_args@), 0) {
            Some(a) => r matches Err(m) && m@ == comma_arg_message(a),
            None => r is Ok,
        },
{
    let ghost av = texts(rscript_args@);
    let mut i: usize = 0;
    while i < rscript_args.len()
        invariant
            i <= rscript_args@.len(),
            av == texts(rscript_args@),
            first_comma_arg(av, 0) == first_comma_arg(av, i as int),
        decreases rscript_args.len() - i,
    {
        assert(av[i as int] == rscript_args@[i as int]@);
        if contains_str(rscript_args[i].as_str(), ",") {
            let mut m = String::from_str("Rscript option `");
            m.append(rscript_args[i].as_str());
            m.append(
                "` contains a comma, which cannot be forwarded to quarto's knitr engine: QUARTO_KNITR_RSCRIPT_ARGS is comma-separated with no escaping.",
            );
            return Err(m);
        }
        i = i + 1;
    }
    Ok(())
}

} // verus!
