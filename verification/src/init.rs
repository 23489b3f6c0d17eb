//! `ir init --script`: checking a script, and writing the frontmatter that
//! dependency discovery produced in front of its body.
use vstd::prelude::*;
use vstd::string::StringSliceAdditionalSpecFns;
use vstd::utf8::encode_utf8;

use crate::paths::{extension_of, path_extension};
use crate::readback::{init_lines_of, law_initialized_frontmatter_reads_back, line_ending, line_text};
use crate::rig::rig_client::texts;
use crate::script::{bytes_at, frontmatter_end_from, script_frontmatter, frontmatter_start_of, line_end, line_end_from, lemma_line_end_bounds, r_script_header as script_header, shebang_end_of, starts_with_at};
use crate::text::{chars_of, eq_ignore_ascii_case_str, eq_ignore_case, line_ranges, lines, ranges_view, ranges_within, string_of, strip_prefix_str, strip_prefix_text};

verus! {

/// The shebang line of a script, and whether `#| ` frontmatter lines
/// follow it.
pub struct ScriptHeader {
    pub shebang_end: Option<usize>,
    pub frontmatter: bool,
}

/// Find the shebang line of a script and whether frontmatter lines follow.
pub fn init_script_header(contents: &[u8]) -> (h: ScriptHeader)
    ensures
        match h.shebang_end {
            Some(e) => shebang_end_of(contents@) == Some(e as int),
            None => shebang_end_of(contents@) is None,
        },
        h.frontmatter == (frontmatter_end_from(contents@, frontmatter_start_of(contents@))
            != frontmatter_start_of(contents@)),
{
    let h = script_header(contents);
    ScriptHeader { shebang_end: h.shebang_end, frontmatter: h.frontmatter.is_some() }
}

/// An R script by name: an `.R` extension in any ASCII case.
pub open spec fn r_script_path(path: Seq<char>) -> bool {
    path_extension(path) matches Some(e) && eq_ignore_case(e, "r"@)
}

/// Whether `path` names an R script.
pub fn is_r_script(path: &str) -> (r: bool)
    ensures
        r == r_script_path(path@),
{
    match extension_of(path) {
        Some(e) => eq_ignore_ascii_case_str(e.as_str(), "r"),
        None => false,
    }
}

/// Why a script cannot be initialized as it stands.
#[derive(Debug, PartialEq, Eq, Structural)]
pub enum InitRefusal {
    /// The path is a symbolic link.
    SymbolicLink,
    /// The path is not a regular file.
    NotRegularFile,
    /// The file is not named `.R`.
    NotRScript,
    /// It starts with a UTF-8 byte order mark.
    ByteOrderMark,
    /// It already has `#| ` frontmatter lines.
    HasFrontmatter,
    /// Its body already starts with `#|`.
    HasMarker,
    /// It changed, or stopped being a regular file, while it was being
    /// initialized.
    Changed,
}

/// The UTF-8 byte order mark.
pub open spec fn bom() -> Seq<u8> {
    seq![0xefu8, 0xbbu8, 0xbfu8]
}

/// `#|`, a metadata marker.
pub open spec fn marker() -> Seq<u8> {
    seq![35u8, 124u8]
}

/// Where the body of a script to initialize starts (after its shebang
/// line), or why it cannot be initialized: a byte order mark, existing
/// frontmatter, or a body that starts with `#|`.
pub open spec fn init_body_start_of(c: Seq<u8>) -> Result<int, InitRefusal> {
    if bytes_at(c, 0, bom()) {
        Err(InitRefusal::ByteOrderMark)
    } else if frontmatter_end_from(c, frontmatter_start_of(c)) != frontmatter_start_of(c) {
        Err(InitRefusal::HasFrontmatter)
    } else if bytes_at(c, frontmatter_start_of(c), marker()) {
        Err(InitRefusal::HasMarker)
    } else {
        Ok(frontmatter_start_of(c))
    }
}

/// Check that a script's contents can take new frontmatter, and find where
/// its body starts.
pub fn init_body_start(contents: &[u8]) -> (r: Result<usize, InitRefusal>)
    ensures
        match r {
            Ok(s) => init_body_start_of(contents@) == Ok::<int, InitRefusal>(s as int),
            Err(e) => init_body_start_of(contents@) == Err::<int, InitRefusal>(e),
        },
{
    if starts_with_at(contents, 0, &[0xefu8, 0xbbu8, 0xbfu8]) {
        return Err(InitRefusal::ByteOrderMark);
    }
    let header = init_script_header(contents);
    if header.frontmatter {
        return Err(InitRefusal::HasFrontmatter);
    }
    let body_start = match header.shebang_end {
        Some(e) => e,
        None => 0,
    };
    proof {
        lemma_line_end_bounds(contents@, 0);
    }
    if starts_with_at(contents, body_start, &[35u8, 124u8]) {
        return Err(InitRefusal::HasMarker);
    }
    Ok(body_start)
}

/// The message for a refusal to initialize the script `file`.
pub open spec fn refusal_message(e: InitRefusal, file: Seq<char>) -> Seq<char> {
    match e {
        InitRefusal::SymbolicLink => "cannot initialize symbolic link `"@ + file + "`"@,
        InitRefusal::NotRegularFile => "script `"@ + file + "` is not a regular file"@,
        InitRefusal::NotRScript => "script `"@ + file + "` must have a `.R` extension"@,
        InitRefusal::ByteOrderMark => "script `"@ + file + "` starts with an unsupported UTF-8 byte order mark"@,
        InitRefusal::HasFrontmatter => "`"@ + file + "` already contains ir frontmatter"@,
        InitRefusal::HasMarker => "`"@ + file + "` already starts with a #| metadata marker"@,
        InitRefusal::Changed => "script `"@ + file + "` changed during initialization"@,
    }
}

impl InitRefusal {
    /// The message this refusal is reported with, for the script `file`.
    pub fn message(&self, file: &str) -> (m: String)
        ensures
            m@ == refusal_message(*self, file@),
    {
        match self {
            InitRefusal::SymbolicLink => {
                let mut m = String::from_str("cannot initialize symbolic link `");
                m.append(file);
                m.append("`");
                m
            },
            InitRefusal::NotRegularFile => {
                let mut m = String::from_str("script `");
                m.append(file);
                m.append("` is not a regular file");
                m
            },
            InitRefusal::Changed => {
                let mut m = String::from_str("script `");
                m.append(file);
                m.append("` changed during initialization");
                m
            },
            InitRefusal::NotRScript => {
                let mut m = String::from_str("script `");
                m.append(file);
                m.append("` must have a `.R` extension");
                m
            },
            InitRefusal::ByteOrderMark => {
                let mut m = String::from_str("script `");
                m.append(file);
                m.append("` starts with an unsupported UTF-8 byte order mark");
                m
            },
            InitRefusal::HasFrontmatter => {
                let mut m = String::from_str("`");
                m.append(file);
                m.append("` already contains ir frontmatter");
                m
            },
            InitRefusal::HasMarker => {
                let mut m = String::from_str("`");
                m.append(file);
                m.append("` already starts with a #| metadata marker");
                m
            },
        }
    }
}

/// Which file `ir init` may initialize, from what its metadata tells: not
/// a symbolic link, a regular file, and named `.R`.
pub open spec fn init_target_of(path: Seq<char>, is_symlink: bool, is_file: bool) -> Result<
    (),
    InitRefusal,
> {
    if is_symlink {
        Err(InitRefusal::SymbolicLink)
    } else if !is_file {
        Err(InitRefusal::NotRegularFile)
    } else if !r_script_path(path) {
        Err(InitRefusal::NotRScript)
    } else {
        Ok(())
    }
}

/// Check the file to initialize, from its metadata (`is_symlink`,
/// `is_file`) and its path.
pub fn check_init_target(path: &str, is_symlink: bool, is_file: bool) -> (r: Result<(), InitRefusal>)
    ensures
        r == init_target_of(path@, is_symlink, is_file),
{
    if is_symlink {
        return Err(InitRefusal::SymbolicLink);
    }
    if !is_file {
        return Err(InitRefusal::NotRegularFile);
    }
    if !is_r_script(path) {
        return Err(InitRefusal::NotRScript);
    }
    Ok(())
}

/// Everything `ir init` checks before it starts dependency discovery, in
/// order: the file's metadata (`is_symlink`, `is_file`) and name, then its
/// bytes `contents`. On success, where the script's body starts.
pub fn init_precheck(path: &str, is_symlink: bool, is_file: bool, contents: &[u8]) -> (r: Result<
    usize,
    InitRefusal,
>)
    ensures
        init_target_of(path@, is_symlink, is_file) matches Err(e) ==> r == Err::<usize, InitRefusal>(e),
        init_target_of(path@, is_symlink, is_file) is Ok ==> match r {
            Ok(s) => init_body_start_of(contents@) == Ok::<int, InitRefusal>(s as int),
            Err(e) => init_body_start_of(contents@) == Err::<int, InitRefusal>(e),
        },
{
    check_init_target(path, is_symlink, is_file)?;
    init_body_start(contents)
}

/// The permission bits of an initialized script: its mode with execute
/// permission added for owner, group and others.
pub fn executable_mode(mode: u32) -> (r: u32)
    ensures
        r == mode | 0o111u32,
{
    mode | 0o111u32
}

/// Whether two byte strings are equal.
pub fn bytes_equal(a: &[u8], b: &[u8]) -> (r: bool)
    ensures
        r == (a@ == b@),
{
    if a.len() != b.len() {
        return false;
    }
    let mut i: usize = 0;
    while i < a.len()
        invariant
            i <= a@.len(),
            a@.len() == b@.len(),
            a@.take(i as int) == b@.take(i as int),
        decreases a.len() - i,
    {
        if a[i] != b[i] {
            assert(a@[i as int] != b@[i as int]);
            return false;
        }
        assert(a@.take(i + 1) =~= a@.take(i as int).push(a@[i as int]));
        assert(b@.take(i + 1) =~= b@.take(i as int).push(b@[i as int]));
        i = i + 1;
    }
    assert(a@.take(a@.len() as int) =~= a@);
    assert(b@.take(b@.len() as int) =~= b@);
    true
}

/// Check, just before the script is replaced, that it is still the file
/// that was read: the same bytes (`current` against `original`), and still
/// a regular file that is not a symbolic link.
pub fn check_unchanged(original: &[u8], current: &[u8], is_symlink: bool, is_file: bool) -> (r:
    Result<(), InitRefusal>)
    ensures
        r is Ok <==> (original@ == current@ && !is_symlink && is_file),
        r matches Err(e) ==> e == InitRefusal::Changed,
{
    if !bytes_equal(current, original) {
        return Err(InitRefusal::Changed);
    }
    if is_symlink || !is_file {
        return Err(InitRefusal::Changed);
    }
    Ok(())
}

/// The message for a failure to start Rscript for dependency discovery.
pub open spec fn discovery_launch_message(rscript: Seq<char>, not_found: bool, detail: Seq<char>) -> Seq<
    char,
> {
    if not_found {
        "could not find `"@ + rscript + "` on PATH. Install R or set IR_RSCRIPT."@
    } else {
        "failed to start Rscript `"@ + rscript + "` for script dependency discovery: "@ + detail
    }
}

/// Turn a failure to start Rscript for dependency discovery into a
/// message.
pub fn init_spawn_error(rscript: &str, error: std::io::Error) -> (m: String)
    ensures
        exists|detail: Seq<char>|
            m@ == discovery_launch_message(
                rscript@,
                crate::launch::io_error_kind_not_found(error),
                detail,
            ),
{
    let not_found = crate::launch::io_error_not_found(&error);
    let detail = crate::launch::io_error_text(&error);
    if not_found {
        let mut m = String::from_str("could not find `");
        m.append(rscript);
        m.append("` on PATH. Install R or set IR_RSCRIPT.");
        assert(m@ == discovery_launch_message(rscript@, true, detail@));
        m
    } else {
        let mut m = String::from_str("failed to start Rscript `");
        m.append(rscript);
        m.append("` for script dependency discovery: ");
        m.append(detail.as_str());
        assert(m@ == discovery_launch_message(rscript@, false, detail@));
        m
    }
}

/// The line ending a script uses: `\r\n` when its first line ends so, else
/// `\n`.
pub open spec fn newline_of(c: Seq<u8>) -> Seq<u8> {
    let e = line_end_from(c, 0);
    if e >= 2 && c[e - 1] == 10u8 && c[e - 2] == 13u8 {
        seq![13u8, 10u8]
    } else {
        seq![10u8]
    }
}

/// The line ending that `contents` uses.
pub fn newline_sequence(contents: &[u8]) -> (r: Vec<u8>)
    ensures
        r@ == newline_of(contents@),
{
    let e = line_end(contents, 0);
    proof {
        lemma_line_end_bounds(contents@, 0);
    }
    if e >= 2 && contents[e - 1] == 10u8 && contents[e - 2] == 13u8 {
        vec![13u8, 10u8]
    } else {
        vec![10u8]
    }
}

/// Append `line` and then `newline` to `output`.
pub fn push_line(output: &mut Vec<u8>, line: &[u8], newline: &[u8])
    ensures
        final(output)@ == old(output)@ + line@ + newline@,
{
    extend(output, line);
    extend(output, newline);
}

fn extend(output: &mut Vec<u8>, bytes: &[u8])
    ensures
        final(output)@ == old(output)@ + bytes@,
{
    let ghost start = output@;
    let mut i: usize = 0;
    while i < bytes.len()
        invariant
            i <= bytes@.len(),
            output@ == start + bytes@.subrange(0, i as int),
        decreases bytes.len() - i,
    {
        output.push(bytes[i]);
        assert(bytes@.subrange(0, i + 1) == bytes@.subrange(0, i as int).push(bytes@[i as int]));
        assert(output@ =~= start + bytes@.subrange(0, i + 1));
        i = i + 1;
    }
    assert(bytes@.subrange(0, bytes@.len() as int) == bytes@);
}


/// What dependency discovery reports: the package refs to declare and the
/// R version to require.
#[derive(Debug)]
pub struct InitResult {
    pub refs: Vec<String>,
    pub r_version: String,
}

/// A lowercase hexadecimal digit, for `d` below 16.
pub open spec fn hex_digit(d: nat) -> char {
    seq!['0', '1', '2', '3', '4', '5', '6', '7', '8', '9', 'a', 'b', 'c', 'd', 'e', 'f'][d as int]
}

/// How a JSON string literal writes the character `c`: `"` and `\` behind
/// a backslash; backspace, tab, line feed, form feed and carriage return as
/// `\b`, `\t`, `\n`, `\f`, `\r`; the other control characters as
/// `\u00XX` in lowercase hexadecimal; everything else as itself.
pub open spec fn json_char(c: char) -> Seq<char> {
    if c == '"' {
        seq!['\\', '"']
    } else if c == '\\' {
        seq!['\\', '\\']
    } else if c == '\u{8}' {
        seq!['\\', 'b']
    } else if c == '\t' {
        seq!['\\', 't']
    } else if c == '\n' {
        seq!['\\', 'n']
    } else if c == '\u{c}' {
        seq!['\\', 'f']
    } else if c == '\r' {
        seq!['\\', 'r']
    } else if (c as u32) < 0x20 {
        seq!['\\', 'u', '0', '0', hex_digit((c as u32 / 16) as nat), hex_digit((c as u32 % 16) as nat)]
    } else {
        seq![c]
    }
}

/// The escaped characters of a JSON string literal for `s`.
pub open spec fn json_chars(s: Seq<char>) -> Seq<char>
    decreases s.len(),
{
    if s.len() == 0 {
        Seq::empty()
    } else {
        json_chars(s.drop_last()) + json_char(s.last())
    }
}

/// The bytes of `s` written as a JSON string: the escaped characters
/// between double quotes, in UTF-8.
pub open spec fn json_encoded(s: Seq<char>) -> Seq<u8> {
    encode_utf8(seq!['"'] + json_chars(s) + seq!['"'])
}

/// `serde_json::to_vec` of a string: its JSON string literal, as
/// `format_escaped_str` writes it (`json_encoded`). Serialising a `&str`
/// into memory cannot fail.
#[verifier::external_body]
fn json_string(s: &str) -> (r: Vec<u8>)
    ensures
        r@ == json_encoded(s@),
{
    serde_json::to_vec(s).unwrap_or_default()
}

/// The `#|   - "ref"` lines for `refs`.
pub open spec fn package_lines(refs: Seq<Seq<char>>, newline: Seq<u8>) -> Seq<u8>
    decreases refs.len(),
{
    if refs.len() == 0 {
        Seq::empty()
    } else {
        package_lines(refs.drop_last(), newline) + encode_utf8("#|   - "@) + json_encoded(refs.last())
            + newline
    }
}

/// The frontmatter that `ir init` writes, followed by the script body from
/// `body_start`: the canonical shebang, the package list, the R version,
/// `isolated: true`, the `exclude-newer` date and a blank line, all with
/// the script's line ending.
pub open spec fn initialized_of(
    c: Seq<u8>,
    body_start: int,
    refs: Seq<Seq<char>>,
    r_version: Seq<char>,
    exclude_newer: Seq<char>,
    newline: Seq<u8>,
) -> Seq<u8> {
    encode_utf8("#!/usr/bin/env -S ir run"@) + newline + (if refs.len() == 0 {
        encode_utf8("#| packages: []"@) + newline
    } else {
        encode_utf8("#| packages:"@) + newline + package_lines(refs, newline)
    }) + encode_utf8("#| r-version: \""@) + encode_utf8(r_version) + encode_utf8("\""@) + newline
        + encode_utf8("#| isolated: true"@) + newline + encode_utf8("#| exclude-newer: \""@)
        + encode_utf8(exclude_newer) + encode_utf8("\""@) + newline + newline + c.subrange(
        body_start,
        c.len() as int,
    )
}

/// The new contents of an initialized script.
pub fn initialized_contents(
    contents: &[u8],
    body_start: usize,
    result: &InitResult,
    exclude_newer: &str,
    newline: &[u8],
) -> (out: Vec<u8>)
    requires
        body_start <= contents@.len(),
    ensures
        out@ == initialized_of(
            contents@,
            body_start as int,
            texts(result.refs@),
            result.r_version@,
            exclude_newer@,
            newline@,
        ),
        line_ending(newline@) && !result.r_version@.contains('\n') && !exclude_newer@.contains('\n')
            ==> script_frontmatter(out@) == line_text(
            init_lines_of(texts(result.refs@), result.r_version@, exclude_newer@),
            newline@,
        ),
{
    let mut output: Vec<u8> = Vec::new();
    push_line(&mut output, "#!/usr/bin/env -S ir run".as_bytes(), newline);
    let ghost head = output@;
    if result.refs.len() == 0 {
        push_line(&mut output, "#| packages: []".as_bytes(), newline);
    } else {
        push_line(&mut output, "#| packages:".as_bytes(), newline);
        let ghost after_header = output@;
        let ghost refs = texts(result.refs@);
        let mut i: usize = 0;
        assert(refs.take(0) == Seq::<Seq<char>>::empty());
        assert(after_header + Seq::<u8>::empty() == after_header);
        while i < result.refs.len()
            invariant
                i <= result.refs@.len(),
                refs == texts(result.refs@),
                output@ == after_header + package_lines(refs.take(i as int), newline@),
            decreases result.refs.len() - i,
        {
            let ghost t = refs.take(i as int + 1);
            assert(t.drop_last() == refs.take(i as int));
            assert(t.last() == result.refs@[i as int]@);
            extend(&mut output, "#|   - ".as_bytes());
            let encoded = json_string(result.refs[i].as_str());
            extend(&mut output, encoded.as_slice());
            extend(&mut output, newline);
            assert(output@ =~= after_header + package_lines(refs.take(i as int + 1), newline@));
            i = i + 1;
        }
        assert(refs.take(refs.len() as int) == refs);
        proof {
            if line_ending(newline@) && !result.r_version@.contains('\n')
                && !exclude_newer@.contains('\n') {
                law_initialized_frontmatter_reads_back(
                    contents@,
                    body_start as int,
                    refs,
                    result.r_version@,
                    exclude_newer@,
                    newline@,
                );
            }
        }
    }
    extend(&mut output, "#| r-version: \"".as_bytes());
    extend(&mut output, result.r_version.as_str().as_bytes());
    extend(&mut output, "\"".as_bytes());
    extend(&mut output, newline);
    push_line(&mut output, "#| isolated: true".as_bytes(), newline);
    extend(&mut output, "#| exclude-newer: \"".as_bytes());
    extend(&mut output, exclude_newer.as_bytes());
    extend(&mut output, "\"".as_bytes());
    extend(&mut output, newline);
    extend(&mut output, newline);
    let ghost before_body = output@;
    let mut k = body_start;
    while k < contents.len()
        invariant
            body_start <= k <= contents@.len(),
            output@ == before_body + contents@.subrange(body_start as int, k as int),
        decreases contents.len() - k,
    {
        output.push(contents[k]);
        assert(contents@.subrange(body_start as int, k + 1) == contents@.subrange(
            body_start as int,
            k as int,
        ).push(contents@[k as int]));
        assert(output@ =~= before_body + contents@.subrange(body_start as int, k + 1));
        k = k + 1;
    }
    assert(output@ =~= initialized_of(
        contents@,
        body_start as int,
        texts(result.refs@),
        result.r_version@,
        exclude_newer@,
        newline@,
    ));
    proof {
        if line_ending(newline@) && !result.r_version@.contains('\n') && !exclude_newer@.contains(
            '\n',
        ) && result.refs@.len() == 0 {
            law_initialized_frontmatter_reads_back(
                contents@,
                body_start as int,
                texts(result.refs@),
                result.r_version@,
                exclude_newer@,
                newline@,
            );
        }
    }
    output
}

/// Why dependency discovery's report could not be read.
#[derive(Debug, PartialEq, Eq, Structural)]
pub enum InitResultError {
    /// The first line is not `r-version=` with a version.
    InvalidRVersion,
    /// A package ref line is empty.
    EmptyRef,
}

/// The message an `InitResultError` is reported with.
pub open spec fn init_result_message(e: InitResultError) -> Seq<char> {
    match e {
        InitResultError::InvalidRVersion => "script dependency discovery produced an invalid R version"@,
        InitResultError::EmptyRef => "script dependency discovery produced an empty package ref"@,
    }
}

impl InitResultError {
    /// The message this error is reported with.
    pub fn message(&self) -> (m: String)
        ensures
            m@ == init_result_message(*self),
    {
        match self {
            InitResultError::InvalidRVersion => String::from_str(
                "script dependency discovery produced an invalid R version",
            ),
            InitResultError::EmptyRef => String::from_str(
                "script dependency discovery produced an empty package ref",
            ),
        }
    }
}

/// What `parse_init_result` gives for the text of discovery's report: the
/// first line is `r-version=<version>` with a non-empty version, every
/// further line is a package ref and must not be empty.
pub open spec fn init_result_of(text: Seq<char>) -> Result<(Seq<Seq<char>>, Seq<char>), InitResultError> {
    let ls = lines(text);
    if ls.len() == 0 {
        Err(InitResultError::InvalidRVersion)
    } else {
        match strip_prefix_text(ls[0], "r-version="@) {
            None => Err(InitResultError::InvalidRVersion),
            Some(v) => if v.len() == 0 {
                Err(InitResultError::InvalidRVersion)
            } else {
                let refs = ls.subrange(1, ls.len() as int);
                if exists|i: int| 0 <= i < refs.len() && #[trigger] refs[i].len() == 0 {
                    Err(InitResultError::EmptyRef)
                } else {
                    Ok((refs, v))
                }
            },
        }
    }
}

/// Read the text of dependency discovery's report.
pub fn parse_init_result(text: &str) -> (r: Result<InitResult, InitResultError>)
    ensures
        match r {
            Ok(v) => init_result_of(text@) == Ok::<(Seq<Seq<char>>, Seq<char>), InitResultError>(
                (texts(v.refs@), v.r_version@),
            ),
            Err(e) => init_result_of(text@) == Err::<(Seq<Seq<char>>, Seq<char>), InitResultError>(
                e,
            ),
        },
{
    let cs = chars_of(text);
    let ls = line_ranges(cs.as_slice());
    let ghost lv = lines(cs@);
    if ls.len() == 0 {
        return Err(InitResultError::InvalidRVersion);
    }
    let (a0, b0) = ls[0];
    assert(cs@.subrange(a0 as int, b0 as int) == lv[0]);
    let first = string_of(cs.as_slice(), a0, b0);
    assert(cs@ == text@);
    let r_version = match strip_prefix_str(first.as_str(), "r-version=") {
        Some(v) => v,
        None => return Err(InitResultError::InvalidRVersion),
    };
    if r_version.as_str().is_empty() {
        return Err(InitResultError::InvalidRVersion);
    }
    let ghost refs_v = lv.subrange(1, lv.len() as int);
    let mut refs: Vec<String> = Vec::new();
    let mut k: usize = 1;
    while k < ls.len()
        invariant
            1 <= k <= ls@.len(),
            ranges_within(cs@, ls@),
            ranges_view(cs@, ls@) == lv,
            lv == lines(text@),
            lv.len() > 0,
            strip_prefix_text(lv[0], "r-version="@) == Some(r_version@),
            r_version@.len() > 0,
            refs_v == lv.subrange(1, lv.len() as int),
            texts(refs@) == refs_v.subrange(0, k - 1),
            forall|i: int| 0 <= i < k - 1 ==> #[trigger] refs_v[i].len() > 0,
        decreases ls.len() - k,
    {
        let (a, b) = ls[k];
        assert(cs@.subrange(a as int, b as int) == lv[k as int]);
        assert(refs_v[k - 1] == lv[k as int]);
        if a == b {
            assert(refs_v[k - 1].len() == 0);
            return Err(InitResultError::EmptyRef);
        }
        let ghost before = refs@;
        refs.push(string_of(cs.as_slice(), a, b));
        assert(texts(refs@) =~= texts(before).push(refs_v[k - 1]));
        assert(refs_v.subrange(0, k as int) =~= refs_v.subrange(0, k - 1).push(refs_v[k - 1]));
        k = k + 1;
    }
    assert(refs_v.subrange(0, refs_v.len() as int) == refs_v);
    Ok(InitResult { refs, r_version })
}

/// The retry bookkeeping of dependency discovery.
#[derive(Debug, Clone, Copy, PartialEq, Eq, Structural)]
pub struct DiscoveryState {
    /// A restart that the tooling asked for has been granted.
    pub retried_restart: bool,
    /// A crashed run has been retried in safe mode.
    pub retried_safe_mode: bool,
    /// The next run uses the tooling's safe mode.
    pub safe_mode: bool,
}

/// What to do after a run of dependency discovery.
#[derive(Debug, Clone, Copy, PartialEq, Eq, Structural)]
pub enum DiscoveryStep {
    /// Run discovery again, with this state.
    Retry(DiscoveryState),
    /// The tooling asked for a restart a second time: fail.
    RepeatedRestart,
    /// Stop and look at the run's exit status.
    Finish,
}

impl DiscoveryState {
    /// The state before the first run.
    pub fn initial() -> (s: DiscoveryState)
        ensures
            s == (DiscoveryState { retried_restart: false, retried_safe_mode: false, safe_mode: false }),
    {
        DiscoveryState { retried_restart: false, retried_safe_mode: false, safe_mode: false }
    }
}

/// The step after a run that asked for a restart (`restart_requested`) or
/// crashed (`crashed`): a restart is granted once; a crash outside safe
/// mode is retried once, in safe mode; anything else finishes.
pub open spec fn discovery_step_of(s: DiscoveryState, restart_requested: bool, crashed: bool) -> DiscoveryStep {
    if restart_requested {
        if !s.retried_restart {
            DiscoveryStep::Retry(DiscoveryState { retried_restart: true, ..s })
        } else {
            DiscoveryStep::RepeatedRestart
        }
    } else if crashed && !s.safe_mode && !s.retried_safe_mode {
        DiscoveryStep::Retry(DiscoveryState { retried_safe_mode: true, safe_mode: true, ..s })
    } else {
        DiscoveryStep::Finish
    }
}

/// Decide what follows a run of dependency discovery.
pub fn next_discovery_step(state: DiscoveryState, restart_requested: bool, crashed: bool) -> (r: DiscoveryStep)
    ensures
        r == discovery_step_of(state, restart_requested, crashed),
{
    if restart_requested {
        if !state.retried_restart {
            DiscoveryStep::Retry(DiscoveryState { retried_restart: true, ..state })
        } else {
            DiscoveryStep::RepeatedRestart
        }
    } else if crashed && !state.safe_mode && !state.retried_safe_mode {
        DiscoveryStep::Retry(DiscoveryState { retried_safe_mode: true, safe_mode: true, ..state })
    } else {
        DiscoveryStep::Finish
    }
}

/// How many retries a state still allows.
pub open spec fn retries_left(s: DiscoveryState) -> int {
    (if s.retried_restart { 0int } else { 1int }) + (if s.retried_safe_mode { 0int } else { 1int })
}

/// Law: every retry uses up one of the two retries, so discovery runs at
/// most three times whatever the runs report.
pub proof fn law_discovery_retries_bounded(s: DiscoveryState, restart_requested: bool, crashed: bool)
    ensures
        0 <= retries_left(s) <= 2,
        discovery_step_of(s, restart_requested, crashed) matches DiscoveryStep::Retry(t) ==> retries_left(t)
            == retries_left(s) - 1,
{
}

/// Law: once in safe mode, discovery stays in safe mode.
pub proof fn law_discovery_safe_mode_sticks(s: DiscoveryState, restart_requested: bool, crashed: bool)
    requires
        s.safe_mode,
    ensures
        discovery_step_of(s, restart_requested, crashed) matches DiscoveryStep::Retry(t) ==> t.safe_mode,
{
}

/// What `ir init` makes of a script, given what its metadata tells
/// (`is_symlink`, `is_file`), its path, its bytes `c`, what dependency
/// discovery reported (`refs`, `r_version`), the day `exclude_newer` and the
/// file's permission bits `mode`: the refusal, or the new contents (the
/// frontmatter in front of the body, with the script's own line ending) and
/// the new permission bits (executable by all).
pub open spec fn init_round_of(
    path: Seq<char>,
    is_symlink: bool,
    is_file: bool,
    c: Seq<u8>,
    refs: Seq<Seq<char>>,
    r_version: Seq<char>,
    exclude_newer: Seq<char>,
    mode: u32,
) -> Result<(Seq<u8>, u32), InitRefusal> {
    match init_target_of(path, is_symlink, is_file) {
        Err(e) => Err(e),
        Ok(_) => match init_body_start_of(c) {
            Err(e) => Err(e),
            Ok(b) => Ok((initialized_of(c, b, refs, r_version, exclude_newer, newline_of(c)), mode | 0o111u32)),
        },
    }
}

/// Initialize a script: check it, then compute its new contents and
/// permission bits from what dependency discovery reported.
pub fn initialize_script(
    path: &str,
    is_symlink: bool,
    is_file: bool,
    contents: &[u8],
    result: &InitResult,
    exclude_newer: &str,
    mode: u32,
) -> (r: Result<(Vec<u8>, u32), InitRefusal>)
    ensures
        match r {
            Ok((out, m)) => init_round_of(
                path@,
                is_symlink,
                is_file,
                contents@,
                texts(result.refs@),
                result.r_version@,
                exclude_newer@,
                mode,
            ) == Ok::<(Seq<u8>, u32), InitRefusal>((out@, m)),
            Err(e) => init_round_of(
                path@,
                is_symlink,
                is_file,
                contents@,
                texts(result.refs@),
                result.r_version@,
                exclude_newer@,
                mode,
            ) == Err::<(Seq<u8>, u32), InitRefusal>(e),
        },
{
    let body_start = init_precheck(path, is_symlink, is_file, contents)?;
    proof {
        lemma_line_end_bounds(contents@, 0);
    }
    let newline = newline_sequence(contents);
    let out = initialized_contents(contents, body_start, result, exclude_newer, newline.as_slice());
    Ok((out, executable_mode(mode)))
}

/// The line ending `ir init` writes with is `\n` or `\r\n`.
pub proof fn lemma_newline_is_a_line_ending(c: Seq<u8>)
    ensures
        line_ending(newline_of(c)),
{
}

/// The body of an initialized script is its old body, unchanged, at the
/// end of the new contents.
pub proof fn lemma_initialized_keeps_body(
    c: Seq<u8>,
    b: int,
    refs: Seq<Seq<char>>,
    r_version: Seq<char>,
    exclude_newer: Seq<char>,
    nl: Seq<u8>,
)
    requires
        0 <= b <= c.len(),
    ensures
        c.len() - b <= initialized_of(c, b, refs, r_version, exclude_newer, nl).len(),
        ({
            let out = initialized_of(c, b, refs, r_version, exclude_newer, nl);
            out.subrange(out.len() - (c.len() - b), out.len() as int) == c.subrange(b, c.len() as int)
        }),
{
    let body = c.subrange(b, c.len() as int);
    let head = encode_utf8("#!/usr/bin/env -S ir run"@) + nl + (if refs.len() == 0 {
        encode_utf8("#| packages: []"@) + nl
    } else {
        encode_utf8("#| packages:"@) + nl + package_lines(refs, nl)
    }) + encode_utf8("#| r-version: \""@) + encode_utf8(r_version) + encode_utf8("\""@) + nl
        + encode_utf8("#| isolated: true"@) + nl + encode_utf8("#| exclude-newer: \""@) + encode_utf8(
        exclude_newer,
    ) + encode_utf8("\""@) + nl + nl;
    let out = initialized_of(c, b, refs, r_version, exclude_newer, nl);
    assert(out == head + body);
    assert(out.subrange(out.len() - (c.len() - b), out.len() as int) =~= body);
}

/// The whole `ir init` round: a script that passes the checks is rewritten
/// to the frontmatter followed by its body unchanged, executable by all;
/// the `#| ` frontmatter read back from it is exactly the lines written,
/// which record the packages, the R version, `isolated: true` and the day
/// (when the R version and the day are single lines). A script that fails a
/// check is refused.
#[verifier::spinoff_prover]
pub proof fn law_init_round(
    path: Seq<char>,
    is_symlink: bool,
    is_file: bool,
    c: Seq<u8>,
    refs: Seq<Seq<char>>,
    r_version: Seq<char>,
    exclude_newer: Seq<char>,
    mode: u32,
)
    ensures
        (init_round_of(path, is_symlink, is_file, c, refs, r_version, exclude_newer, mode) is Err)
            <==> (init_target_of(path, is_symlink, is_file) is Err || init_body_start_of(c) is Err),
        init_round_of(path, is_symlink, is_file, c, refs, r_version, exclude_newer, mode) matches Ok(
            (out, m),
        ) ==> {
            let b = frontmatter_start_of(c);
            &&& m == mode | 0o111u32
            &&& b <= c.len()
            &&& c.len() - b <= out.len()
            &&& out.subrange(out.len() - (c.len() - b), out.len() as int) == c.subrange(b, c.len() as int)
            &&& (!r_version.contains('\n') && !exclude_newer.contains('\n') ==> script_frontmatter(out)
                == line_text(init_lines_of(refs, r_version, exclude_newer), newline_of(c)))
        },
{
    let b = frontmatter_start_of(c);
    lemma_line_end_bounds(c, 0);
    if init_round_of(path, is_symlink, is_file, c, refs, r_version, exclude_newer, mode) is Ok {
        assert(init_body_start_of(c) == Ok::<int, InitRefusal>(b));
        let nl = newline_of(c);
        lemma_initialized_keeps_body(c, b, refs, r_version, exclude_newer, nl);
        lemma_newline_is_a_line_ending(c);
        if !r_version.contains('\n') && !exclude_newer.contains('\n') {
            law_initialized_frontmatter_reads_back(c, b, refs, r_version, exclude_newer, nl);
        }
    }
}

} // verus!
