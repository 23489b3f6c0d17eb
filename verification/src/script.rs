//! The leading `#!` and `#| ` lines of an R script.
use std::ops::Range;

use vstd::prelude::*;
use vstd::utf8::{decode_utf8, valid_utf8};

use crate::frontmatter::{
    empty_spec, frontmatter_of, is_quarto, parse_frontmatter, quarto_path, FrontmatterError,
    FrontmatterErrorView, ScriptSpec, ScriptSpecView,
};
use crate::text::text_eq;

verus! {

/// The index just past the first `\n` at or after `j`, or the length.
pub open spec fn line_end_from(c: Seq<u8>, j: int) -> int
    decreases c.len() - j,
{
    if j < 0 || j >= c.len() {
        c.len() as int
    } else if c[j] == 10u8 {
        j + 1
    } else {
        line_end_from(c, j + 1)
    }
}

pub proof fn lemma_line_end_bounds(c: Seq<u8>, j: int)
    requires
        0 <= j <= c.len(),
    ensures
        j <= line_end_from(c, j) <= c.len(),
        j < c.len() ==> j < line_end_from(c, j),
        forall|k: int| j <= k < line_end_from(c, j) - 1 ==> c[k] != 10u8,
        line_end_from(c, j) < c.len() || (line_end_from(c, j) == c.len() && line_end_from(c, j) > j
            && c[c.len() - 1] == 10u8) || forall|k: int| j <= k < c.len() ==> c[k] != 10u8,
    decreases c.len() - j,
{
    if j < c.len() && c[j] != 10u8 {
        lemma_line_end_bounds(c, j + 1);
    }
}

/// The end of the line that starts at `start`: just past its `\n`, or the
/// end of the contents.
pub fn line_end(contents: &[u8], start: usize) -> (r: usize)
    requires
        start <= contents@.len(),
    ensures
        r == line_end_from(contents@, start as int),
{
    let mut j = start;
    while j < contents.len() && contents[j] != 10u8
        invariant
            start <= j <= contents@.len(),
            line_end_from(contents@, start as int) == line_end_from(contents@, j as int),
        decreases contents.len() - j,
    {
        j = j + 1;
    }
    if j < contents.len() {
        j + 1
    } else {
        j
    }
}

/// Whether `c` has the bytes `p` at position `i`.
pub open spec fn bytes_at(c: Seq<u8>, i: int, p: Seq<u8>) -> bool {
    0 <= i && i + p.len() <= c.len() && c.subrange(i, i + p.len()) == p
}

/// `#| `, the prefix of a frontmatter line.
pub open spec fn fm_prefix() -> Seq<u8> {
    seq![35u8, 124u8, 32u8]
}

/// `#!`, the prefix of a shebang line.
pub open spec fn shebang_prefix() -> Seq<u8> {
    seq![35u8, 33u8]
}

/// Where the run of frontmatter lines that starts at `i` ends.
pub open spec fn frontmatter_end_from(c: Seq<u8>, i: int) -> int
    decreases c.len() - i,
    via frontmatter_end_decreases
{
    if 0 <= i < c.len() && bytes_at(c, i, fm_prefix()) {
        frontmatter_end_from(c, line_end_from(c, i))
    } else {
        i
    }
}

#[via_fn]
proof fn frontmatter_end_decreases(c: Seq<u8>, i: int) {
    if 0 <= i < c.len() && bytes_at(c, i, fm_prefix()) {
        lemma_line_end_bounds(c, i);
    }
}

/// Where the shebang line ends, when the contents start with `#!`.
pub open spec fn shebang_end_of(c: Seq<u8>) -> Option<int> {
    if bytes_at(c, 0, shebang_prefix()) {
        Some(line_end_from(c, 0))
    } else {
        None
    }
}

/// Where the frontmatter lines start: after the shebang line, if any.
pub open spec fn frontmatter_start_of(c: Seq<u8>) -> int {
    match shebang_end_of(c) {
        Some(e) => e,
        None => 0,
    }
}

/// The shebang line and the frontmatter lines at the top of an R script.
#[derive(Debug)]
pub struct RScriptHeader {
    /// The end of the `#!` line, when there is one.
    pub shebang_end: Option<usize>,
    /// The bytes of the `#| ` lines that follow it, when there are any.
    pub frontmatter: Option<Range<usize>>,
}

/// Find the shebang line and the `#| ` frontmatter lines at the top of an R
/// script.
pub fn r_script_header(contents: &[u8]) -> (h: RScriptHeader)
    ensures
        match h.shebang_end {
            Some(e) => shebang_end_of(contents@) == Some(e as int),
            None => shebang_end_of(contents@) is None,
        },
        match h.frontmatter {
            Some(r) => r.start == frontmatter_start_of(contents@) && r.end == frontmatter_end_from(
                contents@,
                frontmatter_start_of(contents@),
            ) && r.start < r.end,
            None => frontmatter_end_from(contents@, frontmatter_start_of(contents@))
                == frontmatter_start_of(contents@),
        },
{
    let shebang_end = if starts_with_at(contents, 0, &[35u8, 33u8]) {
        Some(line_end(contents, 0))
    } else {
        None
    };
    proof {
        lemma_line_end_bounds(contents@, 0);
    }
    let frontmatter_start = match shebang_end {
        Some(e) => e,
        None => 0,
    };
    let mut cursor = frontmatter_start;
    let mut found = false;
    while cursor < contents.len() && starts_with_at(contents, cursor, &[35u8, 124u8, 32u8])
        invariant
            frontmatter_start <= cursor <= contents@.len(),
            frontmatter_start == frontmatter_start_of(contents@),
            frontmatter_end_from(contents@, frontmatter_start as int) == frontmatter_end_from(
                contents@,
                cursor as int,
            ),
            found == (cursor > frontmatter_start),
        decreases contents.len() - cursor,
    {
        proof {
            lemma_line_end_bounds(contents@, cursor as int);
        }
        found = true;
        cursor = line_end(contents, cursor);
    }
    RScriptHeader {
        shebang_end,
        frontmatter: if found { Some(frontmatter_start..cursor) } else { None },
    }
}

/// Whether `contents` has the bytes `p` at position `i`.
pub fn starts_with_at(contents: &[u8], i: usize, p: &[u8]) -> (r: bool)
    requires
        i <= contents@.len(),
    ensures
        r == bytes_at(contents@, i as int, p@),
{
    let n = contents.len();
    if p.len() > n - i {
        return false;
    }
    let mut k: usize = 0;
    while k < p.len()
        invariant
            n == contents@.len(),
            i + p@.len() <= n,
            k <= p@.len(),
            forall|j: int| 0 <= j < k ==> contents@[i + j] == p@[j],
        decreases p.len() - k,
    {
        if contents[i + k] != p[k] {
            assert(contents@.subrange(i as int, i + p@.len())[k as int] != p@[k as int]);
            return false;
        }
        k = k + 1;
    }
    assert(contents@.subrange(i as int, i + p@.len()) =~= p@);
    true
}

/// The frontmatter text of the `#| ` lines from `i` to `end`: each line
/// without its `#| ` prefix, line endings kept.
pub open spec fn frontmatter_text_from(c: Seq<u8>, i: int, end: int) -> Seq<u8>
    decreases c.len() - i,
    via frontmatter_text_decreases
{
    if 0 <= i < end && end <= c.len() && bytes_at(c, i, fm_prefix()) {
        c.subrange(i + 3, line_end_from(c, i)) + frontmatter_text_from(c, line_end_from(c, i), end)
    } else {
        Seq::empty()
    }
}

#[via_fn]
proof fn frontmatter_text_decreases(c: Seq<u8>, i: int, end: int) {
    if 0 <= i < end && end <= c.len() && bytes_at(c, i, fm_prefix()) {
        lemma_line_end_bounds(c, i);
    }
}

/// The frontmatter of an R script: the `#| ` lines after an optional
/// shebang line, each without its `#| ` prefix.
pub open spec fn script_frontmatter(c: Seq<u8>) -> Seq<u8> {
    let s = frontmatter_start_of(c);
    frontmatter_text_from(c, s, frontmatter_end_from(c, s))
}

/// How much of an R script is read to find its frontmatter: up to the end
/// of the line after the frontmatter lines.
pub open spec fn examined_end(c: Seq<u8>) -> int {
    let e = frontmatter_end_from(c, frontmatter_start_of(c));
    if e < c.len() {
        line_end_from(c, e)
    } else {
        e
    }
}

proof fn lemma_frontmatter_end_bounds(c: Seq<u8>, i: int)
    requires
        0 <= i <= c.len(),
    ensures
        i <= frontmatter_end_from(c, i) <= c.len(),
    decreases c.len() - i,
{
    if i < c.len() && bytes_at(c, i, fm_prefix()) {
        lemma_line_end_bounds(c, i);
        lemma_frontmatter_end_bounds(c, line_end_from(c, i));
    }
}

/// The frontmatter bytes of an R script, and how far it was read.
pub fn r_script_frontmatter(contents: &[u8]) -> (r: (Vec<u8>, usize))
    ensures
        r.0@ == script_frontmatter(contents@),
        r.1 == examined_end(contents@),
{
    let header = r_script_header(contents);
    let start = match header.shebang_end {
        Some(e) => e,
        None => 0,
    };
    proof {
        lemma_line_end_bounds(contents@, 0);
        lemma_frontmatter_end_bounds(contents@, start as int);
    }
    let end = match header.frontmatter {
        Some(r) => r.end,
        None => start,
    };
    let mut out: Vec<u8> = Vec::new();
    let mut cursor = start;
    while cursor < end
        invariant
            start <= cursor <= end <= contents@.len(),
            start == frontmatter_start_of(contents@),
            end == frontmatter_end_from(contents@, start as int),
            frontmatter_end_from(contents@, cursor as int) == end,
            script_frontmatter(contents@) == out@ + frontmatter_text_from(
                contents@,
                cursor as int,
                end as int,
            ),
        decreases end - cursor,
    {
        proof {
            let c = contents@;
            let i = cursor as int;
            lemma_line_end_bounds(c, i);
            lemma_frontmatter_end_bounds(c, line_end_from(c, i));
            assert(bytes_at(c, i, fm_prefix()));
            assert(c.subrange(i, i + 3)[0] == c[i]);
            assert(c.subrange(i, i + 3)[1] == c[i + 1]);
            assert(c.subrange(i, i + 3)[2] == c[i + 2]);
            assert(line_end_from(c, i) == line_end_from(c, i + 1));
            assert(line_end_from(c, i + 1) == line_end_from(c, i + 2));
            assert(line_end_from(c, i + 2) == line_end_from(c, i + 3));
            lemma_line_end_bounds(c, i + 3);
        }
        let next = line_end(contents, cursor);
        let ghost before = out@;
        let mut k = cursor + 3;
        while k < next
            invariant
                cursor + 3 <= next <= contents@.len(),
                cursor + 3 <= k <= next,
                out@ == before + contents@.subrange(cursor + 3, k as int),
            decreases next - k,
        {
            out.push(contents[k]);
            assert(contents@.subrange(cursor + 3, k + 1) == contents@.subrange(cursor + 3, k as int).push(
                contents@[k as int],
            ));
            k = k + 1;
        }
        assert(before + (contents@.subrange(cursor + 3, next as int) + frontmatter_text_from(
            contents@,
            next as int,
            end as int,
        )) =~= out@ + frontmatter_text_from(contents@, next as int, end as int));
        cursor = next;
    }
    assert(out@ + Seq::<u8>::empty() == out@);
    let examined = if end < contents.len() {
        line_end(contents, end)
    } else {
        end
    };
    (out, examined)
}

/// `std::str::from_utf8`: the text of `bytes` when they are valid UTF-8, as
/// the standard library documents (`vstd`'s `valid_utf8` and
/// `decode_utf8`).
#[verifier::external_body]
pub(crate) fn utf8_text(bytes: &[u8]) -> (r: Option<String>)
    ensures
        match r {
            Some(s) => valid_utf8(bytes@) && s@ == decode_utf8(bytes@),
            None => !valid_utf8(bytes@),
        },
{
    std::str::from_utf8(bytes).ok().map(str::to_string)
}

/// What `read_r_script_spec` gives for the bytes of a script: an error when
/// the part read is not UTF-8, else the spec its frontmatter declares.
pub open spec fn r_script_spec_of(c: Seq<u8>) -> Result<ScriptSpecView, FrontmatterErrorView> {
    if !valid_utf8(c.subrange(0, examined_end(c))) || !valid_utf8(script_frontmatter(c)) {
        Err(FrontmatterErrorView::InvalidUtf8)
    } else {
        frontmatter_of(decode_utf8(script_frontmatter(c)), false)
    }
}

/// Read the spec an R script declares in its frontmatter, given the
/// script's bytes.
pub fn read_r_script_spec(contents: &[u8]) -> (r: Result<ScriptSpec, FrontmatterError>)
    ensures
        match r {
            Ok(v) => r_script_spec_of(contents@) == Ok::<ScriptSpecView, FrontmatterErrorView>(v@),
            Err(e) => r_script_spec_of(contents@) == Err::<ScriptSpecView, FrontmatterErrorView>(e@),
        },
{
    let (fm, examined) = r_script_frontmatter(contents);
    proof {
        lemma_line_end_bounds(contents@, 0);
        lemma_frontmatter_end_bounds(contents@, frontmatter_start_of(contents@));
        let e = frontmatter_end_from(contents@, frontmatter_start_of(contents@));
        if e < contents@.len() {
            lemma_line_end_bounds(contents@, e);
        }
    }
    let region = slice_prefix(contents, examined);
    if utf8_text(region.as_slice()).is_none() {
        return Err(FrontmatterError::InvalidUtf8);
    }
    match utf8_text(fm.as_slice()) {
        Some(text) => parse_frontmatter(text.as_str(), false),
        None => Err(FrontmatterError::InvalidUtf8),
    }
}

fn slice_prefix(contents: &[u8], n: usize) -> (r: Vec<u8>)
    requires
        n <= contents@.len(),
    ensures
        r@ == contents@.subrange(0, n as int),
{
    let mut r: Vec<u8> = Vec::new();
    let mut i: usize = 0;
    while i < n
        invariant
            i <= n <= contents@.len(),
            r@ == contents@.subrange(0, i as int),
        decreases n - i,
    {
        r.push(contents[i]);
        assert(contents@.subrange(0, i + 1) == contents@.subrange(0, i as int).push(contents@[i as int]));
        i = i + 1;
    }
    r
}

/// Where the user's program comes from.
#[derive(Debug)]
pub enum RunSource {
    Script(String),
    Expressions(Vec<String>),
    Stdin,
}

/// Why a script argument names no runnable source.
#[derive(Debug)]
pub enum RunSourceError {
    /// The script's metadata could not be read: the script as typed and the
    /// reason.
    Unreadable(String, String),
    /// The script is a Quarto document.
    QuartoSource,
}

/// The message a `RunSourceError` is reported with.
pub open spec fn run_source_message(script: Seq<char>, reason: Seq<char>, quarto: bool) -> Seq<char> {
    if quarto {
        "`ir run` does not render Quarto sources; use `ir render <source>`"@
    } else {
        "cannot read script `"@ + script + "`: "@ + reason
    }
}

impl RunSourceError {
    /// The message this error is reported with.
    pub fn message(&self) -> (m: String)
        ensures
            m@ == match self {
                RunSourceError::Unreadable(s, e) => run_source_message(s@, e@, false),
                RunSourceError::QuartoSource => run_source_message(Seq::empty(), Seq::empty(), true),
            },
    {
        match self {
            RunSourceError::Unreadable(script, reason) => {
                let mut m = String::from_str("cannot read script `");
                m.append(script.as_str());
                m.append("`: ");
                m.append(reason.as_str());
                m
            },
            RunSourceError::QuartoSource => String::from_str(
                "`ir run` does not render Quarto sources; use `ir render <source>`",
            ),
        }
    }
}

impl RunSource {
    /// The source a script argument names. `-` is standard input; any other
    /// argument is a path, passed on as typed, whose metadata the caller has
    /// read: `metadata_error` is the reason that failed, if it did. Quarto
    /// documents are refused.
    pub fn from_script_arg(script: String, metadata_error: Option<String>) -> (r: Result<
        RunSource,
        RunSourceError,
    >)
        ensures
            script@ == "-"@ ==> r matches Ok(RunSource::Stdin),
            script@ != "-"@ && metadata_error is Some ==> (r matches Err(
                RunSourceError::Unreadable(s, e),
            ) && s@ == script@ && e@ == metadata_error.unwrap()@),
            script@ != "-"@ && metadata_error is None && quarto_path(script@) ==> r matches Err(
                RunSourceError::QuartoSource,
            ),
            script@ != "-"@ && metadata_error is None && !quarto_path(script@) ==> (r matches Ok(
                RunSource::Script(p),
            ) && p@ == script@),
    {
        if text_eq(script.as_str(), "-") {
            return Ok(RunSource::Stdin);
        }
        if let Some(reason) = metadata_error {
            return Err(RunSourceError::Unreadable(script, reason));
        }
        if is_quarto(script.as_str()) {
            return Err(RunSourceError::QuartoSource);
        }
        Ok(RunSource::Script(script))
    }

    /// The spec the source declares. Only a script declares one: `contents`
    /// are its bytes, and are not read for other sources, which declare
    /// nothing.
    pub fn script_spec(&self, contents: &[u8]) -> (r: Result<ScriptSpec, FrontmatterError>)
        ensures
            self is Script ==> match r {
                Ok(v) => r_script_spec_of(contents@) == Ok::<ScriptSpecView, FrontmatterErrorView>(
                    v@,
                ),
                Err(e) => r_script_spec_of(contents@) == Err::<ScriptSpecView, FrontmatterErrorView>(
                    e@,
                ),
            },
            !(self is Script) ==> (r matches Ok(v) && v@ == empty_spec()),
    {
        match self {
            RunSource::Script(_) => read_r_script_spec(contents),
            RunSource::Expressions(_) | RunSource::Stdin => Ok(ScriptSpec::empty()),
        }
    }
}

} // verus!
