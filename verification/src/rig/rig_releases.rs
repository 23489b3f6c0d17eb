//! R release metadata: which releases were out by a given date.
use vstd::prelude::*;

use crate::rig::r_selection::{
    available_pick, iso_date_prefix, lemma_available_pick_bounds, iso_date_prefix_of, select_available_r, text_order,
    text_order_exec, RequirementView, SelectionError, VersionRequirement,
};
use crate::rig::rig_client::AvailableR;
use crate::paths::{join_path, joined_path};
use crate::runner::{Launch, LaunchView};
use crate::text::{chars_of, trim, trimmed};

verus! {

/// Whether `a` was released on or before the date `day` (dates compare as
/// text, which orders `YYYY-MM-DD` dates by time); releases without a date
/// are not.
pub open spec fn released_by(a: AvailableR, day: Seq<char>) -> bool {
    a.date matches Some(d) && text_order(d@, day) <= 0
}

/// The releases of `s` that `released_by` keeps, in order.
pub open spec fn kept_released(s: Seq<AvailableR>, day: Seq<char>) -> Seq<AvailableR>
    decreases s.len(),
{
    if s.len() == 0 {
        Seq::empty()
    } else if released_by(s.last(), day) {
        kept_released(s.drop_last(), day).push(s.last())
    } else {
        kept_released(s.drop_last(), day)
    }
}

fn is_released_by(a: &AvailableR, day: &[char]) -> (r: bool)
    ensures
        r == released_by(*a, day@),
{
    match &a.date {
        Some(d) => {
            let dc = chars_of(d.as_str());
            text_order_exec(dc.as_slice(), day) <= 0
        },
        None => false,
    }
}

/// Keep only the releases out on or before `exclude_newer`, in order.
pub fn retain_released_before_or_on(available: &mut Vec<AvailableR>, exclude_newer: &str)
    ensures
        final(available)@ == kept_released(old(available)@, exclude_newer@),
{
    let day = chars_of(exclude_newer);
    let ghost orig = available@;
    let mut reversed: Vec<AvailableR> = Vec::new();
    while available.len() > 0
        invariant
            orig == available@ + reversed@.reverse(),
        decreases available.len(),
    {
        let ghost before = available@;
        let ghost rev_before = reversed@;
        let a = available.pop().unwrap();
        reversed.push(a);
        assert(reversed@.reverse() =~= seq![a] + rev_before.reverse());
        assert(before == available@.push(a));
        assert(orig =~= available@ + reversed@.reverse());
    }
    assert(orig =~= reversed@.reverse());
    let mut kept: Vec<AvailableR> = Vec::new();
    let mut taken: usize = 0;
    let n = reversed.len();
    assert(orig.take(0) == Seq::<AvailableR>::empty());
    while reversed.len() > 0
        invariant
            taken + reversed@.len() == n,
            n == orig.len(),
            day@ == exclude_newer@,
            reversed@.reverse() == orig.subrange(taken as int, n as int),
            kept@ == kept_released(orig.take(taken as int), exclude_newer@),
        decreases reversed.len(),
    {
        let ghost rev_before = reversed@;
        let a = reversed.pop().unwrap();
        assert(rev_before == reversed@.push(a));
        assert(rev_before.reverse() =~= seq![a] + reversed@.reverse());
        assert(orig[taken as int] == a) by {
            assert(orig.subrange(taken as int, n as int)[0] == a);
        }
        let ghost t = orig.take(taken as int + 1);
        assert(t.drop_last() == orig.take(taken as int));
        assert(t.last() == a);
        proof {
            let sub = orig.subrange(taken as int, n as int);
            assert(sub.drop_first() =~= orig.subrange(taken + 1, n as int));
            assert((seq![a] + reversed@.reverse()).drop_first() =~= reversed@.reverse());
        }
        if is_released_by(&a, day.as_slice()) {
            kept.push(a);
        }
        taken = taken + 1;
        assert(reversed@.reverse() =~= orig.subrange(taken as int, n as int));
    }
    assert(orig.take(n as int) == orig);
    *available = kept;
}

/// The day up to which the release metadata shipped with the program is
/// complete.
pub open spec fn embedded_metadata_date() -> Seq<char> {
    "2026-06-17"@
}

/// Whether the shipped release metadata answers for `exclude_newer`: it
/// does for days up to the day it was taken; later days need the metadata
/// fetched since.
pub fn uses_embedded_metadata(exclude_newer: &str) -> (r: bool)
    ensures
        r == (text_order(exclude_newer@, embedded_metadata_date()) <= 0),
{
    let day = chars_of(exclude_newer);
    let shipped = chars_of("2026-06-17");
    text_order_exec(day.as_slice(), shipped.as_slice()) <= 0
}

/// Two releases that agree on name, version and date.
pub open spec fn same_release(a: AvailableR, b: AvailableR) -> bool {
    &&& a.name@ == b.name@
    &&& a.version@ == b.version@
    &&& crate::frontmatter::opt_text(a.date) == crate::frontmatter::opt_text(b.date)
}

fn copy_release(a: &AvailableR) -> (r: AvailableR)
    ensures
        same_release(r, *a),
{
    let date = match &a.date {
        Some(d) => Some(d.clone()),
        None => None,
    };
    AvailableR { name: a.name.clone(), version: a.version.clone(), date }
}

/// A release as the metadata lists it once read: an unnamed release is
/// named by its version, and a timestamp is cut to its day.
pub open spec fn normalized_release(a: AvailableR, b: AvailableR) -> bool {
    &&& b.name@ == (if a.name@.len() == 0 {
        a.version@
    } else {
        a.name@
    })
    &&& b.version@ == a.version@
    &&& crate::frontmatter::opt_text(b.date) == match a.date {
        Some(d) => iso_date_prefix_of(d@),
        None => None,
    }
}

/// Whether the date of `a`, if it has one, opens with a `YYYY-MM-DD` day.
pub open spec fn date_readable(a: AvailableR) -> bool {
    a.date matches Some(d) ==> iso_date_prefix_of(d@) is Some
}

/// The message for a release whose date is not a day.
pub open spec fn invalid_date_message(date: Seq<char>, version: Seq<char>) -> Seq<char> {
    "R version availability metadata returned invalid release date `"@ + date + "` for R "@
        + version
}

/// Normalize the releases that the metadata lists: each is named by its
/// version where it has no name, and its date is cut to its day. Fails on
/// the first release whose date does not open with a day.
pub fn normalize_available(versions: &Vec<AvailableR>) -> (r: Result<Vec<AvailableR>, String>)
    ensures
        r is Ok <==> forall|i: int| 0 <= i < versions@.len() ==> date_readable(#[trigger] versions@[i]),
        r matches Ok(v) ==> v@.len() == versions@.len() && forall|i: int|
            0 <= i < versions@.len() ==> normalized_release(#[trigger] versions@[i], v@[i]),
        r matches Err(m) ==> exists|i: int|
            0 <= i < versions@.len() && !date_readable(#[trigger] versions@[i]) && (forall|j: int|
                0 <= j < i ==> date_readable(#[trigger] versions@[j])) && m@ == invalid_date_message(
                versions@[i].date.unwrap()@,
                versions@[i].version@,
            ),
{
    let mut out: Vec<AvailableR> = Vec::new();
    let mut i: usize = 0;
    while i < versions.len()
        invariant
            i <= versions@.len(),
            out@.len() == i,
            forall|j: int| 0 <= j < i ==> date_readable(#[trigger] versions@[j]),
            forall|j: int| 0 <= j < i ==> normalized_release(#[trigger] versions@[j], out@[j]),
        decreases versions.len() - i,
    {
        let a = &versions[i];
        let date = match &a.date {
            Some(d) => match iso_date_prefix(d.as_str()) {
                Some(day) => Some(day),
                None => {
                    let mut m = String::from_str(
                        "R version availability metadata returned invalid release date `",
                    );
                    m.append(d.as_str());
                    m.append("` for R ");
                    m.append(a.version.as_str());
                    assert(!date_readable(versions@[i as int]));
                    return Err(m);
                },
            },
            None => None,
        };
        let name = if a.name.as_str().unicode_len() == 0 {
            a.version.clone()
        } else {
            a.name.clone()
        };
        out.push(AvailableR { name, version: a.version.clone(), date });
        assert(normalized_release(versions@[i as int], out@[i as int]));
        i = i + 1;
    }
    Ok(out)
}

/// The shipped release metadata, as read: normalized and cut to the
/// releases out by the day it was taken.
pub fn embedded_available(parsed: &Vec<AvailableR>) -> (r: Result<Vec<AvailableR>, String>)
    ensures
        r is Ok <==> forall|i: int| 0 <= i < parsed@.len() ==> date_readable(#[trigger] parsed@[i]),
        r matches Ok(v) ==> exists|n: Seq<AvailableR>|
            n.len() == parsed@.len() && (forall|i: int|
                0 <= i < n.len() ==> normalized_release(#[trigger] parsed@[i], n[i])) && v@
                == kept_released(n, embedded_metadata_date()),
{
    let mut available = normalize_available(parsed)?;
    let ghost n = available@;
    retain_released_before_or_on(&mut available, "2026-06-17");
    proof {
        reveal_strlit("2026-06-17");
        assert("2026-06-17"@ == embedded_metadata_date());
    }
    Ok(available)
}

/// The releases of `available` (the metadata that answers for
/// `exclude_newer`) that were out on or before that day, in order.
pub fn available_before_or_on(exclude_newer: &str, available: Vec<AvailableR>) -> (r: Vec<
    AvailableR,
>)
    ensures
        r@ == kept_released(available@, exclude_newer@),
{
    let mut available = available;
    retain_released_before_or_on(&mut available, exclude_newer);
    available
}

/// The releases a requirement is chosen among: with a day, those of
/// `available` out by it; else all of them.
pub open spec fn release_candidates(available: Seq<AvailableR>, exclude_newer: Option<Seq<char>>) -> Seq<
    AvailableR,
> {
    match exclude_newer {
        Some(d) => kept_released(available, d),
        None => available,
    }
}

/// The release of `candidates` that the requirement `req` installs: the
/// highest version it admits, other than `devel` and `next`.
pub fn required_available_version_from_candidates(
    req: &str,
    requirement: &VersionRequirement,
    candidates: &[AvailableR],
) -> (r: Result<AvailableR, SelectionError>)
    ensures
        r is Err <==> available_pick(requirement@, candidates@) is None,
        r matches Ok(x) ==> (available_pick(requirement@, candidates@) matches Some(k) && same_release(
            x,
            candidates@[k],
        )),
        r matches Err(e) ==> e@ == crate::rig::r_selection::SelectionErrorView::NoAvailableRelease(
            req@,
        ),
{
    match select_available_r(req, requirement, candidates) {
        Ok(a) => Ok(copy_release(a)),
        Err(e) => Err(e),
    }
}

/// The release to install for the requirement `req`. `available` is the
/// release metadata: with `exclude_newer`, that which answers for the day
/// (see `uses_embedded_metadata`), and only releases out by then are
/// considered; without, what rig lists as available.
pub fn required_available_version(
    req: &str,
    requirement: &VersionRequirement,
    exclude_newer: Option<&str>,
    available: Vec<AvailableR>,
) -> (r: Result<AvailableR, SelectionError>)
    ensures
        ({
            let c = release_candidates(
                available@,
                match exclude_newer {
                    Some(d) => Some(d@),
                    None => None,
                },
            );
            &&& (r is Err <==> available_pick(requirement@, c) is None)
            &&& (r matches Ok(x) ==> (available_pick(requirement@, c) matches Some(k)
                && same_release(x, c[k])))
            &&& (r matches Err(e) ==> e@
                == crate::rig::r_selection::SelectionErrorView::NoAvailableRelease(req@))
        }),
{
    let candidates = match exclude_newer {
        Some(day) => available_before_or_on(day, available),
        None => available,
    };
    required_available_version_from_candidates(req, requirement, candidates.as_slice())
}

/// Filtering by a day keeps exactly the releases out by that day: a release
/// is kept if and only if it is listed and was released on or before the
/// day.
pub proof fn law_kept_releases_are_exactly_those_released(s: Seq<AvailableR>, day: Seq<char>)
    ensures
        forall|x: AvailableR|
            #![trigger kept_released(s, day).contains(x)]
            kept_released(s, day).contains(x) <==> (s.contains(x) && released_by(x, day)),
    decreases s.len(),
{
    if s.len() > 0 {
        let rest = s.drop_last();
        law_kept_releases_are_exactly_those_released(rest, day);
        let k = kept_released(s, day);
        let kr = kept_released(rest, day);
        assert forall|x: AvailableR| k.contains(x) <==> (s.contains(x) && released_by(x, day)) by {
            if s.contains(x) {
                let i = choose|i: int| 0 <= i < s.len() && s[i] == x;
                if i < s.len() - 1 {
                    assert(rest[i] == x);
                    assert(rest.contains(x));
                }
            }
            if rest.contains(x) {
                let i = choose|i: int| 0 <= i < rest.len() && rest[i] == x;
                assert(s[i] == x);
            }
            assert(s[s.len() - 1] == s.last());
            if released_by(s.last(), day) {
                assert(k == kr.push(s.last()));
                if k.contains(x) {
                    let i = choose|i: int| 0 <= i < k.len() && k[i] == x;
                    if i < kr.len() {
                        assert(kr[i] == x);
                    }
                }
                if kr.contains(x) {
                    let i = choose|i: int| 0 <= i < kr.len() && kr[i] == x;
                    assert(k[i] == x);
                }
                assert(k[kr.len() as int] == s.last());
            } else {
                assert(k == kr);
            }
        }
    }
}

/// A release chosen for a requirement under a day was out by that day:
/// with `exclude_newer`, no release published after the day is picked.
pub proof fn law_dated_choice_was_released_by_the_day(
    req: RequirementView,
    available: Seq<AvailableR>,
    day: Seq<char>,
)
    ensures
        available_pick(req, kept_released(available, day)) matches Some(k) ==> released_by(
            kept_released(available, day)[k],
            day,
        ),
{
    let c = kept_released(available, day);
    lemma_available_pick_bounds(req, c);
    law_kept_releases_are_exactly_those_released(available, day);
    if available_pick(req, c) is Some {
        let k = available_pick(req, c).unwrap();
        assert(c.contains(c[k]));
    }
}

/// Where the fetched release metadata is cached under `cache_dir`.
pub fn available_cache_path(cache_dir: &str) -> (r: String)
    ensures
        r@ == joined_path(joined_path(cache_dir@, "r-versions"@), "available.json"@),
{
    let dir = join_path(cache_dir, "r-versions");
    join_path(dir.as_str(), "available.json")
}

/// The R expression that prints the document at the URL given as its
/// first argument.
pub open spec fn read_url_expression() -> Seq<char> {
    "cat(readLines(commandArgs(TRUE)[[1]], warn = FALSE), sep = \"\\n\")"@
}

/// Where the release metadata is published.
pub open spec fn metadata_url() -> Seq<char> {
    "https://api.r-hub.io/rversions/r-versions"@
}

/// The command that fetches the release metadata through R.
pub fn metadata_download_launch() -> (l: Launch)
    ensures
        l@ == (LaunchView {
            program: "Rscript"@,
            args: seq!["--vanilla"@, "-e"@, read_url_expression(), metadata_url()],
            env: Seq::empty(),
        }),
{
    let args: Vec<String> = vec![
        String::from_str("--vanilla"),
        String::from_str("-e"),
        String::from_str("cat(readLines(commandArgs(TRUE)[[1]], warn = FALSE), sep = \"\\n\")"),
        String::from_str("https://api.r-hub.io/rversions/r-versions"),
    ];
    let l = Launch { program: String::from_str("Rscript"), args, env: Vec::new() };
    assert(l@.args =~= seq!["--vanilla"@, "-e"@, read_url_expression(), metadata_url()]);
    assert(l@.env =~= Seq::<(Seq<char>, Seq<char>)>::empty());
    l
}

/// The fetched metadata, from what R printed: it must not be blank.
pub fn metadata_response(stdout: &str) -> (r: Result<String, String>)
    ensures
        trim(stdout@).len() == 0 ==> (r matches Err(m) && m@
            == "R version availability metadata response was empty"@),
        trim(stdout@).len() > 0 ==> (r matches Ok(j) && j@ == stdout@),
{
    let t = trimmed(stdout);
    if t.as_str().unicode_len() == 0 {
        Err(String::from_str("R version availability metadata response was empty"))
    } else {
        Ok(String::from_str(stdout))
    }
}

/// The error when R could not fetch the metadata, given what it wrote to
/// standard error.
pub fn metadata_download_failed(stderr: &str) -> (m: String)
    ensures
        m@ == "`Rscript --vanilla -e <read R version availability metadata>` failed: "@ + stderr@,
{
    let mut m = String::from_str("`Rscript --vanilla -e <read R version availability metadata>` failed: ");
    m.append(stderr);
    m
}

/// The error for metadata from `source` that is not the JSON expected,
/// with the parser's `detail`.
pub fn metadata_parse_failed(source: &str, detail: &str) -> (m: String)
    ensures
        m@ == "failed to parse "@ + source@ + " JSON: "@ + detail@,
{
    let mut m = String::from_str("failed to parse ");
    m.append(source);
    m.append(" JSON: ");
    m.append(detail);
    m
}

} // verus!
