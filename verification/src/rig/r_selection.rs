//! R version requirements: parsing, matching and ranking of candidates.
use std::cmp::Ordering;

use vstd::prelude::*;

use crate::rig::rig_client::{texts, AvailableR, InstalledR};
use crate::text::{
    chars_of, contains_str, contains_text, starts_with_str, text_eq, lemma_split_nonempty, range_starts_with, ranges_view, ranges_within, split, split_ranges,
    string_of, trim, trim_bounds,
};

verus! {

/// An ASCII decimal digit.
pub open spec fn is_digit(c: char) -> bool {
    '0' <= c && c <= '9'
}

pub open spec fn digit_value(c: char) -> nat {
    (c as int - '0' as int) as nat
}

/// Every character of `s` is an ASCII decimal digit.
pub open spec fn all_digits(s: Seq<char>) -> bool {
    forall|i: int| 0 <= i < s.len() ==> is_digit(#[trigger] s[i])
}

/// The decimal number that the digits `s` spell.
pub open spec fn decimal(s: Seq<char>) -> nat
    decreases s.len(),
{
    if s.len() == 0 {
        0
    } else {
        decimal(s.drop_last()) * 10 + digit_value(s.last())
    }
}

/// `s` is what `u64::from_str` accepts without a sign: one or more digits
/// whose value fits in a `u64`.
pub open spec fn is_u64_digits(s: Seq<char>) -> bool {
    s.len() > 0 && all_digits(s) && decimal(s) <= u64::MAX
}

proof fn lemma_decimal_monotone(s: Seq<char>, i: int)
    requires
        0 <= i <= s.len(),
    ensures
        decimal(s.take(i)) <= decimal(s),
    decreases s.len() - i,
{
    if i < s.len() {
        lemma_decimal_monotone(s.drop_last(), i);
        assert(s.drop_last().take(i) == s.take(i));
    } else {
        assert(s.take(i) == s);
    }
}

/// The value of the digits `cs[a..b]`, or `None` when it does not fit in a
/// `u64`.
pub fn parse_digits(cs: &[char], a: usize, b: usize) -> (r: Option<u64>)
    requires
        a <= b <= cs@.len(),
        all_digits(cs@.subrange(a as int, b as int)),
    ensures
        match r {
            Some(v) => v == decimal(cs@.subrange(a as int, b as int)),
            None => decimal(cs@.subrange(a as int, b as int)) > u64::MAX,
        },
{
    let ghost s = cs@.subrange(a as int, b as int);
    let mut v: u64 = 0;
    let mut i = a;
    assert(s.take(0) == Seq::<char>::empty());
    while i < b
        invariant
            a <= i <= b <= cs@.len(),
            s == cs@.subrange(a as int, b as int),
            all_digits(s),
            v == decimal(s.take(i - a)),
        decreases b - i,
    {
        let ghost t = s.take(i - a + 1);
        assert(t.drop_last() == s.take(i - a));
        assert(t.last() == cs@[i as int]);
        assert(is_digit(s[i - a]));
        let d = (cs[i] as u32 - '0' as u32) as u64;
        match v.checked_mul(10) {
            Some(m) => match m.checked_add(d) {
                Some(n) => {
                    v = n;
                },
                None => {
                    proof {
                        lemma_decimal_monotone(s, i - a + 1);
                    }
                    return None;
                },
            },
            None => {
                proof {
                    lemma_decimal_monotone(s, i - a + 1);
                }
                return None;
            },
        }
        i = i + 1;
    }
    assert(s.take(b - a) == s);
    Some(v)
}

fn digits_only(cs: &[char], a: usize, b: usize) -> (r: bool)
    requires
        a <= b <= cs@.len(),
    ensures
        r == all_digits(cs@.subrange(a as int, b as int)),
{
    let mut i = a;
    while i < b
        invariant
            a <= i <= b <= cs@.len(),
            forall|j: int| a <= j < i ==> is_digit(#[trigger] cs@[j]),
        decreases b - i,
    {
        if !('0' <= cs[i] && cs[i] <= '9') {
            assert(!is_digit(cs@.subrange(a as int, b as int)[i - a]));
            return false;
        }
        i = i + 1;
    }
    assert forall|j: int| 0 <= j < b - a implies is_digit(
        #[trigger] cs@.subrange(a as int, b as int)[j],
    ) by {
        assert(cs@.subrange(a as int, b as int)[j] == cs@[a + j]);
    }
    true
}

/// A dotted numeric version such as `4.3.1`: every `.`-separated part is
/// one or more ASCII digits whose value fits in a `u64`.
pub open spec fn is_version_text(s: Seq<char>) -> bool {
    forall|k: int| 0 <= k < split(s, '.').len() ==> is_u64_digits(#[trigger] split(s, '.')[k])
}

/// The parts of a dotted numeric version.
pub open spec fn version_parts(s: Seq<char>) -> Seq<u64> {
    Seq::new(split(s, '.').len(), |k: int| decimal(split(s, '.')[k]) as u64)
}

/// What `parse_version` gives: the parts of `s` when it is a dotted numeric
/// version, else `None`.
pub open spec fn parsed_version(s: Seq<char>) -> Option<Seq<u64>> {
    if is_version_text(s) {
        Some(version_parts(s))
    } else {
        None
    }
}

fn parse_version_chars(cs: &[char]) -> (r: Option<Vec<u64>>)
    ensures
        match r {
            Some(v) => parsed_version(cs@) == Some(v@),
            None => parsed_version(cs@) is None,
        },
{
    let rs = split_ranges(cs, '.');
    proof {
        lemma_split_nonempty(cs@, '.');
    }
    let ghost p = split(cs@, '.');
    let mut parts: Vec<u64> = Vec::new();
    let mut k: usize = 0;
    while k < rs.len()
        invariant
            k <= rs@.len(),
            ranges_within(cs@, rs@),
            ranges_view(cs@, rs@) == p,
            p == split(cs@, '.'),
            parts@.len() == k,
            forall|j: int| 0 <= j < k ==> is_u64_digits(#[trigger] p[j]),
            forall|j: int| 0 <= j < k ==> #[trigger] parts@[j] == decimal(p[j]),
        decreases rs.len() - k,
    {
        let (a, b) = rs[k];
        assert(cs@.subrange(a as int, b as int) == p[k as int]);
        if a == b || !digits_only(cs, a, b) {
            return None;
        }
        match parse_digits(cs, a, b) {
            Some(v) => parts.push(v),
            None => return None,
        }
        k = k + 1;
    }
    assert(parts@ =~= version_parts(cs@));
    Some(parts)
}

/// Parse a dotted numeric version such as `4.3.1` into its parts.
pub fn parse_version(value: &str) -> (r: Option<Vec<u64>>)
    ensures
        match r {
            Some(v) => parsed_version(value@) == Some(v@),
            None => parsed_version(value@) is None,
        },
{
    let cs = chars_of(value);
    parse_version_chars(cs.as_slice())
}

/// Whether `value` is a dotted numeric version.
pub fn is_numeric_version(value: &str) -> (b: bool)
    ensures
        b == is_version_text(value@),
{
    parse_version(value).is_some()
}


/// Part `i` of a version, with missing parts read as 0.
pub open spec fn part_at(a: Seq<u64>, i: int) -> int {
    if 0 <= i < a.len() {
        a[i] as int
    } else {
        0
    }
}

pub open spec fn max_len(a: Seq<u64>, b: Seq<u64>) -> int {
    if a.len() >= b.len() {
        a.len() as int
    } else {
        b.len() as int
    }
}

/// The order of versions `a` and `b` from part `i` on: -1, 0 or 1 as `a`
/// sorts before, with or after `b`, part by part, missing parts read as 0.
pub open spec fn parts_order_from(a: Seq<u64>, b: Seq<u64>, i: int) -> int
    decreases max_len(a, b) - i,
{
    if i < 0 || i >= max_len(a, b) {
        0
    } else if part_at(a, i) < part_at(b, i) {
        -1
    } else if part_at(a, i) > part_at(b, i) {
        1
    } else {
        parts_order_from(a, b, i + 1)
    }
}

/// The order of two versions given as parts (-1, 0 or 1).
pub open spec fn parts_order(a: Seq<u64>, b: Seq<u64>) -> int {
    parts_order_from(a, b, 0)
}

/// The number -1, 0 or 1 that an `Ordering` stands for.
pub open spec fn ord_value(o: Ordering) -> int {
    match o {
        Ordering::Less => -1,
        Ordering::Equal => 0,
        Ordering::Greater => 1,
    }
}

fn order_of_int(v: i8) -> (o: Ordering)
    requires
        -1 <= v <= 1,
    ensures
        ord_value(o) == v,
{
    if v < 0 {
        Ordering::Less
    } else if v == 0 {
        Ordering::Equal
    } else {
        Ordering::Greater
    }
}

/// The order of two versions given as parts, as -1, 0 or 1.
pub fn parts_order_exec(a: &[u64], b: &[u64]) -> (r: i8)
    ensures
        r == parts_order(a@, b@),
        -1 <= r <= 1,
{
    let len = if a.len() >= b.len() { a.len() } else { b.len() };
    let mut idx: usize = 0;
    while idx < len
        invariant
            idx <= len,
            len == max_len(a@, b@),
            parts_order(a@, b@) == parts_order_from(a@, b@, idx as int),
        decreases len - idx,
    {
        let left: u64 = if idx < a.len() { a[idx] } else { 0 };
        let right: u64 = if idx < b.len() { b[idx] } else { 0 };
        if left < right {
            return -1;
        } else if left > right {
            return 1;
        }
        idx = idx + 1;
    }
    0
}

/// Compare two versions part by part, missing parts counting as 0.
pub fn compare_version_parts(a: &[u64], b: &[u64]) -> (o: Ordering)
    ensures
        ord_value(o) == parts_order(a@, b@),
{
    order_of_int(parts_order_exec(a, b))
}

/// Lexicographic order of texts by character (the order of `str`), as -1, 0
/// or 1, from position `i` on.
pub open spec fn text_order_from(a: Seq<char>, b: Seq<char>, i: int) -> int
    decreases a.len() + b.len() - 2 * i,
{
    if i < 0 {
        0
    } else if i >= a.len() && i >= b.len() {
        0
    } else if i >= a.len() {
        -1
    } else if i >= b.len() {
        1
    } else if a[i] < b[i] {
        -1
    } else if a[i] > b[i] {
        1
    } else {
        text_order_from(a, b, i + 1)
    }
}

/// Lexicographic order of texts (the order of `str`), as -1, 0 or 1.
pub open spec fn text_order(a: Seq<char>, b: Seq<char>) -> int {
    text_order_from(a, b, 0)
}

pub fn text_order_exec(a: &[char], b: &[char]) -> (r: i8)
    ensures
        r == text_order(a@, b@),
        -1 <= r <= 1,
{
    let mut i: usize = 0;
    while i < a.len() && i < b.len()
        invariant
            i <= a@.len(),
            i <= b@.len(),
            text_order(a@, b@) == text_order_from(a@, b@, i as int),
        decreases a.len() - i,
    {
        if a[i] < b[i] {
            return -1;
        } else if a[i] > b[i] {
            return 1;
        }
        i = i + 1;
    }
    if i >= a.len() && i >= b.len() {
        0
    } else if i >= a.len() {
        -1
    } else {
        1
    }
}

/// The order of two version strings: by parts when both parse, else as
/// text.
pub open spec fn versions_order(a: Seq<char>, b: Seq<char>) -> int {
    match (parsed_version(a), parsed_version(b)) {
        (Some(x), Some(y)) => parts_order(x, y),
        _ => text_order(a, b),
    }
}

pub fn versions_order_exec(a: &str, b: &str) -> (r: i8)
    ensures
        r == versions_order(a@, b@),
        -1 <= r <= 1,
{
    match (parse_version(a), parse_version(b)) {
        (Some(x), Some(y)) => parts_order_exec(x.as_slice(), y.as_slice()),
        _ => {
            let ac = chars_of(a);
            let bc = chars_of(b);
            text_order_exec(ac.as_slice(), bc.as_slice())
        },
    }
}

/// Compare two version strings: by parts when both are numeric versions,
/// else as text.
pub fn compare_versions(a: &str, b: &str) -> (o: Ordering)
    ensures
        ord_value(o) == versions_order(a@, b@),
{
    order_of_int(versions_order_exec(a, b))
}


/// `YYYY-MM-DD`: ten characters, digits but for `-` at positions 4 and 7.
pub open spec fn iso_date(s: Seq<char>) -> bool {
    &&& s.len() == 10
    &&& forall|i: int| 0 <= i < 10 && i != 4 && i != 7 ==> is_digit(#[trigger] s[i])
    &&& s[4] == '-'
    &&& s[7] == '-'
}

fn iso_date_chars(cs: &[char], a: usize, b: usize) -> (r: bool)
    requires
        a <= b <= cs@.len(),
    ensures
        r == iso_date(cs@.subrange(a as int, b as int)),
{
    let ghost s = cs@.subrange(a as int, b as int);
    if b - a != 10 {
        return false;
    }
    let mut i: usize = 0;
    while i < 10
        invariant
            i <= 10,
            b - a == 10,
            a <= b <= cs@.len(),
            s == cs@.subrange(a as int, b as int),
            forall|j: int| 0 <= j < i && j != 4 && j != 7 ==> is_digit(#[trigger] s[j]),
            i > 4 ==> s[4] == '-',
            i > 7 ==> s[7] == '-',
        decreases 10 - i,
    {
        let c = cs[a + i];
        assert(c == s[i as int]);
        if i == 4 || i == 7 {
            if c != '-' {
                return false;
            }
        } else if !('0' <= c && c <= '9') {
            return false;
        }
        i = i + 1;
    }
    true
}

/// Whether `value` is a date in `YYYY-MM-DD` form.
pub fn is_iso_date(value: &str) -> (r: bool)
    ensures
        r == iso_date(value@),
{
    let cs = chars_of(value);
    proof {
        assert(cs@.subrange(0, cs@.len() as int) == cs@);
    }
    iso_date_chars(cs.as_slice(), 0, cs.len())
}

/// The date that opens `v`: its first ten characters, where they are a
/// `YYYY-MM-DD` date.
pub open spec fn iso_date_prefix_of(v: Seq<char>) -> Option<Seq<char>> {
    if v.len() >= 10 && iso_date(v.subrange(0, 10)) {
        Some(v.subrange(0, 10))
    } else {
        None
    }
}

/// The `YYYY-MM-DD` date that opens `value`, such as the day of a
/// timestamp `2024-04-24T00:00:00Z`.
pub fn iso_date_prefix(value: &str) -> (r: Option<String>)
    ensures
        match r {
            Some(d) => iso_date_prefix_of(value@) == Some(d@),
            None => iso_date_prefix_of(value@) is None,
        },
{
    let cs = chars_of(value);
    if cs.len() >= 10 && iso_date_chars(cs.as_slice(), 0, 10) {
        Some(string_of(cs.as_slice(), 0, 10))
    } else {
        None
    }
}

/// A comparison operator of an `r-version` requirement.
#[derive(Clone, Copy, PartialEq, Eq, Structural, Debug)]
pub enum VersionOp {
    Gt,
    Gte,
    Lt,
    Lte,
    Eq,
}

/// An `r-version` requirement: a bare selector (a version, alias or name
/// such as `release`), or a comparison with a numeric version.
#[derive(Debug)]
pub enum VersionRequirement {
    Bare(String),
    Comparison { op: VersionOp, version: Vec<u64>, raw: String },
}

/// What a `VersionRequirement` holds.
pub enum RequirementView {
    Bare(Seq<char>),
    Comparison(VersionOp, Seq<u64>, Seq<char>),
}

impl View for VersionRequirement {
    type V = RequirementView;

    open spec fn view(&self) -> RequirementView {
        match self {
            VersionRequirement::Bare(s) => RequirementView::Bare(s@),
            VersionRequirement::Comparison { op, version, raw } => RequirementView::Comparison(
                *op,
                version@,
                raw@,
            ),
        }
    }
}

/// Why an `r-version` or release-date value was refused, or no release
/// matched.
#[derive(Debug)]
pub enum SelectionError {
    /// A date field (named) that is not `YYYY-MM-DD`.
    InvalidDate(String),
    /// A comparison requirement (the trimmed text) whose version is not
    /// numeric.
    UnsupportedVersionSpec(String),
    /// An empty `r-version`.
    EmptyRequirement,
    /// No release matches the requirement (as written).
    NoAvailableRelease(String),
    /// A bare selector that cannot be installed automatically.
    UnsupportedSelector(String),
}

pub enum SelectionErrorView {
    InvalidDate(Seq<char>),
    UnsupportedVersionSpec(Seq<char>),
    EmptyRequirement,
    NoAvailableRelease(Seq<char>),
    UnsupportedSelector(Seq<char>),
}

impl View for SelectionError {
    type V = SelectionErrorView;

    open spec fn view(&self) -> SelectionErrorView {
        match self {
            SelectionError::InvalidDate(s) => SelectionErrorView::InvalidDate(s@),
            SelectionError::UnsupportedVersionSpec(s) => SelectionErrorView::UnsupportedVersionSpec(s@),
            SelectionError::EmptyRequirement => SelectionErrorView::EmptyRequirement,
            SelectionError::NoAvailableRelease(s) => SelectionErrorView::NoAvailableRelease(s@),
            SelectionError::UnsupportedSelector(s) => SelectionErrorView::UnsupportedSelector(s@),
        }
    }
}

/// The message that a `SelectionError` is reported with.
pub open spec fn selection_message(e: SelectionErrorView) -> Seq<char> {
    match e {
        SelectionErrorView::InvalidDate(key) => "`"@ + key
            + "` must be a date string in YYYY-MM-DD format"@,
        SelectionErrorView::UnsupportedVersionSpec(req) => "`r-version` has an unsupported version spec `"@
            + req + "`"@,
        SelectionErrorView::EmptyRequirement => "`r-version` must not be empty"@,
        SelectionErrorView::NoAvailableRelease(req) => "no R release available through rig matches `"@
            + req + "`"@,
        SelectionErrorView::UnsupportedSelector(req) => "cannot automatically install unsupported `r-version` selector `"@
            + req
            + "`; use a numeric version, `release`, `oldrel`, `oldrel/N`, `devel`, or `next`"@,
    }
}

impl SelectionError {
    /// The message this error is reported with.
    pub fn message(&self) -> (m: String)
        ensures
            m@ == selection_message(self@),
    {
        match self {
            SelectionError::InvalidDate(key) => {
                let mut m = String::from_str("`");
                m.append(key.as_str());
                m.append("` must be a date string in YYYY-MM-DD format");
                m
            },
            SelectionError::UnsupportedVersionSpec(req) => {
                let mut m = String::from_str("`r-version` has an unsupported version spec `");
                m.append(req.as_str());
                m.append("`");
                m
            },
            SelectionError::EmptyRequirement => String::from_str("`r-version` must not be empty"),
            SelectionError::NoAvailableRelease(req) => {
                let mut m = String::from_str("no R release available through rig matches `");
                m.append(req.as_str());
                m.append("`");
                m
            },
            SelectionError::UnsupportedSelector(req) => {
                let mut m = String::from_str(
                    "cannot automatically install unsupported `r-version` selector `",
                );
                m.append(req.as_str());
                m.append(
                    "`; use a numeric version, `release`, `oldrel`, `oldrel/N`, `devel`, or `next`",
                );
                m
            },
        }
    }
}

/// What `parse_iso_date_field` gives for `value`: the trimmed date, or the
/// error that names `key`.
pub open spec fn iso_date_field(key: Seq<char>, value: Seq<char>) -> Result<
    Seq<char>,
    SelectionErrorView,
> {
    if iso_date(trim(value)) {
        Ok(trim(value))
    } else {
        Err(SelectionErrorView::InvalidDate(key))
    }
}

/// Read the date field `key`: `value` trimmed, which must be `YYYY-MM-DD`.
pub fn parse_iso_date_field(key: &str, value: &str) -> (r: Result<String, SelectionError>)
    ensures
        match r {
            Ok(d) => iso_date_field(key@, value@) == Ok::<Seq<char>, SelectionErrorView>(d@),
            Err(e) => iso_date_field(key@, value@) == Err::<Seq<char>, SelectionErrorView>(e@),
        },
{
    let cs = chars_of(value);
    let (a, b) = trim_bounds(cs.as_slice(), 0, cs.len());
    proof {
        assert(cs@.subrange(0, cs@.len() as int) == value@);
    }
    if !iso_date_chars(cs.as_slice(), a, b) {
        return Err(SelectionError::InvalidDate(String::from_str(key)));
    }
    Ok(string_of(cs.as_slice(), a, b))
}

/// What `u64::from_str` accepts: an optional `+`, then one or more digits
/// whose value fits in a `u64`.
pub open spec fn u64_text(s: Seq<char>) -> bool {
    if s.len() > 0 && s[0] == '+' {
        is_u64_digits(s.drop_first())
    } else {
        is_u64_digits(s)
    }
}

/// The value of a `u64_text`.
pub open spec fn u64_text_value(s: Seq<char>) -> nat {
    if s.len() > 0 && s[0] == '+' {
        decimal(s.drop_first())
    } else {
        decimal(s)
    }
}

/// `oldrel/N` with `N` a positive `u64`.
pub open spec fn numbered_oldrel(s: Seq<char>) -> bool {
    let p = "oldrel/"@;
    &&& p.len() <= s.len()
    &&& s.subrange(0, p.len() as int) == p
    &&& u64_text(s.subrange(p.len() as int, s.len() as int))
    &&& u64_text_value(s.subrange(p.len() as int, s.len() as int)) > 0
}

/// Whether `value` is `oldrel/N` for a positive number `N`.
pub fn is_numbered_oldrel(value: &str) -> (r: bool)
    ensures
        r == numbered_oldrel(value@),
{
    let cs = chars_of(value);
    let n = cs.len();
    let p = chars_of("oldrel/");
    if !range_starts_with(cs.as_slice(), 0, n, "oldrel/") {
        return false;
    }
    let start = p.len();
    let ghost rest = cs@.subrange(start as int, n as int);
    let digits_start = if start < n && cs[start] == '+' { start + 1 } else { start };
    proof {
        if start < n && cs@[start as int] == '+' {
            assert(rest.drop_first() == cs@.subrange(digits_start as int, n as int));
        } else {
            assert(rest == cs@.subrange(digits_start as int, n as int));
        }
    }
    if digits_start == n || !digits_only(cs.as_slice(), digits_start, n) {
        return false;
    }
    match parse_digits(cs.as_slice(), digits_start, n) {
        Some(v) => v > 0,
        None => false,
    }
}


pub open spec fn has_prefix(s: Seq<char>, p: Seq<char>) -> bool {
    p.len() <= s.len() && s.subrange(0, p.len() as int) == p
}

/// The comparison requirement `t` makes with its first `n` characters as
/// the operator `op`.
pub open spec fn comparison_from(t: Seq<char>, n: int, op: VersionOp) -> Result<
    RequirementView,
    SelectionErrorView,
> {
    let raw = trim(t.subrange(n, t.len() as int));
    match parsed_version(raw) {
        Some(v) => Ok(RequirementView::Comparison(op, v, raw)),
        None => Err(SelectionErrorView::UnsupportedVersionSpec(t)),
    }
}

/// What `parse_version_requirement` gives for `req`: the operators `>=`,
/// `<=`, `==`, `>`, `<` are tried in this order on the trimmed text.
pub open spec fn requirement_of(req: Seq<char>) -> Result<RequirementView, SelectionErrorView> {
    let t = trim(req);
    if has_prefix(t, ">="@) {
        comparison_from(t, 2, VersionOp::Gte)
    } else if has_prefix(t, "<="@) {
        comparison_from(t, 2, VersionOp::Lte)
    } else if has_prefix(t, "=="@) {
        comparison_from(t, 2, VersionOp::Eq)
    } else if has_prefix(t, ">"@) {
        comparison_from(t, 1, VersionOp::Gt)
    } else if has_prefix(t, "<"@) {
        comparison_from(t, 1, VersionOp::Lt)
    } else if t.len() == 0 {
        Err(SelectionErrorView::EmptyRequirement)
    } else {
        Ok(RequirementView::Bare(t))
    }
}

fn comparison_exec(cs: &[char], a: usize, b: usize, n: usize, op: VersionOp) -> (r: Result<
    VersionRequirement,
    SelectionError,
>)
    requires
        a <= b <= cs@.len(),
        n <= b - a,
    ensures
        match r {
            Ok(q) => comparison_from(cs@.subrange(a as int, b as int), n as int, op) == Ok::<
                RequirementView,
                SelectionErrorView,
            >(q@),
            Err(e) => comparison_from(cs@.subrange(a as int, b as int), n as int, op) == Err::<
                RequirementView,
                SelectionErrorView,
            >(e@),
        },
{
    let ghost t = cs@.subrange(a as int, b as int);
    let (x, y) = trim_bounds(cs, a + n, b);
    assert(t.subrange(n as int, t.len() as int) == cs@.subrange(a + n, b as int));
    let raw = string_of(cs, x, y);
    match parse_version(raw.as_str()) {
        Some(v) => Ok(VersionRequirement::Comparison { op, version: v, raw }),
        None => Err(SelectionError::UnsupportedVersionSpec(string_of(cs, a, b))),
    }
}

/// Parse an `r-version` requirement.
pub fn parse_version_requirement(req: &str) -> (r: Result<VersionRequirement, SelectionError>)
    ensures
        match r {
            Ok(q) => requirement_of(req@) == Ok::<RequirementView, SelectionErrorView>(q@),
            Err(e) => requirement_of(req@) == Err::<RequirementView, SelectionErrorView>(e@),
        },
{
    let cs = chars_of(req);
    let (a, b) = trim_bounds(cs.as_slice(), 0, cs.len());
    proof {
        assert(cs@.subrange(0, cs@.len() as int) == req@);
    }
    let ghost t = cs@.subrange(a as int, b as int);
    proof {
        reveal_strlit(">=");
        reveal_strlit("<=");
        reveal_strlit("==");
        reveal_strlit(">");
        reveal_strlit("<");
        assert forall|p: Seq<char>| p.len() <= t.len() implies t.subrange(0, p.len() as int)
            == cs@.subrange(a as int, a + p.len()) by {}
    }
    if range_starts_with(cs.as_slice(), a, b, ">=") {
        comparison_exec(cs.as_slice(), a, b, 2, VersionOp::Gte)
    } else if range_starts_with(cs.as_slice(), a, b, "<=") {
        comparison_exec(cs.as_slice(), a, b, 2, VersionOp::Lte)
    } else if range_starts_with(cs.as_slice(), a, b, "==") {
        comparison_exec(cs.as_slice(), a, b, 2, VersionOp::Eq)
    } else if range_starts_with(cs.as_slice(), a, b, ">") {
        comparison_exec(cs.as_slice(), a, b, 1, VersionOp::Gt)
    } else if range_starts_with(cs.as_slice(), a, b, "<") {
        comparison_exec(cs.as_slice(), a, b, 1, VersionOp::Lt)
    } else if a == b {
        Err(SelectionError::EmptyRequirement)
    } else {
        Ok(VersionRequirement::Bare(string_of(cs.as_slice(), a, b)))
    }
}


/// Whether one of `aliases` is `x`.
pub open spec fn has_alias(aliases: Seq<Seq<char>>, x: Seq<char>) -> bool {
    exists|i: int| 0 <= i < aliases.len() && aliases[i] == x
}

/// `s` begins with the parts `p`.
pub open spec fn parts_prefix(s: Seq<u64>, p: Seq<u64>) -> bool {
    p.len() <= s.len() && s.subrange(0, p.len() as int) == p
}

/// Whether a candidate R named `name`, of version `version`, with the given
/// aliases, meets the requirement `req`.
///
/// A bare selector matches the name, the version, an alias, or (when it is
/// numeric) any version it is a dotted prefix of. A comparison needs a
/// numeric candidate version: `==` also matches by name or alias, and `==`
/// with fewer than three parts matches every version that starts with them.
pub open spec fn candidate_matches(
    req: RequirementView,
    name: Seq<char>,
    version: Seq<char>,
    aliases: Seq<Seq<char>>,
) -> bool {
    match req {
        RequirementView::Bare(r) => {
            ||| name == r
            ||| version == r
            ||| has_alias(aliases, r)
            ||| (parsed_version(r) is Some && has_prefix(version, r.push('.')))
        },
        RequirementView::Comparison(op, rv, raw) => match parsed_version(version) {
            None => false,
            Some(c) => {
                ||| (op == VersionOp::Eq && (name == raw || has_alias(aliases, raw)))
                ||| match op {
                    VersionOp::Gt => parts_order(c, rv) > 0,
                    VersionOp::Gte => parts_order(c, rv) >= 0,
                    VersionOp::Lt => parts_order(c, rv) < 0,
                    VersionOp::Lte => parts_order(c, rv) <= 0,
                    VersionOp::Eq => if rv.len() < 3 {
                        parts_prefix(c, rv)
                    } else {
                        parts_order(c, rv) == 0
                    },
                }
            },
        },
    }
}

fn any_alias(aliases: &[String], x: &str) -> (r: bool)
    ensures
        r == has_alias(texts(aliases@), x@),
{
    let mut i: usize = 0;
    while i < aliases.len()
        invariant
            i <= aliases@.len(),
            forall|j: int| 0 <= j < i ==> aliases@[j]@ != x@,
        decreases aliases.len() - i,
    {
        if text_eq(aliases[i].as_str(), x) {
            assert(texts(aliases@)[i as int] == x@);
            return true;
        }
        i = i + 1;
    }
    assert forall|j: int| 0 <= j < texts(aliases@).len() implies texts(aliases@)[j] != x@ by {
        assert(texts(aliases@)[j] == aliases@[j]@);
    }
    false
}

fn parts_starts_with(s: &[u64], p: &[u64]) -> (r: bool)
    ensures
        r == parts_prefix(s@, p@),
{
    if p.len() > s.len() {
        return false;
    }
    let mut i: usize = 0;
    while i < p.len()
        invariant
            p@.len() <= s@.len(),
            i <= p@.len(),
            forall|j: int| 0 <= j < i ==> s@[j] == p@[j],
        decreases p.len() - i,
    {
        if s[i] != p[i] {
            assert(s@.subrange(0, p@.len() as int)[i as int] != p@[i as int]);
            return false;
        }
        i = i + 1;
    }
    assert(s@.subrange(0, p@.len() as int) =~= p@);
    true
}

impl VersionRequirement {
    /// Whether the candidate R named `name`, of version `candidate_version`
    /// and with `aliases`, meets this requirement.
    pub fn matches_candidate(&self, name: &str, candidate_version: &str, aliases: &[String]) -> (r: bool)
        ensures
            r == candidate_matches(self@, name@, candidate_version@, texts(aliases@)),
    {
        match self {
            VersionRequirement::Bare(req) => {
                if text_eq(name, req.as_str()) || text_eq(candidate_version, req.as_str())
                    || any_alias(aliases, req.as_str()) {
                    return true;
                }
                if parse_version(req.as_str()).is_none() {
                    return false;
                }
                let mut dotted = String::from_str(req.as_str());
                dotted.push('.');
                starts_with_str(candidate_version, dotted.as_str())
            },
            VersionRequirement::Comparison { op, version: required_version, raw } => {
                let candidate = match parse_version(candidate_version) {
                    Some(c) => c,
                    None => return false,
                };
                if *op == VersionOp::Eq && (text_eq(name, raw.as_str()) || any_alias(
                    aliases,
                    raw.as_str(),
                )) {
                    return true;
                }
                let o = parts_order_exec(candidate.as_slice(), required_version.as_slice());
                match op {
                    VersionOp::Gt => o > 0,
                    VersionOp::Gte => o >= 0,
                    VersionOp::Lt => o < 0,
                    VersionOp::Lte => o <= 0,
                    VersionOp::Eq => if required_version.len() < 3 {
                        parts_starts_with(candidate.as_slice(), required_version.as_slice())
                    } else {
                        o == 0
                    },
                }
            },
        }
    }

    /// Whether the installed R `installed` meets this requirement.
    pub fn matches_installed(&self, installed: &InstalledR) -> (r: bool)
        ensures
            r == installed_matches(self@, *installed),
    {
        self.matches_candidate(installed.name.as_str(), installed.version.as_str(), installed.aliases.as_slice())
    }
}

/// Whether the installed R `i` meets the requirement `req`.
pub open spec fn installed_matches(req: RequirementView, i: InstalledR) -> bool {
    candidate_matches(req, i.name@, i.version@, texts(i.aliases@))
}


/// Whether the name or the path of an installation mentions `needle`.
pub open spec fn metadata_mentions(i: InstalledR, needle: Seq<char>) -> bool {
    contains_text(i.name@, needle) || (i.path matches Some(p) && contains_text(p@, needle))
}

/// Whether rig's name or path for `installed` contains `needle`.
pub fn rig_metadata_contains(installed: &InstalledR, needle: &str) -> (r: bool)
    ensures
        r == metadata_mentions(*installed, needle@),
{
    contains_str(installed.name.as_str(), needle) || match &installed.path {
        Some(p) => contains_str(p.as_str(), needle),
        None => false,
    }
}

/// How much an installation is preferred among equal versions on an ARM
/// macOS host: native `-arm64` builds first, then unmarked ones, `-x86_64`
/// builds last. On other hosts all rank the same.
pub open spec fn native_preference(i: InstalledR, arm64_macos: bool) -> u8 {
    if !arm64_macos {
        0
    } else if metadata_mentions(i, "-arm64"@) {
        2
    } else if metadata_mentions(i, "-x86_64"@) {
        0
    } else {
        1
    }
}

/// The rank of `installed` among installations of equal version, where
/// `arm64_macos` tells whether this host is macOS on ARM.
pub fn native_macos_r_preference(installed: &InstalledR, arm64_macos: bool) -> (r: u8)
    ensures
        r == native_preference(*installed, arm64_macos),
{
    if !arm64_macos {
        return 0;
    }
    if rig_metadata_contains(installed, "-arm64") {
        return 2;
    }
    if rig_metadata_contains(installed, "-x86_64") {
        return 0;
    }
    1
}

/// The order of two installations (-1, 0 or 1): by version, then the
/// default installation last, then by native preference.
pub open spec fn installed_order(a: InstalledR, b: InstalledR, arm64_macos: bool) -> int {
    let v = versions_order(a.version@, b.version@);
    if v != 0 {
        v
    } else if a.is_default != b.is_default {
        if b.is_default {
            -1
        } else {
            1
        }
    } else if native_preference(a, arm64_macos) < native_preference(b, arm64_macos) {
        -1
    } else if native_preference(a, arm64_macos) > native_preference(b, arm64_macos) {
        1
    } else {
        0
    }
}

fn installed_order_exec(a: &InstalledR, b: &InstalledR, arm64_macos: bool) -> (r: i8)
    ensures
        r == installed_order(*a, *b, arm64_macos),
        -1 <= r <= 1,
{
    let v = versions_order_exec(a.version.as_str(), b.version.as_str());
    if v != 0 {
        return v;
    }
    if a.is_default != b.is_default {
        return if b.is_default { -1 } else { 1 };
    }
    let pa = native_macos_r_preference(a, arm64_macos);
    let pb = native_macos_r_preference(b, arm64_macos);
    if pa < pb {
        -1
    } else if pa > pb {
        1
    } else {
        0
    }
}

/// Compare two installations: by version, then the default installation
/// last, then by native preference on ARM macOS.
pub fn compare_installed_r(a: &InstalledR, b: &InstalledR, arm64_macos: bool) -> (o: Ordering)
    ensures
        ord_value(o) == installed_order(*a, *b, arm64_macos),
{
    order_of_int(installed_order_exec(a, b, arm64_macos))
}

/// The index that `select_installed_r` picks among `s`: the maximum by
/// `installed_order` of the matching installations, taken as
/// `Iterator::max_by` does, so that a later one wins a tie.
pub open spec fn installed_pick(req: RequirementView, s: Seq<InstalledR>, arm64_macos: bool) -> Option<
    int,
>
    decreases s.len(),
{
    if s.len() == 0 {
        None
    } else {
        let prev = installed_pick(req, s.drop_last(), arm64_macos);
        let i = s.len() - 1;
        if !installed_matches(req, s[i]) {
            prev
        } else {
            match prev {
                None => Some(i),
                Some(m) => if installed_order(s[m], s[i], arm64_macos) <= 0 {
                    Some(i)
                } else {
                    Some(m)
                },
            }
        }
    }
}

pub proof fn lemma_installed_pick_bounds(req: RequirementView, s: Seq<InstalledR>, arm64_macos: bool)
    ensures
        installed_pick(req, s, arm64_macos) matches Some(k) ==> 0 <= k < s.len()
            && installed_matches(req, s[k]),
    decreases s.len(),
{
    if s.len() > 0 {
        lemma_installed_pick_bounds(req, s.drop_last(), arm64_macos);
    }
}

/// The installed R that best meets `requirement`.
pub fn select_installed_r<'a>(
    requirement: &VersionRequirement,
    installed: &'a [InstalledR],
    arm64_macos: bool,
) -> (r: Option<&'a InstalledR>)
    ensures
        r is None <==> installed_pick(requirement@, installed@, arm64_macos) is None,
        r matches Some(x) ==> (installed_pick(requirement@, installed@, arm64_macos) matches Some(
            k,
        ) && *x == installed@[k]),
{
    let mut best: Option<usize> = None;
    let mut i: usize = 0;
    while i < installed.len()
        invariant
            i <= installed@.len(),
            best == match installed_pick(requirement@, installed@.take(i as int), arm64_macos) {
                Some(k) => Some(k as usize),
                None => None::<usize>,
            },
            installed_pick(requirement@, installed@.take(i as int), arm64_macos) matches Some(k)
                ==> 0 <= k < i,
        decreases installed.len() - i,
    {
        let ghost t = installed@.take(i as int + 1);
        assert(t.drop_last() == installed@.take(i as int));
        assert(t[i as int] == installed@[i as int]);
        proof {
            lemma_installed_pick_bounds(requirement@, installed@.take(i as int), arm64_macos);
        }
        if requirement.matches_installed(&installed[i]) {
            match best {
                None => {
                    best = Some(i);
                },
                Some(m) => {
                    assert(t[m as int] == installed@[m as int]);
                    if installed_order_exec(&installed[m], &installed[i], arm64_macos) <= 0 {
                        best = Some(i);
                    }
                },
            }
        }
        i = i + 1;
    }
    assert(installed@.take(installed@.len() as int) == installed@);
    match best {
        Some(k) => Some(&installed[k]),
        None => None,
    }
}


/// A release that `select_available_r` considers: not a development
/// snapshot (`devel`, `next`), and meeting `req` by name and version.
pub open spec fn available_eligible(req: RequirementView, a: AvailableR) -> bool {
    a.name@ != "devel"@ && a.name@ != "next"@ && candidate_matches(
        req,
        a.name@,
        a.version@,
        Seq::<Seq<char>>::empty(),
    )
}

/// The index that `select_available_r` picks among `s`: the maximum by
/// version of the eligible releases, taken as `Iterator::max_by` does.
pub open spec fn available_pick(req: RequirementView, s: Seq<AvailableR>) -> Option<int>
    decreases s.len(),
{
    if s.len() == 0 {
        None
    } else {
        let prev = available_pick(req, s.drop_last());
        let i = s.len() - 1;
        if !available_eligible(req, s[i]) {
            prev
        } else {
            match prev {
                None => Some(i),
                Some(m) => if versions_order(s[m].version@, s[i].version@) <= 0 {
                    Some(i)
                } else {
                    Some(m)
                },
            }
        }
    }
}

pub proof fn lemma_available_pick_bounds(req: RequirementView, s: Seq<AvailableR>)
    ensures
        available_pick(req, s) matches Some(k) ==> 0 <= k < s.len() && available_eligible(
            req,
            s[k],
        ),
    decreases s.len(),
{
    if s.len() > 0 {
        lemma_available_pick_bounds(req, s.drop_last());
    }
}

/// The newest release available through rig that meets `requirement`
/// (written `req`), leaving out development snapshots.
pub fn select_available_r<'a>(
    req: &str,
    requirement: &VersionRequirement,
    available: &'a [AvailableR],
) -> (r: Result<&'a AvailableR, SelectionError>)
    ensures
        r is Err <==> available_pick(requirement@, available@) is None,
        r matches Ok(x) ==> (available_pick(requirement@, available@) matches Some(k) && *x
            == available@[k]),
        r matches Err(e) ==> e@ == SelectionErrorView::NoAvailableRelease(req@),
        r matches Ok(x) ==> x.name@ != "devel"@ && x.name@ != "next"@,
{
    let no_aliases: Vec<String> = Vec::new();
    let mut best: Option<usize> = None;
    let mut i: usize = 0;
    while i < available.len()
        invariant
            i <= available@.len(),
            no_aliases@.len() == 0,
            best == match available_pick(requirement@, available@.take(i as int)) {
                Some(k) => Some(k as usize),
                None => None::<usize>,
            },
            available_pick(requirement@, available@.take(i as int)) matches Some(k) ==> 0 <= k < i,
        decreases available.len() - i,
    {
        let ghost t = available@.take(i as int + 1);
        assert(t.drop_last() == available@.take(i as int));
        assert(t[i as int] == available@[i as int]);
        proof {
            lemma_available_pick_bounds(requirement@, available@.take(i as int));
        }
        let candidate = &available[i];
        assert(texts(no_aliases@) =~= Seq::<Seq<char>>::empty());
        let eligible = !text_eq(candidate.name.as_str(), "devel") && !text_eq(
            candidate.name.as_str(),
            "next",
        ) && requirement.matches_candidate(
            candidate.name.as_str(),
            candidate.version.as_str(),
            no_aliases.as_slice(),
        );
        if eligible {
            match best {
                None => {
                    best = Some(i);
                },
                Some(m) => {
                    assert(t[m as int] == available@[m as int]);
                    if versions_order_exec(
                        available[m].version.as_str(),
                        candidate.version.as_str(),
                    ) <= 0 {
                        best = Some(i);
                    }
                },
            }
        }
        i = i + 1;
    }
    assert(available@.take(available@.len() as int) == available@);
    proof {
        lemma_available_pick_bounds(requirement@, available@);
    }
    match best {
        Some(k) => Ok(&available[k]),
        None => Err(SelectionError::NoAvailableRelease(String::from_str(req))),
    }
}

/// How rig should be asked to install R for a requirement.
#[derive(Debug)]
pub enum InstallRequest<'a> {
    /// Install this selector or version as given.
    Direct(&'a str),
    /// Resolve this symbolic selector to a version first.
    Resolve(&'a str),
    /// Pick the newest matching release from rig's available list.
    Available,
}

pub enum InstallRequestView {
    Direct(Seq<char>),
    Resolve(Seq<char>),
    Available,
}

impl<'a> View for InstallRequest<'a> {
    type V = InstallRequestView;

    open spec fn view(&self) -> InstallRequestView {
        match self {
            InstallRequest::Direct(s) => InstallRequestView::Direct(s@),
            InstallRequest::Resolve(s) => InstallRequestView::Resolve(s@),
            InstallRequest::Available => InstallRequestView::Available,
        }
    }
}

/// How `install_request` treats a requirement.
pub open spec fn install_request_of(req: RequirementView) -> Result<
    InstallRequestView,
    SelectionErrorView,
> {
    match req {
        RequirementView::Bare(r) => if parsed_version(r) matches Some(v) && v.len() == 1 {
            Ok(InstallRequestView::Available)
        } else if parsed_version(r) is Some {
            Ok(InstallRequestView::Direct(r))
        } else if r == "release"@ || r == "oldrel"@ {
            Ok(InstallRequestView::Resolve(r))
        } else if numbered_oldrel(r) {
            Ok(InstallRequestView::Resolve(r))
        } else if r == "devel"@ || r == "next"@ {
            Ok(InstallRequestView::Direct(r))
        } else {
            Err(SelectionErrorView::UnsupportedSelector(r))
        },
        RequirementView::Comparison(op, v, raw) => if op == VersionOp::Eq && v.len() > 1 {
            Ok(InstallRequestView::Direct(raw))
        } else {
            Ok(InstallRequestView::Available)
        },
    }
}

/// Decide how rig should install R for `requirement`.
pub fn install_request(requirement: &VersionRequirement) -> (r: Result<
    InstallRequest<'_>,
    SelectionError,
>)
    ensures
        match r {
            Ok(q) => install_request_of(requirement@) == Ok::<
                InstallRequestView,
                SelectionErrorView,
            >(q@),
            Err(e) => install_request_of(requirement@) == Err::<
                InstallRequestView,
                SelectionErrorView,
            >(e@),
        },
{
    match requirement {
        VersionRequirement::Bare(req) => {
            let r = req.as_str();
            match parse_version(r) {
                Some(v) => {
                    if v.len() == 1 {
                        return Ok(InstallRequest::Available);
                    }
                    return Ok(InstallRequest::Direct(r));
                },
                None => {},
            }
            if text_eq(r, "release") || text_eq(r, "oldrel") {
                Ok(InstallRequest::Resolve(r))
            } else if is_numbered_oldrel(r) {
                Ok(InstallRequest::Resolve(r))
            } else if text_eq(r, "devel") || text_eq(r, "next") {
                Ok(InstallRequest::Direct(r))
            } else {
                Err(SelectionError::UnsupportedSelector(String::from_str(r)))
            }
        },
        VersionRequirement::Comparison { op, version, raw } => {
            if *op == VersionOp::Eq && version.len() > 1 {
                Ok(InstallRequest::Direct(raw.as_str()))
            } else {
                Ok(InstallRequest::Available)
            }
        },
    }
}


/// A text whose last character is neither a digit nor `.` is no dotted
/// numeric version: its last part does not end in a digit.
proof fn lemma_letter_ending_is_no_version(s: Seq<char>)
    requires
        s.len() > 0,
        !is_digit(s.last()),
        s.last() != '.',
    ensures
        parsed_version(s) is None,
{
    lemma_split_nonempty(s.drop_last(), '.');
    let p = split(s.drop_last(), '.');
    let q = split(s, '.');
    assert(q == p.update(p.len() - 1, p.last().push(s.last())));
    let k = q.len() - 1;
    assert(q[k] == p.last().push(s.last()));
    assert(q[k][q[k].len() - 1] == s.last());
    assert(!is_u64_digits(q[k]));
}

/// Law: the symbolic release selectors `release`, `oldrel` and `oldrel/N`
/// are installed by resolving that very selector to a version first, and
/// they are the only bare selectors that are.
pub proof fn law_symbolic_selectors_are_resolved(r: Seq<char>)
    ensures
        (r == "release"@ || r == "oldrel"@ || numbered_oldrel(r)) <==> install_request_of(
            RequirementView::Bare(r),
        ) == Ok::<InstallRequestView, SelectionErrorView>(InstallRequestView::Resolve(r)),
        install_request_of(RequirementView::Bare(r)) matches Ok(InstallRequestView::Resolve(t))
            ==> t == r,
{
    reveal_strlit("release");
    reveal_strlit("oldrel");
    if r == "release"@ {
        lemma_letter_ending_is_no_version(r);
    }
    if r == "oldrel"@ {
        lemma_letter_ending_is_no_version(r);
    }
    if numbered_oldrel(r) {
        lemma_numbered_oldrel_is_no_version(r);
    }
}

/// `oldrel/N` is no dotted numeric version: it begins with a letter.
proof fn lemma_numbered_oldrel_is_no_version(r: Seq<char>)
    requires
        numbered_oldrel(r),
    ensures
        parsed_version(r) is None,
{
    reveal_strlit("oldrel/");
    assert(r.subrange(0, 7)[0] == 'o');
    assert(r[0] == 'o');
    lemma_letter_start_is_no_version(r);
}

/// A text that begins with a character other than a digit or `.` is no
/// dotted numeric version: its first part does not begin with a digit.
proof fn lemma_letter_start_is_no_version(s: Seq<char>)
    requires
        s.len() > 0,
        !is_digit(s[0]),
        s[0] != '.',
    ensures
        parsed_version(s) is None,
{
    lemma_split_first_part_starts(s, '.');
    lemma_split_nonempty(s, '.');
    let q = split(s, '.');
    assert(!is_u64_digits(q[0]));
    assert(0 < q.len() && !is_u64_digits(q[0]));
}

/// When `s` does not begin with `sep`, the first part of `split(s, sep)`
/// begins with the first character of `s`.
proof fn lemma_split_first_part_starts(s: Seq<char>, sep: char)
    requires
        s.len() > 0,
        s[0] != sep,
    ensures
        split(s, sep)[0].len() > 0,
        split(s, sep)[0][0] == s[0],
    decreases s.len(),
{
    lemma_split_nonempty(s.drop_last(), sep);
    let p = split(s.drop_last(), sep);
    if s.len() == 1 {
        assert(s.drop_last().len() == 0);
        assert(p == seq![Seq::<char>::empty()]);
    } else {
        lemma_split_first_part_starts(s.drop_last(), sep);
        assert(s.drop_last()[0] == s[0]);
        if s.last() == sep {
            assert(split(s, sep)[0] == p[0]);
        } else if p.len() == 1 {
            assert(split(s, sep)[0] == p[0].push(s.last()));
        } else {
            assert(split(s, sep)[0] == p[0]);
        }
    }
}

/// Law: a bare requirement is met by a candidate whose name, version text
/// or one of whose aliases is exactly the requirement.
pub proof fn law_bare_requirement_matches_exact_text(
    r: Seq<char>,
    name: Seq<char>,
    version: Seq<char>,
    aliases: Seq<Seq<char>>,
)
    ensures
        candidate_matches(RequirementView::Bare(r), name, r, aliases),
        candidate_matches(RequirementView::Bare(r), r, version, aliases),
        has_alias(aliases, r) ==> candidate_matches(RequirementView::Bare(r), name, version, aliases),
{
}

/// Law: the release that rig is asked for is never a development snapshot
/// named `devel` or `next`.
pub proof fn law_available_pick_is_no_snapshot(req: RequirementView, s: Seq<AvailableR>)
    ensures
        available_pick(req, s) matches Some(k) ==> 0 <= k < s.len() && s[k].name@ != "devel"@
            && s[k].name@ != "next"@ && candidate_matches(
            req,
            s[k].name@,
            s[k].version@,
            Seq::<Seq<char>>::empty(),
        ),
{
    lemma_available_pick_bounds(req, s);
}


proof fn lemma_parts_order_step(a: Seq<u64>, b: Seq<u64>, i: int)
    requires
        0 <= i,
    ensures
        parts_order_from(a, b, i) == if part_at(a, i) < part_at(b, i) {
            -1
        } else if part_at(a, i) > part_at(b, i) {
            1
        } else {
            parts_order_from(a, b, i + 1)
        },
{
}

proof fn lemma_parts_order_from_antisymmetric(a: Seq<u64>, b: Seq<u64>, i: int)
    requires
        0 <= i,
    ensures
        parts_order_from(a, b, i) == -parts_order_from(b, a, i),
    decreases max_len(a, b) - i,
{
    if i < max_len(a, b) {
        lemma_parts_order_from_antisymmetric(a, b, i + 1);
    }
}

proof fn lemma_parts_order_from_transitive(a: Seq<u64>, b: Seq<u64>, c: Seq<u64>, i: int)
    requires
        0 <= i,
        parts_order_from(a, b, i) <= 0,
        parts_order_from(b, c, i) <= 0,
    ensures
        parts_order_from(a, c, i) <= 0,
        parts_order_from(a, b, i) < 0 || parts_order_from(b, c, i) < 0 ==> parts_order_from(
            a,
            c,
            i,
        ) < 0,
    decreases a.len() + b.len() + c.len() - i,
{
    lemma_parts_order_step(a, b, i);
    lemma_parts_order_step(b, c, i);
    lemma_parts_order_step(a, c, i);
    if i < max_len(a, b) || i < max_len(b, c) || i < max_len(a, c) {
        if part_at(a, i) == part_at(b, i) && part_at(b, i) == part_at(c, i) {
            lemma_parts_order_from_transitive(a, b, c, i + 1);
        }
    }
}

/// Law: comparing versions by parts is antisymmetric.
pub proof fn law_parts_order_antisymmetric(a: Seq<u64>, b: Seq<u64>)
    ensures
        parts_order(a, b) == -parts_order(b, a),
{
    lemma_parts_order_from_antisymmetric(a, b, 0);
}

/// Law: every version compares equal to itself.
pub proof fn law_parts_order_reflexive(a: Seq<u64>)
    ensures
        parts_order(a, a) == 0,
{
    lemma_parts_order_from_antisymmetric(a, a, 0);
}

/// Law: comparing versions by parts is transitive, for `<=` and for `<`.
pub proof fn law_parts_order_transitive(a: Seq<u64>, b: Seq<u64>, c: Seq<u64>)
    requires
        parts_order(a, b) <= 0,
        parts_order(b, c) <= 0,
    ensures
        parts_order(a, c) <= 0,
        parts_order(a, b) < 0 || parts_order(b, c) < 0 ==> parts_order(a, c) < 0,
{
    lemma_parts_order_from_transitive(a, b, c, 0);
}

proof fn lemma_trailing_zero_from(a: Seq<u64>, i: int)
    requires
        0 <= i,
    ensures
        parts_order_from(a.push(0), a, i) == 0,
    decreases max_len(a.push(0), a) - i,
{
    if i < max_len(a.push(0), a) {
        assert(part_at(a.push(0), i) == part_at(a, i));
        lemma_trailing_zero_from(a, i + 1);
    }
}

/// Law: a trailing zero part does not change a version (`4.3.0` and `4.3`
/// compare equal).
pub proof fn law_parts_order_trailing_zero(a: Seq<u64>)
    ensures
        parts_order(a.push(0), a) == 0,
{
    lemma_trailing_zero_from(a, 0);
}

proof fn lemma_text_order_from_antisymmetric(a: Seq<char>, b: Seq<char>, i: int)
    requires
        0 <= i,
    ensures
        text_order_from(a, b, i) == -text_order_from(b, a, i),
    decreases a.len() + b.len() - 2 * i,
{
    if i < a.len() && i < b.len() && a[i] == b[i] {
        lemma_text_order_from_antisymmetric(a, b, i + 1);
    }
}

/// Comparing version strings is antisymmetric, and every version equals
/// itself, whether the versions are numeric or not.
pub proof fn lemma_versions_order_antisymmetric(a: Seq<char>, b: Seq<char>)
    ensures
        versions_order(a, b) == -versions_order(b, a),
        versions_order(a, a) == 0,
{
    lemma_text_order_from_antisymmetric(a, b, 0);
    lemma_text_order_from_antisymmetric(a, a, 0);
    match (parsed_version(a), parsed_version(b)) {
        (Some(x), Some(y)) => {
            law_parts_order_antisymmetric(x, y);
        },
        _ => {},
    }
    if let Some(x) = parsed_version(a) {
        law_parts_order_reflexive(x);
    }
}

/// The order of installations is antisymmetric and reflexive.
pub proof fn lemma_installed_order_antisymmetric(x: InstalledR, y: InstalledR, arm64_macos: bool)
    ensures
        installed_order(x, y, arm64_macos) == -installed_order(y, x, arm64_macos),
        installed_order(x, x, arm64_macos) == 0,
{
    lemma_versions_order_antisymmetric(x.version@, y.version@);
}

/// Whether the order of installations is transitive over the entries of
/// `s` that meet `req`.
pub open spec fn installed_order_transitive_on(req: RequirementView, s: Seq<InstalledR>, arm64_macos: bool) -> bool {
    forall|x: int, y: int, z: int|
        #![trigger installed_order(s[x], s[y], arm64_macos), installed_order(s[y], s[z], arm64_macos)]
        0 <= x < s.len() && 0 <= y < s.len() && 0 <= z < s.len() && installed_matches(req, s[x])
            && installed_matches(req, s[y]) && installed_matches(req, s[z]) && installed_order(
            s[x],
            s[y],
            arm64_macos,
        ) <= 0 && installed_order(s[y], s[z], arm64_macos) <= 0 ==> installed_order(
            s[x],
            s[z],
            arm64_macos,
        ) <= 0
}

/// Whether an installation has a numeric version.
pub open spec fn numeric_installed(i: InstalledR) -> bool {
    parsed_version(i.version@) is Some
}

/// Numeric versions rank transitively: the selection law holds in
/// particular when every matching installation has a numeric version.
pub proof fn lemma_numeric_installs_rank_transitively(req: RequirementView, s: Seq<InstalledR>, arm64_macos: bool)
    requires
        forall|j: int| 0 <= j < s.len() && installed_matches(req, #[trigger] s[j]) ==> numeric_installed(
            s[j],
        ),
    ensures
        installed_order_transitive_on(req, s, arm64_macos),
{
    assert forall|x: int, y: int, z: int|
        0 <= x < s.len() && 0 <= y < s.len() && 0 <= z < s.len() && installed_matches(req, s[x])
            && installed_matches(req, s[y]) && installed_matches(req, s[z])
            && #[trigger] installed_order(s[x], s[y], arm64_macos) <= 0
            && #[trigger] installed_order(s[y], s[z], arm64_macos) <= 0 implies installed_order(
        s[x],
        s[z],
        arm64_macos,
    ) <= 0 by {
        lemma_installed_order_laws(s[x], s[y], s[z], arm64_macos);
    }
}

proof fn lemma_installed_order_laws(x: InstalledR, y: InstalledR, z: InstalledR, arm64_macos: bool)
    requires
        numeric_installed(x),
        numeric_installed(y),
        numeric_installed(z),
    ensures
        installed_order(x, x, arm64_macos) == 0,
        installed_order(x, y, arm64_macos) == -installed_order(y, x, arm64_macos),
        installed_order(x, y, arm64_macos) <= 0 && installed_order(y, z, arm64_macos) <= 0
            ==> installed_order(x, z, arm64_macos) <= 0,
{
    let px = parsed_version(x.version@).unwrap();
    let py = parsed_version(y.version@).unwrap();
    let pz = parsed_version(z.version@).unwrap();
    law_parts_order_reflexive(px);
    law_parts_order_antisymmetric(px, py);
    if parts_order(px, py) <= 0 && parts_order(py, pz) <= 0 {
        law_parts_order_transitive(px, py, pz);
    }
    if parts_order(px, py) == 0 && parts_order(py, pz) == 0 {
        law_parts_order_transitive(px, py, pz);
        law_parts_order_antisymmetric(py, px);
        law_parts_order_antisymmetric(pz, py);
        law_parts_order_transitive(pz, py, px);
        law_parts_order_antisymmetric(px, pz);
    }
}

proof fn lemma_installed_pick_none(req: RequirementView, s: Seq<InstalledR>, arm64_macos: bool)
    ensures
        installed_pick(req, s, arm64_macos) is None <==> forall|j: int|
            0 <= j < s.len() ==> !installed_matches(req, #[trigger] s[j]),
    decreases s.len(),
{
    if s.len() > 0 {
        lemma_installed_pick_none(req, s.drop_last(), arm64_macos);
        assert forall|j: int| 0 <= j < s.len() - 1 implies s.drop_last()[j] == s[j] by {}
    }
}

/// Law: `select_installed_r` finds nothing exactly when no installation
/// meets the requirement.
pub proof fn law_select_installed_none_iff_no_match(
    req: RequirementView,
    s: Seq<InstalledR>,
    arm64_macos: bool,
)
    ensures
        installed_pick(req, s, arm64_macos) is None <==> forall|j: int|
            0 <= j < s.len() ==> !installed_matches(req, #[trigger] s[j]),
{
    lemma_installed_pick_none(req, s, arm64_macos);
}

/// Law: whenever the ranking of the matching installations is transitive,
/// the one `select_installed_r` picks meets the requirement, no matching
/// installation ranks above it, and every matching installation after it
/// ranks strictly below it (ties go to the last one).
pub proof fn law_select_installed_is_last_maximum(
    req: RequirementView,
    s: Seq<InstalledR>,
    arm64_macos: bool,
)
    requires
        installed_order_transitive_on(req, s, arm64_macos),
    ensures
        installed_pick(req, s, arm64_macos) matches Some(k) ==> {
            &&& 0 <= k < s.len()
            &&& installed_matches(req, s[k])
            &&& forall|j: int|
                0 <= j < s.len() && installed_matches(req, #[trigger] s[j]) ==> installed_order(
                    s[j],
                    s[k],
                    arm64_macos,
                ) <= 0
            &&& forall|j: int|
                k < j < s.len() && installed_matches(req, #[trigger] s[j]) ==> installed_order(
                    s[j],
                    s[k],
                    arm64_macos,
                ) < 0
        },
    decreases s.len(),
{
    lemma_installed_pick_bounds(req, s, arm64_macos);
    if s.len() > 0 {
        let t = s.drop_last();
        let i = s.len() - 1;
        assert forall|j: int| 0 <= j < t.len() implies t[j] == s[j] by {}
        assert(installed_order_transitive_on(req, t, arm64_macos)) by {
            assert forall|x: int, y: int, z: int|
                0 <= x < t.len() && 0 <= y < t.len() && 0 <= z < t.len() && installed_matches(req, t[x])
                    && installed_matches(req, t[y]) && installed_matches(req, t[z])
                    && #[trigger] installed_order(t[x], t[y], arm64_macos) <= 0
                    && #[trigger] installed_order(t[y], t[z], arm64_macos) <= 0 implies installed_order(
                t[x],
                t[z],
                arm64_macos,
            ) <= 0 by {
                assert(t[x] == s[x] && t[y] == s[y] && t[z] == s[z]);
                assert(installed_order(s[x], s[y], arm64_macos) <= 0);
            }
        }
        law_select_installed_is_last_maximum(req, t, arm64_macos);
        lemma_installed_pick_none(req, t, arm64_macos);
        lemma_installed_pick_bounds(req, t, arm64_macos);
        if installed_matches(req, s[i]) {
            match installed_pick(req, t, arm64_macos) {
                None => {
                    assert forall|j: int|
                        0 <= j < s.len() && installed_matches(req, #[trigger] s[j]) implies installed_order(
                        s[j],
                        s[i],
                        arm64_macos,
                    ) <= 0 by {
                        if j < i {
                            assert(!installed_matches(req, t[j]));
                        } else {
                            lemma_installed_order_antisymmetric(s[i], s[i], arm64_macos);
                        }
                    }
                },
                Some(m) => {
                    if installed_order(s[m], s[i], arm64_macos) <= 0 {
                        assert forall|j: int|
                            0 <= j < s.len() && installed_matches(req, #[trigger] s[j]) implies installed_order(
                            s[j],
                            s[i],
                            arm64_macos,
                        ) <= 0 by {
                            if j < i {
                                assert(installed_matches(req, t[j]));
                                assert(installed_order(s[j], s[m], arm64_macos) <= 0);
                                assert(installed_order(s[m], s[i], arm64_macos) <= 0);
                            } else {
                                lemma_installed_order_antisymmetric(s[i], s[i], arm64_macos);
                            }
                        }
                    } else {
                        lemma_installed_order_antisymmetric(s[i], s[m], arm64_macos);
                        assert forall|j: int|
                            0 <= j < s.len() && installed_matches(req, #[trigger] s[j]) implies installed_order(
                            s[j],
                            s[m],
                            arm64_macos,
                        ) <= 0 by {
                            if j < i {
                                assert(installed_matches(req, t[j]));
                            }
                        }
                        assert forall|j: int|
                            m < j < s.len() && installed_matches(req, #[trigger] s[j]) implies installed_order(
                            s[j],
                            s[m],
                            arm64_macos,
                        ) < 0 by {
                            if j < i {
                                assert(installed_matches(req, t[j]));
                            }
                        }
                    }
                },
            }
        } else {
            assert forall|j: int|
                0 <= j < s.len() && installed_matches(req, #[trigger] s[j]) implies j < i by {}
        }
    }
}

/// Whether the order of versions is transitive over the releases of `s`
/// eligible under `req`.
pub open spec fn release_order_transitive_on(req: RequirementView, s: Seq<AvailableR>) -> bool {
    forall|x: int, y: int, z: int|
        #![trigger versions_order(s[x].version@, s[y].version@), versions_order(s[y].version@, s[z].version@)]
        0 <= x < s.len() && 0 <= y < s.len() && 0 <= z < s.len() && available_eligible(req, s[x])
            && available_eligible(req, s[y]) && available_eligible(req, s[z]) && versions_order(
            s[x].version@,
            s[y].version@,
        ) <= 0 && versions_order(s[y].version@, s[z].version@) <= 0 ==> versions_order(
            s[x].version@,
            s[z].version@,
        ) <= 0
}

/// Numeric versions order transitively: the selection law holds in
/// particular when every eligible release has a numeric version.
pub proof fn lemma_numeric_releases_rank_transitively(req: RequirementView, s: Seq<AvailableR>)
    requires
        forall|j: int| 0 <= j < s.len() && available_eligible(req, #[trigger] s[j]) ==> numeric_release(
            s[j],
        ),
    ensures
        release_order_transitive_on(req, s),
{
    assert forall|x: int, y: int, z: int|
        0 <= x < s.len() && 0 <= y < s.len() && 0 <= z < s.len() && available_eligible(req, s[x])
            && available_eligible(req, s[y]) && available_eligible(req, s[z])
            && #[trigger] versions_order(s[x].version@, s[y].version@) <= 0
            && #[trigger] versions_order(s[y].version@, s[z].version@) <= 0 implies versions_order(
        s[x].version@,
        s[z].version@,
    ) <= 0 by {
        lemma_release_order_laws(s[x], s[y], s[z]);
    }
}

/// Whether a release has a numeric version.
pub open spec fn numeric_release(a: AvailableR) -> bool {
    parsed_version(a.version@) is Some
}

proof fn lemma_release_order_laws(x: AvailableR, y: AvailableR, z: AvailableR)
    requires
        numeric_release(x),
        numeric_release(y),
        numeric_release(z),
    ensures
        versions_order(x.version@, x.version@) == 0,
        versions_order(x.version@, y.version@) == -versions_order(y.version@, x.version@),
        versions_order(x.version@, y.version@) <= 0 && versions_order(y.version@, z.version@) <= 0
            ==> versions_order(x.version@, z.version@) <= 0,
{
    let px = parsed_version(x.version@).unwrap();
    let py = parsed_version(y.version@).unwrap();
    let pz = parsed_version(z.version@).unwrap();
    law_parts_order_reflexive(px);
    law_parts_order_antisymmetric(px, py);
    if parts_order(px, py) <= 0 && parts_order(py, pz) <= 0 {
        law_parts_order_transitive(px, py, pz);
    }
}

/// Law: whenever the order of the eligible releases' versions is
/// transitive, the one `select_available_r` picks is eligible, no eligible release has a higher
/// version, and every eligible release after it has a strictly lower one
/// (ties go to the last one).
pub proof fn law_select_available_is_last_maximum(req: RequirementView, s: Seq<AvailableR>)
    requires
        release_order_transitive_on(req, s),
    ensures
        available_pick(req, s) matches Some(k) ==> {
            &&& 0 <= k < s.len()
            &&& available_eligible(req, s[k])
            &&& forall|j: int|
                0 <= j < s.len() && available_eligible(req, #[trigger] s[j]) ==> versions_order(
                    s[j].version@,
                    s[k].version@,
                ) <= 0
            &&& forall|j: int|
                k < j < s.len() && available_eligible(req, #[trigger] s[j]) ==> versions_order(
                    s[j].version@,
                    s[k].version@,
                ) < 0
        },
    decreases s.len(),
{
    lemma_available_pick_bounds(req, s);
    if s.len() > 0 {
        let t = s.drop_last();
        let i = s.len() - 1;
        assert forall|j: int| 0 <= j < t.len() implies t[j] == s[j] by {}
        assert(release_order_transitive_on(req, t)) by {
            assert forall|x: int, y: int, z: int|
                0 <= x < t.len() && 0 <= y < t.len() && 0 <= z < t.len() && available_eligible(req, t[x])
                    && available_eligible(req, t[y]) && available_eligible(req, t[z])
                    && #[trigger] versions_order(t[x].version@, t[y].version@) <= 0
                    && #[trigger] versions_order(t[y].version@, t[z].version@) <= 0 implies versions_order(
                t[x].version@,
                t[z].version@,
            ) <= 0 by {
                assert(t[x] == s[x] && t[y] == s[y] && t[z] == s[z]);
                assert(versions_order(s[x].version@, s[y].version@) <= 0);
            }
        }
        law_select_available_is_last_maximum(req, t);
        lemma_available_pick_bounds(req, t);
        if available_eligible(req, s[i]) {
            match available_pick(req, t) {
                None => {
                    assert forall|j: int|
                        0 <= j < s.len() && available_eligible(req, #[trigger] s[j]) implies versions_order(
                        s[j].version@,
                        s[i].version@,
                    ) <= 0 by {
                        if j < i {
                            lemma_available_pick_none(req, t, j);
                            assert(!available_eligible(req, t[j]));
                        } else {
                            lemma_versions_order_antisymmetric(s[i].version@, s[i].version@);
                        }
                    }
                },
                Some(m) => {
                    if versions_order(s[m].version@, s[i].version@) <= 0 {
                        assert forall|j: int|
                            0 <= j < s.len() && available_eligible(req, #[trigger] s[j]) implies versions_order(
                            s[j].version@,
                            s[i].version@,
                        ) <= 0 by {
                            if j < i {
                                assert(available_eligible(req, t[j]));
                                assert(versions_order(s[j].version@, s[m].version@) <= 0);
                                assert(versions_order(s[m].version@, s[i].version@) <= 0);
                            } else {
                                lemma_versions_order_antisymmetric(s[i].version@, s[i].version@);
                            }
                        }
                    } else {
                        lemma_versions_order_antisymmetric(s[i].version@, s[m].version@);
                        assert forall|j: int|
                            0 <= j < s.len() && available_eligible(req, #[trigger] s[j]) implies versions_order(
                            s[j].version@,
                            s[m].version@,
                        ) <= 0 by {
                            if j < i {
                                assert(available_eligible(req, t[j]));
                            }
                        }
                        assert forall|j: int|
                            m < j < s.len() && available_eligible(req, #[trigger] s[j]) implies versions_order(
                            s[j].version@,
                            s[m].version@,
                        ) < 0 by {
                            if j < i {
                                assert(available_eligible(req, t[j]));
                            }
                        }
                    }
                },
            }
        } else {
            assert forall|j: int|
                0 <= j < s.len() && available_eligible(req, #[trigger] s[j]) implies j < i by {}
        }
    }
}

proof fn lemma_available_pick_none(req: RequirementView, s: Seq<AvailableR>, j: int)
    requires
        available_pick(req, s) is None,
        0 <= j < s.len(),
    ensures
        !available_eligible(req, s[j]),
    decreases s.len(),
{
    let t = s.drop_last();
    if j < s.len() - 1 {
        if available_eligible(req, s[s.len() - 1]) {
            match available_pick(req, t) {
                None => {},
                Some(m) => {},
            }
        }
        assert(t[j] == s[j]);
        lemma_available_pick_none(req, t, j);
    }
}

/// Law: at a version boundary `v`, `>= v` and `< v` split the numeric
/// versions between them, as do `> v` and `<= v`: every candidate with a
/// numeric version meets exactly one of each pair, whatever its name.
pub proof fn law_comparisons_split_at_the_boundary(
    v: Seq<u64>,
    raw: Seq<char>,
    name: Seq<char>,
    version: Seq<char>,
    aliases: Seq<Seq<char>>,
)
    requires
        parsed_version(version) is Some,
    ensures
        candidate_matches(RequirementView::Comparison(VersionOp::Gte, v, raw), name, version, aliases)
            != candidate_matches(RequirementView::Comparison(VersionOp::Lt, v, raw), name, version, aliases),
        candidate_matches(RequirementView::Comparison(VersionOp::Gt, v, raw), name, version, aliases)
            != candidate_matches(RequirementView::Comparison(VersionOp::Lte, v, raw), name, version, aliases),
{
}

} // verus!
