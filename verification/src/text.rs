//! Character-level helpers shared by the parsers.
use vstd::prelude::*;

verus! {

/// `String::push` appends one character to the end of the string, as the
/// standard library documents.
pub assume_specification[ String::push ](s: &mut String, ch: char)
    ensures
        final(s)@ == old(s)@.push(ch),
;

/// The characters of `s`, in order.
pub fn chars_of(s: &str) -> (v: Vec<char>)
    ensures
        v@ == s@,
{
    let mut v: Vec<char> = Vec::new();
    for c in it: s.chars()
        invariant
            v@ == it.seq().take(it.index()),
            it.seq() == s@,
    {
        v.push(c);
    }
    v
}

/// The string made of the characters `cs[from..to]`.
pub fn string_of(cs: &[char], from: usize, to: usize) -> (s: String)
    requires
        from <= to <= cs@.len(),
    ensures
        s@ == cs@.subrange(from as int, to as int),
{
    let mut s = String::new();
    let mut i = from;
    while i < to
        invariant
            from <= i <= to <= cs@.len(),
            s@ == cs@.subrange(from as int, i as int),
        decreases to - i,
    {
        s.push(cs[i]);
        i = i + 1;
    }
    s
}


/// Unicode `White_Space`, the property `char::is_whitespace` tests.
pub open spec fn is_ws(c: char) -> bool {
    ||| ('\u{9}' <= c && c <= '\u{d}')
    ||| c == ' '
    ||| c == '\u{85}'
    ||| c == '\u{a0}'
    ||| c == '\u{1680}'
    ||| ('\u{2000}' <= c && c <= '\u{200a}')
    ||| c == '\u{2028}'
    ||| c == '\u{2029}'
    ||| c == '\u{202f}'
    ||| c == '\u{205f}'
    ||| c == '\u{3000}'
}

pub fn is_whitespace(c: char) -> (b: bool)
    ensures
        b == is_ws(c),
{
    ('\u{9}' <= c && c <= '\u{d}') || c == ' ' || c == '\u{85}' || c == '\u{a0}' || c == '\u{1680}'
        || ('\u{2000}' <= c && c <= '\u{200a}') || c == '\u{2028}' || c == '\u{2029}'
        || c == '\u{202f}' || c == '\u{205f}' || c == '\u{3000}'
}

/// `s` without its leading whitespace (`str::trim_start`).
pub open spec fn trim_start(s: Seq<char>) -> Seq<char>
    decreases s.len(),
{
    if s.len() > 0 && is_ws(s[0]) {
        trim_start(s.drop_first())
    } else {
        s
    }
}

/// `s` without its trailing whitespace (`str::trim_end`).
pub open spec fn trim_end(s: Seq<char>) -> Seq<char>
    decreases s.len(),
{
    if s.len() > 0 && is_ws(s.last()) {
        trim_end(s.drop_last())
    } else {
        s
    }
}

/// `s` without leading and trailing whitespace (`str::trim`).
pub open spec fn trim(s: Seq<char>) -> Seq<char> {
    trim_end(trim_start(s))
}

proof fn lemma_trim_start_skip(s: Seq<char>, i: int)
    requires
        0 <= i <= s.len(),
        forall|j: int| 0 <= j < i ==> is_ws(#[trigger] s[j]),
    ensures
        trim_start(s) == trim_start(s.subrange(i, s.len() as int)),
    decreases i,
{
    if i > 0 {
        assert(s.drop_first() == s.subrange(1, s.len() as int));
        let t = s.drop_first();
        assert forall|j: int| 0 <= j < i - 1 implies is_ws(#[trigger] t[j]) by {
            assert(t[j] == s[j + 1]);
        }
        lemma_trim_start_skip(t, i - 1);
        assert(t.subrange(i - 1, t.len() as int) == s.subrange(i, s.len() as int));
        assert(is_ws(s[0]));
    } else {
        assert(s.subrange(0, s.len() as int) == s);
    }
}

proof fn lemma_trim_end_skip(s: Seq<char>, i: int)
    requires
        0 <= i <= s.len(),
        forall|j: int| i <= j < s.len() ==> is_ws(#[trigger] s[j]),
    ensures
        trim_end(s) == trim_end(s.subrange(0, i)),
    decreases s.len() - i,
{
    if i < s.len() {
        let t = s.drop_last();
        assert forall|j: int| i <= j < t.len() implies is_ws(#[trigger] t[j]) by {
            assert(t[j] == s[j]);
        }
        lemma_trim_end_skip(t, i);
        assert(t.subrange(0, i) == s.subrange(0, i));
        assert(is_ws(s[s.len() - 1]));
    } else {
        assert(s.subrange(0, i) == s);
    }
}

/// The first index of `cs[from..to]` that is not whitespace, or `to`.
pub fn skip_ws_forward(cs: &[char], from: usize, to: usize) -> (i: usize)
    requires
        from <= to <= cs@.len(),
    ensures
        from <= i <= to,
        trim_start(cs@.subrange(from as int, to as int)) == cs@.subrange(i as int, to as int),
{
    let mut i = from;
    while i < to && is_whitespace(cs[i])
        invariant
            from <= i <= to <= cs@.len(),
            forall|j: int| from <= j < i ==> is_ws(#[trigger] cs@[j]),
        decreases to - i,
    {
        i = i + 1;
    }
    proof {
        let s = cs@.subrange(from as int, to as int);
        assert forall|j: int| 0 <= j < i - from implies is_ws(#[trigger] s[j]) by {
            assert(s[j] == cs@[from + j]);
        }
        lemma_trim_start_skip(s, i - from);
        assert(s.subrange(i - from, s.len() as int) == cs@.subrange(i as int, to as int));
    }
    i
}

/// One past the last index of `cs[from..to]` that is not whitespace, or `from`.
pub fn skip_ws_backward(cs: &[char], from: usize, to: usize) -> (j: usize)
    requires
        from <= to <= cs@.len(),
    ensures
        from <= j <= to,
        trim_end(cs@.subrange(from as int, to as int)) == cs@.subrange(from as int, j as int),
{
    let mut j = to;
    while j > from && is_whitespace(cs[j - 1])
        invariant
            from <= j <= to <= cs@.len(),
            forall|k: int| j <= k < to ==> is_ws(#[trigger] cs@[k]),
        decreases j - from,
    {
        j = j - 1;
    }
    proof {
        let s = cs@.subrange(from as int, to as int);
        assert forall|k: int| j - from <= k < s.len() implies is_ws(#[trigger] s[k]) by {
            assert(s[k] == cs@[from + k]);
        }
        lemma_trim_end_skip(s, j - from);
        assert(s.subrange(0, j - from) == cs@.subrange(from as int, j as int));
    }
    j
}

/// The bounds of `trim(cs[from..to])` within `cs`.
pub fn trim_bounds(cs: &[char], from: usize, to: usize) -> (r: (usize, usize))
    requires
        from <= to <= cs@.len(),
    ensures
        from <= r.0 <= r.1 <= to,
        trim(cs@.subrange(from as int, to as int)) == cs@.subrange(r.0 as int, r.1 as int),
{
    let a = skip_ws_forward(cs, from, to);
    let b = skip_ws_backward(cs, a, to);
    (a, b)
}

/// `str::trim`, as an owned string.
pub fn trimmed(s: &str) -> (r: String)
    ensures
        r@ == trim(s@),
{
    let cs = chars_of(s);
    let (a, b) = trim_bounds(cs.as_slice(), 0, cs.len());
    proof {
        assert(cs@.subrange(0, cs@.len() as int) == s@);
    }
    string_of(cs.as_slice(), a, b)
}


/// The pieces of `s` between occurrences of `sep` (`str::split` with a
/// character pattern): there is always at least one piece, and pieces may
/// be empty.
pub open spec fn split(s: Seq<char>, sep: char) -> Seq<Seq<char>>
    decreases s.len(),
{
    if s.len() == 0 {
        seq![Seq::<char>::empty()]
    } else {
        let p = split(s.drop_last(), sep);
        if s.last() == sep {
            p.push(Seq::<char>::empty())
        } else {
            p.update(p.len() - 1, p.last().push(s.last()))
        }
    }
}

pub proof fn lemma_split_nonempty(s: Seq<char>, sep: char)
    ensures
        split(s, sep).len() >= 1,
    decreases s.len(),
{
    if s.len() > 0 {
        lemma_split_nonempty(s.drop_last(), sep);
    }
}

/// The maximal runs of non-whitespace characters of `s`
/// (`str::split_whitespace`).
pub open spec fn words(s: Seq<char>) -> Seq<Seq<char>>
    decreases s.len(),
{
    if s.len() == 0 {
        Seq::<Seq<char>>::empty()
    } else {
        let p = words(s.drop_last());
        let c = s.last();
        if is_ws(c) {
            p
        } else if s.len() >= 2 && !is_ws(s[s.len() - 2]) {
            p.update(p.len() - 1, p.last().push(c))
        } else {
            p.push(seq![c])
        }
    }
}

/// The substrings of `cs` that the ranges `rs` delimit.
pub open spec fn ranges_view(cs: Seq<char>, rs: Seq<(usize, usize)>) -> Seq<Seq<char>> {
    Seq::new(rs.len(), |k: int| cs.subrange(rs[k].0 as int, rs[k].1 as int))
}

pub open spec fn ranges_within(cs: Seq<char>, rs: Seq<(usize, usize)>) -> bool {
    forall|k: int| 0 <= k < rs.len() ==> #[trigger] rs[k].0 <= rs[k].1 && rs[k].1 <= cs.len()
}

/// The ranges of the pieces of `cs` separated by `sep`.
pub fn split_ranges(cs: &[char], sep: char) -> (rs: Vec<(usize, usize)>)
    ensures
        ranges_within(cs@, rs@),
        ranges_view(cs@, rs@) == split(cs@, sep),
{
    let mut rs: Vec<(usize, usize)> = Vec::new();
    let mut start: usize = 0;
    let mut i: usize = 0;
    assert(cs@.take(0) == Seq::<char>::empty());
    assert(ranges_view(cs@, rs@) == Seq::<Seq<char>>::empty());
    assert(cs@.subrange(0, 0) == Seq::<char>::empty());
    while i < cs.len()
        invariant
            start <= i <= cs@.len(),
            ranges_within(cs@, rs@),
            forall|k: int| 0 <= k < rs@.len() ==> #[trigger] rs@[k].1 <= start,
            ranges_view(cs@, rs@).push(cs@.subrange(start as int, i as int)) == split(
                cs@.take(i as int),
                sep,
            ),
        decreases cs.len() - i,
    {
        let ghost old_rs = rs@;
        let ghost t = cs@.take(i as int + 1);
        assert(t.drop_last() == cs@.take(i as int));
        assert(t.last() == cs@[i as int]);
        if cs[i] == sep {
            rs.push((start, i));
            start = i + 1;
            assert(ranges_view(cs@, rs@) == ranges_view(cs@, old_rs).push(
                cs@.subrange(rs@.last().0 as int, i as int),
            ));
            assert(cs@.subrange(start as int, i as int + 1) == Seq::<char>::empty());
        } else {
            assert(cs@.subrange(start as int, i as int + 1) == cs@.subrange(
                start as int,
                i as int,
            ).push(cs@[i as int]));
        }
        i = i + 1;
    }
    rs.push((start, i));
    assert(cs@.take(cs@.len() as int) == cs@);
    rs
}

/// The ranges of the words of `cs` (`str::split_whitespace`).
#[verifier::spinoff_prover]
pub fn word_ranges(cs: &[char]) -> (rs: Vec<(usize, usize)>)
    ensures
        ranges_within(cs@, rs@),
        ranges_view(cs@, rs@) == words(cs@),
{
    let mut rs: Vec<(usize, usize)> = Vec::new();
    let mut i: usize = 0;
    assert(cs@.take(0) == Seq::<char>::empty());
    assert(ranges_view(cs@, rs@) == Seq::<Seq<char>>::empty());
    while i < cs.len()
        invariant
            i <= cs@.len(),
            ranges_within(cs@, rs@),
            ranges_view(cs@, rs@) == words(cs@.take(i as int)),
            i > 0 && !is_ws(cs@[i - 1]) ==> rs@.len() > 0 && rs@.last().1 == i,
        decreases cs.len() - i,
    {
        let ghost old_rs = rs@;
        let ghost t = cs@.take(i as int + 1);
        assert(t.drop_last() == cs@.take(i as int));
        assert(t.last() == cs@[i as int]);
        let c = cs[i];
        if is_whitespace(c) {
        } else if i > 0 && !is_whitespace(cs[i - 1]) {
            assert(t[t.len() - 2] == cs@[i - 1]);
            let last = rs.len() - 1;
            let (a, _) = rs[last];
            assert(old_rs[last as int].0 <= old_rs[last as int].1);
            assert(a == old_rs[last as int].0);
            rs.set(last, (a, i + 1));
            assert forall|k: int| 0 <= k < rs@.len() implies #[trigger] rs@[k].0 <= rs@[k].1
                && rs@[k].1 <= cs@.len() by {
                if k != last {
                    assert(rs@[k] == old_rs[k]);
                } else {
                    assert(old_rs.last().1 == i);
                    assert(rs@[k].0 == a && rs@[k].1 == i + 1);
                }
            }
            assert(cs@.subrange(a as int, i + 1) == cs@.subrange(a as int, i as int).push(c));
            assert(ranges_view(cs@, rs@) =~= ranges_view(cs@, old_rs).update(
                last as int,
                ranges_view(cs@, old_rs).last().push(c),
            ));
        } else {
            rs.push((i, i + 1));
            assert(cs@.subrange(i as int, i as int + 1) == seq![c]);
            assert(ranges_view(cs@, rs@) =~= ranges_view(cs@, old_rs).push(seq![c]));
        }
        i = i + 1;
    }
    assert(cs@.take(cs@.len() as int) == cs@);
    rs
}


/// `l` without one trailing carriage return.
pub open spec fn strip_cr(l: Seq<char>) -> Seq<char> {
    if l.len() > 0 && l.last() == '\r' {
        l.drop_last()
    } else {
        l
    }
}

/// The lines of `s` (`str::lines`): split at `\n`, a `\r` directly before a
/// `\n` removed, and no final empty line after a trailing `\n`.
pub open spec fn lines(s: Seq<char>) -> Seq<Seq<char>> {
    let p = split(s, '\n');
    let n = if p.last().len() == 0 {
        p.len() - 1
    } else {
        p.len() as int
    };
    Seq::new(
        n as nat,
        |i: int|
            if i + 1 < p.len() {
                strip_cr(p[i])
            } else {
                p[i]
            },
    )
}

/// The ranges of the lines of `cs` (`str::lines`).
pub fn line_ranges(cs: &[char]) -> (rs: Vec<(usize, usize)>)
    ensures
        ranges_within(cs@, rs@),
        ranges_view(cs@, rs@) == lines(cs@),
{
    let pieces = split_ranges(cs, '\n');
    proof {
        lemma_split_nonempty(cs@, '\n');
    }
    let ghost p = split(cs@, '\n');
    let last = pieces[pieces.len() - 1];
    assert(cs@.subrange(last.0 as int, last.1 as int) == p.last());
    let n = if last.0 == last.1 {
        pieces.len() - 1
    } else {
        pieces.len()
    };
    let mut rs: Vec<(usize, usize)> = Vec::new();
    let mut k: usize = 0;
    while k < n
        invariant
            k <= n <= pieces@.len(),
            n == lines(cs@).len(),
            ranges_within(cs@, pieces@),
            ranges_view(cs@, pieces@) == p,
            p == split(cs@, '\n'),
            rs@.len() == k,
            ranges_within(cs@, rs@),
            forall|j: int| 0 <= j < k ==> #[trigger] ranges_view(cs@, rs@)[j] == lines(cs@)[j],
        decreases n - k,
    {
        let (a, b) = pieces[k];
        let ghost old_rs = rs@;
        assert(cs@.subrange(a as int, b as int) == p[k as int]);
        if k + 1 < pieces.len() && b > a && cs[b - 1] == '\r' {
            assert(cs@.subrange(a as int, b - 1) == p[k as int].drop_last());
            rs.push((a, b - 1));
        } else {
            rs.push((a, b));
        }
        assert(ranges_view(cs@, rs@)[k as int] == lines(cs@)[k as int]);
        assert forall|j: int| 0 <= j < k implies #[trigger] ranges_view(cs@, rs@)[j]
            == ranges_view(cs@, old_rs)[j] by {
            assert(rs@[j] == old_rs[j]);
        }
        k = k + 1;
    }
    assert(ranges_view(cs@, rs@) =~= lines(cs@));
    rs
}

/// Whether `cs[a..b]` spells `lit`.
pub fn range_eq(cs: &[char], a: usize, b: usize, lit: &str) -> (r: bool)
    requires
        a <= b <= cs@.len(),
    ensures
        r == (cs@.subrange(a as int, b as int) == lit@),
{
    let l = chars_of(lit);
    if b - a != l.len() {
        assert(cs@.subrange(a as int, b as int).len() != l@.len());
        return false;
    }
    let mut i: usize = 0;
    while i < l.len()
        invariant
            b - a == l@.len(),
            l@ == lit@,
            a <= b <= cs@.len(),
            i <= l@.len(),
            forall|j: int| 0 <= j < i ==> cs@[a + j] == l@[j],
        decreases l.len() - i,
    {
        if cs[a + i] != l[i] {
            assert(cs@.subrange(a as int, b as int)[i as int] != l@[i as int]);
            return false;
        }
        i = i + 1;
    }
    assert(cs@.subrange(a as int, b as int) =~= l@);
    true
}

/// Whether `cs[a..b]` starts with `lit`.
pub fn range_starts_with(cs: &[char], a: usize, b: usize, lit: &str) -> (r: bool)
    requires
        a <= b <= cs@.len(),
    ensures
        r == (lit@.len() <= b - a && cs@.subrange(a as int, a + lit@.len()) == lit@),
{
    let l = chars_of(lit);
    if b - a < l.len() {
        return false;
    }
    range_eq(cs, a, a + l.len(), lit)
}


/// Whether `n` occurs in `h` at position `i`.
pub open spec fn occurs_at(h: Seq<char>, n: Seq<char>, i: int) -> bool {
    0 <= i && i + n.len() <= h.len() && h.subrange(i, i + n.len()) == n
}

/// Whether `n` occurs anywhere in `h` (`str::contains`).
pub open spec fn contains_text(h: Seq<char>, n: Seq<char>) -> bool {
    exists|i: int| occurs_at(h, n, i)
}

fn occurs_at_exec(h: &[char], n: &[char], i: usize) -> (r: bool)
    requires
        i + n@.len() <= h@.len(),
        h@.len() <= usize::MAX,
    ensures
        r == occurs_at(h@, n@, i as int),
{
    let mut j: usize = 0;
    while j < n.len()
        invariant
            i + n@.len() <= h@.len(),
            h@.len() <= usize::MAX,
            j <= n@.len(),
            forall|k: int| 0 <= k < j ==> h@[i + k] == n@[k],
        decreases n.len() - j,
    {
        if h[i + j] != n[j] {
            assert(h@.subrange(i as int, i + n@.len())[j as int] != n@[j as int]);
            return false;
        }
        j = j + 1;
    }
    assert(h@.subrange(i as int, i + n@.len()) =~= n@);
    true
}

/// Whether `needle` occurs in `hay`.
pub fn contains_str(hay: &str, needle: &str) -> (r: bool)
    ensures
        r == contains_text(hay@, needle@),
{
    let h = chars_of(hay);
    let n = chars_of(needle);
    if n.len() > h.len() {
        assert forall|i: int| !occurs_at(h@, n@, i) by {}
        return false;
    }
    if n.len() == 0 {
        assert(h@.subrange(0, 0) =~= n@);
        assert(occurs_at(h@, n@, 0));
        return true;
    }
    let mut i: usize = 0;
    let last = h.len() - n.len();
    while i <= last
        invariant
            0 < n@.len() <= h@.len() <= usize::MAX,
            last == h@.len() - n@.len(),
            i <= last + 1,
            h@ == hay@,
            n@ == needle@,
            forall|k: int| 0 <= k < i ==> !occurs_at(h@, n@, k),
        decreases last + 1 - i,
    {
        if occurs_at_exec(h.as_slice(), n.as_slice(), i) {
            return true;
        }
        i = i + 1;
    }
    assert forall|k: int| !occurs_at(h@, n@, k) by {
        if 0 <= k && k + n@.len() <= h@.len() {
            assert(k < i);
        }
    }
    false
}

/// Whether two texts are equal.
pub fn text_eq(a: &str, b: &str) -> (r: bool)
    ensures
        r == (a@ == b@),
{
    let x = chars_of(a);
    let y = chars_of(b);
    if x.len() != y.len() {
        assert(x@.len() != y@.len());
        return false;
    }
    let r = occurs_at_exec(x.as_slice(), y.as_slice(), 0);
    assert(x@.subrange(0, y@.len() as int) == x@);
    r
}

/// Whether `s` starts with `p`.
pub fn starts_with_str(s: &str, p: &str) -> (r: bool)
    ensures
        r == (p@.len() <= s@.len() && s@.subrange(0, p@.len() as int) == p@),
{
    let x = chars_of(s);
    let y = chars_of(p);
    if y.len() > x.len() {
        return false;
    }
    occurs_at_exec(x.as_slice(), y.as_slice(), 0)
}


/// `s` with the prefix `p` removed, when it starts with `p`
/// (`str::strip_prefix`).
pub open spec fn strip_prefix_text(s: Seq<char>, p: Seq<char>) -> Option<Seq<char>> {
    if p.len() <= s.len() && s.subrange(0, p.len() as int) == p {
        Some(s.subrange(p.len() as int, s.len() as int))
    } else {
        None
    }
}

/// `s` with the prefix `p` removed, when it starts with `p`.
pub fn strip_prefix_str(s: &str, p: &str) -> (r: Option<String>)
    ensures
        match r {
            Some(t) => strip_prefix_text(s@, p@) == Some(t@),
            None => strip_prefix_text(s@, p@) is None,
        },
{
    let x = chars_of(s);
    let y = chars_of(p);
    if y.len() > x.len() {
        return None;
    }
    if occurs_at_exec(x.as_slice(), y.as_slice(), 0) {
        Some(string_of(x.as_slice(), y.len(), x.len()))
    } else {
        None
    }
}


/// The code of `c` after ASCII lowercasing.
pub open spec fn lower_code(c: char) -> u32 {
    if 'A' <= c && c <= 'Z' {
        ((c as u32) + 32) as u32
    } else {
        c as u32
    }
}

/// Whether `a` and `b` are equal ignoring ASCII case
/// (`str::eq_ignore_ascii_case`).
pub open spec fn eq_ignore_case(a: Seq<char>, b: Seq<char>) -> bool {
    a.len() == b.len() && forall|i: int| 0 <= i < a.len() ==> lower_code(#[trigger] a[i]) == lower_code(
        b[i],
    )
}

fn lower_code_exec(c: char) -> (r: u32)
    ensures
        r == lower_code(c),
{
    if 'A' <= c && c <= 'Z' {
        (c as u32) + 32
    } else {
        c as u32
    }
}

/// Whether `a` and `b` are equal ignoring ASCII case.
pub fn eq_ignore_ascii_case_str(a: &str, b: &str) -> (r: bool)
    ensures
        r == eq_ignore_case(a@, b@),
{
    let x = chars_of(a);
    let y = chars_of(b);
    if x.len() != y.len() {
        return false;
    }
    let mut i: usize = 0;
    while i < x.len()
        invariant
            x@.len() == y@.len(),
            x@ == a@,
            y@ == b@,
            i <= x@.len(),
            forall|j: int| 0 <= j < i ==> lower_code(#[trigger] x@[j]) == lower_code(y@[j]),
        decreases x.len() - i,
    {
        if lower_code_exec(x[i]) != lower_code_exec(y[i]) {
            return false;
        }
        i = i + 1;
    }
    true
}

/// The decimal digits of `n`.
pub open spec fn decimal_text(n: nat) -> Seq<char>
    decreases n,
{
    if n < 10 {
        seq![digit_char(n)]
    } else {
        decimal_text(n / 10).push(digit_char(n % 10))
    }
}

/// The decimal digit for `d` (below ten).
pub open spec fn digit_char(d: nat) -> char {
    if d == 0 {
        '0'
    } else if d == 1 {
        '1'
    } else if d == 2 {
        '2'
    } else if d == 3 {
        '3'
    } else if d == 4 {
        '4'
    } else if d == 5 {
        '5'
    } else if d == 6 {
        '6'
    } else if d == 7 {
        '7'
    } else if d == 8 {
        '8'
    } else {
        '9'
    }
}

fn push_digit(s: &mut String, d: u128)
    requires
        d < 10,
    ensures
        final(s)@ == old(s)@.push(digit_char(d as nat)),
{
    let c = if d == 0 {
        '0'
    } else if d == 1 {
        '1'
    } else if d == 2 {
        '2'
    } else if d == 3 {
        '3'
    } else if d == 4 {
        '4'
    } else if d == 5 {
        '5'
    } else if d == 6 {
        '6'
    } else if d == 7 {
        '7'
    } else if d == 8 {
        '8'
    } else {
        '9'
    };
    s.push(c);
}

/// `n` written in decimal.
pub fn decimal_string(n: u128) -> (s: String)
    ensures
        s@ == decimal_text(n as nat),
    decreases n,
{
    if n < 10 {
        let mut s = String::new();
        push_digit(&mut s, n);
        s
    } else {
        let mut s = decimal_string(n / 10);
        push_digit(&mut s, n % 10);
        s
    }
}

/// Trimming never lengthens a text.
pub proof fn lemma_trim_shortens(s: Seq<char>)
    ensures
        trim_start(s).len() <= s.len(),
        trim_end(s).len() <= s.len(),
    decreases s.len(),
{
    if s.len() > 0 {
        lemma_trim_shortens(s.drop_first());
        lemma_trim_shortens(s.drop_last());
    }
}

/// A text that trimming leaves as it is has no whitespace at either end.
pub proof fn lemma_trimmed_ends(s: Seq<char>)
    requires
        trim(s) == s,
        s.len() > 0,
    ensures
        !is_ws(s[0]),
        !is_ws(s.last()),
        trim_start(s) == s,
        trim_end(s) == s,
{
    lemma_trim_shortens(s);
    lemma_trim_shortens(trim_start(s));
    if is_ws(s[0]) {
        lemma_trim_shortens(s.drop_first());
        assert(trim_start(s).len() < s.len());
    }
    assert(trim_start(s) == s);
    if is_ws(s.last()) {
        lemma_trim_shortens(s.drop_last());
        assert(trim_end(s).len() < s.len());
    }
}

} // verus!
