//! Reading back what `ir init` writes: the `#| ` lines it puts in front of
//! a script are exactly the frontmatter lines that a run reads from it.
use vstd::prelude::*;
use vstd::seq_lib::lemma_concat_associative;
use vstd::utf8::{
    encode_scalar, encode_utf8, has_width_1_encoding, has_width_2_encoding, has_width_3_encoding,
    last_continuation_byte, leading_byte_width_1, leading_byte_width_2, leading_byte_width_3,
    leading_byte_width_4, second_last_continuation_byte, third_last_continuation_byte,
};

use crate::init::{hex_digit, initialized_of, json_char, json_chars, json_encoded, package_lines};
use crate::script::{
    bytes_at, fm_prefix, frontmatter_end_from, frontmatter_start_of, frontmatter_text_from, line_end_from,
    script_frontmatter, shebang_end_of, shebang_prefix,
};

verus! {

/// The UTF-8 encoding of a concatenation is the concatenation of the
/// encodings.
pub proof fn lemma_encode_utf8_concat(a: Seq<char>, b: Seq<char>)
    ensures
        encode_utf8(a + b) == encode_utf8(a) + encode_utf8(b),
    decreases a.len(),
{
    if a.len() == 0 {
        assert(a + b =~= b);
    } else {
        lemma_encode_utf8_concat(a.drop_first(), b);
        assert((a + b).drop_first() =~= a.drop_first() + b);
        assert((a + b)[0] == a[0]);
        assert(encode_utf8(a + b) =~= encode_utf8(a) + encode_utf8(b));
    }
}

proof fn lemma_scalar_has_no_line_feed(v: u32)
    requires
        v != 10,
    ensures
        !encode_scalar(v).contains(10u8),
{
    let e = encode_scalar(v);
    if has_width_1_encoding(v) {
        assert(leading_byte_width_1(v) != 10u8) by (bit_vector)
            requires
                v != 10u32,
                v <= 0x7Fu32,
        ;
    } else {
        assert(leading_byte_width_2(v) != 10u8) by (bit_vector);
        assert(leading_byte_width_3(v) != 10u8) by (bit_vector);
        assert(leading_byte_width_4(v) != 10u8) by (bit_vector);
        assert(last_continuation_byte(v) != 10u8) by (bit_vector);
        assert(second_last_continuation_byte(v) != 10u8) by (bit_vector);
        assert(third_last_continuation_byte(v) != 10u8) by (bit_vector);
    }
    assert forall|i: int| 0 <= i < e.len() implies e[i] != 10u8 by {}
}

/// A text without a line feed encodes to bytes without one.
pub proof fn lemma_encode_utf8_no_line_feed(s: Seq<char>)
    requires
        !s.contains('\n'),
    ensures
        !encode_utf8(s).contains(10u8),
    decreases s.len(),
{
    if s.len() > 0 {
        assert(s[0] != '\n');
        assert forall|i: int| 0 <= i < s.drop_first().len() implies s.drop_first()[i] != '\n' by {
            assert(s.drop_first()[i] == s[i + 1]);
        }
        lemma_encode_utf8_no_line_feed(s.drop_first());
        if (s[0] as u32) == 10u32 {
            vstd::utf8::char_u32_cast(s[0], 10u32);
            assert(10u32 as char == '\n');
        }
        lemma_scalar_has_no_line_feed(s[0] as u32);
        let a = encode_scalar(s[0] as u32);
        let b = encode_utf8(s.drop_first());
        assert forall|i: int| 0 <= i < (a + b).len() implies (a + b)[i] != 10u8 by {
            if i < a.len() {
                assert(a.contains(a[i]));
            } else {
                assert(b.contains(b[i - a.len()]));
            }
        }
    }
}

/// An ASCII text encodes to its character codes, one byte each.
pub proof fn lemma_encode_ascii(s: Seq<char>)
    requires
        forall|i: int| 0 <= i < s.len() ==> (#[trigger] s[i] as u32) < 128,
    ensures
        encode_utf8(s) == Seq::new(s.len(), |i: int| (s[i] as u32) as u8),
    decreases s.len(),
{
    if s.len() > 0 {
        let t = s.drop_first();
        assert forall|i: int| 0 <= i < t.len() implies (#[trigger] t[i] as u32) < 128 by {
            assert(t[i] == s[i + 1]);
        }
        lemma_encode_ascii(t);
        let v = s[0] as u32;
        assert(v < 128);
        assert(leading_byte_width_1(v) == v as u8) by (bit_vector)
            requires
                v < 128u32,
        ;
        assert(encode_scalar(v) == seq![v as u8]);
        assert(encode_utf8(s) =~= Seq::new(s.len(), |i: int| (s[i] as u32) as u8));
    } else {
        assert(encode_utf8(s) =~= Seq::new(s.len(), |i: int| (s[i] as u32) as u8));
    }
}

/// A line ending: `\n` or `\r\n`.
pub open spec fn line_ending(newline: Seq<u8>) -> bool {
    newline == seq![10u8] || newline == seq![13u8, 10u8]
}

/// Lines, each behind the `#| ` prefix and followed by `newline`.
pub open spec fn prefixed_block(lines: Seq<Seq<u8>>, newline: Seq<u8>) -> Seq<u8>
    decreases lines.len(),
{
    if lines.len() == 0 {
        Seq::empty()
    } else {
        fm_prefix() + lines[0] + newline + prefixed_block(lines.drop_first(), newline)
    }
}

/// Lines, each followed by `newline`.
pub open spec fn line_text(lines: Seq<Seq<u8>>, newline: Seq<u8>) -> Seq<u8>
    decreases lines.len(),
{
    if lines.len() == 0 {
        Seq::empty()
    } else {
        lines[0] + newline + line_text(lines.drop_first(), newline)
    }
}

/// Lines none of which holds a line feed.
pub open spec fn single_lines(lines: Seq<Seq<u8>>) -> bool {
    forall|n: int| 0 <= n < lines.len() ==> !(#[trigger] lines[n]).contains(10u8)
}

proof fn lemma_line_end_at(c: Seq<u8>, j: int, k: int)
    requires
        0 <= j <= k < c.len(),
        c[k] == 10u8,
        forall|m: int| j <= m < k ==> c[m] != 10u8,
    ensures
        line_end_from(c, j) == k + 1,
    decreases k - j,
{
    if j < k {
        lemma_line_end_at(c, j + 1, k);
    }
}

/// A run of prefixed lines, followed by a line that is not one, is read
/// back as the lines themselves.
pub proof fn lemma_block_reads_back(c: Seq<u8>, i: int, lines: Seq<Seq<u8>>, newline: Seq<u8>)
    requires
        line_ending(newline),
        single_lines(lines),
        0 <= i,
        i + prefixed_block(lines, newline).len() <= c.len(),
        c.subrange(i, i + prefixed_block(lines, newline).len()) == prefixed_block(lines, newline),
        !bytes_at(c, i + prefixed_block(lines, newline).len(), fm_prefix()),
    ensures
        frontmatter_end_from(c, i) == i + prefixed_block(lines, newline).len(),
        frontmatter_text_from(c, i, i + prefixed_block(lines, newline).len()) == line_text(
            lines,
            newline,
        ),
    decreases lines.len(),
{
    let block = prefixed_block(lines, newline);
    let end = i + block.len();
    if lines.len() > 0 {
        let l0 = lines[0];
        let rest = lines.drop_first();
        let rest_block = prefixed_block(rest, newline);
        assert(block == fm_prefix() + l0 + newline + rest_block);
        let head = fm_prefix() + l0 + newline;
        let le = i + head.len();
        assert forall|m: int| 0 <= m < head.len() implies c[i + m] == head[m] by {
            assert(c.subrange(i, end)[m] == block[m]);
        }
        assert forall|n: int| 0 <= n < rest.len() implies !(#[trigger] rest[n]).contains(10u8) by {
            assert(rest[n] == lines[n + 1]);
        }
        assert(!l0.contains(10u8));
        assert forall|m: int| i <= m < le - 1 implies c[m] != 10u8 by {
            let o = m - i;
            assert(c[m] == head[o]);
            if o < 3 {
                assert(head[o] == fm_prefix()[o]);
            } else if o < 3 + l0.len() {
                assert(head[o] == l0[o - 3]);
                if l0[o - 3] == 10u8 {
                    assert(l0.contains(10u8));
                }
            } else {
                assert(head[o] == newline[o - 3 - l0.len()]);
            }
        }
        assert(c[le - 1] == head[head.len() - 1]);
        lemma_line_end_at(c, i, le - 1);
        assert(bytes_at(c, i, fm_prefix())) by {
            assert(c.subrange(i, i + 3) =~= fm_prefix()) by {
                assert forall|m: int| 0 <= m < 3 implies c.subrange(i, i + 3)[m] == fm_prefix()[m] by {
                    assert(c[i + m] == head[m]);
                }
            }
        }
        assert(c.subrange(le, le + rest_block.len()) =~= rest_block) by {
            assert forall|m: int| 0 <= m < rest_block.len() implies c.subrange(le, le + rest_block.len())[m]
                == rest_block[m] by {
                assert(c.subrange(i, end)[head.len() + m] == block[head.len() + m]);
            }
        }
        lemma_block_reads_back(c, le, rest, newline);
        assert(c.subrange(i + 3, le) =~= l0 + newline) by {
            assert forall|m: int| 0 <= m < l0.len() + newline.len() implies c.subrange(i + 3, le)[m]
                == (l0 + newline)[m] by {
                assert(c[i + 3 + m] == head[3 + m]);
            }
        }
    }
}

/// Prefixed blocks concatenate.
pub proof fn lemma_prefixed_block_concat(a: Seq<Seq<u8>>, b: Seq<Seq<u8>>, newline: Seq<u8>)
    ensures
        prefixed_block(a + b, newline) == prefixed_block(a, newline) + prefixed_block(b, newline),
    decreases a.len(),
{
    if a.len() == 0 {
        assert(a + b =~= b);
        assert(prefixed_block(a, newline) + prefixed_block(b, newline) =~= prefixed_block(b, newline));
    } else {
        lemma_prefixed_block_concat(a.drop_first(), b, newline);
        assert((a + b).drop_first() =~= a.drop_first() + b);
        assert((a + b)[0] == a[0]);
        assert(prefixed_block(a + b, newline) =~= prefixed_block(a, newline) + prefixed_block(b, newline));
    }
}

proof fn lemma_prefixed_block_one(x: Seq<u8>, newline: Seq<u8>)
    ensures
        prefixed_block(seq![x], newline) == fm_prefix() + x + newline,
{
    let one = seq![x];
    assert(one.drop_first() =~= Seq::<Seq<u8>>::empty());
    assert(prefixed_block(one.drop_first(), newline) == Seq::<u8>::empty());
    assert(prefixed_block(one, newline) == fm_prefix() + one[0] + newline + prefixed_block(
        one.drop_first(),
        newline,
    ));
    assert(prefixed_block(one, newline) =~= fm_prefix() + x + newline);
}

/// `#| ` encodes to the frontmatter prefix bytes.
proof fn lemma_prefix_bytes()
    ensures
        encode_utf8("#| "@) == fm_prefix(),
{
    reveal_strlit("#| ");
    lemma_encode_ascii("#| "@);
    assert(encode_utf8("#| "@) =~= fm_prefix());
}

/// A text that starts with `#| ` encodes to the prefix bytes, then the
/// rest.
proof fn lemma_prefixed_text(whole: Seq<char>, rest: Seq<char>)
    requires
        whole == "#| "@ + rest,
    ensures
        encode_utf8(whole) == fm_prefix() + encode_utf8(rest),
{
    lemma_prefix_bytes();
    lemma_encode_utf8_concat("#| "@, rest);
}

proof fn lemma_no_line_feed_concat(a: Seq<u8>, b: Seq<u8>)
    requires
        !a.contains(10u8),
        !b.contains(10u8),
    ensures
        !(a + b).contains(10u8),
{
    assert forall|i: int| 0 <= i < (a + b).len() implies (a + b)[i] != 10u8 by {
        if i < a.len() {
            assert(a.contains(a[i]));
        } else {
            assert(b.contains(b[i - a.len()]));
        }
    }
}

/// The frontmatter line of a package ref, without its prefix.
pub open spec fn ref_line(r: Seq<char>) -> Seq<u8> {
    encode_utf8("  - "@) + json_encoded(r)
}

/// The frontmatter lines that `ir init` writes for `refs`, the R version
/// and the `exclude-newer` date, without their `#| ` prefix or ending.
pub open spec fn init_lines_of(refs: Seq<Seq<char>>, r_version: Seq<char>, exclude_newer: Seq<char>) -> Seq<
    Seq<u8>,
> {
    let packages: Seq<Seq<u8>> = if refs.len() == 0 {
        seq![encode_utf8("packages: []"@)]
    } else {
        seq![encode_utf8("packages:"@)] + refs.map_values(|r: Seq<char>| ref_line(r))
    };
    packages + seq![
        encode_utf8("r-version: \""@) + encode_utf8(r_version) + encode_utf8("\""@),
        encode_utf8("isolated: true"@),
        encode_utf8("exclude-newer: \""@) + encode_utf8(exclude_newer) + encode_utf8("\""@),
    ]
}

proof fn lemma_package_lines(refs: Seq<Seq<char>>, newline: Seq<u8>)
    ensures
        package_lines(refs, newline) == prefixed_block(
            refs.map_values(|r: Seq<char>| ref_line(r)),
            newline,
        ),
    decreases refs.len(),
{
    let m = refs.map_values(|r: Seq<char>| ref_line(r));
    if refs.len() == 0 {
        assert(m =~= Seq::<Seq<u8>>::empty());
    } else {
        let d = refs.drop_last();
        lemma_package_lines(d, newline);
        let md = d.map_values(|r: Seq<char>| ref_line(r));
        assert(m =~= md + seq![ref_line(refs.last())]);
        lemma_prefixed_block_concat(md, seq![ref_line(refs.last())], newline);
        lemma_prefixed_block_one(ref_line(refs.last()), newline);
        reveal_strlit("#|   - ");
        reveal_strlit("  - ");
        reveal_strlit("#| ");
        assert("#|   - "@ =~= "#| "@ + "  - "@);
        lemma_prefixed_text("#|   - "@, "  - "@);
        assert(package_lines(refs, newline) =~= prefixed_block(m, newline));
    }
}

proof fn lemma_json_chars_single_line(s: Seq<char>)
    ensures
        !json_chars(s).contains('\n'),
    decreases s.len(),
{
    if s.len() > 0 {
        lemma_json_chars_single_line(s.drop_last());
        let a = json_chars(s.drop_last());
        let b = json_char(s.last());
        let c = s.last();
        if !(c == '"' || c == '\\' || c == '\u{8}' || c == '\t' || c == '\n' || c == '\u{c}' || c == '\r')
            && (c as u32) < 0x20 {
            let hi = (c as u32 / 16) as nat;
            let lo = (c as u32 % 16) as nat;
            assert(hi < 16 && lo < 16);
            assert(hex_digit(hi) != '\n');
            assert(hex_digit(lo) != '\n');
        }
        assert forall|i: int| 0 <= i < b.len() implies b[i] != '\n' by {}
        assert forall|i: int| 0 <= i < (a + b).len() implies (a + b)[i] != '\n' by {
            if i < a.len() {
                assert(a.contains(a[i]));
            }
        }
    }
}

/// A JSON string literal holds no line feed.
pub proof fn lemma_json_single_line(s: Seq<char>)
    ensures
        !json_encoded(s).contains(10u8),
{
    lemma_json_chars_single_line(s);
    let t = seq!['"'] + json_chars(s) + seq!['"'];
    assert forall|i: int| 0 <= i < t.len() implies t[i] != '\n' by {
        if 1 <= i < 1 + json_chars(s).len() {
            assert(t[i] == json_chars(s)[i - 1]);
            assert(json_chars(s).contains(json_chars(s)[i - 1]));
        }
    }
    lemma_encode_utf8_no_line_feed(t);
}

proof fn lemma_text_single_line(s: Seq<char>)
    requires
        forall|i: int| 0 <= i < s.len() ==> s[i] != '\n',
    ensures
        !encode_utf8(s).contains(10u8),
{
    lemma_encode_utf8_no_line_feed(s);
}

proof fn lemma_init_lines_single(refs: Seq<Seq<char>>, r_version: Seq<char>, exclude_newer: Seq<char>)
    requires
        !r_version.contains('\n'),
        !exclude_newer.contains('\n'),
    ensures
        single_lines(init_lines_of(refs, r_version, exclude_newer)),
{
    reveal_strlit("packages: []");
    reveal_strlit("packages:");
    reveal_strlit("r-version: \"");
    reveal_strlit("\"");
    reveal_strlit("isolated: true");
    reveal_strlit("exclude-newer: \"");
    reveal_strlit("  - ");
    lemma_text_single_line("packages: []"@);
    lemma_text_single_line("packages:"@);
    lemma_text_single_line("r-version: \""@);
    lemma_text_single_line("\""@);
    lemma_text_single_line("isolated: true"@);
    lemma_text_single_line("exclude-newer: \""@);
    lemma_text_single_line("  - "@);
    lemma_encode_utf8_no_line_feed(r_version);
    lemma_encode_utf8_no_line_feed(exclude_newer);
    let rv = encode_utf8("r-version: \""@) + encode_utf8(r_version);
    lemma_no_line_feed_concat(encode_utf8("r-version: \""@), encode_utf8(r_version));
    lemma_no_line_feed_concat(rv, encode_utf8("\""@));
    let en = encode_utf8("exclude-newer: \""@) + encode_utf8(exclude_newer);
    lemma_no_line_feed_concat(encode_utf8("exclude-newer: \""@), encode_utf8(exclude_newer));
    lemma_no_line_feed_concat(en, encode_utf8("\""@));
    let lines = init_lines_of(refs, r_version, exclude_newer);
    let m = refs.map_values(|r: Seq<char>| ref_line(r));
    assert forall|k: int| 0 <= k < m.len() implies !(#[trigger] m[k]).contains(10u8) by {
        lemma_json_single_line(refs[k]);
        lemma_no_line_feed_concat(encode_utf8("  - "@), json_encoded(refs[k]));
    }
    assert forall|n: int| 0 <= n < lines.len() implies !(#[trigger] lines[n]).contains(10u8) by {
        if refs.len() > 0 && 1 <= n < 1 + refs.len() {
            assert(lines[n] == m[n - 1]);
        }
    }
}

proof fn lemma_tail_block(r_version: Seq<char>, exclude_newer: Seq<char>, newline: Seq<u8>)
    ensures
        prefixed_block(
            seq![
                encode_utf8("r-version: \""@) + encode_utf8(r_version) + encode_utf8("\""@),
                encode_utf8("isolated: true"@),
                encode_utf8("exclude-newer: \""@) + encode_utf8(exclude_newer) + encode_utf8("\""@),
            ],
            newline,
        ) == encode_utf8("#| r-version: \""@) + encode_utf8(r_version) + encode_utf8("\""@) + newline
            + encode_utf8("#| isolated: true"@) + newline + encode_utf8("#| exclude-newer: \""@)
            + encode_utf8(exclude_newer) + encode_utf8("\""@) + newline,
{
    reveal_strlit("#| ");
    reveal_strlit("#| r-version: \"");
    reveal_strlit("r-version: \"");
    reveal_strlit("#| isolated: true");
    reveal_strlit("isolated: true");
    reveal_strlit("#| exclude-newer: \"");
    reveal_strlit("exclude-newer: \"");
    assert("#| r-version: \""@ =~= "#| "@ + "r-version: \""@);
    lemma_prefixed_text("#| r-version: \""@, "r-version: \""@);
    assert("#| isolated: true"@ =~= "#| "@ + "isolated: true"@);
    lemma_prefixed_text("#| isolated: true"@, "isolated: true"@);
    assert("#| exclude-newer: \""@ =~= "#| "@ + "exclude-newer: \""@);
    lemma_prefixed_text("#| exclude-newer: \""@, "exclude-newer: \""@);
    let l1 = encode_utf8("r-version: \""@) + encode_utf8(r_version) + encode_utf8("\""@);
    let l2 = encode_utf8("isolated: true"@);
    let l3 = encode_utf8("exclude-newer: \""@) + encode_utf8(exclude_newer) + encode_utf8("\""@);
    let three = seq![l1, l2, l3];
    assert(three =~= seq![l1] + (seq![l2] + seq![l3]));
    lemma_prefixed_block_concat(seq![l1], seq![l2] + seq![l3], newline);
    lemma_prefixed_block_concat(seq![l2], seq![l3], newline);
    lemma_prefixed_block_one(l1, newline);
    lemma_prefixed_block_one(l2, newline);
    lemma_prefixed_block_one(l3, newline);
    assert(prefixed_block(three, newline) =~= encode_utf8("#| r-version: \""@) + encode_utf8(r_version)
        + encode_utf8("\""@) + newline + encode_utf8("#| isolated: true"@) + newline + encode_utf8(
        "#| exclude-newer: \""@,
    ) + encode_utf8(exclude_newer) + encode_utf8("\""@) + newline);
}

proof fn lemma_head_block(refs: Seq<Seq<char>>, newline: Seq<u8>)
    ensures
        prefixed_block(
            if refs.len() == 0 {
                seq![encode_utf8("packages: []"@)]
            } else {
                seq![encode_utf8("packages:"@)] + refs.map_values(|r: Seq<char>| ref_line(r))
            },
            newline,
        ) == if refs.len() == 0 {
            encode_utf8("#| packages: []"@) + newline
        } else {
            encode_utf8("#| packages:"@) + newline + package_lines(refs, newline)
        },
{
    reveal_strlit("#| ");
    if refs.len() == 0 {
        reveal_strlit("#| packages: []");
        reveal_strlit("packages: []");
        assert("#| packages: []"@ =~= "#| "@ + "packages: []"@);
        lemma_prefixed_text("#| packages: []"@, "packages: []"@);
        lemma_prefixed_block_one(encode_utf8("packages: []"@), newline);
    } else {
        reveal_strlit("#| packages:");
        reveal_strlit("packages:");
        assert("#| packages:"@ =~= "#| "@ + "packages:"@);
        lemma_prefixed_text("#| packages:"@, "packages:"@);
        let m = refs.map_values(|r: Seq<char>| ref_line(r));
        lemma_prefixed_block_concat(seq![encode_utf8("packages:"@)], m, newline);
        lemma_prefixed_block_one(encode_utf8("packages:"@), newline);
        lemma_package_lines(refs, newline);
        assert(prefixed_block(seq![encode_utf8("packages:"@)] + m, newline) =~= encode_utf8(
            "#| packages:"@,
        ) + newline + package_lines(refs, newline));
    }
}

#[verifier::spinoff_prover]
proof fn lemma_initialized_shape(
    c: Seq<u8>,
    body_start: int,
    refs: Seq<Seq<char>>,
    r_version: Seq<char>,
    exclude_newer: Seq<char>,
    newline: Seq<u8>,
)
    ensures
        initialized_of(c, body_start, refs, r_version, exclude_newer, newline) == encode_utf8(
            "#!/usr/bin/env -S ir run"@,
        ) + newline + prefixed_block(init_lines_of(refs, r_version, exclude_newer), newline) + newline
            + c.subrange(body_start, c.len() as int),
{
    let packages: Seq<Seq<u8>> = if refs.len() == 0 {
        seq![encode_utf8("packages: []"@)]
    } else {
        seq![encode_utf8("packages:"@)] + refs.map_values(|r: Seq<char>| ref_line(r))
    };
    let three = seq![
        encode_utf8("r-version: \""@) + encode_utf8(r_version) + encode_utf8("\""@),
        encode_utf8("isolated: true"@),
        encode_utf8("exclude-newer: \""@) + encode_utf8(exclude_newer) + encode_utf8("\""@),
    ];
    assert(init_lines_of(refs, r_version, exclude_newer) == packages + three);
    lemma_prefixed_block_concat(packages, three, newline);
    lemma_head_block(refs, newline);
    lemma_tail_block(r_version, exclude_newer, newline);
    let head = prefixed_block(packages, newline);
    let r1 = encode_utf8("#| r-version: \""@);
    let rv = encode_utf8(r_version);
    let q = encode_utf8("\""@);
    let iso = encode_utf8("#| isolated: true"@);
    let e1 = encode_utf8("#| exclude-newer: \""@);
    let en = encode_utf8(exclude_newer);
    let p = encode_utf8("#!/usr/bin/env -S ir run"@) + newline + head;
    let body = c.subrange(body_start, c.len() as int);
    let t1 = r1 + rv;
    lemma_concat_associative(p, r1, rv);
    let t2 = t1 + q;
    lemma_concat_associative(p, t1, q);
    let t3 = t2 + newline;
    lemma_concat_associative(p, t2, newline);
    let t4 = t3 + iso;
    lemma_concat_associative(p, t3, iso);
    let t5 = t4 + newline;
    lemma_concat_associative(p, t4, newline);
    let t6 = t5 + e1;
    lemma_concat_associative(p, t5, e1);
    let t7 = t6 + en;
    lemma_concat_associative(p, t6, en);
    let t8 = t7 + q;
    lemma_concat_associative(p, t7, q);
    let t9 = t8 + newline;
    lemma_concat_associative(p, t8, newline);
    assert(prefixed_block(three, newline) == t9);
    assert(initialized_of(c, body_start, refs, r_version, exclude_newer, newline) == p + t9 + newline
        + body);
    lemma_concat_associative(encode_utf8("#!/usr/bin/env -S ir run"@) + newline, head, t9);
}

/// What `ir init` writes is what a run reads: the `#| ` frontmatter read
/// from an initialized script is exactly the lines `ir init` wrote, each
/// without its prefix, whatever the script's body. This holds when the R
/// version and the date are single lines and the line ending is `\n` or
/// `\r\n`; every package ref qualifies, as its JSON string literal holds no
/// line feed.
#[verifier::spinoff_prover]
#[verifier::rlimit(40)]
pub proof fn law_initialized_frontmatter_reads_back(
    c: Seq<u8>,
    body_start: int,
    refs: Seq<Seq<char>>,
    r_version: Seq<char>,
    exclude_newer: Seq<char>,
    newline: Seq<u8>,
)
    requires
        0 <= body_start <= c.len(),
        line_ending(newline),
        !r_version.contains('\n'),
        !exclude_newer.contains('\n'),
    ensures
        script_frontmatter(initialized_of(c, body_start, refs, r_version, exclude_newer, newline))
            == line_text(init_lines_of(refs, r_version, exclude_newer), newline),
{
    let lines = init_lines_of(refs, r_version, exclude_newer);
    let block = prefixed_block(lines, newline);
    let shebang = encode_utf8("#!/usr/bin/env -S ir run"@);
    let out = initialized_of(c, body_start, refs, r_version, exclude_newer, newline);
    lemma_initialized_shape(c, body_start, refs, r_version, exclude_newer, newline);
    let start: int = (shebang.len() + newline.len()) as int;
    assert(frontmatter_start_of(out) == start) by {
        reveal_strlit("#!/usr/bin/env -S ir run");
        lemma_encode_ascii("#!/usr/bin/env -S ir run"@);
        assert forall|m: int| 0 <= m < start - 1 implies out[m] != 10u8 by {
            if m < shebang.len() {
                assert(out[m] == shebang[m]);
            } else {
                assert(out[m] == newline[m - shebang.len()]);
            }
        }
        assert(out[start - 1] == newline[newline.len() - 1]);
        lemma_line_end_at(out, 0, start - 1);
        assert(out.subrange(0, 2) =~= shebang_prefix()) by {
            assert(out[0] == shebang[0]);
            assert(out[1] == shebang[1]);
        }
    }
    lemma_init_lines_single(refs, r_version, exclude_newer);
    assert(out.subrange(start, start + block.len()) =~= block);
    assert(out[start + block.len()] == newline[0]);
    lemma_block_reads_back(out, start, lines, newline);
}

} // verus!
