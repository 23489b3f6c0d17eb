//! Script and Quarto frontmatter: locating the YAML block and reading the
//! runtime requirements it declares.
use vstd::prelude::*;

use saphyr::LoadableYamlNode;

use vstd::utf8::{decode_utf8, valid_utf8};

use crate::rig::rig_client::texts;
use crate::paths::{extension_of, path_extension};
use crate::script::{r_script_spec_of, read_r_script_spec, utf8_text};
use crate::text::{
    eq_ignore_ascii_case_str, eq_ignore_case,
    chars_of, line_ranges, lines, range_eq, ranges_view, ranges_within, skip_ws_backward, string_of,
    trim, trim_bounds, trim_end, word_ranges, words,
};

verus! {

/// `s` without one leading byte order mark.
pub open spec fn without_bom(s: Seq<char>) -> Seq<char> {
    if s.len() > 0 && s[0] == '\u{feff}' {
        s.drop_first()
    } else {
        s
    }
}

/// A line that opens a YAML metadata block.
pub open spec fn is_open_fence(l: Seq<char>) -> bool {
    trim_end(l) == "---"@
}

/// A line that closes a YAML metadata block.
pub open spec fn is_close_fence(l: Seq<char>) -> bool {
    trim_end(l) == "---"@ || trim_end(l) == "..."@
}

/// The block text from line `i` of `ls` up to the first closing fence, each
/// line followed by `\n`; `None` when no closing fence follows.
pub open spec fn block_from(ls: Seq<Seq<char>>, i: int) -> Option<Seq<char>>
    decreases ls.len() - i,
{
    if i < 0 || i >= ls.len() {
        None
    } else if is_close_fence(ls[i]) {
        Some(Seq::<char>::empty())
    } else {
        match block_from(ls, i + 1) {
            Some(b) => Some(ls[i] + seq!['\n'] + b),
            None => None,
        }
    }
}

/// The inner text of the leading `---`-fenced YAML block of `content`, or
/// the empty text when the first line is no opening fence or no closing
/// `---`/`...` line follows.
pub open spec fn yaml_block(content: Seq<char>) -> Seq<char> {
    let ls = lines(without_bom(content));
    if ls.len() > 0 && is_open_fence(ls[0]) {
        match block_from(ls, 1) {
            Some(b) => b,
            None => Seq::<char>::empty(),
        }
    } else {
        Seq::<char>::empty()
    }
}

/// A byte order mark in front of a document does not change its metadata
/// block: the block of `\u{feff}` followed by `content` is that of
/// `content`, for any `content` that does not itself open with one.
pub proof fn law_yaml_block_ignores_bom(content: Seq<char>)
    requires
        !(content.len() > 0 && content[0] == '\u{feff}'),
    ensures
        yaml_block(seq!['\u{feff}'] + content) == yaml_block(content),
{
    let marked = seq!['\u{feff}'] + content;
    assert(marked[0] == '\u{feff}');
    assert(marked.drop_first() =~= content);
    assert(without_bom(marked) == content);
    assert(without_bom(content) == content);
}

fn is_fence_range(cs: &[char], a: usize, b: usize, closing: bool) -> (r: bool)
    requires
        a <= b <= cs@.len(),
    ensures
        r == if closing {
            is_close_fence(cs@.subrange(a as int, b as int))
        } else {
            is_open_fence(cs@.subrange(a as int, b as int))
        },
{
    let e = skip_ws_backward(cs, a, b);
    range_eq(cs, a, e, "---") || (closing && range_eq(cs, a, e, "..."))
}

/// Extract the leading YAML metadata block delimited by `---` fences,
/// returning the inner text.
pub fn extract_yaml_block(content: &str) -> (block: String)
    ensures
        block@ == yaml_block(content@),
{
    let all = chars_of(content);
    let start: usize = if all.len() > 0 && all[0] == '\u{feff}' { 1 } else { 0 };
    let mut cs: Vec<char> = Vec::new();
    let mut i = start;
    while i < all.len()
        invariant
            start <= i <= all@.len(),
            cs@ == all@.subrange(start as int, i as int),
        decreases all.len() - i,
    {
        cs.push(all[i]);
        i = i + 1;
    }
    assert(cs@ == without_bom(content@));
    let ls = line_ranges(cs.as_slice());
    let ghost lsv = lines(cs@);
    if ls.len() == 0 || !is_fence_range(cs.as_slice(), ls[0].0, ls[0].1, false) {
        return String::new();
    }
    let mut block = String::new();
    let mut k: usize = 1;
    while k < ls.len()
        invariant
            1 <= k <= ls@.len(),
            ranges_within(cs@, ls@),
            ranges_view(cs@, ls@) == lsv,
            lsv.len() > 0 && is_open_fence(lsv[0]),
            yaml_block(content@) == match block_from(lsv, 1) {
                Some(b) => b,
                None => Seq::<char>::empty(),
            },
            forall|b: Seq<char>| block_from(lsv, k as int) == Some(b) ==> block_from(lsv, 1)
                == Some(block@ + b),
            block_from(lsv, k as int) is None ==> block_from(lsv, 1) is None,
        decreases ls.len() - k,
    {
        let (a, b) = ls[k];
        assert(cs@.subrange(a as int, b as int) == lsv[k as int]);
        if is_fence_range(cs.as_slice(), a, b, true) {
            assert(block@ + Seq::<char>::empty() == block@);
            return block;
        }
        let ghost old_block = block@;
        let mut j = a;
        while j < b
            invariant
                a <= j <= b <= cs@.len(),
                block@ == old_block + cs@.subrange(a as int, j as int),
            decreases b - j,
        {
            block.push(cs[j]);
            assert(cs@.subrange(a as int, j + 1) == cs@.subrange(a as int, j as int).push(cs@[j as int]));
            j = j + 1;
        }
        block.push('\n');
        assert forall|r: Seq<char>| block_from(lsv, k + 1) == Some(r) implies block_from(lsv, 1)
            == Some(block@ + r) by {
            assert(block_from(lsv, k as int) == Some(lsv[k as int] + seq!['\n'] + r));
            assert(old_block + (lsv[k as int] + seq!['\n'] + r) =~= block@ + r);
        }
        k = k + 1;
    }
    String::new()
}


/// A YAML node, as far as frontmatter reading looks into it: null, a
/// boolean, a string scalar, a sequence, a mapping (each key by its string
/// value, where it is a string), or anything else.
#[derive(Debug)]
pub enum YamlNode {
    Null,
    Bool(bool),
    Text(String),
    Sequence(Vec<YamlNode>),
    Mapping(Vec<(Option<String>, YamlNode)>),
    Other,
}

/// `saphyr::Yaml`, the YAML parser's node type.
#[verifier::external_type_specification]
#[verifier::external_body]
pub struct ExYaml<'a>(saphyr::Yaml<'a>);

/// The documents that `saphyr` reads from `text`, or the message of its
/// scan error.
pub uninterp spec fn yaml_load(text: Seq<char>) -> Result<Seq<YamlNode>, Seq<char>>;

/// Part of the conversion of `load_yaml_documents`'s result, recursive and
/// so written apart: a `saphyr` node becomes a `YamlNode`, one variant for
/// one: a `Null`, `Boolean` or `String` scalar, a sequence, a mapping whose
/// keys keep what `Yaml::as_str` gives; every other node becomes `Other`.
#[verifier::external_body]
fn yaml_node_from(node: &saphyr::Yaml<'_>) -> YamlNode {
    match node {
        saphyr::Yaml::Value(saphyr::Scalar::Null) => YamlNode::Null,
        saphyr::Yaml::Value(saphyr::Scalar::Boolean(b)) => YamlNode::Bool(*b),
        saphyr::Yaml::Value(saphyr::Scalar::String(s)) => YamlNode::Text(s.to_string()),
        saphyr::Yaml::Sequence(items) => YamlNode::Sequence(items.iter().map(yaml_node_from).collect()),
        saphyr::Yaml::Mapping(entries) => YamlNode::Mapping(
            entries.iter().map(|(k, v)| (k.as_str().map(str::to_string), yaml_node_from(v))).collect(),
        ),
        _ => YamlNode::Other,
    }
}

/// `saphyr::Yaml::load_from_str`: the YAML documents of `text`, or the
/// scan error's message. Claimed: the result is `yaml_load` of the text,
/// that is, it depends on the text alone.
#[verifier::external_body]
fn load_yaml_documents(text: &str) -> (r: Result<Vec<YamlNode>, String>)
    ensures
        match r {
            Ok(docs) => yaml_load(text@) == Ok::<Seq<YamlNode>, Seq<char>>(docs@),
            Err(e) => yaml_load(text@) == Err::<Seq<YamlNode>, Seq<char>>(e@),
        },
{
    match saphyr::Yaml::load_from_str(text) {
        Ok(docs) => Ok(docs.iter().map(yaml_node_from).collect()),
        Err(e) => Err(e.to_string()),
    }
}


/// The runtime requirements a script or document declares.
#[derive(Debug)]
pub struct ScriptSpec {
    pub dependencies: Vec<String>,
    pub exclude_newer: Option<String>,
    pub r_requirement: Option<String>,
    /// Whether the run leaves the user library out.
    pub isolated: bool,
}

pub struct ScriptSpecView {
    pub dependencies: Seq<Seq<char>>,
    pub exclude_newer: Option<Seq<char>>,
    pub r_requirement: Option<Seq<char>>,
    pub isolated: bool,
}

pub open spec fn opt_text(o: Option<String>) -> Option<Seq<char>> {
    match o {
        Some(s) => Some(s@),
        None => None,
    }
}

impl View for ScriptSpec {
    type V = ScriptSpecView;

    open spec fn view(&self) -> ScriptSpecView {
        ScriptSpecView {
            dependencies: texts(self.dependencies@),
            exclude_newer: opt_text(self.exclude_newer),
            r_requirement: opt_text(self.r_requirement),
            isolated: self.isolated,
        }
    }
}

/// The spec of a file that declares nothing.
pub open spec fn empty_spec() -> ScriptSpecView {
    ScriptSpecView {
        dependencies: Seq::empty(),
        exclude_newer: None,
        r_requirement: None,
        isolated: false,
    }
}

impl ScriptSpec {
    /// A spec with no dependencies, date or R requirement.
    pub fn empty() -> (s: ScriptSpec)
        ensures
            s@ == empty_spec(),
    {
        let s = ScriptSpec {
            dependencies: Vec::new(),
            exclude_newer: None,
            r_requirement: None,
            isolated: false,
        };
        assert(s@.dependencies =~= Seq::<Seq<char>>::empty());
        s
    }
}

/// Why frontmatter could not be read.
#[derive(Debug)]
pub enum FrontmatterError {
    /// The YAML parser's message.
    Yaml(String),
    DocumentCount,
    NotMapping,
    IrNotMapping,
    /// The list key (`packages` or `dependencies`) with an entry that is not
    /// a string.
    EntryNotString(String),
    /// The key whose value is not a string.
    FieldNotString(String),
    /// The key whose value is not a boolean.
    FieldNotBoolean(String),
    InvalidUtf8,
}

pub enum FrontmatterErrorView {
    Yaml(Seq<char>),
    DocumentCount,
    NotMapping,
    IrNotMapping,
    EntryNotString(Seq<char>),
    FieldNotString(Seq<char>),
    FieldNotBoolean(Seq<char>),
    InvalidUtf8,
}

impl View for FrontmatterError {
    type V = FrontmatterErrorView;

    open spec fn view(&self) -> FrontmatterErrorView {
        match self {
            FrontmatterError::Yaml(m) => FrontmatterErrorView::Yaml(m@),
            FrontmatterError::DocumentCount => FrontmatterErrorView::DocumentCount,
            FrontmatterError::NotMapping => FrontmatterErrorView::NotMapping,
            FrontmatterError::IrNotMapping => FrontmatterErrorView::IrNotMapping,
            FrontmatterError::EntryNotString(k) => FrontmatterErrorView::EntryNotString(k@),
            FrontmatterError::FieldNotString(k) => FrontmatterErrorView::FieldNotString(k@),
            FrontmatterError::FieldNotBoolean(k) => FrontmatterErrorView::FieldNotBoolean(k@),
            FrontmatterError::InvalidUtf8 => FrontmatterErrorView::InvalidUtf8,
        }
    }
}

/// The message that a `FrontmatterError` is reported with.
pub open spec fn frontmatter_message(e: FrontmatterErrorView) -> Seq<char> {
    match e {
        FrontmatterErrorView::Yaml(m) => "could not parse script frontmatter as YAML: "@ + m,
        FrontmatterErrorView::DocumentCount => "script frontmatter must contain exactly one YAML document"@,
        FrontmatterErrorView::NotMapping => "script frontmatter must be a YAML mapping"@,
        FrontmatterErrorView::IrNotMapping => "frontmatter `ir` must be a YAML mapping"@,
        FrontmatterErrorView::EntryNotString(k) => "frontmatter `"@ + k + "` entries must be strings"@,
        FrontmatterErrorView::FieldNotString(k) => "frontmatter `"@ + k + "` must be a string"@,
        FrontmatterErrorView::FieldNotBoolean(k) => "frontmatter `"@ + k + "` must be a boolean"@,
        FrontmatterErrorView::InvalidUtf8 => "stream did not contain valid UTF-8"@,
    }
}

impl FrontmatterError {
    /// The message this error is reported with.
    pub fn message(&self) -> (m: String)
        ensures
            m@ == frontmatter_message(self@),
    {
        match self {
            FrontmatterError::Yaml(e) => {
                let mut m = String::from_str("could not parse script frontmatter as YAML: ");
                m.append(e.as_str());
                m
            },
            FrontmatterError::DocumentCount => String::from_str(
                "script frontmatter must contain exactly one YAML document",
            ),
            FrontmatterError::NotMapping => String::from_str("script frontmatter must be a YAML mapping"),
            FrontmatterError::IrNotMapping => String::from_str("frontmatter `ir` must be a YAML mapping"),
            FrontmatterError::EntryNotString(k) => {
                let mut m = String::from_str("frontmatter `");
                m.append(k.as_str());
                m.append("` entries must be strings");
                m
            },
            FrontmatterError::FieldNotString(k) => {
                let mut m = String::from_str("frontmatter `");
                m.append(k.as_str());
                m.append("` must be a string");
                m
            },
            FrontmatterError::FieldNotBoolean(k) => {
                let mut m = String::from_str("frontmatter `");
                m.append(k.as_str());
                m.append("` must be a boolean");
                m
            },
            FrontmatterError::InvalidUtf8 => String::from_str("stream did not contain valid UTF-8"),
        }
    }
}

/// The value of the first entry of `es`, from index `i` on, whose key is
/// the string `key`.
pub open spec fn entry_lookup(es: Seq<(Option<String>, YamlNode)>, key: Seq<char>, i: int) -> Option<
    YamlNode,
>
    decreases es.len() - i,
{
    if i < 0 || i >= es.len() {
        None
    } else if es[i].0 matches Some(k) && k@ == key {
        Some(es[i].1)
    } else {
        entry_lookup(es, key, i + 1)
    }
}

/// The value under the string key `key` when `node` is a mapping
/// (`Yaml::as_mapping_get`).
pub open spec fn mapping_get(node: YamlNode, key: Seq<char>) -> Option<YamlNode> {
    match node {
        YamlNode::Mapping(es) => entry_lookup(es@, key, 0),
        _ => None,
    }
}

/// The value under the string key `key` when `node` is a mapping.
pub fn as_mapping_get<'a>(node: &'a YamlNode, key: &str) -> (r: Option<&'a YamlNode>)
    ensures
        match r {
            Some(v) => mapping_get(*node, key@) == Some(*v),
            None => mapping_get(*node, key@) is None,
        },
{
    match node {
        YamlNode::Mapping(es) => {
            let mut i: usize = 0;
            while i < es.len()
                invariant
                    i <= es@.len(),
                    mapping_get(*node, key@) == entry_lookup(es@, key@, i as int),
                    *node == YamlNode::Mapping(*es),
                decreases es.len() - i,
            {
                let (k, v) = &es[i];
                match k {
                    Some(k) => {
                        if crate::text::text_eq(k.as_str(), key) {
                            return Some(v);
                        }
                    },
                    None => {},
                }
                i = i + 1;
            }
            None
        },
        _ => None,
    }
}

/// The words of a string node (`str::split_whitespace`), or `None` when the
/// node is not a string.
pub open spec fn node_words(node: YamlNode) -> Option<Seq<Seq<char>>> {
    match node {
        YamlNode::Text(s) => Some(words(s@)),
        _ => None,
    }
}

/// The dependency words of the items of a list under `key`, in order; the
/// first item that is not a string is an error.
pub open spec fn sequence_words(items: Seq<YamlNode>, key: Seq<char>) -> Result<
    Seq<Seq<char>>,
    FrontmatterErrorView,
>
    decreases items.len(),
{
    if items.len() == 0 {
        Ok(Seq::empty())
    } else {
        match sequence_words(items.drop_last(), key) {
            Err(e) => Err(e),
            Ok(ws) => match node_words(items.last()) {
                None => Err(FrontmatterErrorView::EntryNotString(key)),
                Some(w) => Ok(ws + w),
            },
        }
    }
}

/// The words a list key of a spec node declares: those of its string, or
/// of each string in its sequence.
pub open spec fn listed_words(node: YamlNode, key: Seq<char>) -> Result<
    Seq<Seq<char>>,
    FrontmatterErrorView,
> {
    match mapping_get(node, key) {
        None => Ok(Seq::empty()),
        Some(v) => match v {
            YamlNode::Null => Ok(Seq::empty()),
            YamlNode::Sequence(items) => sequence_words(items@, key),
            _ => match node_words(v) {
                Some(w) => Ok(w),
                None => Err(FrontmatterErrorView::EntryNotString(key)),
            },
        },
    }
}

/// The dependencies a spec node declares: those listed under `packages`,
/// then those listed under `dependencies`.
pub open spec fn dependencies_of(node: YamlNode) -> Result<Seq<Seq<char>>, FrontmatterErrorView> {
    match listed_words(node, "packages"@) {
        Err(e) => Err(e),
        Ok(p) => match listed_words(node, "dependencies"@) {
            Err(e) => Err(e),
            Ok(d) => Ok(p + d),
        },
    }
}

/// Whether the run is isolated: the boolean under `isolated`; absent and
/// null mean not isolated, and any other value is an error.
pub open spec fn isolated_of(node: YamlNode) -> Result<bool, FrontmatterErrorView> {
    match mapping_get(node, "isolated"@) {
        None => Ok(false),
        Some(YamlNode::Null) => Ok(false),
        Some(YamlNode::Bool(b)) => Ok(b),
        Some(_) => Err(FrontmatterErrorView::FieldNotBoolean("isolated"@)),
    }
}

/// The trimmed string under `key`; absent, null and blank values give
/// `None`, and any other non-string value is an error.
pub open spec fn optional_string_of(node: YamlNode, key: Seq<char>) -> Result<
    Option<Seq<char>>,
    FrontmatterErrorView,
> {
    match mapping_get(node, key) {
        None => Ok(None),
        Some(YamlNode::Null) => Ok(None),
        Some(YamlNode::Text(s)) => if trim(s@).len() == 0 {
            Ok(None)
        } else {
            Ok(Some(trim(s@)))
        },
        Some(_) => Err(FrontmatterErrorView::FieldNotString(key)),
    }
}

/// The spec that a spec node declares.
pub open spec fn spec_of_node(node: YamlNode) -> Result<ScriptSpecView, FrontmatterErrorView> {
    match dependencies_of(node) {
        Err(e) => Err(e),
        Ok(d) => match optional_string_of(node, "exclude-newer"@) {
            Err(e) => Err(e),
            Ok(x) => match optional_string_of(node, "r-version"@) {
                Err(e) => Err(e),
                Ok(r) => match isolated_of(node) {
                    Err(e) => Err(e),
                    Ok(i) => Ok(
                        ScriptSpecView {
                            dependencies: d,
                            exclude_newer: x,
                            r_requirement: r,
                            isolated: i,
                        },
                    ),
                },
            },
        },
    }
}

/// The spec that parsed frontmatter declares: the single document itself
/// for scripts, its `ir` mapping for Quarto documents (`nested`).
pub open spec fn spec_of_documents(docs: Seq<YamlNode>, nested: bool) -> Result<
    ScriptSpecView,
    FrontmatterErrorView,
> {
    if docs.len() != 1 {
        Err(FrontmatterErrorView::DocumentCount)
    } else {
        let doc = docs[0];
        if doc is Null {
            Ok(empty_spec())
        } else if !(doc is Mapping) {
            Err(FrontmatterErrorView::NotMapping)
        } else if nested {
            match mapping_get(doc, "ir"@) {
                None => Ok(empty_spec()),
                Some(YamlNode::Null) => Ok(empty_spec()),
                Some(n) => if n is Mapping {
                    spec_of_node(n)
                } else {
                    Err(FrontmatterErrorView::IrNotMapping)
                },
            }
        } else {
            spec_of_node(doc)
        }
    }
}

/// What `parse_frontmatter` gives: blank frontmatter declares nothing;
/// otherwise the YAML is read and interpreted.
pub open spec fn frontmatter_of(text: Seq<char>, nested: bool) -> Result<
    ScriptSpecView,
    FrontmatterErrorView,
> {
    if trim(text).len() == 0 {
        Ok(empty_spec())
    } else {
        match yaml_load(text) {
            Err(m) => Err(FrontmatterErrorView::Yaml(m)),
            Ok(docs) => spec_of_documents(docs, nested),
        }
    }
}

/// Append the words of the string `value`, an entry of the list `key`, to
/// `dependencies`.
pub fn push_dependency_words(dependencies: &mut Vec<String>, value: &YamlNode, key: &str) -> (r:
    Result<(), FrontmatterError>)
    ensures
        match node_words(*value) {
            Some(w) => r is Ok && texts(final(dependencies)@) == texts(old(dependencies)@) + w,
            None => r matches Err(e) && e@ == FrontmatterErrorView::EntryNotString(key@)
                && final(dependencies)@ == old(dependencies)@,
        },
{
    match value {
        YamlNode::Text(s) => {
            let cs = chars_of(s.as_str());
            let rs = word_ranges(cs.as_slice());
            let ghost start = texts(dependencies@);
            let mut k: usize = 0;
            while k < rs.len()
                invariant
                    k <= rs@.len(),
                    ranges_within(cs@, rs@),
                    ranges_view(cs@, rs@) == words(s@),
                    cs@ == s@,
                    texts(dependencies@) == start + words(s@).subrange(0, k as int),
                decreases rs.len() - k,
            {
                let (a, b) = rs[k];
                assert(cs@.subrange(a as int, b as int) == words(s@)[k as int]);
                let ghost before = dependencies@;
                dependencies.push(string_of(cs.as_slice(), a, b));
                assert(texts(dependencies@) =~= texts(before).push(words(s@)[k as int]));
                assert(words(s@).subrange(0, k + 1) =~= words(s@).subrange(0, k as int).push(
                    words(s@)[k as int],
                ));
                k = k + 1;
            }
            assert(words(s@).subrange(0, rs@.len() as int) == words(s@));
            Ok(())
        },
        _ => Err(FrontmatterError::EntryNotString(String::from_str(key))),
    }
}

/// The dependencies that a spec node declares.
pub fn frontmatter_dependencies(doc: &YamlNode) -> (r: Result<Vec<String>, FrontmatterError>)
    ensures
        match r {
            Ok(d) => dependencies_of(*doc) == Ok::<Seq<Seq<char>>, FrontmatterErrorView>(texts(d@)),
            Err(e) => dependencies_of(*doc) == Err::<Seq<Seq<char>>, FrontmatterErrorView>(e@),
        },
{
    let mut packages = frontmatter_list(doc, "packages")?;
    let listed = frontmatter_list(doc, "dependencies")?;
    let ghost p = texts(packages@);
    let mut i: usize = 0;
    while i < listed.len()
        invariant
            i <= listed@.len(),
            texts(packages@) == p + texts(listed@).take(i as int),
        decreases listed.len() - i,
    {
        let ghost before = packages@;
        packages.push(listed[i].clone());
        assert(texts(packages@) =~= texts(before).push(listed@[i as int]@));
        assert(texts(listed@).take(i + 1) =~= texts(listed@).take(i as int).push(listed@[i as int]@));
        i = i + 1;
    }
    assert(texts(listed@).take(listed@.len() as int) =~= texts(listed@));
    Ok(packages)
}

/// The words that the list key `key` of a spec node declares.
pub fn frontmatter_list(doc: &YamlNode, key: &str) -> (r: Result<Vec<String>, FrontmatterError>)
    ensures
        match r {
            Ok(d) => listed_words(*doc, key@) == Ok::<Seq<Seq<char>>, FrontmatterErrorView>(texts(d@)),
            Err(e) => listed_words(*doc, key@) == Err::<Seq<Seq<char>>, FrontmatterErrorView>(e@),
        },
{
    let mut dependencies: Vec<String> = Vec::new();
    assert(texts(dependencies@) =~= Seq::<Seq<char>>::empty());
    let value = match as_mapping_get(doc, key) {
        Some(v) => v,
        None => return Ok(dependencies),
    };
    match value {
        YamlNode::Null => Ok(dependencies),
        YamlNode::Sequence(items) => {
            let mut i: usize = 0;
            assert(items@.take(0) == Seq::<YamlNode>::empty());
            while i < items.len()
                invariant
                    i <= items@.len(),
                    mapping_get(*doc, key@) == Some(*value),
                    *value == YamlNode::Sequence(*items),
                    sequence_words(items@.take(i as int), key@) == Ok::<
                        Seq<Seq<char>>,
                        FrontmatterErrorView,
                    >(texts(dependencies@)),
                decreases items.len() - i,
            {
                let ghost t = items@.take(i as int + 1);
                assert(t.drop_last() == items@.take(i as int));
                assert(t.last() == items@[i as int]);
                match push_dependency_words(&mut dependencies, &items[i], key) {
                    Ok(()) => {},
                    Err(e) => {
                        proof {
                            lemma_sequence_words_prefix_error(items@, i as int + 1, key@);
                        }
                        return Err(e);
                    },
                }
                i = i + 1;
            }
            assert(items@.take(items@.len() as int) == items@);
            Ok(dependencies)
        },
        _ => {
            match push_dependency_words(&mut dependencies, value, key) {
                Ok(()) => {
                    assert(Seq::<Seq<char>>::empty() + node_words(*value).unwrap() == node_words(
                        *value,
                    ).unwrap());
                    Ok(dependencies)
                },
                Err(e) => Err(e),
            }
        },
    }
}

proof fn lemma_sequence_words_prefix_error(items: Seq<YamlNode>, n: int, key: Seq<char>)
    requires
        0 <= n <= items.len(),
        sequence_words(items.take(n), key) is Err,
    ensures
        sequence_words(items, key) == sequence_words(items.take(n), key),
    decreases items.len() - n,
{
    if n < items.len() {
        assert(items.drop_last().take(n) == items.take(n));
        lemma_sequence_words_prefix_error(items.drop_last(), n, key);
    } else {
        assert(items.take(n) == items);
    }
}

/// The trimmed string under `key`, if any.
pub fn frontmatter_optional_string(doc: &YamlNode, key: &str) -> (r: Result<
    Option<String>,
    FrontmatterError,
>)
    ensures
        match r {
            Ok(v) => optional_string_of(*doc, key@) == Ok::<Option<Seq<char>>, FrontmatterErrorView>(
                opt_text(v),
            ),
            Err(e) => optional_string_of(*doc, key@) == Err::<
                Option<Seq<char>>,
                FrontmatterErrorView,
            >(e@),
        },
{
    let value = match as_mapping_get(doc, key) {
        Some(v) => v,
        None => return Ok(None),
    };
    match value {
        YamlNode::Null => Ok(None),
        YamlNode::Text(s) => {
            let cs = chars_of(s.as_str());
            let (a, b) = trim_bounds(cs.as_slice(), 0, cs.len());
            assert(cs@.subrange(0, cs@.len() as int) == s@);
            if a == b {
                Ok(None)
            } else {
                Ok(Some(string_of(cs.as_slice(), a, b)))
            }
        },
        _ => Err(FrontmatterError::FieldNotString(String::from_str(key))),
    }
}

fn spec_from_node(node: &YamlNode) -> (r: Result<ScriptSpec, FrontmatterError>)
    ensures
        match r {
            Ok(v) => spec_of_node(*node) == Ok::<ScriptSpecView, FrontmatterErrorView>(v@),
            Err(e) => spec_of_node(*node) == Err::<ScriptSpecView, FrontmatterErrorView>(e@),
        },
{
    let dependencies = match frontmatter_dependencies(node) {
        Ok(d) => d,
        Err(e) => return Err(e),
    };
    let exclude_newer = match frontmatter_optional_string(node, "exclude-newer") {
        Ok(x) => x,
        Err(e) => return Err(e),
    };
    let r_requirement = match frontmatter_optional_string(node, "r-version") {
        Ok(x) => x,
        Err(e) => return Err(e),
    };
    let isolated = frontmatter_isolated(node)?;
    Ok(ScriptSpec { dependencies, exclude_newer, r_requirement, isolated })
}

/// Whether a spec node asks for an isolated run.
pub fn frontmatter_isolated(doc: &YamlNode) -> (r: Result<bool, FrontmatterError>)
    ensures
        match r {
            Ok(b) => isolated_of(*doc) == Ok::<bool, FrontmatterErrorView>(b),
            Err(e) => isolated_of(*doc) == Err::<bool, FrontmatterErrorView>(e@),
        },
{
    match as_mapping_get(doc, "isolated") {
        None => Ok(false),
        Some(YamlNode::Null) => Ok(false),
        Some(YamlNode::Bool(b)) => Ok(*b),
        Some(_) => {
            proof {
                reveal_strlit("isolated");
            }
            Err(FrontmatterError::FieldNotBoolean(String::from_str("isolated")))
        },
    }
}

/// Interpret parsed frontmatter documents: the single document itself for
/// scripts, its `ir` mapping for Quarto documents (`nested`).
pub fn spec_from_documents(docs: &Vec<YamlNode>, nested: bool) -> (r: Result<
    ScriptSpec,
    FrontmatterError,
>)
    ensures
        match r {
            Ok(v) => spec_of_documents(docs@, nested) == Ok::<ScriptSpecView, FrontmatterErrorView>(
                v@,
            ),
            Err(e) => spec_of_documents(docs@, nested) == Err::<
                ScriptSpecView,
                FrontmatterErrorView,
            >(e@),
        },
{
    if docs.len() != 1 {
        return Err(FrontmatterError::DocumentCount);
    }
    let doc = &docs[0];
    match doc {
        YamlNode::Null => return Ok(ScriptSpec::empty()),
        YamlNode::Mapping(_) => {},
        _ => return Err(FrontmatterError::NotMapping),
    }
    if nested {
        match as_mapping_get(doc, "ir") {
            None => Ok(ScriptSpec::empty()),
            Some(n) => match n {
                YamlNode::Null => Ok(ScriptSpec::empty()),
                YamlNode::Mapping(_) => spec_from_node(n),
                _ => Err(FrontmatterError::IrNotMapping),
            },
        }
    } else {
        spec_from_node(doc)
    }
}

/// Parse frontmatter YAML into the spec it declares; for Quarto documents
/// (`nested`) the spec lives under the `ir` key.
pub fn parse_frontmatter(frontmatter: &str, nested: bool) -> (r: Result<
    ScriptSpec,
    FrontmatterError,
>)
    ensures
        match r {
            Ok(v) => frontmatter_of(frontmatter@, nested) == Ok::<
                ScriptSpecView,
                FrontmatterErrorView,
            >(v@),
            Err(e) => frontmatter_of(frontmatter@, nested) == Err::<
                ScriptSpecView,
                FrontmatterErrorView,
            >(e@),
        },
{
    let cs = chars_of(frontmatter);
    let (a, b) = trim_bounds(cs.as_slice(), 0, cs.len());
    assert(cs@.subrange(0, cs@.len() as int) == frontmatter@);
    if a == b {
        return Ok(ScriptSpec::empty());
    }
    match load_yaml_documents(frontmatter) {
        Err(m) => Err(FrontmatterError::Yaml(m)),
        Ok(docs) => spec_from_documents(&docs, nested),
    }
}


/// What `read_script_spec` gives for a file's bytes: a Quarto document must
/// be UTF-8 throughout and declares its spec under `ir` in its leading YAML
/// block; an R script declares it in its `#| ` lines.
pub open spec fn script_spec_of(c: Seq<u8>, quarto: bool) -> Result<
    ScriptSpecView,
    FrontmatterErrorView,
> {
    if quarto {
        if !valid_utf8(c) {
            Err(FrontmatterErrorView::InvalidUtf8)
        } else {
            frontmatter_of(yaml_block(decode_utf8(c)), true)
        }
    } else {
        r_script_spec_of(c)
    }
}

/// Read the spec a script or Quarto document declares, given its bytes.
pub fn read_script_spec(contents: &[u8], quarto: bool) -> (r: Result<ScriptSpec, FrontmatterError>)
    ensures
        match r {
            Ok(v) => script_spec_of(contents@, quarto) == Ok::<ScriptSpecView, FrontmatterErrorView>(
                v@,
            ),
            Err(e) => script_spec_of(contents@, quarto) == Err::<
                ScriptSpecView,
                FrontmatterErrorView,
            >(e@),
        },
{
    if quarto {
        match utf8_text(contents) {
            Some(text) => {
                let block = extract_yaml_block(text.as_str());
                parse_frontmatter(block.as_str(), true)
            },
            None => Err(FrontmatterError::InvalidUtf8),
        }
    } else {
        read_r_script_spec(contents)
    }
}


/// A Quarto document: a `.qmd` or `.Rmd` extension, in any ASCII case.
pub open spec fn quarto_path(path: Seq<char>) -> bool {
    path_extension(path) matches Some(e) && (eq_ignore_case(e, "qmd"@) || eq_ignore_case(e, "rmd"@))
}

/// True for Quarto documents dispatched to `quarto render`; every other
/// name keeps the R-script flow.
pub fn is_quarto(script: &str) -> (r: bool)
    ensures
        r == quarto_path(script@),
{
    match extension_of(script) {
        Some(e) => eq_ignore_ascii_case_str(e.as_str(), "qmd") || eq_ignore_ascii_case_str(
            e.as_str(),
            "rmd",
        ),
        None => false,
    }
}

} // verus!
