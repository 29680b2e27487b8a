//! The sequence differ of the `similar` crate, seen through plain values:
//! a line diff that may give up after a timeout, a character diff and the
//! operation spans of a slice diff. What each call promises is what
//! `similar` documents of its output: an edit script from the old sequence
//! to the new one, whose equal parts are equal.

use similar::{Algorithm, ChangeTag, DiffTag, TextDiff};
use vstd::prelude::*;

verus! {

/// The tag of one element of an edit script.
#[derive(Debug, Clone, Copy, PartialEq, Eq, Structural)]
pub enum ChangeKind {
    Equal,
    Delete,
    Insert,
}

/// The algorithm a line diff runs.
#[derive(Debug, Clone, Copy, PartialEq, Eq, Structural)]
pub enum LineAlgorithm {
    Myers,
    Patience,
}

/// Number of old elements the changes consume (equal and deleted ones).
pub open spec fn old_taken(tags: Seq<ChangeKind>) -> nat
    decreases tags.len(),
{
    if tags.len() == 0 {
        0
    } else {
        old_taken(tags.drop_last()) + if tags.last() != ChangeKind::Insert {
            1nat
        } else {
            0nat
        }
    }
}

/// Number of new elements the changes consume (equal and inserted ones).
pub open spec fn new_taken(tags: Seq<ChangeKind>) -> nat
    decreases tags.len(),
{
    if tags.len() == 0 {
        0
    } else {
        new_taken(tags.drop_last()) + if tags.last() != ChangeKind::Delete {
            1nat
        } else {
            0nat
        }
    }
}

/// `tags` is an edit script from `old` to `new`: it consumes both in order,
/// completely, and pairs only equal elements.
pub open spec fn is_edit_script<T>(tags: Seq<ChangeKind>, old: Seq<T>, new: Seq<T>) -> bool {
    &&& old_taken(tags) == old.len()
    &&& new_taken(tags) == new.len()
    &&& forall|k: int|
        0 <= k < tags.len() && tags[k] == ChangeKind::Equal ==> old[old_taken(tags.take(k)) as int]
            == new[new_taken(tags.take(k)) as int]
}

/// Every change of the script is equal.
pub open spec fn all_equal(tags: Seq<ChangeKind>) -> bool {
    forall|k: int| 0 <= k < tags.len() ==> tags[k] == ChangeKind::Equal
}

/// The tags of a line diff of `old` against `new`, as `similar` yields them
/// through `TextDiffConfig::diff_slices` and `iter_all_changes`. The diff
/// stops refining after `timeout_secs` seconds, so no function of the
/// inputs fixes the result; what holds of every outcome is that it is an
/// edit script (the `DiffHook` documentation calls the output one, and
/// `DiffOp::as_tag_tuple` states that equal ranges are equal), and that
/// equal inputs give only equal changes: both algorithms end in Myers'
/// `conquer`, which takes the common prefix as equal before it looks at the
/// deadline.
#[verifier::external_body]
pub(crate) fn line_diff_tags(
    old: &Vec<String>,
    new: &Vec<String>,
    algorithm: LineAlgorithm,
    timeout_secs: u64,
) -> (tags: Vec<ChangeKind>)
    ensures
        is_edit_script(tags@, old@.map_values(|l: String| l@), new@.map_values(|l: String| l@)),
        old@.map_values(|l: String| l@) == new@.map_values(|l: String| l@) ==> all_equal(tags@),
{
    let a: Vec<&str> = old.iter().map(|s| s.as_str()).collect();
    let b: Vec<&str> = new.iter().map(|s| s.as_str()).collect();
    let alg = match algorithm {
        LineAlgorithm::Myers => Algorithm::Myers,
        LineAlgorithm::Patience => Algorithm::Patience,
    };
    let timeout = std::time::Duration::from_secs(timeout_secs);
    let diff = TextDiff::configure().algorithm(alg).timeout(timeout).diff_slices(&a, &b);
    let mut tags = Vec::new();
    for c in diff.iter_all_changes() {
        let k = match c.tag() { ChangeTag::Equal => ChangeKind::Equal, ChangeTag::Delete => ChangeKind::Delete, ChangeTag::Insert => ChangeKind::Insert };
        tags.push(k);
    }
    tags
}

/// The changes of the Myers character diff of `old` against `new`: each tag
/// with the one-character text it carries.
pub uninterp spec fn spec_char_diff(old: Seq<char>, new: Seq<char>) -> Seq<(ChangeKind, Seq<char>)>;

/// The text each change of a character script carries is the character it
/// stands for: the old one for equal and deleted characters, the new one
/// for inserted ones.
pub open spec fn carries_chars(
    changes: Seq<(ChangeKind, Seq<char>)>,
    old: Seq<char>,
    new: Seq<char>,
) -> bool {
    let tags = change_tags(changes);
    forall|k: int|
        0 <= k < changes.len() ==> (#[trigger] changes[k]).1 == if changes[k].0
            == ChangeKind::Insert {
            seq![new[new_taken(tags.take(k)) as int]]
        } else {
            seq![old[old_taken(tags.take(k)) as int]]
        }
}

/// The tags of the changes of a character diff.
pub open spec fn change_tags(changes: Seq<(ChangeKind, Seq<char>)>) -> Seq<ChangeKind> {
    changes.map_values(|c: (ChangeKind, Seq<char>)| c.0)
}

/// What the character diff of two texts is known to be: an edit script of
/// the one into the other, each change carrying its character.
pub open spec fn char_diff_ok(old: Seq<char>, new: Seq<char>) -> bool {
    let cv = spec_char_diff(old, new);
    &&& carries_chars(cv, old, new)
    &&& is_edit_script(change_tags(cv), old, new)
}

/// One change of a character diff.
pub struct CharChange {
    pub tag: ChangeKind,
    pub text: String,
}

pub open spec fn char_changes_view(v: Seq<CharChange>) -> Seq<(ChangeKind, Seq<char>)> {
    v.map_values(|c: CharChange| (c.tag, c.text@))
}

/// The changes of `similar`'s Myers character diff
/// (`TextDiffConfig::diff_chars` with no deadline, then `iter_all_changes`).
/// Without a deadline the result is a function of the two texts, named
/// `spec_char_diff`; besides, it is an edit script over the characters, and
/// each change carries the character it stands for (`Change::value` is the
/// token of the old side for equal and deleted changes and of the new side
/// for inserted ones, and `tokenize_chars` makes one token per character).
#[verifier::external_body]
pub(crate) fn char_diff(old: &str, new: &str) -> (r: Vec<CharChange>)
    ensures
        char_changes_view(r@) == spec_char_diff(old@, new@),
        is_edit_script(r@.map_values(|c: CharChange| c.tag), old@, new@),
        carries_chars(char_changes_view(r@), old@, new@),
{
    let diff = TextDiff::configure().algorithm(Algorithm::Myers).diff_chars(old, new);
    let mut out = Vec::new();
    for c in diff.iter_all_changes() {
        let tag = match c.tag() { ChangeTag::Equal => ChangeKind::Equal, ChangeTag::Delete => ChangeKind::Delete, ChangeTag::Insert => ChangeKind::Insert };
        out.push(CharChange { tag, text: c.value().to_string() });
    }
    out
}

/// The kind of a span of a slice diff.
#[derive(Debug, Clone, Copy, PartialEq, Eq, Structural)]
pub enum SpanTag {
    Equal,
    Delete,
    Insert,
    Replace,
}

/// One operation of a slice diff: `old[old_start..old_end]` becomes
/// `new[new_start..new_end]`.
#[derive(Debug, Clone, Copy, PartialEq, Eq, Structural)]
pub struct DiffSpan {
    pub tag: SpanTag,
    pub old_start: usize,
    pub old_end: usize,
    pub new_start: usize,
    pub new_end: usize,
}

/// The operations of the Myers diff of two line slices.
pub uninterp spec fn spec_slice_diff(old: Seq<Seq<char>>, new: Seq<Seq<char>>) -> Seq<DiffSpan>;

/// The spans are an edit script from `old` to `new`: consecutive, from the
/// start of both to their ends, well formed, and as `DiffOp::as_tag_tuple`
/// documents them (an equal span is equal on both sides, a deletion takes
/// nothing from `new`, an insertion nothing from `old`).
pub open spec fn spans_cover<T>(spans: Seq<DiffSpan>, old: Seq<T>, new: Seq<T>) -> bool {
    &&& forall|k: int|
        0 <= k < spans.len() ==> (#[trigger] spans[k]).old_start <= spans[k].old_end
            && spans[k].new_start <= spans[k].new_end
    &&& forall|k: int|
        0 <= k < spans.len() - 1 ==> (#[trigger] spans[k + 1]).old_start == spans[k].old_end
            && spans[k + 1].new_start == spans[k].new_end
    &&& spans.len() == 0 ==> old.len() == 0 && new.len() == 0
    &&& spans.len() > 0 ==> spans[0].old_start == 0 && spans[0].new_start == 0
        && spans.last().old_end == old.len() && spans.last().new_end == new.len()
    &&& forall|k: int|
        0 <= k < spans.len() ==> match (#[trigger] spans[k]).tag {
            SpanTag::Equal => spans[k].old_end - spans[k].old_start == spans[k].new_end
                - spans[k].new_start && old.subrange(spans[k].old_start as int, spans[k].old_end as int)
                =~= new.subrange(spans[k].new_start as int, spans[k].new_end as int),
            SpanTag::Delete => spans[k].new_start == spans[k].new_end,
            SpanTag::Insert => spans[k].old_start == spans[k].old_end,
            SpanTag::Replace => true,
        }
}

/// Every operation is equal.
pub open spec fn spans_all_equal(spans: Seq<DiffSpan>) -> bool {
    forall|k: int| 0 <= k < spans.len() ==> (#[trigger] spans[k]).tag == SpanTag::Equal
}

/// The operations of `similar`'s slice diff (`TextDiff::from_slices`, Myers,
/// no deadline, then `ops` and `DiffOp::as_tag_tuple`). Without a deadline
/// the result is a function of the two slices, named `spec_slice_diff`;
/// besides, the operations form an edit script (`spans_cover`), and equal
/// slices give only equal operations (Myers takes the common prefix as
/// equal first).
#[verifier::external_body]
pub(crate) fn slice_diff(old: &Vec<String>, new: &Vec<String>) -> (r: Vec<DiffSpan>)
    ensures
        r@ == spec_slice_diff(old@.map_values(|l: String| l@), new@.map_values(|l: String| l@)),
        spans_cover(r@, old@.map_values(|l: String| l@), new@.map_values(|l: String| l@)),
        old@.map_values(|l: String| l@) == new@.map_values(|l: String| l@) ==> spans_all_equal(r@),
{
    let a: Vec<&str> = old.iter().map(|s| s.as_str()).collect();
    let b: Vec<&str> = new.iter().map(|s| s.as_str()).collect();
    let diff = TextDiff::from_slices(&a, &b);
    let mut out = Vec::new();
    for op in diff.ops() {
        let (tag, o, n) = op.as_tag_tuple();
        let tag = match tag { DiffTag::Equal => SpanTag::Equal, DiffTag::Delete => SpanTag::Delete, DiffTag::Insert => SpanTag::Insert, DiffTag::Replace => SpanTag::Replace };
        out.push(DiffSpan { tag, old_start: o.start, old_end: o.end, new_start: n.start, new_end: n.end });
    }
    out
}

} // verus!
