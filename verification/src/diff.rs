//! Line and character differences between two texts, laid out for the
//! unified view (one column) and the split view (side by side).
//!
//! The differences themselves are computed by `similar`; their layout is
//! this module's own.

use vstd::prelude::*;
use crate::text::{decimal, lines_of, no_cr, push_decimal};

verus! {

/// How a piece of text differs.
#[derive(Debug, Clone, Copy, PartialEq, Eq)]
pub enum DiffType {
    /// Present on both sides.
    Equal,
    /// Present on the right side only.
    Added,
    /// Present on the left side only.
    Removed,
}

/// The kind of one change reported by the diff.
#[derive(Debug, Clone, Copy, PartialEq, Eq, Structural)]
pub enum ChangeKind {
    Equal,
    Delete,
    Insert,
}

/// One change: a token (a line with its line break, or a character) and
/// how it differs.
#[derive(Debug, Clone)]
pub struct DiffChange {
    pub kind: ChangeKind,
    pub value: String,
}

/// The models of a sequence of changes.
pub open spec fn changes_view(v: Seq<DiffChange>) -> Seq<(ChangeKind, Seq<char>)> {
    v.map_values(|c: DiffChange| (c.kind, c.value@))
}

/// The left text as the changes describe it: equal and deleted tokens.
pub open spec fn old_side(cs: Seq<(ChangeKind, Seq<char>)>) -> Seq<char>
    decreases cs.len(),
{
    if cs.len() == 0 {
        seq![]
    } else {
        (if cs[0].0 != ChangeKind::Insert { cs[0].1 } else { seq![] }) + old_side(cs.drop_first())
    }
}

/// The right text as the changes describe it: equal and inserted tokens.
pub open spec fn new_side(cs: Seq<(ChangeKind, Seq<char>)>) -> Seq<char>
    decreases cs.len(),
{
    if cs.len() == 0 {
        seq![]
    } else {
        (if cs[0].0 != ChangeKind::Delete { cs[0].1 } else { seq![] }) + new_side(cs.drop_first())
    }
}

/// The changes `similar` reports between the lines of two texts.
pub uninterp spec fn line_diff(old: Seq<char>, new: Seq<char>) -> Seq<(ChangeKind, Seq<char>)>;

/// The changes `similar` reports between the characters of two texts.
pub uninterp spec fn char_diff(old: Seq<char>, new: Seq<char>) -> Seq<(ChangeKind, Seq<char>)>;

/// A line token: not empty, with a line feed at most as its last character.
pub open spec fn token_line(t: Seq<char>) -> bool {
    t.len() > 0 && forall|k: int| 0 <= k < t.len() - 1 ==> #[trigger] t[k] != '\n'
}

/// A token that ends with a line terminator (`\n`, or a lone `\r`).
pub open spec fn ends_line(t: Seq<char>) -> bool {
    t.len() > 0 && (t.last() == '\n' || t.last() == '\r')
}

/// `similar::TextDiff::from_lines(old, new).iter_all_changes()`: the line
/// changes, named by [`line_diff`]. Read in order, the equal and deleted
/// lines make up `old` and the equal and inserted lines make up `new`.
/// Each token is one line of its text (`tokenize_lines_by_bytes`): not empty,
/// with its terminator attached, so a line feed can only be its last
/// character; every token of a side but the last of that side ends with a
/// terminator.
#[verifier::external_body]
fn diff_lines(old: &str, new: &str) -> (r: Vec<DiffChange>)
    ensures
        changes_view(r@) == line_diff(old@, new@),
        old_side(changes_view(r@)) == old@,
        new_side(changes_view(r@)) == new@,
        r@.len() <= isize::MAX,
        forall|i: int| 0 <= i < r@.len() ==> token_line(#[trigger] r@[i].value@),
        forall|i: int, j: int|
            #![trigger r@[i], r@[j]]
            0 <= i < j < r@.len() && r@[i].kind != ChangeKind::Insert && r@[j].kind != ChangeKind::Insert ==> ends_line(
                r@[i].value@,
            ),
        forall|i: int, j: int|
            #![trigger r@[i], r@[j]]
            0 <= i < j < r@.len() && r@[i].kind != ChangeKind::Delete && r@[j].kind != ChangeKind::Delete ==> ends_line(
                r@[i].value@,
            ),
{
    let diff = similar::TextDiff::from_lines(old, new);
    let mut r = Vec::new();
    for c in diff.iter_all_changes() {
        let kind = match c.tag() {
            similar::ChangeTag::Equal => ChangeKind::Equal,
            similar::ChangeTag::Delete => ChangeKind::Delete,
            similar::ChangeTag::Insert => ChangeKind::Insert,
        };
        r.push(DiffChange { kind, value: c.value().to_string() });
    }
    r
}

/// `similar::TextDiff::from_chars(old, new).iter_all_changes()`: the
/// character changes, named by [`char_diff`]. Read in order, the equal and
/// deleted characters make up `old` and the equal and inserted characters
/// make up `new`.
#[verifier::external_body]
fn diff_chars(old: &str, new: &str) -> (r: Vec<DiffChange>)
    ensures
        changes_view(r@) == char_diff(old@, new@),
        old_side(changes_view(r@)) == old@,
        new_side(changes_view(r@)) == new@,
{
    let diff = similar::TextDiff::from_chars(old, new);
    let mut r = Vec::new();
    for c in diff.iter_all_changes() {
        let kind = match c.tag() {
            similar::ChangeTag::Equal => ChangeKind::Equal,
            similar::ChangeTag::Delete => ChangeKind::Delete,
            similar::ChangeTag::Insert => ChangeKind::Insert,
        };
        r.push(DiffChange { kind, value: c.value().to_string() });
    }
    r
}

/// A piece of text of one side, for character-level highlighting.
#[derive(Debug, Clone)]
pub struct TextSegment {
    pub text: String,
    pub diff_type: DiffType,
}

/// The models of a sequence of segments.
pub open spec fn segments_view(v: Seq<TextSegment>) -> Seq<(Seq<char>, DiffType)> {
    v.map_values(|s: TextSegment| (s.text@, s.diff_type))
}

/// The segments of the left side: equal and deleted characters.
pub open spec fn old_segments(cs: Seq<(ChangeKind, Seq<char>)>) -> Seq<(Seq<char>, DiffType)>
    decreases cs.len(),
{
    if cs.len() == 0 {
        seq![]
    } else {
        let rest = old_segments(cs.drop_first());
        match cs[0].0 {
            ChangeKind::Equal => seq![(cs[0].1, DiffType::Equal)] + rest,
            ChangeKind::Delete => seq![(cs[0].1, DiffType::Removed)] + rest,
            ChangeKind::Insert => rest,
        }
    }
}

/// The segments of the right side: equal and inserted characters.
pub open spec fn new_segments(cs: Seq<(ChangeKind, Seq<char>)>) -> Seq<(Seq<char>, DiffType)>
    decreases cs.len(),
{
    if cs.len() == 0 {
        seq![]
    } else {
        let rest = new_segments(cs.drop_first());
        match cs[0].0 {
            ChangeKind::Equal => seq![(cs[0].1, DiffType::Equal)] + rest,
            ChangeKind::Insert => seq![(cs[0].1, DiffType::Added)] + rest,
            ChangeKind::Delete => rest,
        }
    }
}

/// The character-level segments of a changed line: the left side's equal
/// and removed characters and the right side's equal and added characters,
/// one segment per character, in order.
pub fn compute_char_diff(old: &str, new: &str) -> (r: (Vec<TextSegment>, Vec<TextSegment>))
    ensures
        segments_view(r.0@) == old_segments(char_diff(old@, new@)),
        segments_view(r.1@) == new_segments(char_diff(old@, new@)),
{
    let changes = diff_chars(old, new);
    let ghost cs = changes_view(changes@);
    let mut olds: Vec<TextSegment> = Vec::new();
    let mut news: Vec<TextSegment> = Vec::new();
    let mut i = changes.len();
    assert(cs.skip(i as int) =~= Seq::<(ChangeKind, Seq<char>)>::empty());
    while i > 0
        invariant
            i <= changes.len(),
            cs == changes_view(changes@),
            segments_view(olds@) == old_segments(cs.skip(i as int)),
            segments_view(news@) == new_segments(cs.skip(i as int)),
        decreases i,
    {
        i -= 1;
        let c = &changes[i];
        assert(cs.skip(i as int).drop_first() =~= cs.skip(i + 1));
        assert(cs.skip(i as int)[0] == (c.kind, c.value@));
        let ghost o = segments_view(olds@);
        let ghost n = segments_view(news@);
        match c.kind {
            ChangeKind::Equal => {
                olds.insert(0, TextSegment { text: c.value.clone(), diff_type: DiffType::Equal });
                news.insert(0, TextSegment { text: c.value.clone(), diff_type: DiffType::Equal });
                assert(segments_view(olds@) =~= seq![(c.value@, DiffType::Equal)] + o);
                assert(segments_view(news@) =~= seq![(c.value@, DiffType::Equal)] + n);
            },
            ChangeKind::Delete => {
                olds.insert(0, TextSegment { text: c.value.clone(), diff_type: DiffType::Removed });
                assert(segments_view(olds@) =~= seq![(c.value@, DiffType::Removed)] + o);
            },
            ChangeKind::Insert => {
                news.insert(0, TextSegment { text: c.value.clone(), diff_type: DiffType::Added });
                assert(segments_view(news@) =~= seq![(c.value@, DiffType::Added)] + n);
            },
        }
    }
    assert(cs.skip(0) =~= cs);
    (olds, news)
}

/// `s` without its trailing line breaks (`trim_end_matches('\n')`).
pub open spec fn strip_newlines(s: Seq<char>) -> Seq<char>
    decreases s.len(),
{
    if s.len() > 0 && s.last() == '\n' {
        strip_newlines(s.drop_last())
    } else {
        s
    }
}

/// A token's text without its trailing line breaks.
fn stripped(s: &String) -> (r: String)
    ensures
        r@ == strip_newlines(s@),
{
    let v = crate::text::chars_of(s.as_str());
    let mut j = v.len();
    assert(v@.take(j as int) =~= v@);
    while j > 0 && v[j - 1] == '\n'
        invariant
            j <= v.len(),
            strip_newlines(v@) == strip_newlines(v@.take(j as int)),
        decreases j,
    {
        assert(v@.take(j as int).drop_last() =~= v@.take(j - 1));
        j -= 1;
    }
    assert(v@.subrange(0, j as int) =~= v@.take(j as int));
    crate::text::string_from_range(&v, 0, j)
}

/// One row of the unified view.
#[derive(Debug, Clone)]
pub struct DiffLine {
    /// Line number on the left side, none for an added line.
    pub line_number_left: Option<usize>,
    /// Line number on the right side, none for a removed line.
    pub line_number_right: Option<usize>,
    pub content: String,
    pub diff_type: DiffType,
}

/// Mathematical model of a [`DiffLine`].
pub struct DiffLineView {
    pub left: Option<nat>,
    pub right: Option<nat>,
    pub content: Seq<char>,
    pub diff_type: DiffType,
}

/// An optional line number as a natural number.
pub open spec fn opt_nat(o: Option<usize>) -> Option<nat> {
    match o {
        Some(n) => Some(n as nat),
        None => None,
    }
}

impl View for DiffLine {
    type V = DiffLineView;

    open spec fn view(&self) -> DiffLineView {
        DiffLineView {
            left: opt_nat(self.line_number_left),
            right: opt_nat(self.line_number_right),
            content: self.content@,
            diff_type: self.diff_type,
        }
    }
}

/// The unified rows of the changes `cs`, the next left and right line
/// numbers being `l` and `r`: every change is one row, numbered on each side
/// it belongs to.
pub open spec fn unified_from(cs: Seq<(ChangeKind, Seq<char>)>, l: nat, r: nat) -> Seq<DiffLineView>
    decreases cs.len(),
{
    if cs.len() == 0 {
        seq![]
    } else {
        let c = strip_newlines(cs[0].1);
        let rest = cs.drop_first();
        match cs[0].0 {
            ChangeKind::Equal => seq![DiffLineView { left: Some(l), right: Some(r), content: c, diff_type: DiffType::Equal }]
                + unified_from(rest, l + 1, r + 1),
            ChangeKind::Delete => seq![DiffLineView { left: Some(l), right: None, content: c, diff_type: DiffType::Removed }]
                + unified_from(rest, l + 1, r),
            ChangeKind::Insert => seq![DiffLineView { left: None, right: Some(r), content: c, diff_type: DiffType::Added }]
                + unified_from(rest, l, r + 1),
        }
    }
}

/// The rows of the unified view, numbering lines from 1.
pub fn build_unified_lines(changes: &Vec<DiffChange>) -> (r: Vec<DiffLine>)
    requires
        changes@.len() <= isize::MAX,
    ensures
        r@.map_values(|d: DiffLine| d@) == unified_from(changes_view(changes@), 1, 1),
{
    let ghost cs = changes_view(changes@);
    let mut out: Vec<DiffLine> = Vec::new();
    let mut left: usize = 1;
    let mut right: usize = 1;
    let mut i: usize = 0;
    assert(cs.skip(0) =~= cs);
    while i < changes.len()
        invariant
            i <= changes.len(),
            changes@.len() <= isize::MAX,
            cs == changes_view(changes@),
            left <= i + 1,
            right <= i + 1,
            unified_from(cs, 1, 1) == out@.map_values(|d: DiffLine| d@) + unified_from(cs.skip(i as int), left as nat, right as nat),
        decreases changes.len() - i,
    {
        let c = &changes[i];
        assert(cs.skip(i as int).drop_first() =~= cs.skip(i + 1));
        assert(cs.skip(i as int)[0] == (c.kind, c.value@));
        let content = stripped(&c.value);
        let ghost before = out@.map_values(|d: DiffLine| d@);
        let line = match c.kind {
            ChangeKind::Equal => DiffLine {
                line_number_left: Some(left),
                line_number_right: Some(right),
                content,
                diff_type: DiffType::Equal,
            },
            ChangeKind::Delete => DiffLine {
                line_number_left: Some(left),
                line_number_right: None,
                content,
                diff_type: DiffType::Removed,
            },
            ChangeKind::Insert => DiffLine {
                line_number_left: None,
                line_number_right: Some(right),
                content,
                diff_type: DiffType::Added,
            },
        };
        let ghost lv = line@;
        out.push(line);
        assert(out@.map_values(|d: DiffLine| d@) =~= before.push(lv));
        match c.kind {
            ChangeKind::Equal => {
                left = left + 1;
                right = right + 1;
            },
            ChangeKind::Delete => {
                left = left + 1;
            },
            ChangeKind::Insert => {
                right = right + 1;
            },
        }
        i += 1;
    }
    assert(cs.skip(i as int) =~= Seq::<(ChangeKind, Seq<char>)>::empty());
    assert(out@.map_values(|d: DiffLine| d@) + Seq::<DiffLineView>::empty() =~= out@.map_values(|d: DiffLine| d@));
    out
}

/// One row of the split view: a left and a right cell.
#[derive(Debug, Clone)]
pub struct SplitLine {
    /// Left line number, none for an empty cell.
    pub left_line_number: Option<usize>,
    /// Left text, none for an empty cell.
    pub left_content: Option<String>,
    pub left_type: DiffType,
    pub left_segments: Vec<TextSegment>,
    /// Right line number, none for an empty cell.
    pub right_line_number: Option<usize>,
    /// Right text, none for an empty cell.
    pub right_content: Option<String>,
    pub right_type: DiffType,
    pub right_segments: Vec<TextSegment>,
}

/// Mathematical model of a [`SplitLine`].
pub struct SplitLineView {
    pub left_number: Option<nat>,
    pub left_content: Option<Seq<char>>,
    pub left_type: DiffType,
    pub left_segments: Seq<(Seq<char>, DiffType)>,
    pub right_number: Option<nat>,
    pub right_content: Option<Seq<char>>,
    pub right_type: DiffType,
    pub right_segments: Seq<(Seq<char>, DiffType)>,
}

/// The text of an optional string.
pub open spec fn opt_text(o: Option<String>) -> Option<Seq<char>> {
    match o {
        Some(s) => Some(s@),
        None => None,
    }
}

impl View for SplitLine {
    type V = SplitLineView;

    open spec fn view(&self) -> SplitLineView {
        SplitLineView {
            left_number: opt_nat(self.left_line_number),
            left_content: opt_text(self.left_content),
            left_type: self.left_type,
            left_segments: segments_view(self.left_segments@),
            right_number: opt_nat(self.right_line_number),
            right_content: opt_text(self.right_content),
            right_type: self.right_type,
            right_segments: segments_view(self.right_segments@),
        }
    }
}

/// The number of leading changes of kind `k`.
pub open spec fn run_len(cs: Seq<(ChangeKind, Seq<char>)>, k: ChangeKind) -> nat
    decreases cs.len(),
{
    if cs.len() > 0 && cs[0].0 == k {
        1 + run_len(cs.drop_first(), k)
    } else {
        0
    }
}

pub proof fn lemma_run_len(cs: Seq<(ChangeKind, Seq<char>)>, k: ChangeKind)
    ensures
        run_len(cs, k) <= cs.len(),
        forall|q: int| 0 <= q < run_len(cs, k) ==> #[trigger] cs[q].0 == k,
        run_len(cs, k) < cs.len() ==> cs[run_len(cs, k) as int].0 != k,
    decreases cs.len(),
{
    if cs.len() > 0 && cs[0].0 == k {
        lemma_run_len(cs.drop_first(), k);
        assert forall|q: int| 0 <= q < run_len(cs, k) implies #[trigger] cs[q].0 == k by {
            if q > 0 {
                assert(cs[q] == cs.drop_first()[q - 1]);
            }
        }
        if run_len(cs, k) < cs.len() {
            assert(cs[run_len(cs, k) as int] == cs.drop_first()[run_len(cs, k) - 1]);
        }
    }
}

/// The texts of changes, without their trailing line breaks.
pub open spec fn stripped_texts(cs: Seq<(ChangeKind, Seq<char>)>) -> Seq<Seq<char>> {
    cs.map_values(|c: (ChangeKind, Seq<char>)| strip_newlines(c.1))
}

/// Row `j` of a block pairing removed lines `dels` with added lines `ins`,
/// the block's first left and right line numbers being `l` and `r`: a pair
/// is highlighted character by character, an unpaired line as a whole.
pub open spec fn pair_row(dels: Seq<Seq<char>>, ins: Seq<Seq<char>>, j: int, l: nat, r: nat) -> SplitLineView {
    let has_l = j < dels.len();
    let has_r = j < ins.len();
    SplitLineView {
        left_number: if has_l { Some((l + j) as nat) } else { None },
        left_content: if has_l { Some(dels[j]) } else { None },
        left_type: if has_l { DiffType::Removed } else { DiffType::Equal },
        left_segments: if has_l && has_r {
            old_segments(char_diff(dels[j], ins[j]))
        } else if has_l {
            seq![(dels[j], DiffType::Removed)]
        } else {
            seq![]
        },
        right_number: if has_r { Some((r + j) as nat) } else { None },
        right_content: if has_r { Some(ins[j]) } else { None },
        right_type: if has_r { DiffType::Added } else { DiffType::Equal },
        right_segments: if has_l && has_r {
            new_segments(char_diff(dels[j], ins[j]))
        } else if has_r {
            seq![(ins[j], DiffType::Added)]
        } else {
            seq![]
        },
    }
}

/// The split rows of the changes `cs`, the next left and right line numbers
/// being `l` and `r`. An equal line fills both cells; an inserted line not
/// preceded by deletions fills the right cell; a run of deleted lines and
/// the run of inserted lines right after it are paired row by row.
pub open spec fn split_from(cs: Seq<(ChangeKind, Seq<char>)>, l: nat, r: nat) -> Seq<SplitLineView>
    decreases cs.len(),
{
    if cs.len() == 0 {
        seq![]
    } else {
        let c = strip_newlines(cs[0].1);
        match cs[0].0 {
            ChangeKind::Equal => seq![SplitLineView {
                left_number: Some(l),
                left_content: Some(c),
                left_type: DiffType::Equal,
                left_segments: seq![(c, DiffType::Equal)],
                right_number: Some(r),
                right_content: Some(c),
                right_type: DiffType::Equal,
                right_segments: seq![(c, DiffType::Equal)],
            }] + split_from(cs.drop_first(), l + 1, r + 1),
            ChangeKind::Insert => seq![SplitLineView {
                left_number: None,
                left_content: None,
                left_type: DiffType::Equal,
                left_segments: seq![],
                right_number: Some(r),
                right_content: Some(c),
                right_type: DiffType::Added,
                right_segments: seq![(c, DiffType::Added)],
            }] + split_from(cs.drop_first(), l, r + 1),
            ChangeKind::Delete => {
                let d = run_len(cs, ChangeKind::Delete);
                let n = run_len(cs.skip(d as int), ChangeKind::Insert);
                proof {
                    lemma_run_len(cs, ChangeKind::Delete);
                    lemma_run_len(cs.skip(d as int), ChangeKind::Insert);
                }
                let dels = stripped_texts(cs.take(d as int));
                let ins = stripped_texts(cs.skip(d as int).take(n as int));
                let m = if d >= n { d } else { n };
                Seq::new(m, |j: int| pair_row(dels, ins, j, l, r)) + split_from(cs.skip((d + n) as int), l + d, r + n)
            },
        }
    }
}

/// The texts of the changes, without trailing line breaks, as strings.
pub open spec fn strings_text(v: Seq<String>) -> Seq<Seq<char>> {
    v.map_values(|s: String| s@)
}

/// Collects the run of changes of kind `k` starting at `i`: their texts
/// without trailing line breaks, and the index after the run.
fn collect_run(changes: &Vec<DiffChange>, i: usize, k: ChangeKind) -> (r: (Vec<String>, usize))
    requires
        i <= changes@.len(),
    ensures
        r.1 == i + run_len(changes_view(changes@).skip(i as int), k),
        r.1 <= changes@.len(),
        strings_text(r.0@) == stripped_texts(changes_view(changes@).subrange(i as int, r.1 as int)),
{
    let ghost cs = changes_view(changes@);
    let mut texts: Vec<String> = Vec::new();
    let mut p = i;
    while p < changes.len() && changes[p].kind == k
        invariant
            i <= p <= changes@.len(),
            cs == changes_view(changes@),
            forall|q: int| i <= q < p ==> #[trigger] cs[q].0 == k,
            strings_text(texts@) == stripped_texts(cs.subrange(i as int, p as int)),
        decreases changes.len() - p,
    {
        let t = stripped(&changes[p].value);
        let ghost before = strings_text(texts@);
        texts.push(t);
        assert(strings_text(texts@) =~= before.push(t@));
        assert(cs.subrange(i as int, p + 1) =~= cs.subrange(i as int, p as int).push(cs[p as int]));
        assert(stripped_texts(cs.subrange(i as int, p + 1)) =~= stripped_texts(cs.subrange(i as int, p as int)).push(
            strip_newlines(cs[p as int].1),
        ));
        p += 1;
    }
    proof {
        let t = cs.skip(i as int);
        if p < changes@.len() {
            assert(cs[p as int].0 == changes@[p as int].kind);
        }
        lemma_run_len(t, k);
        let rl = run_len(t, k);
        if rl < p - i {
            assert(t[rl as int] == cs[i + rl]);
        } else if rl > p - i {
            assert(t[p - i] == cs[p as int]);
        }
    }
    (texts, p)
}

/// Row `j` of a block pairing removed and added lines.
fn make_pair_row(dels: &Vec<String>, ins: &Vec<String>, j: usize, left: usize, right: usize) -> (r: SplitLine)
    requires
        j < dels@.len() || j < ins@.len(),
        left + j <= usize::MAX,
        right + j <= usize::MAX,
    ensures
        r@ == pair_row(strings_text(dels@), strings_text(ins@), j as int, left as nat, right as nat),
{
    let has_l = j < dels.len();
    let has_r = j < ins.len();
    let (ls, rs) = if has_l && has_r {
        compute_char_diff(dels[j].as_str(), ins[j].as_str())
    } else {
        let ls = if has_l {
            vec![TextSegment { text: dels[j].clone(), diff_type: DiffType::Removed }]
        } else {
            Vec::new()
        };
        let rs = if has_r {
            vec![TextSegment { text: ins[j].clone(), diff_type: DiffType::Added }]
        } else {
            Vec::new()
        };
        assert(segments_view(ls@) =~= if has_l { seq![(dels@[j as int]@, DiffType::Removed)] } else { Seq::empty() });
        assert(segments_view(rs@) =~= if has_r { seq![(ins@[j as int]@, DiffType::Added)] } else { Seq::empty() });
        (ls, rs)
    };
    let row = SplitLine {
        left_line_number: if has_l { Some(left + j) } else { None },
        left_content: if has_l { Some(dels[j].clone()) } else { None },
        left_type: if has_l { DiffType::Removed } else { DiffType::Equal },
        left_segments: ls,
        right_line_number: if has_r { Some(right + j) } else { None },
        right_content: if has_r { Some(ins[j].clone()) } else { None },
        right_type: if has_r { DiffType::Added } else { DiffType::Equal },
        right_segments: rs,
    };
    proof {
        let dv = strings_text(dels@);
        let iv = strings_text(ins@);
        if has_l {
            assert(dv[j as int] == dels@[j as int]@);
        }
        if has_r {
            assert(iv[j as int] == ins@[j as int]@);
        }
    }
    row
}

/// The rows of the split view, numbering lines from 1.
pub fn build_split_lines(changes: &Vec<DiffChange>) -> (r: Vec<SplitLine>)
    requires
        changes@.len() <= isize::MAX,
    ensures
        r@.map_values(|s: SplitLine| s@) == split_from(changes_view(changes@), 1, 1),
{
    let ghost cs = changes_view(changes@);
    let mut out: Vec<SplitLine> = Vec::new();
    let mut left: usize = 1;
    let mut right: usize = 1;
    let mut i: usize = 0;
    assert(cs.skip(0) =~= cs);
    while i < changes.len()
        invariant
            i <= changes.len(),
            changes@.len() <= isize::MAX,
            cs == changes_view(changes@),
            left <= i + 1,
            right <= i + 1,
            split_from(cs, 1, 1) == out@.map_values(|s: SplitLine| s@) + split_from(cs.skip(i as int), left as nat, right as nat),
        decreases changes.len() - i,
    {
        let ghost rest = cs.skip(i as int);
        let ghost before = out@.map_values(|s: SplitLine| s@);
        assert(rest.drop_first() =~= cs.skip(i + 1));
        assert(rest[0] == (changes@[i as int].kind, changes@[i as int].value@));
        match changes[i].kind {
            ChangeKind::Equal => {
                let c = stripped(&changes[i].value);
                let row = SplitLine {
                    left_line_number: Some(left),
                    left_content: Some(c.clone()),
                    left_type: DiffType::Equal,
                    left_segments: vec![TextSegment { text: c.clone(), diff_type: DiffType::Equal }],
                    right_line_number: Some(right),
                    right_content: Some(c.clone()),
                    right_type: DiffType::Equal,
                    right_segments: vec![TextSegment { text: c, diff_type: DiffType::Equal }],
                };
                assert(segments_view(row.left_segments@) =~= seq![(c@, DiffType::Equal)]);
                assert(segments_view(row.right_segments@) =~= seq![(c@, DiffType::Equal)]);
                let ghost rv = row@;
                out.push(row);
                assert(out@.map_values(|s: SplitLine| s@) =~= before.push(rv));
                assert(before + split_from(rest, left as nat, right as nat) =~= before.push(rv) + split_from(
                    cs.skip(i + 1),
                    (left + 1) as nat,
                    (right + 1) as nat,
                ));
                left = left + 1;
                right = right + 1;
                i = i + 1;
            },
            ChangeKind::Insert => {
                let c = stripped(&changes[i].value);
                let row = SplitLine {
                    left_line_number: None,
                    left_content: None,
                    left_type: DiffType::Equal,
                    left_segments: Vec::new(),
                    right_line_number: Some(right),
                    right_content: Some(c.clone()),
                    right_type: DiffType::Added,
                    right_segments: vec![TextSegment { text: c, diff_type: DiffType::Added }],
                };
                assert(segments_view(row.left_segments@) =~= Seq::<(Seq<char>, DiffType)>::empty());
                assert(segments_view(row.right_segments@) =~= seq![(c@, DiffType::Added)]);
                let ghost rv = row@;
                out.push(row);
                assert(out@.map_values(|s: SplitLine| s@) =~= before.push(rv));
                assert(before + split_from(rest, left as nat, right as nat) =~= before.push(rv) + split_from(
                    cs.skip(i + 1),
                    left as nat,
                    (right + 1) as nat,
                ));
                right = right + 1;
                i = i + 1;
            },
            ChangeKind::Delete => {
                let (dels, i1) = collect_run(changes, i, ChangeKind::Delete);
                let (ins, i2) = collect_run(changes, i1, ChangeKind::Insert);
                let d = dels.len();
                let n = ins.len();
                let ghost dv = strings_text(dels@);
                let ghost iv = strings_text(ins@);
                proof {
                    lemma_run_len(rest, ChangeKind::Delete);
                    assert(dv.len() == i1 - i);
                    assert(iv.len() == i2 - i1);
                    assert(cs.skip(i as int).skip(d as int) =~= cs.skip(i1 as int));
                    assert(dv =~= stripped_texts(rest.take(d as int)));
                    assert(cs.skip(i1 as int).take(n as int) =~= cs.subrange(i1 as int, i2 as int));
                    assert(iv =~= stripped_texts(rest.skip(d as int).take(n as int)));
                    assert(rest.skip((d + n) as int) =~= cs.skip(i2 as int));
                }
                let m = if d >= n { d } else { n };
                let ghost block = Seq::new(m as nat, |j: int| pair_row(dv, iv, j, left as nat, right as nat));
                assert(split_from(rest, left as nat, right as nat) == block + split_from(cs.skip(i2 as int), (left + d) as nat, (right + n) as nat));
                let mut j: usize = 0;
                while j < m
                    invariant
                        j <= m,
                        m == if d >= n { d } else { n },
                        d == dels@.len(),
                        n == ins@.len(),
                        dv == strings_text(dels@),
                        iv == strings_text(ins@),
                        block == Seq::new(m as nat, |j: int| pair_row(dv, iv, j, left as nat, right as nat)),
                        left + m <= usize::MAX,
                        right + m <= usize::MAX,
                        out@.map_values(|s: SplitLine| s@) == before + block.take(j as int),
                    decreases m - j,
                {
                    let row = make_pair_row(&dels, &ins, j, left, right);
                    let ghost bb = out@.map_values(|s: SplitLine| s@);
                    out.push(row);
                    assert(out@.map_values(|s: SplitLine| s@) =~= bb.push(block[j as int]));
                    assert(block.take(j + 1) =~= block.take(j as int).push(block[j as int]));
                    j += 1;
                }
                assert(block.take(m as int) =~= block);
                left = left + d;
                right = right + n;
                i = i2;
            },
        }
    }
    assert(cs.skip(i as int) =~= Seq::<(ChangeKind, Seq<char>)>::empty());
    assert(out@.map_values(|s: SplitLine| s@) + Seq::<SplitLineView>::empty() =~= out@.map_values(|s: SplitLine| s@));
    out
}

/// The number of changes of kind `k`.
pub open spec fn count_kind(cs: Seq<(ChangeKind, Seq<char>)>, k: ChangeKind) -> nat
    decreases cs.len(),
{
    if cs.len() == 0 {
        0
    } else {
        count_kind(cs.drop_last(), k) + if cs.last().0 == k { 1nat } else { 0nat }
    }
}

/// A block of consecutive changed rows of the split view (first and last
/// row, inclusive).
#[derive(Debug, Clone, Copy, PartialEq, Eq)]
pub struct DiffHunk {
    pub start_line: usize,
    pub end_line: usize,
}

/// Whether a split row shows a change on either side.
pub open spec fn row_changed(r: SplitLineView) -> bool {
    r.left_type != DiffType::Equal || r.right_type != DiffType::Equal
}

/// The blocks of changed rows of `rows`, from row `from` on, given that a
/// block started at `open` is still running: maximal runs of changed rows.
pub open spec fn hunks_from(rows: Seq<SplitLineView>, from: nat, open: Option<nat>) -> Seq<(nat, nat)>
    decreases rows.len() - from,
{
    if from >= rows.len() {
        match open {
            Some(s) => seq![(s, (rows.len() - 1) as nat)],
            None => seq![],
        }
    } else if row_changed(rows[from as int]) {
        hunks_from(rows, from + 1, if open is Some { open } else { Some(from) })
    } else {
        match open {
            Some(s) => seq![(s, (from - 1) as nat)] + hunks_from(rows, from + 1, None),
            None => hunks_from(rows, from + 1, None),
        }
    }
}

/// The models of a sequence of blocks.
pub open spec fn hunks_view(v: Seq<DiffHunk>) -> Seq<(nat, nat)> {
    v.map_values(|h: DiffHunk| (h.start_line as nat, h.end_line as nat))
}

/// The blocks of changed rows of the split view.
pub fn find_diff_hunks(rows: &Vec<SplitLine>) -> (r: Vec<DiffHunk>)
    ensures
        hunks_view(r@) == hunks_from(rows@.map_values(|s: SplitLine| s@), 0, None),
{
    let ghost rv = rows@.map_values(|s: SplitLine| s@);
    let mut out: Vec<DiffHunk> = Vec::new();
    let mut open: Option<usize> = None;
    let mut i: usize = 0;
    while i < rows.len()
        invariant
            i <= rows.len(),
            rv == rows@.map_values(|s: SplitLine| s@),
            open matches Some(s) ==> s < i,
            hunks_from(rv, 0, None) == hunks_view(out@) + hunks_from(rv, i as nat, opt_nat(open)),
        decreases rows.len() - i,
    {
        let ghost before = hunks_view(out@);
        assert(rv[i as int] == rows@[i as int]@);
        let changed = !(matches!(rows[i].left_type, DiffType::Equal) && matches!(rows[i].right_type, DiffType::Equal));
        if changed {
            if open.is_none() {
                open = Some(i);
            }
        } else {
            match open {
                Some(s) => {
                    out.push(DiffHunk { start_line: s, end_line: i - 1 });
                    assert(hunks_view(out@) =~= before + seq![(s as nat, (i - 1) as nat)]);
                    open = None;
                },
                None => {},
            }
        }
        i += 1;
    }
    let ghost before = hunks_view(out@);
    match open {
        Some(s) => {
            out.push(DiffHunk { start_line: s, end_line: rows.len() - 1 });
            assert(hunks_view(out@) =~= before + seq![(s as nat, (rows.len() - 1) as nat)]);
        },
        None => {
            assert(hunks_view(out@) =~= before + Seq::<(nat, nat)>::empty());
        },
    }
    out
}

/// The differences between two texts.
#[derive(Debug, Clone)]
pub struct DiffResult {
    /// Rows of the unified view.
    pub unified_lines: Vec<DiffLine>,
    /// Rows of the split view.
    pub split_lines: Vec<SplitLine>,
    /// Number of added lines.
    pub added_count: usize,
    /// Number of removed lines.
    pub removed_count: usize,
    /// Number of lines present on both sides; the similarity of the texts
    /// is twice this number over the number of lines of both texts.
    pub equal_count: usize,
    /// Blocks of changed rows of the split view.
    pub diff_hunks: Vec<DiffHunk>,
}

impl DiffResult {
    /// No difference at all.
    pub fn empty() -> (r: Self)
        ensures
            r.unified_lines@.len() == 0,
            r.split_lines@.len() == 0,
            r.added_count == 0,
            r.removed_count == 0,
            r.equal_count == 0,
            r.diff_hunks@.len() == 0,
    {
        DiffResult {
            unified_lines: Vec::new(),
            split_lines: Vec::new(),
            added_count: 0,
            removed_count: 0,
            equal_count: 0,
            diff_hunks: Vec::new(),
        }
    }
}

/// Counts the changes of each kind.
fn count_changes(changes: &Vec<DiffChange>) -> (r: (usize, usize, usize))
    ensures
        r.0 == count_kind(changes_view(changes@), ChangeKind::Insert),
        r.1 == count_kind(changes_view(changes@), ChangeKind::Delete),
        r.2 == count_kind(changes_view(changes@), ChangeKind::Equal),
{
    let ghost cs = changes_view(changes@);
    let mut added: usize = 0;
    let mut removed: usize = 0;
    let mut equal: usize = 0;
    let mut i: usize = 0;
    while i < changes.len()
        invariant
            i <= changes.len(),
            cs == changes_view(changes@),
            added + removed + equal == i,
            added == count_kind(cs.take(i as int), ChangeKind::Insert),
            removed == count_kind(cs.take(i as int), ChangeKind::Delete),
            equal == count_kind(cs.take(i as int), ChangeKind::Equal),
        decreases changes.len() - i,
    {
        assert(cs.take(i + 1).drop_last() =~= cs.take(i as int));
        assert(cs.take(i + 1).last() == (changes@[i as int].kind, changes@[i as int].value@));
        match changes[i].kind {
            ChangeKind::Insert => added = added + 1,
            ChangeKind::Delete => removed = removed + 1,
            ChangeKind::Equal => equal = equal + 1,
        }
        i += 1;
    }
    assert(cs.take(changes.len() as int) =~= cs);
    (added, removed, equal)
}

/// The line differences between two texts: the rows of both views, the
/// counts of added, removed and unchanged lines, and the changed blocks.
/// The changes the rows are laid out from rebuild both texts: in order, the
/// unchanged and removed lines make up the left text, the unchanged and
/// added lines the right text. For a text without carriage returns, the
/// filled cells of its column of the split view are its lines.
pub fn compute_diff(left: &str, right: &str) -> (r: DiffResult)
    ensures
        ({
            let cs = line_diff(left@, right@);
            &&& r.unified_lines@.map_values(|d: DiffLine| d@) == unified_from(cs, 1, 1)
            &&& r.split_lines@.map_values(|s: SplitLine| s@) == split_from(cs, 1, 1)
            &&& r.added_count == count_kind(cs, ChangeKind::Insert)
            &&& r.removed_count == count_kind(cs, ChangeKind::Delete)
            &&& r.equal_count == count_kind(cs, ChangeKind::Equal)
            &&& hunks_view(r.diff_hunks@) == hunks_from(split_from(cs, 1, 1), 0, None)
            &&& old_side(cs) == left@
            &&& new_side(cs) == right@
            &&& no_cr(left@) ==> row_cells(split_from(cs, 1, 1), true) == lines_of(left@)
            &&& no_cr(right@) ==> row_cells(split_from(cs, 1, 1), false) == lines_of(right@)
        }),
{
    let changes = diff_lines(left, right);
    proof {
        let cs = changes_view(changes@);
        lemma_split_cells(cs, 1, 1);
        lemma_old_new_side(cs);
        assert forall|i: int| 0 <= i < cs.len() implies token_line(#[trigger] cs[i].1) by {
            assert(cs[i] == (changes@[i].kind, changes@[i].value@));
        }
        assert forall|i: int, j: int|
            #![trigger cs[i], cs[j]]
            0 <= i < j < cs.len() && cs[i].0 != ChangeKind::Insert && cs[j].0 != ChangeKind::Insert implies ends_line(
                cs[i].1,
            ) by {
            assert(cs[i] == (changes@[i].kind, changes@[i].value@));
            assert(cs[j] == (changes@[j].kind, changes@[j].value@));
        }
        assert forall|i: int, j: int|
            #![trigger cs[i], cs[j]]
            0 <= i < j < cs.len() && cs[i].0 != ChangeKind::Delete && cs[j].0 != ChangeKind::Delete implies ends_line(
                cs[i].1,
            ) by {
            assert(cs[i] == (changes@[i].kind, changes@[i].value@));
            assert(cs[j] == (changes@[j].kind, changes@[j].value@));
        }
        if no_cr(left@) {
            lemma_side_lines(cs, ChangeKind::Insert);
        }
        if no_cr(right@) {
            lemma_side_lines(cs, ChangeKind::Delete);
        }
    }
    let unified_lines = build_unified_lines(&changes);
    let split_lines = build_split_lines(&changes);
    let (added_count, removed_count, equal_count) = count_changes(&changes);
    let diff_hunks = find_diff_hunks(&split_lines);
    DiffResult { unified_lines, split_lines, added_count, removed_count, equal_count, diff_hunks }
}

/// The distance from a row to a block: zero inside it.
pub open spec fn hunk_distance(h: DiffHunk, line: usize) -> int {
    if line < h.start_line {
        h.start_line - line
    } else if line > h.end_line {
        line - h.end_line
    } else {
        0
    }
}

/// The block nearest to a row: the first of those at the least distance,
/// or none when there is no block (or every block is at the largest
/// representable distance).
pub fn find_nearest_diff_hunk(hunks: &[DiffHunk], line_index: usize) -> (r: Option<usize>)
    ensures
        match r {
            Some(i) => i < hunks@.len() && hunk_distance(hunks@[i as int], line_index) < usize::MAX
                && (forall|j: int| 0 <= j < hunks@.len() ==> hunk_distance(hunks@[i as int], line_index) <= #[trigger] hunk_distance(hunks@[j], line_index))
                && (forall|j: int| 0 <= j < i ==> hunk_distance(hunks@[i as int], line_index) < #[trigger] hunk_distance(hunks@[j], line_index)),
            None => forall|j: int| 0 <= j < hunks@.len() ==> #[trigger] hunk_distance(hunks@[j], line_index) == usize::MAX,
        },
{
    let mut nearest: Option<usize> = None;
    let mut nearest_distance: usize = usize::MAX;
    let mut i: usize = 0;
    while i < hunks.len()
        invariant
            i <= hunks@.len(),
            match nearest {
                Some(k) => k < i && nearest_distance == hunk_distance(hunks@[k as int], line_index)
                    && (forall|j: int| 0 <= j < i ==> nearest_distance <= #[trigger] hunk_distance(hunks@[j], line_index))
                    && (forall|j: int| 0 <= j < k ==> nearest_distance < #[trigger] hunk_distance(hunks@[j], line_index))
                    && nearest_distance < usize::MAX,
                None => nearest_distance == usize::MAX && forall|j: int| 0 <= j < i ==> #[trigger] hunk_distance(hunks@[j], line_index) == usize::MAX,
            },
        decreases hunks.len() - i,
    {
        let h = hunks[i];
        let distance = if line_index < h.start_line {
            h.start_line - line_index
        } else if line_index > h.end_line {
            line_index - h.end_line
        } else {
            0
        };
        if distance < nearest_distance {
            nearest = Some(i);
            nearest_distance = distance;
        }
        i += 1;
    }
    nearest
}

/// Whether a row belongs to the selected block.
pub fn is_current_diff_line(result: &DiffResult, current_diff_index: Option<usize>, line_index: usize) -> (r: bool)
    ensures
        r == match current_diff_index {
            Some(i) => i < result.diff_hunks@.len() && result.diff_hunks@[i as int].start_line <= line_index
                && line_index <= result.diff_hunks@[i as int].end_line,
            None => false,
        },
{
    match current_diff_index {
        Some(i) => {
            if i < result.diff_hunks.len() {
                let h = result.diff_hunks[i];
                line_index >= h.start_line && line_index <= h.end_line
            } else {
                false
            }
        },
        None => false,
    }
}

/// The block selected by moving to the previous or the next block from the
/// selected one among `count` blocks: the first block when none is selected
/// and moving forward; none when there is no block in that direction.
pub open spec fn target_block(count: nat, current: Option<usize>, previous: bool) -> Option<usize> {
    if count == 0 {
        None
    } else {
        match (previous, current) {
            (true, Some(i)) => if i >= 1 { Some((i - 1) as usize) } else { None },
            (true, None) => None,
            (false, Some(i)) => if i + 1 < count { Some((i + 1) as usize) } else { None },
            (false, None) => Some(0usize),
        }
    }
}

/// The block to select when moving to the previous or the next block.
pub fn navigate_target(hunk_count: usize, current: Option<usize>, previous: bool) -> (r: Option<usize>)
    ensures
        r == target_block(hunk_count as nat, current, previous),
{
    if hunk_count == 0 {
        return None;
    }
    let last = hunk_count - 1;
    match (previous, current) {
        (true, Some(i)) => if i >= 1 { Some(i - 1) } else { None },
        (true, None) => None,
        (false, Some(i)) => if i < last { Some(i + 1) } else { None },
        (false, None) => Some(0),
    }
}

/// The navigation bar above the split view.
pub struct NavigationBar {
    /// The selected block, kept only while it exists.
    pub current: Option<usize>,
    /// Whether the button to the previous block is enabled.
    pub can_go_previous: bool,
    /// Whether the button to the next block is enabled.
    pub can_go_next: bool,
    /// The position shown: "差异 i/n" for the selected block, else the count.
    pub label: String,
}

/// The selected block among `hunk_count`, kept only while it exists.
pub open spec fn kept_block(hunk_count: nat, current: Option<usize>) -> Option<usize> {
    match current {
        Some(i) => if i < hunk_count { Some(i) } else { None },
        None => None,
    }
}

/// The navigation bar for `hunk_count` changed blocks with `current`
/// selected: the previous button is enabled past the first block, the next
/// one before the last block or when none is selected (and there is one),
/// and the label gives the selected block's position or the number of
/// blocks.
pub fn navigation_bar(hunk_count: usize, current: Option<usize>) -> (r: NavigationBar)
    ensures
        r.current == kept_block(hunk_count as nat, current),
        r.can_go_previous == (hunk_count > 0 && (r.current matches Some(i) && i > 0)),
        r.can_go_next == (hunk_count > 0 && match r.current {
            Some(i) => i + 1 < hunk_count,
            None => true,
        }),
        r.label@ == match r.current {
            Some(i) => "差异 "@ + decimal((i + 1) as nat) + "/"@ + decimal(hunk_count as nat),
            None => "共 "@ + decimal(hunk_count as nat) + " 个差异"@,
        },
{
    let kept = match current {
        Some(i) => if i < hunk_count { Some(i) } else { None },
        None => None,
    };
    let can_go_previous = hunk_count > 0 && match kept {
        Some(i) => i > 0,
        None => false,
    };
    let can_go_next = hunk_count > 0 && match kept {
        Some(i) => i + 1 < hunk_count,
        None => true,
    };
    let label = match kept {
        Some(i) => {
            let mut m = String::from_str("差异 ");
            push_decimal(&mut m, i + 1);
            m.append("/");
            push_decimal(&mut m, hunk_count);
            m
        },
        None => {
            let mut m = String::from_str("共 ");
            push_decimal(&mut m, hunk_count);
            m.append(" 个差异");
            m
        },
    };
    NavigationBar { current: kept, can_go_previous, can_go_next, label }
}

/// The selected block and the row to scroll to after moving to the previous
/// or next block, when there is one in that direction.
pub fn navigate_to_diff(result: &DiffResult, current: Option<usize>, previous: bool) -> (r: Option<(usize, usize)>)
    requires
        previous ==> (current matches Some(i) ==> i <= result.diff_hunks@.len()),
    ensures
        match target_block(result.diff_hunks@.len(), current, previous) {
            Some(t) => r == Some((t, result.diff_hunks@[t as int].start_line)),
            None => r is None,
        },
{
    match navigate_target(result.diff_hunks.len(), current, previous) {
        Some(t) => {
            assert(t < result.diff_hunks@.len());
            Some((t, result.diff_hunks[t].start_line))
        },
        None => None,
    }
}

/// The view of the diff tool.
#[derive(Debug, Clone, Copy, PartialEq, Eq)]
pub enum ViewMode {
    /// Editing the texts.
    Edit,
    /// Side by side.
    Split,
    /// One column.
    Unified,
}

} // verus!

verus! {

/// Number of rows of the given kind.
pub open spec fn count_rows(us: Seq<DiffLineView>, t: DiffType) -> nat
    decreases us.len(),
{
    if us.len() == 0 {
        0
    } else {
        (if us[0].diff_type == t { 1nat } else { 0nat }) + count_rows(us.drop_first(), t)
    }
}

pub proof fn lemma_count_kind_first(cs: Seq<(ChangeKind, Seq<char>)>, k: ChangeKind)
    requires
        cs.len() > 0,
    ensures
        count_kind(cs, k) == (if cs[0].0 == k { 1nat } else { 0nat }) + count_kind(cs.drop_first(), k),
    decreases cs.len(),
{
    if cs.len() > 1 {
        lemma_count_kind_first(cs.drop_last(), k);
        assert(cs.drop_last().drop_first() =~= cs.drop_first().drop_last());
        assert(cs.drop_first().last() == cs.last());
        assert(cs.drop_last()[0] == cs[0]);
        assert(count_kind(cs.drop_first(), k) == count_kind(cs.drop_first().drop_last(), k) + (if cs.drop_first().last().0 == k { 1nat } else { 0nat }));
    } else {
        assert(cs.drop_first().len() == 0);
        assert(cs.drop_last().len() == 0);
        assert(cs.last() == cs[0]);
        assert(count_kind(cs.drop_last(), k) == 0);
        assert(count_kind(cs.drop_first(), k) == 0);
    }
}

/// The unified view has one row per change, and it shows as many added,
/// removed and unchanged rows as the summary counts.
pub proof fn law_unified_rows_match_counts(cs: Seq<(ChangeKind, Seq<char>)>, l: nat, r: nat)
    ensures
        unified_from(cs, l, r).len() == cs.len(),
        count_rows(unified_from(cs, l, r), DiffType::Added) == count_kind(cs, ChangeKind::Insert),
        count_rows(unified_from(cs, l, r), DiffType::Removed) == count_kind(cs, ChangeKind::Delete),
        count_rows(unified_from(cs, l, r), DiffType::Equal) == count_kind(cs, ChangeKind::Equal),
    decreases cs.len(),
{
    if cs.len() > 0 {
        let rest = cs.drop_first();
        let (l2, r2) = match cs[0].0 {
            ChangeKind::Equal => (l + 1, r + 1),
            ChangeKind::Delete => (l + 1, r),
            ChangeKind::Insert => (l, r + 1),
        };
        law_unified_rows_match_counts(rest, l2, r2);
        lemma_count_kind_first(cs, ChangeKind::Insert);
        lemma_count_kind_first(cs, ChangeKind::Delete);
        lemma_count_kind_first(cs, ChangeKind::Equal);
        let u = unified_from(cs, l, r);
        assert(u.drop_first() =~= unified_from(rest, l2, r2));
    }
}

/// The text of one side: the tokens of every kind but `skip`, in order.
pub open spec fn side_text(cs: Seq<(ChangeKind, Seq<char>)>, skip: ChangeKind) -> Seq<char>
    decreases cs.len(),
{
    if cs.len() == 0 {
        seq![]
    } else {
        (if cs[0].0 != skip { cs[0].1 } else { seq![] }) + side_text(cs.drop_first(), skip)
    }
}

/// The cells of one side: the tokens of every kind but `skip`, in order,
/// without their trailing line feeds.
pub open spec fn side_cells(cs: Seq<(ChangeKind, Seq<char>)>, skip: ChangeKind) -> Seq<Seq<char>>
    decreases cs.len(),
{
    if cs.len() == 0 {
        seq![]
    } else if cs[0].0 != skip {
        seq![strip_newlines(cs[0].1)] + side_cells(cs.drop_first(), skip)
    } else {
        side_cells(cs.drop_first(), skip)
    }
}

/// The cell of a row in one column (the left one when `left`).
pub open spec fn cell_at(row: SplitLineView, left: bool) -> Option<Seq<char>> {
    if left { row.left_content } else { row.right_content }
}

/// The filled cells of one column of split rows (the left one when `left`),
/// from top to bottom.
pub open spec fn row_cells(rows: Seq<SplitLineView>, left: bool) -> Seq<Seq<char>>
    decreases rows.len(),
{
    if rows.len() == 0 {
        seq![]
    } else {
        let c = if left { rows[0].left_content } else { rows[0].right_content };
        match c {
            Some(t) => seq![t] + row_cells(rows.drop_first(), left),
            None => row_cells(rows.drop_first(), left),
        }
    }
}

pub proof fn lemma_row_cells_concat(a: Seq<SplitLineView>, b: Seq<SplitLineView>, left: bool)
    ensures
        row_cells(a + b, left) == row_cells(a, left) + row_cells(b, left),
    decreases a.len(),
{
    if a.len() == 0 {
        assert(a + b =~= b);
    } else {
        assert((a + b)[0] == a[0]);
        assert((a + b).drop_first() =~= a.drop_first() + b);
        lemma_row_cells_concat(a.drop_first(), b, left);
        let c = if left { a[0].left_content } else { a[0].right_content };
        match c {
            Some(t) => {
                assert(seq![t] + (row_cells(a.drop_first(), left) + row_cells(b, left)) =~= (seq![t] + row_cells(
                    a.drop_first(),
                    left,
                )) + row_cells(b, left));
            },
            None => {},
        }
    }
}

pub proof fn lemma_side_cells_concat(a: Seq<(ChangeKind, Seq<char>)>, b: Seq<(ChangeKind, Seq<char>)>, skip: ChangeKind)
    ensures
        side_cells(a + b, skip) == side_cells(a, skip) + side_cells(b, skip),
    decreases a.len(),
{
    if a.len() == 0 {
        assert(a + b =~= b);
    } else {
        assert((a + b)[0] == a[0]);
        assert((a + b).drop_first() =~= a.drop_first() + b);
        lemma_side_cells_concat(a.drop_first(), b, skip);
        if a[0].0 != skip {
            assert(seq![strip_newlines(a[0].1)] + (side_cells(a.drop_first(), skip) + side_cells(b, skip))
                =~= (seq![strip_newlines(a[0].1)] + side_cells(a.drop_first(), skip)) + side_cells(b, skip));
        }
    }
}

/// The cells of a run of tokens of one kind `k`: none when `k` is skipped,
/// else all of them.
pub proof fn lemma_side_cells_run(cs: Seq<(ChangeKind, Seq<char>)>, k: ChangeKind, skip: ChangeKind)
    requires
        forall|q: int| 0 <= q < cs.len() ==> #[trigger] cs[q].0 == k,
    ensures
        side_cells(cs, skip) == (if k == skip { Seq::<Seq<char>>::empty() } else { stripped_texts(cs) }),
    decreases cs.len(),
{
    if cs.len() > 0 {
        assert(cs[0].0 == k);
        assert forall|q: int| 0 <= q < cs.drop_first().len() implies #[trigger] cs.drop_first()[q].0 == k by {
            assert(cs.drop_first()[q] == cs[q + 1]);
        }
        lemma_side_cells_run(cs.drop_first(), k, skip);
        if k != skip {
            assert(stripped_texts(cs) =~= seq![strip_newlines(cs[0].1)] + stripped_texts(cs.drop_first()));
        }
    } else {
        assert(stripped_texts(cs) =~= Seq::<Seq<char>>::empty());
    }
}

/// Rows whose cells in one column are `cells` at the top and empty below.
pub proof fn lemma_prefix_cells(rows: Seq<SplitLineView>, cells: Seq<Seq<char>>, left: bool)
    requires
        cells.len() <= rows.len(),
        forall|j: int| 0 <= j < cells.len() ==> #[trigger] cell_at(rows[j], left) == Some(cells[j]),
        forall|j: int| cells.len() <= j < rows.len() ==> #[trigger] cell_at(rows[j], left) is None,
    ensures
        row_cells(rows, left) == cells,
    decreases rows.len(),
{
    if rows.len() > 0 {
        let rest = rows.drop_first();
        assert(cell_at(rows[0], left) == (if left { rows[0].left_content } else { rows[0].right_content }));
        if cells.len() > 0 {
            assert(cell_at(rows[0], left) == Some(cells[0]));
            let c2 = cells.drop_first();
            assert forall|j: int| 0 <= j < c2.len() implies #[trigger] cell_at(rest[j], left) == Some(c2[j]) by {
                assert(rest[j] == rows[j + 1]);
                assert(c2[j] == cells[j + 1]);
                assert(cell_at(rows[j + 1], left) == Some(cells[j + 1]));
            }
            assert forall|j: int| c2.len() <= j < rest.len() implies #[trigger] cell_at(rest[j], left) is None by {
                assert(rest[j] == rows[j + 1]);
            }
            lemma_prefix_cells(rest, c2, left);
            assert(cells =~= seq![cells[0]] + c2);
        } else {
            assert(cell_at(rows[0], left) is None);
            assert forall|j: int| 0 <= j < rest.len() implies #[trigger] cell_at(rest[j], left) is None by {
                assert(rest[j] == rows[j + 1]);
            }
            lemma_prefix_cells(rest, cells, left);
        }
    }
}

/// The left column of the split rows holds the left side's lines, and the
/// right column the right side's, each in order.
pub proof fn lemma_split_cells(cs: Seq<(ChangeKind, Seq<char>)>, l: nat, r: nat)
    ensures
        row_cells(split_from(cs, l, r), true) == side_cells(cs, ChangeKind::Insert),
        row_cells(split_from(cs, l, r), false) == side_cells(cs, ChangeKind::Delete),
    decreases cs.len(),
{
    if cs.len() > 0 {
        let c = strip_newlines(cs[0].1);
        match cs[0].0 {
            ChangeKind::Equal => {
                lemma_split_cells(cs.drop_first(), l + 1, r + 1);
                let rows = split_from(cs, l, r);
                assert(rows[0].left_content == Some(c));
                assert(rows.drop_first() =~= split_from(cs.drop_first(), l + 1, r + 1));
            },
            ChangeKind::Insert => {
                lemma_split_cells(cs.drop_first(), l, r + 1);
                let rows = split_from(cs, l, r);
                assert(rows.drop_first() =~= split_from(cs.drop_first(), l, r + 1));
            },
            ChangeKind::Delete => {
                let d = run_len(cs, ChangeKind::Delete);
                lemma_run_len(cs, ChangeKind::Delete);
                let after = cs.skip(d as int);
                let n = run_len(after, ChangeKind::Insert);
                lemma_run_len(after, ChangeKind::Insert);
                let dels = stripped_texts(cs.take(d as int));
                let ins = stripped_texts(after.take(n as int));
                let m = if d >= n { d } else { n };
                let block = Seq::new(m, |j: int| pair_row(dels, ins, j, l, r));
                let rest = cs.skip((d + n) as int);
                lemma_split_cells(rest, l + d, r + n);
                assert(split_from(cs, l, r) == block + split_from(rest, l + d, r + n));
                lemma_row_cells_concat(block, split_from(rest, l + d, r + n), true);
                lemma_row_cells_concat(block, split_from(rest, l + d, r + n), false);
                lemma_prefix_cells(block, dels, true);
                lemma_prefix_cells(block, ins, false);
                let dpart = cs.take(d as int);
                let ipart = after.take(n as int);
                assert forall|q: int| 0 <= q < dpart.len() implies #[trigger] dpart[q].0 == ChangeKind::Delete by {
                    assert(dpart[q] == cs[q]);
                }
                assert forall|q: int| 0 <= q < ipart.len() implies #[trigger] ipart[q].0 == ChangeKind::Insert by {
                    assert(ipart[q] == after[q]);
                }
                assert(cs =~= dpart + (ipart + rest));
                lemma_side_cells_concat(dpart, ipart + rest, ChangeKind::Insert);
                lemma_side_cells_concat(ipart, rest, ChangeKind::Insert);
                lemma_side_cells_concat(dpart, ipart + rest, ChangeKind::Delete);
                lemma_side_cells_concat(ipart, rest, ChangeKind::Delete);
                lemma_side_cells_run(dpart, ChangeKind::Delete, ChangeKind::Insert);
                lemma_side_cells_run(dpart, ChangeKind::Delete, ChangeKind::Delete);
                lemma_side_cells_run(ipart, ChangeKind::Insert, ChangeKind::Insert);
                lemma_side_cells_run(ipart, ChangeKind::Insert, ChangeKind::Delete);
                assert(Seq::<Seq<char>>::empty() + side_cells(rest, ChangeKind::Insert) =~= side_cells(rest, ChangeKind::Insert));
                assert(dels + (Seq::<Seq<char>>::empty() + side_cells(rest, ChangeKind::Insert)) =~= dels + side_cells(rest, ChangeKind::Insert));
                assert(Seq::<Seq<char>>::empty() + (ins + side_cells(rest, ChangeKind::Delete)) =~= ins + side_cells(rest, ChangeKind::Delete));
            },
        }
    }
}

pub proof fn lemma_old_new_side(cs: Seq<(ChangeKind, Seq<char>)>)
    ensures
        old_side(cs) == side_text(cs, ChangeKind::Insert),
        new_side(cs) == side_text(cs, ChangeKind::Delete),
    decreases cs.len(),
{
    if cs.len() > 0 {
        lemma_old_new_side(cs.drop_first());
    }
}

/// A side with no token left has no text and no cell.
pub proof fn lemma_empty_side(cs: Seq<(ChangeKind, Seq<char>)>, skip: ChangeKind)
    requires
        forall|q: int| 0 <= q < cs.len() ==> #[trigger] cs[q].0 == skip,
    ensures
        side_text(cs, skip) == Seq::<char>::empty(),
        side_cells(cs, skip) == Seq::<Seq<char>>::empty(),
    decreases cs.len(),
{
    if cs.len() > 0 {
        assert(cs[0].0 == skip);
        assert forall|q: int| 0 <= q < cs.drop_first().len() implies #[trigger] cs.drop_first()[q].0 == skip by {
            assert(cs.drop_first()[q] == cs[q + 1]);
        }
        lemma_empty_side(cs.drop_first(), skip);
        assert(Seq::<char>::empty() + Seq::<char>::empty() =~= Seq::<char>::empty());
    }
}

/// A text with no line feed (nor carriage return) at all is one line.
pub proof fn lemma_single_line(x: Seq<char>)
    requires
        x.len() > 0,
        forall|k: int| 0 <= k < x.len() ==> #[trigger] x[k] != '\n' && x[k] != '\r',
    ensures
        lines_of(x) == seq![x],
        strip_newlines(x) == x,
{
    crate::text::lemma_first_index_of(x, '\n');
    assert(x.last() == x[x.len() - 1]);
}

/// A line without carriage return, followed by one line feed, is one line.
pub proof fn lemma_line_with_break(t: Seq<char>)
    requires
        token_line(t),
        t.last() == '\n',
        no_cr(t),
    ensures
        lines_of(t) == seq![strip_newlines(t)],
{
    let x = t.drop_last();
    crate::text::lemma_first_index_of(t, '\n');
    let i = crate::text::first_index_of(t, '\n');
    assert forall|k: int| 0 <= k < x.len() implies #[trigger] x[k] != '\n' by {
        assert(x[k] == t[k]);
    }
    assert(t[t.len() - 1] == '\n');
    assert(i == t.len() - 1);
    assert(t.take(i) =~= x);
    assert(t.skip(i + 1) =~= Seq::<char>::empty());
    assert(lines_of(Seq::<char>::empty()) =~= Seq::<Seq<char>>::empty());
    if x.len() > 0 {
        assert(x.last() == t[x.len() - 1]);
        assert(x.last() != '\r');
        assert(x.last() != '\n');
    }
    assert(crate::text::strip_cr(x) == x);
    assert(lines_of(t) == seq![crate::text::strip_cr(t.take(i))].add(lines_of(t.skip(i + 1))));
    assert(lines_of(t) =~= seq![x]);
    assert(strip_newlines(t) == strip_newlines(x));
}

/// The lines of one side's text are its cells, when every token is one line,
/// every token but the last of the side ends with a terminator, and the
/// text holds no carriage return.
pub proof fn lemma_side_lines(cs: Seq<(ChangeKind, Seq<char>)>, skip: ChangeKind)
    requires
        forall|i: int| 0 <= i < cs.len() && cs[i].0 != skip ==> token_line(#[trigger] cs[i].1),
        forall|i: int, j: int|
            #![trigger cs[i], cs[j]]
            0 <= i < j < cs.len() && cs[i].0 != skip && cs[j].0 != skip ==> ends_line(cs[i].1),
        no_cr(side_text(cs, skip)),
    ensures
        lines_of(side_text(cs, skip)) == side_cells(cs, skip),
    decreases cs.len(),
{
    if cs.len() == 0 {
        assert(lines_of(Seq::<char>::empty()) =~= Seq::<Seq<char>>::empty());
    } else {
        let rest = cs.drop_first();
        let rt = side_text(rest, skip);
        let t = if cs[0].0 != skip { cs[0].1 } else { seq![] };
        assert(side_text(cs, skip) == t + rt);
        assert forall|k: int| 0 <= k < rt.len() implies #[trigger] rt[k] != '\r' by {
            assert(rt[k] == (t + rt)[t.len() + k]);
        }
        assert forall|i: int| 0 <= i < rest.len() && rest[i].0 != skip implies token_line(#[trigger] rest[i].1) by {
            assert(rest[i] == cs[i + 1]);
        }
        assert forall|i: int, j: int|
            #![trigger rest[i], rest[j]]
            0 <= i < j < rest.len() && rest[i].0 != skip && rest[j].0 != skip implies ends_line(rest[i].1) by {
            assert(rest[i] == cs[i + 1]);
            assert(rest[j] == cs[j + 1]);
        }
        if cs[0].0 == skip {
            assert(t + rt =~= rt);
            lemma_side_lines(rest, skip);
        } else {
            assert(token_line(t));
            assert forall|k: int| 0 <= k < t.len() implies #[trigger] t[k] != '\r' by {
                assert(t[k] == (t + rt)[k]);
            }
            if t.last() == '\n' {
                lemma_side_lines(rest, skip);
                lemma_line_with_break(t);
                crate::text::lemma_lines_of_append(t, rt);
            } else {
                assert(t.last() == t[t.len() - 1]);
                assert forall|q: int| 0 <= q < rest.len() implies #[trigger] rest[q].0 == skip by {
                    if rest[q].0 != skip {
                        assert(cs[q + 1] == rest[q]);
                        assert(ends_line(cs[0].1));
                    }
                }
                lemma_empty_side(rest, skip);
                assert forall|k: int| 0 <= k < t.len() implies #[trigger] t[k] != '\n' && t[k] != '\r' by {
                    if k == t.len() - 1 {
                    }
                }
                lemma_single_line(t);
                assert(t + rt =~= t);
                assert(side_cells(cs, skip) =~= seq![strip_newlines(t)]);
            }
        }
    }
}

/// A block of the split view: rows `h.0` to `h.1`, all changed, with no
/// changed row right before or right after it.
pub open spec fn maximal_changed_run(rows: Seq<SplitLineView>, h: (nat, nat)) -> bool {
    &&& h.0 <= h.1 < rows.len()
    &&& forall|i: int| h.0 <= i <= h.1 ==> row_changed(#[trigger] rows[i])
    &&& (h.0 == 0 || !row_changed(rows[h.0 - 1]))
    &&& (h.1 + 1 == rows.len() || !row_changed(rows[h.1 + 1 as int]))
}

/// The blocks from row `from` on, a block being open from `open`.
proof fn lemma_hunks_from(rows: Seq<SplitLineView>, from: nat, open: Option<nat>)
    requires
        from <= rows.len(),
        match open {
            Some(s) => s < from && (forall|i: int| s <= i < from ==> row_changed(#[trigger] rows[i]))
                && (s == 0 || !row_changed(rows[s - 1])),
            None => from == 0 || !row_changed(rows[from - 1]),
        },
    ensures
        ({
            let hs = hunks_from(rows, from, open);
            let lo: nat = match open {
                Some(s) => s,
                None => from,
            };
            &&& forall|k: int| 0 <= k < hs.len() ==> maximal_changed_run(rows, #[trigger] hs[k]) && lo <= hs[k].0
            &&& forall|k: int, l: int| 0 <= k < l < hs.len() ==> #[trigger] hs[k].1 < #[trigger] hs[l].0
            &&& forall|i: int|
                lo <= i < rows.len() && row_changed(#[trigger] rows[i]) ==> exists|k: int|
                    0 <= k < hs.len() && #[trigger] hs[k].0 <= i <= hs[k].1
        }),
    decreases rows.len() - from,
{
    let hs = hunks_from(rows, from, open);
    if from >= rows.len() {
        match open {
            Some(s) => {
                let h = (s, (rows.len() - 1) as nat);
                assert(hs == seq![h]);
                assert(maximal_changed_run(rows, h));
                assert forall|i: int| s <= i < rows.len() && row_changed(#[trigger] rows[i]) implies exists|k: int|
                    0 <= k < hs.len() && #[trigger] hs[k].0 <= i <= hs[k].1 by {
                    assert(hs[0] == h);
                }
            },
            None => {},
        }
    } else if row_changed(rows[from as int]) {
        let o2 = if open is Some { open } else { Some(from) };
        lemma_hunks_from(rows, from + 1, o2);
        assert(hs == hunks_from(rows, from + 1, o2));
        let rest = hunks_from(rows, from + 1, o2);
        assert forall|i: int| (match open { Some(s) => s as int, None => from as int }) <= i < rows.len() && row_changed(
            #[trigger] rows[i],
        ) implies exists|k: int| 0 <= k < hs.len() && #[trigger] hs[k].0 <= i <= hs[k].1 by {
            let k = choose|k: int| 0 <= k < rest.len() && #[trigger] rest[k].0 <= i <= rest[k].1;
        }
    } else {
        match open {
            Some(s) => {
                let h = (s, (from - 1) as nat);
                let rest = hunks_from(rows, from + 1, None);
                lemma_hunks_from(rows, from + 1, None);
                assert(hs == seq![h] + rest);
                assert(maximal_changed_run(rows, h));
                assert forall|k: int| 0 <= k < hs.len() implies maximal_changed_run(rows, #[trigger] hs[k]) && s <= hs[k].0 by {
                    if k > 0 {
                        assert(hs[k] == rest[k - 1]);
                    }
                }
                assert forall|k: int, l: int| 0 <= k < l < hs.len() implies #[trigger] hs[k].1 < #[trigger] hs[l].0 by {
                    assert(hs[l] == rest[l - 1]);
                    if k > 0 {
                        assert(hs[k] == rest[k - 1]);
                    }
                }
                assert forall|i: int| s <= i < rows.len() && row_changed(#[trigger] rows[i]) implies exists|k: int|
                    0 <= k < hs.len() && #[trigger] hs[k].0 <= i <= hs[k].1 by {
                    if i < from {
                        assert(hs[0] == h);
                    } else {
                        assert(i > from);
                        let k = choose|k: int| 0 <= k < rest.len() && #[trigger] rest[k].0 <= i <= rest[k].1;
                        assert(hs[k + 1] == rest[k]);
                    }
                }
            },
            None => {
                lemma_hunks_from(rows, from + 1, None);
                let rest = hunks_from(rows, from + 1, None);
                assert(hs == rest);
                assert forall|i: int| from <= i < rows.len() && row_changed(#[trigger] rows[i]) implies exists|k: int|
                    0 <= k < hs.len() && #[trigger] hs[k].0 <= i <= hs[k].1 by {
                    assert(i != from);
                    let k = choose|k: int| 0 <= k < rest.len() && #[trigger] rest[k].0 <= i <= rest[k].1;
                }
            },
        }
    }
}

/// The blocks of the split view are exactly its maximal runs of changed
/// rows: each block is changed throughout, with no changed row right before
/// or after it; the blocks come in order without overlapping; and every
/// changed row lies in a block.
pub proof fn law_hunks_are_maximal_changed_runs(rows: Seq<SplitLineView>)
    ensures
        forall|k: int|
            0 <= k < hunks_from(rows, 0, None).len() ==> maximal_changed_run(rows, #[trigger] hunks_from(rows, 0, None)[k]),
        forall|k: int, l: int|
            0 <= k < l < hunks_from(rows, 0, None).len() ==> #[trigger] hunks_from(rows, 0, None)[k].1
                < #[trigger] hunks_from(rows, 0, None)[l].0,
        forall|i: int|
            0 <= i < rows.len() && row_changed(#[trigger] rows[i]) ==> exists|k: int|
                0 <= k < hunks_from(rows, 0, None).len() && #[trigger] hunks_from(rows, 0, None)[k].0 <= i
                    <= hunks_from(rows, 0, None)[k].1,
{
    lemma_hunks_from(rows, 0, None);
}

} // verus!
