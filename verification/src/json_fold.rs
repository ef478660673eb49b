//! Folding of the JSON editor's output: which lines open an object or array
//! that closes on a later line, and which lines stay visible when some of
//! those regions are folded.

use vstd::prelude::*;
use std::collections::{BTreeMap, BTreeSet};
use crate::text::chars_of;

verus! {

/// A foldable region: an object or array opening on `start_line` and closing
/// on `end_line`, its closing bracket at byte `end_column` of that line.
#[derive(Clone, Copy, Debug, PartialEq, Eq)]
pub struct FoldRegion {
    pub start_line: usize,
    pub end_line: usize,
    pub end_column: usize,
}

/// A line shown in the output; when it opens a folded region, the last line
/// of that region.
#[derive(Clone, Copy, Debug, PartialEq, Eq)]
pub struct VisibleLine {
    pub line_index: usize,
    pub collapsed_end_line: Option<usize>,
}

/// The number of bytes of the UTF-8 encoding of `c` (`char::len_utf8`).
pub open spec fn utf8_width(c: char) -> nat {
    let u = c as u32;
    if u < 0x80 {
        1
    } else if u < 0x800 {
        2
    } else if u < 0x10000 {
        3
    } else {
        4
    }
}

/// The number of bytes of the UTF-8 encoding of `s`.
pub open spec fn utf8_len(s: Seq<char>) -> nat
    decreases s.len(),
{
    if s.len() == 0 {
        0
    } else {
        utf8_len(s.drop_last()) + utf8_width(s.last())
    }
}

/// The state of the scan that finds foldable regions.
pub struct ScanState {
    /// Open brackets not closed yet, with the line each opened on.
    pub stack: Seq<(char, nat)>,
    /// For each start line, the furthest end (line, byte column) found.
    pub regions: Map<nat, (nat, nat)>,
    /// The current line.
    pub line: nat,
    /// The byte offset where the current line starts.
    pub line_start: nat,
    /// The byte offset of the next character.
    pub byte: nat,
    /// Whether the scan is inside a string.
    pub in_string: bool,
    /// Whether the previous character inside a string was a backslash.
    pub escaped: bool,
}

/// Whether position `a` comes after position `b` (by line, then column).
pub open spec fn pos_after(a: (nat, nat), b: (nat, nat)) -> bool {
    a.0 > b.0 || (a.0 == b.0 && a.1 > b.1)
}

/// Records that a region starting on `start` ends at `end`, keeping the
/// furthest end for each start.
pub open spec fn record_end(m: Map<nat, (nat, nat)>, start: nat, end: (nat, nat)) -> Map<nat, (nat, nat)> {
    if m.contains_key(start) && !pos_after(end, m[start]) {
        m
    } else {
        m.insert(start, end)
    }
}

/// The bracket handling of one character outside strings and string
/// tracking inside them.
pub open spec fn scan_token(s: ScanState, c: char) -> ScanState {
    if s.in_string {
        if s.escaped {
            ScanState { escaped: false, ..s }
        } else if c == '\\' {
            ScanState { escaped: true, ..s }
        } else if c == '"' {
            ScanState { in_string: false, ..s }
        } else {
            s
        }
    } else if c == '"' {
        ScanState { in_string: true, ..s }
    } else if c == '{' || c == '[' {
        ScanState { stack: s.stack.push((c, s.line)), ..s }
    } else if (c == '}' || c == ']') && s.stack.len() > 0 {
        let (opening, start) = s.stack.last();
        let matching = (opening == '{' && c == '}') || (opening == '[' && c == ']');
        if matching && start < s.line {
            ScanState {
                stack: s.stack.drop_last(),
                regions: record_end(s.regions, start, (s.line, (s.byte - s.line_start) as nat)),
                ..s
            }
        } else {
            ScanState { stack: s.stack.drop_last(), ..s }
        }
    } else {
        s
    }
}

/// One step of the scan: the character's token, then the byte and line
/// counters.
pub open spec fn scan_step(s: ScanState, c: char) -> ScanState {
    let t = scan_token(s, c);
    let b = t.byte + utf8_width(c);
    if c == '\n' {
        ScanState { byte: b, line: t.line + 1, line_start: b, ..t }
    } else {
        ScanState { byte: b, ..t }
    }
}

/// The state before any character.
pub open spec fn scan_start() -> ScanState {
    ScanState {
        stack: seq![],
        regions: Map::empty(),
        line: 0,
        line_start: 0,
        byte: 0,
        in_string: false,
        escaped: false,
    }
}

/// The state after scanning `s`.
pub open spec fn scan(s: Seq<char>) -> ScanState
    decreases s.len(),
{
    if s.len() == 0 {
        scan_start()
    } else {
        scan_step(scan(s.drop_last()), s.last())
    }
}

/// `v` lists the regions of `m`, one per start line, by increasing start line.
pub open spec fn lists_regions(v: Seq<FoldRegion>, m: Map<nat, (nat, nat)>) -> bool {
    &&& forall|i: int, j: int| 0 <= i < j < v.len() ==> #[trigger] v[i].start_line < #[trigger] v[j].start_line
    &&& forall|i: int|
        0 <= i < v.len() ==> m.contains_key(#[trigger] v[i].start_line as nat) && m[v[i].start_line as nat] == (
            v[i].end_line as nat,
            v[i].end_column as nat,
        )
    &&& forall|k: nat| m.contains_key(k) ==> exists|i: int| 0 <= i < v.len() && #[trigger] v[i].start_line == k
}

/// `m` holds, for each start line, the furthest end found: the same
/// entries as `r`, as machine integers.
pub open spec fn mirrors(m: Map<usize, (usize, usize)>, r: Map<nat, (nat, nat)>) -> bool {
    &&& forall|k: usize| #[trigger] m.contains_key(k) <==> r.contains_key(k as nat)
    &&& forall|k: usize| #[trigger] m.contains_key(k) ==> r[k as nat] == (m[k].0 as nat, m[k].1 as nat)
    &&& forall|k: nat| #[trigger] r.contains_key(k) ==> k <= usize::MAX
}

/// Records an end in the map of regions, keeping the furthest end for each
/// start line.
fn record_region(
    regions: &mut BTreeMap<usize, (usize, usize)>,
    start: usize,
    end_line: usize,
    end_column: usize,
    Ghost(r): Ghost<Map<nat, (nat, nat)>>,
)
    requires
        mirrors(old(regions)@, r),
    ensures
        mirrors(final(regions)@, record_end(r, start as nat, (end_line as nat, end_column as nat))),
{
    let ghost r2 = record_end(r, start as nat, (end_line as nat, end_column as nat));
    let further = match regions.get(&start) {
        Some(end) => end_line > end.0 || (end_line == end.0 && end_column > end.1),
        None => true,
    };
    if further {
        regions.insert(start, (end_line, end_column));
        proof {
            assert forall|k: usize| #[trigger] regions@.contains_key(k) <==> r2.contains_key(k as nat) by {}
            assert forall|k: usize| #[trigger] regions@.contains_key(k) implies r2[k as nat] == (
                regions@[k].0 as nat,
                regions@[k].1 as nat,
            ) by {}
        }
    } else {
        assert(r2 == r);
    }
}

/// Whether each start line of `v` comes before the next.
pub open spec fn increasing_starts(v: Seq<FoldRegion>) -> bool {
    forall|i: int, j: int| 0 <= i < j < v.len() ==> #[trigger] v[i].start_line < #[trigger] v[j].start_line
}

/// The region written for an entry of the map of regions.
pub open spec fn entry_region(p: (&usize, &(usize, usize))) -> FoldRegion {
    FoldRegion { start_line: *p.0, end_line: p.1.0, end_column: p.1.1 }
}

/// The keys of a strictly increasing sequence of entries are increasing.
proof fn lemma_increasing_keys(s: Seq<(&usize, &(usize, usize))>)
    requires
        vstd::std_specs::btree::increasing_seq(s.map_values(|kv: (&usize, &(usize, usize))| *kv.0)),
    ensures
        increasing_starts(s.map_values(|p: (&usize, &(usize, usize))| entry_region(p))),
{
    let ks = s.map_values(|kv: (&usize, &(usize, usize))| *kv.0);
    let v = s.map_values(|p: (&usize, &(usize, usize))| entry_region(p));
    assert forall|i: int, j: int| 0 <= i < j < v.len() implies #[trigger] v[i].start_line < #[trigger] v[j].start_line by {
        assert(vstd::std_specs::cmp::OrdSpec::cmp_spec(&ks[i], &ks[j]) is Less);
        assert(v[i].start_line == ks[i]);
        assert(v[j].start_line == ks[j]);
    }
}

/// The regions of the map, one per start line, by increasing start line.
fn regions_of_map(m: &BTreeMap<usize, (usize, usize)>) -> (v: Vec<FoldRegion>)
    ensures
        increasing_starts(v@),
        forall|i: int| 0 <= i < v@.len() ==> m@.contains_key(#[trigger] v@[i].start_line) && m@[v@[i].start_line] == (
            v@[i].end_line,
            v@[i].end_column,
        ),
        forall|k: usize| m@.contains_key(k) ==> exists|i: int| 0 <= i < v@.len() && #[trigger] v@[i].start_line == k,
{
    let mut v: Vec<FoldRegion> = Vec::new();
    for entry in it: m.iter()
        invariant
            v@ == it.seq().take(it.index()).map_values(|p: (&usize, &(usize, usize))| entry_region(p)),
    {
        let (k, e) = entry;
        v.push(FoldRegion { start_line: *k, end_line: e.0, end_column: e.1 });
        proof {
            assert(it.seq().take(it.index() + 1) =~= it.seq().take(it.index()).push(entry));
        }
    }
    proof {
        let rs = vstd::std_specs::iter::IteratorSpec::remaining(&vstd::std_specs::btree::spec_btree_map_iter(m));
        assert(v@ == rs.map_values(|p: (&usize, &(usize, usize))| entry_region(p)));
        lemma_increasing_keys(rs);
        assert forall|k: usize| m@.contains_key(k) implies exists|i: int| 0 <= i < v@.len() && #[trigger] v@[i].start_line == k by {
            assert(rs.contains((&k, &m@[k])));
            let i = choose|i: int| 0 <= i < rs.len() && rs[i] == (&k, &m@[k]);
            assert(v@[i].start_line == k);
        }
    }
    v
}

/// The width in bytes of one character.
fn char_width(c: char) -> (r: usize)
    ensures
        r == utf8_width(c),
{
    let u = c as u32;
    if u < 0x80 {
        1
    } else if u < 0x800 {
        2
    } else if u < 0x10000 {
        3
    } else {
        4
    }
}

pub proof fn lemma_scan_counters(s: Seq<char>)
    ensures
        scan(s).byte == utf8_len(s),
        scan(s).line_start <= scan(s).byte,
        scan(s).line <= s.len(),
    decreases s.len(),
{
    if s.len() > 0 {
        lemma_scan_counters(s.drop_last());
    }
}

pub proof fn lemma_utf8_len_prefix(s: Seq<char>, n: int)
    requires
        0 <= n <= s.len(),
    ensures
        utf8_len(s.take(n)) <= utf8_len(s),
    decreases s.len(),
{
    if n < s.len() {
        assert(s.drop_last().take(n) =~= s.take(n));
        lemma_utf8_len_prefix(s.drop_last(), n);
    } else {
        assert(s.take(n) =~= s);
    }
}

/// The stack of open brackets as pairs of a bracket and a line.
pub open spec fn stack_view(v: Seq<(char, usize)>) -> Seq<(char, nat)> {
    v.map_values(|p: (char, usize)| (p.0, p.1 as nat))
}

/// Finds the objects and arrays of a JSON text that open on one line and
/// close on a later one, ignoring brackets inside strings.
///
/// There is one region per start line, listed by start line; when several
/// regions open on the same line, the one ending furthest is kept. A
/// closing bracket that does not match the innermost open one closes it
/// without making a region.
pub fn find_fold_regions(text: &str) -> (r: Vec<FoldRegion>)
    requires
        utf8_len(text@) <= usize::MAX,
    ensures
        lists_regions(r@, scan(text@).regions),
{
    let chars = chars_of(text);
    let mut stack: Vec<(char, usize)> = Vec::new();
    let mut regions: BTreeMap<usize, (usize, usize)> = BTreeMap::new();
    let mut line: usize = 0;
    let mut line_start: usize = 0;
    let mut byte: usize = 0;
    let mut in_string = false;
    let mut escaped = false;
    let mut i: usize = 0;
    assert(chars@.take(0) =~= Seq::<char>::empty());
    assert(stack_view(stack@) =~= Seq::<(char, nat)>::empty());
    while i < chars.len()
        invariant
            i <= chars.len(),
            chars@ == text@,
            utf8_len(text@) <= usize::MAX,
            stack_view(stack@) == scan(chars@.take(i as int)).stack,
            mirrors(regions@, scan(chars@.take(i as int)).regions),
            line == scan(chars@.take(i as int)).line,
            line_start == scan(chars@.take(i as int)).line_start,
            byte == scan(chars@.take(i as int)).byte,
            in_string == scan(chars@.take(i as int)).in_string,
            escaped == scan(chars@.take(i as int)).escaped,
        decreases chars.len() - i,
    {
        let c = chars[i];
        let ghost pre = chars@.take(i as int);
        let ghost st = scan(pre);
        proof {
            assert(chars@.take(i + 1).drop_last() =~= pre);
            assert(chars@.take(i + 1).last() == c);
            lemma_scan_counters(pre);
            lemma_scan_counters(chars@.take(i + 1));
            lemma_utf8_len_prefix(chars@, i + 1);
        }
        if in_string {
            if escaped {
                escaped = false;
            } else if c == '\\' {
                escaped = true;
            } else if c == '"' {
                in_string = false;
            }
        } else if c == '"' {
            in_string = true;
        } else if c == '{' || c == '[' {
            stack.push((c, line));
            assert(stack_view(stack@) =~= st.stack.push((c, line as nat)));
        } else if (c == '}' || c == ']') && stack.len() > 0 {
            let ghost sv = stack@;
            let top = stack.pop().unwrap();
            assert(top == sv.last());
            assert(stack_view(stack@) =~= st.stack.drop_last());
            assert(st.stack.last() == (top.0, top.1 as nat));
            let opening = top.0;
            let start = top.1;
            let matching = (opening == '{' && c == '}') || (opening == '[' && c == ']');
            if matching && start < line {
                record_region(&mut regions, start, line, byte - line_start, Ghost(st.regions));
            }
        }
        let w = char_width(c);
        byte = byte + w;
        if c == '\n' {
            line = line + 1;
            line_start = byte;
        }
        i += 1;
    }
    assert(chars@.take(chars.len() as int) =~= chars@);
    let v = regions_of_map(&regions);
    proof {
        let r = scan(text@).regions;
        assert forall|k: nat| r.contains_key(k) implies exists|a: int| 0 <= a < v@.len() && #[trigger] v@[a].start_line == k by {
            let ku = k as usize;
            assert(ku as nat == k);
            assert(regions@.contains_key(ku));
        }
    }
    v
}

/// The end line of the last region among `regions` starting on `line`, if
/// any (later regions with the same start line take precedence).
pub open spec fn region_end(regions: Seq<FoldRegion>, line: nat) -> Option<nat>
    decreases regions.len(),
{
    if regions.len() == 0 {
        None
    } else if regions.last().start_line == line {
        Some(regions.last().end_line as nat)
    } else {
        region_end(regions.drop_last(), line)
    }
}

/// The folded end of `line`: the end of its region when that region is folded.
pub open spec fn folded_end(regions: Seq<FoldRegion>, collapsed: Set<usize>, line: nat) -> Option<nat> {
    if collapsed.contains(line as usize) {
        region_end(regions, line)
    } else {
        None
    }
}

/// The lines shown from `line` on, of `count` lines: each shown line is
/// followed by the next line, or, when it starts a folded region, by the line
/// after that region's end.
pub open spec fn shown_from(line: nat, count: nat, regions: Seq<FoldRegion>, collapsed: Set<usize>) -> Seq<(nat, Option<nat>)>
    decreases count - line,
{
    if line >= count {
        seq![]
    } else {
        let e = folded_end(regions, collapsed, line);
        let next: nat = match e {
            Some(end) => end + 1,
            None => line + 1,
        };
        if next <= line || next >= count {
            seq![(line, e)]
        } else {
            seq![(line, e)] + shown_from(next, count, regions, collapsed)
        }
    }
}

/// The model of a shown line.
pub open spec fn visible_view(v: VisibleLine) -> (nat, Option<nat>) {
    (
        v.line_index as nat,
        match v.collapsed_end_line {
            Some(e) => Some(e as nat),
            None => None,
        },
    )
}

/// Every region ends on or after its start line, before the largest line number.
pub open spec fn regions_ordered(regions: Seq<FoldRegion>) -> bool {
    forall|i: int| 0 <= i < regions.len() ==> #[trigger] regions[i].start_line <= regions[i].end_line
        && regions[i].end_line < usize::MAX
}

pub proof fn lemma_region_end_bounds(regions: Seq<FoldRegion>, line: nat)
    requires
        regions_ordered(regions),
    ensures
        region_end(regions, line) matches Some(e) ==> line <= e < usize::MAX,
    decreases regions.len(),
{
    if regions.len() > 0 {
        assert(regions[regions.len() - 1] == regions.last());
        let d = regions.drop_last();
        assert forall|i: int| 0 <= i < d.len() implies #[trigger] d[i].start_line <= d[i].end_line
            && d[i].end_line < usize::MAX by {
            assert(d[i] == regions[i]);
        }
        lemma_region_end_bounds(d, line);
    }
}

/// Whether the region starting on `line` is folded.
fn is_folded(collapsed: &BTreeSet<usize>, line: usize) -> (r: bool)
    ensures
        r == collapsed@.contains(line),
{
    broadcast use vstd::laws_cmp::group_laws_cmp, vstd::std_specs::btree::group_btree_axioms;

    collapsed.contains(&line)
}

/// The end line of the last region starting on `line`.
fn find_region_end(regions: &[FoldRegion], line: usize) -> (r: Option<usize>)
    ensures
        match r {
            Some(e) => region_end(regions@, line as nat) == Some(e as nat),
            None => region_end(regions@, line as nat) is None,
        },
{
    let mut i = regions.len();
    assert(regions@.take(i as int) =~= regions@);
    while i > 0
        invariant
            i <= regions.len(),
            region_end(regions@, line as nat) == region_end(regions@.take(i as int), line as nat),
        decreases i,
    {
        let ghost t = regions@.take(i as int);
        assert(t.last() == regions@[i - 1]);
        assert(t.drop_last() =~= regions@.take(i - 1));
        if regions[i - 1].start_line == line {
            return Some(regions[i - 1].end_line);
        }
        i -= 1;
    }
    None
}

/// The lines shown when the regions starting on the lines in `collapsed` are
/// folded.
pub fn visible_lines(line_count: usize, regions: &[FoldRegion], collapsed_regions: &BTreeSet<usize>) -> (r: Vec<VisibleLine>)
    requires
        regions_ordered(regions@),
    ensures
        r@.map_values(|v: VisibleLine| visible_view(v)) == shown_from(0, line_count as nat, regions@, collapsed_regions@),
{
    let mut out: Vec<VisibleLine> = Vec::new();
    let mut line: usize = 0;
    while line < line_count
        invariant
            regions_ordered(regions@),
            shown_from(0, line_count as nat, regions@, collapsed_regions@) == out@.map_values(|v: VisibleLine| visible_view(v))
                + shown_from(line as nat, line_count as nat, regions@, collapsed_regions@),
        decreases usize::MAX - line,
    {
        let ghost before = out@.map_values(|v: VisibleLine| visible_view(v));
        let folded = if is_folded(collapsed_regions, line) {
            find_region_end(regions, line)
        } else {
            None
        };
        proof {
            lemma_region_end_bounds(regions@, line as nat);
        }
        let entry = VisibleLine { line_index: line, collapsed_end_line: folded };
        out.push(entry);
        assert(out@.map_values(|v: VisibleLine| visible_view(v)) =~= before.push(visible_view(entry)));
        let next = match folded {
            Some(end) => end + 1,
            None => line + 1,
        };
        if next >= line_count {
            assert(shown_from(next as nat, line_count as nat, regions@, collapsed_regions@) =~= Seq::<(nat, Option<nat>)>::empty());
        }
        assert(before + shown_from(line as nat, line_count as nat, regions@, collapsed_regions@) =~= before.push(
            visible_view(entry),
        ) + shown_from(next as nat, line_count as nat, regions@, collapsed_regions@));
        line = next;
    }
    assert(shown_from(line as nat, line_count as nat, regions@, collapsed_regions@) =~= Seq::<(nat, Option<nat>)>::empty());
    assert(out@.map_values(|v: VisibleLine| visible_view(v)) + Seq::<(nat, Option<nat>)>::empty() =~= out@.map_values(
        |v: VisibleLine| visible_view(v),
    ));
    out
}

/// What follows byte `col` of `line`, when `col` falls on a character
/// boundary (`str::get(col..)`).
pub open spec fn suffix_from_byte(line: Seq<char>, col: nat) -> Option<Seq<char>> {
    if exists|k: int| 0 <= k <= line.len() && #[trigger] utf8_len(line.take(k)) == col {
        let k = choose|k: int| 0 <= k <= line.len() && #[trigger] utf8_len(line.take(k)) == col;
        Some(line.skip(k))
    } else {
        None
    }
}

pub proof fn lemma_utf8_len_strict(s: Seq<char>, a: int, b: int)
    requires
        0 <= a < b <= s.len(),
    ensures
        utf8_len(s.take(a)) < utf8_len(s.take(b)),
    decreases b - a,
{
    let t = s.take(b);
    assert(t.drop_last() =~= s.take(b - 1));
    if a < b - 1 {
        lemma_utf8_len_strict(s, a, b - 1);
    }
}

/// The closing bracket of a region and what follows it on its last line, or
/// none when that line or column does not exist.
pub fn folded_closing_suffix(lines: &[&str], region: FoldRegion) -> (r: Option<String>)
    ensures
        match r {
            Some(t) => region.end_line < lines@.len() && suffix_from_byte(lines@[region.end_line as int]@, region.end_column as nat) == Some(t@),
            None => region.end_line >= lines@.len() || suffix_from_byte(lines@[region.end_line as int]@, region.end_column as nat) is None,
        },
{
    if region.end_line >= lines.len() {
        return None;
    }
    let line = chars_of(lines[region.end_line]);
    let col = region.end_column as u128;
    let mut acc: u128 = 0;
    let mut k: usize = 0;
    assert(line@.take(0) =~= Seq::<char>::empty());
    while k < line.len() && acc < col
        invariant
            k <= line.len(),
            acc == utf8_len(line@.take(k as int)),
            acc <= 4 * k,
            k <= usize::MAX,
            k > 0 ==> utf8_len(line@.take(k - 1)) < col,
        decreases line.len() - k,
    {
        assert(line@.take(k + 1).drop_last() =~= line@.take(k as int));
        acc = acc + char_width(line[k]) as u128;
        k += 1;
    }
    let ghost l = line@;
    if acc == col {
        let ghost kk = k as int;
        assert(utf8_len(l.take(kk)) == col);
        proof {
            let c = choose|c: int| 0 <= c <= l.len() && #[trigger] utf8_len(l.take(c)) == col;
            if c < kk {
                lemma_utf8_len_strict(l, c, kk);
            } else if c > kk {
                lemma_utf8_len_strict(l, kk, c);
            }
            assert(c == kk);
            assert(l == lines@[region.end_line as int]@);
            assert(suffix_from_byte(l, region.end_column as nat) == Some(l.skip(kk)));
        }
        let s = crate::text::string_from_range(&line, k, line.len());
        assert(l.subrange(kk, l.len() as int) =~= l.skip(kk));
        Some(s)
    } else {
        proof {
            if exists|c: int| 0 <= c <= l.len() && #[trigger] utf8_len(l.take(c)) == col {
                let c = choose|c: int| 0 <= c <= l.len() && #[trigger] utf8_len(l.take(c)) == col;
                if acc < col {
                    assert(k == l.len());
                    assert(l.take(k as int) =~= l);
                    if c < k {
                        lemma_utf8_len_strict(l, c, k as int);
                    } else {
                        assert(l.take(c) =~= l);
                    }
                } else {
                    if c < k {
                        assert(k >= 1);
                        assert(l.take(k as int).drop_last() =~= l.take(k - 1));
                        if c < k - 1 {
                            lemma_utf8_len_strict(l, c, k - 1);
                        }
                    } else if c > k {
                        lemma_utf8_len_strict(l, k as int, c);
                    }
                }
            }
            assert(l == lines@[region.end_line as int]@);
        }
        None
    }
}

/// The text shown after the first line of a folded region: an ellipsis and
/// the trimmed closing line.
pub fn folded_placeholder(closing_line: &str) -> (r: String)
    ensures
        r@ == "  …  "@ + crate::text::trim(closing_line@),
{
    let t = crate::text::trim_chars(&chars_of(closing_line));
    let mut s = String::from_str("  …  ");
    crate::text::push_chars(&mut s, &t);
    s
}

/// The JSON editor's text and status, apart from drawing.
pub struct JsonEditorState {
    pub input: String,
    pub output: String,
    pub status_msg: String,
    pub status_is_error: bool,
    /// Size of the input in bytes.
    pub bytes: usize,
    /// Number of lines of the input.
    pub lines: usize,
    /// Whether the input is a JSON document.
    pub valid: bool,
    /// Start lines of the folded regions of the output.
    pub collapsed_output_regions: BTreeSet<usize>,
}

impl JsonEditorState {
    /// Empty input and output, status "就绪".
    pub fn new() -> (r: Self)
        ensures
            r.input@.len() == 0,
            r.output@.len() == 0,
            r.status_msg@ == "就绪"@,
            !r.status_is_error,
            r.bytes == 0,
            r.lines == 0,
            !r.valid,
            r.collapsed_output_regions@.len() == 0,
    {
        let set = BTreeSet::new();
        proof {
            broadcast use vstd::std_specs::btree::group_btree_axioms;
        }
        JsonEditorState {
            input: String::new(),
            output: String::new(),
            status_msg: String::from_str("就绪"),
            status_is_error: false,
            bytes: 0,
            lines: 0,
            valid: false,
            collapsed_output_regions: set,
        }
    }

    /// Recomputes the statistics of the input.
    pub fn update_stats(&mut self)
        requires
            vstd::utf8::encode_utf8(old(self).input@).len() <= usize::MAX,
        ensures
            final(self).bytes == vstd::utf8::encode_utf8(old(self).input@).len(),
            final(self).lines == crate::text::lines_of(old(self).input@).len(),
            final(self).valid == crate::json::is_json(old(self).input@),
            final(self).input == old(self).input,
            final(self).output == old(self).output,
            final(self).status_msg == old(self).status_msg,
            final(self).status_is_error == old(self).status_is_error,
            final(self).collapsed_output_regions == old(self).collapsed_output_regions,
    {
        let (bytes, lines, valid) = crate::json::json_stats(self.input.as_str());
        self.bytes = bytes;
        self.lines = lines;
        self.valid = valid;
    }

    /// Shows the outcome of an operation: a failure shows its message; a
    /// success replaces the output when it has one and shows its message, or
    /// "✓ 操作成功" without one. Folded regions are unfolded.
    pub fn apply_result(&mut self, result: crate::json::ProcessResult)
        ensures
            final(self).input == old(self).input,
            final(self).bytes == old(self).bytes,
            final(self).lines == old(self).lines,
            final(self).valid == old(self).valid,
            final(self).collapsed_output_regions@.len() == 0,
            final(self).status_is_error == result.is_error,
            result.is_error ==> final(self).status_msg == result.message && final(self).output == old(self).output,
            !result.is_error ==> {
                &&& final(self).output == if result.output@.len() == 0 { old(self).output } else { result.output }
                &&& final(self).status_msg@ == if result.message@.len() == 0 { "✓ 操作成功"@ } else { result.message@ }
            },
    {
        if result.is_error {
            self.status_msg = result.message;
            self.status_is_error = true;
        } else {
            if !result.output.as_str().is_empty() {
                self.output = result.output;
            }
            self.status_msg = if result.message.as_str().is_empty() {
                String::from_str("✓ 操作成功")
            } else {
                result.message
            };
            self.status_is_error = false;
        }
        self.collapsed_output_regions.clear();
        proof {
            broadcast use vstd::std_specs::btree::group_btree_axioms;
        }
    }
}

} // verus!

verus! {

pub proof fn lemma_shown_from_lower(line: nat, count: nat, regions: Seq<FoldRegion>, collapsed: Set<usize>)
    requires
        regions_ordered(regions),
    ensures
        forall|k: int| 0 <= k < shown_from(line, count, regions, collapsed).len()
            ==> #[trigger] shown_from(line, count, regions, collapsed)[k].0 >= line,
    decreases count - line,
{
    if line < count {
        lemma_region_end_bounds(regions, line);
        let e = folded_end(regions, collapsed, line);
        let next: nat = match e {
            Some(end) => end + 1,
            None => line + 1,
        };
        if !(next <= line || next >= count) {
            lemma_shown_from_lower(next, count, regions, collapsed);
            let s = shown_from(line, count, regions, collapsed);
            let rest = shown_from(next, count, regions, collapsed);
            assert forall|k: int| 0 <= k < s.len() implies #[trigger] s[k].0 >= line by {
                if k > 0 {
                    assert(s[k] == rest[k - 1]);
                }
            }
        }
    }
}

/// With no region folded, every line is shown, once and in order, unfolded.
pub proof fn law_nothing_folded_shows_every_line(line: nat, count: nat, regions: Seq<FoldRegion>)
    requires
        line <= count,
    ensures
        shown_from(line, count, regions, Set::<usize>::empty())
            == Seq::new((count - line) as nat, |i: int| ((line + i) as nat, None::<nat>)),
    decreases count - line,
{
    let s = shown_from(line, count, regions, Set::<usize>::empty());
    let want = Seq::new((count - line) as nat, |i: int| ((line + i) as nat, None::<nat>));
    if line < count {
        assert(folded_end(regions, Set::<usize>::empty(), line) is None);
        if line + 1 < count {
            law_nothing_folded_shows_every_line(line + 1, count, regions);
        }
        assert(s =~= want);
    } else {
        assert(s =~= want);
    }
}

/// The shown lines go strictly down the text, and no line inside a folded
/// region is shown after the line that starts it.
pub proof fn law_folded_lines_hidden(line: nat, count: nat, regions: Seq<FoldRegion>, collapsed: Set<usize>)
    requires
        regions_ordered(regions),
    ensures
        forall|i: int, j: int| 0 <= i < j < shown_from(line, count, regions, collapsed).len() ==> (
            #[trigger] shown_from(line, count, regions, collapsed)[i]).0 < (#[trigger] shown_from(line, count, regions, collapsed)[j]).0
            && (shown_from(line, count, regions, collapsed)[i].1 matches Some(e) ==> shown_from(line, count, regions, collapsed)[j].0 > e),
    decreases count - line,
{
    if line < count {
        lemma_region_end_bounds(regions, line);
        let e = folded_end(regions, collapsed, line);
        let next: nat = match e {
            Some(end) => end + 1,
            None => line + 1,
        };
        if !(next <= line || next >= count) {
            law_folded_lines_hidden(next, count, regions, collapsed);
            lemma_shown_from_lower(next, count, regions, collapsed);
            let s = shown_from(line, count, regions, collapsed);
            let rest = shown_from(next, count, regions, collapsed);
            assert forall|i: int, j: int| 0 <= i < j < s.len() implies #[trigger] s[i].0 < #[trigger] s[j].0
                && (s[i].1 matches Some(e) ==> s[j].0 > e) by {
                assert(s[j] == rest[j - 1]);
                if i > 0 {
                    assert(s[i] == rest[i - 1]);
                }
            }
        }
    }
}

} // verus!
