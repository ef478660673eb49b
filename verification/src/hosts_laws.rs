//! Properties that relate generating a managed block, checking its markers
//! and removing it again.

use vstd::prelude::*;
use crate::hosts::{
    TOOLS_BOX_END, TOOLS_BOX_START, HostsGroupView, HostsLineView, entries_text, entry_line, is_marker_line,
    plain_entry_line,
    format_entry_spec, group_text, groups_text, hosts_block_spec, markers_check, removed_text,
    sanitize_host_spec, sanitize_spec,
};
use crate::text::{
    is_ctrl, is_ws, lemma_line_seq_append, lemma_lines_of_append, lemma_lines_of_line_seq,
    lemma_trim_end_prefix, lemma_trim_start_suffix, lemma_trim_unchanged, line_seq, lines_of,
    plain_line, replace_char, trim, trim_end, trim_start, first_index_of, lemma_first_index_of,
    lemma_first_index_of_append, no_cr, strip_cr,
};

verus! {

/// The second line of every managed block.
pub open spec fn managed_note() -> Seq<char> {
    "# Managed by Tools Box - Do not edit manually"@
}

/// The heading line of an environment.
pub open spec fn heading_line(name: Seq<char>) -> Seq<char> {
    "# --- "@ + sanitize_host_spec(name) + " ---"@
}

/// The lines written for one environment.
pub open spec fn group_lines(g: HostsGroupView) -> Seq<Seq<char>> {
    if g.entries.len() == 0 {
        seq![]
    } else {
        seq![Seq::<char>::empty(), heading_line(g.name)] + g.entries.map_values(|e: HostsLineView| entry_line(e))
    }
}

/// The lines written for a sequence of environments.
pub open spec fn groups_lines(gs: Seq<HostsGroupView>) -> Seq<Seq<char>>
    decreases gs.len(),
{
    if gs.len() == 0 {
        seq![]
    } else {
        groups_lines(gs.drop_last()) + group_lines(gs.last())
    }
}

/// The lines of a managed block.
pub open spec fn block_lines(gs: Seq<HostsGroupView>) -> Seq<Seq<char>> {
    seq![TOOLS_BOX_START@, managed_note()] + groups_lines(gs) + seq![TOOLS_BOX_END@]
}

/// No entry of the environments writes a line that reads as a marker.
pub open spec fn no_marker_entries(gs: Seq<HostsGroupView>) -> bool {
    forall|i: int, j: int|
        0 <= i < gs.len() && 0 <= j < gs[i].entries.len() ==> !is_marker_line(
            entry_line(#[trigger] gs[i].entries[j]),
        )
}

/// A line with neither a line feed nor a carriage return.
pub open spec fn no_breaks(l: Seq<char>) -> bool {
    forall|i: int| 0 <= i < l.len() ==> #[trigger] l[i] != '\n' && l[i] != '\r'
}

pub proof fn lemma_no_breaks_plain(l: Seq<char>)
    requires
        no_breaks(l),
    ensures
        plain_line(l),
{
    if l.len() > 0 {
        assert(l[l.len() - 1] != '\r');
    }
}

pub proof fn lemma_trim_chars(s: Seq<char>)
    ensures
        forall|i: int| 0 <= i < trim(s).len() ==> exists|k: int| 0 <= k < s.len() && s[k] == #[trigger] trim(s)[i],
{
    lemma_trim_start_suffix(s);
    let t = trim_start(s);
    lemma_trim_end_prefix(t);
    let d = s.len() - t.len();
    assert forall|i: int| 0 <= i < trim(s).len() implies exists|k: int| 0 <= k < s.len() && s[k] == #[trigger] trim(s)[i] by {
        assert(trim(s)[i] == t[i]);
        assert(t[i] == s[d + i]);
    }
}

pub proof fn lemma_sanitize_no_ctrl(s: Seq<char>)
    ensures
        forall|i: int| 0 <= i < sanitize_spec(s).len() ==> !is_ctrl(#[trigger] sanitize_spec(s)[i]),
        forall|i: int| 0 <= i < sanitize_host_spec(s).len() ==> !is_ctrl(#[trigger] sanitize_host_spec(s)[i]),
{
    let m = s.map_values(|c: char| if is_ctrl(c) { ' ' } else { c });
    lemma_trim_chars(m);
    assert forall|i: int| 0 <= i < sanitize_spec(s).len() implies !is_ctrl(#[trigger] sanitize_spec(s)[i]) by {
        let k = choose|k: int| 0 <= k < m.len() && m[k] == trim(m)[i];
        assert(m[k] == (if is_ctrl(s[k]) { ' ' } else { s[k] }));
    }
    assert forall|i: int| 0 <= i < sanitize_host_spec(s).len() implies !is_ctrl(#[trigger] sanitize_host_spec(s)[i]) by {
        assert(sanitize_host_spec(s)[i] == (if sanitize_spec(s)[i] == '#' { ' ' } else { sanitize_spec(s)[i] }));
    }
}

pub proof fn lemma_no_ctrl_no_breaks(l: Seq<char>)
    requires
        forall|i: int| 0 <= i < l.len() ==> !is_ctrl(#[trigger] l[i]),
    ensures
        no_breaks(l),
{
    assert forall|i: int| 0 <= i < l.len() implies #[trigger] l[i] != '\n' && l[i] != '\r' by {
        assert(!is_ctrl(l[i]));
    }
}

pub proof fn lemma_no_breaks_concat(a: Seq<char>, b: Seq<char>)
    requires
        no_breaks(a),
        no_breaks(b),
    ensures
        no_breaks(a + b),
{
    assert forall|i: int| 0 <= i < (a + b).len() implies #[trigger] (a + b)[i] != '\n' && (a + b)[i] != '\r' by {
        if i < a.len() {
            assert((a + b)[i] == a[i]);
        } else {
            assert((a + b)[i] == b[i - a.len()]);
        }
    }
}

pub proof fn lemma_entry_line_no_breaks(e: HostsLineView)
    ensures
        no_breaks(entry_line(e)),
{
    reveal_strlit("\t\t");
    reveal_strlit(" # ");
    reveal_strlit("# ");
    lemma_sanitize_no_ctrl(e.ip);
    lemma_sanitize_no_ctrl(e.hostname);
    lemma_no_ctrl_no_breaks(sanitize_host_spec(e.ip));
    lemma_no_ctrl_no_breaks(sanitize_host_spec(e.hostname));
    assert(no_breaks("\t\t"@));
    lemma_no_breaks_concat(sanitize_host_spec(e.ip), "\t\t"@);
    lemma_no_breaks_concat(sanitize_host_spec(e.ip) + "\t\t"@, sanitize_host_spec(e.hostname));
    let base = sanitize_host_spec(e.ip) + "\t\t"@ + sanitize_host_spec(e.hostname);
    match e.comment {
        Some(c) => {
            lemma_sanitize_no_ctrl(c);
            lemma_no_ctrl_no_breaks(sanitize_spec(c));
            assert(no_breaks(" # "@));
            lemma_no_breaks_concat(base, " # "@);
            lemma_no_breaks_concat(base + " # "@, sanitize_spec(c));
        },
        None => {},
    }
    assert(no_breaks("# "@));
    lemma_no_breaks_concat("# "@, format_entry_spec(e));
    lemma_no_breaks_concat("# "@, plain_entry_line(e));
}

/// A line that reads as a marker no longer does once commented out again.
pub proof fn lemma_commented_marker_line(p: Seq<char>)
    requires
        is_marker_line(p),
    ensures
        !is_marker_line("# "@ + p),
{
    reveal_strlit("# ");
    reveal_strlit("# >>> Tools Box START >>>");
    reveal_strlit("# <<< Tools Box END <<<");
    lemma_trim_start_suffix(p);
    let a = trim_start(p);
    lemma_trim_end_prefix(a);
    lemma_trim_end_prefix(p);
    let e = trim_end(p);
    assert(trim(p).len() > 0);
    assert(a.len() > 0);
    assert(trim(p)[0] == a[0]);
    assert(a[0] == p[p.len() - a.len()]);
    if e.len() == 0 {
        assert(is_ws(p[p.len() - a.len()]));
        assert(false);
    }
    assert(e[0] == p[0]);
    let l = "# "@ + p;
    assert(l[0] == '#');
    crate::hosts_read::lemma_trim_start_nonws(l);
    crate::hosts_read::lemma_trim_end_concat("# "@, p);
    let t = trim(l);
    assert(t == "# "@ + e);
    assert(t[2] == p[0]);
    if !is_ws(p[0]) {
        assert(p.len() - a.len() == 0);
        assert(p[0] == a[0]);
        assert(p[0] == '#');
    }
    assert(TOOLS_BOX_START@[2] == '>');
    assert(TOOLS_BOX_END@[2] == '<');
}

/// No line written for an entry reads as a marker.
pub proof fn lemma_entry_line_not_marker(e: HostsLineView)
    ensures
        !is_marker_line(entry_line(e)),
{
    if is_marker_line(plain_entry_line(e)) {
        lemma_commented_marker_line(plain_entry_line(e));
    }
}

/// No environment writes an entry line that reads as a marker.
pub proof fn lemma_no_marker_entries(gs: Seq<HostsGroupView>)
    ensures
        no_marker_entries(gs),
{
    assert forall|i: int, j: int| 0 <= i < gs.len() && 0 <= j < gs[i].entries.len() implies !is_marker_line(
        entry_line(#[trigger] gs[i].entries[j]),
    ) by {
        lemma_entry_line_not_marker(gs[i].entries[j]);
    }
}

pub proof fn lemma_heading_line(name: Seq<char>)
    ensures
        no_breaks(heading_line(name)),
        !is_marker_line(heading_line(name)),
{
    reveal_strlit("# --- ");
    reveal_strlit(" ---");
    reveal_strlit("# >>> Tools Box START >>>");
    reveal_strlit("# <<< Tools Box END <<<");
    lemma_sanitize_no_ctrl(name);
    lemma_no_ctrl_no_breaks(sanitize_host_spec(name));
    assert(no_breaks("# --- "@));
    assert(no_breaks(" ---"@));
    lemma_no_breaks_concat("# --- "@, sanitize_host_spec(name));
    lemma_no_breaks_concat("# --- "@ + sanitize_host_spec(name), " ---"@);
    let h = heading_line(name);
    assert(h[0] == '#');
    assert(h[2] == '-');
    assert(h.last() == '-');
    lemma_trim_unchanged(h);
    assert(TOOLS_BOX_START@[2] == '>');
    assert(TOOLS_BOX_END@[2] == '<');
}

pub proof fn lemma_fixed_lines()
    ensures
        no_breaks(TOOLS_BOX_START@),
        no_breaks(TOOLS_BOX_END@),
        no_breaks(managed_note()),
        no_breaks(Seq::<char>::empty()),
        trim(TOOLS_BOX_START@) == TOOLS_BOX_START@,
        trim(TOOLS_BOX_END@) == TOOLS_BOX_END@,
        !is_marker_line(managed_note()),
        !is_marker_line(Seq::<char>::empty()),
        TOOLS_BOX_START@ != TOOLS_BOX_END@,
{
    reveal_strlit("# >>> Tools Box START >>>");
    reveal_strlit("# <<< Tools Box END <<<");
    reveal_strlit("# Managed by Tools Box - Do not edit manually");
    assert(no_breaks(TOOLS_BOX_START@));
    assert(no_breaks(TOOLS_BOX_END@));
    assert(no_breaks(managed_note()));
    lemma_trim_unchanged(TOOLS_BOX_START@);
    lemma_trim_unchanged(TOOLS_BOX_END@);
    lemma_trim_unchanged(managed_note());
    assert(managed_note()[2] == 'M');
    assert(TOOLS_BOX_START@[2] == '>');
    assert(TOOLS_BOX_END@[2] == '<');
    assert(trim(Seq::<char>::empty()) =~= Seq::<char>::empty());
}

pub proof fn lemma_entries_text(es: Seq<HostsLineView>)
    ensures
        entries_text(es) == line_seq(es.map_values(|e: HostsLineView| entry_line(e))),
    decreases es.len(),
{
    if es.len() > 0 {
        lemma_entries_text(es.drop_last());
        let m = es.map_values(|e: HostsLineView| entry_line(e));
        assert(m.drop_last() =~= es.drop_last().map_values(|e: HostsLineView| entry_line(e)));
        assert(entries_text(es) =~= line_seq(m));
    }
}

pub proof fn lemma_group_text(g: HostsGroupView)
    ensures
        group_text(g) == line_seq(group_lines(g)),
{
    if g.entries.len() > 0 {
        reveal_strlit("\n# --- ");
        reveal_strlit("# --- ");
        reveal_strlit(" ---\n");
        reveal_strlit(" ---");
        reveal_strlit("\n");
        lemma_entries_text(g.entries);
        let two = seq![Seq::<char>::empty(), heading_line(g.name)];
        let m = g.entries.map_values(|e: HostsLineView| entry_line(e));
        lemma_line_seq_append(two, m);
        assert(two.drop_last() =~= seq![Seq::<char>::empty()]);
        assert(seq![Seq::<char>::empty()].drop_last() =~= Seq::<Seq<char>>::empty());
        assert(line_seq(Seq::<Seq<char>>::empty()) =~= Seq::<char>::empty());
        assert(line_seq(seq![Seq::<char>::empty()]) =~= "\n"@);
        assert(line_seq(two) =~= "\n"@ + heading_line(g.name) + "\n"@);
        assert(group_text(g) =~= line_seq(two) + line_seq(m));
    } else {
        assert(line_seq(group_lines(g)) =~= Seq::<char>::empty());
    }
}

pub proof fn lemma_groups_text(gs: Seq<HostsGroupView>)
    ensures
        groups_text(gs) == line_seq(groups_lines(gs)),
    decreases gs.len(),
{
    if gs.len() > 0 {
        lemma_groups_text(gs.drop_last());
        lemma_group_text(gs.last());
        lemma_line_seq_append(groups_lines(gs.drop_last()), group_lines(gs.last()));
    }
}

pub proof fn lemma_block_text(gs: Seq<HostsGroupView>)
    ensures
        hosts_block_spec(gs) == line_seq(block_lines(gs)),
{
    reveal_strlit("\n");
    reveal_strlit("# Managed by Tools Box - Do not edit manually\n");
    reveal_strlit("# Managed by Tools Box - Do not edit manually");
    lemma_groups_text(gs);
    let head = seq![TOOLS_BOX_START@, managed_note()];
    let tail = seq![TOOLS_BOX_END@];
    lemma_line_seq_append(head, groups_lines(gs));
    lemma_line_seq_append(head + groups_lines(gs), tail);
    assert(head.drop_last() =~= seq![TOOLS_BOX_START@]);
    assert(seq![TOOLS_BOX_START@].drop_last() =~= Seq::<Seq<char>>::empty());
    assert(tail.drop_last() =~= Seq::<Seq<char>>::empty());
    assert(line_seq(Seq::<Seq<char>>::empty()) =~= Seq::<char>::empty());
    assert(line_seq(seq![TOOLS_BOX_START@]) =~= TOOLS_BOX_START@ + "\n"@);
    assert(line_seq(head) =~= TOOLS_BOX_START@ + "\n"@ + managed_note() + "\n"@);
    assert(line_seq(tail) =~= TOOLS_BOX_END@ + "\n"@);
    assert(hosts_block_spec(gs) =~= line_seq(head) + line_seq(groups_lines(gs)) + line_seq(tail));
}

pub proof fn lemma_groups_lines_shape(gs: Seq<HostsGroupView>)
    requires
        no_marker_entries(gs),
    ensures
        forall|i: int| 0 <= i < groups_lines(gs).len() ==> no_breaks(#[trigger] groups_lines(gs)[i])
            && !is_marker_line(groups_lines(gs)[i]),
    decreases gs.len(),
{
    if gs.len() > 0 {
        let d = gs.drop_last();
        assert forall|i: int, j: int|
            0 <= i < d.len() && 0 <= j < d[i].entries.len() implies !is_marker_line(
                entry_line(#[trigger] d[i].entries[j]),
            ) by {
            assert(d[i] == gs[i]);
        }
        lemma_groups_lines_shape(d);
        let g = gs.last();
        let gl = group_lines(g);
        assert forall|i: int| 0 <= i < gl.len() implies no_breaks(#[trigger] gl[i]) && !is_marker_line(gl[i]) by {
            lemma_fixed_lines();
            lemma_heading_line(g.name);
            if i >= 2 {
                let e = g.entries[i - 2];
                assert(gl[i] == entry_line(e));
                lemma_entry_line_no_breaks(e);
                assert(gs[gs.len() - 1].entries[i - 2] == e);
            }
        }
        let all = groups_lines(gs);
        assert forall|i: int| 0 <= i < all.len() implies no_breaks(#[trigger] all[i]) && !is_marker_line(all[i]) by {
            if i < groups_lines(d).len() {
                assert(all[i] == groups_lines(d)[i]);
            } else {
                assert(all[i] == gl[i - groups_lines(d).len()]);
            }
        }
    }
}

pub proof fn lemma_block_lines(gs: Seq<HostsGroupView>)
    requires
        no_marker_entries(gs),
    ensures
        lines_of(hosts_block_spec(gs)) == block_lines(gs),
        forall|i: int| 0 <= i < groups_lines(gs).len() ==> !is_marker_line(#[trigger] groups_lines(gs)[i]),
{
    lemma_block_text(gs);
    lemma_groups_lines_shape(gs);
    lemma_fixed_lines();
    let b = block_lines(gs);
    let n = groups_lines(gs).len();
    assert forall|i: int| 0 <= i < b.len() implies plain_line(#[trigger] b[i]) by {
        if i == 0 {
            lemma_no_breaks_plain(TOOLS_BOX_START@);
        } else if i == 1 {
            lemma_no_breaks_plain(managed_note());
        } else if i < 2 + n {
            assert(b[i] == groups_lines(gs)[i - 2]);
            lemma_no_breaks_plain(b[i]);
        } else {
            assert(b[i] == TOOLS_BOX_END@);
            lemma_no_breaks_plain(TOOLS_BOX_END@);
        }
    }
    lemma_lines_of_line_seq(b);
}

/// Lines that do not read as markers change neither the marker check nor,
/// inside a block, what removal keeps.
pub proof fn lemma_skip_plain_lines(a: Seq<Seq<char>>, b: Seq<Seq<char>>, in_section: bool)
    requires
        forall|i: int| 0 <= i < a.len() ==> !is_marker_line(#[trigger] a[i]),
    ensures
        markers_check(a + b, in_section) == markers_check(b, in_section),
        in_section ==> removed_text(a + b, in_section) == removed_text(b, in_section),
    decreases a.len(),
{
    if a.len() == 0 {
        assert(a + b =~= b);
    } else {
        assert((a + b)[0] == a[0]);
        assert(!is_marker_line(a[0]));
        assert((a + b).drop_first() =~= a.drop_first() + b);
        assert forall|i: int| 0 <= i < a.drop_first().len() implies !is_marker_line(#[trigger] a.drop_first()[i]) by {
            assert(a.drop_first()[i] == a[i + 1]);
        }
        lemma_skip_plain_lines(a.drop_first(), b, in_section);
    }
}

/// Lines whose markers check out end outside any block.
pub proof fn lemma_checked_prefix(x: Seq<Seq<char>>, y: Seq<Seq<char>>, in_section: bool)
    requires
        markers_check(x, in_section) is Ok,
    ensures
        markers_check(x + y, in_section) == markers_check(y, false),
        removed_text(x + y, in_section) == removed_text(x, in_section) + removed_text(y, false),
    decreases x.len(),
{
    if x.len() == 0 {
        assert(x + y =~= y);
        assert(removed_text(x, in_section) =~= Seq::<char>::empty());
        assert(removed_text(x, in_section) + removed_text(y, false) =~= removed_text(y, false));
    } else {
        assert((x + y)[0] == x[0]);
        assert((x + y).drop_first() =~= x.drop_first() + y);
        let t = trim(x[0]);
        if t == TOOLS_BOX_START@ {
            lemma_checked_prefix(x.drop_first(), y, true);
        } else if t == TOOLS_BOX_END@ {
            lemma_checked_prefix(x.drop_first(), y, false);
        } else {
            lemma_checked_prefix(x.drop_first(), y, in_section);
            if !in_section {
                assert(removed_text(x + y, in_section) =~= removed_text(x, in_section) + removed_text(y, false));
            }
        }
    }
}

/// The marker check and removal over the lines of a managed block.
pub proof fn lemma_block_check(gs: Seq<HostsGroupView>, rest: Seq<Seq<char>>)
    requires
        forall|i: int| 0 <= i < groups_lines(gs).len() ==> !is_marker_line(#[trigger] groups_lines(gs)[i]),
    ensures
        markers_check(block_lines(gs) + rest, false) == markers_check(rest, false),
        removed_text(block_lines(gs) + rest, false) == removed_text(rest, false),
{
    lemma_fixed_lines();
    let mid = seq![managed_note()] + groups_lines(gs);
    let end_rest = seq![TOOLS_BOX_END@] + rest;
    let all = block_lines(gs) + rest;
    assert(all =~= seq![TOOLS_BOX_START@] + (mid + end_rest));
    assert(all[0] == TOOLS_BOX_START@);
    assert(all.drop_first() =~= mid + end_rest);
    assert forall|i: int| 0 <= i < mid.len() implies !is_marker_line(#[trigger] mid[i]) by {
        if i > 0 {
            assert(mid[i] == groups_lines(gs)[i - 1]);
        }
    }
    lemma_skip_plain_lines(mid, end_rest, true);
    assert(end_rest[0] == TOOLS_BOX_END@);
    assert(end_rest.drop_first() =~= rest);
}

/// A generated block always passes the marker check, whatever the names,
/// addresses, host names and comments of its environments.
pub proof fn law_generated_block_markers_valid(gs: Seq<HostsGroupView>)
    ensures
        markers_check(lines_of(hosts_block_spec(gs)), false) == Ok::<(), crate::hosts::MarkerError>(()),
{
    lemma_no_marker_entries(gs);
    lemma_block_lines(gs);
    lemma_block_check(gs, Seq::<Seq<char>>::empty());
    assert(block_lines(gs) + Seq::<Seq<char>>::empty() =~= block_lines(gs));
}

/// Removing the managed blocks from a hosts file to which a generated block
/// was appended keeps what removing them kept before, provided the file ends
/// with a line break (or is empty) and its own markers check out.
pub proof fn law_remove_undoes_append(content: Seq<char>, gs: Seq<HostsGroupView>)
    requires
        content.len() == 0 || content.last() == '\n',
        markers_check(lines_of(content), false) is Ok,
    ensures
        markers_check(lines_of(content + hosts_block_spec(gs)), false) is Ok,
        removed_text(lines_of(content + hosts_block_spec(gs)), false) == removed_text(lines_of(content), false),
{
    lemma_no_marker_entries(gs);
    lemma_block_lines(gs);
    let block = hosts_block_spec(gs);
    if content.len() == 0 {
        assert(content + block =~= block);
        assert(lines_of(content) =~= Seq::<Seq<char>>::empty());
    } else {
        lemma_lines_of_append(content, block);
    }
    assert(lines_of(content + block) =~= lines_of(content) + block_lines(gs));
    lemma_checked_prefix(lines_of(content), block_lines(gs), false);
    lemma_block_check(gs, Seq::<Seq<char>>::empty());
    assert(block_lines(gs) + Seq::<Seq<char>>::empty() =~= block_lines(gs));
    assert(removed_text(Seq::<Seq<char>>::empty(), false) =~= Seq::<char>::empty());
    assert(removed_text(lines_of(content), false) + Seq::<char>::empty() =~= removed_text(lines_of(content), false));
}

/// Text that ends with a line break (or is empty), holds no carriage return
/// and no line that reads as a marker passes the marker check, and removal
/// keeps all of it.
pub proof fn lemma_plain_text_kept(s: Seq<char>)
    requires
        s.len() == 0 || s.last() == '\n',
        no_cr(s),
        forall|k: int| 0 <= k < lines_of(s).len() ==> !is_marker_line(#[trigger] lines_of(s)[k]),
    ensures
        markers_check(lines_of(s), false) is Ok,
        removed_text(lines_of(s), false) == s,
    decreases s.len(),
{
    reveal_strlit("\n");
    if s.len() > 0 {
        lemma_first_index_of(s, '\n');
        let i = first_index_of(s, '\n');
        if i >= s.len() {
            assert(s[s.len() - 1] != '\n');
        }
        let rest = s.skip(i + 1);
        let ls = lines_of(s);
        assert(ls == seq![strip_cr(s.take(i))].add(lines_of(rest)));
        if i > 0 {
            assert(s.take(i).last() == s[i - 1]);
        }
        assert(strip_cr(s.take(i)) == s.take(i));
        assert(ls[0] == s.take(i));
        assert(ls.drop_first() =~= lines_of(rest));
        assert(!is_marker_line(ls[0]));
        assert forall|k: int| 0 <= k < lines_of(rest).len() implies !is_marker_line(#[trigger] lines_of(rest)[k]) by {
            assert(lines_of(rest)[k] == ls[k + 1]);
        }
        if rest.len() > 0 {
            assert(rest.last() == s.last());
        }
        lemma_plain_text_kept(rest);
        assert(s =~= s.take(i) + "\n"@ + rest);
    } else {
        assert(lines_of(s) =~= Seq::<Seq<char>>::empty());
    }
}

/// A final line break adds no line to text that does not end with one.
pub proof fn lemma_lines_of_final_break(t: Seq<char>)
    requires
        t.len() > 0,
        t.last() != '\n',
        no_cr(t),
    ensures
        lines_of(t + "\n"@) == lines_of(t),
    decreases t.len(),
{
    reveal_strlit("\n");
    let nl = "\n"@;
    let s = t + nl;
    lemma_first_index_of_append(t, nl, '\n');
    lemma_first_index_of(t, '\n');
    let i = first_index_of(t, '\n');
    assert(first_index_of(nl, '\n') == 0);
    assert(s.take(i) =~= t.take(i));
    if i >= t.len() {
        assert(s.skip(t.len() as int + 1) =~= Seq::<char>::empty());
        assert(lines_of(Seq::<char>::empty()) =~= Seq::<Seq<char>>::empty());
        assert(t.last() == t[t.len() - 1]);
        assert(strip_cr(t) == t);
        let j = first_index_of(s, '\n');
        assert(j == t.len());
        assert(s.take(j) =~= t);
        assert(lines_of(s) == seq![strip_cr(s.take(j))].add(lines_of(s.skip(j + 1))));
        assert(lines_of(s) =~= seq![t]);
        assert(lines_of(t) == seq![t]);
    } else {
        let r = t.skip(i + 1);
        assert(s.skip(i + 1) =~= r + nl);
        assert(t[i] == '\n');
        assert(r.len() > 0);
        assert(r.last() == t.last());
        lemma_lines_of_final_break(r);
    }
}

/// Leading white space is trimmed from the front only.
pub proof fn lemma_trim_start_concat(a: Seq<char>, b: Seq<char>)
    requires
        trim_start(a).len() > 0,
    ensures
        trim_start(a + b) == trim_start(a) + b,
    decreases a.len(),
{
    assert(a.len() > 0);
    assert((a + b)[0] == a[0]);
    if is_ws(a[0]) {
        assert((a + b).drop_first() =~= a.drop_first() + b);
        lemma_trim_start_concat(a.drop_first(), b);
    }
}

/// Trailing white space added to a text is trimmed away again.
pub proof fn lemma_trim_end_ws_suffix(x: Seq<char>, u: Seq<char>)
    requires
        forall|i: int| 0 <= i < u.len() ==> is_ws(#[trigger] u[i]),
    ensures
        trim_end(x + u) == trim_end(x),
    decreases u.len(),
{
    if u.len() == 0 {
        assert(x + u =~= x);
    } else {
        assert((x + u).last() == u.last());
        assert(is_ws(u[u.len() - 1]));
        assert((x + u).drop_last() =~= x + u.drop_last());
        lemma_trim_end_ws_suffix(x, u.drop_last());
    }
}

/// Trailing white space after a text keeps the trimmed lines of the text:
/// each line of `t` trims as the line at its place in `t + w`.
pub proof fn lemma_lines_with_trailing_ws(t: Seq<char>, w: Seq<char>)
    requires
        t.len() > 0,
        !is_ws(t.last()),
        no_cr(t),
        no_cr(w),
        forall|i: int| 0 <= i < w.len() ==> is_ws(#[trigger] w[i]),
    ensures
        lines_of(t).len() <= lines_of(t + w).len(),
        forall|k: int| 0 <= k < lines_of(t).len() ==> trim(#[trigger] lines_of(t)[k]) == trim(lines_of(t + w)[k]),
    decreases t.len(),
{
    let s = t + w;
    lemma_first_index_of_append(t, w, '\n');
    lemma_first_index_of(t, '\n');
    lemma_first_index_of(s, '\n');
    let i = first_index_of(t, '\n');
    assert(t.last() == t[t.len() - 1]);
    if i < t.len() {
        assert(s.take(i) =~= t.take(i));
        let r = t.skip(i + 1);
        assert(t[i] == '\n');
        assert(r.len() > 0);
        assert(r.last() == t.last());
        assert forall|k: int| 0 <= k < r.len() implies #[trigger] r[k] != '\r' by {
            assert(r[k] == t[k + i + 1]);
        }
        assert(s.skip(i + 1) =~= r + w);
        lemma_lines_with_trailing_ws(r, w);
        let lt = lines_of(t);
        let ls = lines_of(s);
        assert(lt == seq![strip_cr(t.take(i))].add(lines_of(r)));
        assert(ls == seq![strip_cr(s.take(i))].add(lines_of(r + w)));
        assert forall|k: int| 0 <= k < lt.len() implies trim(#[trigger] lt[k]) == trim(ls[k]) by {
            if k > 0 {
                assert(lt[k] == lines_of(r)[k - 1]);
                assert(ls[k] == lines_of(r + w)[k - 1]);
            }
        }
    } else {
        let j = first_index_of(w, '\n');
        lemma_first_index_of(w, '\n');
        let u = w.take(j);
        assert forall|k: int| 0 <= k < u.len() implies is_ws(#[trigger] u[k]) by {
            assert(u[k] == w[k]);
        }
        assert(strip_cr(t) == t);
        assert(lines_of(t) =~= seq![t]) by {
            assert(t.take(t.len() as int) =~= t);
        }
        let first = s.take(t.len() + j);
        assert(first =~= t + u);
        if j > 0 {
            assert(first.last() == w[j - 1]);
        }
        assert(strip_cr(first) == first);
        if j < w.len() {
            assert(lines_of(s) == seq![strip_cr(first)].add(lines_of(s.skip(t.len() + j + 1))));
        } else {
            assert(u =~= w);
            assert(lines_of(s) =~= seq![s]);
        }
        assert(lines_of(s)[0] == t + u);
        lemma_trim_start_suffix(t);
        let a = trim_start(t);
        assert(a.len() > 0) by {
            if a.len() == 0 {
                assert(is_ws(t[t.len() - 1]));
            }
        }
        lemma_trim_start_concat(t, u);
        lemma_trim_end_ws_suffix(a, u);
    }
}

/// When no line of a text reads as a marker, no line of the text without its
/// trailing white space does.
pub proof fn lemma_trimmed_text_lines(original: Seq<char>)
    requires
        no_cr(original),
        forall|k: int| 0 <= k < lines_of(original).len() ==> !is_marker_line(#[trigger] lines_of(original)[k]),
    ensures
        forall|k: int| 0 <= k < lines_of(trim_end(original)).len() ==> !is_marker_line(
            #[trigger] lines_of(trim_end(original))[k],
        ),
{
    let t = trim_end(original);
    lemma_trim_end_prefix(original);
    if t.len() == 0 {
        assert(lines_of(t) =~= Seq::<Seq<char>>::empty());
    } else {
        let w = original.skip(t.len() as int);
        assert(original =~= t + w);
        assert forall|i: int| 0 <= i < w.len() implies is_ws(#[trigger] w[i]) by {
            assert(w[i] == original[i + t.len()]);
        }
        assert forall|i: int| 0 <= i < w.len() implies #[trigger] w[i] != '\r' by {
            assert(w[i] == original[i + t.len()]);
        }
        assert forall|i: int| 0 <= i < t.len() implies #[trigger] t[i] != '\r' by {
            assert(t[i] == original[i]);
        }
        lemma_lines_with_trailing_ws(t, w);
        assert forall|k: int| 0 <= k < lines_of(t).len() implies !is_marker_line(#[trigger] lines_of(t)[k]) by {
            assert(trim(lines_of(t)[k]) == trim(lines_of(original)[k]));
            assert(!is_marker_line(lines_of(original)[k]));
        }
    }
}

/// Removing the managed block from a hosts file written as an original text
/// without its trailing white space, a line break and a generated block
/// gives back the original text (trailing white space aside), provided the
/// original holds no carriage return and none of its lines reads as a
/// marker.
pub proof fn law_remove_after_generate(original: Seq<char>, gs: Seq<HostsGroupView>)
    requires
        no_cr(original),
        forall|k: int| 0 <= k < lines_of(original).len() ==> !is_marker_line(#[trigger] lines_of(original)[k]),
    ensures
        markers_check(lines_of(trim_end(original) + "\n"@ + hosts_block_spec(gs)), false) is Ok,
        trim_end(removed_text(lines_of(trim_end(original) + "\n"@ + hosts_block_spec(gs)), false)) == trim_end(
            original,
        ),
{
    reveal_strlit("\n");
    lemma_trimmed_text_lines(original);
    let t = trim_end(original);
    lemma_trim_end_prefix(original);
    assert forall|i: int| 0 <= i < t.len() implies #[trigger] t[i] != '\r' by {
        assert(t[i] == original[i]);
    }
    let c = t + "\n"@;
    assert forall|i: int| 0 <= i < c.len() implies #[trigger] c[i] != '\r' by {
        if i < t.len() {
            assert(c[i] == t[i]);
        }
    }
    if t.len() == 0 {
        assert(c =~= seq!['\n']);
        assert(first_index_of(c, '\n') == 0);
        assert(c.take(0) =~= Seq::<char>::empty());
        assert(c.skip(1) =~= Seq::<char>::empty());
        assert(lines_of(Seq::<char>::empty()) =~= Seq::<Seq<char>>::empty());
        assert(lines_of(c) =~= seq![Seq::<char>::empty()]);
        assert(!is_marker_line(Seq::<char>::empty())) by {
            reveal_strlit("# >>> Tools Box START >>>");
            reveal_strlit("# <<< Tools Box END <<<");
        }
    } else {
        assert(!is_ws(t.last()));
        lemma_lines_of_final_break(t);
    }
    lemma_plain_text_kept(c);
    law_remove_undoes_append(c, gs);
    assert(c.last() == '\n');
    assert(c.drop_last() =~= t);
    if t.len() > 0 {
        assert(trim_end(t) == t);
    }
}

} // verus!
