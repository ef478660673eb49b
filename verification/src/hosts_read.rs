//! What parsing gives back of a generated managed block.

use vstd::prelude::*;
use crate::hosts::{
    HostsGroupView, HostsLineView, TOOLS_BOX_END, TOOLS_BOX_START, entry_line, format_entry_spec, is_marker_line,
    plain_entry_line,
    hosts_block_spec, hosts_entries_of_lines, hosts_entry_of_line, is_hex_or_colon, is_ip_spec,
    parse_hosts_line_spec, parse_hosts_spec, sanitize_host_spec, sanitize_spec,
};
use crate::hosts_laws::{
    block_lines, group_lines, groups_lines, heading_line, lemma_block_lines, managed_note,
    no_marker_entries,
};
use crate::text::{
    first_index_of, is_ws, lemma_first_index_of, lemma_first_index_of_append, lemma_trim_end_prefix,
    lemma_trim_idempotent, lemma_trim_start_suffix, lemma_word_len, replace_char, trim, trim_end, trim_start,
    word_len, words,
};

verus! {

/// A character that can start an IP address as the parser sees it.
pub open spec fn ip_char(c: char) -> bool {
    ('0' <= c && c <= '9') || c == '.' || is_hex_or_colon(c)
}

pub proof fn lemma_trim_start_ws_prefix(w: Seq<char>, b: Seq<char>)
    requires
        forall|i: int| 0 <= i < w.len() ==> is_ws(#[trigger] w[i]),
    ensures
        trim_start(w + b) == trim_start(b),
    decreases w.len(),
{
    if w.len() == 0 {
        assert(w + b =~= b);
    } else {
        assert((w + b)[0] == w[0]);
        assert((w + b).drop_first() =~= w.drop_first() + b);
        assert forall|i: int| 0 <= i < w.drop_first().len() implies is_ws(#[trigger] w.drop_first()[i]) by {
            assert(w.drop_first()[i] == w[i + 1]);
        }
        lemma_trim_start_ws_prefix(w.drop_first(), b);
    }
}

pub proof fn lemma_trim_start_nonws(s: Seq<char>)
    requires
        s.len() > 0,
        !is_ws(s[0]),
    ensures
        trim_start(s) == s,
{
}

pub proof fn lemma_trim_end_nonws(s: Seq<char>)
    requires
        s.len() > 0,
        !is_ws(s.last()),
    ensures
        trim_end(s) == s,
{
}

/// Trimming the end keeps a first character that is not white space.
pub proof fn lemma_trim_end_first(s: Seq<char>)
    requires
        s.len() > 0,
        !is_ws(s[0]),
    ensures
        trim_end(s).len() > 0,
        trim_end(s)[0] == s[0],
        trim_start(trim_end(s)) == trim_end(s),
{
    lemma_trim_end_prefix(s);
    if trim_end(s).len() == 0 {
        assert(is_ws(s[0]));
    }
    assert(trim_end(s)[0] == s.take(trim_end(s).len() as int)[0]);
}

/// The first character of `trim(s)` when `s` starts with `k` white-space
/// characters followed by another.
pub proof fn lemma_trim_first(s: Seq<char>, k: int)
    requires
        0 <= k < s.len(),
        forall|i: int| 0 <= i < k ==> is_ws(#[trigger] s[i]),
        !is_ws(s[k]),
    ensures
        trim(s).len() > 0,
        trim(s)[0] == s[k],
{
    assert(s =~= s.take(k) + s.skip(k));
    assert forall|i: int| 0 <= i < s.take(k).len() implies is_ws(#[trigger] s.take(k)[i]) by {
        assert(s.take(k)[i] == s[i]);
    }
    lemma_trim_start_ws_prefix(s.take(k), s.skip(k));
    lemma_trim_start_nonws(s.skip(k));
    lemma_trim_end_first(s.skip(k));
}

/// `trim_end` of a text with a non-blank end part keeps what comes before.
pub proof fn lemma_trim_end_concat(a: Seq<char>, b: Seq<char>)
    requires
        trim_end(b).len() > 0,
    ensures
        trim_end(a + b) == a + trim_end(b),
    decreases b.len(),
{
    if b.len() > 0 && is_ws(b.last()) {
        assert((a + b).last() == b.last());
        assert((a + b).drop_last() =~= a + b.drop_last());
        lemma_trim_end_concat(a, b.drop_last());
    } else {
        if b.len() == 0 {
            assert(trim_end(b) =~= b);
        } else {
            assert((a + b).last() == b.last());
        }
    }
}

/// The number of leading non-blank characters of `a + b` when `a` has no
/// blank and `b` starts blank or is empty.
pub proof fn lemma_word_len_concat(a: Seq<char>, b: Seq<char>)
    requires
        forall|i: int| 0 <= i < a.len() ==> !is_ws(#[trigger] a[i]),
        b.len() == 0 || is_ws(b[0]),
    ensures
        word_len(a + b) == a.len(),
    decreases a.len(),
{
    if a.len() == 0 {
        assert(a + b =~= b);
    } else {
        assert((a + b)[0] == a[0]);
        assert((a + b).drop_first() =~= a.drop_first() + b);
        assert forall|i: int| 0 <= i < a.drop_first().len() implies !is_ws(#[trigger] a.drop_first()[i]) by {
            assert(a.drop_first()[i] == a[i + 1]);
        }
        lemma_word_len_concat(a.drop_first(), b);
    }
}

/// The words of two blank-free words with blanks between them.
pub proof fn lemma_two_words(a: Seq<char>, w: Seq<char>, b: Seq<char>)
    requires
        a.len() > 0,
        b.len() > 0,
        w.len() > 0,
        forall|i: int| 0 <= i < a.len() ==> !is_ws(#[trigger] a[i]),
        forall|i: int| 0 <= i < b.len() ==> !is_ws(#[trigger] b[i]),
        forall|i: int| 0 <= i < w.len() ==> is_ws(#[trigger] w[i]),
    ensures
        words(a + w + b) == seq![a, b],
{
    let s = a + w + b;
    assert(s[0] == a[0]);
    lemma_trim_start_nonws(s);
    assert(s =~= a + (w + b));
    assert((w + b)[0] == w[0]);
    lemma_word_len_concat(a, w + b);
    assert(s.take(a.len() as int) =~= a);
    assert(s.skip(a.len() as int) =~= w + b);
    lemma_trim_start_ws_prefix(w, b);
    lemma_trim_start_nonws(b);
    assert(b =~= b + Seq::<char>::empty());
    lemma_word_len_concat(b, Seq::<char>::empty());
    assert(b.take(b.len() as int) =~= b);
    assert(b.skip(b.len() as int) =~= Seq::<char>::empty());
    assert(trim_start(Seq::<char>::empty()) =~= Seq::<char>::empty());
    assert(words(Seq::<char>::empty()) =~= Seq::<Seq<char>>::empty());
    assert(words(w + b) =~= seq![b]);
    assert(words(s) =~= seq![a] + seq![b]);
}

/// The first word of a text that starts with a non-blank character starts
/// with that character.
pub proof fn lemma_first_word_start(s: Seq<char>)
    requires
        s.len() > 0,
        !is_ws(s[0]),
    ensures
        words(s).len() > 0,
        words(s)[0].len() > 0,
        words(s)[0][0] == s[0],
{
    lemma_trim_start_nonws(s);
    lemma_word_len(s);
    assert(words(s)[0] == s.take(word_len(s)));
}

/// A line whose trimmed text starts with a character that cannot start an
/// address, other than `#`, describes no entry.
pub proof fn lemma_parse_none(x: Seq<char>)
    requires
        trim(x).len() > 0,
        !ip_char(trim(x)[0]),
        trim(x)[0] != '#',
    ensures
        parse_hosts_line_spec(x) is None,
{
    let line = trim(x);
    lemma_trim_idempotent(x);
    lemma_trim_start_suffix(trim_end(trim_start(x)));
    lemma_first_index_of(line, '#');
    let pos = first_index_of(line, '#');
    assert(!is_ws(line[0])) by {
        let t = trim_start(x);
        lemma_trim_start_suffix(x);
        lemma_trim_end_prefix(t);
        assert(line[0] == t[0]);
    }
    let content = if pos < line.len() { trim(line.take(pos)) } else { line };
    if pos < line.len() {
        assert(pos > 0);
        let tk = line.take(pos);
        assert(tk[0] == line[0]);
        lemma_trim_start_nonws(tk);
        lemma_trim_end_first(tk);
    }
    assert(content.len() > 0 && content[0] == line[0]);
    lemma_first_word_start(content);
    let parts = words(content);
    if parts.len() >= 2 {
        assert(!is_ip_spec(parts[0])) by {
            assert(parts[0][0] == line[0]);
            if parts[0].contains('.') {
                assert(!(('0' <= parts[0][0] && parts[0][0] <= '9') || parts[0][0] == '.'));
            }
            if parts[0].contains(':') {
                assert(!is_hex_or_colon(parts[0][0]));
            }
        }
    }
}

/// A comment line `#`, a blank and a word that cannot start an address
/// describes no entry, not even a disabled one.
pub proof fn lemma_comment_line_none(l: Seq<char>)
    requires
        trim(l) == l,
        l.len() >= 3,
        l[0] == '#',
        is_ws(l[1]),
        !is_ws(l[2]),
        !ip_char(l[2]),
        l[2] != '#',
    ensures
        hosts_entry_of_line(l) is None,
{
    let s = l.skip(1);
    assert(s[0] == l[1]);
    assert(s[1] == l[2]);
    lemma_trim_first(s, 1);
    lemma_trim_idempotent(s);
    lemma_parse_none(trim(s));
}

/// The lines of a block that are not entries describe no entry.
pub proof fn lemma_fixed_lines_none(name: Seq<char>)
    ensures
        hosts_entry_of_line(TOOLS_BOX_START@) is None,
        hosts_entry_of_line(TOOLS_BOX_END@) is None,
        hosts_entry_of_line(managed_note()) is None,
        hosts_entry_of_line(Seq::<char>::empty()) is None,
        hosts_entry_of_line(heading_line(name)) is None,
{
    reveal_strlit("# >>> Tools Box START >>>");
    reveal_strlit("# <<< Tools Box END <<<");
    reveal_strlit("# Managed by Tools Box - Do not edit manually");
    reveal_strlit("# --- ");
    reveal_strlit(" ---");
    crate::hosts_laws::lemma_fixed_lines();
    lemma_comment_line_none(TOOLS_BOX_START@);
    lemma_comment_line_none(TOOLS_BOX_END@);
    let m = managed_note();
    crate::text::lemma_trim_unchanged(m);
    lemma_comment_line_none(m);
    assert(trim(Seq::<char>::empty()) =~= Seq::<char>::empty());
    let h = heading_line(name);
    assert(h[0] == '#');
    assert(h[1] == ' ');
    assert(h[2] == '-');
    assert(h.last() == '-');
    crate::text::lemma_trim_unchanged(h);
    lemma_comment_line_none(h);
}

/// Whether the line written for an entry reads back as that entry: its
/// sanitized address looks like an IP address and its sanitized host name is
/// one word.
pub open spec fn readable_entry(e: HostsLineView) -> bool {
    let h = sanitize_host_spec(e.hostname);
    &&& is_ip_spec(sanitize_host_spec(e.ip))
    &&& h.len() > 0
    &&& forall|i: int| 0 <= i < h.len() ==> !is_ws(#[trigger] h[i])
}

/// The comment read back for a written comment: the sanitized text, none
/// when that is empty.
pub open spec fn read_comment(c: Option<Seq<char>>) -> Option<Seq<char>> {
    match c {
        Some(t) => if sanitize_spec(t).len() == 0 { None } else { Some(sanitize_spec(t)) },
        None => None,
    }
}

/// The entry read back from the line written for `e`.
pub open spec fn entry_as_read(e: HostsLineView) -> HostsLineView {
    HostsLineView {
        ip: sanitize_host_spec(e.ip),
        hostname: sanitize_host_spec(e.hostname),
        comment: read_comment(e.comment),
        is_active: e.is_active,
    }
}

/// A sanitized text has no white space at either end.
pub proof fn lemma_sanitized_trimmed(s: Seq<char>)
    ensures
        trim(sanitize_spec(s)) == sanitize_spec(s),
        sanitize_spec(s).len() > 0 ==> !is_ws(sanitize_spec(s)[0]) && !is_ws(sanitize_spec(s).last()),
{
    let m = s.map_values(|c: char| if crate::text::is_ctrl(c) { ' ' } else { c });
    lemma_trim_idempotent(m);
    let t = trim_start(m);
    lemma_trim_start_suffix(m);
    lemma_trim_end_prefix(t);
    if sanitize_spec(s).len() > 0 {
        lemma_trim_end_first(t);
    }
}

/// No `#` is left after replacing every `#`.
pub proof fn lemma_no_hash(s: Seq<char>)
    ensures
        forall|i: int| 0 <= i < replace_char(s, '#', ' ').len() ==> #[trigger] replace_char(s, '#', ' ')[i] != '#',
{
}

/// A text without `c` has its first `c` at its end.
pub proof fn lemma_index_absent(s: Seq<char>, c: char)
    requires
        forall|i: int| 0 <= i < s.len() ==> #[trigger] s[i] != c,
    ensures
        first_index_of(s, c) == s.len(),
{
    lemma_first_index_of(s, c);
    if first_index_of(s, c) < s.len() {
        assert(s[first_index_of(s, c)] == c);
    }
}

/// The facts about the sanitized address and host name of a readable entry.
pub proof fn lemma_readable_fields(e: HostsLineView)
    requires
        readable_entry(e),
    ensures
        sanitize_host_spec(e.ip).len() > 0,
        forall|i: int| 0 <= i < sanitize_host_spec(e.ip).len() ==> ip_char(#[trigger] sanitize_host_spec(e.ip)[i])
            && !is_ws(sanitize_host_spec(e.ip)[i]) && sanitize_host_spec(e.ip)[i] != '#',
        forall|i: int| 0 <= i < sanitize_host_spec(e.hostname).len() ==> !is_ws(#[trigger] sanitize_host_spec(e.hostname)[i])
            && sanitize_host_spec(e.hostname)[i] != '#',
{
    let ip = sanitize_host_spec(e.ip);
    lemma_no_hash(sanitize_spec(e.ip));
    lemma_no_hash(sanitize_spec(e.hostname));
    if ip.contains('.') && (forall|i: int| 0 <= i < ip.len() ==> (('0' <= #[trigger] ip[i] && ip[i] <= '9') || ip[i] == '.')) {
    } else {
        assert(ip.contains(':'));
    }
    assert forall|i: int| 0 <= i < ip.len() implies ip_char(#[trigger] ip[i]) && !is_ws(ip[i]) && ip[i] != '#' by {
        if ip.contains('.') && (forall|i: int| 0 <= i < ip.len() ==> (('0' <= #[trigger] ip[i] && ip[i] <= '9') || ip[i] == '.')) {
            assert(('0' <= ip[i] && ip[i] <= '9') || ip[i] == '.');
        } else {
            assert(is_hex_or_colon(ip[i]));
        }
    }
}

/// The line written for a readable entry (without its `# ` when disabled)
/// parses back as the entry, enabled.
pub proof fn lemma_formatted_reads(e: HostsLineView)
    requires
        readable_entry(e),
    ensures
        parse_hosts_line_spec(format_entry_spec(e)) == Some(HostsLineView { is_active: true, ..entry_as_read(e) }),
        trim(format_entry_spec(e)) == trim_end(format_entry_spec(e)),
        trim(format_entry_spec(e)).len() > 0,
        trim(format_entry_spec(e))[0] == sanitize_host_spec(e.ip)[0],
{
    reveal_strlit("\t\t");
    reveal_strlit(" # ");
    lemma_readable_fields(e);
    let ip = sanitize_host_spec(e.ip);
    let h = sanitize_host_spec(e.hostname);
    let tabs = "\t\t"@;
    let base = ip + tabs + h;
    let fmt = format_entry_spec(e);
    assert forall|i: int| 0 <= i < base.len() implies #[trigger] base[i] != '#' by {
        if i < ip.len() {
            assert(base[i] == ip[i]);
        } else if i < ip.len() + 2 {
            assert(base[i] == tabs[i - ip.len()]);
        } else {
            assert(base[i] == h[i - ip.len() - 2]);
        }
    }
    assert(base[0] == ip[0]);
    assert(base.last() == h.last());
    assert forall|i: int| 0 <= i < tabs.len() implies is_ws(#[trigger] tabs[i]) by {}
    lemma_two_words(ip, tabs, h);
    lemma_trim_start_nonws(fmt);
    assert(fmt[0] == ip[0]) by {
        assert(fmt[0] == base[0]);
    }
    match e.comment {
        None => {
            assert(fmt == base);
            lemma_trim_end_nonws(base);
            lemma_index_absent(base, '#');
            assert(trim(base) == base);
        },
        Some(c) => {
            let sc = sanitize_spec(c);
            lemma_sanitized_trimmed(c);
            let rest = if sc.len() > 0 { seq![' '] + sc } else { Seq::<char>::empty() };
            let l = base + seq![' ', '#'] + rest;
            if sc.len() > 0 {
                assert(fmt =~= l);
                assert(l.last() == sc.last());
                lemma_trim_end_nonws(l);
            } else {
                assert(fmt =~= l.push(' '));
                assert(fmt.drop_last() =~= l);
                assert(l.last() == '#');
                lemma_trim_end_nonws(l);
            }
            assert(trim_end(fmt) == l);
            assert(trim(fmt) == l);
            lemma_trim_start_nonws(l);
            lemma_trim_end_nonws(l);
            assert(trim(l) == l);
            lemma_index_absent(base, '#');
            lemma_first_index_of_append(base, seq![' ', '#'] + rest, '#');
            assert(l =~= base + (seq![' ', '#'] + rest));
            let tail = seq![' ', '#'] + rest;
            assert(tail[0] == ' ' && tail[1] == '#');
            assert(tail.drop_first()[0] == '#');
            assert(first_index_of(tail.drop_first(), '#') == 0);
            assert(first_index_of(tail, '#') == 1);
            let pos: int = base.len() as int + 1;
            assert(first_index_of(l, '#') == pos);
            assert(l.take(pos) =~= base + seq![' ']);
            assert((base + seq![' ']).drop_last() =~= base);
            lemma_trim_end_nonws(base);
            assert(trim_end(base + seq![' ']) == base);
            assert(trim(l.take(pos)) == base);
            assert(l.skip(pos + 1) =~= rest);
            if sc.len() > 0 {
                assert(rest[0] == ' ');
                lemma_trim_start_ws_prefix(seq![' '], sc);
                lemma_trim_start_nonws(sc);
                assert(trim(rest) == trim_end(sc));
                lemma_trim_end_nonws(sc);
            } else {
                assert(trim(rest) =~= Seq::<char>::empty());
            }
        },
    }
}

/// The line written for a readable entry reads back as the entry, and does
/// not read as a marker.
pub proof fn lemma_entry_line_reads_back(e: HostsLineView)
    requires
        readable_entry(e),
    ensures
        hosts_entry_of_line(entry_line(e)) == Some(entry_as_read(e)),
        !is_marker_line(entry_line(e)),
{
    reveal_strlit("# ");
    reveal_strlit("# >>> Tools Box START >>>");
    reveal_strlit("# <<< Tools Box END <<<");
    lemma_formatted_reads(e);
    lemma_readable_fields(e);
    let fmt = format_entry_spec(e);
    let l = trim(fmt);
    let ip0 = sanitize_host_spec(e.ip)[0];
    assert(ip_char(ip0) && ip0 != '#');
    lemma_trim_idempotent(fmt);
    assert(parse_hosts_line_spec(l) == parse_hosts_line_spec(fmt));
    if e.is_active {
        assert(plain_entry_line(e) == fmt);
        assert(TOOLS_BOX_START@[0] == '#');
        assert(TOOLS_BOX_END@[0] == '#');
    } else {
        let line = "# "@ + fmt;
        assert(plain_entry_line(e) == line);
        assert(line[0] == '#');
        lemma_trim_start_nonws(line);
        lemma_trim_end_concat("# "@, fmt);
        let t = trim(line);
        assert(t == "# "@ + l);
        assert(t[0] == '#');
        assert(t[2] == ip0);
        assert(TOOLS_BOX_START@[2] == '>');
        assert(TOOLS_BOX_END@[2] == '<');
        let s1 = t.skip(1);
        assert(s1 =~= seq![' '] + l);
        lemma_trim_start_ws_prefix(seq![' '], l);
        lemma_trim_start_nonws(l);
        lemma_trim_end_first(fmt);
        crate::text::lemma_trim_end_prefix(fmt);
        assert(l.last() == fmt[l.len() - 1]);
        lemma_trim_end_nonws(l);
        assert(trim(s1) == l);
        assert(parse_hosts_line_spec(trim(s1)) == parse_hosts_line_spec(fmt));
    }
    assert(!is_marker_line(plain_entry_line(e)));
    assert(entry_line(e) == plain_entry_line(e));
}

pub proof fn lemma_entries_of_lines_concat(a: Seq<Seq<char>>, b: Seq<Seq<char>>)
    ensures
        hosts_entries_of_lines(a + b) == hosts_entries_of_lines(a) + hosts_entries_of_lines(b),
    decreases b.len(),
{
    if b.len() == 0 {
        assert(a + b =~= a);
        assert(hosts_entries_of_lines(b) =~= Seq::<HostsLineView>::empty());
        assert(hosts_entries_of_lines(a) + hosts_entries_of_lines(b) =~= hosts_entries_of_lines(a));
    } else {
        assert((a + b).drop_last() =~= a + b.drop_last());
        assert((a + b).last() == b.last());
        lemma_entries_of_lines_concat(a, b.drop_last());
        match hosts_entry_of_line(b.last()) {
            Some(x) => {
                assert(hosts_entries_of_lines(a + b) =~= hosts_entries_of_lines(a) + hosts_entries_of_lines(b.drop_last()).push(x));
            },
            None => {},
        }
    }
}

/// Every entry of the environments reads back from the line written for it.
pub open spec fn all_readable(gs: Seq<HostsGroupView>) -> bool {
    forall|i: int, j: int| 0 <= i < gs.len() && 0 <= j < gs[i].entries.len() ==> readable_entry(#[trigger] gs[i].entries[j])
}

/// The entries of the environments, in order, as they read back.
pub open spec fn entries_as_read(gs: Seq<HostsGroupView>) -> Seq<HostsLineView>
    decreases gs.len(),
{
    if gs.len() == 0 {
        seq![]
    } else {
        entries_as_read(gs.drop_last()) + gs.last().entries.map_values(|e: HostsLineView| entry_as_read(e))
    }
}

pub proof fn lemma_entry_lines_read(es: Seq<HostsLineView>)
    requires
        forall|j: int| 0 <= j < es.len() ==> readable_entry(#[trigger] es[j]),
    ensures
        hosts_entries_of_lines(es.map_values(|e: HostsLineView| entry_line(e)))
            == es.map_values(|e: HostsLineView| entry_as_read(e)),
    decreases es.len(),
{
    if es.len() > 0 {
        let d = es.drop_last();
        assert forall|j: int| 0 <= j < d.len() implies readable_entry(#[trigger] d[j]) by {
            assert(d[j] == es[j]);
        }
        lemma_entry_lines_read(d);
        let m = es.map_values(|e: HostsLineView| entry_line(e));
        assert(m.drop_last() =~= d.map_values(|e: HostsLineView| entry_line(e)));
        assert(m.last() == entry_line(es.last()));
        lemma_entry_line_reads_back(es.last());
        assert(es.map_values(|e: HostsLineView| entry_as_read(e)) =~= d.map_values(|e: HostsLineView| entry_as_read(e)).push(
            entry_as_read(es.last()),
        ));
    }
}

pub proof fn lemma_groups_lines_read(gs: Seq<HostsGroupView>)
    requires
        all_readable(gs),
    ensures
        hosts_entries_of_lines(groups_lines(gs)) == entries_as_read(gs),
        no_marker_entries(gs),
    decreases gs.len(),
{
    if gs.len() > 0 {
        let d = gs.drop_last();
        assert forall|i: int, j: int| 0 <= i < d.len() && 0 <= j < d[i].entries.len() implies readable_entry(
            #[trigger] d[i].entries[j],
        ) by {
            assert(d[i] == gs[i]);
        }
        lemma_groups_lines_read(d);
        let g = gs.last();
        assert forall|j: int| 0 <= j < g.entries.len() implies readable_entry(#[trigger] g.entries[j]) by {
            assert(gs[gs.len() - 1] == g);
        }
        lemma_entries_of_lines_concat(groups_lines(d), group_lines(g));
        if g.entries.len() > 0 {
            let two = seq![Seq::<char>::empty(), heading_line(g.name)];
            let m = g.entries.map_values(|e: HostsLineView| entry_line(e));
            lemma_entries_of_lines_concat(two, m);
            lemma_fixed_lines_none(g.name);
            assert(two.drop_last() =~= seq![Seq::<char>::empty()]);
            assert(seq![Seq::<char>::empty()].drop_last() =~= Seq::<Seq<char>>::empty());
            let one = seq![Seq::<char>::empty()];
            assert(one.last() == Seq::<char>::empty());
            assert(hosts_entries_of_lines(Seq::<Seq<char>>::empty()) =~= Seq::<HostsLineView>::empty());
            assert(hosts_entries_of_lines(one) =~= Seq::<HostsLineView>::empty());
            assert(two.last() == heading_line(g.name));
            assert(hosts_entries_of_lines(two) =~= Seq::<HostsLineView>::empty());
            lemma_entry_lines_read(g.entries);
            assert(hosts_entries_of_lines(group_lines(g)) =~= g.entries.map_values(|e: HostsLineView| entry_as_read(e)));
        } else {
            assert(hosts_entries_of_lines(group_lines(g)) =~= Seq::<HostsLineView>::empty());
            assert(g.entries.map_values(|e: HostsLineView| entry_as_read(e)) =~= Seq::<HostsLineView>::empty());
        }
        assert(entries_as_read(gs) =~= entries_as_read(d) + g.entries.map_values(|e: HostsLineView| entry_as_read(e)));
        assert forall|i: int, j: int| 0 <= i < gs.len() && 0 <= j < gs[i].entries.len() implies !is_marker_line(
            entry_line(#[trigger] gs[i].entries[j]),
        ) by {
            lemma_entry_line_reads_back(gs[i].entries[j]);
        }
    }
}

/// Parsing a generated managed block gives back every entry of every
/// environment, in order and with its enabled state, as written: with its
/// sanitized address and host name and its sanitized comment (none when
/// empty), provided each sanitized address looks like an IP address and each
/// sanitized host name is one word.
pub proof fn law_parse_reads_back_generated_block(gs: Seq<HostsGroupView>)
    requires
        all_readable(gs),
    ensures
        parse_hosts_spec(hosts_block_spec(gs)) == entries_as_read(gs),
{
    lemma_groups_lines_read(gs);
    lemma_block_lines(gs);
    lemma_fixed_lines_none(Seq::<char>::empty());
    let head = seq![TOOLS_BOX_START@, managed_note()];
    let tail = seq![TOOLS_BOX_END@];
    assert(block_lines(gs) == head + groups_lines(gs) + tail);
    lemma_entries_of_lines_concat(head + groups_lines(gs), tail);
    lemma_entries_of_lines_concat(head, groups_lines(gs));
    assert(head.drop_last() =~= seq![TOOLS_BOX_START@]);
    assert(seq![TOOLS_BOX_START@].drop_last() =~= Seq::<Seq<char>>::empty());
    assert(hosts_entries_of_lines(Seq::<Seq<char>>::empty()) =~= Seq::<HostsLineView>::empty());
    let start = seq![TOOLS_BOX_START@];
    assert(start.last() == TOOLS_BOX_START@);
    assert(hosts_entries_of_lines(start) =~= Seq::<HostsLineView>::empty());
    assert(head.last() == managed_note());
    assert(hosts_entries_of_lines(head) =~= Seq::<HostsLineView>::empty());
    assert(tail.drop_last() =~= Seq::<Seq<char>>::empty());
    assert(tail.last() == TOOLS_BOX_END@);
    assert(hosts_entries_of_lines(tail) =~= Seq::<HostsLineView>::empty());
    assert(parse_hosts_spec(hosts_block_spec(gs)) =~= entries_as_read(gs));
}

/// A field that sanitizing leaves alone: no white space, no control
/// character and no `#`.
pub open spec fn plain_field(s: Seq<char>) -> bool {
    forall|i: int| 0 <= i < s.len() ==> !is_ws(#[trigger] s[i]) && !crate::text::is_ctrl(s[i]) && s[i] != '#'
}

/// Sanitizing leaves a plain field unchanged.
pub proof fn lemma_plain_field_sanitized(s: Seq<char>)
    requires
        plain_field(s),
    ensures
        sanitize_host_spec(s) == s,
{
    let m = s.map_values(|c: char| if crate::text::is_ctrl(c) { ' ' } else { c });
    assert(m =~= s);
    if s.len() > 0 {
        assert(s.last() == s[s.len() - 1]);
        crate::text::lemma_trim_unchanged(s);
    } else {
        assert(trim(s) =~= s);
    }
    assert(replace_char(s, '#', ' ') =~= s);
}

/// An entry whose address looks like an IP address and whose address and
/// non-empty host name are plain fields.
pub open spec fn plain_entry(e: HostsLineView) -> bool {
    &&& is_ip_spec(e.ip)
    &&& plain_field(e.ip)
    &&& e.hostname.len() > 0
    &&& plain_field(e.hostname)
}

/// Parsing a generated managed block gives back, in order, every entry of
/// every environment whose address looks like an IP address and whose
/// address and host name hold no white space, control character or `#`:
/// with that address and host name, its sanitized comment (none when empty)
/// and its enabled state.
pub proof fn law_parse_reads_back_plain_entries(gs: Seq<HostsGroupView>)
    requires
        forall|i: int, j: int| 0 <= i < gs.len() && 0 <= j < gs[i].entries.len() ==> plain_entry(#[trigger] gs[i].entries[j]),
    ensures
        parse_hosts_spec(hosts_block_spec(gs)) == entries_as_read(gs),
        forall|i: int, j: int|
            0 <= i < gs.len() && 0 <= j < gs[i].entries.len() ==> #[trigger] entry_as_read(gs[i].entries[j])
                == (HostsLineView {
                ip: gs[i].entries[j].ip,
                hostname: gs[i].entries[j].hostname,
                comment: read_comment(gs[i].entries[j].comment),
                is_active: gs[i].entries[j].is_active,
            }),
{
    assert forall|i: int, j: int| 0 <= i < gs.len() && 0 <= j < gs[i].entries.len() implies readable_entry(#[trigger] gs[i].entries[j]) by {
        let e = gs[i].entries[j];
        lemma_plain_field_sanitized(e.ip);
        lemma_plain_field_sanitized(e.hostname);
    }
    law_parse_reads_back_generated_block(gs);
    assert forall|i: int, j: int| 0 <= i < gs.len() && 0 <= j < gs[i].entries.len() implies #[trigger] entry_as_read(gs[i].entries[j])
        == (HostsLineView {
        ip: gs[i].entries[j].ip,
        hostname: gs[i].entries[j].hostname,
        comment: read_comment(gs[i].entries[j].comment),
        is_active: gs[i].entries[j].is_active,
    }) by {
        let e = gs[i].entries[j];
        lemma_plain_field_sanitized(e.ip);
        lemma_plain_field_sanitized(e.hostname);
    }
}

} // verus!
