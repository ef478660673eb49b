//! Parsing and generation of the system hosts file, and detection of
//! host names mapped to several addresses.

use vstd::prelude::*;
use crate::text::{
    is_whitespace_char, is_ws, trim_end, chars_eq, chars_of, copy_range, is_control_char, push_chars, is_ctrl, replace_char, find_char, first_index_of, lemma_first_index_of, lines_chars, lines_of,
    string_from_chars, trim, trim_chars, words, words_chars,
};

verus! {

/// Opening marker of the block that this tool manages in the hosts file.
pub const TOOLS_BOX_START: &'static str = "# >>> Tools Box START >>>";
/// Closing marker of the managed block.
pub const TOOLS_BOX_END: &'static str = "# <<< Tools Box END <<<";

/// One hosts entry.
#[derive(Debug, Clone, PartialEq, Eq)]
pub struct HostsLine {
    /// IP address.
    pub ip: String,
    /// Host name.
    pub hostname: String,
    /// Comment at the end of the line.
    pub comment: Option<String>,
    /// Whether the entry is enabled (disabled entries are written commented out).
    pub is_active: bool,
}

/// Mathematical model of a [`HostsLine`].
pub struct HostsLineView {
    pub ip: Seq<char>,
    pub hostname: Seq<char>,
    pub comment: Option<Seq<char>>,
    pub is_active: bool,
}

/// The characters of an optional string.
pub open spec fn opt_chars(o: Option<String>) -> Option<Seq<char>> {
    match o {
        Some(s) => Some(s@),
        None => None,
    }
}

impl View for HostsLine {
    type V = HostsLineView;

    open spec fn view(&self) -> HostsLineView {
        HostsLineView {
            ip: self.ip@,
            hostname: self.hostname@,
            comment: opt_chars(self.comment),
            is_active: self.is_active,
        }
    }
}

/// The models of a sequence of entries.
pub open spec fn lines_view(v: Seq<HostsLine>) -> Seq<HostsLineView> {
    v.map_values(|l: HostsLine| l@)
}

/// An environment: its name and its entries.
#[derive(Debug, Clone, PartialEq, Eq)]
pub struct HostsGroup {
    /// Environment name, written as a comment heading.
    pub name: String,
    /// Entries of the environment.
    pub entries: Vec<HostsLine>,
}

/// Whether `s` looks like an IPv4 or IPv6 address.
pub open spec fn is_ip_spec(s: Seq<char>) -> bool {
    ||| (forall|i: int| 0 <= i < s.len() ==> (('0' <= #[trigger] s[i] && s[i] <= '9') || s[i] == '.'))
        && s.contains('.')
    ||| s.contains(':') && (forall|i: int|
        0 <= i < s.len() ==> is_hex_or_colon(#[trigger] s[i]))
}

/// ASCII hexadecimal digit or colon.
pub open spec fn is_hex_or_colon(c: char) -> bool {
    ('0' <= c && c <= '9') || ('a' <= c && c <= 'f') || ('A' <= c && c <= 'F') || c == ':'
}

/// The entry that one (already trimmed or not) text line describes, if any.
pub open spec fn parse_hosts_line_spec(line: Seq<char>) -> Option<HostsLineView> {
    let line = trim(line);
    if line.len() == 0 {
        None
    } else {
        let pos = first_index_of(line, '#');
        let content = if pos < line.len() { trim(line.take(pos)) } else { line };
        let comment = if pos < line.len() {
            let c = trim(line.skip(pos + 1));
            if c.len() == 0 { None } else { Some(c) }
        } else {
            None
        };
        let parts = words(content);
        if parts.len() >= 2 && is_ip_spec(parts[0]) {
            Some(HostsLineView { ip: parts[0], hostname: parts[1], comment, is_active: true })
        } else {
            None
        }
    }
}

/// The entry contributed by one line of a hosts file: commented-out entries
/// are kept as disabled entries, other comments and blank lines give none.
pub open spec fn hosts_entry_of_line(line: Seq<char>) -> Option<HostsLineView> {
    let t = trim(line);
    if t.len() == 0 {
        None
    } else if t[0] == '#' {
        match parse_hosts_line_spec(trim(t.skip(1))) {
            Some(e) => Some(HostsLineView { is_active: false, ..e }),
            None => None,
        }
    } else {
        parse_hosts_line_spec(t)
    }
}

/// The entries of a sequence of lines, in order.
pub open spec fn hosts_entries_of_lines(ls: Seq<Seq<char>>) -> Seq<HostsLineView>
    decreases ls.len(),
{
    if ls.len() == 0 {
        seq![]
    } else {
        let rest = hosts_entries_of_lines(ls.drop_last());
        match hosts_entry_of_line(ls.last()) {
            Some(e) => rest.push(e),
            None => rest,
        }
    }
}

/// The entries of a hosts file.
pub open spec fn parse_hosts_spec(content: Seq<char>) -> Seq<HostsLineView> {
    hosts_entries_of_lines(lines_of(content))
}

fn is_digit_or_dot(c: char) -> (r: bool)
    ensures
        r == (('0' <= c && c <= '9') || c == '.'),
{
    ('0' <= c && c <= '9') || c == '.'
}

fn hex_or_colon(c: char) -> (r: bool)
    ensures
        r == is_hex_or_colon(c),
{
    ('0' <= c && c <= '9') || ('a' <= c && c <= 'f') || ('A' <= c && c <= 'F') || c == ':'
}

/// Whether `s` looks like an IPv4 address (digits and dots, with a dot) or an
/// IPv6 address (hexadecimal digits and colons, with a colon).
pub fn is_ip_address(s: &Vec<char>) -> (r: bool)
    ensures
        r == is_ip_spec(s@),
{
    let mut all_v4 = true;
    let mut has_dot = false;
    let mut all_v6 = true;
    let mut has_colon = false;
    let mut i: usize = 0;
    while i < s.len()
        invariant
            i <= s.len(),
            all_v4 == (forall|k: int| 0 <= k < i ==> (('0' <= #[trigger] s@[k] && s@[k] <= '9') || s@[k] == '.')),
            has_dot == (exists|k: int| 0 <= k < i && #[trigger] s@[k] == '.'),
            all_v6 == (forall|k: int| 0 <= k < i ==> is_hex_or_colon(#[trigger] s@[k])),
            has_colon == (exists|k: int| 0 <= k < i && #[trigger] s@[k] == ':'),
        decreases s.len() - i,
    {
        let c = s[i];
        if !is_digit_or_dot(c) {
            all_v4 = false;
        }
        if c == '.' {
            has_dot = true;
        }
        if !hex_or_colon(c) {
            all_v6 = false;
        }
        if c == ':' {
            has_colon = true;
        }
        i += 1;
    }
    assert(has_dot == s@.contains('.'));
    assert(has_colon == s@.contains(':'));
    (all_v4 && has_dot) || (has_colon && all_v6)
}

/// Parses one line of a hosts file as an entry (`ip hostname [# comment]`).
pub fn parse_hosts_line(line: &Vec<char>) -> (r: Option<HostsLine>)
    ensures
        match r {
            Some(e) => parse_hosts_line_spec(line@) == Some(e@),
            None => parse_hosts_line_spec(line@) is None,
        },
{
    let line = trim_chars(line);
    if line.len() == 0 {
        return None;
    }
    let pos = find_char(&line, '#');
    proof {
        lemma_first_index_of(line@, '#');
    }
    let mut comment: Option<String> = None;
    let content = if pos < line.len() {
        let after = copy_range(&line, pos + 1, line.len());
        assert(after@ =~= line@.skip(pos + 1));
        let c = trim_chars(&after);
        if c.len() > 0 {
            comment = Some(string_from_chars(&c));
        }
        let before = copy_range(&line, 0, pos);
        assert(before@ =~= line@.take(pos as int));
        trim_chars(&before)
    } else {
        line
    };
    let parts = words_chars(&content);
    if parts.len() >= 2 && is_ip_address(&parts[0]) {
        let e = HostsLine {
            ip: string_from_chars(&parts[0]),
            hostname: string_from_chars(&parts[1]),
            comment,
            is_active: true,
        };
        Some(e)
    } else {
        None
    }
}

/// Parses the contents of a hosts file.
///
/// Recognised forms: `# comment`, `127.0.0.1 localhost`,
/// `# 127.0.0.1 localhost` (a disabled entry) and
/// `127.0.0.1 localhost # comment`.
pub fn parse_hosts(content: &str) -> (r: Vec<HostsLine>)
    ensures
        lines_view(r@) == parse_hosts_spec(content@),
{
    let chars = chars_of(content);
    let ls = lines_chars(&chars);
    let mut entries: Vec<HostsLine> = Vec::new();
    let mut i: usize = 0;
    let ghost lsv = ls@.map_values(|l: Vec<char>| l@);
    while i < ls.len()
        invariant
            i <= ls.len(),
            lsv == ls@.map_values(|l: Vec<char>| l@),
            lines_view(entries@) == hosts_entries_of_lines(lsv.take(i as int)),
        decreases ls.len() - i,
    {
        assert(lsv.take(i + 1).drop_last() =~= lsv.take(i as int));
        let ghost before = lines_view(entries@);
        let line = trim_chars(&ls[i]);
        if line.len() > 0 {
            if line[0] == '#' {
                let rest = copy_range(&line, 1, line.len());
                assert(rest@ =~= line@.skip(1));
                let t = trim_chars(&rest);
                match parse_hosts_line(&t) {
                    Some(mut e) => {
                        e.is_active = false;
                        entries.push(e);
                        assert(lines_view(entries@) =~= before.push(e@));
                    },
                    None => {},
                }
            } else {
                match parse_hosts_line(&line) {
                    Some(e) => {
                        entries.push(e);
                        assert(lines_view(entries@) =~= before.push(e@));
                    },
                    None => {},
                }
            }
        }
        i += 1;
    }
    assert(lsv.take(ls.len() as int) =~= lsv);
    entries
}

} // verus!

verus! {

/// Mathematical model of a [`HostsGroup`].
pub struct HostsGroupView {
    pub name: Seq<char>,
    pub entries: Seq<HostsLineView>,
}

impl View for HostsGroup {
    type V = HostsGroupView;

    open spec fn view(&self) -> HostsGroupView {
        HostsGroupView { name: self.name@, entries: lines_view(self.entries@) }
    }
}

/// The models of a sequence of groups.
pub open spec fn groups_view(v: Seq<HostsGroup>) -> Seq<HostsGroupView> {
    v.map_values(|g: HostsGroup| g@)
}

/// Control characters replaced by spaces, then trimmed.
pub open spec fn sanitize_spec(s: Seq<char>) -> Seq<char> {
    trim(s.map_values(|c: char| if is_ctrl(c) { ' ' } else { c }))
}

/// [`sanitize_spec`] followed by replacing `#` with a space.
pub open spec fn sanitize_host_spec(s: Seq<char>) -> Seq<char> {
    replace_char(sanitize_spec(s), '#', ' ')
}

/// One entry as a hosts line (without line break).
pub open spec fn format_entry_spec(e: HostsLineView) -> Seq<char> {
    let base = sanitize_host_spec(e.ip) + "\t\t"@ + sanitize_host_spec(e.hostname);
    match e.comment {
        Some(c) => base + " # "@ + sanitize_spec(c),
        None => base,
    }
}

/// Whether a line, trimmed, reads as one of the two markers.
pub open spec fn is_marker_line(l: Seq<char>) -> bool {
    trim(l) == TOOLS_BOX_START@ || trim(l) == TOOLS_BOX_END@
}

/// The formatted line of one entry: disabled entries are commented out.
pub open spec fn plain_entry_line(e: HostsLineView) -> Seq<char> {
    if e.is_active {
        format_entry_spec(e)
    } else {
        "# "@ + format_entry_spec(e)
    }
}

/// The line written for one entry: its formatted line, commented out once
/// more where that line would read as a marker (as with blank fields and a
/// marker-like comment), so that an entry never opens or closes a block.
pub open spec fn entry_line(e: HostsLineView) -> Seq<char> {
    if is_marker_line(plain_entry_line(e)) {
        "# "@ + plain_entry_line(e)
    } else {
        plain_entry_line(e)
    }
}

/// The text written for one entry: its line and a line break.
pub open spec fn entry_text(e: HostsLineView) -> Seq<char> {
    entry_line(e) + "\n"@
}

/// The texts of a sequence of entries.
pub open spec fn entries_text(es: Seq<HostsLineView>) -> Seq<char>
    decreases es.len(),
{
    if es.len() == 0 {
        seq![]
    } else {
        entries_text(es.drop_last()) + entry_text(es.last())
    }
}

/// The text written for one environment; an environment without entries
/// writes nothing, not even its heading.
pub open spec fn group_text(g: HostsGroupView) -> Seq<char> {
    if g.entries.len() == 0 {
        seq![]
    } else {
        "\n# --- "@ + sanitize_host_spec(g.name) + " ---\n"@ + entries_text(g.entries)
    }
}

/// The texts of a sequence of environments.
pub open spec fn groups_text(gs: Seq<HostsGroupView>) -> Seq<char>
    decreases gs.len(),
{
    if gs.len() == 0 {
        seq![]
    } else {
        groups_text(gs.drop_last()) + group_text(gs.last())
    }
}

/// The managed block written for a sequence of environments.
pub open spec fn hosts_block_spec(gs: Seq<HostsGroupView>) -> Seq<char> {
    TOOLS_BOX_START@ + "\n"@ + "# Managed by Tools Box - Do not edit manually\n"@ + groups_text(gs)
        + TOOLS_BOX_END@ + "\n"@
}

/// Replaces control characters (line breaks among them) by spaces and trims.
pub fn sanitize_field(value: &str) -> (r: String)
    ensures
        r@ == sanitize_spec(value@),
{
    let v = chars_of(value);
    let mut m: Vec<char> = Vec::new();
    let mut i: usize = 0;
    while i < v.len()
        invariant
            i <= v.len(),
            m@ == v@.take(i as int).map_values(|c: char| if is_ctrl(c) { ' ' } else { c }),
        decreases v.len() - i,
    {
        let c = v[i];
        m.push(if is_control_char(c) { ' ' } else { c });
        assert(v@.take(i + 1).map_values(|c: char| if is_ctrl(c) { ' ' } else { c }) =~= v@.take(
            i as int,
        ).map_values(|c: char| if is_ctrl(c) { ' ' } else { c }).push(
            if is_ctrl(c) { ' ' } else { c },
        ));
        i += 1;
    }
    assert(v@.take(v.len() as int) =~= v@);
    let t = trim_chars(&m);
    string_from_chars(&t)
}

/// Like [`sanitize_field`], and `#` (which would cut the entry short) is
/// replaced by a space too.
pub fn sanitize_host_field(value: &str) -> (r: String)
    ensures
        r@ == sanitize_host_spec(value@),
{
    let s = sanitize_field(value);
    let v = chars_of(s.as_str());
    let mut m: Vec<char> = Vec::new();
    let mut i: usize = 0;
    while i < v.len()
        invariant
            i <= v.len(),
            m@ == replace_char(v@.take(i as int), '#', ' '),
        decreases v.len() - i,
    {
        let c = v[i];
        m.push(if c == '#' { ' ' } else { c });
        assert(replace_char(v@.take(i + 1), '#', ' ') =~= replace_char(v@.take(i as int), '#', ' ').push(
            if c == '#' { ' ' } else { c },
        ));
        i += 1;
    }
    assert(v@.take(v.len() as int) =~= v@);
    string_from_chars(&m)
}

/// Formats one entry as a single hosts line, sanitising every field first.
pub fn format_entry(entry: &HostsLine) -> (r: String)
    ensures
        r@ == format_entry_spec(entry@),
{
    let mut out = sanitize_host_field(entry.ip.as_str());
    out.append("\t\t");
    let h = sanitize_host_field(entry.hostname.as_str());
    out.append(h.as_str());
    match &entry.comment {
        Some(c) => {
            out.append(" # ");
            let sc = sanitize_field(c.as_str());
            out.append(sc.as_str());
        },
        None => {},
    }
    out
}

/// Whether `line`, trimmed, reads as one of the two markers.
pub fn reads_as_marker(line: &str) -> (r: bool)
    ensures
        r == is_marker_line(line@),
{
    let t = trim_chars(&chars_of(line));
    let start = chars_of(TOOLS_BOX_START);
    let end = chars_of(TOOLS_BOX_END);
    chars_eq(&t, &start) || chars_eq(&t, &end)
}

/// Generates the managed block for the given environments.
///
/// Every environment with entries gets its own comment heading inside one
/// managed block; environments without entries write no heading. An entry
/// whose line would read as a marker is commented out once more, so the
/// block always holds exactly its own two markers.
pub fn generate_hosts_block(groups: &[HostsGroup]) -> (r: String)
    ensures
        r@ == hosts_block_spec(groups_view(groups@)),
        markers_check(lines_of(r@), false) == Ok::<(), MarkerError>(()),
{
    proof {
        crate::hosts_laws::law_generated_block_markers_valid(groups_view(groups@));
    }
    let mut output = String::new();
    output.append(TOOLS_BOX_START);
    output.append("\n");
    output.append("# Managed by Tools Box - Do not edit manually\n");
    let ghost head = output@;
    let ghost gv = groups_view(groups@);
    let mut gi: usize = 0;
    while gi < groups.len()
        invariant
            gi <= groups.len(),
            gv == groups_view(groups@),
            output@ == head + groups_text(gv.take(gi as int)),
        decreases groups.len() - gi,
    {
        let group = &groups[gi];
        assert(gv.take(gi + 1).drop_last() =~= gv.take(gi as int));
        assert(gv.take(gi + 1).last() == group@);
        if group.entries.len() > 0 {
            let ghost before = output@;
            output.append("\n# --- ");
            let name = sanitize_host_field(group.name.as_str());
            output.append(name.as_str());
            output.append(" ---\n");
            let ghost mid = output@;
            let ghost ev = lines_view(group.entries@);
            let mut ei: usize = 0;
            while ei < group.entries.len()
                invariant
                    ei <= group.entries.len(),
                    ev == lines_view(group.entries@),
                    output@ == mid + entries_text(ev.take(ei as int)),
                decreases group.entries.len() - ei,
            {
                let entry = &group.entries[ei];
                assert(ev.take(ei + 1).drop_last() =~= ev.take(ei as int));
                assert(ev.take(ei + 1).last() == entry@);
                let formatted = format_entry(entry);
                let mut line = String::new();
                if !entry.is_active {
                    line.append("# ");
                }
                line.append(formatted.as_str());
                assert(line@ == plain_entry_line(entry@));
                if reads_as_marker(line.as_str()) {
                    output.append("# ");
                }
                output.append(line.as_str());
                output.append("\n");
                assert(output@ =~= mid + entries_text(ev.take(ei + 1)));
                ei += 1;
            }
            assert(ev.take(ev.len() as int) =~= ev);
            assert(output@ =~= before + group_text(group@));
        } else {
            assert(group_text(group@) =~= Seq::<char>::empty());
        }
        assert(output@ =~= head + groups_text(gv.take(gi + 1)));
        gi += 1;
    }
    assert(gv.take(gv.len() as int) =~= gv);
    output.append(TOOLS_BOX_END);
    output.append("\n");
    output
}

} // verus!

verus! {

/// Why the managed block of a hosts file cannot be located safely.
#[derive(Debug, Clone, Copy, PartialEq, Eq)]
pub enum MarkerError {
    /// A start marker inside an open block.
    DuplicateStart,
    /// An end marker without an open block.
    UnmatchedEnd,
    /// A block that is never closed.
    MissingEnd,
}

impl MarkerError {
    /// The message shown to the user.
    pub fn message(&self) -> (r: String)
        ensures
            r@ == match self {
                MarkerError::DuplicateStart => "hosts 文件中的 Tools Box 开始标记重复，请手动修复后重试"@,
                MarkerError::UnmatchedEnd => "hosts 文件中存在多余的 Tools Box 结束标记，请手动修复后重试"@,
                MarkerError::MissingEnd => "hosts 文件中的 Tools Box 区域缺少结束标记，请手动修复后重试"@,
            },
    {
        match self {
            MarkerError::DuplicateStart => String::from_str("hosts 文件中的 Tools Box 开始标记重复，请手动修复后重试"),
            MarkerError::UnmatchedEnd => String::from_str("hosts 文件中存在多余的 Tools Box 结束标记，请手动修复后重试"),
            MarkerError::MissingEnd => String::from_str("hosts 文件中的 Tools Box 区域缺少结束标记，请手动修复后重试"),
        }
    }
}

/// Result of checking the markers of the remaining lines `ls`, given whether a
/// block is open before them.
pub open spec fn markers_check(ls: Seq<Seq<char>>, in_section: bool) -> Result<(), MarkerError>
    decreases ls.len(),
{
    if ls.len() == 0 {
        if in_section {
            Err(MarkerError::MissingEnd)
        } else {
            Ok(())
        }
    } else {
        let t = trim(ls[0]);
        if t == TOOLS_BOX_START@ {
            if in_section {
                Err(MarkerError::DuplicateStart)
            } else {
                markers_check(ls.drop_first(), true)
            }
        } else if t == TOOLS_BOX_END@ {
            if !in_section {
                Err(MarkerError::UnmatchedEnd)
            } else {
                markers_check(ls.drop_first(), false)
            }
        } else {
            markers_check(ls.drop_first(), in_section)
        }
    }
}

/// The text that remains of the lines `ls` once managed blocks are dropped:
/// every kept line followed by a line break.
pub open spec fn removed_text(ls: Seq<Seq<char>>, in_section: bool) -> Seq<char>
    decreases ls.len(),
{
    if ls.len() == 0 {
        seq![]
    } else {
        let t = trim(ls[0]);
        if t == TOOLS_BOX_START@ {
            removed_text(ls.drop_first(), true)
        } else if t == TOOLS_BOX_END@ {
            removed_text(ls.drop_first(), false)
        } else if !in_section {
            ls[0] + "\n"@ + removed_text(ls.drop_first(), in_section)
        } else {
            removed_text(ls.drop_first(), in_section)
        }
    }
}

/// Checks that the markers of `content` come in well-ordered pairs.
pub fn validate_tools_box_markers(content: &str) -> (r: Result<(), MarkerError>)
    ensures
        r == markers_check(lines_of(content@), false),
{
    let chars = chars_of(content);
    let ls = lines_chars(&chars);
    let start = chars_of(TOOLS_BOX_START);
    let end = chars_of(TOOLS_BOX_END);
    let ghost lsv = ls@.map_values(|l: Vec<char>| l@);
    let mut in_section = false;
    let mut i: usize = 0;
    assert(lsv.skip(0) =~= lsv);
    while i < ls.len()
        invariant
            i <= ls.len(),
            lsv == ls@.map_values(|l: Vec<char>| l@),
            lsv == lines_of(chars@),
            chars@ == content@,
            start@ == TOOLS_BOX_START@,
            end@ == TOOLS_BOX_END@,
            markers_check(lsv, false) == markers_check(lsv.skip(i as int), in_section),
        decreases ls.len() - i,
    {
        assert(lsv.skip(i as int)[0] == ls@[i as int]@);
        assert(lsv.skip(i as int).drop_first() =~= lsv.skip(i + 1));
        let line = trim_chars(&ls[i]);
        if chars_eq(&line, &start) {
            if in_section {
                return Err(MarkerError::DuplicateStart);
            }
            in_section = true;
        } else if chars_eq(&line, &end) {
            if !in_section {
                return Err(MarkerError::UnmatchedEnd);
            }
            in_section = false;
        }
        i += 1;
    }
    if in_section {
        return Err(MarkerError::MissingEnd);
    }
    Ok(())
}

/// Removes the managed blocks from `content`.
///
/// Markers that are not paired (a missing start or end, or reversed order)
/// are refused, so that entries kept by hand are never removed by mistake.
pub fn remove_tools_box_section(content: &str) -> (r: Result<String, MarkerError>)
    ensures
        match markers_check(lines_of(content@), false) {
            Err(e) => r == Err::<String, MarkerError>(e),
            Ok(()) => r matches Ok(s) && s@ == removed_text(lines_of(content@), false),
        },
{
    match validate_tools_box_markers(content) {
        Err(e) => {
            return Err(e);
        },
        Ok(()) => {},
    }
    let chars = chars_of(content);
    let ls = lines_chars(&chars);
    let start = chars_of(TOOLS_BOX_START);
    let end = chars_of(TOOLS_BOX_END);
    let ghost lsv = ls@.map_values(|l: Vec<char>| l@);
    let mut result = String::new();
    let mut in_section = false;
    let mut i: usize = 0;
    assert(lsv.skip(0) =~= lsv);
    while i < ls.len()
        invariant
            i <= ls.len(),
            lsv == ls@.map_values(|l: Vec<char>| l@),
            start@ == TOOLS_BOX_START@,
            end@ == TOOLS_BOX_END@,
            removed_text(lsv, false) == result@ + removed_text(lsv.skip(i as int), in_section),
        decreases ls.len() - i,
    {
        assert(lsv.skip(i as int)[0] == ls@[i as int]@);
        assert(lsv.skip(i as int).drop_first() =~= lsv.skip(i + 1));
        let line = trim_chars(&ls[i]);
        if chars_eq(&line, &start) {
            in_section = true;
        } else if chars_eq(&line, &end) {
            in_section = false;
        } else if !in_section {
            let ghost before = result@;
            push_chars(&mut result, &ls[i]);
            result.append("\n");
            assert(before + (ls@[i as int]@ + "\n"@ + removed_text(lsv.skip(i + 1), in_section))
                =~= result@ + removed_text(lsv.skip(i + 1), in_section));
        }
        i += 1;
    }
    assert(lsv.skip(i as int) =~= Seq::<Seq<char>>::empty());
    assert(result@ =~= removed_text(lsv, false));
    Ok(result)
}

/// The new content of a hosts file: its content without the managed blocks,
/// with trailing white space removed, a blank line, and a block generated
/// for `groups`. Markers that do not pair up are refused, as in
/// [`remove_tools_box_section`].
pub fn updated_hosts_content(existing: &str, groups: &[HostsGroup]) -> (r: Result<String, MarkerError>)
    ensures
        match markers_check(lines_of(existing@), false) {
            Err(e) => r == Err::<String, MarkerError>(e),
            Ok(()) => r matches Ok(s) && s@ == trim_end(removed_text(lines_of(existing@), false)) + "\n\n"@
                + hosts_block_spec(groups_view(groups@)),
        },
{
    let clean = match remove_tools_box_section(existing) {
        Err(e) => {
            return Err(e);
        },
        Ok(c) => c,
    };
    let v = chars_of(clean.as_str());
    let mut j = v.len();
    assert(v@.take(j as int) =~= v@);
    while j > 0 && is_whitespace_char(v[j - 1])
        invariant
            j <= v.len(),
            trim_end(v@) == trim_end(v@.take(j as int)),
        decreases j,
    {
        assert(v@.take(j as int).drop_last() =~= v@.take(j - 1));
        j -= 1;
    }
    if j > 0 {
        assert(!is_ws(v@.take(j as int).last()));
    }
    assert(trim_end(v@.take(j as int)) == v@.take(j as int));
    let t = copy_range(&v, 0, j);
    assert(v@.subrange(0, j as int) =~= v@.take(j as int));
    let mut out = string_from_chars(&t);
    out.append("\n\n");
    let block = generate_hosts_block(groups);
    out.append(block.as_str());
    Ok(out)
}

/// The address and the host name of a parsed entry are the first and the
/// second white-space separated words of the line's content (the trimmed
/// line before any `#`, trimmed again), whatever words follow them.
pub proof fn law_parsed_entry_takes_first_two_words(line: Seq<char>)
    ensures
        parse_hosts_line_spec(line) matches Some(e) ==> {
            let t = trim(line);
            let content = trim(t.take(first_index_of(t, '#')));
            &&& words(content).len() >= 2
            &&& e.ip == words(content)[0]
            &&& e.hostname == words(content)[1]
        },
{
    let t = trim(line);
    lemma_first_index_of(t, '#');
    if first_index_of(t, '#') >= t.len() {
        assert(t.take(first_index_of(t, '#')) =~= t);
        crate::text::lemma_trim_idempotent(line);
    }
}

} // verus!
