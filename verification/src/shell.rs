//! The application shell: theme, the plugin search of the sidebar, global
//! hotkeys, and where the system hosts file lives.

use vstd::prelude::*;
use crate::text::chars_of;

verus! {

/// The colour theme of the application.
#[derive(Debug, Clone, Copy, PartialEq, Eq)]
pub enum Theme {
    Light,
    Dark,
}

/// The theme stored in the settings: `"light"` is the light theme, every
/// other value the dark one.
pub fn theme_from_setting(setting: &str) -> (r: Theme)
    ensures
        r == (if setting@ == "light"@ { Theme::Light } else { Theme::Dark }),
{
    let v = chars_of(setting);
    let light = chars_of("light");
    if crate::text::chars_eq(&v, &light) {
        Theme::Light
    } else {
        Theme::Dark
    }
}

/// The path of the system hosts file on Windows or on other systems.
pub fn hosts_file_path(windows: bool) -> (r: String)
    ensures
        r@ == (if windows { "C:\\Windows\\System32\\drivers\\etc\\hosts"@ } else { "/etc/hosts"@ }),
{
    if windows {
        String::from_str("C:\\Windows\\System32\\drivers\\etc\\hosts")
    } else {
        String::from_str("/etc/hosts")
    }
}

/// What `str::to_lowercase` gives for `s` (Unicode lower case).
pub uninterp spec fn unicode_lower(s: Seq<char>) -> Seq<char>;

/// `str::to_lowercase`: the Unicode lower case of `s`. Its result is named by
/// [`unicode_lower`]; what that is on given characters is not stated here.
#[verifier::external_body]
fn lower_case(s: &str) -> (r: String)
    ensures
        r@ == unicode_lower(s@),
{
    s.to_lowercase()
}

/// Whether `needle` occurs in `hay` as a contiguous part (`str::contains`).
pub open spec fn has_part(hay: Seq<char>, needle: Seq<char>) -> bool {
    exists|i: int| 0 <= i && i + needle.len() <= hay.len() && #[trigger] hay.subrange(i, i + needle.len()) == needle
}

/// Whether `needle` occurs at position `i` of `hay`.
fn occurs_at(hay: &Vec<char>, needle: &Vec<char>, i: usize) -> (r: bool)
    requires
        i + needle.len() <= hay.len(),
    ensures
        r == (hay@.subrange(i as int, i + needle.len()) == needle@),
{
    let mut k: usize = 0;
    while k < needle.len()
        invariant
            k <= needle.len(),
            i + needle.len() <= hay.len(),
            forall|j: int| 0 <= j < k ==> hay@[i + j] == needle@[j],
        decreases needle.len() - k,
    {
        if hay[i + k] != needle[k] {
            assert(hay@.subrange(i as int, i + needle.len())[k as int] != needle@[k as int]);
            return false;
        }
        k += 1;
    }
    assert(hay@.subrange(i as int, i + needle.len()) =~= needle@);
    true
}

/// Whether `needle` occurs in `hay`.
fn contains_part(hay: &Vec<char>, needle: &Vec<char>) -> (r: bool)
    ensures
        r == has_part(hay@, needle@),
{
    if needle.len() > hay.len() {
        return false;
    }
    let last = hay.len() - needle.len();
    let mut i: usize = 0;
    loop
        invariant
            last + needle.len() == hay.len(),
            i <= last,
            forall|j: int| 0 <= j < i ==> #[trigger] hay@.subrange(j, j + needle.len()) != needle@,
        decreases last - i,
    {
        if occurs_at(hay, needle, i) {
            return true;
        }
        if i == last {
            assert forall|j: int| 0 <= j && j + needle.len() <= hay.len() implies #[trigger] hay@.subrange(
                j,
                j + needle.len(),
            ) != needle@ by {}
            return false;
        }
        i += 1;
    }
}

/// Whether a plugin with this name and description is listed for a search
/// (everything compared in Unicode lower case).
pub open spec fn plugin_matches(name: Seq<char>, description: Seq<char>, query: Seq<char>) -> bool {
    let q = unicode_lower(query);
    q.len() == 0 || has_part(unicode_lower(name), q) || has_part(unicode_lower(description), q)
}

/// The indices of the plugins listed for a search, in order: all of them
/// for an empty query, else those whose name or description contains it.
pub fn filter_plugins(names: &Vec<String>, descriptions: &Vec<String>, query: &str) -> (r: Vec<usize>)
    requires
        names.len() == descriptions.len(),
    ensures
        forall|k: int| 0 <= k < r.len() ==> #[trigger] r@[k] < names.len(),
        forall|k: int, l: int| 0 <= k < l < r.len() ==> r@[k] < r@[l],
        forall|i: int| 0 <= i < names.len() ==> (r@.contains(i as usize) <==> plugin_matches(
            #[trigger] names@[i]@,
            descriptions@[i]@,
            query@,
        )),
{
    let q = chars_of(lower_case(query).as_str());
    let mut out: Vec<usize> = Vec::new();
    let mut i: usize = 0;
    while i < names.len()
        invariant
            i <= names.len(),
            names.len() == descriptions.len(),
            q@ == unicode_lower(query@),
            forall|k: int| 0 <= k < out.len() ==> #[trigger] out@[k] < i,
            forall|k: int, l: int| 0 <= k < l < out.len() ==> out@[k] < out@[l],
            forall|j: int| 0 <= j < i ==> (out@.contains(j as usize) <==> plugin_matches(
                #[trigger] names@[j]@,
                descriptions@[j]@,
                query@,
            )),
        decreases names.len() - i,
    {
        let listed = q.len() == 0 || contains_part(&chars_of(lower_case(names[i].as_str()).as_str()), &q)
            || contains_part(&chars_of(lower_case(descriptions[i].as_str()).as_str()), &q);
        let ghost before = out@;
        if listed {
            out.push(i);
        }
        proof {
            assert forall|j: int| 0 <= j < i + 1 implies (out@.contains(j as usize) <==> plugin_matches(
                #[trigger] names@[j]@,
                descriptions@[j]@,
                query@,
            )) by {
                if listed {
                    if out@.contains(j as usize) && j < i {
                        let k = choose|k: int| 0 <= k < out@.len() && out@[k] == j as usize;
                        assert(k < before.len());
                        assert(before.contains(j as usize));
                    }
                    if j < i && before.contains(j as usize) {
                        let k = choose|k: int| 0 <= k < before.len() && before[k] == j as usize;
                        assert(out@[k] == j as usize);
                    }
                    if j == i {
                        assert(out@[before.len() as int] == i);
                    }
                } else {
                    assert(out@ == before);
                    if j == i && before.contains(j as usize) {
                        let k = choose|k: int| 0 <= k < before.len() && before[k] == j as usize;
                        assert(before[k] < i);
                    }
                }
            }
        }
        i += 1;
    }
    out
}

/// What the shell must do with its window after a hotkey.
#[derive(Debug, Clone, Copy, PartialEq, Eq)]
pub enum WindowCommand {
    Hide,
    Show,
    Keep,
}

/// The status line after a hotkey: unchanged, "minimized to the tray", or
/// "summoned" with the index of the plugin whose name is shown.
#[derive(Debug, Clone, Copy, PartialEq, Eq)]
pub enum HotkeyStatus {
    Unchanged,
    Minimized,
    Summoned(usize),
}

/// The part of the shell state that hotkeys change.
#[derive(Debug, Clone, Copy, PartialEq, Eq)]
pub struct ShellState {
    pub selected: usize,
    pub last_active_tool: usize,
    pub window_visible: bool,
}

/// The shell's answer to a hotkey event for `plugin_index` among
/// `plugin_count` plugins: the main hotkey hides a visible window and
/// otherwise restores it on the last active tool; a plugin hotkey selects
/// that plugin and shows the window; other indices are ignored.
pub fn on_hotkey(state: ShellState, plugin_index: usize, plugin_count: usize) -> (r: (ShellState, WindowCommand, HotkeyStatus))
    requires
        plugin_index == usize::MAX && !state.window_visible ==> state.last_active_tool < plugin_count,
    ensures
        plugin_index == usize::MAX && state.window_visible ==> r == (
            ShellState { window_visible: false, ..state },
            WindowCommand::Hide,
            HotkeyStatus::Minimized,
        ),
        plugin_index == usize::MAX && !state.window_visible ==> r == (
            ShellState { selected: state.last_active_tool, window_visible: true, ..state },
            WindowCommand::Show,
            HotkeyStatus::Summoned(state.last_active_tool),
        ),
        plugin_index != usize::MAX && plugin_index < plugin_count ==> r == (
            ShellState { selected: plugin_index, last_active_tool: plugin_index, window_visible: true },
            if state.window_visible { WindowCommand::Keep } else { WindowCommand::Show },
            HotkeyStatus::Summoned(plugin_index),
        ),
        plugin_index != usize::MAX && plugin_index >= plugin_count ==> r == (state, WindowCommand::Keep, HotkeyStatus::Unchanged),
{
    if plugin_index == usize::MAX {
        if state.window_visible {
            (ShellState { window_visible: false, ..state }, WindowCommand::Hide, HotkeyStatus::Minimized)
        } else {
            (
                ShellState { selected: state.last_active_tool, window_visible: true, ..state },
                WindowCommand::Show,
                HotkeyStatus::Summoned(state.last_active_tool),
            )
        }
    } else if plugin_index < plugin_count {
        let command = if state.window_visible { WindowCommand::Keep } else { WindowCommand::Show };
        (
            ShellState { selected: plugin_index, last_active_tool: plugin_index, window_visible: true },
            command,
            HotkeyStatus::Summoned(plugin_index),
        )
    } else {
        (state, WindowCommand::Keep, HotkeyStatus::Unchanged)
    }
}

} // verus!
