//! State of the hosts manager screen and the decisions it takes: which
//! messages to show, when to ask before applying, what an import adds.
//!
//! Drawing the screen, reading and writing files and the database are done by
//! the caller, which hands the outcomes back to these methods.

use vstd::prelude::*;
use crate::conflicts::{
    HostnameConflict, ConflictView, conflicts_view, describe_spec, find_hostname_conflicts,
    format_conflicts, is_conflict_key, is_conflict_report, occurrences,
};
use crate::hosts::{HostsGroup, HostsGroupView, HostsLine, HostsLineView, groups_view, lines_view, opt_chars};
use crate::hosts_store::{
    DbHostsEntry, Environment, EnvironmentForm, HostsEntryForm, NewEntryView, NewHostsEntry,
};
use crate::text::{
    chars_eq, chars_of, decimal, join, push_decimal, to_ascii_lower, to_ascii_lower_chars, trim,
    trim_chars,
};

verus! {

/// Which part of the hosts manager is shown.
#[derive(Debug, Clone, Copy, PartialEq, Eq)]
pub enum UiState {
    /// The list of environments.
    EnvironmentList,
    /// Renaming an environment.
    EditEnvironment(i64),
    /// The entries of an environment.
    EntryList(i64),
    /// Editing an entry: environment id and entry id.
    EditEntry(i64, i64),
}

/// An application waiting for the user to confirm it despite conflicts.
#[derive(Debug, Clone)]
pub struct PendingApply {
    /// The environments to write.
    pub groups: Vec<HostsGroup>,
    /// Their names.
    pub env_names: Vec<String>,
    /// The conflicts found among them.
    pub conflicts: Vec<HostnameConflict>,
}

/// State of the hosts manager screen.
pub struct HostsManagerUi {
    pub state: UiState,
    pub environments: Vec<Environment>,
    pub entries: Vec<DbHostsEntry>,
    pub selected_env: Option<i64>,
    pub env_form: EnvironmentForm,
    pub entry_form: HostsEntryForm,
    pub error_msg: Option<String>,
    pub success_msg: Option<String>,
    /// A warning (such as host name conflicts).
    pub warning_msg: Option<String>,
    /// Whether the dialog adding an environment is open.
    pub add_env_dialog_open: bool,
    /// Whether the dialog adding an entry is open.
    pub add_entry_dialog_open: bool,
    /// The environment waiting for the user to confirm its deletion.
    pub pending_delete_env_id: Option<i64>,
    /// The entry waiting for the user to confirm its deletion.
    pub pending_delete_entry_id: Option<i64>,
    /// The application waiting for confirmation, when conflicts were found.
    pub pending_apply: Option<PendingApply>,
}

/// Whether an optional message holds exactly `s`.
pub open spec fn msg_is(o: Option<String>, s: Seq<char>) -> bool {
    o matches Some(m) && m@ == s
}

/// The two states agree on everything but the messages and the pending
/// application.
pub open spec fn same_screen(a: HostsManagerUi, b: HostsManagerUi) -> bool {
    &&& a.state == b.state
    &&& a.environments == b.environments
    &&& a.entries == b.entries
    &&& a.selected_env == b.selected_env
    &&& a.env_form == b.env_form
    &&& a.entry_form == b.entry_form
    &&& a.add_env_dialog_open == b.add_env_dialog_open
    &&& a.add_entry_dialog_open == b.add_entry_dialog_open
    &&& a.pending_delete_env_id == b.pending_delete_env_id
    &&& a.pending_delete_entry_id == b.pending_delete_entry_id
}

/// The number of enabled entries of the environments.
pub open spec fn active_entry_count(gs: Seq<HostsGroupView>) -> nat
    decreases gs.len(),
{
    if gs.len() == 0 {
        0
    } else {
        active_entry_count(gs.drop_last()) + active_in(gs.last().entries)
    }
}

/// The number of enabled entries among `es`.
pub open spec fn active_in(es: Seq<HostsLineView>) -> nat
    decreases es.len(),
{
    if es.len() == 0 {
        0
    } else {
        active_in(es.drop_last()) + if es.last().is_active { 1nat } else { 0nat }
    }
}

/// Success message after applying environments with enabled entries.
pub open spec fn applied_msg(n: nat, count: nat, names: Seq<Seq<char>>) -> Seq<char> {
    "已应用 "@ + decimal(n) + " 个环境共 "@ + decimal(count) + " 条启用条目到系统 hosts: "@ + join(names, "、"@)
}

/// Warning after applying environments without enabled entries.
pub open spec fn applied_empty_msg(n: nat, names: Seq<Seq<char>>) -> Seq<char> {
    "已更新 "@ + decimal(n) + " 个环境的管理区域，但没有启用条目（环境为空或条目已全部禁用）: "@ + join(
        names,
        "、"@,
    )
}

/// Warning about the conflicts of an application that went ahead.
pub open spec fn conflict_warning(cs: Seq<ConflictView>) -> Seq<char> {
    "存在主机名冲突，同名条目以 hosts 文件中先出现的映射为准: "@ + join(
        cs.map_values(|c: ConflictView| describe_spec(c)),
        "；"@,
    )
}

/// The models of a sequence of strings.
pub open spec fn strings_view(v: Seq<String>) -> Seq<Seq<char>> {
    v.map_values(|s: String| s@)
}

/// What happened when the caller backed up and wrote the hosts file.
#[derive(Debug, Clone)]
pub enum WriteOutcome {
    /// The backup failed, with this reason; nothing was written.
    BackupFailed(String),
    /// The backup succeeded, the write failed with this reason.
    WriteFailed(String),
    /// The file was written.
    Written,
}

/// What to do once the hosts file was backed up (or not).
#[derive(Debug, Clone)]
pub enum WriteAction {
    /// Append the managed block to the system hosts file.
    Append,
    /// Write nothing and report this outcome.
    Report(WriteOutcome),
}

/// Decides the step after the backup: the hosts file is written only when
/// the backup succeeded; a failed backup cancels the application with its
/// reason.
pub fn after_backup(backup: Result<(), String>) -> (r: WriteAction)
    ensures
        match backup {
            Ok(()) => r is Append,
            Err(e) => r matches WriteAction::Report(WriteOutcome::BackupFailed(m)) && m == e,
        },
{
    match backup {
        Ok(()) => WriteAction::Append,
        Err(e) => WriteAction::Report(WriteOutcome::BackupFailed(e)),
    }
}

/// The outcome once the managed block was appended: written, or the write's
/// failure with its reason.
pub fn after_append(append: Result<(), String>) -> (r: WriteOutcome)
    ensures
        match append {
            Ok(()) => r is Written,
            Err(e) => r matches WriteOutcome::WriteFailed(m) && m == e,
        },
{
    match append {
        Ok(()) => WriteOutcome::Written,
        Err(e) => WriteOutcome::WriteFailed(e),
    }
}

impl HostsManagerUi {
    /// The initial state: the environment list, with nothing loaded.
    pub fn new() -> (r: Self)
        ensures
            r.state == UiState::EnvironmentList,
            r.environments@.len() == 0,
            r.entries@.len() == 0,
            r.selected_env is None,
            r.env_form.name@.len() == 0,
            r.entry_form.ip_address@.len() == 0,
            r.entry_form.hostname@.len() == 0,
            r.entry_form.comment@.len() == 0,
            r.error_msg is None,
            r.success_msg is None,
            r.warning_msg is None,
            !r.add_env_dialog_open,
            !r.add_entry_dialog_open,
            r.pending_delete_env_id is None,
            r.pending_delete_entry_id is None,
            r.pending_apply is None,
    {
        HostsManagerUi {
            state: UiState::EnvironmentList,
            environments: Vec::new(),
            entries: Vec::new(),
            selected_env: None,
            env_form: EnvironmentForm::new(),
            entry_form: HostsEntryForm::new(),
            error_msg: None,
            success_msg: None,
            warning_msg: None,
            add_env_dialog_open: false,
            add_entry_dialog_open: false,
            pending_delete_env_id: None,
            pending_delete_entry_id: None,
            pending_apply: None,
        }
    }

    /// Clears every message.
    pub fn clear_messages(&mut self)
        ensures
            same_screen(*old(self), *final(self)),
            final(self).pending_apply == old(self).pending_apply,
            final(self).error_msg is None,
            final(self).success_msg is None,
            final(self).warning_msg is None,
    {
        self.error_msg = None;
        self.success_msg = None;
        self.warning_msg = None;
    }

    /// Shows an error, replacing the other messages.
    pub fn set_error(&mut self, msg: String)
        ensures
            same_screen(*old(self), *final(self)),
            final(self).pending_apply == old(self).pending_apply,
            final(self).error_msg == Some(msg),
            final(self).success_msg is None,
            final(self).warning_msg is None,
    {
        self.error_msg = Some(msg);
        self.success_msg = None;
        self.warning_msg = None;
    }

    /// Shows a success message, replacing the other messages.
    pub fn set_success(&mut self, msg: String)
        ensures
            same_screen(*old(self), *final(self)),
            final(self).pending_apply == old(self).pending_apply,
            final(self).success_msg == Some(msg),
            final(self).error_msg is None,
            final(self).warning_msg is None,
    {
        self.success_msg = Some(msg);
        self.error_msg = None;
        self.warning_msg = None;
    }

    /// Shows a warning, keeping the success or error message shown.
    pub fn set_warning(&mut self, msg: String)
        ensures
            same_screen(*old(self), *final(self)),
            final(self).pending_apply == old(self).pending_apply,
            final(self).warning_msg == Some(msg),
            final(self).error_msg == old(self).error_msg,
            final(self).success_msg == old(self).success_msg,
    {
        self.warning_msg = Some(msg);
    }
}

/// The number of enabled entries of the environments.
pub fn count_active_entries(groups: &[HostsGroup]) -> (r: usize)
    requires
        active_entry_count(groups_view(groups@)) <= usize::MAX,
    ensures
        r == active_entry_count(groups_view(groups@)),
{
    let ghost gv = groups_view(groups@);
    let mut total: usize = 0;
    let mut gi: usize = 0;
    while gi < groups.len()
        invariant
            gi <= groups.len(),
            gv == groups_view(groups@),
            active_entry_count(gv) <= usize::MAX,
            total == active_entry_count(gv.take(gi as int)),
        decreases groups.len() - gi,
    {
        let group = &groups[gi];
        let ghost ev = lines_view(group.entries@);
        assert(gv.take(gi + 1).drop_last() =~= gv.take(gi as int));
        assert(gv.take(gi + 1).last() == group@);
        proof {
            lemma_count_prefix(gv, gi + 1);
        }
        let mut ei: usize = 0;
        while ei < group.entries.len()
            invariant
                ei <= group.entries.len(),
                ev == lines_view(group.entries@),
                active_entry_count(gv.take(gi + 1)) <= usize::MAX,
                active_entry_count(gv.take(gi + 1)) == active_entry_count(gv.take(gi as int)) + active_in(ev),
                total == active_entry_count(gv.take(gi as int)) + active_in(ev.take(ei as int)),
            decreases group.entries.len() - ei,
        {
            assert(ev.take(ei + 1).drop_last() =~= ev.take(ei as int));
            assert(ev.take(ei + 1).last() == group.entries@[ei as int]@);
            proof {
                lemma_active_in_prefix(ev, ei + 1);
            }
            if group.entries[ei].is_active {
                total = total + 1;
            }
            ei += 1;
        }
        assert(ev.take(ev.len() as int) =~= ev);
        gi += 1;
    }
    assert(gv.take(gv.len() as int) =~= gv);
    total
}

pub proof fn lemma_active_in_prefix(es: Seq<HostsLineView>, n: int)
    requires
        0 <= n <= es.len(),
    ensures
        active_in(es.take(n)) <= active_in(es),
    decreases es.len(),
{
    if n < es.len() {
        assert(es.drop_last().take(n) =~= es.take(n));
        lemma_active_in_prefix(es.drop_last(), n);
    } else {
        assert(es.take(n) =~= es);
    }
}

pub proof fn lemma_count_prefix(gs: Seq<HostsGroupView>, n: int)
    requires
        0 <= n <= gs.len(),
    ensures
        active_entry_count(gs.take(n)) <= active_entry_count(gs),
    decreases gs.len(),
{
    if n < gs.len() {
        assert(gs.drop_last().take(n) =~= gs.take(n));
        lemma_count_prefix(gs.drop_last(), n);
    } else {
        assert(gs.take(n) =~= gs);
    }
}

/// The strings joined by `sep`.
pub fn join_strings(parts: &Vec<String>, sep: &str) -> (r: String)
    ensures
        r@ == join(strings_view(parts@), sep@),
{
    let ghost pv = strings_view(parts@);
    let mut out = String::new();
    let mut i: usize = 0;
    while i < parts.len()
        invariant
            i <= parts.len(),
            pv == strings_view(parts@),
            out@ == join(pv.take(i as int), sep@),
        decreases parts.len() - i,
    {
        let ghost before = out@;
        if i > 0 {
            out.append(sep);
        }
        out.append(parts[i].as_str());
        proof {
            let t = pv.take(i + 1);
            assert(t.drop_last() =~= pv.take(i as int));
            assert(t.last() == parts@[i as int]@);
            if i == 0 {
                assert(pv.take(0) =~= Seq::<Seq<char>>::empty());
                assert(out@ =~= parts@[0]@);
            } else {
                assert(out@ =~= before + sep@ + parts@[i as int]@);
            }
        }
        i += 1;
    }
    assert(pv.take(pv.len() as int) =~= pv);
    out
}

impl HostsManagerUi {
    /// Reports how backing up and writing the hosts file went for the
    /// environments `groups` (named `applied`), with the conflicts the user
    /// accepted.
    ///
    /// A failed backup or write shows an error. A written file shows a
    /// success message, or a warning when no entry was enabled; accepted
    /// conflicts add a warning after any other.
    pub fn write_hosts(
        &mut self,
        groups: &[HostsGroup],
        applied: &Vec<String>,
        conflicts: &[HostnameConflict],
        outcome: WriteOutcome,
    )
        requires
            active_entry_count(groups_view(groups@)) <= usize::MAX,
        ensures
            same_screen(*old(self), *final(self)),
            final(self).pending_apply == old(self).pending_apply,
            match outcome {
                WriteOutcome::BackupFailed(e) => {
                    &&& msg_is(final(self).error_msg, "备份系统 hosts 失败，已取消应用: "@ + e@)
                    &&& final(self).success_msg is None
                    &&& final(self).warning_msg is None
                },
                WriteOutcome::WriteFailed(e) => {
                    &&& msg_is(final(self).error_msg, "写入系统 hosts 失败: "@ + e@)
                    &&& final(self).success_msg is None
                    &&& final(self).warning_msg is None
                },
                WriteOutcome::Written => {
                    let n = applied@.len();
                    let count = active_entry_count(groups_view(groups@));
                    let names = strings_view(applied@);
                    let cw = conflict_warning(conflicts_view(conflicts@));
                    if count == 0 {
                        &&& final(self).error_msg == old(self).error_msg
                        &&& final(self).success_msg == old(self).success_msg
                        &&& msg_is(
                            final(self).warning_msg,
                            if conflicts@.len() == 0 {
                                applied_empty_msg(n, names)
                            } else {
                                applied_empty_msg(n, names) + "；"@ + cw
                            },
                        )
                    } else {
                        &&& msg_is(final(self).success_msg, applied_msg(n, count, names))
                        &&& final(self).error_msg is None
                        &&& if conflicts@.len() == 0 {
                            final(self).warning_msg is None
                        } else {
                            msg_is(final(self).warning_msg, cw)
                        }
                    }
                },
            },
    {
        match outcome {
            WriteOutcome::BackupFailed(e) => {
                let mut m = String::from_str("备份系统 hosts 失败，已取消应用: ");
                m.append(e.as_str());
                self.set_error(m);
            },
            WriteOutcome::WriteFailed(e) => {
                let mut m = String::from_str("写入系统 hosts 失败: ");
                m.append(e.as_str());
                self.set_error(m);
            },
            WriteOutcome::Written => {
                let count = count_active_entries(groups);
                let names = join_strings(applied, "、");
                if count == 0 {
                    let mut m = String::from_str("已更新 ");
                    push_decimal(&mut m, applied.len());
                    m.append(" 个环境的管理区域，但没有启用条目（环境为空或条目已全部禁用）: ");
                    m.append(names.as_str());
                    self.set_warning(m);
                } else {
                    let mut m = String::from_str("已应用 ");
                    push_decimal(&mut m, applied.len());
                    m.append(" 个环境共 ");
                    push_decimal(&mut m, count);
                    m.append(" 条启用条目到系统 hosts: ");
                    m.append(names.as_str());
                    self.set_success(m);
                }
                if conflicts.len() > 0 {
                    let mut cw = String::from_str("存在主机名冲突，同名条目以 hosts 文件中先出现的映射为准: ");
                    let fc = format_conflicts(conflicts);
                    cw.append(fc.as_str());
                    let warning = match &self.warning_msg {
                        Some(existing) => {
                            let mut w = existing.clone();
                            w.append("；");
                            w.append(cw.as_str());
                            w
                        },
                        None => cw,
                    };
                    self.set_warning(warning);
                }
            },
        }
    }
}

/// Whether two entries are equal.
fn lines_equal(a: &HostsLine, b: &HostsLine) -> (r: bool)
    ensures
        r == (a@ == b@),
{
    if a.ip != b.ip || a.hostname != b.hostname || a.is_active != b.is_active {
        return false;
    }
    match (&a.comment, &b.comment) {
        (Some(x), Some(y)) => *x == *y,
        (None, None) => true,
        _ => false,
    }
}

/// Whether two lists of environments are equal.
pub fn groups_equal(a: &[HostsGroup], b: &[HostsGroup]) -> (r: bool)
    ensures
        r == (groups_view(a@) == groups_view(b@)),
{
    let ghost av = groups_view(a@);
    let ghost bv = groups_view(b@);
    if a.len() != b.len() {
        assert(av.len() != bv.len());
        return false;
    }
    let mut i: usize = 0;
    while i < a.len()
        invariant
            i <= a.len(),
            a.len() == b.len(),
            av == groups_view(a@),
            bv == groups_view(b@),
            forall|k: int| 0 <= k < i ==> av[k] == bv[k],
        decreases a.len() - i,
    {
        let ga = &a[i];
        let gb = &b[i];
        assert(av[i as int] == ga@);
        assert(bv[i as int] == gb@);
        if ga.name != gb.name || ga.entries.len() != gb.entries.len() {
            assert(ga@.entries.len() == ga.entries.len());
            assert(gb@.entries.len() == gb.entries.len());
            assert(av[i as int] != bv[i as int]);
            return false;
        }
        let ghost ea = lines_view(ga.entries@);
        let ghost eb = lines_view(gb.entries@);
        let mut j: usize = 0;
        while j < ga.entries.len()
            invariant
                j <= ga.entries.len(),
                ga.entries.len() == gb.entries.len(),
                ea == lines_view(ga.entries@),
                eb == lines_view(gb.entries@),
                i < a.len(),
                a.len() == b.len(),
                av == groups_view(a@),
                bv == groups_view(b@),
                av[i as int] == ga@,
                bv[i as int] == gb@,
                forall|k: int| 0 <= k < j ==> ea[k] == eb[k],
            decreases ga.entries.len() - j,
        {
            if !lines_equal(&ga.entries[j], &gb.entries[j]) {
                assert(ea[j as int] != eb[j as int]);
                assert(av[i as int].entries == ea);
                assert(bv[i as int].entries == eb);
                assert(av[i as int] != bv[i as int]);
                return false;
            }
            j += 1;
        }
        assert(ea =~= eb);
        assert(av[i as int] == bv[i as int]);
        i += 1;
    }
    assert(av =~= bv);
    true
}

/// The names of the environments.
fn group_names(groups: &Vec<HostsGroup>) -> (r: Vec<String>)
    ensures
        strings_view(r@) == groups_view(groups@).map_values(|g: HostsGroupView| g.name),
{
    let mut r: Vec<String> = Vec::new();
    let mut i: usize = 0;
    while i < groups.len()
        invariant
            i <= groups.len(),
            strings_view(r@) == groups_view(groups@).take(i as int).map_values(|g: HostsGroupView| g.name),
        decreases groups.len() - i,
    {
        let ghost before = strings_view(r@);
        let name = groups[i].name.clone();
        r.push(name);
        assert(strings_view(r@) =~= before.push(name@));
        assert(groups_view(groups@)[i as int] == groups@[i as int]@);
        assert(groups_view(groups@).take(i + 1).map_values(|g: HostsGroupView| g.name) =~= groups_view(groups@).take(
            i as int,
        ).map_values(|g: HostsGroupView| g.name).push(groups@[i as int]@.name));
        assert(strings_view(r@) =~= groups_view(groups@).take(i + 1).map_values(|g: HostsGroupView| g.name));
        i += 1;
    }
    assert(groups_view(groups@).take(groups.len() as int) =~= groups_view(groups@));
    r
}

/// Whether the enabled entries of the environments hold no conflict.
pub open spec fn conflict_free(gs: Seq<HostsGroupView>) -> bool {
    forall|k: Seq<char>| !is_conflict_key(occurrences(gs), k)
}

impl HostsManagerUi {
    /// Starts applying the enabled environments that the caller loaded.
    ///
    /// Gives the environments and their names to write, or none: when
    /// loading failed or no environment is enabled (an error is shown), or
    /// when host name conflicts were found, in which case the application
    /// waits for the user's confirmation.
    pub fn apply_hosts(&mut self, loaded: Result<Vec<HostsGroup>, String>) -> (r: Option<(Vec<HostsGroup>, Vec<String>)>)
        ensures
            same_screen(*old(self), *final(self)),
            match loaded {
                Err(e) => {
                    &&& r is None
                    &&& msg_is(final(self).error_msg, "获取启用环境失败: "@ + e@)
                    &&& final(self).success_msg is None
                    &&& final(self).warning_msg is None
                    &&& final(self).pending_apply is None
                },
                Ok(gs) => {
                    let gv = groups_view(gs@);
                    if gs@.len() == 0 {
                        &&& r is None
                        &&& msg_is(final(self).error_msg, "请先启用至少一个环境"@)
                        &&& final(self).success_msg is None
                        &&& final(self).warning_msg is None
                        &&& final(self).pending_apply is None
                    } else if !conflict_free(gv) {
                        &&& r is None
                        &&& final(self).error_msg is None
                        &&& final(self).success_msg is None
                        &&& final(self).warning_msg is None
                        &&& final(self).pending_apply matches Some(p) && {
                            &&& groups_view(p.groups@) == gv
                            &&& strings_view(p.env_names@) == gv.map_values(|g: HostsGroupView| g.name)
                            &&& is_conflict_report(occurrences(gv), conflicts_view(p.conflicts@))
                            &&& p.conflicts@.len() > 0
                        }
                    } else {
                        &&& r matches Some((g2, names)) && groups_view(g2@) == gv
                            && strings_view(names@) == gv.map_values(|g: HostsGroupView| g.name)
                        &&& final(self).error_msg is None
                        &&& final(self).success_msg is None
                        &&& final(self).warning_msg is None
                        &&& final(self).pending_apply is None
                    }
                },
            },
    {
        self.clear_messages();
        self.pending_apply = None;
        let groups = match loaded {
            Err(e) => {
                let mut m = String::from_str("获取启用环境失败: ");
                m.append(e.as_str());
                self.set_error(m);
                return None;
            },
            Ok(gs) => gs,
        };
        if groups.len() == 0 {
            self.set_error(String::from_str("请先启用至少一个环境"));
            return None;
        }
        let env_names = group_names(&groups);
        let conflicts = find_hostname_conflicts(groups.as_slice());
        let ghost os = occurrences(groups_view(groups@));
        if conflicts.len() > 0 {
            proof {
                let c = conflicts_view(conflicts@)[0];
                assert(is_conflict_key(os, crate::conflicts::conflict_key(c)));
            }
            self.pending_apply = Some(PendingApply { groups, env_names, conflicts });
            return None;
        }
        proof {
            assert forall|k: Seq<char>| !is_conflict_key(os, k) by {
                if is_conflict_key(os, k) {
                    let i = choose|i: int| 0 <= i < conflicts_view(conflicts@).len()
                        && #[trigger] crate::conflicts::conflict_key(conflicts_view(conflicts@)[i]) == k;
                }
            }
        }
        Some((groups, env_names))
    }

    /// Decides, once the user confirmed an application despite conflicts,
    /// whether to write it: only when the enabled environments the caller
    /// loaded again are still those of the pending application.
    pub fn confirm_apply(&mut self, loaded: Result<Vec<HostsGroup>, String>, pending: &PendingApply) -> (r: bool)
        ensures
            same_screen(*old(self), *final(self)),
            final(self).pending_apply == old(self).pending_apply,
            match loaded {
                Err(e) => {
                    &&& !r
                    &&& msg_is(final(self).error_msg, "获取启用环境失败: "@ + e@)
                    &&& final(self).success_msg is None
                    &&& final(self).warning_msg is None
                },
                Ok(gs) => if groups_view(gs@) == groups_view(pending.groups@) {
                    &&& r
                    &&& final(self).error_msg == old(self).error_msg
                    &&& final(self).success_msg == old(self).success_msg
                    &&& final(self).warning_msg == old(self).warning_msg
                } else {
                    &&& !r
                    &&& msg_is(final(self).warning_msg, "环境配置已变化，请重新点击【应用到系统】"@)
                    &&& final(self).error_msg == old(self).error_msg
                    &&& final(self).success_msg == old(self).success_msg
                },
            },
    {
        match loaded {
            Err(e) => {
                let mut m = String::from_str("获取启用环境失败: ");
                m.append(e.as_str());
                self.set_error(m);
                false
            },
            Ok(gs) => {
                if !groups_equal(gs.as_slice(), pending.groups.as_slice()) {
                    self.set_warning(String::from_str("环境配置已变化，请重新点击【应用到系统】"));
                    false
                } else {
                    true
                }
            },
        }
    }
}

/// The key under which imported entries are compared with stored ones: the
/// trimmed address and the ASCII lower-case host name.
pub type ImportKey = (Seq<char>, Seq<char>);

/// The keys of the stored entries (their host names trimmed too).
pub open spec fn stored_keys(es: Seq<DbHostsEntry>) -> Seq<ImportKey> {
    es.map_values(|e: DbHostsEntry| (trim(e.ip_address@), to_ascii_lower(trim(e.hostname@))))
}

/// The entry stored for an imported line.
pub open spec fn imported_entry(l: HostsLineView) -> NewEntryView {
    NewEntryView { ip_address: l.ip, hostname: l.hostname, comment: l.comment }
}

/// What an import of `ls` adds, given the keys already `seen`, and how many
/// enabled lines it skips as already present. Disabled lines are not
/// imported; of enabled lines with equal keys only the first is.
pub open spec fn import_plan(seen: Seq<ImportKey>, ls: Seq<HostsLineView>) -> (Seq<NewEntryView>, nat)
    decreases ls.len(),
{
    if ls.len() == 0 {
        (seq![], 0)
    } else {
        let l = ls[0];
        let rest = ls.drop_first();
        if !l.is_active {
            import_plan(seen, rest)
        } else {
            let k = (trim(l.ip), to_ascii_lower(l.hostname));
            if seen.contains(k) {
                let p = import_plan(seen, rest);
                (p.0, p.1 + 1)
            } else {
                let p = import_plan(seen.push(k), rest);
                (seq![imported_entry(l)] + p.0, p.1)
            }
        }
    }
}

/// The entries an import adds, and the number of lines it skips.
pub struct ImportPlan {
    pub entries: Vec<NewHostsEntry>,
    pub skipped: usize,
}

/// The view of an import key held as characters.
spec fn key_view(k: (Vec<char>, Vec<char>)) -> ImportKey {
    (k.0@, k.1@)
}

fn contains_key(keys: &Vec<(Vec<char>, Vec<char>)>, k: &(Vec<char>, Vec<char>)) -> (r: bool)
    ensures
        r == keys@.map_values(|x: (Vec<char>, Vec<char>)| key_view(x)).contains(key_view(*k)),
{
    let ghost kv = keys@.map_values(|x: (Vec<char>, Vec<char>)| key_view(x));
    let mut i: usize = 0;
    while i < keys.len()
        invariant
            i <= keys.len(),
            kv == keys@.map_values(|x: (Vec<char>, Vec<char>)| key_view(x)),
            forall|j: int| 0 <= j < i ==> kv[j] != key_view(*k),
        decreases keys.len() - i,
    {
        assert(kv[i as int] == key_view(keys@[i as int]));
        if chars_eq(&keys[i].0, &k.0) && chars_eq(&keys[i].1, &k.1) {
            return true;
        }
        i += 1;
    }
    false
}

/// Decides which enabled lines of a hosts file to import into an environment
/// holding `existing`: a line whose address and host name (the latter without
/// regard to ASCII case) are already present, or were imported before it, is
/// skipped.
pub fn plan_import(existing: &[DbHostsEntry], lines: &[HostsLine]) -> (r: ImportPlan)
    requires
        lines@.len() <= usize::MAX,
    ensures
        import_plan(stored_keys(existing@), lines_view(lines@)) == (
            r.entries@.map_values(|e: NewHostsEntry| e@),
            r.skipped as nat,
        ),
{
    let mut keys: Vec<(Vec<char>, Vec<char>)> = Vec::new();
    let mut i: usize = 0;
    while i < existing.len()
        invariant
            i <= existing.len(),
            keys@.map_values(|x: (Vec<char>, Vec<char>)| key_view(x)) == stored_keys(existing@.take(i as int)),
        decreases existing.len() - i,
    {
        let e = &existing[i];
        let ip = trim_chars(&chars_of(e.ip_address.as_str()));
        let host = to_ascii_lower_chars(&trim_chars(&chars_of(e.hostname.as_str())));
        let ghost before = keys@.map_values(|x: (Vec<char>, Vec<char>)| key_view(x));
        keys.push((ip, host));
        assert(keys@.map_values(|x: (Vec<char>, Vec<char>)| key_view(x)) =~= before.push(
            (trim(e.ip_address@), to_ascii_lower(trim(e.hostname@))),
        ));
        assert(stored_keys(existing@.take(i + 1)) =~= stored_keys(existing@.take(i as int)).push(
            (trim(e.ip_address@), to_ascii_lower(trim(e.hostname@))),
        ));
        i += 1;
    }
    assert(existing@.take(existing.len() as int) =~= existing@);
    let ghost lv = lines_view(lines@);
    let ghost seen0 = stored_keys(existing@);
    let mut entries: Vec<NewHostsEntry> = Vec::new();
    let mut skipped: usize = 0;
    let mut j: usize = 0;
    assert(lv.skip(0) =~= lv);
    while j < lines.len()
        invariant
            j <= lines.len(),
            lines@.len() <= usize::MAX,
            lv == lines_view(lines@),
            skipped <= j,
            import_plan(seen0, lv) == (
                entries@.map_values(|e: NewHostsEntry| e@) + import_plan(
                    keys@.map_values(|x: (Vec<char>, Vec<char>)| key_view(x)),
                    lv.skip(j as int),
                ).0,
                (skipped + import_plan(keys@.map_values(|x: (Vec<char>, Vec<char>)| key_view(x)), lv.skip(j as int)).1) as nat,
            ),
        decreases lines.len() - j,
    {
        let line = &lines[j];
        let ghost kv = keys@.map_values(|x: (Vec<char>, Vec<char>)| key_view(x));
        let ghost rest = lv.skip(j as int);
        assert(rest[0] == line@);
        assert(rest.drop_first() =~= lv.skip(j + 1));
        if line.is_active {
            let k = (trim_chars(&chars_of(line.ip.as_str())), to_ascii_lower_chars(&chars_of(line.hostname.as_str())));
            if contains_key(&keys, &k) {
                skipped = skipped + 1;
            } else {
                let ghost before = entries@.map_values(|e: NewHostsEntry| e@);
                let comment = match &line.comment {
                    Some(c) => Some(c.clone()),
                    None => None,
                };
                let e = NewHostsEntry { ip_address: line.ip.clone(), hostname: line.hostname.clone(), comment };
                assert(e@ == imported_entry(line@));
                entries.push(e);
                assert(entries@.map_values(|e: NewHostsEntry| e@) =~= before.push(imported_entry(line@)));
                keys.push(k);
                assert(keys@.map_values(|x: (Vec<char>, Vec<char>)| key_view(x)) =~= kv.push(
                    (trim(line@.ip), to_ascii_lower(line@.hostname)),
                ));
                let ghost p = import_plan(kv.push((trim(line@.ip), to_ascii_lower(line@.hostname))), lv.skip(j + 1));
                assert(before + (seq![imported_entry(line@)] + p.0) =~= before.push(imported_entry(line@)) + p.0);
            }
        }
        j += 1;
    }
    assert(lv.skip(j as int) =~= Seq::<HostsLineView>::empty());
    assert(entries@.map_values(|e: NewHostsEntry| e@) + Seq::<NewEntryView>::empty() =~= entries@.map_values(
        |e: NewHostsEntry| e@,
    ));
    ImportPlan { entries, skipped }
}

/// The warning after an import: the skipped and the failed counts, each
/// mentioned only when it is not zero.
pub open spec fn import_warning(skipped: nat, failed: nat) -> Option<Seq<char>> {
    let s = decimal(skipped) + " 条已存在，未重复导入"@;
    let f = decimal(failed) + " 条导入失败"@;
    if skipped > 0 && failed > 0 {
        Some(s + "；"@ + f)
    } else if skipped > 0 {
        Some(s)
    } else if failed > 0 {
        Some(f)
    } else {
        None
    }
}

impl HostsManagerUi {
    /// Reports a finished import: the number of entries added, skipped as
    /// already present, and refused by the store.
    pub fn report_import(&mut self, imported: usize, skipped: usize, failed: usize)
        ensures
            same_screen(*old(self), *final(self)),
            final(self).pending_apply == old(self).pending_apply,
            msg_is(final(self).success_msg, "已导入 "@ + decimal(imported as nat) + " 条记录"@),
            final(self).error_msg is None,
            match import_warning(skipped as nat, failed as nat) {
                Some(w) => msg_is(final(self).warning_msg, w),
                None => final(self).warning_msg is None,
            },
    {
        let mut m = String::from_str("已导入 ");
        push_decimal(&mut m, imported);
        m.append(" 条记录");
        self.set_success(m);
        let mut warning = String::new();
        if skipped > 0 {
            push_decimal(&mut warning, skipped);
            warning.append(" 条已存在，未重复导入");
        }
        if failed > 0 {
            if skipped > 0 {
                warning.append("；");
            }
            push_decimal(&mut warning, failed);
            warning.append(" 条导入失败");
        }
        proof {
            let sp = decimal(skipped as nat) + " 条已存在，未重复导入"@;
            let fp = decimal(failed as nat) + " 条导入失败"@;
            if skipped > 0 && failed > 0 {
                assert(warning@ =~= sp + "；"@ + fp);
            } else if skipped > 0 {
                assert(warning@ =~= sp);
            } else if failed > 0 {
                assert(warning@ =~= fp);
            }
        }
        if skipped > 0 || failed > 0 {
            self.set_warning(warning);
        }
    }
}

/// The hosts manager as a plugin of the shell: its screen state; the
/// database connection is opened by the application around it.
pub struct HostsManagerPlugin {
    pub ui: HostsManagerUi,
}

impl HostsManagerPlugin {
    /// The plugin with its initial screen.
    pub fn new() -> (r: Self)
        ensures
            r.ui.state == UiState::EnvironmentList,
            r.ui.environments@.len() == 0,
            r.ui.entries@.len() == 0,
            r.ui.selected_env is None,
            r.ui.pending_apply is None,
    {
        HostsManagerPlugin { ui: HostsManagerUi::new() }
    }

    /// The plugin's name in the sidebar.
    pub fn name(&self) -> (r: &'static str)
        ensures
            r@ == "Hosts 管理器"@,
    {
        "Hosts 管理器"
    }

    /// The plugin's icon.
    pub fn icon(&self) -> (r: &'static str)
        ensures
            r@ == "🌐"@,
    {
        "🌐"
    }

    /// The plugin's description.
    pub fn description(&self) -> (r: &'static str)
        ensures
            r@ == "管理不同环境的 hosts 配置"@,
    {
        "管理不同环境的 hosts 配置"
    }
}

} // verus!
