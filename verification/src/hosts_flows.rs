//! The editing flows of the hosts manager: what the screen checks before
//! the caller stores an environment or an entry, and what it shows once the
//! caller reports how storing or loading went.

use vstd::prelude::*;
use crate::hosts_store::{
    normalize_entry_spec, normalize_env_name_spec, validation_message, DbHostsEntry, Environment, HostsEntryForm,
    NewEntryView, NewHostsEntry,
};
use crate::hosts_ui::{msg_is, same_screen, HostsManagerUi, UiState};
use crate::text::{decimal, push_decimal};

verus! {

/// Position of the first environment with id `id`, or `envs.len()`.
pub open spec fn first_env_with(envs: Seq<Environment>, id: i64) -> int
    decreases envs.len(),
{
    if envs.len() == 0 {
        0
    } else if envs[0].id == id {
        0
    } else {
        1 + first_env_with(envs.drop_first(), id)
    }
}

/// The number of enabled environments.
pub open spec fn active_env_count(envs: Seq<Environment>) -> nat
    decreases envs.len(),
{
    if envs.len() == 0 {
        0
    } else {
        active_env_count(envs.drop_last()) + if envs.last().is_active { 1nat } else { 0nat }
    }
}

/// `prefix` followed by `text`.
fn prefixed(prefix: &str, text: &str) -> (r: String)
    ensures
        r@ == prefix@ + text@,
{
    let mut m = prefix.to_string();
    m.append(text);
    m
}

impl HostsManagerUi {
    /// A loaded environment list replaces the shown one; a failed load shows
    /// "加载环境列表失败: " and the reason.
    pub fn environments_loaded(&mut self, loaded: Result<Vec<Environment>, String>)
        ensures
            final(self).state == old(self).state,
            final(self).entries == old(self).entries,
            final(self).selected_env == old(self).selected_env,
            final(self).pending_apply == old(self).pending_apply,
            match loaded {
                Ok(v) => final(self).environments == v && final(self).error_msg == old(self).error_msg
                    && final(self).success_msg == old(self).success_msg
                    && final(self).warning_msg == old(self).warning_msg,
                Err(e) => final(self).environments == old(self).environments
                    && msg_is(final(self).error_msg, "加载环境列表失败: "@ + e@)
                    && final(self).success_msg is None && final(self).warning_msg is None,
            },
    {
        match loaded {
            Ok(v) => {
                self.environments = v;
            },
            Err(e) => {
                self.set_error(prefixed("加载环境列表失败: ", e.as_str()));
            },
        }
    }

    /// Loaded entries replace the shown ones; a failed load shows
    /// "加载条目列表失败: " and the reason.
    pub fn entries_loaded(&mut self, loaded: Result<Vec<DbHostsEntry>, String>)
        ensures
            final(self).state == old(self).state,
            final(self).environments == old(self).environments,
            final(self).selected_env == old(self).selected_env,
            final(self).pending_apply == old(self).pending_apply,
            match loaded {
                Ok(v) => final(self).entries == v && final(self).error_msg == old(self).error_msg
                    && final(self).success_msg == old(self).success_msg
                    && final(self).warning_msg == old(self).warning_msg,
                Err(e) => final(self).entries == old(self).entries
                    && msg_is(final(self).error_msg, "加载条目列表失败: "@ + e@)
                    && final(self).success_msg is None && final(self).warning_msg is None,
            },
    {
        match loaded {
            Ok(v) => {
                self.entries = v;
            },
            Err(e) => {
                self.set_error(prefixed("加载条目列表失败: ", e.as_str()));
            },
        }
    }

    /// Before an environment (new or renamed) is stored: the messages are
    /// cleared, and the name of the form is given when it is valid; otherwise
    /// why it is refused is shown.
    pub fn environment_to_save(&mut self) -> (r: Option<String>)
        ensures
            same_screen(*old(self), *final(self)),
            final(self).pending_apply == old(self).pending_apply,
            final(self).success_msg is None,
            final(self).warning_msg is None,
            match normalize_env_name_spec(old(self).env_form.name@) {
                Ok(_) => r matches Some(n) && n@ == old(self).env_form.name@ && final(self).error_msg is None,
                Err(e) => r is None && msg_is(final(self).error_msg, validation_message(e)),
            },
    {
        self.clear_messages();
        match self.env_form.validation_error() {
            Some(err) => {
                self.set_error(err);
                None
            },
            None => Some(self.env_form.name.clone()),
        }
    }

    /// Reports storing a new environment: "环境创建成功", or "创建环境失败: "
    /// and the reason.
    pub fn environment_created(&mut self, outcome: Result<(), String>)
        ensures
            same_screen(*old(self), *final(self)),
            final(self).pending_apply == old(self).pending_apply,
            final(self).warning_msg is None,
            match outcome {
                Ok(()) => msg_is(final(self).success_msg, "环境创建成功"@) && final(self).error_msg is None,
                Err(e) => msg_is(final(self).error_msg, "创建环境失败: "@ + e@) && final(self).success_msg is None,
            },
    {
        match outcome {
            Ok(()) => self.set_success(String::from_str("环境创建成功")),
            Err(e) => self.set_error(prefixed("创建环境失败: ", e.as_str())),
        }
    }

    /// Reports renaming an environment: "环境名称已更新" and back to the
    /// environment list, or "更新环境失败: " and the reason.
    pub fn environment_renamed(&mut self, outcome: Result<(), String>)
        ensures
            final(self).environments == old(self).environments,
            final(self).entries == old(self).entries,
            final(self).selected_env == old(self).selected_env,
            final(self).pending_apply == old(self).pending_apply,
            final(self).warning_msg is None,
            match outcome {
                Ok(()) => final(self).state == UiState::EnvironmentList && msg_is(
                    final(self).success_msg,
                    "环境名称已更新"@,
                ) && final(self).error_msg is None,
                Err(e) => final(self).state == old(self).state && msg_is(final(self).error_msg, "更新环境失败: "@ + e@)
                    && final(self).success_msg is None,
            },
    {
        match outcome {
            Ok(()) => {
                self.set_success(String::from_str("环境名称已更新"));
                self.state = UiState::EnvironmentList;
            },
            Err(e) => self.set_error(prefixed("更新环境失败: ", e.as_str())),
        }
    }

    /// Reports deleting an environment: "环境已删除", or "删除环境失败: " and
    /// the reason.
    pub fn environment_deleted(&mut self, outcome: Result<(), String>)
        ensures
            same_screen(*old(self), *final(self)),
            final(self).pending_apply == old(self).pending_apply,
            final(self).warning_msg is None,
            match outcome {
                Ok(()) => msg_is(final(self).success_msg, "环境已删除"@) && final(self).error_msg is None,
                Err(e) => msg_is(final(self).error_msg, "删除环境失败: "@ + e@) && final(self).success_msg is None,
            },
    {
        match outcome {
            Ok(()) => self.set_success(String::from_str("环境已删除")),
            Err(e) => self.set_error(prefixed("删除环境失败: ", e.as_str())),
        }
    }

    /// The environment a toggle switches: its name and whether it is enabled
    /// now. An environment missing from the list shows
    /// "环境不存在，请刷新列表后重试" (the caller then reloads the list).
    pub fn toggle_target(&mut self, env_id: i64) -> (r: Option<(String, bool)>)
        ensures
            same_screen(*old(self), *final(self)),
            final(self).pending_apply == old(self).pending_apply,
            ({
                let envs = old(self).environments@;
                let k = first_env_with(envs, env_id);
                if k < envs.len() {
                    &&& r matches Some((n, a)) && n@ == envs[k].name@ && a == envs[k].is_active
                    &&& final(self).error_msg == old(self).error_msg
                    &&& final(self).success_msg == old(self).success_msg
                    &&& final(self).warning_msg == old(self).warning_msg
                } else {
                    &&& r is None
                    &&& msg_is(final(self).error_msg, "环境不存在，请刷新列表后重试"@)
                    &&& final(self).success_msg is None
                    &&& final(self).warning_msg is None
                }
            }),
    {
        let mut k: usize = 0;
        assert(self.environments@.skip(0) =~= self.environments@);
        while k < self.environments.len()
            invariant
                k <= self.environments.len(),
                first_env_with(self.environments@, env_id) == k + first_env_with(self.environments@.skip(k as int), env_id),
            decreases self.environments.len() - k,
        {
            if self.environments[k].id == env_id {
                assert(self.environments@.skip(k as int)[0] == self.environments@[k as int]);
                let name = self.environments[k].name.clone();
                let active = self.environments[k].is_active;
                return Some((name, active));
            }
            assert(self.environments@.skip(k as int).drop_first() =~= self.environments@.skip(k + 1));
            k += 1;
        }
        self.set_error(String::from_str("环境不存在，请刷新列表后重试"));
        None
    }

    /// Reports switching environment `name`, which was enabled or not: a
    /// disabled one shows "已禁用环境 '…'", an enabled one "已启用环境 '…'"
    /// with the number of environments now enabled in the shown list; a
    /// failure shows "切换环境失败: " and the reason.
    pub fn environment_toggled(&mut self, name: &str, was_active: bool, outcome: Result<(), String>)
        ensures
            same_screen(*old(self), *final(self)),
            final(self).pending_apply == old(self).pending_apply,
            final(self).warning_msg is None,
            match outcome {
                Ok(()) => final(self).error_msg is None && msg_is(
                    final(self).success_msg,
                    if was_active {
                        "已禁用环境 '"@ + name@ + "'"@
                    } else {
                        "已启用环境 '"@ + name@ + "'（当前共 "@ + decimal(active_env_count(old(self).environments@))
                            + " 个环境生效）"@
                    },
                ),
                Err(e) => msg_is(final(self).error_msg, "切换环境失败: "@ + e@) && final(self).success_msg is None,
            },
    {
        match outcome {
            Ok(()) => {
                if was_active {
                    let mut m = prefixed("已禁用环境 '", name);
                    m.append("'");
                    self.set_success(m);
                } else {
                    let mut count: usize = 0;
                    let mut i: usize = 0;
                    while i < self.environments.len()
                        invariant
                            i <= self.environments.len(),
                            count == active_env_count(self.environments@.take(i as int)),
                            count <= i,
                        decreases self.environments.len() - i,
                    {
                        assert(self.environments@.take(i + 1).drop_last() =~= self.environments@.take(i as int));
                        if self.environments[i].is_active {
                            count += 1;
                        }
                        i += 1;
                    }
                    assert(self.environments@.take(i as int) =~= self.environments@);
                    let mut m = prefixed("已启用环境 '", name);
                    m.append("'（当前共 ");
                    push_decimal(&mut m, count);
                    m.append(" 个环境生效）");
                    self.set_success(m);
                }
            },
            Err(e) => self.set_error(prefixed("切换环境失败: ", e.as_str())),
        }
    }

    /// Before an entry (new or edited) is stored: the messages are cleared,
    /// and the checked entry of the form is given; otherwise why it is refused
    /// is shown.
    pub fn entry_to_save(&mut self) -> (r: Option<NewHostsEntry>)
        ensures
            same_screen(*old(self), *final(self)),
            final(self).pending_apply == old(self).pending_apply,
            final(self).success_msg is None,
            final(self).warning_msg is None,
            match normalize_entry_spec(
                NewEntryView {
                    ip_address: old(self).entry_form.ip_address@,
                    hostname: old(self).entry_form.hostname@,
                    comment: Some(old(self).entry_form.comment@),
                },
            ) {
                Ok(v) => r matches Some(e) && e@ == v && final(self).error_msg is None,
                Err(err) => r is None && msg_is(final(self).error_msg, validation_message(err)),
            },
    {
        self.clear_messages();
        match self.entry_form.to_new_entry() {
            Ok(e) => Some(e),
            Err(err) => {
                self.set_error(err.message());
                None
            },
        }
    }

    /// Reports storing a new entry: "条目已添加" and an emptied form, or
    /// "添加条目失败: " and the reason.
    pub fn entry_added(&mut self, outcome: Result<(), String>)
        ensures
            final(self).state == old(self).state,
            final(self).environments == old(self).environments,
            final(self).entries == old(self).entries,
            final(self).pending_apply == old(self).pending_apply,
            final(self).warning_msg is None,
            match outcome {
                Ok(()) => msg_is(final(self).success_msg, "条目已添加"@) && final(self).error_msg is None
                    && final(self).entry_form.ip_address@.len() == 0 && final(self).entry_form.hostname@.len() == 0
                    && final(self).entry_form.comment@.len() == 0,
                Err(e) => msg_is(final(self).error_msg, "添加条目失败: "@ + e@) && final(self).success_msg is None
                    && final(self).entry_form == old(self).entry_form,
            },
    {
        match outcome {
            Ok(()) => {
                self.set_success(String::from_str("条目已添加"));
                self.entry_form = HostsEntryForm::new();
            },
            Err(e) => self.set_error(prefixed("添加条目失败: ", e.as_str())),
        }
    }

    /// Reports storing an edited entry of environment `env_id`: "条目已更新"
    /// and back to its entries, or "更新条目失败: " and the reason.
    pub fn entry_updated(&mut self, env_id: i64, outcome: Result<(), String>)
        ensures
            final(self).environments == old(self).environments,
            final(self).entries == old(self).entries,
            final(self).pending_apply == old(self).pending_apply,
            final(self).warning_msg is None,
            match outcome {
                Ok(()) => final(self).state == UiState::EntryList(env_id) && msg_is(final(self).success_msg, "条目已更新"@)
                    && final(self).error_msg is None,
                Err(e) => final(self).state == old(self).state && msg_is(final(self).error_msg, "更新条目失败: "@ + e@)
                    && final(self).success_msg is None,
            },
    {
        match outcome {
            Ok(()) => {
                self.set_success(String::from_str("条目已更新"));
                self.state = UiState::EntryList(env_id);
            },
            Err(e) => self.set_error(prefixed("更新条目失败: ", e.as_str())),
        }
    }

    /// Reports enabling or disabling an entry: "条目已启用" or "条目已禁用",
    /// or "切换状态失败: " and the reason.
    pub fn entry_toggled(&mut self, enabled: bool, outcome: Result<(), String>)
        ensures
            same_screen(*old(self), *final(self)),
            final(self).pending_apply == old(self).pending_apply,
            final(self).warning_msg is None,
            match outcome {
                Ok(()) => msg_is(final(self).success_msg, if enabled { "条目已启用"@ } else { "条目已禁用"@ })
                    && final(self).error_msg is None,
                Err(e) => msg_is(final(self).error_msg, "切换状态失败: "@ + e@) && final(self).success_msg is None,
            },
    {
        match outcome {
            Ok(()) => self.set_success(
                if enabled {
                    String::from_str("条目已启用")
                } else {
                    String::from_str("条目已禁用")
                },
            ),
            Err(e) => self.set_error(prefixed("切换状态失败: ", e.as_str())),
        }
    }

    /// Reports deleting an entry: "条目已删除", or "删除条目失败: " and the
    /// reason.
    pub fn entry_deleted(&mut self, outcome: Result<(), String>)
        ensures
            same_screen(*old(self), *final(self)),
            final(self).pending_apply == old(self).pending_apply,
            final(self).warning_msg is None,
            match outcome {
                Ok(()) => msg_is(final(self).success_msg, "条目已删除"@) && final(self).error_msg is None,
                Err(e) => msg_is(final(self).error_msg, "删除条目失败: "@ + e@) && final(self).success_msg is None,
            },
    {
        match outcome {
            Ok(()) => self.set_success(String::from_str("条目已删除")),
            Err(e) => self.set_error(prefixed("删除条目失败: ", e.as_str())),
        }
    }
}

} // verus!
