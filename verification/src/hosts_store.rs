//! Records kept for the hosts manager, the forms that edit them, and the
//! validation applied before a record is stored.
//!
//! Every stored field ends up on one line of the system hosts file, so
//! fields are trimmed and characters that would break that line, or change
//! what it means, are refused.

use vstd::prelude::*;
use crate::hosts::{HostsLine, opt_chars};
use crate::text::{chars_of, is_control_char, is_ctrl, is_whitespace_char, is_ws, string_from_chars, trim, trim_chars, lemma_trim_idempotent};

verus! {

/// An environment as stored.
#[derive(Debug, Clone)]
pub struct Environment {
    pub id: i64,
    pub name: String,
    pub is_active: bool,
}

/// A hosts entry as stored.
#[derive(Debug, Clone)]
pub struct DbHostsEntry {
    pub id: i64,
    pub ip_address: String,
    pub hostname: String,
    pub comment: Option<String>,
    pub is_enabled: bool,
}

/// The fields of an entry to be stored.
#[derive(Debug, Clone)]
pub struct NewHostsEntry {
    pub ip_address: String,
    pub hostname: String,
    pub comment: Option<String>,
}

/// Mathematical model of a [`NewHostsEntry`].
pub struct NewEntryView {
    pub ip_address: Seq<char>,
    pub hostname: Seq<char>,
    pub comment: Option<Seq<char>>,
}

impl View for NewHostsEntry {
    type V = NewEntryView;

    open spec fn view(&self) -> NewEntryView {
        NewEntryView { ip_address: self.ip_address@, hostname: self.hostname@, comment: opt_chars(self.comment) }
    }
}

/// The form that edits an entry.
#[derive(Debug, Clone)]
pub struct HostsEntryForm {
    pub ip_address: String,
    pub hostname: String,
    pub comment: String,
}

/// The form that edits an environment.
#[derive(Debug, Clone)]
pub struct EnvironmentForm {
    pub name: String,
}

/// The two fields that are written as words of a hosts line.
#[derive(Debug, Clone, Copy, PartialEq, Eq)]
pub enum HostField {
    IpAddress,
    Hostname,
}

/// Why a record was refused.
#[derive(Debug, Clone, Copy, PartialEq, Eq)]
pub enum ValidationError {
    /// The address is empty.
    MissingIpAddress,
    /// The host name is empty.
    MissingHostname,
    /// The field holds a line break or another control character.
    ControlCharacter(HostField),
    /// The field holds white space or `#`.
    SpaceOrHash(HostField),
    /// The comment holds a line break or another control character.
    CommentControlCharacter,
    /// The environment name is empty.
    MissingEnvironmentName,
    /// The environment name holds a line break, `#` or another control character.
    InvalidEnvironmentName,
}

/// The name of a field as shown to the user.
pub open spec fn field_label(f: HostField) -> Seq<char> {
    match f {
        HostField::IpAddress => "IP 地址"@,
        HostField::Hostname => "主机名"@,
    }
}

/// The message shown for an error.
pub open spec fn validation_message(e: ValidationError) -> Seq<char> {
    match e {
        ValidationError::MissingIpAddress => "请输入 IP 地址"@,
        ValidationError::MissingHostname => "请输入主机名"@,
        ValidationError::ControlCharacter(f) => field_label(f) + "不能包含换行或控制字符"@,
        ValidationError::SpaceOrHash(f) => field_label(f) + "不能包含空格或井号"@,
        ValidationError::CommentControlCharacter => "备注不能包含换行或控制字符"@,
        ValidationError::MissingEnvironmentName => "请输入环境名称"@,
        ValidationError::InvalidEnvironmentName => "环境名称不能包含换行、井号或控制字符"@,
    }
}

impl HostField {
    /// The name of the field as shown to the user.
    pub fn label(&self) -> (r: &'static str)
        ensures
            r@ == field_label(*self),
    {
        match self {
            HostField::IpAddress => "IP 地址",
            HostField::Hostname => "主机名",
        }
    }
}

impl ValidationError {
    /// The message shown to the user.
    pub fn message(&self) -> (r: String)
        ensures
            r@ == validation_message(*self),
    {
        match self {
            ValidationError::MissingIpAddress => String::from_str("请输入 IP 地址"),
            ValidationError::MissingHostname => String::from_str("请输入主机名"),
            ValidationError::ControlCharacter(f) => {
                let mut s = String::from_str(f.label());
                s.append("不能包含换行或控制字符");
                s
            },
            ValidationError::SpaceOrHash(f) => {
                let mut s = String::from_str(f.label());
                s.append("不能包含空格或井号");
                s
            },
            ValidationError::CommentControlCharacter => String::from_str("备注不能包含换行或控制字符"),
            ValidationError::MissingEnvironmentName => String::from_str("请输入环境名称"),
            ValidationError::InvalidEnvironmentName => String::from_str("环境名称不能包含换行、井号或控制字符"),
        }
    }
}

/// Whether `s` holds a control character.
pub open spec fn has_ctrl(s: Seq<char>) -> bool {
    exists|i: int| 0 <= i < s.len() && is_ctrl(#[trigger] s[i])
}

/// Whether `s` holds white space or `#`.
pub open spec fn has_ws_or_hash(s: Seq<char>) -> bool {
    exists|i: int| 0 <= i < s.len() && (is_ws(#[trigger] s[i]) || s[i] == '#')
}

/// The check of an address or host name.
pub open spec fn host_field_check(s: Seq<char>, f: HostField) -> Result<(), ValidationError> {
    if has_ctrl(s) {
        Err(ValidationError::ControlCharacter(f))
    } else if has_ws_or_hash(s) {
        Err(ValidationError::SpaceOrHash(f))
    } else {
        Ok(())
    }
}

/// The comment that is stored: trimmed, and none when it is empty.
pub open spec fn normalized_comment(c: Option<Seq<char>>) -> Option<Seq<char>> {
    match c {
        Some(t) => if trim(t).len() == 0 { None } else { Some(trim(t)) },
        None => None,
    }
}

/// The entry that is stored for `e`, or why it is refused.
pub open spec fn normalize_entry_spec(e: NewEntryView) -> Result<NewEntryView, ValidationError> {
    let ip = trim(e.ip_address);
    let host = trim(e.hostname);
    let comment = normalized_comment(e.comment);
    if ip.len() == 0 {
        Err(ValidationError::MissingIpAddress)
    } else if host_field_check(ip, HostField::IpAddress) is Err {
        Err(host_field_check(ip, HostField::IpAddress)->Err_0)
    } else if host.len() == 0 {
        Err(ValidationError::MissingHostname)
    } else if host_field_check(host, HostField::Hostname) is Err {
        Err(host_field_check(host, HostField::Hostname)->Err_0)
    } else if comment is Some && has_ctrl(comment->Some_0) {
        Err(ValidationError::CommentControlCharacter)
    } else {
        Ok(NewEntryView { ip_address: ip, hostname: host, comment })
    }
}

/// The environment name that is stored for `name`, or why it is refused.
pub open spec fn normalize_env_name_spec(name: Seq<char>) -> Result<Seq<char>, ValidationError> {
    let t = trim(name);
    if t.len() == 0 {
        Err(ValidationError::MissingEnvironmentName)
    } else if exists|i: int| 0 <= i < t.len() && (is_ctrl(#[trigger] t[i]) || t[i] == '#') {
        Err(ValidationError::InvalidEnvironmentName)
    } else {
        Ok(t)
    }
}

/// Refuses an address or host name holding a control character (checked
/// first), white space or `#`.
pub fn validate_host_field(value: &str, field: HostField) -> (r: Result<(), ValidationError>)
    ensures
        r == host_field_check(value@, field),
{
    let v = chars_of(value);
    let mut i: usize = 0;
    while i < v.len()
        invariant
            i <= v.len(),
            v@ == value@,
            forall|k: int| 0 <= k < i ==> !is_ctrl(#[trigger] v@[k]),
        decreases v.len() - i,
    {
        if is_control_char(v[i]) {
            return Err(ValidationError::ControlCharacter(field));
        }
        i += 1;
    }
    let mut j: usize = 0;
    while j < v.len()
        invariant
            j <= v.len(),
            v@ == value@,
            !has_ctrl(value@),
            forall|k: int| 0 <= k < j ==> !(is_ws(#[trigger] v@[k]) || v@[k] == '#'),
        decreases v.len() - j,
    {
        if is_whitespace_char(v[j]) || v[j] == '#' {
            return Err(ValidationError::SpaceOrHash(field));
        }
        j += 1;
    }
    Ok(())
}

/// Whether `v` holds a control character.
fn has_control(v: &Vec<char>) -> (r: bool)
    ensures
        r == has_ctrl(v@),
{
    let mut i: usize = 0;
    while i < v.len()
        invariant
            i <= v.len(),
            forall|k: int| 0 <= k < i ==> !is_ctrl(#[trigger] v@[k]),
        decreases v.len() - i,
    {
        if is_control_char(v[i]) {
            return true;
        }
        i += 1;
    }
    false
}

/// Refuses a comment holding a line break or another control character;
/// `#` is allowed, since the comment ends the line.
pub fn validate_comment_field(comment: &str) -> (r: Result<(), ValidationError>)
    ensures
        r is Ok <==> !has_ctrl(comment@),
        r is Err ==> r == Err::<(), ValidationError>(ValidationError::CommentControlCharacter),
{
    let v = chars_of(comment);
    if has_control(&v) {
        Err(ValidationError::CommentControlCharacter)
    } else {
        Ok(())
    }
}

/// `s` without leading and trailing white space.
fn trimmed(s: &str) -> (r: String)
    ensures
        r@ == trim(s@),
{
    let v = chars_of(s);
    let t = trim_chars(&v);
    string_from_chars(&t)
}

/// Checks an entry and trims its fields; an empty comment is stored as none.
pub fn normalize_new_entry(entry: &NewHostsEntry) -> (r: Result<NewHostsEntry, ValidationError>)
    ensures
        match normalize_entry_spec(entry@) {
            Ok(v) => r matches Ok(e) && e@ == v,
            Err(err) => r == Err::<NewHostsEntry, ValidationError>(err),
        },
{
    let ip = trimmed(entry.ip_address.as_str());
    if ip.as_str().is_empty() {
        return Err(ValidationError::MissingIpAddress);
    }
    match validate_host_field(ip.as_str(), HostField::IpAddress) {
        Err(e) => {
            return Err(e);
        },
        Ok(()) => {},
    }
    let host = trimmed(entry.hostname.as_str());
    if host.as_str().is_empty() {
        return Err(ValidationError::MissingHostname);
    }
    match validate_host_field(host.as_str(), HostField::Hostname) {
        Err(e) => {
            return Err(e);
        },
        Ok(()) => {},
    }
    let comment = match &entry.comment {
        Some(c) => {
            let t = trimmed(c.as_str());
            if t.as_str().is_empty() {
                None
            } else {
                Some(t)
            }
        },
        None => None,
    };
    match &comment {
        Some(c) => {
            match validate_comment_field(c.as_str()) {
                Err(e) => {
                    return Err(e);
                },
                Ok(()) => {},
            }
        },
        None => {},
    }
    Ok(NewHostsEntry { ip_address: ip, hostname: host, comment })
}

/// Checks an environment name and trims it.
///
/// The name is written as a comment heading in the hosts file, so it cannot
/// be empty, nor hold a line break, `#` or another control character.
pub fn normalize_environment_name(name: &str) -> (r: Result<String, ValidationError>)
    ensures
        match normalize_env_name_spec(name@) {
            Ok(v) => r matches Ok(s) && s@ == v,
            Err(err) => r == Err::<String, ValidationError>(err),
        },
{
    let v = chars_of(name);
    let t = trim_chars(&v);
    if t.len() == 0 {
        return Err(ValidationError::MissingEnvironmentName);
    }
    let mut i: usize = 0;
    while i < t.len()
        invariant
            i <= t.len(),
            t@ == trim(name@),
            forall|k: int| 0 <= k < i ==> !(is_ctrl(#[trigger] t@[k]) || t@[k] == '#'),
        decreases t.len() - i,
    {
        if is_control_char(t[i]) || t[i] == '#' {
            assert(is_ctrl(trim(name@)[i as int]) || trim(name@)[i as int] == '#');
            return Err(ValidationError::InvalidEnvironmentName);
        }
        i += 1;
    }
    Ok(string_from_chars(&t))
}

impl HostsEntryForm {
    /// An empty form.
    pub fn new() -> (r: Self)
        ensures
            r.ip_address@ == Seq::<char>::empty(),
            r.hostname@ == Seq::<char>::empty(),
            r.comment@ == Seq::<char>::empty(),
    {
        HostsEntryForm { ip_address: String::new(), hostname: String::new(), comment: String::new() }
    }

    /// A form holding a stored entry; a missing comment shows as empty.
    pub fn from_entry(entry: &DbHostsEntry) -> (r: Self)
        ensures
            r.ip_address@ == entry.ip_address@,
            r.hostname@ == entry.hostname@,
            r.comment@ == match entry.comment {
                Some(c) => c@,
                None => Seq::<char>::empty(),
            },
    {
        let comment = match &entry.comment {
            Some(c) => c.clone(),
            None => String::new(),
        };
        HostsEntryForm { ip_address: entry.ip_address.clone(), hostname: entry.hostname.clone(), comment }
    }

    /// Checks the form and gives the entry to store, with trimmed fields.
    pub fn to_new_entry(&self) -> (r: Result<NewHostsEntry, ValidationError>)
        ensures
            match normalize_entry_spec(
                NewEntryView { ip_address: self.ip_address@, hostname: self.hostname@, comment: Some(self.comment@) },
            ) {
                Ok(v) => r matches Ok(e) && e@ == v,
                Err(err) => r == Err::<NewHostsEntry, ValidationError>(err),
            },
    {
        let e = NewHostsEntry {
            ip_address: self.ip_address.clone(),
            hostname: self.hostname.clone(),
            comment: Some(self.comment.clone()),
        };
        normalize_new_entry(&e)
    }
}

impl EnvironmentForm {
    /// An empty form.
    pub fn new() -> (r: Self)
        ensures
            r.name@ == Seq::<char>::empty(),
    {
        EnvironmentForm { name: String::new() }
    }

    /// A form holding a stored environment's name.
    pub fn from_env(env: &Environment) -> (r: Self)
        ensures
            r.name@ == env.name@,
    {
        EnvironmentForm { name: env.name.clone() }
    }

    /// Why the name would be refused, or none when it is valid.
    pub fn validation_error(&self) -> (r: Option<String>)
        ensures
            match normalize_env_name_spec(self.name@) {
                Ok(_) => r is None,
                Err(e) => r matches Some(m) && m@ == validation_message(e),
            },
    {
        match normalize_environment_name(self.name.as_str()) {
            Ok(_) => None,
            Err(e) => Some(e.message()),
        }
    }
}

/// The hosts entry written for a stored entry.
pub fn to_hosts_line(entry: &DbHostsEntry) -> (r: HostsLine)
    ensures
        r.ip@ == entry.ip_address@,
        r.hostname@ == entry.hostname@,
        opt_chars(r.comment) == opt_chars(entry.comment),
        r.is_active == entry.is_enabled,
{
    let comment = match &entry.comment {
        Some(c) => Some(c.clone()),
        None => None,
    };
    HostsLine { ip: entry.ip_address.clone(), hostname: entry.hostname.clone(), comment, is_active: entry.is_enabled }
}

} // verus!

verus! {

/// Normalizing a stored entry again changes nothing: what `normalize_new_entry`
/// accepts it accepts again, unchanged.
pub proof fn law_normalize_entry_idempotent(e: NewEntryView)
    requires
        normalize_entry_spec(e) is Ok,
    ensures
        normalize_entry_spec(normalize_entry_spec(e)->Ok_0) == normalize_entry_spec(e),
{
    lemma_trim_idempotent(e.ip_address);
    lemma_trim_idempotent(e.hostname);
    if let Some(t) = e.comment {
        lemma_trim_idempotent(t);
    }
}

/// Normalizing a stored environment name again changes nothing.
pub proof fn law_normalize_env_name_idempotent(name: Seq<char>)
    requires
        normalize_env_name_spec(name) is Ok,
    ensures
        normalize_env_name_spec(normalize_env_name_spec(name)->Ok_0) == normalize_env_name_spec(name),
{
    lemma_trim_idempotent(name);
}

} // verus!
