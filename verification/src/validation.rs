//! Validation of a configuration: every error and warning it raises, in order.
use vstd::prelude::*;
use vstd::string::*;

use crate::config::{AppConfig, AuthenticationMode, ListenerConfig, ShareConfig, Transport, UserConfig, CURRENT_CONFIG_VERSION};
use crate::ip::{parse_ip, parse_ip_chars, IpAddress};
use crate::text::{ascii_lower, chars_of, chars_equal, decimal, decimal_string, is_ascii_alnum, is_ascii_alpha, is_blank, lower_chars, trim, trimmed, utf8_len, utf8_length, char_is_ascii_alnum};

verus! {

/// How serious a configuration issue is.
#[derive(Debug, Copy, Clone, PartialEq, Eq, Structural)]
pub enum IssueSeverity {
    Warning,
    Error,
}

/// One problem found in a configuration: its severity, the dotted path of the field it concerns,
/// and a message for the operator.
#[derive(Debug, Clone, PartialEq, Eq)]
pub struct ConfigIssue {
    pub severity: IssueSeverity,
    pub path: String,
    pub message: String,
}

/// An issue as plain values: severity, path, message.
pub type IssueView = (IssueSeverity, Seq<char>, Seq<char>);

impl View for ConfigIssue {
    type V = IssueView;

    open spec fn view(&self) -> IssueView {
        (self.severity, self.path@, self.message@)
    }
}

/// The views of a list of issues.
pub open spec fn issues_view(s: Seq<ConfigIssue>) -> Seq<IssueView> {
    s.map_values(|i: ConfigIssue| i@)
}

/// An error at `path`.
pub open spec fn err(path: Seq<char>, message: Seq<char>) -> IssueView {
    (IssueSeverity::Error, path, message)
}

/// A warning at `path`.
pub open spec fn warn(path: Seq<char>, message: Seq<char>) -> IssueView {
    (IssueSeverity::Warning, path, message)
}

/// The one issue `i` when `cond` holds, else nothing.
pub open spec fn when(cond: bool, i: IssueView) -> Seq<IssueView> {
    if cond {
        seq![i]
    } else {
        Seq::empty()
    }
}

/// The path of a field of the `index`-th item of a list: `prefix`, the index in decimal, `suffix`.
pub open spec fn item_path(prefix: Seq<char>, index: nat, suffix: Seq<char>) -> Seq<char> {
    prefix + decimal(index) + suffix
}

impl ConfigIssue {
    /// An error at `path`.
    fn error(path: String, message: &str) -> (res: Self)
        ensures
            res@ == err(path@, message@),
    {
        ConfigIssue { severity: IssueSeverity::Error, path, message: message.to_owned() }
    }

    /// A warning at `path`.
    fn warning(path: String, message: &str) -> (res: Self)
        ensures
            res@ == warn(path@, message@),
    {
        ConfigIssue { severity: IssueSeverity::Warning, path, message: message.to_owned() }
    }
}

/// The path `prefix` + decimal `index` + `suffix`.
fn build_item_path(prefix: &str, index: usize, suffix: &str) -> (res: String)
    ensures
        res@ == item_path(prefix@, index as nat, suffix@),
{
    let mut path = prefix.to_owned();
    let digits = decimal_string(index as u64);
    path.append(digits.as_str());
    path.append(suffix);
    path
}

/// Appends `issue` to `issues`.
fn report(issues: &mut Vec<ConfigIssue>, issue: ConfigIssue)
    ensures
        issues_view(final(issues)@) == issues_view(old(issues)@).push(issue@),
{
    issues.push(issue);
    assert(issues_view(issues@) =~= issues_view(old(issues)@).push(issue@));
}

/// Whether `path` is an absolute Windows path: a drive letter, a colon and a slash or
/// backslash, or a UNC prefix (two backslashes or two slashes).
pub open spec fn is_windows_absolute(path: Seq<char>) -> bool {
    ||| (path.len() >= 3 && is_ascii_alpha(path[0]) && path[1] == ':' && (path[2] == '\\' || path[2]
        == '/'))
    ||| (path.len() >= 2 && path[0] == '\\' && path[1] == '\\')
    ||| (path.len() >= 2 && path[0] == '/' && path[1] == '/')
}

/// Whether `value` is an absolute Windows path (drive-absolute or UNC).
pub fn is_windows_absolute_path(value: &str) -> (res: bool)
    ensures
        res == is_windows_absolute(value@),
{
    let c = chars_of(value);
    let n = c.len();
    let drive_absolute = n >= 3 && (('a' <= c[0] && c[0] <= 'z') || ('A' <= c[0] && c[0] <= 'Z'))
        && c[1] == ':' && (c[2] == '\\' || c[2] == '/');
    let unc_absolute = n >= 2 && ((c[0] == '\\' && c[1] == '\\') || (c[0] == '/' && c[1] == '/'));
    drive_absolute || unc_absolute
}

/// A character allowed in a NetBIOS name: an ASCII letter, digit or hyphen.
pub open spec fn netbios_char(c: char) -> bool {
    is_ascii_alnum(c) || c == '-'
}

/// A character Windows does not allow in a share name.
pub open spec fn forbidden_share_char(c: char) -> bool {
    c == '\\' || c == '/' || c == '[' || c == ']' || c == ':' || c == ';' || c == '|' || c == '='
        || c == ',' || c == '+' || c == '*' || c == '?' || c == '<' || c == '>' || c == '"'
}

/// The issues about the schema version and the server settings.
pub open spec fn server_issues(c: AppConfig) -> Seq<IssueView> {
    let nb = trim(c.server.netbios_name@);
    let wg = trim(c.server.workgroup@);
    when(c.version != CURRENT_CONFIG_VERSION, err("version"@, "不支持的配置版本"@)) + when(
        nb.len() == 0 || nb.len() > 15,
        err("server.netbios_name"@, "NetBIOS 名称必须为 1–15 个字符"@),
    ) + when(
        !(forall|i: int| 0 <= i < nb.len() ==> netbios_char(#[trigger] nb[i])),
        err("server.netbios_name"@, "NetBIOS 名称只能包含 ASCII 字母、数字和连字符"@),
    ) + when(wg.len() == 0 || wg.len() > 15, err("server.workgroup"@, "工作组名称必须为 1–15 个字符"@))
        + when(
        !c.server.enable_smb1 && !c.server.enable_smb2 && !c.server.enable_smb3,
        err("server.protocols"@, "至少启用一个 SMB 协议版本"@),
    ) + when(
        c.server.enable_smb3 && !c.server.enable_smb2,
        err("server.enable_smb3"@, "SMBLibrary 要求启用 SMB2 后才能启用 SMB3"@),
    ) + when(
        c.server.enable_smb1,
        warn("server.enable_smb1"@, "SMB1 已过时且安全性较弱；仅为兼容旧设备时启用"@),
    )
}

/// A workgroup that is empty once trimmed, or longer than 15 characters, refuses the
/// configuration: validation reports an error at `server.workgroup`.
pub proof fn lemma_workgroup_length_refused(c: AppConfig)
    requires
        trim(c.server.workgroup@).len() == 0 || trim(c.server.workgroup@).len() > 15,
    ensures
        exists|i: int|
            0 <= i < config_issues(c).len() && #[trigger] config_issues(c)[i] == (
                IssueSeverity::Error,
                "server.workgroup"@,
                "工作组名称必须为 1–15 个字符"@,
            ),
{
    let nb = trim(c.server.netbios_name@);
    let a = when(c.version != CURRENT_CONFIG_VERSION, err("version"@, "不支持的配置版本"@));
    let b = when(
        nb.len() == 0 || nb.len() > 15,
        err("server.netbios_name"@, "NetBIOS 名称必须为 1–15 个字符"@),
    );
    let d = when(
        !(forall|i: int| 0 <= i < nb.len() ==> netbios_char(#[trigger] nb[i])),
        err("server.netbios_name"@, "NetBIOS 名称只能包含 ASCII 字母、数字和连字符"@),
    );
    let k = a.len() + b.len() + d.len();
    let s = server_issues(c);
    assert(s[k as int] == err("server.workgroup"@, "工作组名称必须为 1–15 个字符"@));
    assert(config_issues(c)[k as int] == s[k as int]);
}

/// A workgroup of 1 to 15 characters once trimmed raises no issue about the server settings at
/// `server.workgroup`.
pub proof fn lemma_workgroup_length_accepted(c: AppConfig)
    requires
        1 <= trim(c.server.workgroup@).len() <= 15,
    ensures
        forall|i: int|
            0 <= i < server_issues(c).len() ==> (#[trigger] server_issues(c)[i]).1 != "server.workgroup"@,
{
    reveal_strlit("server.workgroup");
    reveal_strlit("version");
    reveal_strlit("server.netbios_name");
    reveal_strlit("server.protocols");
    reveal_strlit("server.enable_smb3");
    reveal_strlit("server.enable_smb1");
    assert("version"@.len() != "server.workgroup"@.len());
    assert("server.netbios_name"@.len() != "server.workgroup"@.len());
    assert("server.protocols"@[7] != "server.workgroup"@[7]);
    assert("server.enable_smb3"@ != "server.workgroup"@);
    assert("server.enable_smb1"@ != "server.workgroup"@);
}

/// Whether one of the first `n` ids is non-blank and equals `key` once lowered.
pub open spec fn id_key_seen(ids: Seq<Seq<char>>, n: int, key: Seq<char>) -> bool {
    exists|j: int| 0 <= j < n && !is_blank(#[trigger] ids[j]) && ascii_lower(ids[j]) == key
}

/// Whether the `i`-th id is blank or repeats (ignoring ASCII case) a non-blank id before it.
pub open spec fn id_conflict(ids: Seq<Seq<char>>, i: int) -> bool {
    is_blank(ids[i]) || id_key_seen(ids, i, ascii_lower(ids[i]))
}

/// The ids of a list of listeners.
pub open spec fn listener_ids(ls: Seq<ListenerConfig>) -> Seq<Seq<char>> {
    ls.map_values(|l: ListenerConfig| l.id@)
}

/// The address a listener binds to, when its trimmed address is an IP literal.
pub open spec fn listener_address(l: ListenerConfig) -> Option<IpAddress> {
    parse_ip(trim(l.address@))
}

/// What makes two listeners bind the same endpoint.
pub type Endpoint = (IpAddress, u16, Transport);

/// Whether one of the first `n` listeners is enabled and binds endpoint `e`.
pub open spec fn endpoint_seen(ls: Seq<ListenerConfig>, n: int, e: Endpoint) -> bool {
    exists|j: int|
        0 <= j < n && (#[trigger] ls[j]).enabled && listener_address(ls[j]) == Some(e.0) && ls[j].port
            == e.1 && ls[j].transport == e.2
}

/// The path of a field of listener `i`.
pub open spec fn lpath(i: int, suffix: Seq<char>) -> Seq<char> {
    item_path("listeners["@, i as nat, suffix)
}

/// The issues about where enabled listener `i`, bound to address `a`, listens.
pub open spec fn listener_bind_issues(ls: Seq<ListenerConfig>, i: int, a: IpAddress) -> Seq<IssueView> {
    let l = ls[i];
    when(l.port == 0, err(lpath(i, "].port"@), "端口必须在 1–65535 范围内"@)) + when(
        endpoint_seen(ls, i, (a, l.port, l.transport)),
        err(lpath(i, "]"@), "存在重复的监听地址、端口和传输组合"@),
    ) + when(
        a is V6 && l.transport == Transport::NetbiosOverTcp,
        err(lpath(i, "].transport"@), "NetBIOS over TCP 仅支持 IPv4；IPv6 请使用 Direct TCP"@),
    ) + when(
        a is V6 && l.netbios_name_service,
        err(lpath(i, "].netbios_name_service"@), "NetBIOS 名称服务只支持 IPv4"@),
    ) + when(
        l.netbios_name_service && a.spec_is_unspecified(),
        err(lpath(i, "].address"@), "名称服务必须绑定到具体 IPv4 地址，不能使用 0.0.0.0"@),
    ) + when(
        l.port == 139 || l.port == 445,
        warn(lpath(i, "].port"@), "Windows Server/LanmanServer 服务可能已占用 139/445 端口"@),
    )
}

/// The issues about the `i`-th listener, given the listeners before it.
pub open spec fn listener_item_issues(ls: Seq<ListenerConfig>, i: int) -> Seq<IssueView> {
    when(
        id_conflict(listener_ids(ls), i),
        err(lpath(i, "].id"@), "监听器 ID 不能为空且必须唯一"@),
    ) + if !ls[i].enabled {
        Seq::empty()
    } else {
        match listener_address(ls[i]) {
            None => seq![err(lpath(i, "].address"@), "监听地址必须是 IPv4 或 IPv6 字面量"@)],
            Some(a) => listener_bind_issues(ls, i, a),
        }
    }
}

/// The issues about the first `n` listeners.
pub open spec fn listeners_issues_upto(ls: Seq<ListenerConfig>, n: int) -> Seq<IssueView>
    decreases n,
{
    if n <= 0 {
        Seq::empty()
    } else {
        listeners_issues_upto(ls, n - 1) + listener_item_issues(ls, n - 1)
    }
}

/// How many of the first `n` listeners are enabled.
pub open spec fn enabled_listeners(ls: Seq<ListenerConfig>, n: int) -> nat
    decreases n,
{
    if n <= 0 {
        0
    } else {
        enabled_listeners(ls, n - 1) + if ls[n - 1].enabled {
            1nat
        } else {
            0nat
        }
    }
}

/// The issues about the listeners.
pub open spec fn listener_issues(c: AppConfig) -> Seq<IssueView> {
    let ls = c.listeners@;
    listeners_issues_upto(ls, ls.len() as int) + when(
        enabled_listeners(ls, ls.len() as int) == 0,
        err("listeners"@, "至少启用一个监听器"@),
    )
}

/// The ids of a list of shares.
pub open spec fn share_ids(ss: Seq<ShareConfig>) -> Seq<Seq<char>> {
    ss.map_values(|s: ShareConfig| s.id@)
}

/// Whether one of the first `n` keys is `key` (items without a key have `None`).
pub open spec fn key_seen(keys: Seq<Option<Seq<char>>>, n: int, key: Seq<char>) -> bool {
    exists|j: int| 0 <= j < n && #[trigger] keys[j] == Some(key)
}

/// The uniqueness key of each share: its trimmed name lowered, for enabled shares.
pub open spec fn share_name_keys(ss: Seq<ShareConfig>) -> Seq<Option<Seq<char>>> {
    ss.map_values(
        |s: ShareConfig|
            if s.enabled {
                Some(ascii_lower(trim(s.name@)))
            } else {
                None
            },
    )
}

/// The path of a field of share `i`.
pub open spec fn spath(i: int, suffix: Seq<char>) -> Seq<char> {
    item_path("shares["@, i as nat, suffix)
}

/// The issues about where a share points.
pub open spec fn share_path_issues(i: int, path: Seq<char>) -> Seq<IssueView> {
    if is_blank(path) {
        seq![err(spath(i, "].path"@), "共享路径不能为空"@)]
    } else if !is_windows_absolute(path) {
        seq![err(spath(i, "].path"@), "共享路径必须是绝对路径"@)]
    } else {
        Seq::empty()
    }
}

/// The issues about the name of enabled share `i`.
pub open spec fn share_name_issues(ss: Seq<ShareConfig>, i: int) -> Seq<IssueView> {
    let name = trim(ss[i].name@);
    when(
        name.len() == 0 || utf8_len(name) > 80,
        err(spath(i, "].name"@), "共享名必须为 1–80 个字符"@),
    ) + when(
        exists|k: int| 0 <= k < name.len() && forbidden_share_char(#[trigger] name[k]),
        err(spath(i, "].name"@), "共享名包含 Windows 不允许的字符"@),
    ) + when(
        key_seen(share_name_keys(ss), i, ascii_lower(name)),
        err(spath(i, "].name"@), "共享名必须唯一（不区分大小写）"@),
    )
}

/// The issues about the settings of enabled share `i`.
pub open spec fn share_settings_issues(ss: Seq<ShareConfig>, i: int) -> Seq<IssueView> {
    let s = ss[i];
    share_name_issues(ss, i) + share_path_issues(i, s.path@) + when(
        s.read_access@.len() == 0,
        warn(spath(i, "].read_access"@), "未配置读取主体，该共享将无法读取"@),
    ) + when(
        !s.read_only && s.write_access@.len() == 0,
        warn(spath(i, "].write_access"@), "未配置写入主体，该共享将无法写入"@),
    )
}

/// The issues about the `i`-th share, given the shares before it.
pub open spec fn share_item_issues(ss: Seq<ShareConfig>, i: int) -> Seq<IssueView> {
    when(id_conflict(share_ids(ss), i), err(spath(i, "].id"@), "共享 ID 不能为空且必须唯一"@))
        + if !ss[i].enabled {
        Seq::empty()
    } else {
        share_settings_issues(ss, i)
    }
}

/// The issues about the first `n` shares.
pub open spec fn shares_issues_upto(ss: Seq<ShareConfig>, n: int) -> Seq<IssueView>
    decreases n,
{
    if n <= 0 {
        Seq::empty()
    } else {
        shares_issues_upto(ss, n - 1) + share_item_issues(ss, n - 1)
    }
}

/// How many of the first `n` shares are enabled.
pub open spec fn enabled_shares(ss: Seq<ShareConfig>, n: int) -> nat
    decreases n,
{
    if n <= 0 {
        0
    } else {
        enabled_shares(ss, n - 1) + if ss[n - 1].enabled {
            1nat
        } else {
            0nat
        }
    }
}

/// The issues about the shares.
pub open spec fn share_issues(c: AppConfig) -> Seq<IssueView> {
    let ss = c.shares@;
    shares_issues_upto(ss, ss.len() as int) + when(
        enabled_shares(ss, ss.len() as int) == 0,
        err("shares"@, "至少启用一个共享"@),
    )
}

/// The ids of a list of users.
pub open spec fn user_ids(us: Seq<UserConfig>) -> Seq<Seq<char>> {
    us.map_values(|u: UserConfig| u.id@)
}

/// The uniqueness key of each user: its account name lowered, for enabled users.
pub open spec fn account_keys(us: Seq<UserConfig>) -> Seq<Option<Seq<char>>> {
    us.map_values(
        |u: UserConfig|
            if u.enabled {
                Some(ascii_lower(u.account_name@))
            } else {
                None
            },
    )
}

/// The path of a field of user `i`.
pub open spec fn upath(i: int, suffix: Seq<char>) -> Seq<char> {
    item_path("users["@, i as nat, suffix)
}

/// The issues about the `i`-th user, given the users before it.
pub open spec fn user_item_issues(us: Seq<UserConfig>, i: int) -> Seq<IssueView> {
    let u = us[i];
    when(id_conflict(user_ids(us), i), err(upath(i, "].id"@), "用户 ID 不能为空且必须唯一"@))
        + if !u.enabled {
        Seq::empty()
    } else {
        when(is_blank(u.account_name@), err(upath(i, "].account_name"@), "账户名不能为空"@)) + when(
            key_seen(account_keys(us), i, ascii_lower(u.account_name@)),
            err(upath(i, "].account_name"@), "账户名必须唯一（不区分大小写）"@),
        ) + when(
            u.protected_password@.len() == 0,
            err(upath(i, "].protected_password"@), "该用户尚未设置密码"@),
        )
    }
}

/// The issues about the first `n` users.
pub open spec fn users_issues_upto(us: Seq<UserConfig>, n: int) -> Seq<IssueView>
    decreases n,
{
    if n <= 0 {
        Seq::empty()
    } else {
        users_issues_upto(us, n - 1) + user_item_issues(us, n - 1)
    }
}

/// How many of the first `n` users are enabled.
pub open spec fn enabled_users(us: Seq<UserConfig>, n: int) -> nat
    decreases n,
{
    if n <= 0 {
        0
    } else {
        enabled_users(us, n - 1) + if us[n - 1].enabled {
            1nat
        } else {
            0nat
        }
    }
}

/// The issues about the users.
pub open spec fn user_issues(c: AppConfig) -> Seq<IssueView> {
    let us = c.users@;
    users_issues_upto(us, us.len() as int) + when(
        c.server.authentication == AuthenticationMode::Independent && enabled_users(
            us,
            us.len() as int,
        ) == 0,
        err("users"@, "独立认证模式至少需要一个已启用用户"@),
    )
}

/// The issues about the log settings.
pub open spec fn logging_issues(c: AppConfig) -> Seq<IssueView> {
    when(
        !(1 <= c.logging.max_file_mib <= 1024),
        err("logging.max_file_mib"@, "单个日志文件大小必须为 1–1024 MiB"@),
    ) + when(
        !(1 <= c.logging.retained_files <= 100),
        err("logging.retained_files"@, "日志保留数量必须为 1–100"@),
    ) + when(
        !(50 <= c.logging.gui_tail_lines <= 10000),
        err("logging.gui_tail_lines"@, "界面日志行数必须为 50–10000"@),
    )
}

/// Every issue of a configuration, in the order they are reported: server, listeners, shares,
/// users, logging.
pub open spec fn config_issues(c: AppConfig) -> Seq<IssueView> {
    server_issues(c) + listener_issues(c) + share_issues(c) + user_issues(c) + logging_issues(c)
}


/// Whether every character of `s` may stand in a NetBIOS name.
fn all_netbios_chars(s: &Vec<char>) -> (res: bool)
    ensures
        res == (forall|i: int| 0 <= i < s@.len() ==> netbios_char(#[trigger] s@[i])),
{
    let mut i: usize = 0;
    while i < s.len()
        invariant
            i <= s.len(),
            forall|j: int| 0 <= j < i ==> netbios_char(#[trigger] s@[j]),
        decreases s.len() - i,
    {
        let c = s[i];
        if !(char_is_ascii_alnum(c) || c == '-') {
            assert(!netbios_char(s@[i as int]));
            return false;
        }
        i = i + 1;
    }
    true
}

/// Appends `issue` to `issues` when `cond` holds.
fn report_if(issues: &mut Vec<ConfigIssue>, cond: bool, issue: ConfigIssue)
    ensures
        issues_view(final(issues)@) == issues_view(old(issues)@) + when(cond, issue@),
{
    if cond {
        report(issues, issue);
        assert(issues_view(issues@) =~= issues_view(old(issues)@) + when(cond, issue@));
    } else {
        assert(issues_view(issues@) =~= issues_view(old(issues)@) + when(cond, issue@));
    }
}

/// Appends the issues about the schema version and the server settings.
#[verifier::rlimit(100)]
fn check_server(config: &AppConfig, issues: &mut Vec<ConfigIssue>)
    ensures
        issues_view(final(issues)@) == issues_view(old(issues)@) + server_issues(*config),
{
    let ghost start = issues_view(issues@);
    let ghost c = *config;
    report_if(
        issues,
        config.version != CURRENT_CONFIG_VERSION,
        ConfigIssue::error("version".to_owned(), "不支持的配置版本"),
    );
    let ghost w = when(c.version != CURRENT_CONFIG_VERSION, err("version"@, "不支持的配置版本"@));
    assert(issues_view(issues@) == start + w);
    let netbios = trimmed(config.server.netbios_name.as_str());
    let ghost prev = w;
    report_if(
        issues,
        netbios.len() == 0 || netbios.len() > 15,
        ConfigIssue::error("server.netbios_name".to_owned(), "NetBIOS 名称必须为 1–15 个字符"),
    );
    let ghost w = prev + when(
        netbios@.len() == 0 || netbios@.len() > 15,
        err("server.netbios_name"@, "NetBIOS 名称必须为 1–15 个字符"@),
    );
    assert(issues_view(issues@) =~= start + w);
    let ok_chars = all_netbios_chars(&netbios);
    let ghost prev = w;
    report_if(
        issues,
        !ok_chars,
        ConfigIssue::error("server.netbios_name".to_owned(), "NetBIOS 名称只能包含 ASCII 字母、数字和连字符"),
    );
    let ghost w = prev + when(
        !ok_chars,
        err("server.netbios_name"@, "NetBIOS 名称只能包含 ASCII 字母、数字和连字符"@),
    );
    assert(issues_view(issues@) =~= start + w);
    let workgroup = trimmed(config.server.workgroup.as_str());
    let ghost prev = w;
    report_if(
        issues,
        workgroup.len() == 0 || workgroup.len() > 15,
        ConfigIssue::error("server.workgroup".to_owned(), "工作组名称必须为 1–15 个字符"),
    );
    let ghost w = prev + when(
        workgroup@.len() == 0 || workgroup@.len() > 15,
        err("server.workgroup"@, "工作组名称必须为 1–15 个字符"@),
    );
    assert(issues_view(issues@) =~= start + w);
    let ghost prev = w;
    report_if(
        issues,
        !config.server.enable_smb1 && !config.server.enable_smb2 && !config.server.enable_smb3,
        ConfigIssue::error("server.protocols".to_owned(), "至少启用一个 SMB 协议版本"),
    );
    let ghost w = prev + when(
        !c.server.enable_smb1 && !c.server.enable_smb2 && !c.server.enable_smb3,
        err("server.protocols"@, "至少启用一个 SMB 协议版本"@),
    );
    assert(issues_view(issues@) =~= start + w);
    let ghost prev = w;
    report_if(
        issues,
        config.server.enable_smb3 && !config.server.enable_smb2,
        ConfigIssue::error("server.enable_smb3".to_owned(), "SMBLibrary 要求启用 SMB2 后才能启用 SMB3"),
    );
    let ghost w = prev + when(
        c.server.enable_smb3 && !c.server.enable_smb2,
        err("server.enable_smb3"@, "SMBLibrary 要求启用 SMB2 后才能启用 SMB3"@),
    );
    assert(issues_view(issues@) =~= start + w);
    let ghost prev = w;
    report_if(
        issues,
        config.server.enable_smb1,
        ConfigIssue::warning("server.enable_smb1".to_owned(), "SMB1 已过时且安全性较弱；仅为兼容旧设备时启用"),
    );
    let ghost w = prev + when(
        c.server.enable_smb1,
        warn("server.enable_smb1"@, "SMB1 已过时且安全性较弱；仅为兼容旧设备时启用"@),
    );
    assert(issues_view(issues@) =~= start + w);
    assert(w == server_issues(c));
}

/// Whether `key` is among `list`.
fn contains_key(list: &Vec<Vec<char>>, key: &Vec<char>) -> (res: bool)
    ensures
        res == crate::ip::parts_view(list@).contains(key@),
{
    let ghost pv = crate::ip::parts_view(list@);
    let mut i: usize = 0;
    while i < list.len()
        invariant
            i <= list.len(),
            pv == crate::ip::parts_view(list@),
            forall|j: int| 0 <= j < i ==> pv[j] != key@,
        decreases list.len() - i,
    {
        if chars_equal(&list[i], key) {
            assert(pv[i as int] == key@);
            return true;
        }
        i = i + 1;
    }
    false
}

/// Checks the `i`-th of `ids` (which is `id`) against the non-blank ids before it, and records it.
fn check_id(seen: &mut Vec<Vec<char>>, Ghost(ids): Ghost<Seq<Seq<char>>>, Ghost(i): Ghost<int>, id: &String) -> (conflict: bool)
    requires
        0 <= i < ids.len(),
        ids[i] == id@,
        forall|k: Seq<char>| crate::ip::parts_view(old(seen)@).contains(k) <==> id_key_seen(ids, i, k),
    ensures
        conflict == id_conflict(ids, i),
        forall|k: Seq<char>| crate::ip::parts_view(final(seen)@).contains(k) <==> id_key_seen(ids, i + 1, k),
{
    let trimmed_id = trimmed(id.as_str());
    let chars = chars_of(id.as_str());
    let key = lower_chars(&chars);
    if trimmed_id.len() == 0 {
        assert forall|k: Seq<char>| id_key_seen(ids, i + 1, k) <==> id_key_seen(ids, i, k) by {
            if id_key_seen(ids, i + 1, k) {
                let j = choose|j: int| 0 <= j < i + 1 && !is_blank(#[trigger] ids[j]) && ascii_lower(ids[j]) == k;
                assert(j != i);
                assert(id_key_seen(ids, i, k));
            }
            if id_key_seen(ids, i, k) {
                let j = choose|j: int| 0 <= j < i && !is_blank(#[trigger] ids[j]) && ascii_lower(ids[j]) == k;
                assert(id_key_seen(ids, i + 1, k));
            }
        }
        assert forall|k: Seq<char>| crate::ip::parts_view(seen@).contains(k) <==> id_key_seen(ids, i + 1, k) by {
            assert(crate::ip::parts_view(old(seen)@).contains(k) <==> id_key_seen(ids, i, k));
        }
        return true;
    }
    let seen_before = contains_key(seen, &key);
    let ghost old_seen = crate::ip::parts_view(seen@);
    assert(seen_before == id_key_seen(ids, i, key@));
    seen.push(key);
    assert(crate::ip::parts_view(seen@) =~= old_seen.push(key@));
    assert forall|k: Seq<char>| crate::ip::parts_view(seen@).contains(k) <==> id_key_seen(ids, i + 1, k) by {
        if id_key_seen(ids, i + 1, k) {
            let j = choose|j: int| 0 <= j < i + 1 && !is_blank(#[trigger] ids[j]) && ascii_lower(ids[j]) == k;
            if j < i {
                assert(id_key_seen(ids, i, k));
                assert(old_seen.contains(k));
                let m = choose|m: int| 0 <= m < old_seen.len() && old_seen[m] == k;
                assert(crate::ip::parts_view(seen@)[m] == k);
            } else {
                assert(k == key@);
                assert(crate::ip::parts_view(seen@)[old_seen.len() as int] == k);
            }
            assert(crate::ip::parts_view(seen@).contains(k));
        }
        if crate::ip::parts_view(seen@).contains(k) {
            let m = choose|m: int| 0 <= m < crate::ip::parts_view(seen@).len() && crate::ip::parts_view(seen@)[m] == k;
            if m < old_seen.len() {
                assert(old_seen[m] == k);
                assert(old_seen.contains(k));
                assert(crate::ip::parts_view(old(seen)@).contains(k));
                assert(id_key_seen(ids, i, k));
                let j = choose|j: int| 0 <= j < i && !is_blank(#[trigger] ids[j]) && ascii_lower(ids[j]) == k;
                assert(0 <= j < i + 1 && !is_blank(ids[j]) && ascii_lower(ids[j]) == k);
            } else {
                assert(k == key@);
                assert(!is_blank(ids[i]) && ascii_lower(ids[i]) == k);
            }
            assert(id_key_seen(ids, i + 1, k));
        }
    }
    seen_before
}


/// Whether `e` is among `list`.
fn contains_endpoint(list: &Vec<Endpoint>, e: Endpoint) -> (res: bool)
    ensures
        res == list@.contains(e),
{
    let mut i: usize = 0;
    while i < list.len()
        invariant
            i <= list.len(),
            forall|j: int| 0 <= j < i ==> list@[j] != e,
        decreases list.len() - i,
    {
        let x = list[i];
        if x.0 == e.0 && x.1 == e.1 && x.2 == e.2 {
            assert(list@[i as int] == e);
            return true;
        }
        i = i + 1;
    }
    false
}

/// The endpoints seen among the first `i + 1` listeners are those among the first `i`, when
/// listener `i` binds none.
proof fn lemma_endpoints_unchanged(ls: Seq<ListenerConfig>, i: int)
    requires
        0 <= i < ls.len(),
        !ls[i].enabled || listener_address(ls[i]) is None,
    ensures
        forall|e: Endpoint| endpoint_seen(ls, i + 1, e) <==> endpoint_seen(ls, i, e),
{
    assert forall|e: Endpoint| endpoint_seen(ls, i + 1, e) <==> endpoint_seen(ls, i, e) by {
        if endpoint_seen(ls, i + 1, e) {
            let j = choose|j: int| 0 <= j < i + 1 && (#[trigger] ls[j]).enabled && listener_address(ls[j]) == Some(e.0) && ls[j].port == e.1 && ls[j].transport == e.2;
            assert(j != i);
            assert(endpoint_seen(ls, i, e));
        }
        if endpoint_seen(ls, i, e) {
            let j = choose|j: int| 0 <= j < i && (#[trigger] ls[j]).enabled && listener_address(ls[j]) == Some(e.0) && ls[j].port == e.1 && ls[j].transport == e.2;
            assert(endpoint_seen(ls, i + 1, e));
        }
    }
}

/// Recording the endpoint of enabled listener `i` keeps the seen endpoints those of the first
/// `i + 1` listeners.
proof fn lemma_endpoints_extended(ls: Seq<ListenerConfig>, i: int, before: Seq<Endpoint>, e: Endpoint)
    requires
        0 <= i < ls.len(),
        ls[i].enabled,
        listener_address(ls[i]) == Some(e.0),
        e.1 == ls[i].port,
        e.2 == ls[i].transport,
        forall|x: Endpoint| before.contains(x) <==> endpoint_seen(ls, i, x),
    ensures
        forall|x: Endpoint| before.push(e).contains(x) <==> endpoint_seen(ls, i + 1, x),
{
    let after = before.push(e);
    assert forall|x: Endpoint| after.contains(x) <==> endpoint_seen(ls, i + 1, x) by {
        if endpoint_seen(ls, i + 1, x) {
            let j = choose|j: int| 0 <= j < i + 1 && (#[trigger] ls[j]).enabled && listener_address(ls[j]) == Some(x.0) && ls[j].port == x.1 && ls[j].transport == x.2;
            if j < i {
                assert(endpoint_seen(ls, i, x));
                assert(before.contains(x));
                let m = choose|m: int| 0 <= m < before.len() && before[m] == x;
                assert(after[m] == x);
            } else {
                assert(after[before.len() as int] == x);
            }
        }
        if after.contains(x) {
            let m = choose|m: int| 0 <= m < after.len() && after[m] == x;
            if m < before.len() {
                assert(before[m] == x);
                assert(before.contains(x));
                assert(endpoint_seen(ls, i, x));
                let j = choose|j: int| 0 <= j < i && (#[trigger] ls[j]).enabled && listener_address(ls[j]) == Some(x.0) && ls[j].port == x.1 && ls[j].transport == x.2;
                assert(0 <= j < i + 1);
            } else {
                assert(x == e);
            }
            assert(endpoint_seen(ls, i + 1, x));
        }
    }
}

/// Appends the issues about where enabled listener `index`, bound to `a`, listens, and records
/// its endpoint.
fn check_listener_binding(
    listeners: &Vec<ListenerConfig>,
    index: usize,
    a: IpAddress,
    issues: &mut Vec<ConfigIssue>,
    endpoints: &mut Vec<Endpoint>,
)
    requires
        index < listeners@.len(),
        listeners@[index as int].enabled,
        listener_address(listeners@[index as int]) == Some(a),
        forall|e: Endpoint| old(endpoints)@.contains(e) <==> endpoint_seen(listeners@, index as int, e),
    ensures
        issues_view(final(issues)@) == issues_view(old(issues)@) + listener_bind_issues(listeners@, index as int, a),
        forall|e: Endpoint| final(endpoints)@.contains(e) <==> endpoint_seen(listeners@, index + 1, e),
{
    let ghost ls = listeners@;
    let ghost i = index as int;
    let ghost p0 = issues_view(issues@);
    let l = &listeners[index];
    report_if(issues, l.port == 0, ConfigIssue::error(build_item_path("listeners[", index, "].port"), "端口必须在 1–65535 范围内"));
    let e: Endpoint = (a, l.port, l.transport);
    let duplicate = contains_endpoint(endpoints, e);
    proof {
        lemma_endpoints_extended(ls, i, endpoints@, e);
    }
    endpoints.push(e);
    report_if(issues, duplicate, ConfigIssue::error(build_item_path("listeners[", index, "]"), "存在重复的监听地址、端口和传输组合"));
    let v6 = a.is_ipv6();
    report_if(issues, v6 && l.transport == Transport::NetbiosOverTcp, ConfigIssue::error(build_item_path("listeners[", index, "].transport"), "NetBIOS over TCP 仅支持 IPv4；IPv6 请使用 Direct TCP"));
    report_if(issues, v6 && l.netbios_name_service, ConfigIssue::error(build_item_path("listeners[", index, "].netbios_name_service"), "NetBIOS 名称服务只支持 IPv4"));
    let unspecified = a.is_unspecified();
    report_if(issues, l.netbios_name_service && unspecified, ConfigIssue::error(build_item_path("listeners[", index, "].address"), "名称服务必须绑定到具体 IPv4 地址，不能使用 0.0.0.0"));
    report_if(issues, l.port == 139 || l.port == 445, ConfigIssue::warning(build_item_path("listeners[", index, "].port"), "Windows Server/LanmanServer 服务可能已占用 139/445 端口"));
    assert(issues_view(issues@) =~= p0 + listener_bind_issues(ls, i, a));
}

/// Appends the issues about listener `index` and records its id and endpoint.
fn check_listener(
    listeners: &Vec<ListenerConfig>,
    index: usize,
    issues: &mut Vec<ConfigIssue>,
    ids: &mut Vec<Vec<char>>,
    endpoints: &mut Vec<Endpoint>,
)
    requires
        index < listeners@.len(),
        forall|k: Seq<char>| crate::ip::parts_view(old(ids)@).contains(k) <==> id_key_seen(listener_ids(listeners@), index as int, k),
        forall|e: Endpoint| old(endpoints)@.contains(e) <==> endpoint_seen(listeners@, index as int, e),
    ensures
        issues_view(final(issues)@) == issues_view(old(issues)@) + listener_item_issues(listeners@, index as int),
        forall|k: Seq<char>| crate::ip::parts_view(final(ids)@).contains(k) <==> id_key_seen(listener_ids(listeners@), index + 1, k),
        forall|e: Endpoint| final(endpoints)@.contains(e) <==> endpoint_seen(listeners@, index + 1, e),
{
    let ghost ls = listeners@;
    let ghost i = index as int;
    let ghost start = issues_view(issues@);
    let l = &listeners[index];
    assert(listener_ids(ls)[i] == l.id@);
    let conflict = check_id(ids, Ghost(listener_ids(ls)), Ghost(i), &l.id);
    report_if(issues, conflict, ConfigIssue::error(build_item_path("listeners[", index, "].id"), "监听器 ID 不能为空且必须唯一"));
    let ghost after_id = issues_view(issues@);
    if !l.enabled {
        proof {
            lemma_endpoints_unchanged(ls, i);
        }
        assert(issues_view(issues@) =~= start + listener_item_issues(ls, i));
        return;
    }
    let address = trimmed(l.address.as_str());
    match parse_ip_chars(&address) {
        None => {
            report(issues, ConfigIssue::error(build_item_path("listeners[", index, "].address"), "监听地址必须是 IPv4 或 IPv6 字面量"));
            proof {
                lemma_endpoints_unchanged(ls, i);
            }
            assert(issues_view(issues@) =~= start + listener_item_issues(ls, i));
        },
        Some(a) => {
            check_listener_binding(listeners, index, a, issues, endpoints);
            assert(issues_view(issues@) =~= start + listener_item_issues(ls, i));
        },
    }
}


/// The keys seen among the first `i + 1` items are those among the first `i`, when item `i`
/// has none.
proof fn lemma_keys_unchanged(keys: Seq<Option<Seq<char>>>, i: int)
    requires
        0 <= i < keys.len(),
        keys[i] is None,
    ensures
        forall|k: Seq<char>| key_seen(keys, i + 1, k) <==> key_seen(keys, i, k),
{
    assert forall|k: Seq<char>| key_seen(keys, i + 1, k) <==> key_seen(keys, i, k) by {
        if key_seen(keys, i + 1, k) {
            let j = choose|j: int| 0 <= j < i + 1 && #[trigger] keys[j] == Some(k);
            assert(j != i);
            assert(key_seen(keys, i, k));
        }
        if key_seen(keys, i, k) {
            let j = choose|j: int| 0 <= j < i && #[trigger] keys[j] == Some(k);
            assert(key_seen(keys, i + 1, k));
        }
    }
}

/// Checks key `i` (which is `key`) against the keys before it, and records it.
fn record_key(seen: &mut Vec<Vec<char>>, Ghost(keys): Ghost<Seq<Option<Seq<char>>>>, Ghost(i): Ghost<int>, key: Vec<char>) -> (before: bool)
    requires
        0 <= i < keys.len(),
        keys[i] == Some(key@),
        forall|k: Seq<char>| crate::ip::parts_view(old(seen)@).contains(k) <==> key_seen(keys, i, k),
    ensures
        before == key_seen(keys, i, key@),
        forall|k: Seq<char>| crate::ip::parts_view(final(seen)@).contains(k) <==> key_seen(keys, i + 1, k),
{
    let before = contains_key(seen, &key);
    let ghost old_seen = crate::ip::parts_view(seen@);
    let ghost kv = key@;
    seen.push(key);
    assert(crate::ip::parts_view(seen@) =~= old_seen.push(kv));
    assert forall|k: Seq<char>| crate::ip::parts_view(seen@).contains(k) <==> key_seen(keys, i + 1, k) by {
        if key_seen(keys, i + 1, k) {
            let j = choose|j: int| 0 <= j < i + 1 && #[trigger] keys[j] == Some(k);
            if j < i {
                assert(key_seen(keys, i, k));
                assert(old_seen.contains(k));
                let m = choose|m: int| 0 <= m < old_seen.len() && old_seen[m] == k;
                assert(crate::ip::parts_view(seen@)[m] == k);
            } else {
                assert(crate::ip::parts_view(seen@)[old_seen.len() as int] == k);
            }
            assert(crate::ip::parts_view(seen@).contains(k));
        }
        if crate::ip::parts_view(seen@).contains(k) {
            let m = choose|m: int| 0 <= m < crate::ip::parts_view(seen@).len() && crate::ip::parts_view(seen@)[m] == k;
            if m < old_seen.len() {
                assert(old_seen[m] == k);
                assert(old_seen.contains(k));
                assert(crate::ip::parts_view(old(seen)@).contains(k));
                assert(key_seen(keys, i, k));
                let j = choose|j: int| 0 <= j < i && #[trigger] keys[j] == Some(k);
                assert(0 <= j < i + 1);
            } else {
                assert(k == kv);
            }
            assert(key_seen(keys, i + 1, k));
        }
    }
    before
}

/// Whether `name` holds a character Windows does not allow in a share name.
fn has_forbidden_share_char(name: &Vec<char>) -> (res: bool)
    ensures
        res == (exists|k: int| 0 <= k < name@.len() && forbidden_share_char(#[trigger] name@[k])),
{
    let mut i: usize = 0;
    while i < name.len()
        invariant
            i <= name.len(),
            forall|j: int| 0 <= j < i ==> !forbidden_share_char(#[trigger] name@[j]),
        decreases name.len() - i,
    {
        let c = name[i];
        if c == '\\' || c == '/' || c == '[' || c == ']' || c == ':' || c == ';' || c == '|' || c == '='
            || c == ',' || c == '+' || c == '*' || c == '?' || c == '<' || c == '>' || c == '"' {
            assert(forbidden_share_char(name@[i as int]));
            return true;
        }
        i = i + 1;
    }
    false
}

/// Appends the issues about the name of enabled share `index` and records it.
fn check_share_name(
    shares: &Vec<ShareConfig>,
    index: usize,
    issues: &mut Vec<ConfigIssue>,
    names: &mut Vec<Vec<char>>,
)
    requires
        index < shares@.len(),
        shares@[index as int].enabled,
        forall|k: Seq<char>| crate::ip::parts_view(old(names)@).contains(k) <==> key_seen(share_name_keys(shares@), index as int, k),
    ensures
        issues_view(final(issues)@) == issues_view(old(issues)@) + share_name_issues(shares@, index as int),
        forall|k: Seq<char>| crate::ip::parts_view(final(names)@).contains(k) <==> key_seen(share_name_keys(shares@), index + 1, k),
{
    let ghost ss = shares@;
    let ghost i = index as int;
    let ghost p0 = issues_view(issues@);
    let s = &shares[index];
    let name = trimmed(s.name.as_str());
    let name_bytes = utf8_length(&name);
    report_if(issues, name.len() == 0 || name_bytes > 80, ConfigIssue::error(build_item_path("shares[", index, "].name"), "共享名必须为 1–80 个字符"));
    let forbidden = has_forbidden_share_char(&name);
    report_if(issues, forbidden, ConfigIssue::error(build_item_path("shares[", index, "].name"), "共享名包含 Windows 不允许的字符"));
    let key = lower_chars(&name);
    assert(share_name_keys(ss)[i] == Some(key@));
    let taken = record_key(names, Ghost(share_name_keys(ss)), Ghost(i), key);
    report_if(issues, taken, ConfigIssue::error(build_item_path("shares[", index, "].name"), "共享名必须唯一（不区分大小写）"));
    assert(issues_view(issues@) =~= p0 + share_name_issues(ss, i));
}

/// Appends the issues about where a share points.
fn check_share_path(index: usize, path: &String, issues: &mut Vec<ConfigIssue>)
    ensures
        issues_view(final(issues)@) == issues_view(old(issues)@) + share_path_issues(index as int, path@),
{
    let path_blank = trimmed(path.as_str()).len() == 0;
    if path_blank {
        report(issues, ConfigIssue::error(build_item_path("shares[", index, "].path"), "共享路径不能为空"));
    } else if !is_windows_absolute_path(path.as_str()) {
        report(issues, ConfigIssue::error(build_item_path("shares[", index, "].path"), "共享路径必须是绝对路径"));
    }
    assert(issues_view(final(issues)@) =~= issues_view(old(issues)@) + share_path_issues(index as int, path@));
}

/// Appends the issues about the settings of enabled share `index` and records its name.
fn check_share_settings(
    shares: &Vec<ShareConfig>,
    index: usize,
    issues: &mut Vec<ConfigIssue>,
    names: &mut Vec<Vec<char>>,
)
    requires
        index < shares@.len(),
        shares@[index as int].enabled,
        forall|k: Seq<char>| crate::ip::parts_view(old(names)@).contains(k) <==> key_seen(share_name_keys(shares@), index as int, k),
    ensures
        issues_view(final(issues)@) == issues_view(old(issues)@) + share_settings_issues(shares@, index as int),
        forall|k: Seq<char>| crate::ip::parts_view(final(names)@).contains(k) <==> key_seen(share_name_keys(shares@), index + 1, k),
{
    let ghost p0 = issues_view(issues@);
    check_share_name(shares, index, issues, names);
    let s = &shares[index];
    check_share_path(index, &s.path, issues);
    report_if(issues, s.read_access.len() == 0, ConfigIssue::warning(build_item_path("shares[", index, "].read_access"), "未配置读取主体，该共享将无法读取"));
    report_if(issues, !s.read_only && s.write_access.len() == 0, ConfigIssue::warning(build_item_path("shares[", index, "].write_access"), "未配置写入主体，该共享将无法写入"));
    assert(issues_view(issues@) =~= p0 + share_settings_issues(shares@, index as int));
}

/// Appends the issues about share `index` and records its id and name.
fn check_share(
    shares: &Vec<ShareConfig>,
    index: usize,
    issues: &mut Vec<ConfigIssue>,
    ids: &mut Vec<Vec<char>>,
    names: &mut Vec<Vec<char>>,
)
    requires
        index < shares@.len(),
        forall|k: Seq<char>| crate::ip::parts_view(old(ids)@).contains(k) <==> id_key_seen(share_ids(shares@), index as int, k),
        forall|k: Seq<char>| crate::ip::parts_view(old(names)@).contains(k) <==> key_seen(share_name_keys(shares@), index as int, k),
    ensures
        issues_view(final(issues)@) == issues_view(old(issues)@) + share_item_issues(shares@, index as int),
        forall|k: Seq<char>| crate::ip::parts_view(final(ids)@).contains(k) <==> id_key_seen(share_ids(shares@), index + 1, k),
        forall|k: Seq<char>| crate::ip::parts_view(final(names)@).contains(k) <==> key_seen(share_name_keys(shares@), index + 1, k),
{
    let ghost ss = shares@;
    let ghost i = index as int;
    let ghost start = issues_view(issues@);
    let s = &shares[index];
    assert(share_ids(ss)[i] == s.id@);
    let conflict = check_id(ids, Ghost(share_ids(ss)), Ghost(i), &s.id);
    report_if(issues, conflict, ConfigIssue::error(build_item_path("shares[", index, "].id"), "共享 ID 不能为空且必须唯一"));
    if !s.enabled {
        assert(share_name_keys(ss)[i] is None);
        proof {
            lemma_keys_unchanged(share_name_keys(ss), i);
        }
        assert(issues_view(issues@) =~= start + share_item_issues(ss, i));
        return;
    }
    check_share_settings(shares, index, issues, names);
    assert(issues_view(issues@) =~= start + share_item_issues(ss, i));
}

/// Appends the issues about user `index` and records its id and account name.
fn check_user(
    users: &Vec<UserConfig>,
    index: usize,
    issues: &mut Vec<ConfigIssue>,
    ids: &mut Vec<Vec<char>>,
    accounts: &mut Vec<Vec<char>>,
)
    requires
        index < users@.len(),
        forall|k: Seq<char>| crate::ip::parts_view(old(ids)@).contains(k) <==> id_key_seen(user_ids(users@), index as int, k),
        forall|k: Seq<char>| crate::ip::parts_view(old(accounts)@).contains(k) <==> key_seen(account_keys(users@), index as int, k),
    ensures
        issues_view(final(issues)@) == issues_view(old(issues)@) + user_item_issues(users@, index as int),
        forall|k: Seq<char>| crate::ip::parts_view(final(ids)@).contains(k) <==> id_key_seen(user_ids(users@), index + 1, k),
        forall|k: Seq<char>| crate::ip::parts_view(final(accounts)@).contains(k) <==> key_seen(account_keys(users@), index + 1, k),
{
    let ghost us = users@;
    let ghost i = index as int;
    let ghost start = issues_view(issues@);
    let u = &users[index];
    assert(user_ids(us)[i] == u.id@);
    let conflict = check_id(ids, Ghost(user_ids(us)), Ghost(i), &u.id);
    report_if(issues, conflict, ConfigIssue::error(build_item_path("users[", index, "].id"), "用户 ID 不能为空且必须唯一"));
    if !u.enabled {
        assert(account_keys(us)[i] is None);
        proof {
            lemma_keys_unchanged(account_keys(us), i);
        }
        assert(issues_view(issues@) =~= start + user_item_issues(us, i));
        return;
    }
    let ghost p0 = issues_view(issues@);
    let blank = trimmed(u.account_name.as_str()).len() == 0;
    report_if(issues, blank, ConfigIssue::error(build_item_path("users[", index, "].account_name"), "账户名不能为空"));
    let chars = chars_of(u.account_name.as_str());
    let key = lower_chars(&chars);
    assert(account_keys(us)[i] == Some(key@));
    let taken = record_key(accounts, Ghost(account_keys(us)), Ghost(i), key);
    report_if(issues, taken, ConfigIssue::error(build_item_path("users[", index, "].account_name"), "账户名必须唯一（不区分大小写）"));
    report_if(issues, u.protected_password.as_str().is_empty(), ConfigIssue::error(build_item_path("users[", index, "].protected_password"), "该用户尚未设置密码"));
    assert(issues_view(issues@) =~= start + user_item_issues(us, i));
}

/// Appends the issues about the listeners.
fn check_listeners(config: &AppConfig, issues: &mut Vec<ConfigIssue>)
    ensures
        issues_view(final(issues)@) == issues_view(old(issues)@) + listener_issues(*config),
{
    let ghost ls = config.listeners@;
    let ghost start = issues_view(issues@);
    let mut ids: Vec<Vec<char>> = Vec::new();
    let mut endpoints: Vec<Endpoint> = Vec::new();
    let mut enabled_count: usize = 0;
    let mut index: usize = 0;
    while index < config.listeners.len()
        invariant
            ls == config.listeners@,
            index <= ls.len(),
            issues_view(issues@) == start + listeners_issues_upto(ls, index as int),
            enabled_count == enabled_listeners(ls, index as int),
            enabled_count <= index,
            forall|k: Seq<char>| crate::ip::parts_view(ids@).contains(k) <==> id_key_seen(listener_ids(ls), index as int, k),
            forall|e: Endpoint| endpoints@.contains(e) <==> endpoint_seen(ls, index as int, e),
        decreases ls.len() - index,
    {
        check_listener(&config.listeners, index, issues, &mut ids, &mut endpoints);
        if config.listeners[index].enabled {
            enabled_count = enabled_count + 1;
        }
        index = index + 1;
        assert(issues_view(issues@) =~= start + listeners_issues_upto(ls, index as int));
    }
    report_if(issues, enabled_count == 0, ConfigIssue::error("listeners".to_owned(), "至少启用一个监听器"));
    assert(issues_view(issues@) =~= start + listener_issues(*config));
}

/// Appends the issues about the shares.
fn check_shares(config: &AppConfig, issues: &mut Vec<ConfigIssue>)
    ensures
        issues_view(final(issues)@) == issues_view(old(issues)@) + share_issues(*config),
{
    let ghost ss = config.shares@;
    let ghost start = issues_view(issues@);
    let mut ids: Vec<Vec<char>> = Vec::new();
    let mut names: Vec<Vec<char>> = Vec::new();
    let mut enabled_count: usize = 0;
    let mut index: usize = 0;
    while index < config.shares.len()
        invariant
            ss == config.shares@,
            index <= ss.len(),
            issues_view(issues@) == start + shares_issues_upto(ss, index as int),
            enabled_count == enabled_shares(ss, index as int),
            enabled_count <= index,
            forall|k: Seq<char>| crate::ip::parts_view(ids@).contains(k) <==> id_key_seen(share_ids(ss), index as int, k),
            forall|k: Seq<char>| crate::ip::parts_view(names@).contains(k) <==> key_seen(share_name_keys(ss), index as int, k),
        decreases ss.len() - index,
    {
        check_share(&config.shares, index, issues, &mut ids, &mut names);
        if config.shares[index].enabled {
            enabled_count = enabled_count + 1;
        }
        index = index + 1;
        assert(issues_view(issues@) =~= start + shares_issues_upto(ss, index as int));
    }
    report_if(issues, enabled_count == 0, ConfigIssue::error("shares".to_owned(), "至少启用一个共享"));
    assert(issues_view(issues@) =~= start + share_issues(*config));
}

/// Appends the issues about the users.
fn check_users(config: &AppConfig, issues: &mut Vec<ConfigIssue>)
    ensures
        issues_view(final(issues)@) == issues_view(old(issues)@) + user_issues(*config),
{
    let ghost us = config.users@;
    let ghost start = issues_view(issues@);
    let mut ids: Vec<Vec<char>> = Vec::new();
    let mut accounts: Vec<Vec<char>> = Vec::new();
    let mut enabled_count: usize = 0;
    let mut index: usize = 0;
    while index < config.users.len()
        invariant
            us == config.users@,
            index <= us.len(),
            issues_view(issues@) == start + users_issues_upto(us, index as int),
            enabled_count == enabled_users(us, index as int),
            enabled_count <= index,
            forall|k: Seq<char>| crate::ip::parts_view(ids@).contains(k) <==> id_key_seen(user_ids(us), index as int, k),
            forall|k: Seq<char>| crate::ip::parts_view(accounts@).contains(k) <==> key_seen(account_keys(us), index as int, k),
        decreases us.len() - index,
    {
        check_user(&config.users, index, issues, &mut ids, &mut accounts);
        if config.users[index].enabled {
            enabled_count = enabled_count + 1;
        }
        index = index + 1;
        assert(issues_view(issues@) =~= start + users_issues_upto(us, index as int));
    }
    let independent = match config.server.authentication {
        AuthenticationMode::Independent => true,
        AuthenticationMode::IntegratedWindows => false,
    };
    report_if(issues, independent && enabled_count == 0, ConfigIssue::error("users".to_owned(), "独立认证模式至少需要一个已启用用户"));
    assert(issues_view(issues@) =~= start + user_issues(*config));
}

/// Appends the issues about the log settings.
fn check_logging(config: &AppConfig, issues: &mut Vec<ConfigIssue>)
    ensures
        issues_view(final(issues)@) == issues_view(old(issues)@) + logging_issues(*config),
{
    let ghost start = issues_view(issues@);
    let l = &config.logging;
    report_if(issues, !(1 <= l.max_file_mib && l.max_file_mib <= 1024), ConfigIssue::error("logging.max_file_mib".to_owned(), "单个日志文件大小必须为 1–1024 MiB"));
    report_if(issues, !(1 <= l.retained_files && l.retained_files <= 100), ConfigIssue::error("logging.retained_files".to_owned(), "日志保留数量必须为 1–100"));
    report_if(issues, !(50 <= l.gui_tail_lines && l.gui_tail_lines <= 10000), ConfigIssue::error("logging.gui_tail_lines".to_owned(), "界面日志行数必须为 50–10000"));
    assert(issues_view(issues@) =~= start + logging_issues(*config));
}

/// Every error and warning of `config`, in order: the schema version and server settings, each
/// listener, each share, each user, then the log settings.
pub fn validate_config(config: &AppConfig) -> (issues: Vec<ConfigIssue>)
    ensures
        issues_view(issues@) == config_issues(*config),
{
    let mut issues: Vec<ConfigIssue> = Vec::new();
    check_server(config, &mut issues);
    check_listeners(config, &mut issues);
    check_shares(config, &mut issues);
    check_users(config, &mut issues);
    check_logging(config, &mut issues);
    assert(issues_view(issues@) =~= config_issues(*config));
    issues
}

} // verus!
