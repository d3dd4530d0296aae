//! The persisted configuration: server settings, listeners, shares, users, UI and logging options.
use vstd::prelude::*;

use vstd::std_specs::cmp::PartialOrdSpec;
use vstd::string::*;

use core::cmp::Ordering;

use crate::text::{ascii_lower, lower_chars, chars_of, chars_equal};

verus! {

/// The configuration schema version this library reads and writes.
pub const CURRENT_CONFIG_VERSION: u32 = 1;

/// The whole persisted configuration.
#[derive(Debug, Clone, PartialEq, Eq)]
pub struct AppConfig {
    pub version: u32,
    pub server: ServerConfig,
    pub listeners: Vec<ListenerConfig>,
    pub shares: Vec<ShareConfig>,
    pub users: Vec<UserConfig>,
    pub app: UiConfig,
    pub logging: LoggingConfig,
}

/// Server-wide SMB settings.
#[derive(Debug, Clone, PartialEq, Eq)]
pub struct ServerConfig {
    /// NetBIOS discovery name. SMB2/3 clients normally connect by DNS name or IP.
    pub netbios_name: String,
    pub workgroup: String,
    pub authentication: AuthenticationMode,
    pub enable_smb1: bool,
    pub enable_smb2: bool,
    pub enable_smb3: bool,
    /// Sends an unsolicited ECHO after the connection has been inactive this long.
    /// Zero disables the inactivity monitor.
    pub inactivity_timeout_seconds: u64,
    pub reject_remote_subnets: Vec<String>,
    pub allow_remote_subnets: Vec<String>,
}

/// How SMB clients authenticate.
#[derive(Debug, Copy, Clone, PartialEq, Eq, Structural)]
pub enum AuthenticationMode {
    Independent,
    IntegratedWindows,
}

/// One SMB listener (bind address, port and transport).
#[derive(Debug, Clone, PartialEq, Eq)]
pub struct ListenerConfig {
    pub id: String,
    /// IPv4/IPv6 literal. Use 0.0.0.0 and :: for wildcard listeners.
    pub address: String,
    pub port: u16,
    pub transport: Transport,
    /// Registers and answers the NetBIOS name on UDP/137. IPv4 only.
    pub netbios_name_service: bool,
    pub enabled: bool,
}

/// The SMB transport of a listener.
#[derive(Debug, Copy, Clone, PartialEq, Eq, Structural)]
pub enum Transport {
    DirectTcp,
    NetbiosOverTcp,
}

/// One shared directory.
#[derive(Debug, Clone, PartialEq, Eq)]
pub struct ShareConfig {
    pub id: String,
    pub name: String,
    pub path: String,
    pub comment: String,
    pub enabled: bool,
    pub hidden: bool,
    pub read_only: bool,
    /// Case-insensitive account names. "Users" grants all authenticated users.
    pub read_access: Vec<String>,
    pub write_access: Vec<String>,
}

/// One independent-authentication account.
#[derive(Debug, Clone, PartialEq, Eq)]
pub struct UserConfig {
    pub id: String,
    pub account_name: String,
    pub enabled: bool,
    /// Base64-encoded DPAPI CurrentUser blob. Never plaintext on disk.
    pub protected_password: String,
}

/// Desktop application behaviour.
#[derive(Debug, Clone, PartialEq, Eq)]
pub struct UiConfig {
    pub start_with_windows: bool,
    pub start_server_on_launch: bool,
    pub minimize_to_tray: bool,
    pub close_to_tray: bool,
    pub light_mode: bool,
    pub confirm_exit_while_running: bool,
    pub language: String,
}

/// Engine log settings.
#[derive(Debug, Clone, PartialEq, Eq)]
pub struct LoggingConfig {
    pub level: LogLevel,
    pub max_file_mib: u32,
    pub retained_files: u32,
    pub gui_tail_lines: usize,
}

/// Engine log verbosity, from least to most verbose.
#[derive(Debug, Copy, Clone, PartialEq, Eq, Ord, Structural)]
pub enum LogLevel {
    Error,
    Warning,
    Information,
    Debug,
    Verbose,
    Trace,
}

/// Log levels compare by verbosity: error, warning, information, debug, verbose, trace.
impl PartialOrd for LogLevel {
    fn partial_cmp(&self, other: &Self) -> (res: Option<Ordering>) {
        let a = crate::status::log_level_index(*self);
        let b = crate::status::log_level_index(*other);
        if a < b {
            Some(Ordering::Less)
        } else if a == b {
            Some(Ordering::Equal)
        } else {
            Some(Ordering::Greater)
        }
    }
}

impl vstd::std_specs::cmp::PartialOrdSpecImpl for LogLevel {
    open spec fn obeys_partial_cmp_spec() -> bool {
        true
    }

    open spec fn partial_cmp_spec(&self, other: &Self) -> Option<Ordering> {
        if crate::status::level_index(*self) < crate::status::level_index(*other) {
            Some(Ordering::Less)
        } else if crate::status::level_index(*self) == crate::status::level_index(*other) {
            Some(Ordering::Equal)
        } else {
            Some(Ordering::Greater)
        }
    }
}

/// One level is below another exactly when it comes earlier in the level list, from error to
/// trace.
pub proof fn lemma_log_level_order(a: LogLevel, b: LogLevel)
    ensures
        a.partial_cmp_spec(&b) == Some(Ordering::Less) <==> crate::status::level_index(a)
            < crate::status::level_index(b),
        a.partial_cmp_spec(&b) == Some(Ordering::Equal) <==> a == b,
{
}

/// An account with its plaintext password, only held while one start request is built.
#[derive(Debug, Clone)]
pub struct PlainUser {
    pub account_name: String,
    pub password: String,
}

/// What the engine is started with.
#[derive(Debug, Clone)]
pub struct EngineConfig {
    pub server: ServerConfig,
    pub listeners: Vec<ListenerConfig>,
    pub shares: Vec<ShareConfig>,
    pub users: Vec<PlainUser>,
    pub logging: LoggingConfig,
}

impl Default for AuthenticationMode {
    fn default() -> (res: Self)
        ensures
            res == AuthenticationMode::Independent,
    {
        AuthenticationMode::Independent
    }
}

impl Default for Transport {
    fn default() -> (res: Self)
        ensures
            res == Transport::DirectTcp,
    {
        Transport::DirectTcp
    }
}

impl Default for LogLevel {
    fn default() -> (res: Self)
        ensures
            res == LogLevel::Information,
    {
        LogLevel::Information
    }
}

impl ListenerConfig {
    /// The default IPv4 wildcard listener: enabled Direct TCP on `0.0.0.0:445`.
    pub open spec fn is_ipv4_default(self) -> bool {
        &&& self.id@ == "direct-ipv4"@
        &&& self.address@ == "0.0.0.0"@
        &&& self.port == 445
        &&& self.transport == Transport::DirectTcp
        &&& !self.netbios_name_service
        &&& self.enabled
    }

    /// The default IPv6 wildcard listener: Direct TCP on `[::]:445`, disabled.
    pub open spec fn is_ipv6_default(self) -> bool {
        &&& self.id@ == "direct-ipv6"@
        &&& self.address@ == "::"@
        &&& self.port == 445
        &&& self.transport == Transport::DirectTcp
        &&& !self.netbios_name_service
        &&& !self.enabled
    }

    /// The enabled IPv4 wildcard Direct TCP listener on port 445.
    pub fn ipv4_default() -> (res: Self)
        ensures
            res.is_ipv4_default(),
    {
        ListenerConfig {
            id: "direct-ipv4".to_owned(),
            address: "0.0.0.0".to_owned(),
            port: 445,
            transport: Transport::DirectTcp,
            netbios_name_service: false,
            enabled: true,
        }
    }

    /// The IPv6 wildcard Direct TCP listener on port 445, disabled by default to avoid
    /// ambiguous dual-stack wildcard binding.
    pub fn ipv6_default() -> (res: Self)
        ensures
            res.is_ipv6_default(),
    {
        ListenerConfig {
            id: "direct-ipv6".to_owned(),
            address: "::".to_owned(),
            port: 445,
            transport: Transport::DirectTcp,
            netbios_name_service: false,
            enabled: false,
        }
    }
}

impl Default for ListenerConfig {
    fn default() -> (res: Self)
        ensures
            res.is_ipv4_default(),
    {
        Self::ipv4_default()
    }
}

impl ShareConfig {
    /// Whether `list` is exactly the single principal `Users`.
    pub open spec fn is_users_only(list: Seq<String>) -> bool {
        list.len() == 1 && list[0]@ == "Users"@
    }

    /// The values of a new share: empty texts, enabled, visible, writable, readable and
    /// writable by all authenticated users.
    pub open spec fn is_default(self) -> bool {
        &&& self.id@.len() == 0
        &&& self.name@.len() == 0
        &&& self.path@.len() == 0
        &&& self.comment@.len() == 0
        &&& self.enabled
        &&& !self.hidden
        &&& !self.read_only
        &&& Self::is_users_only(self.read_access@)
        &&& Self::is_users_only(self.write_access@)
    }
}

/// The principal list holding only `Users`.
fn users_only() -> (res: Vec<String>)
    ensures
        ShareConfig::is_users_only(res@),
{
    let mut v: Vec<String> = Vec::new();
    v.push("Users".to_owned());
    v
}

impl Default for ShareConfig {
    fn default() -> (res: Self)
        ensures
            res.is_default(),
    {
        ShareConfig {
            id: String::new(),
            name: String::new(),
            path: String::new(),
            comment: String::new(),
            enabled: true,
            hidden: false,
            read_only: false,
            read_access: users_only(),
            write_access: users_only(),
        }
    }
}

impl Default for UserConfig {
    fn default() -> (res: Self)
        ensures
            res.id@.len() == 0,
            res.account_name@.len() == 0,
            res.enabled,
            res.protected_password@.len() == 0,
    {
        UserConfig {
            id: String::new(),
            account_name: String::new(),
            enabled: true,
            protected_password: String::new(),
        }
    }
}

impl UiConfig {
    /// The default UI behaviour: no autostart, hide to the tray on minimize and close,
    /// light mode on, confirm exit while running, Simplified Chinese.
    pub open spec fn is_default(self) -> bool {
        &&& !self.start_with_windows
        &&& !self.start_server_on_launch
        &&& self.minimize_to_tray
        &&& self.close_to_tray
        &&& self.light_mode
        &&& self.confirm_exit_while_running
        &&& self.language@ == "zh-CN"@
    }
}

impl Default for UiConfig {
    fn default() -> (res: Self)
        ensures
            res.is_default(),
            res.start_with_windows == false,
            res.start_server_on_launch == false,
            res.minimize_to_tray == true,
            res.close_to_tray == true,
            res.light_mode == true,
            res.confirm_exit_while_running == true,
    {
        UiConfig {
            start_with_windows: false,
            start_server_on_launch: false,
            minimize_to_tray: true,
            close_to_tray: true,
            light_mode: true,
            confirm_exit_while_running: true,
            language: "zh-CN".to_owned(),
        }
    }
}

impl LoggingConfig {
    /// The default log settings: information level, 8 MiB files, 4 files kept, 500 UI lines.
    pub open spec fn is_default(self) -> bool {
        &&& self.level == LogLevel::Information
        &&& self.max_file_mib == 8
        &&& self.retained_files == 4
        &&& self.gui_tail_lines == 500
    }
}

impl Default for LoggingConfig {
    fn default() -> (res: Self)
        ensures
            res.is_default(),
    {
        LoggingConfig { level: LogLevel::Information, max_file_mib: 8, retained_files: 4, gui_tail_lines: 500 }
    }
}

/// The default NetBIOS name: the first 15 characters of the machine name, or `SMBN`
/// when the machine name is unknown.
pub open spec fn default_netbios_name(machine_name: Option<Seq<char>>) -> Seq<char> {
    match machine_name {
        Some(name) => if name.len() <= 15 {
            name
        } else {
            name.take(15)
        },
        None => "SMBN"@,
    }
}

impl ServerConfig {
    /// The default server settings for a machine named `machine_name`.
    pub open spec fn is_default_for(self, machine_name: Option<Seq<char>>) -> bool {
        &&& self.netbios_name@ == default_netbios_name(machine_name)
        &&& self.workgroup@ == "WORKGROUP"@
        &&& self.authentication == AuthenticationMode::Independent
        &&& !self.enable_smb1
        &&& self.enable_smb2
        &&& self.enable_smb3
        &&& self.inactivity_timeout_seconds == 300
        &&& self.reject_remote_subnets@.len() == 0
        &&& self.allow_remote_subnets@.len() == 0
    }

    /// The default server settings, given the machine name (`COMPUTERNAME`) when it is known:
    /// independent accounts, SMB2 and SMB3 on, SMB1 off, a 300 s inactivity timeout, no subnet lists.
    pub fn for_machine(machine_name: Option<&str>) -> (res: Self)
        ensures
            res.is_default_for(
                match machine_name {
                    Some(n) => Some(n@),
                    None => None,
                },
            ),
    {
        let netbios_name = match machine_name {
            Some(name) => {
                let chars = chars_of(name);
                let mut first: Vec<char> = Vec::new();
                let mut i: usize = 0;
                while i < chars.len() && i < 15
                    invariant
                        i <= chars.len(),
                        i <= 15,
                        first@ == chars@.take(i as int),
                    decreases chars.len() - i,
                {
                    first.push(chars[i]);
                    i = i + 1;
                    assert(first@ =~= chars@.take(i as int));
                }
                assert(chars@.len() <= 15 ==> chars@.take(i as int) =~= chars@);
                crate::text::string_from_chars(&first)
            },
            None => "SMBN".to_owned(),
        };
        ServerConfig {
            netbios_name,
            workgroup: "WORKGROUP".to_owned(),
            authentication: AuthenticationMode::Independent,
            enable_smb1: false,
            enable_smb2: true,
            enable_smb3: true,
            inactivity_timeout_seconds: 300,
            reject_remote_subnets: Vec::new(),
            allow_remote_subnets: Vec::new(),
        }
    }
}

impl AppConfig {
    /// The default configuration for a machine named `machine_name`: schema version 1, default
    /// server settings, the IPv4 and IPv6 default listeners (in that order), no shares, no users,
    /// default UI and logging settings.
    pub open spec fn is_default_for(self, machine_name: Option<Seq<char>>) -> bool {
        &&& self.version == CURRENT_CONFIG_VERSION
        &&& self.server.is_default_for(machine_name)
        &&& self.listeners@.len() == 2
        &&& self.listeners@[0].is_ipv4_default()
        &&& self.listeners@[1].is_ipv6_default()
        &&& self.shares@.len() == 0
        &&& self.users@.len() == 0
        &&& self.app.is_default()
        &&& self.logging.is_default()
    }

    /// A default configuration neither registers the program to run at log-on nor starts the
    /// server on launch: both wait for the user to tick them. It hides to the tray on minimize
    /// and on close, and asks before exiting while the server runs.
    pub proof fn lemma_default_asks_before_autostart(self, machine_name: Option<Seq<char>>)
        requires
            self.is_default_for(machine_name),
        ensures
            self.app.start_with_windows == false,
            self.app.start_server_on_launch == false,
            self.app.minimize_to_tray == true,
            self.app.close_to_tray == true,
            self.app.confirm_exit_while_running == true,
    {
    }

    /// The default configuration, given the machine name (`COMPUTERNAME`) when it is known.
    pub fn for_machine(machine_name: Option<&str>) -> (res: Self)
        ensures
            res.is_default_for(
                match machine_name {
                    Some(n) => Some(n@),
                    None => None,
                },
            ),
            res.app.start_with_windows == false,
            res.app.start_server_on_launch == false,
    {
        let mut listeners: Vec<ListenerConfig> = Vec::new();
        listeners.push(ListenerConfig::ipv4_default());
        listeners.push(ListenerConfig::ipv6_default());
        AppConfig {
            version: CURRENT_CONFIG_VERSION,
            server: ServerConfig::for_machine(machine_name),
            listeners,
            shares: Vec::new(),
            users: Vec::new(),
            app: UiConfig::default(),
            logging: LoggingConfig::default(),
        }
    }
}


/// A configuration written by a schema version this library does not read.
#[derive(Debug, Clone, Copy, PartialEq, Eq, Structural)]
pub struct UnsupportedVersion(pub u32);

impl UnsupportedVersion {
    /// The message shown for it: `不支持配置版本 ` and the version.
    pub fn message(&self) -> (res: String)
        ensures
            res@ == "不支持配置版本 "@ + crate::text::decimal(self.0 as nat),
    {
        let mut out = String::new();
        out.append("不支持配置版本 ");
        out.append(crate::text::decimal_string(self.0 as u64).as_str());
        out
    }
}

/// Brings a loaded configuration to the current schema version. Only the current version is
/// read; it is left unchanged.
pub fn migrate(config: &mut AppConfig) -> (res: Result<(), UnsupportedVersion>)
    ensures
        *final(config) == *old(config),
        old(config).version == CURRENT_CONFIG_VERSION ==> res == Ok::<(), UnsupportedVersion>(()),
        old(config).version != CURRENT_CONFIG_VERSION ==> res == Err::<(), UnsupportedVersion>(
            UnsupportedVersion(old(config).version),
        ),
{
    if config.version == CURRENT_CONFIG_VERSION {
        Ok(())
    } else {
        Err(UnsupportedVersion(config.version))
    }
}

} // verus!
