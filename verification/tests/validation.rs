use smbn::config::{AppConfig, ShareConfig, Transport, UserConfig};
use smbn::validation::{is_windows_absolute_path, validate_config, IssueSeverity};

#[test]
fn default_requires_share_and_user() {
    let issues = validate_config(&AppConfig::for_machine(None));
    assert!(issues.iter().any(|i| i.path == "shares"));
    assert!(issues.iter().any(|i| i.path == "users"));
}

#[test]
fn valid_minimum_configuration_has_no_errors() {
    let mut config = AppConfig::for_machine(None);
    config.shares.push(ShareConfig {
        id: "share-1".into(),
        name: "data".into(),
        path: r"C:\Data".into(),
        ..ShareConfig::default()
    });
    config.users.push(UserConfig {
        id: "user-1".into(),
        account_name: "alice".into(),
        protected_password: "dpapi".into(),
        ..UserConfig::default()
    });
    let errors = validate_config(&config)
        .into_iter()
        .filter(|i| i.severity == IssueSeverity::Error)
        .collect::<Vec<_>>();
    assert!(errors.is_empty(), "{errors:#?}");
}

#[test]
fn ipv6_netbios_is_rejected() {
    let mut config = AppConfig::for_machine(None);
    config.listeners[1].enabled = true;
    config.listeners[1].transport = Transport::NetbiosOverTcp;
    let issues = validate_config(&config);
    assert!(issues.iter().any(|i| i.path == "listeners[1].transport"));
}

fn minimum_config() -> AppConfig {
    let mut config = AppConfig::for_machine(None);
    config.shares.push(ShareConfig {
        id: "share-1".into(),
        name: "data".into(),
        path: r"C:\Data".into(),
        ..ShareConfig::default()
    });
    config.users.push(UserConfig {
        id: "user-1".into(),
        account_name: "alice".into(),
        protected_password: "dpapi".into(),
        ..UserConfig::default()
    });
    config
}

#[test]
fn default_listener_port_warns_about_system_service() {
    let issues = validate_config(&minimum_config());
    assert_eq!(issues.len(), 1);
    assert_eq!(issues[0].severity, IssueSeverity::Warning);
    assert_eq!(issues[0].path, "listeners[0].port");
    assert_eq!(issues[0].message, "Windows Server/LanmanServer 服务可能已占用 139/445 端口");
}

#[test]
fn wrong_version_is_the_first_issue() {
    let mut config = minimum_config();
    config.version = 2;
    let issues = validate_config(&config);
    assert_eq!(issues[0].path, "version");
    assert_eq!(issues[0].message, "不支持的配置版本");
    assert_eq!(issues[0].severity, IssueSeverity::Error);
}

#[test]
fn netbios_name_rules() {
    let mut config = minimum_config();
    config.server.netbios_name = "  ".into();
    let issues = validate_config(&config);
    assert!(issues.iter().any(|i| i.path == "server.netbios_name" && i.message == "NetBIOS 名称必须为 1–15 个字符"));
    config.server.netbios_name = "bad name".into();
    let issues = validate_config(&config);
    assert!(issues.iter().any(|i| i.path == "server.netbios_name" && i.message == "NetBIOS 名称只能包含 ASCII 字母、数字和连字符"));
    config.server.netbios_name = "  SMB-1  ".into();
    let issues = validate_config(&config);
    assert!(!issues.iter().any(|i| i.path == "server.netbios_name"));
}

#[test]
fn protocol_rules() {
    let mut config = minimum_config();
    config.server.enable_smb2 = false;
    config.server.enable_smb3 = false;
    let issues = validate_config(&config);
    assert!(issues.iter().any(|i| i.path == "server.protocols"));
    config.server.enable_smb3 = true;
    let issues = validate_config(&config);
    assert!(issues.iter().any(|i| i.path == "server.enable_smb3"));
    config.server.enable_smb1 = true;
    config.server.enable_smb2 = true;
    let issues = validate_config(&config);
    assert!(issues.iter().any(|i| i.path == "server.enable_smb1" && i.severity == IssueSeverity::Warning));
}

#[test]
fn duplicate_listener_ids_and_endpoints() {
    let mut config = minimum_config();
    config.listeners[1].id = "DIRECT-IPV4".into();
    config.listeners[1].address = "0.0.0.0".into();
    config.listeners[1].enabled = true;
    let issues = validate_config(&config);
    assert!(issues.iter().any(|i| i.path == "listeners[1].id"));
    assert!(issues.iter().any(|i| i.path == "listeners[1]" && i.message == "存在重复的监听地址、端口和传输组合"));
}

#[test]
fn listener_address_must_parse() {
    let mut config = minimum_config();
    config.listeners[0].address = "localhost".into();
    let issues = validate_config(&config);
    assert!(issues.iter().any(|i| i.path == "listeners[0].address" && i.message == "监听地址必须是 IPv4 或 IPv6 字面量"));
    config.listeners[0].address = " 192.168.1.10 ".into();
    config.listeners[0].port = 0;
    let issues = validate_config(&config);
    assert!(issues.iter().any(|i| i.path == "listeners[0].port" && i.message == "端口必须在 1–65535 范围内"));
}

#[test]
fn name_service_needs_specific_ipv4() {
    let mut config = minimum_config();
    config.listeners[0].netbios_name_service = true;
    let issues = validate_config(&config);
    assert!(issues.iter().any(|i| i.path == "listeners[0].address" && i.message == "名称服务必须绑定到具体 IPv4 地址，不能使用 0.0.0.0"));
    config.listeners[0].address = "::1".into();
    let issues = validate_config(&config);
    assert!(issues.iter().any(|i| i.path == "listeners[0].netbios_name_service"));
}

#[test]
fn share_rules() {
    let mut config = minimum_config();
    config.shares[0].name = "a*b".into();
    config.shares[0].path = "relative".into();
    config.shares[0].read_access.clear();
    config.shares[0].write_access.clear();
    let issues = validate_config(&config);
    assert!(issues.iter().any(|i| i.path == "shares[0].name" && i.message == "共享名包含 Windows 不允许的字符"));
    assert!(issues.iter().any(|i| i.path == "shares[0].path" && i.message == "共享路径必须是绝对路径"));
    assert!(issues.iter().any(|i| i.path == "shares[0].read_access"));
    assert!(issues.iter().any(|i| i.path == "shares[0].write_access"));
    config.shares.push(ShareConfig {
        id: "share-2".into(),
        name: "A*B".into(),
        path: "".into(),
        ..ShareConfig::default()
    });
    let issues = validate_config(&config);
    assert!(issues.iter().any(|i| i.path == "shares[1].name" && i.message == "共享名必须唯一（不区分大小写）"));
    assert!(issues.iter().any(|i| i.path == "shares[1].path" && i.message == "共享路径不能为空"));
}

#[test]
fn user_rules() {
    let mut config = minimum_config();
    config.users.push(UserConfig {
        id: "USER-1".into(),
        account_name: "ALICE".into(),
        ..UserConfig::default()
    });
    let issues = validate_config(&config);
    assert!(issues.iter().any(|i| i.path == "users[1].id"));
    assert!(issues.iter().any(|i| i.path == "users[1].account_name"));
    assert!(issues.iter().any(|i| i.path == "users[1].protected_password"));
}

#[test]
fn logging_ranges() {
    let mut config = minimum_config();
    config.logging.max_file_mib = 0;
    config.logging.retained_files = 101;
    config.logging.gui_tail_lines = 49;
    let issues = validate_config(&config);
    let n = issues.len();
    assert_eq!(issues[n - 3].path, "logging.max_file_mib");
    assert_eq!(issues[n - 2].path, "logging.retained_files");
    assert_eq!(issues[n - 1].path, "logging.gui_tail_lines");
}

#[test]
fn windows_absolute_paths() {
    assert!(is_windows_absolute_path(r"C:\Data"));
    assert!(is_windows_absolute_path("d:/x"));
    assert!(is_windows_absolute_path(r"\\server\share"));
    assert!(is_windows_absolute_path("//server/share"));
    assert!(!is_windows_absolute_path("C:"));
    assert!(!is_windows_absolute_path("Data"));
    assert!(!is_windows_absolute_path(r"1:\x"));
}
