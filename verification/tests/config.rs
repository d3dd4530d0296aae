use smbn::config::{
    migrate, AppConfig, AuthenticationMode, ListenerConfig, LogLevel, LoggingConfig, ServerConfig, ShareConfig,
    Transport, UiConfig, UnsupportedVersion, UserConfig, CURRENT_CONFIG_VERSION,
};

#[test]
fn default_configuration() {
    let config = AppConfig::for_machine(Some("WORKSTATION-WITH-A-LONG-NAME"));
    assert_eq!(config.version, CURRENT_CONFIG_VERSION);
    assert_eq!(config.server.netbios_name, "WORKSTATION-WIT");
    assert_eq!(config.server.workgroup, "WORKGROUP");
    assert_eq!(config.server.authentication, AuthenticationMode::Independent);
    assert!(!config.server.enable_smb1 && config.server.enable_smb2 && config.server.enable_smb3);
    assert_eq!(config.server.inactivity_timeout_seconds, 300);
    assert_eq!(config.listeners, vec![ListenerConfig::ipv4_default(), ListenerConfig::ipv6_default()]);
    assert!(config.shares.is_empty() && config.users.is_empty());
    assert_eq!(AppConfig::for_machine(None).server.netbios_name, "SMBN");
    assert_eq!(ServerConfig::for_machine(Some("PC")).netbios_name, "PC");
}

#[test]
fn default_items() {
    let v4 = ListenerConfig::ipv4_default();
    assert_eq!((v4.id.as_str(), v4.address.as_str(), v4.port, v4.enabled), ("direct-ipv4", "0.0.0.0", 445, true));
    let v6 = ListenerConfig::ipv6_default();
    assert_eq!((v6.id.as_str(), v6.address.as_str(), v6.port, v6.enabled), ("direct-ipv6", "::", 445, false));
    assert_eq!(v6.transport, Transport::DirectTcp);
    assert_eq!(ListenerConfig::default(), v4);
    let share = ShareConfig::default();
    assert_eq!(share.read_access, vec!["Users".to_string()]);
    assert_eq!(share.write_access, vec!["Users".to_string()]);
    assert!(share.enabled && !share.hidden && !share.read_only);
    let user = UserConfig::default();
    assert!(user.enabled && user.protected_password.is_empty());
    let ui = UiConfig::default();
    assert!(ui.minimize_to_tray && ui.close_to_tray && ui.light_mode && ui.confirm_exit_while_running);
    assert_eq!(ui.language, "zh-CN");
    let logging = LoggingConfig::default();
    assert_eq!((logging.level, logging.max_file_mib, logging.retained_files, logging.gui_tail_lines), (LogLevel::Information, 8, 4, 500));
    assert_eq!(AuthenticationMode::default(), AuthenticationMode::Independent);
    assert_eq!(Transport::default(), Transport::DirectTcp);
    assert_eq!(LogLevel::default(), LogLevel::Information);
    assert!(LogLevel::Error < LogLevel::Trace);
}

#[test]
fn only_the_current_version_is_read() {
    let mut config = AppConfig::for_machine(None);
    let before = config.clone();
    assert_eq!(migrate(&mut config), Ok(()));
    assert_eq!(config, before);
    config.version = 7;
    let error = migrate(&mut config).unwrap_err();
    assert_eq!(error, UnsupportedVersion(7));
    assert_eq!(error.message(), "不支持配置版本 7");
}

#[test]
fn log_levels_order_by_verbosity() {
    let levels = [LogLevel::Error, LogLevel::Warning, LogLevel::Information, LogLevel::Debug, LogLevel::Verbose, LogLevel::Trace];
    for (i, a) in levels.iter().enumerate() {
        for (j, b) in levels.iter().enumerate() {
            assert_eq!(a < b, i < j);
            assert_eq!(a.partial_cmp(b), i.partial_cmp(&j));
            assert_eq!(a.cmp(b), i.cmp(&j));
        }
    }
}
