use smbn::config::{AppConfig, AuthenticationMode, LogLevel, Transport, UserConfig};
use smbn::forms::{
    assemble_engine_config, commit_global_fields, decrypt_failure_message, draft_user, engine_accounts,
    error_report, find_key, listener_from_form, parse_number, redacted_users, saved_message, share_from_form,
    upsert, FieldError, GlobalForm, ListenerForm, NumberError, NumberField, ShareForm, ShareFormError,
    UserForm, UserFormError, DIAGNOSTIC_PASSWORD,
};
use smbn::validation::{ConfigIssue, IssueSeverity};

fn form() -> GlobalForm {
    GlobalForm {
        netbios_name: "  NAS  ".into(),
        workgroup: " HOME ".into(),
        authentication_selection: Some(1),
        enable_smb1: false,
        enable_smb2: true,
        enable_smb3: false,
        inactivity_timeout_seconds: " 600 ".into(),
        allow_remote_subnets: "10.0.0.0/8; 192.168.0.0/16".into(),
        reject_remote_subnets: "".into(),
        start_with_windows: true,
        start_server_on_launch: true,
        minimize_to_tray: false,
        close_to_tray: false,
        light_mode: false,
        confirm_exit_while_running: false,
        log_level_selection: Some(3),
        max_file_mib: "16".into(),
        retained_files: "+5".into(),
        gui_tail_lines: "1000".into(),
    }
}

#[test]
fn numbers_parse_like_the_standard_library() {
    assert_eq!(parse_number(" 42 ", 100), Ok(42));
    assert_eq!(parse_number("+7", 100), Ok(7));
    assert_eq!(parse_number("", 100), Err(NumberError::Empty));
    assert_eq!(parse_number("   ", 100), Err(NumberError::Empty));
    assert_eq!(parse_number("+", 100), Err(NumberError::InvalidDigit));
    assert_eq!(parse_number("-1", 100), Err(NumberError::InvalidDigit));
    assert_eq!(parse_number("1x", 100), Err(NumberError::InvalidDigit));
    assert_eq!(parse_number("101", 100), Err(NumberError::TooLarge));
    assert_eq!(parse_number("999x", 100), Err(NumberError::TooLarge));
    assert_eq!(parse_number("65535", 65535), Ok(65535));
    assert_eq!(parse_number("65536", 65535), Err(NumberError::TooLarge));
    assert_eq!(parse_number("18446744073709551615", u64::MAX), Ok(u64::MAX));
    assert_eq!(parse_number("18446744073709551616", u64::MAX), Err(NumberError::TooLarge));
    for text in ["", "+", "-1", "1x", "101", " 9 ", "007"] {
        let ours = parse_number(text, u8::MAX as u64);
        let std = text.trim().parse::<u8>();
        assert_eq!(ours.is_ok(), std.is_ok(), "{text}");
        if let (Ok(a), Ok(b)) = (ours, std) {
            assert_eq!(a, b as u64);
        }
    }
}

#[test]
fn number_error_messages() {
    assert_eq!(NumberError::Empty.message("端口"), "端口不是有效数字：cannot parse integer from empty string");
    let error = FieldError { field: NumberField::TailLines, error: NumberError::InvalidDigit };
    assert_eq!(error.message(), "界面日志行数不是有效数字：invalid digit found in string");
    let error = FieldError { field: NumberField::ListenerPort, error: NumberError::TooLarge };
    assert_eq!(error.message(), "监听端口不是有效数字：number too large to fit in target type");
}

#[test]
fn global_form_is_applied() {
    let mut config = AppConfig::for_machine(None);
    commit_global_fields(&mut config, &form()).unwrap();
    assert_eq!(config.server.netbios_name, "NAS");
    assert_eq!(config.server.workgroup, "HOME");
    assert_eq!(config.server.authentication, AuthenticationMode::IntegratedWindows);
    assert!(!config.server.enable_smb3);
    assert_eq!(config.server.inactivity_timeout_seconds, 600);
    assert_eq!(config.server.allow_remote_subnets, vec!["10.0.0.0/8".to_string(), "192.168.0.0/16".to_string()]);
    assert!(config.server.reject_remote_subnets.is_empty());
    assert!(config.app.start_with_windows);
    assert!(!config.app.close_to_tray);
    assert_eq!(config.logging.level, LogLevel::Debug);
    assert_eq!(config.logging.max_file_mib, 16);
    assert_eq!(config.logging.retained_files, 5);
    assert_eq!(config.logging.gui_tail_lines, 1000);
    assert_eq!(config.listeners.len(), 2);
}

#[test]
fn first_bad_number_is_reported_and_nothing_changes() {
    let mut config = AppConfig::for_machine(None);
    let before = config.clone();
    let mut bad = form();
    bad.retained_files = "many".into();
    bad.gui_tail_lines = "".into();
    let error = commit_global_fields(&mut config, &bad).unwrap_err();
    assert_eq!(error, FieldError { field: NumberField::RetainedFiles, error: NumberError::InvalidDigit });
    assert_eq!(config, before);
    let mut bad = form();
    bad.max_file_mib = "4294967296".into();
    let error = commit_global_fields(&mut config, &bad).unwrap_err();
    assert_eq!(error.field, NumberField::MaxFileSize);
    assert_eq!(error.error, NumberError::TooLarge);
}

#[test]
fn selections_default() {
    let mut config = AppConfig::for_machine(None);
    let mut f = form();
    f.authentication_selection = None;
    f.log_level_selection = None;
    commit_global_fields(&mut config, &f).unwrap();
    assert_eq!(config.server.authentication, AuthenticationMode::Independent);
    assert_eq!(config.logging.level, LogLevel::Information);
}

#[test]
fn listeners_from_the_editor() {
    let f = ListenerForm {
        id: "  lan ".into(),
        address: " 192.168.1.2 ".into(),
        port: "139".into(),
        transport_selection: Some(1),
        netbios_name_service: true,
        enabled: false,
    };
    let item = listener_from_form(&f).unwrap();
    assert_eq!(item.id, "lan");
    assert_eq!(item.address, "192.168.1.2");
    assert_eq!(item.port, 139);
    assert_eq!(item.transport, Transport::NetbiosOverTcp);
    assert!(item.netbios_name_service && !item.enabled);
    let blank = ListenerForm { id: " ".into(), port: "445".into(), transport_selection: None, ..f.clone() };
    let item = listener_from_form(&blank).unwrap();
    assert!(item.id.starts_with("listener-"));
    assert_eq!(item.transport, Transport::DirectTcp);
    let bad = ListenerForm { port: "70000".into(), ..f };
    assert_eq!(listener_from_form(&bad).unwrap_err(), FieldError { field: NumberField::ListenerPort, error: NumberError::TooLarge });
}

#[test]
fn shares_from_the_editor() {
    let f = ShareForm {
        id: "".into(),
        name: " data ".into(),
        path: r" D:\Data ".into(),
        comment: " team ".into(),
        read_access: "Users".into(),
        write_access: "bob, alice".into(),
        enabled: true,
        hidden: true,
        read_only: false,
    };
    let share = share_from_form(&f).unwrap();
    assert!(share.id.starts_with("share-"));
    assert_eq!(share.name, "data");
    assert_eq!(share.path, r"D:\Data");
    assert_eq!(share.comment, "team");
    assert_eq!(share.write_access, vec!["alice".to_string(), "bob".to_string()]);
    let no_name = ShareForm { name: "  ".into(), path: "".into(), ..f.clone() };
    assert_eq!(share_from_form(&no_name).unwrap_err(), ShareFormError::NameRequired);
    assert_eq!(ShareFormError::NameRequired.message(), "共享名不能为空");
    let no_path = ShareForm { path: " ".into(), ..f };
    assert_eq!(share_from_form(&no_path).unwrap_err(), ShareFormError::PathRequired);
    assert_eq!(ShareFormError::PathRequired.message(), "共享路径不能为空");
}

#[test]
fn users_from_the_editor() {
    let users = vec![UserConfig { id: "U-1".into(), account_name: "alice".into(), enabled: true, protected_password: "blob".into() }];
    let keep = UserForm { id: " u-1 ".into(), account_name: " alice2 ".into(), password_given: false, enabled: false };
    let draft = draft_user(&keep, &users).unwrap();
    assert_eq!(draft.id, "u-1");
    assert_eq!(draft.account_name, "alice2");
    assert_eq!(draft.kept_password.as_deref(), Some("blob"));
    let user = draft.into_user("blob".into());
    assert_eq!(user.protected_password, "blob");
    let fresh = UserForm { id: "u-2".into(), account_name: "bob".into(), password_given: false, enabled: true };
    assert_eq!(draft_user(&fresh, &users).unwrap_err(), UserFormError::PasswordRequired);
    assert_eq!(UserFormError::PasswordRequired.message(), "新用户必须设置密码");
    let typed = UserForm { password_given: true, ..fresh.clone() };
    assert!(draft_user(&typed, &users).unwrap().kept_password.is_none());
    let nameless = UserForm { account_name: " ".into(), ..fresh };
    assert_eq!(draft_user(&nameless, &users).unwrap_err(), UserFormError::AccountNameRequired);
    assert_eq!(UserFormError::AccountNameRequired.message(), "账户名不能为空");
}

#[test]
fn upsert_replaces_by_identifier_ignoring_case() {
    let mut users = vec![
        UserConfig { id: "a".into(), ..UserConfig::default() },
        UserConfig { id: "B".into(), ..UserConfig::default() },
    ];
    assert_eq!(find_key(&users, "b"), Some(1));
    assert_eq!(find_key(&users, "c"), None);
    let replacement = UserConfig { id: "b".into(), account_name: "new".into(), ..UserConfig::default() };
    upsert(&mut users, replacement.clone());
    assert_eq!(users.len(), 2);
    assert_eq!(users[1], replacement);
    upsert(&mut users, replacement.clone());
    assert_eq!(users.len(), 2);
    let added = UserConfig { id: "c".into(), ..UserConfig::default() };
    upsert(&mut users, added.clone());
    assert_eq!(users.len(), 3);
    assert_eq!(users[2], added);
}

fn issue(severity: IssueSeverity, path: &str, message: &str) -> ConfigIssue {
    ConfigIssue { severity, path: path.into(), message: message.into() }
}

#[test]
fn save_reports() {
    let issues = vec![
        issue(IssueSeverity::Warning, "server.enable_smb1", "w"),
        issue(IssueSeverity::Error, "shares", "至少启用一个共享"),
        issue(IssueSeverity::Error, "users", "独立认证模式至少需要一个已启用用户"),
    ];
    assert_eq!(
        error_report(&issues).unwrap(),
        "配置存在错误：\n• shares：至少启用一个共享\n• users：独立认证模式至少需要一个已启用用户"
    );
    assert!(error_report(&vec![issue(IssueSeverity::Warning, "x", "y")]).is_none());
    assert_eq!(saved_message(&issues), "配置已保存（1 条警告）");
    assert_eq!(saved_message(&vec![]), "配置已保存");
}

#[test]
fn engine_accounts_and_placeholders() {
    let mut config = AppConfig::for_machine(None);
    config.users = vec![
        UserConfig { id: "1".into(), account_name: "alice".into(), enabled: true, protected_password: "p".into() },
        UserConfig { id: "2".into(), account_name: "bob".into(), enabled: false, protected_password: "p".into() },
        UserConfig { id: "3".into(), account_name: "carol".into(), enabled: true, protected_password: "p".into() },
    ];
    assert_eq!(engine_accounts(&config), vec![0, 2]);
    let users = redacted_users(&config);
    assert_eq!(users.len(), 2);
    assert_eq!(users[1].account_name, "carol");
    assert_eq!(users[0].password, DIAGNOSTIC_PASSWORD);
    assert_eq!(DIAGNOSTIC_PASSWORD, "__diagnostic_redacted__");
    let engine = assemble_engine_config(config.clone(), users);
    assert_eq!(engine.listeners, config.listeners);
    assert_eq!(engine.users.len(), 2);
    config.server.authentication = AuthenticationMode::IntegratedWindows;
    assert!(engine_accounts(&config).is_empty());
    assert_eq!(decrypt_failure_message("alice"), "无法解密用户 alice 的密码");
}

#[test]
fn blank_user_id_without_password_is_refused() {
    let users = vec![UserConfig { id: "u-1".into(), account_name: "alice".into(), enabled: true, protected_password: "blob".into() }];
    let form = UserForm { id: "  ".into(), account_name: "bob".into(), password_given: false, enabled: true };
    assert_eq!(draft_user(&form, &users).unwrap_err(), UserFormError::PasswordRequired);
}
