use smbn::config::{ListenerConfig, LogLevel, ShareConfig, Transport, UserConfig};
use smbn::protocol::{DiagnosticCheck, EngineState, EngineStatus, SessionInfo};
use smbn::status::{
    close_action, exit_needs_confirmation, faulted_status, format_diagnostics, header_state, index_log_level,
    join_with, listener_row, log_level_index, monitor_summary, poll_plan, refreshes_monitor, session_row,
    share_row, state_is_active, state_label, status_detail, tray_tip, user_row, yes_no, CloseAction,
};

fn check(severity: &str, name: &str, message: &str) -> DiagnosticCheck {
    DiagnosticCheck { severity: severity.into(), name: name.into(), message: message.into() }
}

#[test]
fn yes_and_no() {
    assert_eq!(yes_no(true), "是");
    assert_eq!(yes_no(false), "否");
}

#[test]
fn log_level_positions_round_trip() {
    let levels = [LogLevel::Error, LogLevel::Warning, LogLevel::Information, LogLevel::Debug, LogLevel::Verbose, LogLevel::Trace];
    for (i, level) in levels.iter().enumerate() {
        assert_eq!(log_level_index(*level), i);
        assert_eq!(index_log_level(i), *level);
    }
    assert_eq!(index_log_level(6), LogLevel::Information);
    assert_eq!(index_log_level(usize::MAX), LogLevel::Information);
}

#[test]
fn diagnostics_are_listed_with_markers() {
    let checks = vec![check("error", "端口", "被占用"), check("warning", "SMB1", "已启用"), check("info", "路径", "正常")];
    assert_eq!(
        format_diagnostics(&checks),
        "[错误] 端口\r\n被占用\r\n\r\n[警告] SMB1\r\n已启用\r\n\r\n[信息] 路径\r\n正常"
    );
    assert_eq!(format_diagnostics(&[]), "");
    assert_eq!(format_diagnostics(&[check("Error", "a", "b")]), "[信息] a\r\nb");
}

#[test]
fn state_names_and_activity() {
    assert_eq!(state_label(EngineState::Stopped), "未运行");
    assert_eq!(state_label(EngineState::Faulted), "故障");
    assert!(state_is_active(EngineState::Starting));
    assert!(state_is_active(EngineState::Stopping));
    assert!(!state_is_active(EngineState::Faulted));
    assert_eq!(header_state(true), "●  正在运行");
    assert_eq!(header_state(false), "○  未运行");
}

#[test]
fn running_status_lines() {
    let mut status = EngineStatus::default();
    status.state = EngineState::Running;
    status.listener_count = 2;
    status.share_count = 3;
    status.session_count = 4;
    status.open_file_count = 5;
    status.uptime_seconds = 90_061;
    status.engine_version = "1.2.0".into();
    status.smblibrary_version = "1.5".into();
    status.dropped_log_entries = 7;
    assert_eq!(status_detail(&status), "监听器 2  |  共享 3  |  会话 4  |  打开文件 5  |  运行 1天 01:01:01");
    assert_eq!(monitor_summary(&status), "状态：正在运行    引擎：1.2.0    SMBLibrary：1.5    丢弃日志：7");
    assert_eq!(tray_tip(&status), "SMBN - 正在运行\n监听器:2  会话:4  打开文件:5");
}

#[test]
fn faulted_status_lines() {
    let status = faulted_status("SMB 引擎尚未启动".to_string());
    assert_eq!(status.state, EngineState::Faulted);
    assert_eq!(status_detail(&status), "故障：SMB 引擎尚未启动");
    let stopped = EngineStatus::default();
    assert_eq!(status_detail(&stopped), "未运行");
}

#[test]
fn status_timer_plans() {
    let plan = poll_plan(3, true, true, false);
    assert_eq!(plan.tick, 4);
    assert!(plan.hidden_light);
    assert!(plan.skip);
    let plan = poll_plan(4, true, true, false);
    assert!(!plan.skip);
    assert!(!poll_plan(3, true, true, true).skip);
    assert!(!poll_plan(3, false, true, false).skip);
    assert_eq!(poll_plan(u32::MAX, false, false, false).tick, 0);
    assert!(refreshes_monitor(false, true, 0));
    assert!(refreshes_monitor(false, false, 5));
    assert!(!refreshes_monitor(false, false, 2));
    assert!(!refreshes_monitor(true, true, 5));
}

#[test]
fn closing_and_exiting() {
    assert_eq!(close_action(true, true), CloseAction::StopDispatch);
    assert_eq!(close_action(false, true), CloseAction::HideToTray);
    assert_eq!(close_action(false, false), CloseAction::RequestExit);
    assert!(exit_needs_confirmation(EngineState::Running, true));
    assert!(!exit_needs_confirmation(EngineState::Running, false));
    assert!(!exit_needs_confirmation(EngineState::Stopped, true));
}

#[test]
fn list_rows() {
    let mut listener = ListenerConfig::ipv4_default();
    listener.transport = Transport::NetbiosOverTcp;
    assert_eq!(listener_row(&listener), vec!["是", "direct-ipv4", "0.0.0.0", "445", "NetBIOS/TCP", "否"]);
    let share = ShareConfig { name: "data".into(), path: r"C:\Data".into(), read_only: true, ..ShareConfig::default() };
    assert_eq!(share_row(&share), vec!["是", "data", r"C:\Data", "是", "否", ""]);
    let user = UserConfig { id: "u1".into(), account_name: "alice".into(), ..UserConfig::default() };
    assert_eq!(user_row(&user), vec!["是", "alice", "已加密保存", "u1"]);
    let session = SessionInfo { listener_id: "l".into(), open_file_count: 12, ..SessionInfo::default() };
    assert_eq!(session_row(&session), vec!["l", "", "", "", "", "12"]);
}

#[test]
fn joined_lines() {
    assert_eq!(join_with(&vec!["a".to_string(), "b".to_string()], "\r\n"), "a\r\nb");
    assert_eq!(join_with(&vec![], "\r\n"), "");
}
