use smbn::engine::{startup_step, startup_timeout_message, StartupStep};
use smbn::engine::{
    shutdown_needed, shutdown_on_drop, shutdown_recorded, take_request_id, FIRST_REQUEST_ID,
};
use smbn::engine::{
    contains_chars, engine_missing_message, format_exit_code, frame_request, ipc_token, launch_arguments,
    launch_program, needs_runtime_hint, pipe_name, pipe_path, response_length, should_retry_open,
    startup_failure_message, validate_response, IpcError,
};
use smbn::paths::EngineLaunch;
use smbn::protocol::{EngineError, ResponseEnvelope, MAX_IPC_MESSAGE_BYTES};

fn response(version: u32, id: u64, ok: bool, error: Option<EngineError>) -> ResponseEnvelope {
    ResponseEnvelope { version, id, ok, payload: serde_json::Value::Null, error }
}

#[test]
fn frames_carry_a_little_endian_length() {
    let framed = frame_request(&vec![7u8, 8, 9]).unwrap();
    assert_eq!(framed, vec![3u8, 0, 0, 0, 7, 8, 9]);
    let body = vec![1u8; 300];
    let framed = frame_request(&body).unwrap();
    assert_eq!(&framed[..4], &[44u8, 1, 0, 0]);
    assert_eq!(framed.len(), 304);
}

#[test]
fn oversized_requests_are_refused() {
    let body = vec![0u8; MAX_IPC_MESSAGE_BYTES + 1];
    let error = frame_request(&body).unwrap_err();
    assert!(matches!(error, IpcError::RequestTooLarge));
    assert_eq!(error.message(), "IPC 请求超过 8388608 字节限制");
    assert!(frame_request(&vec![0u8; MAX_IPC_MESSAGE_BYTES]).is_ok());
}

#[test]
fn response_lengths() {
    assert_eq!(response_length([3, 0, 0, 0]).unwrap(), 3);
    assert_eq!(response_length([0, 0, 128, 0]).unwrap(), MAX_IPC_MESSAGE_BYTES);
    let zero = response_length([0, 0, 0, 0]).unwrap_err();
    assert_eq!(zero.message(), "IPC 响应长度 0 无效");
    let big = response_length([1, 0, 128, 0]).unwrap_err();
    assert!(matches!(big, IpcError::InvalidResponseLength(8388609)));
}

#[test]
fn framed_length_reads_back() {
    let body = vec![5u8; 1000];
    let framed = frame_request(&body).unwrap();
    let header = [framed[0], framed[1], framed[2], framed[3]];
    assert_eq!(response_length(header).unwrap(), 1000);
}

#[test]
fn responses_are_checked_in_order() {
    assert!(validate_response(4, &response(1, 4, true, None)).is_ok());
    let version = validate_response(4, &response(2, 5, false, None)).unwrap_err();
    assert_eq!(version.message(), "引擎 IPC 版本不匹配: 2");
    let id = validate_response(4, &response(1, 5, true, None)).unwrap_err();
    assert_eq!(id.message(), "IPC 响应 ID 不匹配: 预期 4，收到 5");
    let unknown = validate_response(4, &response(1, 4, false, None)).unwrap_err();
    assert_eq!(unknown.message(), "SMB 引擎返回未知错误");
}

#[test]
fn engine_errors_are_reported_with_detail() {
    let error = EngineError { code: "bad_config".into(), message: "端口被占用".into(), detail: Some("445".into()) };
    let refused = validate_response(9, &response(1, 9, false, Some(error))).unwrap_err();
    assert_eq!(refused.message(), "bad_config: 端口被占用\n445");
    let error = EngineError { code: "x".into(), message: "y".into(), detail: None };
    let refused = validate_response(9, &response(1, 9, false, Some(error))).unwrap_err();
    assert_eq!(refused.message(), "x: y");
}

#[test]
fn exit_codes_show_decimal_and_hex() {
    assert_eq!(format_exit_code(0), "0 (0x00000000)");
    assert_eq!(format_exit_code(1), "1 (0x00000001)");
    assert_eq!(format_exit_code(-1), "-1 (0xFFFFFFFF)");
    assert_eq!(format_exit_code(-2147450751), "-2147450751 (0x80008081)");
    assert_eq!(format_exit_code(i32::MIN), "-2147483648 (0x80000000)");
    assert_eq!(format_exit_code(255), "255 (0x000000FF)");
}

#[test]
fn runtime_hint_detection() {
    assert!(needs_runtime_hint("error: You must install or update .NET to run this application."));
    assert!(needs_runtime_hint("The framework 'Microsoft.NETCore.App', version '8.0.0' was not found."));
    assert!(needs_runtime_hint("Failed to load hostfxr"));
    assert!(!needs_runtime_hint("Unhandled exception"));
    assert!(!needs_runtime_hint(""));
    assert!(contains_chars(&"abcabd".chars().collect(), &"abd".chars().collect()));
    assert!(!contains_chars(&"ab".chars().collect(), &"abc".chars().collect()));
}

#[test]
fn startup_failure_messages() {
    assert_eq!(
        startup_failure_message("1 (0x00000001)", r"C:\logs\engine-bootstrap.log", ""),
        "SMB 引擎在初始化期间意外退出（退出状态：1 (0x00000001)）。\n启动日志：C:\\logs\\engine-bootstrap.log"
    );
    assert_eq!(
        startup_failure_message("2", "log", "boom"),
        "SMB 引擎在初始化期间意外退出（退出状态：2）。\n启动日志：log\nboom"
    );
    assert_eq!(
        startup_failure_message("2", "log", "Failed to load hostfxr"),
        "SMB 引擎在初始化期间意外退出（退出状态：2）。\n启动日志：log\nFailed to load hostfxr\n提示：此引擎包依赖系统 .NET 8 x64 Runtime。请改用自包含发布包，或安装匹配的 .NET 8 Runtime。"
    );
}

#[test]
fn pipe_names_and_tokens() {
    let name = pipe_name(4321);
    assert!(name.starts_with("smbn-4321-"));
    assert_eq!(name.len(), "smbn-4321-".len() + 24);
    assert!(name["smbn-4321-".len()..].chars().all(|c| c.is_ascii_lowercase() || c.is_ascii_digit()));
    assert_eq!(pipe_path("smbn-1-abc"), r"\\.\pipe\smbn-1-abc");
    let token = ipc_token();
    assert_eq!(token.len(), 64);
    assert!(token.chars().all(|c| c.is_ascii_alphanumeric()));
}

#[test]
fn pipe_open_retries() {
    assert!(should_retry_open(true, None, true));
    assert!(should_retry_open(false, Some(231), true));
    assert!(!should_retry_open(false, Some(5), true));
    assert!(!should_retry_open(true, Some(231), false));
}

#[test]
fn launch_command_lines() {
    let exe = EngineLaunch::Executable(r"C:\app\Smbn.Engine.exe".into());
    assert_eq!(launch_program(&exe), r"C:\app\Smbn.Engine.exe");
    assert_eq!(
        launch_arguments(&exe, "smbn-1-x", 77, r"C:\data\logs"),
        vec!["--pipe", "smbn-1-x", "--parent", "77", "--log-dir", r"C:\data\logs"]
    );
    let dll = EngineLaunch::DotnetDll(r"C:\app\Smbn.Engine.dll".into());
    assert_eq!(launch_program(&dll), "dotnet");
    assert_eq!(
        launch_arguments(&dll, "p", 1, "l"),
        vec![r"C:\app\Smbn.Engine.dll", "--pipe", "p", "--parent", "1", "--log-dir", "l"]
    );
    assert_eq!(
        engine_missing_message(r"C:\app"),
        "找不到 SMB 引擎。请将 Smbn.Engine.exe 或 Smbn.Engine.dll 放到 C:\\app 或其 engine 子目录。"
    );
}

#[test]
fn startup_steps() {
    assert_eq!(startup_step(false, true), StartupStep::GiveUp);
    assert_eq!(startup_step(false, false), StartupStep::GiveUp);
    assert_eq!(startup_step(true, true), StartupStep::ReportExit);
    assert_eq!(startup_step(true, false), StartupStep::Ping);
    assert_eq!(startup_timeout_message(), "等待 SMB 引擎命名管道超时");
}

#[test]
fn request_ids_count_up_from_one_and_wrap() {
    assert_eq!(FIRST_REQUEST_ID, 1);
    let (first, next) = take_request_id(FIRST_REQUEST_ID);
    assert_eq!((first, next), (1, 2));
    let (second, after) = take_request_id(next);
    assert_eq!((second, after), (2, 3));
    assert_eq!(take_request_id(u64::MAX), (u64::MAX, 0));
}

#[test]
fn shutdown_is_sent_until_one_is_answered() {
    assert!(shutdown_needed(false));
    assert!(!shutdown_needed(true));
    assert!(!shutdown_recorded(false, false));
    assert!(shutdown_recorded(false, true));
    assert!(shutdown_recorded(true, false));
    let mut sent = false;
    let mut answered_requests = 0;
    for answer in [false, true, true, false, true] {
        if shutdown_needed(sent) {
            if answer {
                answered_requests += 1;
            }
            sent = shutdown_recorded(sent, answer);
        }
    }
    assert_eq!(answered_requests, 1);
}

#[test]
fn dropping_the_client_shuts_a_running_engine_down_once() {
    assert!(shutdown_on_drop(false, false));
    assert!(!shutdown_on_drop(true, false));
    assert!(!shutdown_on_drop(false, true));
    assert!(!shutdown_on_drop(true, true));
}
