//! What the window shows: the engine state, counters and diagnostics as text, list rows, and
//! the decisions of the status timer and of closing the window.
use vstd::prelude::*;
use vstd::string::*;

use crate::config::{ListenerConfig, LogLevel, ShareConfig, Transport, UserConfig};
use crate::protocol::{DiagnosticCheck, EngineState, EngineStatus, SessionInfo};
use crate::text::{chars_equal, chars_of, decimal, decimal_string};
use crate::util::{duration_text, format_duration};

verus! {

/// `是` for yes, `否` for no.
pub open spec fn yes_no_text(value: bool) -> Seq<char> {
    if value {
        "是"@
    } else {
        "否"@
    }
}

/// `是` for yes, `否` for no.
pub fn yes_no(value: bool) -> (res: &'static str)
    ensures
        res@ == yes_no_text(value),
{
    if value {
        "是"
    } else {
        "否"
    }
}

/// The position of a log level in the level list, from least to most verbose.
pub open spec fn level_index(level: LogLevel) -> nat {
    match level {
        LogLevel::Error => 0,
        LogLevel::Warning => 1,
        LogLevel::Information => 2,
        LogLevel::Debug => 3,
        LogLevel::Verbose => 4,
        LogLevel::Trace => 5,
    }
}

/// The log level at a position of the level list; any other position is `Information`.
pub open spec fn level_at(index: nat) -> LogLevel {
    if index == 0 {
        LogLevel::Error
    } else if index == 1 {
        LogLevel::Warning
    } else if index == 3 {
        LogLevel::Debug
    } else if index == 4 {
        LogLevel::Verbose
    } else if index == 5 {
        LogLevel::Trace
    } else {
        LogLevel::Information
    }
}

/// The position of a log level in the level list.
pub fn log_level_index(level: LogLevel) -> (res: usize)
    ensures
        res == level_index(level),
{
    match level {
        LogLevel::Error => 0,
        LogLevel::Warning => 1,
        LogLevel::Information => 2,
        LogLevel::Debug => 3,
        LogLevel::Verbose => 4,
        LogLevel::Trace => 5,
    }
}

/// The log level at a position of the level list; any other position gives `Information`.
pub fn index_log_level(index: usize) -> (res: LogLevel)
    ensures
        res == level_at(index as nat),
{
    match index {
        0 => LogLevel::Error,
        1 => LogLevel::Warning,
        3 => LogLevel::Debug,
        4 => LogLevel::Verbose,
        5 => LogLevel::Trace,
        _ => LogLevel::Information,
    }
}

/// Selecting a level's position gives the level back, and the positions of the list are the six
/// levels.
pub proof fn lemma_log_level_positions(level: LogLevel, index: nat)
    ensures
        level_at(level_index(level)) == level,
        level_index(level) <= 5,
        index <= 5 ==> level_index(level_at(index)) == index,
{
}

/// The marker of a diagnostic finding of severity `severity`.
pub open spec fn severity_marker(severity: Seq<char>) -> Seq<char> {
    if severity == "error"@ {
        "[错误]"@
    } else if severity == "warning"@ {
        "[警告]"@
    } else {
        "[信息]"@
    }
}

/// One finding as shown: its marker, its name, and its message on the next line.
pub open spec fn diagnostic_entry(check: DiagnosticCheck) -> Seq<char> {
    severity_marker(check.severity@) + " "@ + check.name@ + "\r\n"@ + check.message@
}

/// All findings as shown, separated by blank lines.
pub open spec fn diagnostics_text(checks: Seq<DiagnosticCheck>) -> Seq<char>
    decreases checks.len(),
{
    if checks.len() == 0 {
        Seq::empty()
    } else if checks.len() == 1 {
        diagnostic_entry(checks[0])
    } else {
        diagnostics_text(checks.drop_last()) + "\r\n\r\n"@ + diagnostic_entry(checks.last())
    }
}

/// The marker of a diagnostic finding.
fn marker_for(severity: &String) -> (res: &'static str)
    ensures
        res@ == severity_marker(severity@),
{
    let sev = chars_of(severity.as_str());
    if chars_equal(&sev, &chars_of("error")) {
        "[错误]"
    } else if chars_equal(&sev, &chars_of("warning")) {
        "[警告]"
    } else {
        "[信息]"
    }
}

/// The findings of a diagnostics run as shown.
pub fn format_diagnostics(checks: &[DiagnosticCheck]) -> (res: String)
    ensures
        res@ == diagnostics_text(checks@),
{
    let mut out = String::new();
    let mut i: usize = 0;
    while i < checks.len()
        invariant
            i <= checks@.len(),
            out@ == diagnostics_text(checks@.take(i as int)),
        decreases checks@.len() - i,
    {
        let item = &checks[i];
        if i > 0 {
            out.append("\r\n\r\n");
        }
        out.append(marker_for(&item.severity));
        out.append(" ");
        out.append(item.name.as_str());
        out.append("\r\n");
        out.append(item.message.as_str());
        proof {
            let prefix = checks@.take(i + 1);
            assert(prefix.drop_last() =~= checks@.take(i as int));
            assert(prefix.last() == checks@[i as int]);
            if i == 0 {
                assert(prefix.len() == 1);
                assert(prefix[0] == checks@[0]);
            }
            assert(out@ =~= diagnostics_text(prefix));
        }
        i = i + 1;
    }
    assert(checks@.take(i as int) =~= checks@);
    out
}

/// Whether the server is starting, running or stopping.
pub open spec fn is_active(state: EngineState) -> bool {
    state == EngineState::Starting || state == EngineState::Running || state == EngineState::Stopping
}

/// Whether the server is starting, running or stopping.
pub fn state_is_active(state: EngineState) -> (res: bool)
    ensures
        res == is_active(state),
{
    match state {
        EngineState::Starting | EngineState::Running | EngineState::Stopping => true,
        _ => false,
    }
}

/// The name of a state as shown.
pub open spec fn state_label_text(state: EngineState) -> Seq<char> {
    match state {
        EngineState::Stopped => "未运行"@,
        EngineState::Starting => "正在启动"@,
        EngineState::Running => "正在运行"@,
        EngineState::Stopping => "正在停止"@,
        EngineState::Faulted => "故障"@,
    }
}

/// The name of a state as shown.
pub fn state_label(state: EngineState) -> (res: &'static str)
    ensures
        res@ == state_label_text(state),
{
    match state {
        EngineState::Stopped => "未运行",
        EngineState::Starting => "正在启动",
        EngineState::Running => "正在运行",
        EngineState::Stopping => "正在停止",
        EngineState::Faulted => "故障",
    }
}

/// The headline: a filled dot while the server is active, an empty one otherwise.
pub open spec fn header_text(active: bool) -> Seq<char> {
    if active {
        "●  正在运行"@
    } else {
        "○  未运行"@
    }
}

/// The headline for the server's activity.
pub fn header_state(active: bool) -> (res: &'static str)
    ensures
        res@ == header_text(active),
{
    if active {
        "●  正在运行"
    } else {
        "○  未运行"
    }
}

/// The line under the headline: the counters and uptime while running, otherwise the state,
/// followed by the last error when there is one.
pub open spec fn status_detail_text(status: EngineStatus) -> Seq<char> {
    if status.state == EngineState::Running {
        "监听器 "@ + decimal(status.listener_count as nat) + "  |  共享 "@ + decimal(
            status.share_count as nat,
        ) + "  |  会话 "@ + decimal(status.session_count as nat) + "  |  打开文件 "@ + decimal(
            status.open_file_count as nat,
        ) + "  |  运行 "@ + duration_text(status.uptime_seconds as nat)
    } else {
        match status.last_error {
            Some(error) => state_label_text(status.state) + "："@ + error@,
            None => state_label_text(status.state),
        }
    }
}

/// The line under the headline.
pub fn status_detail(status: &EngineStatus) -> (res: String)
    ensures
        res@ == status_detail_text(*status),
{
    let mut out = String::new();
    if status.state == EngineState::Running {
        out.append("监听器 ");
        out.append(decimal_string(status.listener_count as u64).as_str());
        out.append("  |  共享 ");
        out.append(decimal_string(status.share_count as u64).as_str());
        out.append("  |  会话 ");
        out.append(decimal_string(status.session_count as u64).as_str());
        out.append("  |  打开文件 ");
        out.append(decimal_string(status.open_file_count as u64).as_str());
        out.append("  |  运行 ");
        out.append(format_duration(status.uptime_seconds).as_str());
    } else {
        out.append(state_label(status.state));
        match &status.last_error {
            Some(error) => {
                out.append("：");
                out.append(error.as_str());
            },
            None => {},
        }
    }
    out
}

/// The summary line of the monitor page: state, engine version, SMB library version, and the
/// number of dropped log entries.
pub open spec fn monitor_summary_text(status: EngineStatus) -> Seq<char> {
    "状态："@ + state_label_text(status.state) + "    引擎："@ + status.engine_version@
        + "    SMBLibrary："@ + status.smblibrary_version@ + "    丢弃日志："@ + decimal(
        status.dropped_log_entries as nat,
    )
}

/// The summary line of the monitor page.
pub fn monitor_summary(status: &EngineStatus) -> (res: String)
    ensures
        res@ == monitor_summary_text(*status),
{
    let mut out = String::new();
    out.append("状态：");
    out.append(state_label(status.state));
    out.append("    引擎：");
    out.append(status.engine_version.as_str());
    out.append("    SMBLibrary：");
    out.append(status.smblibrary_version.as_str());
    out.append("    丢弃日志：");
    out.append(decimal_string(status.dropped_log_entries).as_str());
    out
}

/// The tooltip of the tray icon: the state, then the listener, session and open file counts.
pub open spec fn tray_tip_text(status: EngineStatus) -> Seq<char> {
    "SMBN - "@ + state_label_text(status.state) + "\n监听器:"@ + decimal(
        status.listener_count as nat,
    ) + "  会话:"@ + decimal(status.session_count as nat) + "  打开文件:"@ + decimal(
        status.open_file_count as nat,
    )
}

/// The tooltip of the tray icon.
pub fn tray_tip(status: &EngineStatus) -> (res: String)
    ensures
        res@ == tray_tip_text(*status),
{
    let mut out = String::new();
    out.append("SMBN - ");
    out.append(state_label(status.state));
    out.append("\n监听器:");
    out.append(decimal_string(status.listener_count as u64).as_str());
    out.append("  会话:");
    out.append(decimal_string(status.session_count as u64).as_str());
    out.append("  打开文件:");
    out.append(decimal_string(status.open_file_count as u64).as_str());
    out
}

/// The status shown when the engine could not be asked: faulted, with `message` as the last
/// error, everything else at its default.
pub fn faulted_status(message: String) -> (res: EngineStatus)
    ensures
        res.state == EngineState::Faulted,
        res.last_error matches Some(e) && e@ == message@,
        res.started_at_utc is None,
        res.uptime_seconds == 0,
        res.listener_count == 0,
        res.share_count == 0,
        res.user_count == 0,
        res.session_count == 0,
        res.open_file_count == 0,
        res.engine_version@.len() == 0,
        res.smblibrary_version@.len() == 0,
        res.dropped_log_entries == 0,
{
    let mut status = EngineStatus::default();
    status.state = EngineState::Faulted;
    status.last_error = Some(message);
    status
}

/// The message of the status shown while no engine runs.
pub fn engine_not_started() -> (res: &'static str)
    ensures
        res@ == "SMB 引擎尚未启动"@,
{
    "SMB 引擎尚未启动"
}

/// What one tick of the status timer does: its new count, whether the window is hidden in light
/// mode, and whether the tick is skipped. Hidden in light mode, only every fifth tick asks the
/// engine, unless a full refresh is forced.
#[derive(Debug, Clone, Copy, PartialEq, Eq, Structural)]
pub struct PollPlan {
    pub tick: u32,
    pub hidden_light: bool,
    pub skip: bool,
}

/// The plan of the tick after `previous_tick`.
pub fn poll_plan(previous_tick: u32, hidden: bool, light_mode: bool, force_heavy: bool) -> (res:
    PollPlan)
    ensures
        res.tick == (previous_tick + 1) % 4294967296,
        res.hidden_light == (hidden && light_mode),
        res.skip == (hidden && light_mode && !force_heavy && res.tick % 5 != 0),
{
    let tick: u32 = if previous_tick == u32::MAX {
        0
    } else {
        previous_tick + 1
    };
    let hidden_light = hidden && light_mode;
    PollPlan { tick, hidden_light, skip: hidden_light && !force_heavy && tick % 5 != 0 }
}

/// The index of the monitor page among the tabs.
pub const MONITOR_TAB: usize = 5;

/// Whether sessions and log lines are fetched after a status: not while hidden in light mode,
/// and only when forced or while the monitor page is shown.
pub fn refreshes_monitor(hidden_light: bool, force_heavy: bool, selected_tab: usize) -> (res: bool)
    ensures
        res == (!hidden_light && (force_heavy || selected_tab == MONITOR_TAB)),
{
    !hidden_light && (force_heavy || selected_tab == MONITOR_TAB)
}

/// What closing the window does.
#[derive(Debug, Clone, Copy, PartialEq, Eq, Structural)]
pub enum CloseAction {
    /// The program is already exiting: stop the event loop.
    StopDispatch,
    /// Hide the window to the tray.
    HideToTray,
    /// Exit the program.
    RequestExit,
}

/// What closing the window does: stop when already exiting, hide when closing to the tray is
/// set, otherwise exit.
pub fn close_action(closing: bool, close_to_tray: bool) -> (res: CloseAction)
    ensures
        closing ==> res == CloseAction::StopDispatch,
        !closing && close_to_tray ==> res == CloseAction::HideToTray,
        !closing && !close_to_tray ==> res == CloseAction::RequestExit,
{
    if closing {
        CloseAction::StopDispatch
    } else if close_to_tray {
        CloseAction::HideToTray
    } else {
        CloseAction::RequestExit
    }
}

/// Whether exiting asks first: the server is active and asking is set.
pub fn exit_needs_confirmation(state: EngineState, confirm_exit_while_running: bool) -> (res: bool)
    ensures
        res == (is_active(state) && confirm_exit_while_running),
{
    state_is_active(state) && confirm_exit_while_running
}

/// The views of a row of cells.
pub open spec fn cells_view(cells: Seq<String>) -> Seq<Seq<char>> {
    cells.map_values(|c: String| c@)
}

/// A string holding `s`.
fn owned(s: &str) -> (res: String)
    ensures
        res@ == s@,
{
    s.to_owned()
}

/// The name of a transport as listed.
pub open spec fn transport_text(transport: Transport) -> Seq<char> {
    match transport {
        Transport::DirectTcp => "Direct TCP"@,
        Transport::NetbiosOverTcp => "NetBIOS/TCP"@,
    }
}

/// The row of a listener: enabled, id, address, port, transport, name service.
pub fn listener_row(item: &ListenerConfig) -> (res: Vec<String>)
    ensures
        cells_view(res@) == seq![
            yes_no_text(item.enabled),
            item.id@,
            item.address@,
            decimal(item.port as nat),
            transport_text(item.transport),
            yes_no_text(item.netbios_name_service),
        ],
{
    let mut row: Vec<String> = Vec::new();
    row.push(owned(yes_no(item.enabled)));
    row.push(item.id.clone());
    row.push(item.address.clone());
    row.push(decimal_string(item.port as u64));
    row.push(
        owned(
            match item.transport {
                Transport::DirectTcp => "Direct TCP",
                Transport::NetbiosOverTcp => "NetBIOS/TCP",
            },
        ),
    );
    row.push(owned(yes_no(item.netbios_name_service)));
    assert(cells_view(row@) =~= seq![
        yes_no_text(item.enabled),
        item.id@,
        item.address@,
        decimal(item.port as nat),
        transport_text(item.transport),
        yes_no_text(item.netbios_name_service),
    ]);
    row
}

/// The row of a share: enabled, name, path, read-only, hidden, comment.
pub fn share_row(item: &ShareConfig) -> (res: Vec<String>)
    ensures
        cells_view(res@) == seq![
            yes_no_text(item.enabled),
            item.name@,
            item.path@,
            yes_no_text(item.read_only),
            yes_no_text(item.hidden),
            item.comment@,
        ],
{
    let mut row: Vec<String> = Vec::new();
    row.push(owned(yes_no(item.enabled)));
    row.push(item.name.clone());
    row.push(item.path.clone());
    row.push(owned(yes_no(item.read_only)));
    row.push(owned(yes_no(item.hidden)));
    row.push(item.comment.clone());
    assert(cells_view(row@) =~= seq![
        yes_no_text(item.enabled),
        item.name@,
        item.path@,
        yes_no_text(item.read_only),
        yes_no_text(item.hidden),
        item.comment@,
    ]);
    row
}

/// The row of a user: enabled, account name, the note that the password is stored encrypted, id.
pub fn user_row(item: &UserConfig) -> (res: Vec<String>)
    ensures
        cells_view(res@) == seq![
            yes_no_text(item.enabled),
            item.account_name@,
            "已加密保存"@,
            item.id@,
        ],
{
    let mut row: Vec<String> = Vec::new();
    row.push(owned(yes_no(item.enabled)));
    row.push(item.account_name.clone());
    row.push(owned("已加密保存"));
    row.push(item.id.clone());
    assert(cells_view(row@) =~= seq![
        yes_no_text(item.enabled),
        item.account_name@,
        "已加密保存"@,
        item.id@,
    ]);
    row
}

/// The row of a session: listener, client, dialect, user, machine, open files.
pub fn session_row(item: &SessionInfo) -> (res: Vec<String>)
    ensures
        cells_view(res@) == seq![
            item.listener_id@,
            item.client_endpoint@,
            item.dialect@,
            item.user_name@,
            item.machine_name@,
            decimal(item.open_file_count as nat),
        ],
{
    let mut row: Vec<String> = Vec::new();
    row.push(item.listener_id.clone());
    row.push(item.client_endpoint.clone());
    row.push(item.dialect.clone());
    row.push(item.user_name.clone());
    row.push(item.machine_name.clone());
    row.push(decimal_string(item.open_file_count as u64));
    assert(cells_view(row@) =~= seq![
        item.listener_id@,
        item.client_endpoint@,
        item.dialect@,
        item.user_name@,
        item.machine_name@,
        decimal(item.open_file_count as nat),
    ]);
    row
}

/// `items` joined with `separator` between them.
pub open spec fn joined(items: Seq<Seq<char>>, separator: Seq<char>) -> Seq<char>
    decreases items.len(),
{
    if items.len() == 0 {
        Seq::empty()
    } else if items.len() == 1 {
        items[0]
    } else {
        joined(items.drop_last(), separator) + separator + items.last()
    }
}

/// `items` joined with `separator` between them.
pub fn join_with(items: &Vec<String>, separator: &str) -> (res: String)
    ensures
        res@ == joined(cells_view(items@), separator@),
{
    let mut out = String::new();
    let mut i: usize = 0;
    while i < items.len()
        invariant
            i <= items@.len(),
            out@ == joined(cells_view(items@.take(i as int)), separator@),
        decreases items@.len() - i,
    {
        if i > 0 {
            out.append(separator);
        }
        out.append(items[i].as_str());
        proof {
            let prefix = cells_view(items@.take(i + 1));
            assert(prefix.drop_last() =~= cells_view(items@.take(i as int)));
            assert(prefix.last() == items@[i as int]@);
            if i == 0 {
                assert(prefix.len() == 1);
            }
            assert(out@ =~= joined(prefix, separator@));
        }
        i = i + 1;
    }
    assert(items@.take(i as int) =~= items@);
    out
}

} // verus!
