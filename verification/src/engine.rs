//! The client side of the engine connection: message framing, the checks a response must pass,
//! the names and secrets a launch is given, and what a failed start is reported as.
use vstd::prelude::*;
use vstd::string::*;

use crate::paths::EngineLaunch;
use crate::protocol::{EngineError, ResponseEnvelope, IPC_PROTOCOL_VERSION, MAX_IPC_MESSAGE_BYTES};
use crate::text::{chars_of, decimal, decimal_string, is_ascii_alnum, push_decimal, string_from_chars};
use crate::util::{has_random_suffix, random_alphanumeric, with_random_suffix};

verus! {

/// Why a request or its response was refused.
#[derive(Debug, Clone)]
pub enum IpcError {
    /// The serialised request is larger than the protocol allows.
    RequestTooLarge,
    /// The length prefix of a response is zero or larger than the protocol allows.
    InvalidResponseLength(u32),
    /// The response speaks another protocol version.
    VersionMismatch(u32),
    /// The response answers another request.
    IdMismatch { expected: u64, actual: u64 },
    /// The engine refused the request.
    Engine(EngineError),
    /// The engine refused the request without saying why.
    UnknownEngineError,
}

/// `value` as its four little-endian bytes.
pub open spec fn u32_le_bytes(value: nat) -> Seq<u8> {
    seq![
        (value % 256) as u8,
        ((value / 256) % 256) as u8,
        ((value / 65536) % 256) as u8,
        ((value / 16777216) % 256) as u8,
    ]
}

/// The number that four little-endian bytes hold.
pub open spec fn le_u32_value(bytes: Seq<u8>) -> nat
    recommends
        bytes.len() == 4,
{
    bytes[0] as nat + 256 * (bytes[1] as nat) + 65536 * (bytes[2] as nat) + 16777216 * (
    bytes[3] as nat)
}

/// A request body behind its length prefix.
pub open spec fn framed(body: Seq<u8>) -> Seq<u8> {
    u32_le_bytes(body.len()) + body
}

/// Whether a response length prefix is acceptable: not zero and within the protocol limit.
pub open spec fn response_length_ok(length: nat) -> bool {
    0 < length <= MAX_IPC_MESSAGE_BYTES
}

/// The four little-endian bytes of `value`.
fn u32_to_le(value: u32) -> (res: Vec<u8>)
    ensures
        res@ == u32_le_bytes(value as nat),
{
    let mut out: Vec<u8> = Vec::new();
    out.push((value % 256) as u8);
    out.push(((value / 256) % 256) as u8);
    out.push(((value / 65536) % 256) as u8);
    out.push(((value / 16777216) % 256) as u8);
    assert(out@ =~= u32_le_bytes(value as nat));
    out
}

/// The bytes sent for a request body: its length as four little-endian bytes, then the body.
/// A body over the protocol limit is refused.
pub fn frame_request(body: &Vec<u8>) -> (res: Result<Vec<u8>, IpcError>)
    ensures
        body@.len() > MAX_IPC_MESSAGE_BYTES ==> res matches Err(IpcError::RequestTooLarge),
        body@.len() <= MAX_IPC_MESSAGE_BYTES ==> (res matches Ok(bytes) && bytes@ == framed(body@)),
{
    if body.len() > MAX_IPC_MESSAGE_BYTES {
        return Err(IpcError::RequestTooLarge);
    }
    let mut out = u32_to_le(body.len() as u32);
    let mut i: usize = 0;
    while i < body.len()
        invariant
            i <= body@.len() <= MAX_IPC_MESSAGE_BYTES,
            out@ == u32_le_bytes(body@.len()) + body@.take(i as int),
        decreases body@.len() - i,
    {
        out.push(body[i]);
        i = i + 1;
        assert(out@ =~= u32_le_bytes(body@.len()) + body@.take(i as int));
    }
    assert(body@.take(i as int) =~= body@);
    Ok(out)
}

/// The body length announced by a response's four-byte prefix; a length of zero or over the
/// protocol limit is refused.
pub fn response_length(header: [u8; 4]) -> (res: Result<usize, IpcError>)
    ensures
        response_length_ok(le_u32_value(header@)) ==> res == Ok::<usize, IpcError>(
            le_u32_value(header@) as usize,
        ),
        !response_length_ok(le_u32_value(header@)) ==> (res matches Err(
            IpcError::InvalidResponseLength(n),
        ) && n == le_u32_value(header@)),
{
    let length: u32 = header[0] as u32 + 256 * (header[1] as u32) + 65536 * (header[2] as u32)
        + 16777216 * (header[3] as u32);
    if length == 0 || length as usize > MAX_IPC_MESSAGE_BYTES {
        Err(IpcError::InvalidResponseLength(length))
    } else {
        Ok(length as usize)
    }
}

/// Four little-endian bytes read back give the number they were written from.
pub proof fn lemma_le_bytes_roundtrip(value: nat)
    requires
        value < 4294967296,
    ensures
        le_u32_value(u32_le_bytes(value)) == value,
{
    let v = value as int;
    let q1 = v / 256;
    let q2 = v / 65536;
    let q3 = v / 16777216;
    vstd::arithmetic::div_mod::lemma_fundamental_div_mod(v, 256);
    vstd::arithmetic::div_mod::lemma_fundamental_div_mod(q1, 256);
    vstd::arithmetic::div_mod::lemma_fundamental_div_mod(q2, 256);
    vstd::arithmetic::div_mod::lemma_div_denominator(v, 256, 256);
    vstd::arithmetic::div_mod::lemma_div_denominator(v, 65536, 256);
    assert(q1 / 256 == q2);
    assert(q2 / 256 == q3);
    assert(q3 < 256);
    assert(q3 % 256 == q3);
}

/// A framed request announces exactly the length of its body, and a response prefix written the
/// same way is accepted exactly when that length is not zero and within the limit.
pub proof fn lemma_frame_announces_length(body: Seq<u8>)
    requires
        body.len() <= MAX_IPC_MESSAGE_BYTES,
    ensures
        le_u32_value(framed(body).take(4)) == body.len(),
        framed(body).skip(4) == body,
        response_length_ok(le_u32_value(framed(body).take(4))) <==> body.len() > 0,
{
    lemma_le_bytes_roundtrip(body.len());
    assert(framed(body).take(4) =~= u32_le_bytes(body.len()));
    assert(framed(body).skip(4) =~= body);
}

/// What a response is judged to be for the request numbered `expected_id`: the protocol version
/// is checked first, then the request number, then whether the engine succeeded.
pub open spec fn response_verdict(expected_id: u64, response: ResponseEnvelope) -> Result<
    (),
    IpcError,
> {
    if response.version != IPC_PROTOCOL_VERSION {
        Err(IpcError::VersionMismatch(response.version))
    } else if response.id != expected_id {
        Err(IpcError::IdMismatch { expected: expected_id, actual: response.id })
    } else if !response.ok {
        match response.error {
            Some(error) => Err(IpcError::Engine(error)),
            None => Err(IpcError::UnknownEngineError),
        }
    } else {
        Ok(())
    }
}

/// A copy of an engine error.
fn copy_engine_error(error: &EngineError) -> (res: EngineError)
    ensures
        res == *error,
{
    EngineError {
        code: error.code.clone(),
        message: error.message.clone(),
        detail: match &error.detail {
            Some(detail) => Some(detail.clone()),
            None => None,
        },
    }
}

/// Checks that a response answers the request numbered `expected_id` in this protocol version
/// and reports success.
pub fn validate_response(expected_id: u64, response: &ResponseEnvelope) -> (res: Result<
    (),
    IpcError,
>)
    ensures
        res == response_verdict(expected_id, *response),
{
    if response.version != IPC_PROTOCOL_VERSION {
        return Err(IpcError::VersionMismatch(response.version));
    }
    if response.id != expected_id {
        return Err(IpcError::IdMismatch { expected: expected_id, actual: response.id });
    }
    if !response.ok {
        return match &response.error {
            Some(error) => Err(IpcError::Engine(copy_engine_error(error))),
            None => Err(IpcError::UnknownEngineError),
        };
    }
    Ok(())
}

impl IpcError {
    /// The message shown for this error.
    pub open spec fn text(self) -> Seq<char> {
        match self {
            IpcError::RequestTooLarge => "IPC 请求超过 "@ + decimal(MAX_IPC_MESSAGE_BYTES as nat)
                + " 字节限制"@,
            IpcError::InvalidResponseLength(n) => "IPC 响应长度 "@ + decimal(n as nat) + " 无效"@,
            IpcError::VersionMismatch(v) => "引擎 IPC 版本不匹配: "@ + decimal(v as nat),
            IpcError::IdMismatch { expected, actual } => "IPC 响应 ID 不匹配: 预期 "@ + decimal(
                expected as nat,
            ) + "，收到 "@ + decimal(actual as nat),
            IpcError::Engine(e) => e.code@ + ": "@ + e.message@ + match e.detail {
                Some(d) => "\n"@ + d@,
                None => Seq::empty(),
            },
            IpcError::UnknownEngineError => "SMB 引擎返回未知错误"@,
        }
    }

    /// The message shown for this error.
    pub fn message(&self) -> (res: String)
        ensures
            res@ == self.text(),
    {
        let mut out = String::new();
        match self {
            IpcError::RequestTooLarge => {
                out.append("IPC 请求超过 ");
                out.append(decimal_string(MAX_IPC_MESSAGE_BYTES as u64).as_str());
                out.append(" 字节限制");
            },
            IpcError::InvalidResponseLength(n) => {
                out.append("IPC 响应长度 ");
                out.append(decimal_string(*n as u64).as_str());
                out.append(" 无效");
            },
            IpcError::VersionMismatch(v) => {
                out.append("引擎 IPC 版本不匹配: ");
                out.append(decimal_string(*v as u64).as_str());
            },
            IpcError::IdMismatch { expected, actual } => {
                out.append("IPC 响应 ID 不匹配: 预期 ");
                out.append(decimal_string(*expected).as_str());
                out.append("，收到 ");
                out.append(decimal_string(*actual).as_str());
            },
            IpcError::Engine(e) => {
                out.append(e.code.as_str());
                out.append(": ");
                out.append(e.message.as_str());
                match &e.detail {
                    Some(d) => {
                        out.append("\n");
                        out.append(d.as_str());
                    },
                    None => {},
                }
            },
            IpcError::UnknownEngineError => {
                out.append("SMB 引擎返回未知错误");
            },
        }
        proof {
            assert(out@ =~= self.text());
        }
        out
    }
}


/// The uppercase hexadecimal digit for `d` (below sixteen).
pub open spec fn hex_upper_digit(d: nat) -> char {
    if d < 10 {
        ((d + 48) as u8) as char
    } else {
        ((d + 55) as u8) as char
    }
}

/// The last `count` uppercase hexadecimal digits of `n`, with leading zeros.
pub open spec fn hex_digits(n: nat, count: nat) -> Seq<char>
    decreases count,
{
    if count == 0 {
        Seq::empty()
    } else {
        hex_digits(n / 16, (count - 1) as nat).push(hex_upper_digit(n % 16))
    }
}

/// The decimal representation of a signed number.
pub open spec fn signed_decimal(v: int) -> Seq<char> {
    if v < 0 {
        seq!['-'] + decimal((-v) as nat)
    } else {
        decimal(v as nat)
    }
}

/// The 32 bits of a signed 32-bit number read as unsigned.
pub open spec fn u32_bits(v: int) -> nat {
    if v < 0 {
        (v + 4294967296) as nat
    } else {
        v as nat
    }
}

/// How a process exit code is shown: in decimal, then its bits as eight hexadecimal digits.
pub open spec fn exit_code_text(code: int) -> Seq<char> {
    signed_decimal(code) + " (0x"@ + hex_digits(u32_bits(code), 8) + ")"@
}

/// Appends the last `count` hexadecimal digits of `n`.
fn push_hex_digits(out: &mut Vec<char>, n: u32, count: usize)
    ensures
        final(out)@ == old(out)@ + hex_digits(n as nat, count as nat),
    decreases count,
{
    if count == 0 {
        assert(old(out)@ + hex_digits(n as nat, 0) =~= old(out)@);
        return;
    }
    push_hex_digits(out, n / 16, count - 1);
    let d: u8 = (n % 16) as u8;
    let c: u8 = if d < 10 {
        d + 48
    } else {
        d + 55
    };
    out.push(c as char);
    proof {
        assert(hex_digits(n as nat, count as nat) == hex_digits((n / 16) as nat, (count - 1) as nat).push(
            hex_upper_digit((n % 16) as nat),
        ));
        assert(final(out)@ =~= old(out)@ + hex_digits(n as nat, count as nat));
    }
}

/// The text shown for a process exit code, such as `-1 (0xFFFFFFFF)`.
pub fn format_exit_code(code: i32) -> (res: String)
    ensures
        res@ == exit_code_text(code as int),
{
    let mut out: Vec<char> = Vec::new();
    let bits: u32 = if code < 0 {
        out.push('-');
        let magnitude: u64 = (0 - (code as i64)) as u64;
        push_decimal(&mut out, magnitude);
        ((code as i64) + 4294967296) as u32
    } else {
        push_decimal(&mut out, code as u64);
        code as u32
    };
    let ghost lead = out@;
    assert(lead == signed_decimal(code as int));
    out.push(' ');
    out.push('(');
    out.push('0');
    out.push('x');
    push_hex_digits(&mut out, bits, 8);
    out.push(')');
    proof {
        reveal_strlit(" (0x");
        reveal_strlit(")");
        assert(out@ =~= exit_code_text(code as int));
    }
    string_from_chars(&out)
}

/// Whether `pattern` occurs in `s`.
pub open spec fn contains_text(s: Seq<char>, pattern: Seq<char>) -> bool {
    exists|i: int| 0 <= i && i + pattern.len() <= s.len() && #[trigger] s.subrange(i, i + pattern.len()) == pattern
}

/// Whether `pattern` occurs in `s` at position `at`.
fn occurs_at(s: &Vec<char>, pattern: &Vec<char>, at: usize) -> (res: bool)
    requires
        at + pattern@.len() <= s@.len(),
    ensures
        res == (s@.subrange(at as int, at + pattern@.len()) == pattern@),
{
    let n = s.len();
    let mut k: usize = 0;
    while k < pattern.len()
        invariant
            n == s@.len(),
            k <= pattern@.len(),
            at + pattern@.len() <= s@.len(),
            forall|j: int| 0 <= j < k ==> s@[at + j] == pattern@[j],
        decreases pattern@.len() - k,
    {
        assert(at + k < s@.len());
        if s[at + k] != pattern[k] {
            assert(s@.subrange(at as int, at + pattern@.len())[k as int] != pattern@[k as int]);
            return false;
        }
        k = k + 1;
    }
    assert(s@.subrange(at as int, at + pattern@.len()) =~= pattern@);
    true
}

/// Whether `pattern` occurs in `s`.
pub fn contains_chars(s: &Vec<char>, pattern: &Vec<char>) -> (res: bool)
    ensures
        res == contains_text(s@, pattern@),
{
    if pattern.len() > s.len() {
        return false;
    }
    let last = s.len() - pattern.len();
    let mut at: usize = 0;
    loop
        invariant
            at <= last,
            last + pattern@.len() == s@.len(),
            forall|i: int| 0 <= i < at ==> #[trigger] s@.subrange(i, i + pattern@.len()) != pattern@,
        decreases last - at,
    {
        if occurs_at(s, pattern, at) {
            return true;
        }
        if at == last {
            return false;
        }
        at = at + 1;
    }
}

/// Whether a start-up log shows that the .NET runtime the engine needs is missing.
pub open spec fn lacks_runtime(log_tail: Seq<char>) -> bool {
    ||| contains_text(log_tail, "You must install or update .NET"@)
    ||| contains_text(log_tail, "The framework 'Microsoft.NETCore.App'"@)
    ||| contains_text(log_tail, "Failed to load hostfxr"@)
}

/// Whether a start-up log shows that the .NET runtime the engine needs is missing.
pub fn needs_runtime_hint(log_tail: &str) -> (res: bool)
    ensures
        res == lacks_runtime(log_tail@),
{
    let tail = chars_of(log_tail);
    let a = contains_chars(&tail, &chars_of("You must install or update .NET"));
    let b = contains_chars(&tail, &chars_of("The framework 'Microsoft.NETCore.App'"));
    let c = contains_chars(&tail, &chars_of("Failed to load hostfxr"));
    a || b || c
}

/// The advice added to a start-up failure when the .NET runtime is missing.
pub open spec fn runtime_hint_text() -> Seq<char> {
    "\n提示：此引擎包依赖系统 .NET 8 x64 Runtime。请改用自包含发布包，或安装匹配的 .NET 8 Runtime。"@
}

/// What is reported when the engine exits while starting: the exit status, the path of the
/// start-up log, the log's last lines when there are any, and the runtime advice when the log
/// shows the runtime is missing.
pub open spec fn startup_failure_text(status: Seq<char>, log_path: Seq<char>, log_tail: Seq<char>) -> Seq<char> {
    let hint = if lacks_runtime(log_tail) {
        runtime_hint_text()
    } else {
        Seq::empty()
    };
    let head = "SMB 引擎在初始化期间意外退出（退出状态："@ + status + "）。\n启动日志："@ + log_path;
    if log_tail.len() == 0 {
        head + hint
    } else {
        head + "\n"@ + log_tail + hint
    }
}

/// The report for an engine that exited while starting.
pub fn startup_failure_message(status: &str, log_path: &str, log_tail: &str) -> (res: String)
    ensures
        res@ == startup_failure_text(status@, log_path@, log_tail@),
{
    let mut out = String::new();
    out.append("SMB 引擎在初始化期间意外退出（退出状态：");
    out.append(status);
    out.append("）。\n启动日志：");
    out.append(log_path);
    if !log_tail.is_empty() {
        out.append("\n");
        out.append(log_tail);
    }
    if needs_runtime_hint(log_tail) {
        out.append("\n提示：此引擎包依赖系统 .NET 8 x64 Runtime。请改用自包含发布包，或安装匹配的 .NET 8 Runtime。");
    }
    proof {
        assert(out@ =~= startup_failure_text(status@, log_path@, log_tail@));
    }
    out
}

/// Whether `name` is the pipe name for process `pid`: `smbn-`, the process id, a hyphen and
/// twenty-four random lower-case letters or digits.
pub open spec fn is_pipe_name(pid: u32, name: Seq<char>) -> bool {
    has_random_suffix("smbn-"@ + decimal(pid as nat), name, 24)
}

/// A fresh pipe name for process `pid`.
pub fn pipe_name(pid: u32) -> (res: String)
    ensures
        is_pipe_name(pid, res@),
{
    let mut prefix = String::new();
    prefix.append("smbn-");
    prefix.append(decimal_string(pid as u64).as_str());
    with_random_suffix(prefix.as_str(), 24)
}

/// The path of the named pipe called `name`.
pub fn pipe_path(name: &str) -> (res: String)
    ensures
        res@ == "\\\\.\\pipe\\"@ + name@,
{
    let mut out = String::new();
    out.append("\\\\.\\pipe\\");
    out.append(name);
    out
}

/// A fresh secret the engine must present: sixty-four random ASCII letters or digits.
pub fn ipc_token() -> (res: String)
    ensures
        res@.len() == 64,
        forall|i: int| 0 <= i < 64 ==> is_ascii_alnum(#[trigger] res@[i]),
{
    random_alphanumeric(64)
}

/// The Windows error a pipe that is busy reports (`ERROR_PIPE_BUSY`).
pub const ERROR_PIPE_BUSY: i32 = 231;

/// Whether opening the pipe is tried again: the failure is one the engine may still clear (not
/// found, access denied, would block, or the pipe is busy) and the deadline has not passed.
pub fn should_retry_open(transient_kind: bool, raw_os_error: Option<i32>, before_deadline: bool) -> (res: bool)
    ensures
        res == ((transient_kind || raw_os_error == Some(ERROR_PIPE_BUSY)) && before_deadline),
{
    let busy = match raw_os_error {
        Some(code) => code == ERROR_PIPE_BUSY,
        None => false,
    };
    (transient_kind || busy) && before_deadline
}


/// The program that runs the engine: the executable itself, or `dotnet` for a library.
pub open spec fn launch_program_text(launch: (bool, Seq<char>)) -> Seq<char> {
    if launch.0 {
        "dotnet"@
    } else {
        launch.1
    }
}

/// The arguments the engine is started with: the library first when `dotnet` runs it, then the
/// pipe name, this process's id and the log directory.
pub open spec fn launch_arguments_text(
    launch: (bool, Seq<char>),
    pipe_name: Seq<char>,
    pid: u32,
    log_dir: Seq<char>,
) -> Seq<Seq<char>> {
    let common = seq!["--pipe"@, pipe_name, "--parent"@, decimal(pid as nat), "--log-dir"@, log_dir];
    if launch.0 {
        seq![launch.1] + common
    } else {
        common
    }
}

/// The program that runs the engine.
pub fn launch_program(launch: &EngineLaunch) -> (res: String)
    ensures
        res@ == launch_program_text(launch@),
{
    match launch {
        EngineLaunch::Executable(path) => path.clone(),
        EngineLaunch::DotnetDll(_) => "dotnet".to_owned(),
    }
}

/// The arguments the engine is started with.
pub fn launch_arguments(launch: &EngineLaunch, pipe_name: &str, pid: u32, log_dir: &str) -> (res:
    Vec<String>)
    ensures
        res@.map_values(|a: String| a@) == launch_arguments_text(launch@, pipe_name@, pid, log_dir@),
{
    let mut out: Vec<String> = Vec::new();
    match launch {
        EngineLaunch::DotnetDll(path) => out.push(path.clone()),
        EngineLaunch::Executable(_) => {},
    }
    out.push("--pipe".to_owned());
    out.push(pipe_name.to_owned());
    out.push("--parent".to_owned());
    out.push(decimal_string(pid as u64));
    out.push("--log-dir".to_owned());
    out.push(log_dir.to_owned());
    assert(out@.map_values(|a: String| a@) =~= launch_arguments_text(launch@, pipe_name@, pid, log_dir@));
    out
}

/// What is reported when no engine is found beside the program in `exe_dir`.
pub fn engine_missing_message(exe_dir: &str) -> (res: String)
    ensures
        res@ == "找不到 SMB 引擎。请将 Smbn.Engine.exe 或 Smbn.Engine.dll 放到 "@ + exe_dir@
            + " 或其 engine 子目录。"@,
{
    let mut out = String::new();
    out.append("找不到 SMB 引擎。请将 Smbn.Engine.exe 或 Smbn.Engine.dll 放到 ");
    out.append(exe_dir);
    out.append(" 或其 engine 子目录。");
    out
}


/// The id of the first request a new client sends.
pub const FIRST_REQUEST_ID: u64 = 1;

/// The counter after one request took its id: one more, wrapping at 2^64.
pub open spec fn counter_step(counter: u64) -> u64 {
    ((counter as int + 1) % 0x1_0000_0000_0000_0000int) as u64
}

/// The counter after `k` requests took their ids, starting from `start`.
pub open spec fn counter_after(start: u64, k: nat) -> u64
    decreases k,
{
    if k == 0 {
        start
    } else {
        counter_step(counter_after(start, (k - 1) as nat))
    }
}

/// Takes a request id from the counter: the id is the counter's value, and the counter moves on
/// by one, wrapping at 2^64 (what `fetch_add(1)` on an atomic counter does).
pub fn take_request_id(counter: u64) -> (res: (u64, u64))
    ensures
        res.0 == counter,
        res.1 == counter_step(counter),
{
    if counter == u64::MAX {
        (counter, 0)
    } else {
        (counter, counter + 1)
    }
}

/// The `k`-th request after the counter stood at `start` has id `start + k`, modulo 2^64.
pub proof fn lemma_counter_after(start: u64, k: nat)
    ensures
        counter_after(start, k) as int == (start as int + k) % 0x1_0000_0000_0000_0000int,
    decreases k,
{
    if k > 0 {
        lemma_counter_after(start, (k - 1) as nat);
        let m = 0x1_0000_0000_0000_0000int;
        let a = start as int + k - 1;
        vstd::arithmetic::div_mod::lemma_add_mod_noop(a, 1, m);
        vstd::arithmetic::div_mod::lemma_mod_bound(a, m);
        vstd::arithmetic::div_mod::lemma_small_mod(1, m as nat);
        vstd::arithmetic::div_mod::lemma_mod_twice(a, m);
        vstd::arithmetic::div_mod::lemma_add_mod_noop(a % m, 1, m);
    }
}

/// No two of 2^64 consecutive requests share an id.
pub proof fn lemma_request_ids_distinct(start: u64, i: nat, j: nat)
    requires
        i < j < 0x1_0000_0000_0000_0000int,
    ensures
        counter_after(start, i) != counter_after(start, j),
{
    lemma_counter_after(start, i);
    lemma_counter_after(start, j);
    let m = 0x1_0000_0000_0000_0000int;
    let a = start as int + i;
    let b = start as int + j;
    if a % m == b % m {
        vstd::arithmetic::div_mod::lemma_fundamental_div_mod(a, m);
        vstd::arithmetic::div_mod::lemma_fundamental_div_mod(b, m);
        vstd::arithmetic::div_mod::lemma_mod_bound(a, m);
        assert(m * (b / m) - m * (a / m) == b - a);
        vstd::arithmetic::mul::lemma_mul_is_distributive_sub(m, b / m, a / m);
        let q = b / m - a / m;
        assert(0 < m * q < m);
        assert(false) by (nonlinear_arith)
            requires
                m > 0,
                0 < m * q < m,
        ;
    }
}

/// Whether a call of `shutdown` still sends the request: only while no shutdown request has
/// been answered.
pub fn shutdown_needed(sent: bool) -> (res: bool)
    ensures
        res == !sent,
{
    !sent
}

/// Whether a shutdown request has been answered, after one more call of `shutdown` whose
/// request, if sent, was `answered` or not.
pub fn shutdown_recorded(sent: bool, answered: bool) -> (res: bool)
    ensures
        res == (sent || (!sent && answered)),
{
    sent || answered
}

/// Whether dropping the client first sends a shutdown request: while the engine process is
/// still running and no shutdown request has been answered.
pub fn shutdown_on_drop(exited: bool, sent: bool) -> (res: bool)
    ensures
        res == (!exited && !sent),
{
    !exited && !sent
}

/// How many shutdown requests are answered over calls of `shutdown` whose requests, where
/// sent, get the answers `answers`, starting with the flag at `sent`.
pub open spec fn answered_shutdowns(sent: bool, answers: Seq<bool>) -> nat
    decreases answers.len(),
{
    if answers.len() == 0 {
        0
    } else {
        let answered = !sent && answers[0];
        (if answered { 1nat } else { 0nat }) + answered_shutdowns(
            sent || (!sent && answers[0]),
            answers.drop_first(),
        )
    }
}

/// A client sends at most one shutdown request that the engine answers, whatever the answers
/// to its calls; none once one has been answered.
pub proof fn lemma_shutdown_once(sent: bool, answers: Seq<bool>)
    ensures
        answered_shutdowns(sent, answers) <= 1,
        sent ==> answered_shutdowns(sent, answers) == 0,
    decreases answers.len(),
{
    if answers.len() > 0 {
        lemma_shutdown_once(sent || (!sent && answers[0]), answers.drop_first());
        if !sent && answers[0] {
            lemma_shutdown_once(true, answers.drop_first());
        }
    }
}

/// What waiting for the engine to start does next.
#[derive(Debug, Clone, Copy, PartialEq, Eq, Structural)]
pub enum StartupStep {
    /// The deadline has passed: give up with the last request error, or a timeout.
    GiveUp,
    /// The engine process has exited: report the start-up failure.
    ReportExit,
    /// Ask the engine whether it is ready; on failure wait briefly and decide again.
    Ping,
}

/// The next step of waiting for the engine: give up once the deadline has passed, report an
/// exited engine, otherwise ping it.
pub fn startup_step(before_deadline: bool, exited: bool) -> (res: StartupStep)
    ensures
        !before_deadline ==> res == StartupStep::GiveUp,
        before_deadline && exited ==> res == StartupStep::ReportExit,
        before_deadline && !exited ==> res == StartupStep::Ping,
{
    if !before_deadline {
        StartupStep::GiveUp
    } else if exited {
        StartupStep::ReportExit
    } else {
        StartupStep::Ping
    }
}

/// What is reported when the deadline passes before any request was even tried.
pub fn startup_timeout_message() -> (res: &'static str)
    ensures
        res@ == "等待 SMB 引擎命名管道超时"@,
{
    "等待 SMB 引擎命名管道超时"
}

} // verus!
