//! The editing forms: how the texts and check boxes of the window become configuration, and what
//! the operator is told when they cannot.
use vstd::prelude::*;
use vstd::string::*;

use crate::config::{
    AppConfig, AuthenticationMode, EngineConfig, ListenerConfig, LogLevel, PlainUser, ShareConfig,
    Transport, UserConfig,
};
use crate::status::joined;
use crate::text::{decimal, decimal_string};
use crate::validation::{issues_view, ConfigIssue, IssueSeverity, IssueView};
use crate::status::{index_log_level, level_at};
use crate::text::{ascii_lower, chars_equal, chars_of, lower_chars, string_from_chars, trim, trimmed};
use crate::util::{is_generated_id, is_principal_list, new_id, parse_principals, principal_tokens, strings_view};

verus! {

/// Why a text is not a number.
#[derive(Debug, Clone, Copy, PartialEq, Eq, Structural)]
pub enum NumberError {
    /// The text is empty once trimmed.
    Empty,
    /// A character is not a decimal digit.
    InvalidDigit,
    /// The number is larger than the field allows.
    TooLarge,
}

/// A decimal digit.
pub open spec fn is_digit(c: char) -> bool {
    '0' <= c <= '9'
}

/// The value of a decimal digit.
pub open spec fn digit_value(c: char) -> nat {
    ((c as u32) - 48) as nat
}

/// Reading the first `n` characters of `digits` left to right, as `str::parse` reads an unsigned
/// number: a character that is not a digit is refused, and so is a value that passes `max`.
pub open spec fn scan_digits(digits: Seq<char>, n: nat, max: nat) -> Result<nat, NumberError>
    decreases n,
{
    if n == 0 {
        Ok(0)
    } else {
        match scan_digits(digits, (n - 1) as nat, max) {
            Err(e) => Err(e),
            Ok(v) => if !is_digit(digits[n - 1]) {
                Err(NumberError::InvalidDigit)
            } else if v * 10 + digit_value(digits[n - 1]) > max {
                Err(NumberError::TooLarge)
            } else {
                Ok(v * 10 + digit_value(digits[n - 1]))
            },
        }
    }
}

/// The number a field holds, at most `max`: the trimmed text, an optional `+`, then decimal
/// digits.
pub open spec fn number_verdict(text: Seq<char>, max: nat) -> Result<nat, NumberError> {
    let t = trim(text);
    let digits = if t.len() > 0 && t[0] == '+' {
        t.drop_first()
    } else {
        t
    };
    if t.len() == 0 {
        Err(NumberError::Empty)
    } else if digits.len() == 0 {
        Err(NumberError::InvalidDigit)
    } else {
        scan_digits(digits, digits.len(), max)
    }
}

/// The number a field holds, at most `max`.
pub fn parse_number(text: &str, max: u64) -> (res: Result<u64, NumberError>)
    ensures
        match number_verdict(text@, max as nat) {
            Ok(v) => res == Ok::<u64, NumberError>(v as u64),
            Err(e) => res == Err::<u64, NumberError>(e),
        },
{
    let t = trimmed(text);
    if t.len() == 0 {
        return Err(NumberError::Empty);
    }
    let start: usize = if t[0] == '+' {
        1
    } else {
        0
    };
    let ghost digits = t@.skip(start as int);
    assert(digits =~= if t@[0] == '+' {
        t@.drop_first()
    } else {
        t@
    });
    if start == t.len() {
        return Err(NumberError::InvalidDigit);
    }
    let mut value: u64 = 0;
    let mut i: usize = start;
    while i < t.len()
        invariant
            start <= i <= t@.len(),
            t@ == trim(text@),
            t@.len() > 0,
            start < t@.len(),
            digits == t@.skip(start as int),
            digits == (if t@[0] == '+' {
                t@.drop_first()
            } else {
                t@
            }),
            scan_digits(digits, (i - start) as nat, max as nat) == Ok::<nat, NumberError>(
                value as nat,
            ),
            value <= max,
        decreases t@.len() - i,
    {
        let c = t[i];
        assert(digits[(i - start) as int] == c);
        if !('0' <= c && c <= '9') {
            proof {
                lemma_scan_stops(digits, (i - start + 1) as nat, digits.len(), max as nat);
            }
            return Err(NumberError::InvalidDigit);
        }
        let d: u64 = (c as u32 - 48) as u64;
        if d > max || value > (max - d) / 10 {
            proof {
                assert(value * 10 + d > max) by (nonlinear_arith)
                    requires
                        d > max || value > (max - d) / 10,
                        d <= 9,
                ;
                lemma_scan_stops(digits, (i - start + 1) as nat, digits.len(), max as nat);
            }
            return Err(NumberError::TooLarge);
        }
        assert(value * 10 + d <= max) by (nonlinear_arith)
            requires
                d <= max,
                value <= (max - d) / 10,
        ;
        value = value * 10 + d;
        i = i + 1;
    }
    assert(i - start == digits.len());
    Ok(value)
}

/// Once reading stops at a character, reading further gives the same refusal.
proof fn lemma_scan_stops(digits: Seq<char>, n: nat, m: nat, max: nat)
    requires
        n <= m,
        scan_digits(digits, n, max) is Err,
    ensures
        scan_digits(digits, m, max) == scan_digits(digits, n, max),
    decreases m - n,
{
    if m > n {
        lemma_scan_stops(digits, n, (m - 1) as nat, max);
    }
}

impl NumberError {
    /// What the standard library says of this failure.
    pub open spec fn reason(self) -> Seq<char> {
        match self {
            NumberError::Empty => "cannot parse integer from empty string"@,
            NumberError::InvalidDigit => "invalid digit found in string"@,
            NumberError::TooLarge => "number too large to fit in target type"@,
        }
    }

    /// The message for the field labelled `label`: the label, `不是有效数字：` and the reason.
    pub fn message(&self, label: &str) -> (res: String)
        ensures
            res@ == label@ + "不是有效数字："@ + self.reason(),
    {
        let mut out = String::new();
        out.append(label);
        out.append("不是有效数字：");
        match self {
            NumberError::Empty => out.append("cannot parse integer from empty string"),
            NumberError::InvalidDigit => out.append("invalid digit found in string"),
            NumberError::TooLarge => out.append("number too large to fit in target type"),
        }
        out
    }
}


/// The number fields of the window.
#[derive(Debug, Clone, Copy, PartialEq, Eq, Structural)]
pub enum NumberField {
    InactivityTimeout,
    MaxFileSize,
    RetainedFiles,
    TailLines,
    ListenerPort,
}

impl NumberField {
    /// The label of the field as shown.
    pub open spec fn label_text(self) -> Seq<char> {
        match self {
            NumberField::InactivityTimeout => "空闲保活秒数"@,
            NumberField::MaxFileSize => "单文件日志上限"@,
            NumberField::RetainedFiles => "日志保留数量"@,
            NumberField::TailLines => "界面日志行数"@,
            NumberField::ListenerPort => "监听端口"@,
        }
    }

    /// The label of the field as shown.
    pub fn label(&self) -> (res: &'static str)
        ensures
            res@ == self.label_text(),
    {
        match self {
            NumberField::InactivityTimeout => "空闲保活秒数",
            NumberField::MaxFileSize => "单文件日志上限",
            NumberField::RetainedFiles => "日志保留数量",
            NumberField::TailLines => "界面日志行数",
            NumberField::ListenerPort => "监听端口",
        }
    }
}

/// A number field that does not hold a valid number.
#[derive(Debug, Clone, Copy, PartialEq, Eq, Structural)]
pub struct FieldError {
    pub field: NumberField,
    pub error: NumberError,
}

impl FieldError {
    /// The message shown for it.
    pub fn message(&self) -> (res: String)
        ensures
            res@ == self.field.label_text() + "不是有效数字："@ + self.error.reason(),
    {
        self.error.message(self.field.label())
    }
}

/// The values of the server, options and logging pages as entered.
#[derive(Debug, Clone)]
pub struct GlobalForm {
    pub netbios_name: String,
    pub workgroup: String,
    /// The selected entry of the authentication list (`1` is integrated Windows accounts).
    pub authentication_selection: Option<usize>,
    pub enable_smb1: bool,
    pub enable_smb2: bool,
    pub enable_smb3: bool,
    pub inactivity_timeout_seconds: String,
    pub allow_remote_subnets: String,
    pub reject_remote_subnets: String,
    pub start_with_windows: bool,
    pub start_server_on_launch: bool,
    pub minimize_to_tray: bool,
    pub close_to_tray: bool,
    pub light_mode: bool,
    pub confirm_exit_while_running: bool,
    /// The selected entry of the log level list.
    pub log_level_selection: Option<usize>,
    pub max_file_mib: String,
    pub retained_files: String,
    pub gui_tail_lines: String,
}

/// The four numbers of the global form, read in order; the first field that fails is reported.
pub open spec fn global_numbers(form: GlobalForm) -> Result<(nat, nat, nat, nat), FieldError> {
    match number_verdict(form.inactivity_timeout_seconds@, u64::MAX as nat) {
        Err(e) => Err(FieldError { field: NumberField::InactivityTimeout, error: e }),
        Ok(a) => match number_verdict(form.max_file_mib@, u32::MAX as nat) {
            Err(e) => Err(FieldError { field: NumberField::MaxFileSize, error: e }),
            Ok(b) => match number_verdict(form.retained_files@, u32::MAX as nat) {
                Err(e) => Err(FieldError { field: NumberField::RetainedFiles, error: e }),
                Ok(c) => match number_verdict(form.gui_tail_lines@, usize::MAX as nat) {
                    Err(e) => Err(FieldError { field: NumberField::TailLines, error: e }),
                    Ok(d) => Ok((a, b, c, d)),
                },
            },
        },
    }
}

/// The authentication mode of a selection: integrated Windows accounts for the second entry,
/// independent accounts otherwise.
pub open spec fn authentication_for(selection: Option<usize>) -> AuthenticationMode {
    if selection == Some(1usize) {
        AuthenticationMode::IntegratedWindows
    } else {
        AuthenticationMode::Independent
    }
}

/// The log level of a selection; no selection is the third entry, `Information`.
pub open spec fn log_level_for(selection: Option<usize>) -> LogLevel {
    match selection {
        Some(i) => level_at(i as nat),
        None => level_at(2),
    }
}

/// Whether `new` is `old` with the global form applied: texts trimmed, subnet lists read as
/// principal lists, numbers `numbers`, the other pages' fields unchanged.
pub open spec fn global_form_applied(
    old: AppConfig,
    form: GlobalForm,
    numbers: (nat, nat, nat, nat),
    new: AppConfig,
) -> bool {
    &&& new.version == old.version
    &&& new.listeners == old.listeners
    &&& new.shares == old.shares
    &&& new.users == old.users
    &&& new.server.netbios_name@ == trim(form.netbios_name@)
    &&& new.server.workgroup@ == trim(form.workgroup@)
    &&& new.server.authentication == authentication_for(form.authentication_selection)
    &&& new.server.enable_smb1 == form.enable_smb1
    &&& new.server.enable_smb2 == form.enable_smb2
    &&& new.server.enable_smb3 == form.enable_smb3
    &&& new.server.inactivity_timeout_seconds == numbers.0
    &&& is_principal_list(
        principal_tokens(form.allow_remote_subnets@),
        strings_view(new.server.allow_remote_subnets@),
    )
    &&& is_principal_list(
        principal_tokens(form.reject_remote_subnets@),
        strings_view(new.server.reject_remote_subnets@),
    )
    &&& new.app.start_with_windows == form.start_with_windows
    &&& new.app.start_server_on_launch == form.start_server_on_launch
    &&& new.app.minimize_to_tray == form.minimize_to_tray
    &&& new.app.close_to_tray == form.close_to_tray
    &&& new.app.light_mode == form.light_mode
    &&& new.app.confirm_exit_while_running == form.confirm_exit_while_running
    &&& new.app.language == old.app.language
    &&& new.logging.level == log_level_for(form.log_level_selection)
    &&& new.logging.max_file_mib == numbers.1
    &&& new.logging.retained_files == numbers.2
    &&& new.logging.gui_tail_lines == numbers.3
}

/// Each check box of the global form lands in its own field, whatever the other boxes say:
/// after the form is applied, every option and protocol flag of the configuration is the state
/// of the box of the same name.
pub proof fn lemma_global_form_check_boxes(
    old: AppConfig,
    form: GlobalForm,
    numbers: (nat, nat, nat, nat),
    new: AppConfig,
)
    requires
        global_form_applied(old, form, numbers, new),
    ensures
        new.app.start_with_windows == form.start_with_windows,
        new.app.start_server_on_launch == form.start_server_on_launch,
        new.app.minimize_to_tray == form.minimize_to_tray,
        new.app.close_to_tray == form.close_to_tray,
        new.app.light_mode == form.light_mode,
        new.app.confirm_exit_while_running == form.confirm_exit_while_running,
        new.server.enable_smb1 == form.enable_smb1,
        new.server.enable_smb2 == form.enable_smb2,
        new.server.enable_smb3 == form.enable_smb3,
{
}

/// Reads one number field.
fn read_number(text: &String, max: u64, field: NumberField) -> (res: Result<u64, FieldError>)
    ensures
        match number_verdict(text@, max as nat) {
            Ok(v) => res == Ok::<u64, FieldError>(v as u64),
            Err(e) => res == Err::<u64, FieldError>(FieldError { field, error: e }),
        },
{
    match parse_number(text.as_str(), max) {
        Ok(v) => Ok(v),
        Err(error) => Err(FieldError { field, error }),
    }
}

/// A string holding the trimmed `s`.
fn trimmed_string(s: &String) -> (res: String)
    ensures
        res@ == trim(s@),
{
    string_from_chars(&trimmed(s.as_str()))
}

/// Applies the global form to `config`. When a number field is not a valid number, the first
/// such field is reported and `config` is left unchanged.
pub fn commit_global_fields(config: &mut AppConfig, form: &GlobalForm) -> (res: Result<(), FieldError>)
    ensures
        match global_numbers(*form) {
            Err(e) => res == Err::<(), FieldError>(e) && *final(config) == *old(config),
            Ok(numbers) => res == Ok::<(), FieldError>(()) && global_form_applied(
                *old(config),
                *form,
                numbers,
                *final(config),
            ),
        },
        res is Ok ==> {
            &&& final(config).app.start_with_windows == form.start_with_windows
            &&& final(config).app.start_server_on_launch == form.start_server_on_launch
            &&& final(config).app.minimize_to_tray == form.minimize_to_tray
            &&& final(config).app.close_to_tray == form.close_to_tray
            &&& final(config).app.light_mode == form.light_mode
            &&& final(config).app.confirm_exit_while_running == form.confirm_exit_while_running
            &&& final(config).server.enable_smb1 == form.enable_smb1
            &&& final(config).server.enable_smb2 == form.enable_smb2
            &&& final(config).server.enable_smb3 == form.enable_smb3
        },
{
    let inactivity = match read_number(&form.inactivity_timeout_seconds, u64::MAX, NumberField::InactivityTimeout) {
        Ok(v) => v,
        Err(e) => return Err(e),
    };
    let max_file_mib = match read_number(&form.max_file_mib, u32::MAX as u64, NumberField::MaxFileSize) {
        Ok(v) => v,
        Err(e) => return Err(e),
    };
    let retained_files = match read_number(&form.retained_files, u32::MAX as u64, NumberField::RetainedFiles) {
        Ok(v) => v,
        Err(e) => return Err(e),
    };
    let gui_tail_lines = match read_number(&form.gui_tail_lines, usize::MAX as u64, NumberField::TailLines) {
        Ok(v) => v,
        Err(e) => return Err(e),
    };
    config.server.netbios_name = trimmed_string(&form.netbios_name);
    config.server.workgroup = trimmed_string(&form.workgroup);
    config.server.authentication = match form.authentication_selection {
        Some(1) => AuthenticationMode::IntegratedWindows,
        _ => AuthenticationMode::Independent,
    };
    config.server.enable_smb1 = form.enable_smb1;
    config.server.enable_smb2 = form.enable_smb2;
    config.server.enable_smb3 = form.enable_smb3;
    config.server.inactivity_timeout_seconds = inactivity;
    config.server.allow_remote_subnets = parse_principals(form.allow_remote_subnets.as_str());
    config.server.reject_remote_subnets = parse_principals(form.reject_remote_subnets.as_str());
    config.app.start_with_windows = form.start_with_windows;
    config.app.start_server_on_launch = form.start_server_on_launch;
    config.app.minimize_to_tray = form.minimize_to_tray;
    config.app.close_to_tray = form.close_to_tray;
    config.app.light_mode = form.light_mode;
    config.app.confirm_exit_while_running = form.confirm_exit_while_running;
    config.logging.level = index_log_level(
        match form.log_level_selection {
            Some(i) => i,
            None => 2,
        },
    );
    config.logging.max_file_mib = max_file_mib as u32;
    config.logging.retained_files = retained_files as u32;
    config.logging.gui_tail_lines = gui_tail_lines as usize;
    Ok(())
}


/// An item of a configuration list, found again by its identifier.
pub trait Keyed {
    /// The item's identifier.
    spec fn key_view(&self) -> Seq<char>;

    /// The item's identifier.
    fn key(&self) -> (res: &str)
        ensures
            res@ == self.key_view(),
    ;
}

impl Keyed for ListenerConfig {
    open spec fn key_view(&self) -> Seq<char> {
        self.id@
    }

    fn key(&self) -> (res: &str) {
        self.id.as_str()
    }
}

impl Keyed for ShareConfig {
    open spec fn key_view(&self) -> Seq<char> {
        self.id@
    }

    fn key(&self) -> (res: &str) {
        self.id.as_str()
    }
}

impl Keyed for UserConfig {
    open spec fn key_view(&self) -> Seq<char> {
        self.id@
    }

    fn key(&self) -> (res: &str) {
        self.id.as_str()
    }
}

/// Whether two identifiers are the same ignoring ASCII case.
pub open spec fn same_key(a: Seq<char>, b: Seq<char>) -> bool {
    ascii_lower(a) == ascii_lower(b)
}

/// The position of the first item whose identifier is `key` ignoring ASCII case, or -1.
pub open spec fn first_match<T: Keyed>(list: Seq<T>, key: Seq<char>) -> int
    decreases list.len(),
{
    if list.len() == 0 {
        -1
    } else {
        let r = first_match(list.drop_last(), key);
        if r >= 0 {
            r
        } else if same_key(list.last().key_view(), key) {
            list.len() - 1
        } else {
            -1
        }
    }
}

/// `list` with `item` put in place of the first item with its identifier, or added at the end.
pub open spec fn upserted<T: Keyed>(list: Seq<T>, item: T) -> Seq<T> {
    let i = first_match(list, item.key_view());
    if i < 0 {
        list.push(item)
    } else {
        list.update(i, item)
    }
}

/// What `first_match` finds: the first item with the key, or -1 when there is none.
pub proof fn lemma_first_match<T: Keyed>(list: Seq<T>, key: Seq<char>)
    ensures
        -1 <= first_match(list, key) < list.len(),
        first_match(list, key) >= 0 ==> same_key(list[first_match(list, key)].key_view(), key),
        forall|j: int|
            0 <= j < list.len() && (first_match(list, key) < 0 || j < first_match(list, key))
                ==> !same_key(#[trigger] list[j].key_view(), key),
    decreases list.len(),
{
    if list.len() > 0 {
        lemma_first_match(list.drop_last(), key);
        assert forall|j: int|
            0 <= j < list.len() && (first_match(list, key) < 0 || j < first_match(list, key))
                implies !same_key(#[trigger] list[j].key_view(), key) by {
            if j < list.len() - 1 {
                assert(list[j] == list.drop_last()[j]);
            }
        }
    }
}

/// The first item with a key is the one at `i` when it has the key and none before it does.
pub proof fn lemma_first_match_at<T: Keyed>(list: Seq<T>, key: Seq<char>, i: int)
    requires
        0 <= i < list.len(),
        same_key(list[i].key_view(), key),
        forall|j: int| 0 <= j < i ==> !same_key(#[trigger] list[j].key_view(), key),
    ensures
        first_match(list, key) == i,
{
    lemma_first_match(list, key);
    let r = first_match(list, key);
    if r < 0 || r > i {
    } else if r < i {
    }
}

/// Putting in an item twice is putting it in once.
pub proof fn lemma_upsert_idempotent<T: Keyed>(list: Seq<T>, item: T)
    ensures
        upserted(upserted(list, item), item) == upserted(list, item),
{
    let key = item.key_view();
    let once = upserted(list, item);
    lemma_first_match(list, key);
    let i = first_match(list, key);
    if i < 0 {
        assert forall|j: int| 0 <= j < list.len() implies !same_key(#[trigger] once[j].key_view(), key) by {
            assert(once[j] == list[j]);
        }
        lemma_first_match_at(once, key, list.len() as int);
        assert(once.update(list.len() as int, item) =~= once);
    } else {
        assert forall|j: int| 0 <= j < i implies !same_key(#[trigger] once[j].key_view(), key) by {
            assert(once[j] == list[j]);
        }
        lemma_first_match_at(once, key, i);
        assert(once.update(i, item) =~= once);
    }
}

/// After an item is put in, the first item with its identifier is that item, and the list grew
/// by one exactly when no item had that identifier.
pub proof fn lemma_upsert_finds_item<T: Keyed>(list: Seq<T>, item: T)
    ensures
        first_match(upserted(list, item), item.key_view()) >= 0,
        upserted(list, item)[first_match(upserted(list, item), item.key_view())] == item,
        upserted(list, item).len() == list.len() + if first_match(list, item.key_view()) < 0 {
            1int
        } else {
            0int
        },
{
    let key = item.key_view();
    let once = upserted(list, item);
    lemma_first_match(list, key);
    let i = first_match(list, key);
    if i < 0 {
        assert forall|j: int| 0 <= j < list.len() implies !same_key(#[trigger] once[j].key_view(), key) by {
            assert(once[j] == list[j]);
        }
        lemma_first_match_at(once, key, list.len() as int);
    } else {
        assert forall|j: int| 0 <= j < i implies !same_key(#[trigger] once[j].key_view(), key) by {
            assert(once[j] == list[j]);
        }
        lemma_first_match_at(once, key, i);
    }
}

/// The position of the first item of `list` whose identifier is `key` ignoring ASCII case.
pub fn find_key<T: Keyed>(list: &Vec<T>, key: &str) -> (res: Option<usize>)
    ensures
        match res {
            Some(i) => i < list@.len() && i as int == first_match(list@, key@),
            None => first_match(list@, key@) < 0,
        },
{
    let wanted = lower_chars(&chars_of(key));
    let mut i: usize = 0;
    while i < list.len()
        invariant
            i <= list@.len(),
            wanted@ == ascii_lower(key@),
            forall|j: int| 0 <= j < i ==> !same_key(#[trigger] list@[j].key_view(), key@),
        decreases list@.len() - i,
    {
        let candidate = lower_chars(&chars_of(list[i].key()));
        if chars_equal(&candidate, &wanted) {
            proof {
                lemma_first_match_at(list@, key@, i as int);
            }
            return Some(i);
        }
        i = i + 1;
    }
    proof {
        lemma_first_match(list@, key@);
    }
    None
}

/// Puts `item` in place of the first item with its identifier (ignoring ASCII case), or adds it
/// at the end when there is none.
pub fn upsert<T: Keyed>(list: &mut Vec<T>, item: T)
    ensures
        final(list)@ == upserted(old(list)@, item),
{
    match find_key(list, item.key()) {
        Some(i) => {
            list.set(i, item);
        },
        None => {
            list.push(item);
        },
    }
}


/// The identifier an item is given: the trimmed text, or a fresh identifier with `prefix` when
/// the text is blank.
pub open spec fn item_id(text: Seq<char>, prefix: Seq<char>, id: Seq<char>) -> bool {
    if trim(text).len() > 0 {
        id == trim(text)
    } else {
        is_generated_id(prefix, id)
    }
}

/// The trimmed identifier text, or a fresh identifier with `prefix` when it is blank.
fn id_or_new(text: &String, prefix: &str) -> (res: String)
    ensures
        item_id(text@, prefix@, res@),
{
    let id = trimmed_string(text);
    if id.as_str().is_empty() {
        new_id(prefix)
    } else {
        id
    }
}

/// The values of the listener editor as entered.
#[derive(Debug, Clone)]
pub struct ListenerForm {
    pub id: String,
    pub address: String,
    pub port: String,
    /// The selected entry of the transport list (`1` is NetBIOS over TCP).
    pub transport_selection: Option<usize>,
    pub netbios_name_service: bool,
    pub enabled: bool,
}

/// The transport of a selection: NetBIOS over TCP for the second entry, Direct TCP otherwise.
pub open spec fn transport_for(selection: Option<usize>) -> Transport {
    if selection == Some(1usize) {
        Transport::NetbiosOverTcp
    } else {
        Transport::DirectTcp
    }
}

/// The listener the editor describes; the port must be a number up to 65535.
pub fn listener_from_form(form: &ListenerForm) -> (res: Result<ListenerConfig, FieldError>)
    ensures
        match number_verdict(form.port@, 65535) {
            Err(e) => res == Err::<ListenerConfig, FieldError>(
                FieldError { field: NumberField::ListenerPort, error: e },
            ),
            Ok(port) => res matches Ok(item) && {
                &&& item_id(form.id@, "listener"@, item.id@)
                &&& item.address@ == trim(form.address@)
                &&& item.port == port
                &&& item.transport == transport_for(form.transport_selection)
                &&& item.netbios_name_service == form.netbios_name_service
                &&& item.enabled == form.enabled
            },
        },
{
    let id = id_or_new(&form.id, "listener");
    let address = trimmed_string(&form.address);
    let port = match read_number(&form.port, 65535, NumberField::ListenerPort) {
        Ok(p) => p as u16,
        Err(e) => return Err(e),
    };
    Ok(
        ListenerConfig {
            id,
            address,
            port,
            transport: match form.transport_selection {
                Some(1) => Transport::NetbiosOverTcp,
                _ => Transport::DirectTcp,
            },
            netbios_name_service: form.netbios_name_service,
            enabled: form.enabled,
        },
    )
}

/// The values of the share editor as entered.
#[derive(Debug, Clone)]
pub struct ShareForm {
    pub id: String,
    pub name: String,
    pub path: String,
    pub comment: String,
    pub read_access: String,
    pub write_access: String,
    pub enabled: bool,
    pub hidden: bool,
    pub read_only: bool,
}

/// Why the share editor does not describe a share.
#[derive(Debug, Clone, Copy, PartialEq, Eq, Structural)]
pub enum ShareFormError {
    NameRequired,
    PathRequired,
}

impl ShareFormError {
    /// The message shown for it.
    pub fn message(&self) -> (res: &'static str)
        ensures
            res@ == match *self {
                ShareFormError::NameRequired => "共享名不能为空"@,
                ShareFormError::PathRequired => "共享路径不能为空"@,
            },
    {
        match self {
            ShareFormError::NameRequired => "共享名不能为空",
            ShareFormError::PathRequired => "共享路径不能为空",
        }
    }
}

/// The share the editor describes: name and path are required, texts are trimmed, the access
/// lists are read as principal lists.
pub fn share_from_form(form: &ShareForm) -> (res: Result<ShareConfig, ShareFormError>)
    ensures
        trim(form.name@).len() == 0 ==> res == Err::<ShareConfig, ShareFormError>(
            ShareFormError::NameRequired,
        ),
        trim(form.name@).len() > 0 && trim(form.path@).len() == 0 ==> res == Err::<
            ShareConfig,
            ShareFormError,
        >(ShareFormError::PathRequired),
        trim(form.name@).len() > 0 && trim(form.path@).len() > 0 ==> (res matches Ok(item) && {
            &&& item_id(form.id@, "share"@, item.id@)
            &&& item.name@ == trim(form.name@)
            &&& item.path@ == trim(form.path@)
            &&& item.comment@ == trim(form.comment@)
            &&& item.enabled == form.enabled
            &&& item.hidden == form.hidden
            &&& item.read_only == form.read_only
            &&& is_principal_list(principal_tokens(form.read_access@), strings_view(item.read_access@))
            &&& is_principal_list(
                principal_tokens(form.write_access@),
                strings_view(item.write_access@),
            )
        }),
{
    let id = id_or_new(&form.id, "share");
    let name = trimmed_string(&form.name);
    let path = trimmed_string(&form.path);
    if name.as_str().is_empty() {
        return Err(ShareFormError::NameRequired);
    }
    if path.as_str().is_empty() {
        return Err(ShareFormError::PathRequired);
    }
    Ok(
        ShareConfig {
            id,
            name,
            path,
            comment: trimmed_string(&form.comment),
            enabled: form.enabled,
            hidden: form.hidden,
            read_only: form.read_only,
            read_access: parse_principals(form.read_access.as_str()),
            write_access: parse_principals(form.write_access.as_str()),
        },
    )
}

/// The values of the user editor as entered; the password itself stays with the caller, which
/// only says whether one was typed.
#[derive(Debug, Clone)]
pub struct UserForm {
    pub id: String,
    pub account_name: String,
    pub password_given: bool,
    pub enabled: bool,
}

/// Why the user editor does not describe a user.
#[derive(Debug, Clone, Copy, PartialEq, Eq, Structural)]
pub enum UserFormError {
    AccountNameRequired,
    PasswordRequired,
}

impl UserFormError {
    /// The message shown for it.
    pub fn message(&self) -> (res: &'static str)
        ensures
            res@ == match *self {
                UserFormError::AccountNameRequired => "账户名不能为空"@,
                UserFormError::PasswordRequired => "新用户必须设置密码"@,
            },
    {
        match self {
            UserFormError::AccountNameRequired => "账户名不能为空",
            UserFormError::PasswordRequired => "新用户必须设置密码",
        }
    }
}

/// A user about to be saved: its fields, and the stored password it keeps when no new password
/// was typed.
#[derive(Debug, Clone)]
pub struct UserDraft {
    pub id: String,
    pub account_name: String,
    pub enabled: bool,
    pub kept_password: Option<String>,
}

/// The user the editor describes. The account name is required. Without a typed password the
/// stored password of the user with the same identifier is kept; a new user needs a password.
pub fn draft_user(form: &UserForm, users: &Vec<UserConfig>) -> (res: Result<UserDraft, UserFormError>)
    ensures
        trim(form.account_name@).len() == 0 ==> res == Err::<UserDraft, UserFormError>(
            UserFormError::AccountNameRequired,
        ),
        trim(form.account_name@).len() > 0 ==> match res {
            Err(e) => {
                &&& e == UserFormError::PasswordRequired
                &&& !form.password_given
                &&& exists|id: Seq<char>|
                    #![trigger item_id(form.id@, "user"@, id)]
                    item_id(form.id@, "user"@, id) && first_match(users@, id) < 0
            },
            Ok(draft) => {
                &&& item_id(form.id@, "user"@, draft.id@)
                &&& draft.account_name@ == trim(form.account_name@)
                &&& draft.enabled == form.enabled
                &&& form.password_given ==> draft.kept_password is None
                &&& !form.password_given ==> ({
                    let i = first_match(users@, draft.id@);
                    &&& i >= 0
                    &&& draft.kept_password matches Some(p) && p@ == users@[i].protected_password@
                })
            },
        },
        trim(form.account_name@).len() > 0 && !form.password_given && trim(form.id@).len() > 0
            && first_match(users@, trim(form.id@)) >= 0 ==> res is Ok,
        trim(form.account_name@).len() > 0 && form.password_given ==> res is Ok,
{
    let id = id_or_new(&form.id, "user");
    let account_name = trimmed_string(&form.account_name);
    if account_name.as_str().is_empty() {
        return Err(UserFormError::AccountNameRequired);
    }
    let existing = find_key(users, id.as_str());
    proof {
        lemma_first_match(users@, id@);
    }
    let kept_password = if form.password_given {
        None
    } else {
        match existing {
            Some(i) => Some(users[i].protected_password.clone()),
            None => {
                assert(item_id(form.id@, "user"@, id@));
                return Err(UserFormError::PasswordRequired);
            },
        }
    };
    Ok(UserDraft { id, account_name, enabled: form.enabled, kept_password })
}

impl UserDraft {
    /// The user, with `protected_password` as its stored password.
    pub fn into_user(self, protected_password: String) -> (res: UserConfig)
        ensures
            res.id@ == self.id@,
            res.account_name@ == self.account_name@,
            res.enabled == self.enabled,
            res.protected_password@ == protected_password@,
    {
        UserConfig {
            id: self.id,
            account_name: self.account_name,
            enabled: self.enabled,
            protected_password,
        }
    }
}


/// How an error is listed when saving is refused: a bullet, the field's path, a colon and the
/// message.
pub open spec fn issue_line(issue: IssueView) -> Seq<char> {
    "• "@ + issue.1 + "："@ + issue.2
}

/// The lines of the errors among `issues`, in order.
pub open spec fn error_lines(issues: Seq<IssueView>) -> Seq<Seq<char>>
    decreases issues.len(),
{
    if issues.len() == 0 {
        Seq::empty()
    } else {
        let rest = error_lines(issues.drop_last());
        if issues.last().0 == IssueSeverity::Error {
            rest.push(issue_line(issues.last()))
        } else {
            rest
        }
    }
}

/// The number of warnings among `issues`.
pub open spec fn warning_count(issues: Seq<IssueView>) -> nat
    decreases issues.len(),
{
    if issues.len() == 0 {
        0
    } else {
        warning_count(issues.drop_last()) + if issues.last().0 == IssueSeverity::Warning {
            1nat
        } else {
            0nat
        }
    }
}

/// The report that refuses a configuration with errors: a heading, then one line per error.
/// There is none when the configuration has no error.
pub fn error_report(issues: &Vec<ConfigIssue>) -> (res: Option<String>)
    ensures
        error_lines(issues_view(issues@)).len() == 0 <==> res is None,
        res matches Some(text) ==> text@ == "配置存在错误：\n"@ + joined(
            error_lines(issues_view(issues@)),
            "\n"@,
        ),
{
    let mut body = String::new();
    let mut count: usize = 0;
    let mut i: usize = 0;
    while i < issues.len()
        invariant
            i <= issues@.len(),
            count == error_lines(issues_view(issues@.take(i as int))).len(),
            count <= i,
            body@ == joined(error_lines(issues_view(issues@.take(i as int))), "\n"@),
        decreases issues@.len() - i,
    {
        let issue = &issues[i];
        proof {
            assert(issues_view(issues@.take(i + 1)).drop_last() =~= issues_view(issues@.take(i as int)));
            assert(issues_view(issues@.take(i + 1)).last() == issue@);
        }
        if issue.severity == IssueSeverity::Error {
            if count > 0 {
                body.append("\n");
            }
            body.append("• ");
            body.append(issue.path.as_str());
            body.append("：");
            body.append(issue.message.as_str());
            count = count + 1;
            proof {
                let lines = error_lines(issues_view(issues@.take(i + 1)));
                assert(lines.drop_last() =~= error_lines(issues_view(issues@.take(i as int))));
                assert(body@ =~= joined(lines, "\n"@));
            }
        }
        i = i + 1;
    }
    assert(issues@.take(i as int) =~= issues@);
    if count == 0 {
        None
    } else {
        let mut text = String::new();
        text.append("配置存在错误：\n");
        text.append(body.as_str());
        Some(text)
    }
}

/// What the footer says after saving: how many warnings remain, if any.
pub open spec fn saved_text(warnings: nat) -> Seq<char> {
    if warnings == 0 {
        "配置已保存"@
    } else {
        "配置已保存（"@ + decimal(warnings) + " 条警告）"@
    }
}

/// What the footer says after saving a configuration with `issues`.
pub fn saved_message(issues: &Vec<ConfigIssue>) -> (res: String)
    ensures
        res@ == saved_text(warning_count(issues_view(issues@))),
{
    let mut warnings: usize = 0;
    let mut i: usize = 0;
    while i < issues.len()
        invariant
            i <= issues@.len(),
            warnings == warning_count(issues_view(issues@.take(i as int))),
            warnings <= i,
        decreases issues@.len() - i,
    {
        proof {
            assert(issues_view(issues@.take(i + 1)).drop_last() =~= issues_view(issues@.take(i as int)));
            assert(issues_view(issues@.take(i + 1)).last() == issues@[i as int]@);
        }
        if issues[i].severity == IssueSeverity::Warning {
            warnings = warnings + 1;
        }
        i = i + 1;
    }
    assert(issues@.take(i as int) =~= issues@);
    let mut out = String::new();
    if warnings == 0 {
        out.append("配置已保存");
    } else {
        out.append("配置已保存（");
        out.append(decimal_string(warnings as u64).as_str());
        out.append(" 条警告）");
    }
    out
}

/// The positions of the enabled users among the first `n`.
pub open spec fn enabled_positions(users: Seq<UserConfig>, n: nat) -> Seq<nat>
    decreases n,
{
    if n == 0 {
        Seq::empty()
    } else {
        let rest = enabled_positions(users, (n - 1) as nat);
        if users[n - 1].enabled {
            rest.push((n - 1) as nat)
        } else {
            rest
        }
    }
}

/// The users whose accounts the engine is given, by position: the enabled users, in order, when
/// the server uses independent accounts; none with integrated Windows accounts.
pub open spec fn engine_account_positions(config: AppConfig) -> Seq<nat> {
    if config.server.authentication == AuthenticationMode::Independent {
        enabled_positions(config.users@, config.users@.len())
    } else {
        Seq::empty()
    }
}

/// The positions, among the configured users, of the accounts the engine is given.
pub fn engine_accounts(config: &AppConfig) -> (res: Vec<usize>)
    ensures
        res@.map_values(|p: usize| p as nat) == engine_account_positions(*config),
        forall|j: int| 0 <= j < res@.len() ==> #[trigger] res@[j] < config.users@.len(),
{
    let mut out: Vec<usize> = Vec::new();
    if config.server.authentication != AuthenticationMode::Independent {
        assert(out@.map_values(|p: usize| p as nat) =~= engine_account_positions(*config));
        return out;
    }
    let mut i: usize = 0;
    while i < config.users.len()
        invariant
            i <= config.users@.len(),
            out@.map_values(|p: usize| p as nat) == enabled_positions(config.users@, i as nat),
            forall|j: int| 0 <= j < out@.len() ==> #[trigger] out@[j] < i,
        decreases config.users@.len() - i,
    {
        if config.users[i].enabled {
            out.push(i);
        }
        assert(out@.map_values(|p: usize| p as nat) =~= enabled_positions(config.users@, (i + 1) as nat));
        i = i + 1;
    }
    out
}

/// The password a diagnostics request carries in place of each real one, so that no secret
/// leaves the program for a diagnostic.
pub const DIAGNOSTIC_PASSWORD: &'static str = "__diagnostic_redacted__";

/// The accounts of a diagnostics request: each account the engine is given, with the
/// placeholder password.
pub fn redacted_users(config: &AppConfig) -> (res: Vec<PlainUser>)
    ensures
        res@.len() == engine_account_positions(*config).len(),
        forall|k: int|
            0 <= k < res@.len() ==> {
                &&& (#[trigger] res@[k]).account_name@ == config.users@[engine_account_positions(
                    *config,
                )[k] as int].account_name@
                &&& res@[k].password@ == DIAGNOSTIC_PASSWORD@
            },
{
    let positions = engine_accounts(config);
    let ghost pv = positions@.map_values(|p: usize| p as nat);
    let mut out: Vec<PlainUser> = Vec::new();
    let mut k: usize = 0;
    while k < positions.len()
        invariant
            k <= positions@.len(),
            pv == positions@.map_values(|p: usize| p as nat),
            pv == engine_account_positions(*config),
            forall|j: int| 0 <= j < positions@.len() ==> #[trigger] positions@[j] < config.users@.len(),
            out@.len() == k,
            forall|j: int|
                0 <= j < k ==> {
                    &&& (#[trigger] out@[j]).account_name@ == config.users@[pv[j] as int].account_name@
                    &&& out@[j].password@ == DIAGNOSTIC_PASSWORD@
                },
        decreases positions@.len() - k,
    {
        let p = positions[k];
        assert(pv[k as int] == p as nat);
        out.push(PlainUser { account_name: config.users[p].account_name.clone(), password: DIAGNOSTIC_PASSWORD.to_owned() });
        k = k + 1;
    }
    out
}

/// The start request's configuration: the server, listener, share and logging settings, and
/// the accounts with their passwords.
pub fn assemble_engine_config(config: AppConfig, users: Vec<PlainUser>) -> (res: EngineConfig)
    ensures
        res.server == config.server,
        res.listeners == config.listeners,
        res.shares == config.shares,
        res.users == users,
        res.logging == config.logging,
{
    EngineConfig {
        server: config.server,
        listeners: config.listeners,
        shares: config.shares,
        users,
        logging: config.logging,
    }
}

/// What is reported when the stored password of an account cannot be decrypted.
pub fn decrypt_failure_message(account_name: &str) -> (res: String)
    ensures
        res@ == "无法解密用户 "@ + account_name@ + " 的密码"@,
{
    let mut out = String::new();
    out.append("无法解密用户 ");
    out.append(account_name);
    out.append(" 的密码");
    out
}

} // verus!
