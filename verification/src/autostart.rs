//! Starting with Windows: the registry value that launches the program minimized at log-on, and
//! how the registry's answers are judged.
use vstd::prelude::*;
use vstd::string::*;

use crate::text::chars_of;

verus! {

/// The predefined `HKEY_CURRENT_USER` handle. Win32 defines it as the 32-bit value `0x80000001`
/// cast through a signed pointer-sized integer, so on 64-bit Windows it is sign extended.
pub const HKEY_CURRENT_USER: isize = -2147483647;

/// The access right to set a value of a registry key.
pub const KEY_SET_VALUE: u32 = 2;

/// The registry type of a string value.
pub const REG_SZ: u32 = 1;

/// The status of a registry call that succeeded.
pub const ERROR_SUCCESS: i32 = 0;

/// The status of a registry call on a value that does not exist.
pub const ERROR_FILE_NOT_FOUND: i32 = 2;

/// The key under which programs started at log-on are listed.
pub const RUN_KEY: &'static str = "Software\\Microsoft\\Windows\\CurrentVersion\\Run";

/// The name of this program's value under the run key.
pub const RUN_VALUE_NAME: &'static str = "Smbn";

/// `HKEY_CURRENT_USER` is `0x80000001` read as a signed 32-bit number and widened with its sign.
pub proof fn lemma_current_user_key_sign_extended()
    ensures
        HKEY_CURRENT_USER == ((0x8000_0001u32 as i32) as isize),
{
    assert(((0x8000_0001u32 as i32) as isize) == -2147483647isize) by (bit_vector);
}

/// The command registered to run at log-on: the quoted executable path and `--minimized`.
pub open spec fn autostart_command_text(executable: Seq<char>) -> Seq<char> {
    seq!['"'] + executable + "\" --minimized"@
}

/// The command registered to run at log-on.
pub fn autostart_command(executable: &str) -> (res: String)
    ensures
        res@ == autostart_command_text(executable@),
{
    let mut out = String::new();
    out.append("\"");
    out.append(executable);
    out.append("\" --minimized");
    proof {
        reveal_strlit("\"");
    }
    out
}

/// Whether opening the run key succeeded; otherwise the status is the error.
pub fn open_outcome(status: i32) -> (res: Result<(), i32>)
    ensures
        status == ERROR_SUCCESS ==> res == Ok::<(), i32>(()),
        status != ERROR_SUCCESS ==> res == Err::<(), i32>(status),
{
    if status == ERROR_SUCCESS {
        Ok(())
    } else {
        Err(status)
    }
}

/// Whether setting (`enabled`) or deleting the value succeeded. Deleting a value that is not
/// there counts as success; any other status is the error.
pub fn registry_outcome(enabled: bool, status: i32) -> (res: Result<(), i32>)
    ensures
        (status == ERROR_SUCCESS || (!enabled && status == ERROR_FILE_NOT_FOUND)) ==> res == Ok::<
            (),
            i32,
        >(()),
        !(status == ERROR_SUCCESS || (!enabled && status == ERROR_FILE_NOT_FOUND)) ==> res == Err::<
            (),
            i32,
        >(status),
{
    if status == ERROR_SUCCESS || (!enabled && status == ERROR_FILE_NOT_FOUND) {
        Ok(())
    } else {
        Err(status)
    }
}

/// The UTF-16 code units of one character.
pub open spec fn utf16_units(c: char) -> Seq<u16> {
    let v = c as u32 as nat;
    if v < 0x10000 {
        seq![v as u16]
    } else {
        seq![(0xD800 + (v - 0x10000) / 1024) as u16, (0xDC00 + (v - 0x10000) % 1024) as u16]
    }
}

/// The UTF-16 encoding of a string.
pub open spec fn utf16_of(s: Seq<char>) -> Seq<u16>
    decreases s.len(),
{
    if s.len() == 0 {
        Seq::empty()
    } else {
        utf16_of(s.drop_last()) + utf16_units(s.last())
    }
}

/// The UTF-16 encoding of `value` followed by a terminating zero, as Win32 calls take strings.
pub fn wide(value: &str) -> (res: Vec<u16>)
    ensures
        res@ == utf16_of(value@).push(0),
{
    let chars = chars_of(value);
    let mut out: Vec<u16> = Vec::new();
    let mut i: usize = 0;
    while i < chars.len()
        invariant
            i <= chars@.len(),
            out@ == utf16_of(chars@.take(i as int)),
        decreases chars@.len() - i,
    {
        let v: u32 = chars[i] as u32;
        assert(v <= 0x10FFFF) by {
            vstd::utf8::char_is_scalar(chars@[i as int]);
        }
        if v < 0x10000 {
            out.push(v as u16);
        } else {
            let w: u32 = v - 0x10000;
            out.push((0xD800 + w / 1024) as u16);
            out.push((0xDC00 + w % 1024) as u16);
        }
        assert(chars@.take(i + 1).drop_last() =~= chars@.take(i as int));
        i = i + 1;
        assert(out@ =~= utf16_of(chars@.take(i as int)));
    }
    assert(chars@.take(i as int) =~= chars@);
    out.push(0);
    out
}

} // verus!
