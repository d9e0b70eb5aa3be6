//! The conversation with PAM: which messages ask for a password, and the
//! prompt this program shows for it.
use vstd::prelude::*;

use crate::env::bytes_eq;
use crate::utils::fmt::{append_bytes, c_string, to_c_string};

verus! {

broadcast use vstd::string::group_string_axioms;

/// A message that asks for an answer that is not shown as it is typed.
pub const PAM_PROMPT_ECHO_OFF: i32 = 1;

/// A message that asks for an answer that is shown as it is typed.
pub const PAM_PROMPT_ECHO_ON: i32 = 2;

/// An error message to show.
pub const PAM_ERROR_MSG: i32 = 3;

/// A note to show.
pub const PAM_TEXT_INFO: i32 = 4;

/// A call succeeded.
pub const PAM_SUCCESS: i32 = 0;

/// The account is valid, but its authentication token has expired.
pub const PAM_NEW_AUTHTOK_REQD: i32 = 12;

/// The longest answer PAM takes, in bytes.
pub const PAM_MAX_RESP_SIZE: usize = 512;

/// The most bytes of the user's name and of the host's name that the prompt
/// shows.
pub const PROMPT_NAME_MAX: usize = 32;

/// What the conversation does with a message.
#[derive(Debug, Clone, Copy, PartialEq, Eq, Structural)]
pub enum ConvAction {
    /// Ask for a password.
    Prompt,
    /// Show the message.
    Show,
    /// The message is of no known style: the program ends.
    Invalid,
}

/// What the conversation does with a message of the given style.
pub fn conv_action(style: i32) -> (a: ConvAction)
    ensures
        (style == PAM_PROMPT_ECHO_OFF || style == PAM_PROMPT_ECHO_ON) ==> a == ConvAction::Prompt,
        (style == PAM_ERROR_MSG || style == PAM_TEXT_INFO) ==> a == ConvAction::Show,
        !(style == PAM_PROMPT_ECHO_OFF || style == PAM_PROMPT_ECHO_ON || style == PAM_ERROR_MSG
            || style == PAM_TEXT_INFO) ==> a == ConvAction::Invalid,
{
    if style == PAM_PROMPT_ECHO_OFF || style == PAM_PROMPT_ECHO_ON {
        ConvAction::Prompt
    } else if style == PAM_ERROR_MSG || style == PAM_TEXT_INFO {
        ConvAction::Show
    } else {
        ConvAction::Invalid
    }
}

/// What the account check's answer leads to.
#[derive(Debug, Clone, Copy, PartialEq, Eq, Structural)]
pub enum AccountStep {
    /// The account may be used.
    Valid,
    /// The expired token must be changed; the account may be used if that
    /// succeeds.
    RenewToken,
    /// The account may not be used.
    Refused,
}

/// What the account check's return code leads to.
pub fn account_step(code: i32) -> (s: AccountStep)
    ensures
        code == PAM_SUCCESS ==> s == AccountStep::Valid,
        code == PAM_NEW_AUTHTOK_REQD ==> s == AccountStep::RenewToken,
        code != PAM_SUCCESS && code != PAM_NEW_AUTHTOK_REQD ==> s == AccountStep::Refused,
{
    if code == PAM_SUCCESS {
        AccountStep::Valid
    } else if code == PAM_NEW_AUTHTOK_REQD {
        AccountStep::RenewToken
    } else {
        AccountStep::Refused
    }
}

/// Whether PAM asks with its plain password prompt (`Password:`, with or
/// without a trailing space), which this program replaces with its own.
pub fn is_password_prompt(prompt: &[u8]) -> (b: bool)
    ensures
        b == (prompt@ == vstd::utf8::encode_utf8("Password:"@) || prompt@
            == vstd::utf8::encode_utf8("Password: "@)),
{
    bytes_eq(prompt, "Password:".as_bytes()) || bytes_eq(prompt, "Password: ".as_bytes())
}

/// At most the first `PROMPT_NAME_MAX` bytes of a name.
pub open spec fn prompt_name(name: Seq<u8>) -> Seq<u8> {
    if name.len() <= PROMPT_NAME_MAX {
        name
    } else {
        name.take(PROMPT_NAME_MAX as int)
    }
}

/// The prompt for the password, as a C string:
/// `doas (<user>@<host>) password: `, each name cut to its first
/// `PROMPT_NAME_MAX` bytes; `?` stands for a host name that could not be
/// read.
pub open spec fn spec_doas_prompt(name: Seq<u8>, hostname: Option<Seq<u8>>) -> Seq<u8> {
    c_string(
        vstd::utf8::encode_utf8("doas ("@) + prompt_name(name) + vstd::utf8::encode_utf8("@"@)
            + prompt_name(
            match hostname {
                Some(h) => h,
                None => vstd::utf8::encode_utf8("?"@),
            },
        ) + vstd::utf8::encode_utf8(") password: "@),
    )
}

/// The bytes of an optional byte string.
pub open spec fn opt_bytes(h: Option<&[u8]>) -> Option<Seq<u8>> {
    match h {
        Some(x) => Some(x@),
        None => None,
    }
}

/// Builds the password prompt (see `spec_doas_prompt`).
pub fn doas_prompt(name: &[u8], hostname: Option<&[u8]>) -> (p: Vec<u8>)
    ensures
        p@ == spec_doas_prompt(name@, opt_bytes(hostname)),
{
    let mut buf: Vec<u8> = Vec::new();
    append_bytes(&mut buf, "doas (".as_bytes());
    let n = if name.len() <= PROMPT_NAME_MAX {
        name.len()
    } else {
        PROMPT_NAME_MAX
    };
    let name_part = vstd::slice::slice_subrange(name, 0, n);
    assert(name_part@ =~= prompt_name(name@));
    append_bytes(&mut buf, name_part);
    append_bytes(&mut buf, "@".as_bytes());
    let host: &[u8] = match hostname {
        Some(h) => h,
        None => "?".as_bytes(),
    };
    let m = if host.len() <= PROMPT_NAME_MAX {
        host.len()
    } else {
        PROMPT_NAME_MAX
    };
    let host_part = vstd::slice::slice_subrange(host, 0, m);
    assert(host_part@ =~= prompt_name(host@));
    append_bytes(&mut buf, host_part);
    append_bytes(&mut buf, ") password: ".as_bytes());
    to_c_string(buf)
}

} // verus!
