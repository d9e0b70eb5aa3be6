//! Reading a password from the terminal, key by key: what each key does to
//! the password typed so far and what is echoed back.
use vstd::prelude::*;

use crate::utils::array::Array;

verus! {

/// Backspace.
pub const BACKSPACE: u8 = 0x08;

/// Delete.
pub const DEL: u8 = 0x7f;

/// Ctrl-C: give up.
pub const CTRL_C: u8 = 0x03;

/// Ctrl-D: end of input.
pub const CTRL_D: u8 = 0x04;

/// Ctrl-U: erase the whole line.
pub const CTRL_U: u8 = 0x15;

/// Line feed.
pub const LF: u8 = 0x0a;

/// Carriage return.
pub const CR: u8 = 0x0d;

/// The star echoed for each typed character when feedback is on.
pub const STAR: u8 = 0x2a;

/// What erases one echoed star: back, space, back.
pub open spec fn clear_seq() -> Seq<u8> {
    seq![BACKSPACE, 0x20u8, BACKSPACE]
}

/// What erases `n` echoed stars.
pub open spec fn clear_n(n: nat) -> Seq<u8>
    decreases n,
{
    if n == 0 {
        Seq::empty()
    } else {
        clear_n((n - 1) as nat) + clear_seq()
    }
}

/// Whether a byte is an ASCII control character (`u8::is_ascii_control`).
pub open spec fn is_control(ch: u8) -> bool {
    ch < 0x20 || ch == DEL
}

/// What a key leads to.
#[derive(Debug, PartialEq, Eq)]
pub enum KeyOutcome {
    /// Keep reading; the bytes are echoed to the terminal first.
    Continue(Vec<u8>),
    /// The password is complete.
    Done,
    /// The user gave up: the program ends.
    Abort,
    /// The password does not fit.
    TooLong,
}

/// Whether reading goes on, echoing `bytes`.
pub open spec fn echoes(out: KeyOutcome, bytes: Seq<u8>) -> bool {
    match out {
        KeyOutcome::Continue(e) => e@ == bytes,
        _ => false,
    }
}

/// What a key does to the password typed so far (`old`, `new`) and what it
/// leads to. Enter, return and Ctrl-D finish; Ctrl-C gives up; Ctrl-U erases
/// all and backspace or delete the last character (when there is any);
/// any other byte that is not an ASCII control character is added, and a
/// password that would outgrow `cap` is refused; other keys do nothing.
/// With feedback on, each character shows as a star, and erased stars are
/// cleared.
pub open spec fn key_effect(
    old: Seq<u8>,
    new: Seq<u8>,
    cap: nat,
    pwfeedback: bool,
    ch: u8,
    out: KeyOutcome,
) -> bool {
    if ch == LF || ch == CR || ch == CTRL_D {
        out == KeyOutcome::Done && new == old
    } else if ch == CTRL_C {
        out == KeyOutcome::Abort && new == old
    } else if ch == CTRL_U && old.len() > 0 {
        new == Seq::<u8>::empty() && echoes(out, if pwfeedback {
            clear_n(old.len())
        } else {
            Seq::empty()
        })
    } else if (ch == BACKSPACE || ch == DEL) && old.len() > 0 {
        new == old.drop_last() && echoes(out, if pwfeedback {
            clear_seq()
        } else {
            Seq::empty()
        })
    } else if !is_control(ch) {
        if old.len() < cap {
            new == old.push(ch) && echoes(out, if pwfeedback {
                seq![STAR]
            } else {
                Seq::empty()
            })
        } else {
            out == KeyOutcome::TooLong && new == old
        }
    } else {
        new == old && echoes(out, Seq::<u8>::empty())
    }
}

/// A character typed and then erased with backspace or delete leaves the
/// password as it was.
pub proof fn law_erase_undoes_typing(
    before: Seq<u8>,
    mid: Seq<u8>,
    after: Seq<u8>,
    cap: nat,
    pwfeedback: bool,
    ch: u8,
    erase: u8,
    typed: KeyOutcome,
    erased: KeyOutcome,
)
    requires
        !is_control(ch),
        key_effect(before, mid, cap, pwfeedback, ch, typed),
        typed is Continue,
        erase == BACKSPACE || erase == DEL,
        key_effect(mid, after, cap, pwfeedback, erase, erased),
    ensures
        after == before,
{
    assert(mid == before.push(ch));
    assert(before.push(ch).drop_last() =~= before);
}

/// Ctrl-U leaves no character of the password.
pub proof fn law_ctrl_u_clears(before: Seq<u8>, after: Seq<u8>, cap: nat, pwfeedback: bool, out: KeyOutcome)
    requires
        key_effect(before, after, cap, pwfeedback, CTRL_U, out),
    ensures
        after.len() == 0,
{
}

/// The bytes that erase `n` echoed stars.
fn clear_bytes(n: usize) -> (r: Vec<u8>)
    ensures
        r@ == clear_n(n as nat),
{
    let mut r: Vec<u8> = Vec::new();
    let mut i: usize = 0;
    while i < n
        invariant
            i <= n,
            r@ == clear_n(i as nat),
        decreases n - i,
    {
        r.push(BACKSPACE);
        r.push(0x20);
        r.push(BACKSPACE);
        assert(r@ =~= clear_n(i as nat) + clear_seq());
        i = i + 1;
    }
    r
}

/// Handles one key of a password being typed into `buf` (see `key_effect`).
pub fn read_key<const N: usize>(buf: &mut Array<N, u8>, pwfeedback: bool, ch: u8) -> (out:
    KeyOutcome)
    requires
        old(buf).wf(),
    ensures
        final(buf).wf(),
        key_effect(old(buf)@, final(buf)@, N as nat, pwfeedback, ch, out),
{
    if ch == LF || ch == CR || ch == CTRL_D {
        KeyOutcome::Done
    } else if ch == CTRL_C {
        KeyOutcome::Abort
    } else if ch == CTRL_U && !buf.is_empty() {
        let echo = if pwfeedback {
            clear_bytes(buf.len())
        } else {
            Vec::new()
        };
        let _ = buf.clear();
        KeyOutcome::Continue(echo)
    } else if (ch == BACKSPACE || ch == DEL) && !buf.is_empty() {
        let echo = if pwfeedback {
            clear_bytes(1)
        } else {
            Vec::new()
        };
        let _ = buf.pop();
        assert(clear_n(1) =~= clear_seq()) by {
            assert(clear_n(0) + clear_seq() =~= clear_seq());
        }
        KeyOutcome::Continue(echo)
    } else if !(ch < 0x20 || ch == DEL) {
        match buf.push_checked(ch) {
            Ok(()) => {
                let mut echo: Vec<u8> = Vec::new();
                if pwfeedback {
                    echo.push(STAR);
                }
                assert(pwfeedback ==> echo@ =~= seq![STAR]);
                KeyOutcome::Continue(echo)
            },
            Err(_) => KeyOutcome::TooLong,
        }
    } else {
        KeyOutcome::Continue(Vec::new())
    }
}

/// Ends a complete password with a NUL byte, if it fits; otherwise the
/// password is too long.
pub fn finish_passwd<const N: usize>(buf: &mut Array<N, u8>) -> (r: Result<(), ()>)
    requires
        old(buf).wf(),
    ensures
        final(buf).wf(),
        old(buf)@.len() < N ==> r is Ok && final(buf)@ == old(buf)@.push(0),
        old(buf)@.len() >= N ==> r is Err && final(buf)@ == old(buf)@,
{
    match buf.push_checked(0) {
        Ok(()) => Ok(()),
        Err(_) => Err(()),
    }
}

/// What is written to the terminal when reading stops: the echoed stars
/// are cleared (with feedback on), then the line is ended.
pub fn closing_bytes(pwfeedback: bool, typed: usize) -> (r: Vec<u8>)
    ensures
        r@ == (if pwfeedback && typed > 0 {
            clear_n(typed as nat)
        } else {
            Seq::empty()
        }) + seq![CR, LF],
{
    let mut r = if pwfeedback && typed > 0 {
        clear_bytes(typed)
    } else {
        Vec::new()
    };
    let ghost before = r@;
    r.push(CR);
    r.push(LF);
    assert(r@ =~= before + seq![CR, LF]);
    r
}

} // verus!
