//! What the system's tables say, read as plain values: user and group ids,
//! the process table's stat line, and random choices.
use vstd::prelude::*;
use vstd::slice::slice_subrange;

use crate::config::{find_char, first_index, lemma_first_index};
use crate::text::{chars_of, parse_uint, parse_unsigned, push_signed_decimal, push_str, signed_repr, string_of};
use crate::timestamp::ProcessInfo;

verus! {

/// The largest user id; a lookup that gives it is refused.
pub const UID_MAX: u32 = 65535;

/// The largest group id; a lookup that gives it is refused.
pub const GID_MAX: u32 = 65535;

// ---------------------------------------------------------------------------
// The stat line of a process

/// Where the last `") "` of a text starts, if it holds one.
pub open spec fn last_close(s: Seq<char>) -> Option<int>
    decreases s.len(),
{
    if s.len() < 2 {
        None
    } else if s[s.len() - 2] == ')' && s[s.len() - 1] == ' ' {
        Some(s.len() - 2)
    } else {
        last_close(s.drop_last())
    }
}

/// The last `") "` lies within the text.
pub proof fn lemma_last_close(s: Seq<char>)
    ensures
        last_close(s) matches Some(j) ==> 0 <= j && j + 2 <= s.len() && s[j] == ')' && s[j + 1]
            == ' ',
    decreases s.len(),
{
    if s.len() >= 2 && !(s[s.len() - 2] == ')' && s[s.len() - 1] == ' ') {
        lemma_last_close(s.drop_last());
    }
}

/// A text cut at each space (`str::split(' ')`): two neighbouring spaces
/// give an empty field, and a text without spaces is one field.
pub open spec fn fields(s: Seq<char>) -> Seq<Seq<char>>
    decreases s.len(),
{
    match first_index(s, ' ') {
        Some(i) => {
            proof {
                lemma_first_index(s, ' ');
            }
            seq![s.take(i)] + fields(s.skip(i + 1))
        },
        None => seq![s],
    }
}

/// Why a stat line could not be read.
#[derive(Debug, Clone, Copy, PartialEq, Eq, Structural)]
pub enum StatError {
    /// No `") "` closes the command name.
    NoCommand,
    /// The terminal number is missing or not a number.
    BadTty,
    /// The start time is missing or not a number.
    BadStartTime,
}

/// What a process's stat line tells: its controlling terminal (the seventh
/// field) and its start time (the twenty-second). The fields are counted
/// after the last `") "`, which ends the command name (the second field),
/// since the name itself may hold spaces and parentheses.
pub open spec fn stat_of(s: Seq<char>) -> Result<(u32, u64), StatError> {
    match last_close(s) {
        None => Err(StatError::NoCommand),
        Some(j) => {
            let f = fields(s.skip(j + 2));
            if f.len() < 5 || parse_unsigned(f[4], u32::MAX as nat) is None {
                Err(StatError::BadTty)
            } else if f.len() < 20 || parse_unsigned(f[19], u64::MAX as nat) is None {
                Err(StatError::BadStartTime)
            } else {
                Ok(
                    (
                        parse_unsigned(f[4], u32::MAX as nat).unwrap() as u32,
                        parse_unsigned(f[19], u64::MAX as nat).unwrap() as u64,
                    ),
                )
            }
        },
    }
}

/// Finds where the last `") "` of `s` starts.
fn find_last_close(s: &[char]) -> (r: Option<usize>)
    ensures
        r matches Some(j) ==> last_close(s@) == Some(j as int),
        r is None ==> last_close(s@) is None,
{
    let mut i: usize = s.len();
    proof {
        assert(s@.take(i as int) =~= s@);
    }
    while i >= 2
        invariant
            i <= s@.len(),
            last_close(s@) == last_close(s@.take(i as int)),
        decreases i,
    {
        if s[i - 2] == ')' && s[i - 1] == ' ' {
            return Some(i - 2);
        }
        assert(s@.take(i as int).drop_last() =~= s@.take(i - 1));
        i = i - 1;
    }
    None
}

/// Cuts a text at each space, as `fields` describes.
fn split_fields(s: &[char]) -> (r: Vec<Vec<char>>)
    ensures
        r@.map_values(|v: Vec<char>| v@) == fields(s@),
{
    let mut out: Vec<Vec<char>> = Vec::new();
    let mut start: usize = 0;
    proof {
        assert(s@.skip(0) =~= s@);
        assert(Seq::<Seq<char>>::empty() + fields(s@) =~= fields(s@));
    }
    loop
        invariant
            start <= s@.len(),
            out@.map_values(|v: Vec<char>| v@) + fields(s@.skip(start as int)) == fields(s@),
        decreases s@.len() - start,
    {
        let rest = slice_subrange(s, start, s.len());
        let ghost r = rest@;
        proof {
            lemma_first_index(r, ' ');
        }
        let ghost before = out@;
        match find_char(rest, ' ') {
            Some(k) => {
                let field = vstd::slice::slice_to_vec(slice_subrange(s, start, start + k));
                proof {
                    assert(field@ =~= r.take(k as int));
                    assert(r.skip(k + 1) =~= s@.skip(start + k + 1));
                }
                out.push(field);
                proof {
                    assert(out@.map_values(|v: Vec<char>| v@) =~= before.map_values(
                        |v: Vec<char>| v@,
                    ).push(r.take(k as int)));
                    assert(before.map_values(|v: Vec<char>| v@) + fields(r) =~= out@.map_values(
                        |v: Vec<char>| v@,
                    ) + fields(s@.skip(start + k + 1)));
                }
                start = start + k + 1;
            },
            None => {
                let field = vstd::slice::slice_to_vec(rest);
                out.push(field);
                proof {
                    assert(out@.map_values(|v: Vec<char>| v@) =~= before.map_values(
                        |v: Vec<char>| v@,
                    ) + fields(r));
                }
                return out;
            },
        }
    }
}

/// Reads a process's stat line: its controlling terminal and start time
/// (see `stat_of`).
pub fn parse_stat_file(content: &str) -> (r: Result<(u32, u64), StatError>)
    ensures
        r == stat_of(content@),
{
    let s = chars_of(content);
    let j = match find_last_close(s.as_slice()) {
        Some(j) => j,
        None => return Err(StatError::NoCommand),
    };
    proof {
        lemma_last_close(s@);
        assert(s@.len() == s.len());
    }
    let after = slice_subrange(s.as_slice(), j + 2, s.len());
    assert(after@ =~= s@.skip(j + 2));
    let f = split_fields(after);
    let ghost fv = f@.map_values(|v: Vec<char>| v@);
    if f.len() < 5 {
        return Err(StatError::BadTty);
    }
    assert(fv[4] == f@[4]@);
    let tty = match parse_uint(f[4].as_slice(), 0xffff_ffff) {
        Some(t) => t,
        None => return Err(StatError::BadTty),
    };
    if f.len() < 20 {
        return Err(StatError::BadStartTime);
    }
    assert(fv[19] == f@[19]@);
    let start = match parse_uint(f[19].as_slice(), 0xffff_ffff_ffff_ffff) {
        Some(t) => t,
        None => return Err(StatError::BadStartTime),
    };
    Ok((tty as u32, start))
}

// ---------------------------------------------------------------------------
// Random choices

/// The random values that are kept when drawing an index below `len`: the
/// largest multiple of `len` that a `u32` reaches, exclusive.
pub open spec fn accepted_below(len: u32) -> int {
    u32::MAX - u32::MAX % len
}

/// An index below `len` drawn from the random value `random`: its remainder
/// by `len` when `random` lies below `accepted_below(len)`, else `None` (a new
/// value must be drawn). Keeping only whole cycles of `len` gives every index
/// the same chance.
pub fn random_index(len: u32, random: u32) -> (r: Option<u32>)
    requires
        len > 0,
    ensures
        random < accepted_below(len) ==> r == Some((random % len) as u32),
        random >= accepted_below(len) ==> r is None,
{
    let range = u32::MAX - (u32::MAX % len);
    if random < range {
        Some(random % len)
    } else {
        None
    }
}

/// Every drawn index lies below `len`, and the kept values make up whole
/// cycles of `len`, so each index is the remainder of equally many of them.
pub proof fn law_random_index_uniform(len: u32, random: u32)
    requires
        len > 0,
    ensures
        accepted_below(len) % (len as int) == 0,
        accepted_below(len) > u32::MAX - len,
        random < accepted_below(len) ==> random % len < len,
{
    let m = u32::MAX as int;
    let l = len as int;
    assert(m == (m / l) * l + m % l) by (nonlinear_arith)
        requires
            l > 0,
    ;
    assert(((m / l) * l) % l == 0) by (nonlinear_arith)
        requires
            l > 0,
    ;
    assert(m % l < l) by (nonlinear_arith)
        requires
            l > 0,
    ;
}

// ---------------------------------------------------------------------------
// The calling process

/// Where the stat line of process `pid` is read: `/proc/<pid>/stat`.
pub open spec fn spec_stat_path(pid: i32) -> Seq<char> {
    seq!['/', 'p', 'r', 'o', 'c', '/'] + signed_repr(pid as int) + seq!['/', 's', 't', 'a', 't']
}

/// The path of a process's stat line (see `spec_stat_path`).
pub fn stat_path(pid: i32) -> (p: String)
    ensures
        p@ == spec_stat_path(pid),
{
    let mut out: Vec<char> = Vec::new();
    push_str(&mut out, "/proc/");
    push_signed_decimal(&mut out, pid as i64);
    push_str(&mut out, "/stat");
    proof {
        reveal_strlit("/proc/");
        reveal_strlit("/stat");
    }
    assert(out@ =~= spec_stat_path(pid));
    string_of(out.as_slice())
}

/// What identifies the caller's session: its parent process and session,
/// with the terminal and start time that the parent's stat line gives.
pub fn get_proc_info(ppid: i32, sid: i32, stat: &str) -> (r: Result<ProcessInfo, StatError>)
    ensures
        match stat_of(stat@) {
            Ok((tty, start_time)) => r == Ok::<ProcessInfo, StatError>(
                ProcessInfo { ppid, sid, start_time, tty },
            ),
            Err(e) => r == Err::<ProcessInfo, StatError>(e),
        },
{
    match parse_stat_file(stat) {
        Ok((tty, start_time)) => Ok(ProcessInfo { ppid, sid, start_time, tty }),
        Err(e) => Err(e),
    }
}

} // verus!
