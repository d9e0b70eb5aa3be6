//! Editing the rule file safely: the answers the user gives at the
//! prompts, whether an edit changed anything, and the editor's environment.
use vstd::prelude::*;
use vstd::slice::slice_subrange;

use crate::env::EnvMap;
use crate::text::chars_of;
use crate::timestamp::Time;
use crate::tokenizer::chars_eq;

verus! {

broadcast use vstd::string::group_string_axioms;

// ---------------------------------------------------------------------------
// Reading an answer

/// Unicode white space, the characters that `str::trim` drops.
pub open spec fn is_white_space(c: char) -> bool {
    ('\t' <= c <= '\r') || c == ' ' || c == '\u{85}' || c == '\u{a0}' || c == '\u{1680}' || (
    '\u{2000}' <= c <= '\u{200a}') || c == '\u{2028}' || c == '\u{2029}' || c == '\u{202f}' || c
        == '\u{205f}' || c == '\u{3000}'
}

/// How many white-space characters a text starts with.
pub open spec fn leading_ws(s: Seq<char>) -> nat
    decreases s.len(),
{
    if s.len() > 0 && is_white_space(s[0]) {
        1 + leading_ws(s.drop_first())
    } else {
        0
    }
}

/// How many white-space characters a text ends with.
pub open spec fn trailing_ws(s: Seq<char>) -> nat
    decreases s.len(),
{
    if s.len() > 0 && is_white_space(s.last()) {
        1 + trailing_ws(s.drop_last())
    } else {
        0
    }
}

/// A text without its leading and trailing white space (`str::trim`).
pub open spec fn trimmed(s: Seq<char>) -> Seq<char> {
    let t = s.skip(leading_ws(s) as int);
    t.take(t.len() - trailing_ws(t))
}

proof fn lemma_ws_bounds(s: Seq<char>)
    ensures
        leading_ws(s) <= s.len(),
        trailing_ws(s) <= s.len(),
    decreases s.len(),
{
    if s.len() > 0 {
        lemma_ws_bounds(s.drop_first());
        lemma_ws_bounds(s.drop_last());
    }
}

fn white_space(c: char) -> (b: bool)
    ensures
        b == is_white_space(c),
{
    ('\t' <= c && c <= '\r') || c == ' ' || c == '\u{85}' || c == '\u{a0}' || c == '\u{1680}' || (
    '\u{2000}' <= c && c <= '\u{200a}') || c == '\u{2028}' || c == '\u{2029}' || c == '\u{202f}'
        || c == '\u{205f}' || c == '\u{3000}'
}

/// Where the trimmed text of `v` starts and ends.
fn trim_bounds(v: &[char]) -> (r: (usize, usize))
    ensures
        r.0 <= r.1 <= v@.len(),
        v@.subrange(r.0 as int, r.1 as int) == trimmed(v@),
{
    let n = v.len();
    let mut i: usize = 0;
    proof {
        assert(v@.skip(0) =~= v@);
    }
    while i < n && white_space(v[i])
        invariant
            i <= n == v@.len(),
            leading_ws(v@) == i + leading_ws(v@.skip(i as int)),
        decreases n - i,
    {
        assert(v@.skip(i as int).drop_first() =~= v@.skip(i + 1));
        i = i + 1;
    }
    assert(leading_ws(v@.skip(i as int)) == 0);
    let ghost t = v@.skip(i as int);
    let mut j: usize = n;
    proof {
        assert(t.take(t.len() as int) =~= t);
    }
    while j > i && white_space(v[j - 1])
        invariant
            i <= j <= n == v@.len(),
            t == v@.skip(i as int),
            trailing_ws(t) == (n - j) + trailing_ws(t.take(j - i)),
        decreases j,
    {
        assert(t.take(j - i).drop_last() =~= t.take(j - 1 - i));
        assert(t.take(j - i).last() == v@[j - 1]);
        j = j - 1;
    }
    proof {
        assert(trailing_ws(t.take(j - i)) == 0) by {
            if j > i {
                assert(t.take(j - i).last() == v@[j - 1]);
            }
        }
        assert(v@.subrange(i as int, j as int) =~= t.take(t.len() - trailing_ws(t)));
    }
    (i, j)
}

/// The answer to whether a temporary file left behind is reused.
#[derive(Debug, Clone, Copy, PartialEq, Eq, Structural)]
pub enum ReuseAnswer {
    /// `y`: edit the file left behind.
    Reuse,
    /// `n`: start over from the rule file.
    Recreate,
    /// Anything else: ask again.
    AskAgain,
}

/// What a (trimmed) answer to the reuse question means.
pub open spec fn spec_reuse_answer(t: Seq<char>) -> ReuseAnswer {
    if t == seq!['y'] || t == seq!['Y'] {
        ReuseAnswer::Reuse
    } else if t == seq!['n'] || t == seq!['N'] {
        ReuseAnswer::Recreate
    } else {
        ReuseAnswer::AskAgain
    }
}

/// Reads the answer to whether a temporary file left behind is reused; white
/// space around it does not count.
pub fn reuse_answer(line: &str) -> (r: ReuseAnswer)
    ensures
        r == spec_reuse_answer(trimmed(line@)),
{
    let v = chars_of(line);
    let (a, b) = trim_bounds(v.as_slice());
    let t = slice_subrange(v.as_slice(), a, b);
    if t.len() == 1 && (t[0] == 'y' || t[0] == 'Y') {
        assert(t@ =~= seq![t@[0]]);
        ReuseAnswer::Reuse
    } else if t.len() == 1 && (t[0] == 'n' || t[0] == 'N') {
        assert(t@ =~= seq![t@[0]]);
        ReuseAnswer::Recreate
    } else {
        proof {
            if t@.len() == 1 {
                assert(t@ =~= seq![t@[0]]);
            }
        }
        ReuseAnswer::AskAgain
    }
}

/// What to do after an edit that leaves a faulty rule file.
#[derive(Debug, Clone, Copy, PartialEq, Eq, Structural)]
pub enum EditChoice {
    /// `e`: edit the file again.
    Reedit,
    /// `x`: leave without saving.
    Exit,
    /// The confirmation word: save anyway.
    Save,
    /// Anything else: ask again.
    AskAgain,
}

/// The word that saves a faulty rule file anyway: `FORCE_LOCKOUT` when the
/// new rules would lock the user out, `FORCE_INVALID` when they do not parse.
/// Both are thirteen characters long, so the menu stays aligned.
pub fn confirm_word(lockout: bool) -> (w: &'static str)
    ensures
        w@ == (if lockout {
            "FORCE_LOCKOUT"@
        } else {
            "FORCE_INVALID"@
        }),
        w@.len() == 13,
{
    proof {
        reveal_strlit("FORCE_LOCKOUT");
        reveal_strlit("FORCE_INVALID");
    }
    if lockout {
        "FORCE_LOCKOUT"
    } else {
        "FORCE_INVALID"
    }
}

/// What a (trimmed) answer to the faulty-file menu means.
pub open spec fn spec_edit_choice(t: Seq<char>, confirm: Seq<char>) -> EditChoice {
    if t == seq!['e'] {
        EditChoice::Reedit
    } else if t == seq!['x'] {
        EditChoice::Exit
    } else if t == confirm {
        EditChoice::Save
    } else {
        EditChoice::AskAgain
    }
}

/// Reads the answer to the faulty-file menu; white space around it does
/// not count, and only the exact confirmation word saves.
pub fn edit_choice(line: &str, confirm: &str) -> (r: EditChoice)
    ensures
        r == spec_edit_choice(trimmed(line@), confirm@),
{
    let v = chars_of(line);
    let (a, b) = trim_bounds(v.as_slice());
    let t = slice_subrange(v.as_slice(), a, b);
    let w = chars_of(confirm);
    proof {
        if t@.len() == 1 {
            assert(t@ =~= seq![t@[0]]);
        }
    }
    if t.len() == 1 && t[0] == 'e' {
        EditChoice::Reedit
    } else if t.len() == 1 && t[0] == 'x' {
        EditChoice::Exit
    } else if chars_eq(t, w.as_slice()) {
        EditChoice::Save
    } else {
        EditChoice::AskAgain
    }
}

// ---------------------------------------------------------------------------
// Saving

/// Whether an edited copy is saved: not when it was made by this run and
/// its modification time is still the one it got when it was made (the
/// editor changed nothing). A copy left behind by an earlier run has no
/// such time and is always saved.
pub fn edit_changed(last_time: Option<Time>, new_time: Time) -> (b: bool)
    ensures
        b == (last_time != Some(new_time)),
{
    match last_time {
        Some(t) => !t.same(&new_time),
        None => true,
    }
}

/// The terminal type given to the editor, when the caller has one:
/// modern terminals are named by a type that every editor knows.
pub const EDITOR_TERM: &'static str = "xterm-256color";

/// The editor's environment: as prepared for commands, but a `TERM` that is
/// set is replaced with `EDITOR_TERM`.
pub fn editor_env(envs: &mut EnvMap)
    requires
        old(envs).wf(),
    ensures
        final(envs).wf(),
        old(envs)@.contains_key(vstd::utf8::encode_utf8("TERM"@)) ==> final(envs)@ == old(
            envs,
        )@.insert(vstd::utf8::encode_utf8("TERM"@), vstd::utf8::encode_utf8(EDITOR_TERM@)),
        !old(envs)@.contains_key(vstd::utf8::encode_utf8("TERM"@)) ==> final(envs)@ == old(
            envs,
        )@,
{
    let key = "TERM".as_bytes();
    let present = match envs.get(key) {
        Some(_) => true,
        None => false,
    };
    if present {
        envs.insert(vstd::slice::slice_to_vec(key), vstd::slice::slice_to_vec(EDITOR_TERM.as_bytes()));
    }
}

} // verus!
