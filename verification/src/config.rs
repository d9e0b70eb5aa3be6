//! The rule file: its rules, the parser that reads them, and the matching
//! that decides whether a command may run.
//!
//! A rule reads
//! `permit|deny [options] identity [as target] [cmd command [args ...]]`,
//! one rule per line.
use vstd::prelude::*;
use vstd::slice::slice_to_vec;

use crate::c::{parse_gid, parse_uid, spec_parse_id};
use crate::env::bytes_eq;
use crate::sys::{GID_MAX, UID_MAX};
use crate::text::{chars_of, string_of};
use crate::timestamp::{
    default_timeout, duration_overflows, duration_text_overflows, parse_duration, Duration,
    DurationError, FromStr,
};
use crate::tokenizer::{
    cursor_next, cursor_peek, gen_tokenizer, tokenize_spec, Cursor, TokenView, Tokenizer,
};

verus! {

broadcast use vstd::string::group_string_axioms;

// ---------------------------------------------------------------------------
// Rules

#[derive(Debug, Clone, Copy, PartialEq, Eq, Structural)]
pub enum Action {
    Permit,
    Deny,
}

/// The value given to a variable by `setenv`.
#[derive(Debug, PartialEq, Eq)]
pub enum Val {
    /// A literal value.
    New(String),
    /// The value of another variable of the caller's environment.
    FromEnv(String),
}

/// One entry of a `setenv { ... }` list.
#[derive(Debug, PartialEq, Eq)]
pub enum Env {
    /// Keep the caller's value of the variable.
    Keep(String),
    /// Remove the variable.
    Remove(String),
    /// Set the variable.
    Assign { key: String, val: Val },
}

#[derive(Debug, PartialEq, Eq)]
pub struct Options {
    pub nopass: bool,
    pub pwfeedback: bool,
    pub insult: bool,
    pub nolog: bool,
    pub persist: Option<Duration>,
    pub keepenv: bool,
    pub envs: Vec<Env>,
}

#[derive(Debug)]
pub struct Cmd {
    cmd: String,
    cmd_args: Option<Vec<String>>,
}

/// Whom a rule is for.
#[derive(Debug)]
pub enum Identity {
    User(String),
    Group(String),
    Both { user: String, group: String },
}

/// A rule of the file.
#[derive(Debug)]
pub struct Config {
    action: Action,
    pub options: Options,
    identity: Identity,
    target: Option<String>,
    cmd: Option<Cmd>,
}

/// A rule as far as it has been read.
#[derive(Debug)]
pub struct ParsingConfig {
    action: Option<Action>,
    options: Options,
    identity: Option<Identity>,
    target: Option<String>,
    cmd: Option<Cmd>,
}

/// What is wrong with a rule.
#[derive(Debug)]
pub enum SyntaxError {
    /// "missing action"
    MissingAction,
    /// "missing duration after \"persist { \""
    MissingDuration,
    /// The duration after `persist {` could not be read.
    Duration(DurationError),
    /// "missing \"}\" after duration"
    MissingDurationClose,
    /// "missing envs after \"setenv\""
    MissingEnvs,
    /// "missing envs inside \"{}\""
    EmptyEnvs,
    /// "invalid env: <token>, missing an env after \"-\""
    MissingEnvAfterDash(String),
    /// "invalid env: <token>, missing a key before \"=\""
    MissingKey(String),
    /// "invalid env: <token>, missing a value after \"=\""
    MissingValue(String),
    /// "missing env name after \"$\""
    MissingEnvNameAfterDollar,
    /// "missing \"}\" after envs"
    MissingEnvsClose,
    /// "missing identity"
    MissingIdentity,
    /// "missing target after \"as\""
    MissingTarget,
    /// "expected \"cmd\" before command"
    ExpectedCmd,
    /// "missing command after \"cmd\""
    MissingCommand,
    /// "expected \"args\" after command"
    ExpectedArgs,
}

/// What is wrong with the rule file's mode or owner.
#[derive(Debug, Clone, Copy, PartialEq, Eq, Structural)]
pub enum PermissionError {
    /// "config file is writable by group or other"
    Writable,
    /// "config file is not owned by root"
    NotOwnedByRoot,
}

#[derive(Debug)]
pub enum ConfigError {
    /// What is wrong with the file's mode or owner, and the file's path.
    Permission(PermissionError, String),
    /// The error, the line it was found on, and the rule as far as it was read.
    Syntax(SyntaxError, usize, Box<ParsingConfig>),
}

// ---------------------------------------------------------------------------
// Mathematical model of rules

pub ghost enum ValV {
    New(Seq<char>),
    FromEnv(Seq<char>),
}

pub ghost enum EnvV {
    Keep(Seq<char>),
    Remove(Seq<char>),
    Assign(Seq<char>, ValV),
}

pub ghost struct OptionsV {
    pub nopass: bool,
    pub pwfeedback: bool,
    pub insult: bool,
    pub nolog: bool,
    /// Seconds and nanoseconds.
    pub persist: Option<(nat, nat)>,
    pub keepenv: bool,
    pub envs: Seq<EnvV>,
}

pub ghost enum IdentityV {
    User(Seq<char>),
    Group(Seq<char>),
    Both(Seq<char>, Seq<char>),
}

pub ghost struct CmdV {
    pub cmd: Seq<char>,
    pub args: Option<Seq<Seq<char>>>,
}

pub ghost struct ConfigV {
    pub action: Action,
    pub options: OptionsV,
    pub identity: IdentityV,
    pub target: Option<Seq<char>>,
    pub cmd: Option<CmdV>,
}

pub ghost struct ParsingV {
    pub action: Option<Action>,
    pub options: OptionsV,
    pub identity: Option<IdentityV>,
    pub target: Option<Seq<char>>,
    pub cmd: Option<CmdV>,
}

pub ghost enum SyntaxErrorV {
    MissingAction,
    MissingDuration,
    Duration(DurationError),
    MissingDurationClose,
    MissingEnvs,
    EmptyEnvs,
    MissingEnvAfterDash(Seq<char>),
    MissingKey(Seq<char>),
    MissingValue(Seq<char>),
    MissingEnvNameAfterDollar,
    MissingEnvsClose,
    MissingIdentity,
    MissingTarget,
    ExpectedCmd,
    MissingCommand,
    ExpectedArgs,
}

pub open spec fn strings_view(v: Seq<String>) -> Seq<Seq<char>> {
    v.map_values(|s: String| s@)
}

impl Val {
    pub open spec fn view(&self) -> ValV {
        match self {
            Val::New(s) => ValV::New(s@),
            Val::FromEnv(s) => ValV::FromEnv(s@),
        }
    }
}

impl Env {
    pub open spec fn view(&self) -> EnvV {
        match self {
            Env::Keep(s) => EnvV::Keep(s@),
            Env::Remove(s) => EnvV::Remove(s@),
            Env::Assign { key, val } => EnvV::Assign(key@, val@),
        }
    }
}

pub open spec fn envs_view(v: Seq<Env>) -> Seq<EnvV> {
    v.map_values(|e: Env| e@)
}

impl Options {
    pub open spec fn view(&self) -> OptionsV {
        OptionsV {
            nopass: self.nopass,
            pwfeedback: self.pwfeedback,
            insult: self.insult,
            nolog: self.nolog,
            persist: match self.persist {
                Some(d) => Some((d.spec_secs(), d.spec_nanos())),
                None => None,
            },
            keepenv: self.keepenv,
            envs: envs_view(self.envs@),
        }
    }
}

/// No option set.
pub open spec fn default_options() -> OptionsV {
    OptionsV {
        nopass: false,
        pwfeedback: false,
        insult: false,
        nolog: false,
        persist: None,
        keepenv: false,
        envs: Seq::empty(),
    }
}

impl Default for Options {
    fn default() -> (o: Options)
        ensures
            o@ == default_options(),
    {
        let o = Options {
            nopass: false,
            pwfeedback: false,
            insult: false,
            nolog: false,
            persist: None,
            keepenv: false,
            envs: Vec::new(),
        };
        assert(envs_view(o.envs@) =~= Seq::<EnvV>::empty());
        o
    }
}

impl Identity {
    pub open spec fn view(&self) -> IdentityV {
        match self {
            Identity::User(u) => IdentityV::User(u@),
            Identity::Group(g) => IdentityV::Group(g@),
            Identity::Both { user, group } => IdentityV::Both(user@, group@),
        }
    }
}

impl Cmd {
    pub closed spec fn view(&self) -> CmdV {
        CmdV {
            cmd: self.cmd@,
            args: match self.cmd_args {
                Some(a) => Some(strings_view(a@)),
                None => None,
            },
        }
    }
}

pub open spec fn opt_string_view(s: Option<String>) -> Option<Seq<char>> {
    match s {
        Some(s) => Some(s@),
        None => None,
    }
}

pub open spec fn opt_identity_view(i: Option<Identity>) -> Option<IdentityV> {
    match i {
        Some(i) => Some(i@),
        None => None,
    }
}

pub open spec fn opt_cmd_view(c: Option<Cmd>) -> Option<CmdV> {
    match c {
        Some(c) => Some(c@),
        None => None,
    }
}

impl Config {
    pub closed spec fn view(&self) -> ConfigV {
        ConfigV {
            action: self.action,
            options: self.options@,
            identity: self.identity@,
            target: opt_string_view(self.target),
            cmd: opt_cmd_view(self.cmd),
        }
    }
}

impl ParsingConfig {
    pub closed spec fn view(&self) -> ParsingV {
        ParsingV {
            action: self.action,
            options: self.options@,
            identity: opt_identity_view(self.identity),
            target: opt_string_view(self.target),
            cmd: opt_cmd_view(self.cmd),
        }
    }
}

impl SyntaxError {
    pub open spec fn view(&self) -> SyntaxErrorV {
        match self {
            SyntaxError::MissingAction => SyntaxErrorV::MissingAction,
            SyntaxError::MissingDuration => SyntaxErrorV::MissingDuration,
            SyntaxError::Duration(e) => SyntaxErrorV::Duration(*e),
            SyntaxError::MissingDurationClose => SyntaxErrorV::MissingDurationClose,
            SyntaxError::MissingEnvs => SyntaxErrorV::MissingEnvs,
            SyntaxError::EmptyEnvs => SyntaxErrorV::EmptyEnvs,
            SyntaxError::MissingEnvAfterDash(t) => SyntaxErrorV::MissingEnvAfterDash(t@),
            SyntaxError::MissingKey(t) => SyntaxErrorV::MissingKey(t@),
            SyntaxError::MissingValue(t) => SyntaxErrorV::MissingValue(t@),
            SyntaxError::MissingEnvNameAfterDollar => SyntaxErrorV::MissingEnvNameAfterDollar,
            SyntaxError::MissingEnvsClose => SyntaxErrorV::MissingEnvsClose,
            SyntaxError::MissingIdentity => SyntaxErrorV::MissingIdentity,
            SyntaxError::MissingTarget => SyntaxErrorV::MissingTarget,
            SyntaxError::ExpectedCmd => SyntaxErrorV::ExpectedCmd,
            SyntaxError::MissingCommand => SyntaxErrorV::MissingCommand,
            SyntaxError::ExpectedArgs => SyntaxErrorV::ExpectedArgs,
        }
    }
}

// ---------------------------------------------------------------------------
// The grammar, as a function of the lexer's output

/// The first position of `c` in `s`.
pub open spec fn first_index(s: Seq<char>, c: char) -> Option<int>
    decreases s.len(),
{
    if s.len() == 0 {
        None
    } else if s[0] == c {
        Some(0)
    } else {
        match first_index(s.drop_first(), c) {
            Some(i) => Some(i + 1),
            None => None,
        }
    }
}

/// `str::split_once` with a one-character pattern.
pub open spec fn split_once(s: Seq<char>, c: char) -> Option<(Seq<char>, Seq<char>)> {
    match first_index(s, c) {
        Some(i) => Some((s.subrange(0, i), s.subrange(i + 1, s.len() as int))),
        None => None,
    }
}

/// Whether a token is present and is the unquoted word `k`.
pub open spec fn key(t: Option<TokenView>, k: Seq<char>) -> bool {
    t matches Some(t) && t.text == k && t.quoted is None
}

/// The text of a token before its quoted part.
pub open spec fn before_quoted(t: TokenView) -> Seq<char> {
    match t.quoted {
        Some((a, _)) => t.text.subrange(0, a),
        None => t.text,
    }
}

/// How reading one rule ends.
pub ghost enum RuleOutcome {
    Parsed(ConfigV),
    /// The error, its line, and the rule as far as it was read.
    Failed(SyntaxErrorV, int, ParsingV),
    /// A `persist` duration in minutes too large for a `u64` of seconds:
    /// reading cannot go on.
    Overflow,
}

/// The outcome, where the lexer is left, and the quoted `setenv` entries
/// that were skipped (each is warned about).
pub ghost struct RuleResult {
    pub outcome: RuleOutcome,
    pub cursor: Cursor,
    pub ignored: Seq<Seq<char>>,
}

pub open spec fn fail(e: SyntaxErrorV, c: Cursor, pc: ParsingV, ign: Seq<Seq<char>>) -> RuleResult {
    RuleResult { outcome: RuleOutcome::Failed(e, c.line, pc), cursor: c, ignored: ign }
}

pub open spec fn done(pc: ParsingV, c: Cursor, ign: Seq<Seq<char>>) -> RuleResult {
    RuleResult {
        outcome: RuleOutcome::Parsed(
            ConfigV {
                action: pc.action->0,
                options: pc.options,
                identity: pc.identity->0,
                target: pc.target,
                cmd: pc.cmd,
            },
        ),
        cursor: c,
        ignored: ign,
    }
}

pub open spec fn with_options(pc: ParsingV, o: OptionsV) -> ParsingV {
    ParsingV { options: o, ..pc }
}

pub open spec fn push_env(pc: ParsingV, e: EnvV) -> ParsingV {
    with_options(pc, OptionsV { envs: pc.options.envs.push(e), ..pc.options })
}

/// The tokens up to the end of the line, and where the lexer is left.
pub open spec fn spec_collect(c: Cursor) -> (Seq<Seq<char>>, Cursor)
    decreases c.stream.len(),
{
    let (t, c1) = cursor_next(c);
    match t {
        None => (Seq::empty(), c1),
        Some(t) => {
            let (r, c2) = spec_collect(c1);
            (seq![t.text] + r, c2)
        },
    }
}

/// After the target: an optional `cmd command [args ...]`, then the end of the line.
pub open spec fn spec_cmd(c: Cursor, pc: ParsingV, ign: Seq<Seq<char>>) -> RuleResult {
    let (t, c5) = cursor_next(c);
    match t {
        None => done(pc, c5, ign),
        Some(t) => if !key(Some(t), "cmd"@) {
            fail(SyntaxErrorV::ExpectedCmd, c5, pc, ign)
        } else {
            let (t2, c6) = cursor_next(c5);
            match t2 {
                None => fail(SyntaxErrorV::MissingCommand, c6, pc, ign),
                Some(ct) => {
                    let pc2 = ParsingV { cmd: Some(CmdV { cmd: ct.text, args: None }), ..pc };
                    let (t3, c7) = cursor_next(c6);
                    match t3 {
                        None => done(pc2, c7, ign),
                        Some(a) => if key(Some(a), "args"@) {
                            let (args, c8) = spec_collect(c7);
                            done(
                                ParsingV {
                                    cmd: Some(CmdV { cmd: ct.text, args: Some(args) }),
                                    ..pc
                                },
                                c8,
                                ign,
                            )
                        } else {
                            fail(SyntaxErrorV::ExpectedArgs, c7, pc2, ign)
                        },
                    }
                },
            }
        },
    }
}

/// After the identity: an optional `as target`.
pub open spec fn spec_target(c: Cursor, pc: ParsingV, ign: Seq<Seq<char>>) -> RuleResult {
    let (t, c2) = cursor_peek(c);
    if key(t, "as"@) {
        let c3 = cursor_next(c2).1;
        let (t4, c4) = cursor_next(c3);
        match t4 {
            None => fail(SyntaxErrorV::MissingTarget, c4, pc, ign),
            Some(tt) => spec_cmd(c4, ParsingV { target: Some(tt.text), ..pc }, ign),
        }
    } else {
        spec_cmd(c2, ParsingV { target: None, ..pc }, ign)
    }
}

/// The identity a word names: `user`, `:group` or `user:group` (a word
/// ending in `:` names the user by the whole word).
pub open spec fn identity_of(s: Seq<char>) -> Option<IdentityV> {
    match split_once(s, ':') {
        Some((u, g)) => if u.len() > 0 && g.len() > 0 {
            Some(IdentityV::Both(u, g))
        } else if g.len() > 0 {
            Some(IdentityV::Group(g))
        } else if u.len() > 0 {
            Some(IdentityV::User(s))
        } else {
            None
        },
        None => Some(IdentityV::User(s)),
    }
}

/// After the options: the identity, then the rest of the rule.
pub open spec fn spec_identity(c: Cursor, pc: ParsingV, ign: Seq<Seq<char>>) -> RuleResult {
    let (t, c1) = cursor_next(c);
    match t {
        None => fail(SyntaxErrorV::MissingIdentity, c1, pc, ign),
        Some(t) => match identity_of(t.text) {
            None => fail(SyntaxErrorV::MissingIdentity, c1, pc, ign),
            Some(id) => spec_target(c1, ParsingV { identity: Some(id), ..pc }, ign),
        },
    }
}

/// The value of a `KEY=value` entry: `$NAME` in the unquoted part takes
/// the value of another variable.
pub open spec fn env_value(val: Seq<char>, val_unquoted: Seq<char>) -> ValV {
    if val_unquoted.len() > 0 && val_unquoted[0] == '$' {
        ValV::FromEnv(val_unquoted.drop_first())
    } else {
        ValV::New(val)
    }
}

/// Inside `setenv { ... }`, up to and including the closing brace; the
/// options continue after it.
pub open spec fn spec_setenv(c: Cursor, pc: ParsingV, ign: Seq<Seq<char>>) -> RuleResult
    decreases c.stream.len(), 0int,
{
    let (t, c1) = cursor_next(c);
    match t {
        None => fail(SyntaxErrorV::MissingEnvsClose, c1, pc, ign),
        Some(t) => if key(Some(t), "}"@) {
            if pc.options.envs.len() == 0 {
                fail(SyntaxErrorV::EmptyEnvs, c1, pc, ign)
            } else {
                spec_options(c1, pc, ign)
            }
        } else if t.quoted is None && t.text.len() > 0 && t.text[0] == '-' {
            if t.text.len() == 1 {
                fail(SyntaxErrorV::MissingEnvAfterDash(t.text), c1, pc, ign)
            } else {
                spec_setenv(c1, push_env(pc, EnvV::Remove(t.text.drop_first())), ign)
            }
        } else {
            match split_once(before_quoted(t), '=') {
                Some((k, vu)) => if k.len() == 0 {
                    fail(SyntaxErrorV::MissingKey(t.text), c1, pc, ign)
                } else {
                    let val = t.text.subrange(k.len() as int + 1, t.text.len() as int);
                    if val.len() == 0 {
                        fail(SyntaxErrorV::MissingValue(t.text), c1, pc, ign)
                    } else if vu == seq!['$'] {
                        fail(SyntaxErrorV::MissingEnvNameAfterDollar, c1, pc, ign)
                    } else {
                        spec_setenv(c1, push_env(pc, EnvV::Assign(k, env_value(val, vu))), ign)
                    }
                },
                None => if t.quoted is None {
                    spec_setenv(c1, push_env(pc, EnvV::Keep(t.text)), ign)
                } else {
                    spec_setenv(c1, pc, ign.push(t.text))
                },
            }
        },
    }
}

/// The rule with a flag option set, if `word` names one.
pub open spec fn set_flag(pc: ParsingV, word: Seq<char>) -> Option<ParsingV> {
    let o = pc.options;
    if word == "nopass"@ {
        Some(with_options(pc, OptionsV { nopass: true, ..o }))
    } else if word == "nolog"@ {
        Some(with_options(pc, OptionsV { nolog: true, ..o }))
    } else if word == "pwfeedback"@ {
        Some(with_options(pc, OptionsV { pwfeedback: true, ..o }))
    } else if word == "keepenv"@ {
        Some(with_options(pc, OptionsV { keepenv: true, ..o }))
    } else if word == "insult"@ {
        Some(with_options(pc, OptionsV { insult: true, ..o }))
    } else {
        None
    }
}

/// After the word `persist`: an optional `{ duration }` (five minutes
/// without one), then the other options.
pub open spec fn spec_persist(c2: Cursor, pc: ParsingV, ign: Seq<Seq<char>>) -> RuleResult
    decreases c2.stream.len(), 1int,
{
    let o = pc.options;
    let (t2, c3) = cursor_peek(c2);
    if key(t2, "{"@) {
        let c4 = cursor_next(c3).1;
        let (d, c5) = cursor_next(c4);
        match d {
            None => fail(SyntaxErrorV::MissingDuration, c5, pc, ign),
            Some(d) => if duration_overflows(d.text) {
                RuleResult { outcome: RuleOutcome::Overflow, cursor: c5, ignored: ign }
            } else {
                match parse_duration(d.text) {
                    Err(e) => fail(SyntaxErrorV::Duration(e), c5, pc, ign),
                    Ok(secs) => {
                        let pc2 = with_options(pc, OptionsV { persist: Some((secs, 0)), ..o });
                        let (t6, c6) = cursor_next(c5);
                        if t6 is Some && !key(t6, "}"@) {
                            fail(SyntaxErrorV::MissingDurationClose, c6, pc2, ign)
                        } else {
                            spec_options(c6, pc2, ign)
                        }
                    },
                }
            },
        }
    } else {
        spec_options(c3, with_options(pc, OptionsV { persist: Some((300, 0)), ..o }), ign)
    }
}

/// The options of a rule, then the rest of the rule.
pub open spec fn spec_options(c: Cursor, pc: ParsingV, ign: Seq<Seq<char>>) -> RuleResult
    decreases c.stream.len(), 0int,
{
    let (t, c1) = cursor_peek(c);
    match t {
        None => fail(SyntaxErrorV::MissingIdentity, c1, pc, ign),
        Some(t) => {
            let c2 = cursor_next(c1).1;
            if t.quoted is Some {
                spec_identity(c1, pc, ign)
            } else if set_flag(pc, t.text) is Some {
                spec_options(c2, set_flag(pc, t.text)->0, ign)
            } else if t.text == "persist"@ {
                spec_persist(c2, pc, ign)
            } else if t.text == "setenv"@ {
                let (t2, c3) = cursor_next(c2);
                if !key(t2, "{"@) {
                    fail(SyntaxErrorV::MissingEnvs, c3, pc, ign)
                } else {
                    spec_setenv(c3, pc, ign)
                }
            } else {
                spec_identity(c1, pc, ign)
            }
        },
    }
}

/// A rule as nothing of it has been read.
pub open spec fn empty_parsing() -> ParsingV {
    ParsingV {
        action: None,
        options: default_options(),
        identity: None,
        target: None,
        cmd: None,
    }
}

/// Reading one rule: the action, then the options and the rest.
pub open spec fn spec_rule(c: Cursor, ign: Seq<Seq<char>>) -> RuleResult {
    let (t, c1) = cursor_next(c);
    if key(t, "permit"@) {
        spec_options(c1, ParsingV { action: Some(Action::Permit), ..empty_parsing() }, ign)
    } else if key(t, "deny"@) {
        spec_options(c1, ParsingV { action: Some(Action::Deny), ..empty_parsing() }, ign)
    } else {
        fail(SyntaxErrorV::MissingAction, c1, empty_parsing(), ign)
    }
}

// ---------------------------------------------------------------------------
// Character search

/// The first position of a character is the one before which it does not occur.
pub proof fn lemma_first_index(s: Seq<char>, c: char)
    ensures
        match first_index(s, c) {
            Some(i) => 0 <= i < s.len() && s[i] == c && forall|j: int| 0 <= j < i ==> s[j] != c,
            None => forall|j: int| 0 <= j < s.len() ==> s[j] != c,
        },
    decreases s.len(),
{
    if s.len() > 0 && s[0] != c {
        lemma_first_index(s.drop_first(), c);
        match first_index(s.drop_first(), c) {
            Some(i) => {
                assert forall|j: int| 0 <= j < i + 1 implies s[j] != c by {
                    if j > 0 {
                        assert(s[j] == s.drop_first()[j - 1]);
                    }
                }
            },
            None => {
                assert forall|j: int| 0 <= j < s.len() implies s[j] != c by {
                    if j > 0 {
                        assert(s[j] == s.drop_first()[j - 1]);
                    }
                }
            },
        }
    }
}

/// The position of the first `c` in `s`.
pub fn find_char(s: &[char], c: char) -> (r: Option<usize>)
    ensures
        r matches Some(i) ==> first_index(s@, c) == Some(i as int),
        r is None ==> first_index(s@, c) is None,
{
    proof {
        lemma_first_index(s@, c);
    }
    let mut i: usize = 0;
    while i < s.len()
        invariant
            i <= s@.len(),
            forall|j: int| 0 <= j < i ==> s@[j] != c,
            match first_index(s@, c) {
                Some(k) => 0 <= k < s@.len() && s@[k] == c && forall|j: int|
                    0 <= j < k ==> s@[j] != c,
                None => forall|j: int| 0 <= j < s@.len() ==> s@[j] != c,
            },
        decreases s@.len() - i,
    {
        if s[i] == c {
            return Some(i);
        }
        i = i + 1;
    }
    None
}

/// `str::split_once` with a one-character pattern.
pub fn split_chars(s: &[char], c: char) -> (r: Option<(Vec<char>, Vec<char>)>)
    ensures
        match split_once(s@, c) {
            Some((a, b)) => r matches Some((x, y)) && x@ == a && y@ == b,
            None => r is None,
        },
{
    proof {
        lemma_first_index(s@, c);
    }
    match find_char(s, c) {
        Some(i) => {
            assert(first_index(s@, c) == Some(i as int));
            assert(i < s@.len());
            assert(s@.len() == s.len());
            Some((slice_to_vec(&s[0..i]), slice_to_vec(&s[i + 1..s.len()])))
        },
        None => None,
    }
}

/// A copy of part of a character slice.
fn sub_chars(s: &[char], a: usize, b: usize) -> (r: Vec<char>)
    requires
        a <= b <= s@.len(),
    ensures
        r@ == s@.subrange(a as int, b as int),
{
    slice_to_vec(&s[a..b])
}

// ---------------------------------------------------------------------------
// The parser

/// What a call of the parser stands for in the grammar. The parser never
/// reports a permission error (`agrees` rules it out); one is mapped to
/// `Overflow`, which no returned result stands for, so that the function is
/// total.
pub open spec fn result_outcome(r: Result<Config, ConfigError>) -> RuleOutcome {
    match r {
        Ok(c) => RuleOutcome::Parsed(c@),
        Err(ConfigError::Syntax(e, l, pc)) => RuleOutcome::Failed(e@, l as int, (*pc)@),
        Err(ConfigError::Permission(..)) => RuleOutcome::Overflow,
    }
}

/// A call of the parser ended as the grammar says.
pub open spec fn agrees(
    r: Result<Config, ConfigError>,
    tokens: Cursor,
    ignored: Seq<String>,
    expected: RuleResult,
) -> bool {
    &&& !(r matches Err(ConfigError::Permission(..)))
    &&& result_outcome(r) == expected.outcome
    &&& tokens == expected.cursor
    &&& strings_view(ignored) == expected.ignored
}

/// A call of the total parser ended as the grammar says: `None` exactly
/// where the grammar meets a time-out in minutes that does not fit.
pub open spec fn agrees_total(
    r: Option<Result<Config, ConfigError>>,
    tokens: Cursor,
    ignored: Seq<String>,
    expected: RuleResult,
) -> bool {
    match r {
        None => expected.outcome is Overflow,
        Some(r) => agrees(r, tokens, ignored, expected) && !(expected.outcome is Overflow),
    }
}

fn fail_with(e: SyntaxError, tokens: &Tokenizer, pc: ParsingConfig) -> (r: Result<Config, ConfigError>)
    ensures
        r matches Err(ConfigError::Syntax(..)),
        result_outcome(r) == RuleOutcome::Failed(e@, tokens@.line, pc@),
{
    Err(ConfigError::Syntax(e, tokens.line(), Box::new(pc)))
}

fn syntax_err(e: SyntaxError, tokens: &Tokenizer, pc: ParsingConfig) -> (r: ConfigError)
    ensures
        r is Syntax,
        result_outcome(Err(r)) == RuleOutcome::Failed(e@, tokens@.line, pc@),
{
    ConfigError::Syntax(e, tokens.line(), Box::new(pc))
}

fn push_string(v: &mut Vec<String>, s: String)
    ensures
        strings_view(final(v)@) == strings_view(old(v)@).push(s@),
{
    v.push(s);
    assert(strings_view(v@) =~= strings_view(old(v)@).push(s@));
}

fn push_env_entry(pc: &mut ParsingConfig, e: Env)
    ensures
        final(pc)@ == push_env(old(pc)@, e@),
{
    pc.options.envs.push(e);
    assert(envs_view(pc.options.envs@) =~= envs_view(old(pc).options.envs@).push(e@));
    assert(pc@ =~= push_env(old(pc)@, e@));
}

/// The rest of the line after `args`.
fn collect_args(tokens: &mut Tokenizer) -> (r: Vec<String>)
    requires
        old(tokens).wf(),
    ensures
        final(tokens).wf(),
        (strings_view(r@), final(tokens)@) == spec_collect(old(tokens)@),
    decreases old(tokens)@.stream.len(),
{
    let ghost c0 = tokens@;
    match tokens.next() {
        None => {
            let r: Vec<String> = Vec::new();
            assert(strings_view(r@) =~= Seq::<Seq<char>>::empty());
            r
        },
        Some(t) => {
            let s = t.into_string();
            let mut rest = collect_args(tokens);
            rest.insert(0, s);
            let ghost sc = spec_collect(cursor_next(c0).1);
            assert(strings_view(rest@) =~= seq![cursor_next(c0).0->0.text] + sc.0);
            rest
        },
    }
}

fn finish_rule(tokens: &Tokenizer, pc: ParsingConfig) -> (r: Result<Config, ConfigError>)
    requires
        pc@.action is Some,
        pc@.identity is Some,
    ensures
        result_outcome(r) == done(pc@, tokens@, Seq::empty()).outcome,
{
    let ParsingConfig { action, options, identity, target, cmd } = pc;
    let action = match action {
        Some(a) => a,
        None => Action::Permit,
    };
    let identity = match identity {
        Some(i) => i,
        None => Identity::User(String::new()),
    };
    Ok(Config { action, options, identity, target, cmd })
}

fn parse_cmd(tokens: &mut Tokenizer, pc: ParsingConfig, ignored: &Vec<String>) -> (r: Result<
    Config,
    ConfigError,
>)
    requires
        old(tokens).wf(),
        pc@.action is Some,
        pc@.identity is Some,
    ensures
        final(tokens).wf(),
        agrees(r, final(tokens)@, ignored@, spec_cmd(old(tokens)@, pc@, strings_view(ignored@))),
{
    let mut pc = pc;
    let t = match tokens.next() {
        None => return finish_rule(tokens, pc),
        Some(t) => t,
    };
    if !t.is_key("cmd") {
        return fail_with(SyntaxError::ExpectedCmd, tokens, pc);
    }
    let ct = match tokens.next() {
        None => return fail_with(SyntaxError::MissingCommand, tokens, pc),
        Some(ct) => ct,
    };
    pc.cmd = Some(Cmd { cmd: ct.into_string(), cmd_args: None });
    let a = match tokens.next() {
        None => return finish_rule(tokens, pc),
        Some(a) => a,
    };
    if a.is_key("args") {
        let args = collect_args(tokens);
        let cmd = match pc.cmd {
            Some(c) => c.cmd,
            None => String::new(),
        };
        pc.cmd = Some(Cmd { cmd, cmd_args: Some(args) });
        finish_rule(tokens, pc)
    } else {
        fail_with(SyntaxError::ExpectedArgs, tokens, pc)
    }
}

fn parse_target(tokens: &mut Tokenizer, pc: ParsingConfig, ignored: &Vec<String>) -> (r: Result<
    Config,
    ConfigError,
>)
    requires
        old(tokens).wf(),
        pc@.action is Some,
        pc@.identity is Some,
    ensures
        final(tokens).wf(),
        agrees(r, final(tokens)@, ignored@, spec_target(old(tokens)@, pc@, strings_view(ignored@))),
{
    let mut pc = pc;
    let is_as = match tokens.peek() {
        Some(t) => t.is_key("as"),
        None => false,
    };
    if is_as {
        tokens.next();
        match tokens.next() {
            None => return fail_with(SyntaxError::MissingTarget, tokens, pc),
            Some(tt) => {
                pc.target = Some(tt.into_string());
            },
        }
    } else {
        pc.target = None;
    }
    parse_cmd(tokens, pc, ignored)
}

fn parse_identity(tokens: &mut Tokenizer, pc: ParsingConfig, ignored: &Vec<String>) -> (r: Result<
    Config,
    ConfigError,
>)
    requires
        old(tokens).wf(),
        pc@.action is Some,
    ensures
        final(tokens).wf(),
        agrees(
            r,
            final(tokens)@,
            ignored@,
            spec_identity(old(tokens)@, pc@, strings_view(ignored@)),
        ),
{
    let mut pc = pc;
    let t = match tokens.next() {
        None => return fail_with(SyntaxError::MissingIdentity, tokens, pc),
        Some(t) => t,
    };
    let s = chars_of(t.as_str());
    let identity = match split_chars(s.as_slice(), ':') {
        Some((u, g)) => {
            if u.len() > 0 && g.len() > 0 {
                Identity::Both { user: string_of(u.as_slice()), group: string_of(g.as_slice()) }
            } else if g.len() > 0 {
                Identity::Group(string_of(g.as_slice()))
            } else if u.len() > 0 {
                Identity::User(t.into_string())
            } else {
                return fail_with(SyntaxError::MissingIdentity, tokens, pc);
            }
        },
        None => Identity::User(t.into_string()),
    };
    pc.identity = Some(identity);
    parse_target(tokens, pc, ignored)
}

/// Inside `setenv { ... }`. On the closing brace the rule as read so far is
/// handed back, for the options to go on.
fn parse_setenv(tokens: &mut Tokenizer, pc_in: ParsingConfig, ignored: &mut Vec<String>) -> (r: Result<
    ParsingConfig,
    ConfigError,
>)
    requires
        old(tokens).wf(),
        pc_in@.action is Some,
    ensures
        final(tokens).wf(),
        match r {
            Ok(pc2) => {
                &&& pc2@.action == pc_in@.action
                &&& final(tokens)@.stream.len() < old(tokens)@.stream.len()
                &&& spec_setenv(old(tokens)@, pc_in@, strings_view(old(ignored)@)) == spec_options(
                    final(tokens)@,
                    pc2@,
                    strings_view(final(ignored)@),
                )
            },
            Err(e) => agrees(
                Err(e),
                final(tokens)@,
                final(ignored)@,
                spec_setenv(old(tokens)@, pc_in@, strings_view(old(ignored)@)),
            ),
        },
{
    let ghost pc0 = pc_in@;
    let mut pc = pc_in;
    let ghost goal = spec_setenv(tokens@, pc_in@, strings_view(ignored@));
    let ghost start = tokens@.stream.len();
    loop
        invariant
            goal == spec_setenv(old(tokens)@, pc0, strings_view(old(ignored)@)),
            pc0 == pc_in@,
            start == old(tokens)@.stream.len(),
            pc@.action == pc0.action,
            tokens.wf(),
            pc@.action is Some,
            spec_setenv(tokens@, pc@, strings_view(ignored@)) == goal,
            tokens@.stream.len() <= start,
        decreases tokens@.stream.len(),
    {
        let ghost c0 = tokens@;
        let ghost ign0 = strings_view(ignored@);
        let t = match tokens.next() {
            None => {
                assert(cursor_next(c0).0 is None);
                assert(tokens@ == cursor_next(c0).1);
                assert(goal == spec_setenv(c0, pc@, ign0));
                assert(goal == fail(SyntaxErrorV::MissingEnvsClose, tokens@, pc@, ign0));
                let r = syntax_err(SyntaxError::MissingEnvsClose, tokens, pc);
                assert(result_outcome(Err(r)) == goal.outcome);
                assert(tokens@ == goal.cursor);
                assert(strings_view(ignored@) == goal.ignored);
                assert(agrees(Err(r), tokens@, ignored@, goal));
                assert(goal == spec_setenv(old(tokens)@, pc0, strings_view(old(ignored)@)));
                return Err(r);
            },
            Some(t) => t,
        };
        if t.is_key("}") {
            if pc.options.envs.len() == 0 {
                return Err(syntax_err(SyntaxError::EmptyEnvs, tokens, pc));
            }
            return Ok(pc);
        }
        let s = chars_of(t.as_str());
        if !t.quoted() && s.len() > 0 && s[0] == '-' {
            if s.len() == 1 {
                return Err(syntax_err(SyntaxError::MissingEnvAfterDash(t.into_string()), tokens, pc));
            }
            let name = sub_chars(s.as_slice(), 1, s.len());
            assert(name@ =~= s@.drop_first());
            push_env_entry(&mut pc, Env::Remove(string_of(name.as_slice())));
        } else {
            let bq = chars_of(t.before_quoted());
            match split_chars(bq.as_slice(), '=') {
                Some((k, vu)) => {
                    if k.len() == 0 {
                        return Err(syntax_err(SyntaxError::MissingKey(t.into_string()), tokens, pc));
                    }
                    proof {
                        lemma_first_index(bq@, '=');
                        let i = first_index(bq@, '=')->0;
                        assert(k@ == bq@.subrange(0, i));
                        assert(k@.len() < bq@.len());
                        assert(bq@.len() <= s@.len());
                    }
                    assert(s@.len() == s.len());
                    let val = sub_chars(s.as_slice(), k.len() + 1, s.len());
                    if val.len() == 0 {
                        return Err(syntax_err(SyntaxError::MissingValue(t.into_string()), tokens, pc));
                    }
                    if vu.len() == 1 && vu[0] == '$' {
                        assert(vu@ =~= seq!['$']);
                        return Err(syntax_err(SyntaxError::MissingEnvNameAfterDollar, tokens, pc));
                    }
                    assert(vu@ != seq!['$']);
                    let v = if vu.len() > 0 && vu[0] == '$' {
                        let name = sub_chars(vu.as_slice(), 1, vu.len());
                        assert(name@ =~= vu@.drop_first());
                        Val::FromEnv(string_of(name.as_slice()))
                    } else {
                        Val::New(string_of(val.as_slice()))
                    };
                    push_env_entry(&mut pc, Env::Assign { key: string_of(k.as_slice()), val: v });
                },
                None => {
                    if !t.quoted() {
                        push_env_entry(&mut pc, Env::Keep(t.into_string()));
                    } else {
                        push_string(ignored, t.into_string());
                    }
                },
            }
        }
    }
}

/// After the word `persist`; the rule is handed back for the options to go on.
fn parse_persist(tokens: &mut Tokenizer, pc_in: ParsingConfig, ignored: &Vec<String>) -> (r: Option<Result<
    ParsingConfig,
    ConfigError,
>>)
    requires
        old(tokens).wf(),
        pc_in@.action is Some,
    ensures
        final(tokens).wf(),
        r is None ==> spec_persist(old(tokens)@, pc_in@, strings_view(ignored@)).outcome is Overflow,
        match r {
            None => true,
            Some(Ok(pc2)) => {
                &&& pc2@.action == pc_in@.action
                &&& final(tokens)@.stream.len() <= old(tokens)@.stream.len()
                &&& spec_persist(old(tokens)@, pc_in@, strings_view(ignored@)) == spec_options(
                    final(tokens)@,
                    pc2@,
                    strings_view(ignored@),
                )
            },
            Some(Err(e)) => agrees(
                Err(e),
                final(tokens)@,
                ignored@,
                spec_persist(old(tokens)@, pc_in@, strings_view(ignored@)),
            ),
        },
{
    let mut pc = pc_in;
    let brace = match tokens.peek() {
        Some(s) => s.is_key("{"),
        None => false,
    };
    if brace {
        tokens.next();
        let d = match tokens.next() {
            None => return Some(Err(syntax_err(SyntaxError::MissingDuration, tokens, pc))),
            Some(d) => d,
        };
        if duration_text_overflows(d.as_str()) {
            return None;
        }
        match Duration::from_str(d.as_str()) {
            Ok(dur) => {
                pc.options.persist = Some(dur);
            },
            Err(e) => {
                return Some(Err(syntax_err(SyntaxError::Duration(e), tokens, pc)));
            },
        }
        match tokens.next() {
            Some(s) => {
                if !s.is_key("}") {
                    return Some(Err(syntax_err(SyntaxError::MissingDurationClose, tokens, pc)));
                }
            },
            None => {},
        }
    } else {
        pc.options.persist = Some(default_timeout());
    }
    Some(Ok(pc))
}

/// Sets the flag option that `word` names.
fn apply_flag(pc: &mut ParsingConfig, word: &OptionWord)
    requires
        word is Nopass || word is Nolog || word is Pwfeedback || word is Keepenv || word is Insult,
    ensures
        final(pc)@.action == old(pc)@.action,
        word is Nopass ==> final(pc)@ == with_options(old(pc)@, OptionsV { nopass: true, ..old(pc)@.options }),
        word is Nolog ==> final(pc)@ == with_options(old(pc)@, OptionsV { nolog: true, ..old(pc)@.options }),
        word is Pwfeedback ==> final(pc)@ == with_options(old(pc)@, OptionsV { pwfeedback: true, ..old(pc)@.options }),
        word is Keepenv ==> final(pc)@ == with_options(old(pc)@, OptionsV { keepenv: true, ..old(pc)@.options }),
        word is Insult ==> final(pc)@ == with_options(old(pc)@, OptionsV { insult: true, ..old(pc)@.options }),
{
    match word {
        OptionWord::Nopass => pc.options.nopass = true,
        OptionWord::Nolog => pc.options.nolog = true,
        OptionWord::Pwfeedback => pc.options.pwfeedback = true,
        OptionWord::Keepenv => pc.options.keepenv = true,
        _ => pc.options.insult = true,
    }
}

/// The options of a rule and the rest of it.
#[verifier::rlimit(40)]
fn parse_options(tokens: &mut Tokenizer, pc_in: ParsingConfig, ignored: &mut Vec<String>) -> (r: Option<Result<
    Config,
    ConfigError,
>>)
    requires
        old(tokens).wf(),
        pc_in@.action is Some,
    ensures
        final(tokens).wf(),
        agrees_total(
            r,
            final(tokens)@,
            final(ignored)@,
            spec_options(old(tokens)@, pc_in@, strings_view(old(ignored)@)),
        ),
{
    let ghost pc0 = pc_in@;
    let mut pc = pc_in;
    let ghost goal = spec_options(tokens@, pc@, strings_view(ignored@));
    loop
        invariant
            goal == spec_options(old(tokens)@, pc0, strings_view(old(ignored)@)),
            pc0 == pc_in@,
            tokens.wf(),
            pc@.action is Some,
            spec_options(tokens@, pc@, strings_view(ignored@)) == goal,
        decreases tokens@.stream.len(),
    {
        let ghost c0 = tokens@;
        let info = match tokens.peek() {
            None => None,
            Some(t) => Some((t.quoted(), option_word(t.as_str()))),
        };
        let (quoted, word) = match info {
            None => return Some(fail_with(SyntaxError::MissingIdentity, tokens, pc)),
            Some(i) => i,
        };
        if quoted {
            return Some(parse_identity(tokens, pc, ignored));
        }
        match word {
            OptionWord::Persist => {
                tokens.next();
                match parse_persist(tokens, pc, ignored) {
                    Some(Ok(pc2)) => {
                        pc = pc2;
                    },
                    Some(Err(e)) => {
                        return Some(Err(e));
                    },
                    None => {
                        return None;
                    },
                }
            },
            OptionWord::Setenv => {
                tokens.next();
                let open = match tokens.next() {
                    Some(s) => s.is_key("{"),
                    None => false,
                };
                if !open {
                    return Some(fail_with(SyntaxError::MissingEnvs, tokens, pc));
                }
                match parse_setenv(tokens, pc, ignored) {
                    Ok(pc2) => {
                        pc = pc2;
                    },
                    Err(e) => {
                        return Some(Err(e));
                    },
                }
            },
            OptionWord::Other => {
                return Some(parse_identity(tokens, pc, ignored));
            },
            _ => {
                tokens.next();
                apply_flag(&mut pc, &word);
            },
        }
    }
}

/// The words that start an option.
enum OptionWord {
    Nopass,
    Nolog,
    Pwfeedback,
    Keepenv,
    Insult,
    Persist,
    Setenv,
    Other,
}

fn option_word(s: &str) -> (w: OptionWord)
    ensures
        w is Nopass <==> s@ == "nopass"@,
        w is Nolog <==> s@ == "nolog"@ && s@ != "nopass"@,
        w is Pwfeedback <==> s@ == "pwfeedback"@ && s@ != "nopass"@ && s@ != "nolog"@,
        w is Keepenv <==> s@ == "keepenv"@ && s@ != "nopass"@ && s@ != "nolog"@ && s@
            != "pwfeedback"@,
        w is Insult <==> s@ == "insult"@ && s@ != "nopass"@ && s@ != "nolog"@ && s@
            != "pwfeedback"@ && s@ != "keepenv"@,
        w is Persist <==> s@ == "persist"@ && s@ != "nopass"@ && s@ != "nolog"@ && s@
            != "pwfeedback"@ && s@ != "keepenv"@ && s@ != "insult"@,
        w is Setenv <==> s@ == "setenv"@ && s@ != "nopass"@ && s@ != "nolog"@ && s@
            != "pwfeedback"@ && s@ != "keepenv"@ && s@ != "insult"@ && s@ != "persist"@,
        w is Other <==> s@ != "setenv"@ && s@ != "nopass"@ && s@ != "nolog"@ && s@
            != "pwfeedback"@ && s@ != "keepenv"@ && s@ != "insult"@ && s@ != "persist"@,
{
    if crate::tokenizer::str_eq(s, "nopass") {
        OptionWord::Nopass
    } else if crate::tokenizer::str_eq(s, "nolog") {
        OptionWord::Nolog
    } else if crate::tokenizer::str_eq(s, "pwfeedback") {
        OptionWord::Pwfeedback
    } else if crate::tokenizer::str_eq(s, "keepenv") {
        OptionWord::Keepenv
    } else if crate::tokenizer::str_eq(s, "insult") {
        OptionWord::Insult
    } else if crate::tokenizer::str_eq(s, "persist") {
        OptionWord::Persist
    } else if crate::tokenizer::str_eq(s, "setenv") {
        OptionWord::Setenv
    } else {
        OptionWord::Other
    }
}

/// Reads one rule from the lexer; `None` where a time-out in minutes does
/// not fit.
fn parse_rule(tokens: &mut Tokenizer, ignored: &mut Vec<String>) -> (r: Option<Result<Config, ConfigError>>)
    requires
        old(tokens).wf(),
    ensures
        final(tokens).wf(),
        agrees_total(r, final(tokens)@, final(ignored)@, spec_rule(old(tokens)@, strings_view(old(ignored)@))),
{
    let pc = ParsingConfig {
        action: None,
        options: Options::default(),
        identity: None,
        target: None,
        cmd: None,
    };
    assert(pc@ == empty_parsing());
    let t = tokens.next();
    let (permit, deny) = match &t {
        Some(t) => (t.is_key("permit"), t.is_key("deny")),
        None => (false, false),
    };
    if permit {
        let pc = ParsingConfig { action: Some(Action::Permit), ..pc };
        parse_options(tokens, pc, ignored)
    } else if deny {
        let pc = ParsingConfig { action: Some(Action::Deny), ..pc };
        parse_options(tokens, pc, ignored)
    } else {
        Some(fail_with(SyntaxError::MissingAction, tokens, pc))
    }
}

/// Reads one rule from the lexer. A rule with a time-out in minutes that
/// does not fit is left out.
pub fn parser(tokens: &mut Tokenizer, ignored: &mut Vec<String>) -> (r: Result<Config, ConfigError>)
    requires
        old(tokens).wf(),
        !(spec_rule(old(tokens)@, strings_view(old(ignored)@)).outcome is Overflow),
    ensures
        final(tokens).wf(),
        agrees(r, final(tokens)@, final(ignored)@, spec_rule(old(tokens)@, strings_view(old(ignored)@))),
{
    match parse_rule(tokens, ignored) {
        Some(r) => r,
        None => {
            proof {
                assert(false);
            }
            Err(ConfigError::Syntax(SyntaxError::MissingAction, 0, Box::new(ParsingConfig {
                action: None,
                options: Options::default(),
                identity: None,
                target: None,
                cmd: None,
            })))
        },
    }
}

// ---------------------------------------------------------------------------
// The whole file

/// How reading the whole file ends.
pub ghost enum FileOutcome {
    Parsed(Seq<ConfigV>),
    Failed(SyntaxErrorV, int, ParsingV),
    Overflow,
}

/// Rules are read one after the other while a token is ahead; the first
/// error ends the reading.
pub open spec fn spec_rules(c: Cursor, ign: Seq<Seq<char>>) -> (FileOutcome, Seq<Seq<char>>)
    decreases c.stream.len(),
{
    let (t, c1) = cursor_peek(c);
    if t is None {
        (FileOutcome::Parsed(Seq::empty()), ign)
    } else {
        let r = spec_rule(c1, ign);
        match r.outcome {
            RuleOutcome::Failed(e, l, pc) => (FileOutcome::Failed(e, l, pc), r.ignored),
            RuleOutcome::Overflow => (FileOutcome::Overflow, r.ignored),
            RuleOutcome::Parsed(cfg) => if r.cursor.stream.len() < c.stream.len() {
                prepend(cfg, spec_rules(r.cursor, r.ignored))
            } else {
                (FileOutcome::Parsed(seq![cfg]), r.ignored)
            },
        }
    }
}

pub open spec fn prepend(cfg: ConfigV, r: (FileOutcome, Seq<Seq<char>>)) -> (FileOutcome, Seq<Seq<char>>) {
    (
        match r.0 {
            FileOutcome::Parsed(s) => FileOutcome::Parsed(seq![cfg] + s),
            other => other,
        },
        r.1,
    )
}

pub open spec fn prepend_all(acc: Seq<ConfigV>, r: (FileOutcome, Seq<Seq<char>>)) -> (FileOutcome, Seq<Seq<char>>) {
    (
        match r.0 {
            FileOutcome::Parsed(s) => FileOutcome::Parsed(acc + s),
            other => other,
        },
        r.1,
    )
}

/// The rules of a file and the quoted `setenv` entries skipped while
/// reading it, after those already skipped (`ign`).
pub open spec fn parse_file_spec(content: Seq<char>, ign: Seq<Seq<char>>) -> (FileOutcome, Seq<Seq<char>>) {
    spec_rules(Cursor { stream: tokenize_spec(content), line: 1 }, ign)
}

pub open spec fn configs_view(v: Seq<Config>) -> Seq<ConfigV> {
    v.map_values(|c: Config| c@)
}

proof fn lemma_collect_shrinks(c: Cursor)
    ensures
        spec_collect(c).1.stream.len() <= c.stream.len(),
    decreases c.stream.len(),
{
    let (t, c1) = cursor_next(c);
    if t is Some {
        lemma_collect_shrinks(c1);
    }
}

proof fn lemma_identity_shrinks(c: Cursor, pc: ParsingV, ign: Seq<Seq<char>>)
    ensures
        spec_identity(c, pc, ign).cursor.stream.len() <= c.stream.len(),
{
    let (t, c1) = cursor_next(c);
    if let Some(t) = t {
        if let Some(id) = identity_of(t.text) {
            let pc1 = ParsingV { identity: Some(id), ..pc };
            let (t2, c2) = cursor_peek(c1);
            if key(t2, "as"@) {
                let c3 = cursor_next(c2).1;
                let (t4, c4) = cursor_next(c3);
                if let Some(tt) = t4 {
                    lemma_cmd_shrinks(c4, ParsingV { target: Some(tt.text), ..pc1 }, ign);
                }
            } else {
                lemma_cmd_shrinks(c2, ParsingV { target: None, ..pc1 }, ign);
            }
        }
    }
}

proof fn lemma_cmd_shrinks(c: Cursor, pc: ParsingV, ign: Seq<Seq<char>>)
    ensures
        spec_cmd(c, pc, ign).cursor.stream.len() <= c.stream.len(),
{
    let (t, c5) = cursor_next(c);
    let (t2, c6) = cursor_next(c5);
    let (t3, c7) = cursor_next(c6);
    lemma_collect_shrinks(c7);
}

proof fn lemma_options_shrinks(c: Cursor, pc: ParsingV, ign: Seq<Seq<char>>)
    ensures
        spec_options(c, pc, ign).cursor.stream.len() <= c.stream.len(),
    decreases c.stream.len(), 0int,
{
    let (t, c1) = cursor_peek(c);
    if let Some(t) = t {
        let c2 = cursor_next(c1).1;
        if t.quoted is Some {
            lemma_identity_shrinks(c1, pc, ign);
        } else if set_flag(pc, t.text) is Some {
            lemma_options_shrinks(c2, set_flag(pc, t.text)->0, ign);
        } else if t.text == "persist"@ {
            lemma_persist_shrinks(c2, pc, ign);
        } else if t.text == "setenv"@ {
            let (t2, c3) = cursor_next(c2);
            if key(t2, "{"@) {
                lemma_setenv_shrinks(c3, pc, ign);
            }
        } else {
            lemma_identity_shrinks(c1, pc, ign);
        }
    }
}

proof fn lemma_persist_shrinks(c2: Cursor, pc: ParsingV, ign: Seq<Seq<char>>)
    ensures
        spec_persist(c2, pc, ign).cursor.stream.len() <= c2.stream.len(),
    decreases c2.stream.len(), 1int,
{
    let o = pc.options;
    let (t2, c3) = cursor_peek(c2);
    if key(t2, "{"@) {
        let c4 = cursor_next(c3).1;
        let (d, c5) = cursor_next(c4);
        if let Some(d) = d {
            if !duration_overflows(d.text) {
                if let Ok(secs) = parse_duration(d.text) {
                    let pc2 = with_options(pc, OptionsV { persist: Some((secs, 0)), ..o });
                    let (t6, c6) = cursor_next(c5);
                    lemma_options_shrinks(c6, pc2, ign);
                }
            }
        }
    } else {
        lemma_options_shrinks(c3, with_options(pc, OptionsV { persist: Some((300, 0)), ..o }), ign);
    }
}

proof fn lemma_setenv_shrinks(c: Cursor, pc: ParsingV, ign: Seq<Seq<char>>)
    ensures
        spec_setenv(c, pc, ign).cursor.stream.len() <= c.stream.len(),
    decreases c.stream.len(), 0int,
{
    let (t, c1) = cursor_next(c);
    if let Some(t) = t {
        if key(Some(t), "}"@) {
            if pc.options.envs.len() != 0 {
                lemma_options_shrinks(c1, pc, ign);
            }
        } else if t.quoted is None && t.text.len() > 0 && t.text[0] == '-' {
            if t.text.len() != 1 {
                lemma_setenv_shrinks(c1, push_env(pc, EnvV::Remove(t.text.drop_first())), ign);
            }
        } else {
            match split_once(before_quoted(t), '=') {
                Some((k, vu)) => {
                    let val = t.text.subrange(k.len() as int + 1, t.text.len() as int);
                    if k.len() != 0 && val.len() != 0 && vu != seq!['$'] {
                        lemma_setenv_shrinks(c1, push_env(pc, EnvV::Assign(k, env_value(val, vu))), ign);
                    }
                },
                None => if t.quoted is None {
                    lemma_setenv_shrinks(c1, push_env(pc, EnvV::Keep(t.text)), ign);
                } else {
                    lemma_setenv_shrinks(c1, pc, ign.push(t.text));
                },
            }
        }
    }
}

/// A rule that starts with a token consumes at least that token.
proof fn lemma_rule_shrinks(c: Cursor, ign: Seq<Seq<char>>)
    requires
        c.stream.len() > 0,
    ensures
        spec_rule(c, ign).cursor.stream.len() < c.stream.len(),
{
    let (t, c1) = cursor_next(c);
    if key(t, "permit"@) {
        lemma_options_shrinks(c1, ParsingV { action: Some(Action::Permit), ..empty_parsing() }, ign);
    } else if key(t, "deny"@) {
        lemma_options_shrinks(c1, ParsingV { action: Some(Action::Deny), ..empty_parsing() }, ign);
    }
}

impl Config {
    /// Reads the rules of a file; `None` where a rule's time-out in minutes
    /// does not fit (reading such a file cannot go on). The quoted entries of
    /// `setenv` lists, which are skipped, are appended to `ignored`.
    pub fn try_parse(content: &str, ignored: &mut Vec<String>) -> (r: Option<
        Result<Vec<Config>, ConfigError>,
    >)
        requires
            content@.len() < usize::MAX,
        ensures
            r is None <==> parse_file_spec(content@, strings_view(old(ignored)@)).0 is Overflow,
            r is Some ==> strings_view(final(ignored)@) == parse_file_spec(
                content@,
                strings_view(old(ignored)@),
            ).1,
            match parse_file_spec(content@, strings_view(old(ignored)@)).0 {
                FileOutcome::Parsed(s) => r matches Some(Ok(v)) && configs_view(v@) == s,
                FileOutcome::Failed(e, l, pc) => r matches Some(Err(ConfigError::Syntax(e2, l2, pc2)))
                    && e2@ == e && l2 == l && (*pc2)@ == pc,
                FileOutcome::Overflow => r is None,
            },
    {
        let mut tokens = gen_tokenizer(content);
        let mut rules: Vec<Config> = Vec::new();
        let ghost goal = parse_file_spec(content@, strings_view(ignored@));
        assert(configs_view(rules@) =~= Seq::<ConfigV>::empty());
        assert(prepend_all(Seq::empty(), goal) =~= goal) by {
            if let FileOutcome::Parsed(s) = goal.0 {
                assert(Seq::<ConfigV>::empty() + s =~= s);
            }
        }
        loop
            invariant
                tokens.wf(),
                goal == parse_file_spec(content@, strings_view(old(ignored)@)),
                prepend_all(configs_view(rules@), spec_rules(tokens@, strings_view(ignored@)))
                    == goal,
            decreases tokens@.stream.len(),
        {
            let ghost c0 = tokens@;
            let ghost acc = configs_view(rules@);
            if !tokens.next_line() {
                assert(acc + Seq::<ConfigV>::empty() =~= acc);
                return Some(Ok(rules));
            }
            proof {
                lemma_rule_shrinks(tokens@, strings_view(ignored@));
            }
            let ghost r = spec_rule(tokens@, strings_view(ignored@));
            match parse_rule(&mut tokens, ignored) {
                Some(Ok(rule)) => {
                    let ghost cfg = rule@;
                    rules.push(rule);
                    assert(configs_view(rules@) =~= acc.push(cfg));
                    assert(prepend_all(configs_view(rules@), spec_rules(tokens@, strings_view(ignored@)))
                        == goal) by {
                        let rest = spec_rules(tokens@, strings_view(ignored@));
                        if let FileOutcome::Parsed(s) = rest.0 {
                            assert(acc + (seq![cfg] + s) =~= acc.push(cfg) + s);
                        }
                    }
                },
                Some(Err(e)) => {
                    return Some(Err(e));
                },
                None => {
                    return None;
                },
            }
        }
    }

    /// Reads the rules of a file. The quoted entries of `setenv` lists,
    /// which are skipped, are appended to `ignored`. A file with a time-out in
    /// minutes that does not fit is left out.
    pub fn parse(content: &str, ignored: &mut Vec<String>) -> (r: Result<Vec<Config>, ConfigError>)
        requires
            content@.len() < usize::MAX,
            !(parse_file_spec(content@, strings_view(old(ignored)@)).0 is Overflow),
        ensures
            strings_view(final(ignored)@) == parse_file_spec(content@, strings_view(old(ignored)@)).1,
            match parse_file_spec(content@, strings_view(old(ignored)@)).0 {
                FileOutcome::Parsed(s) => r matches Ok(v) && configs_view(v@) == s,
                FileOutcome::Failed(e, l, pc) => r matches Err(ConfigError::Syntax(e2, l2, pc2))
                    && e2@ == e && l2 == l && (*pc2)@ == pc,
                FileOutcome::Overflow => false,
            },
    {
        match Config::try_parse(content, ignored) {
            Some(r) => r,
            None => {
                proof {
                    assert(false);
                }
                Ok(Vec::new())
            },
        }
    }
}

// ---------------------------------------------------------------------------
// Accessors

impl Config {
    pub fn action(&self) -> (a: Action)
        ensures
            a == self@.action,
    {
        self.action
    }

    pub fn identity(&self) -> (i: &Identity)
        ensures
            i@ == self@.identity,
    {
        &self.identity
    }

    pub fn options(&self) -> (o: &Options)
        ensures
            o@ == self@.options,
    {
        &self.options
    }

    pub fn target(&self) -> (t: Option<&String>)
        ensures
            match t {
                Some(t) => self@.target == Some(t@),
                None => self@.target is None,
            },
    {
        match &self.target {
            Some(t) => Some(t),
            None => None,
        }
    }

    pub fn cmd(&self) -> (c: Option<&Cmd>)
        ensures
            match c {
                Some(c) => self@.cmd == Some(c@),
                None => self@.cmd is None,
            },
    {
        match &self.cmd {
            Some(c) => Some(c),
            None => None,
        }
    }

    /// Whether the rule names a command.
    pub fn has_cmd(&self) -> (b: bool)
        ensures
            b == self@.cmd is Some,
    {
        self.cmd.is_some()
    }
}

impl Cmd {
    pub fn cmd(&self) -> (c: &String)
        ensures
            c@ == self@.cmd,
    {
        &self.cmd
    }

    pub fn cmd_args(&self) -> (a: Option<&Vec<String>>)
        ensures
            match a {
                Some(a) => self@.args == Some(strings_view(a@)),
                None => self@.args is None,
            },
    {
        match &self.cmd_args {
            Some(a) => Some(a),
            None => None,
        }
    }
}

impl ParsingConfig {
    pub fn action(&self) -> (a: Option<Action>)
        ensures
            a == self@.action,
    {
        self.action
    }

    pub fn options(&self) -> (o: &Options)
        ensures
            o@ == self@.options,
    {
        &self.options
    }

    pub fn identity(&self) -> (i: Option<&Identity>)
        ensures
            match i {
                Some(i) => self@.identity == Some(i@),
                None => self@.identity is None,
            },
    {
        match &self.identity {
            Some(i) => Some(i),
            None => None,
        }
    }

    pub fn target(&self) -> (t: Option<&String>)
        ensures
            match t {
                Some(t) => self@.target == Some(t@),
                None => self@.target is None,
            },
    {
        match &self.target {
            Some(t) => Some(t),
            None => None,
        }
    }

    pub fn cmd(&self) -> (c: Option<&Cmd>)
        ensures
            match c {
                Some(c) => self@.cmd == Some(c@),
                None => self@.cmd is None,
            },
    {
        match &self.cmd {
            Some(c) => Some(c),
            None => None,
        }
    }
}

/// A finished rule seen as a rule being read.
pub open spec fn parsing_of(c: ConfigV) -> ParsingV {
    ParsingV {
        action: Some(c.action),
        options: c.options,
        identity: Some(c.identity),
        target: c.target,
        cmd: c.cmd,
    }
}

impl From<Config> for ParsingConfig {
    fn from(value: Config) -> (p: ParsingConfig)
        ensures
            p@ == parsing_of(value@),
    {
        ParsingConfig {
            action: Some(value.action),
            options: value.options,
            identity: Some(value.identity),
            target: value.target,
            cmd: value.cmd,
        }
    }
}

impl vstd::std_specs::convert::FromSpecImpl<Config> for ParsingConfig {
    open spec fn obeys_from_spec() -> bool {
        true
    }

    closed spec fn from_spec(v: Config) -> ParsingConfig {
        ParsingConfig {
            action: Some(v.action),
            options: v.options,
            identity: Some(v.identity),
            target: v.target,
            cmd: v.cmd,
        }
    }
}

/// The mode and owner the rule file must have: readable by all, writable by
/// root only.
pub fn check_permission(mode: u32, uid: u32) -> (r: Result<(), PermissionError>)
    ensures
        mode % 512 != 0o644 ==> r == Err::<(), PermissionError>(PermissionError::Writable),
        mode % 512 == 0o644 && uid != 0 ==> r == Err::<(), PermissionError>(
            PermissionError::NotOwnedByRoot,
        ),
        mode % 512 == 0o644 && uid == 0 ==> r is Ok,
{
    assert(mode & 0o777 == mode % 512) by (bit_vector);
    if (mode & 0o777) != 0o644 {
        return Err(PermissionError::Writable);
    }
    if uid != 0 {
        return Err(PermissionError::NotOwnedByRoot);
    }
    Ok(())
}

// ---------------------------------------------------------------------------
// Matching a request against the rules

/// What the system's tables say of the names a rule uses: the id of its
/// user, of its group and of its target, where the table has an entry.
#[derive(Debug, Clone, Copy, PartialEq, Eq, Structural)]
pub struct Lookup {
    pub user: Option<u32>,
    pub group: Option<u32>,
    pub target: Option<u32>,
}

/// A request to run a command: who asks (user id and groups), as whom, and
/// the command with its arguments, as bytes.
pub ghost struct Query {
    pub uid: u32,
    pub groups: Seq<u32>,
    pub target: u32,
    pub cmd: Seq<u8>,
    pub args: Seq<Seq<u8>>,
}

/// The bytes of a text (UTF-8).
pub open spec fn bytes_of(s: Seq<char>) -> Seq<u8> {
    vstd::utf8::encode_utf8(s)
}

pub open spec fn identity_matches(id: IdentityV, lk: Lookup, q: Query) -> bool {
    match id {
        IdentityV::User(u) => spec_parse_id(u, lk.user, UID_MAX) == Some(q.uid),
        IdentityV::Group(g) => spec_parse_id(g, lk.group, GID_MAX) matches Some(gid)
            && q.groups.contains(gid),
        IdentityV::Both(u, g) => spec_parse_id(u, lk.user, UID_MAX) == Some(q.uid) && (
        spec_parse_id(g, lk.group, GID_MAX) matches Some(gid) && q.groups.contains(gid)),
    }
}

pub open spec fn cmd_matches(c: CmdV, q: Query) -> bool {
    &&& bytes_of(c.cmd) == q.cmd
    &&& c.args matches Some(a) ==> a.len() == q.args.len() && forall|i: int|
        0 <= i < a.len() ==> bytes_of(#[trigger] a[i]) == q.args[i]
}

/// A rule applies to a request when its identity is the caller (or one of
/// the caller's groups), its target (if any) is the requested user, and its
/// command (if any) is the command, with the same arguments if it lists them.
pub open spec fn spec_matches(r: ConfigV, lk: Lookup, q: Query) -> bool {
    &&& identity_matches(r.identity, lk, q)
    &&& r.target matches Some(t) ==> spec_parse_id(t, lk.target, UID_MAX) == Some(q.target)
    &&& r.cmd matches Some(c) ==> cmd_matches(c, q)
}

/// The position of the last rule that applies.
pub open spec fn last_match(rules: Seq<ConfigV>, lks: Seq<Lookup>, q: Query) -> Option<int>
    decreases rules.len(),
{
    if rules.len() == 0 {
        None
    } else if spec_matches(rules.last(), lks.last(), q) {
        Some(rules.len() - 1)
    } else {
        last_match(rules.drop_last(), lks.drop_last(), q)
    }
}

/// The request is allowed when the last rule that applies permits it.
pub open spec fn allowed(rules: Seq<ConfigV>, lks: Seq<Lookup>, q: Query) -> bool {
    last_match(rules, lks, q) matches Some(i) && rules[i].action == Action::Permit
}

pub open spec fn query_of(
    uid: u32,
    groups: &[u32],
    target: u32,
    cmd: &[u8],
    cmd_args: &[Vec<u8>],
) -> Query {
    Query {
        uid,
        groups: groups@,
        target,
        cmd: cmd@,
        args: cmd_args@.map_values(|a: Vec<u8>| a@),
    }
}

/// The request of a command line: its first word is the command.
pub open spec fn query_of_cmds(uid: u32, groups: Seq<u32>, target: u32, cmds: Seq<Vec<u8>>) -> Query {
    Query {
        uid,
        groups,
        target,
        cmd: cmds[0]@,
        args: cmds.subrange(1, cmds.len() as int).map_values(|a: Vec<u8>| a@),
    }
}


fn id_is(r: Result<u32, ()>, id: u32) -> (b: bool)
    ensures
        b == (r == Ok::<u32, ()>(id)),
{
    match r {
        Ok(x) => x == id,
        Err(_) => false,
    }
}

fn in_groups(groups: &[u32], gid: u32) -> (b: bool)
    ensures
        b == groups@.contains(gid),
{
    let mut i: usize = 0;
    while i < groups.len()
        invariant
            i <= groups@.len(),
            forall|j: int| 0 <= j < i ==> groups@[j] != gid,
        decreases groups@.len() - i,
    {
        if groups[i] == gid {
            assert(groups@[i as int] == gid);
            return true;
        }
        i = i + 1;
    }
    false
}

fn group_matches(group: &String, lookup: &Lookup, groups: &[u32]) -> (b: bool)
    ensures
        b == (spec_parse_id(group@, lookup.group, GID_MAX) matches Some(gid) && groups@.contains(
            gid,
        )),
{
    match parse_gid(group.as_str(), lookup.group) {
        Ok(gid) => in_groups(groups, gid),
        Err(_) => false,
    }
}

impl Config {
    /// Whether the rule applies to a request (see `spec_matches`), given
    /// what the system's tables say of the names the rule uses.
    pub fn match_rule(
        &self,
        lookup: &Lookup,
        uid: u32,
        groups: &[u32],
        target: u32,
        cmd: &[u8],
        cmd_args: &[Vec<u8>],
    ) -> (r: Result<(), ()>)
        ensures
            r is Ok <==> spec_matches(self@, *lookup, query_of(uid, groups, target, cmd, cmd_args)),
    {
        let ghost q = query_of(uid, groups, target, cmd, cmd_args);
        match &self.identity {
            Identity::User(user) => {
                if !id_is(parse_uid(user.as_str(), lookup.user), uid) {
                    return Err(());
                }
            },
            Identity::Group(group) => {
                if !group_matches(group, lookup, groups) {
                    return Err(());
                }
            },
            Identity::Both { user, group } => {
                if !id_is(parse_uid(user.as_str(), lookup.user), uid) {
                    return Err(());
                }
                if !group_matches(group, lookup, groups) {
                    return Err(());
                }
            },
        }
        if let Some(tar) = &self.target {
            if !id_is(parse_uid(tar.as_str(), lookup.target), target) {
                return Err(());
            }
        }
        if let Some(command) = &self.cmd {
            if !bytes_eq(cmd, command.cmd.as_str().as_bytes()) {
                return Err(());
            }
            if let Some(args) = &command.cmd_args {
                if args.len() != cmd_args.len() {
                    assert(strings_view(args@).len() == args@.len());
                    assert(q.args.len() == cmd_args@.len());
                    return Err(());
                }
                let mut i: usize = 0;
                while i < args.len()
                    invariant
                        i <= args@.len(),
                        args@.len() == cmd_args@.len(),
                        q == query_of(uid, groups, target, cmd, cmd_args),
                        self@.cmd matches Some(c) && c.args == Some(strings_view(args@)),
                        forall|j: int|
                            0 <= j < i ==> bytes_of(#[trigger] args@[j]@) == cmd_args@[j]@,
                    decreases args@.len() - i,
                {
                    if !bytes_eq(args[i].as_str().as_bytes(), cmd_args[i].as_slice()) {
                        assert(strings_view(args@)[i as int] == args@[i as int]@);
                        assert(q.args[i as int] == cmd_args@[i as int]@);
                        assert(bytes_of(strings_view(args@)[i as int]) != q.args[i as int]);
                        return Err(());
                    }
                    i = i + 1;
                }
                assert forall|j: int| 0 <= j < strings_view(args@).len() implies bytes_of(
                    #[trigger] strings_view(args@)[j],
                ) == q.args[j] by {
                    assert(strings_view(args@)[j] == args@[j]@);
                }
            }
        }
        Ok(())
    }
}

/// Reading a rule list one rule further.
proof fn lemma_last_match_extend(rules: Seq<ConfigV>, lks: Seq<Lookup>, q: Query, i: int)
    requires
        0 <= i < rules.len(),
        lks.len() == rules.len(),
    ensures
        last_match(rules.take(i + 1), lks.take(i + 1), q) == if spec_matches(rules[i], lks[i], q) {
            Some(i)
        } else {
            last_match(rules.take(i), lks.take(i), q)
        },
{
    assert(rules.take(i + 1).drop_last() =~= rules.take(i));
    assert(lks.take(i + 1).drop_last() =~= lks.take(i));
}

/// The position of the last rule that applies to the request.
pub fn find_last_match(
    rules: &Vec<Config>,
    lookups: &[Lookup],
    uid: u32,
    groups: &[u32],
    target: u32,
    cmd: &[u8],
    cmd_args: &[Vec<u8>],
) -> (r: Option<usize>)
    requires
        lookups@.len() == rules@.len(),
    ensures
        r matches Some(i) ==> i < rules@.len() && last_match(
            configs_view(rules@),
            lookups@,
            query_of(uid, groups, target, cmd, cmd_args),
        ) == Some(i as int),
        r is None ==> last_match(
            configs_view(rules@),
            lookups@,
            query_of(uid, groups, target, cmd, cmd_args),
        ) is None,
{
    proof {
        lemma_last_match_bounds(configs_view(rules@), lookups@, query_of(uid, groups, target, cmd, cmd_args));
    }
    let ghost rv = configs_view(rules@);
    let ghost q = query_of(uid, groups, target, cmd, cmd_args);
    let mut last: Option<usize> = None;
    let mut i: usize = 0;
    assert(rv.take(0) =~= Seq::<ConfigV>::empty());
    while i < rules.len()
        invariant
            i <= rules@.len(),
            lookups@.len() == rules@.len(),
            rv == configs_view(rules@),
            q == query_of(uid, groups, target, cmd, cmd_args),
            match last_match(rv.take(i as int), lookups@.take(i as int), q) {
                Some(k) => last == Some(k as usize) && 0 <= k < i,
                None => last is None,
            },
        decreases rules@.len() - i,
    {
        proof {
            lemma_last_match_extend(rv, lookups@, q, i as int);
        }
        if rules[i].match_rule(&lookups[i], uid, groups, target, cmd, cmd_args).is_ok() {
            last = Some(i);
        }
        i = i + 1;
    }
    assert(rv.take(rules@.len() as int) =~= rv);
    assert(lookups@.take(rules@.len() as int) =~= lookups@);
    last
}

/// The rule that lets the request through: the last rule that applies, if it
/// permits (see `allowed`).
#[must_use]
pub fn permit(
    rules: Vec<Config>,
    lookups: &[Lookup],
    uid: u32,
    groups: &[u32],
    target: u32,
    cmd: &[u8],
    cmd_args: &[Vec<u8>],
) -> (r: Option<Config>)
    requires
        lookups@.len() == rules@.len(),
    ensures
        match last_match(configs_view(rules@), lookups@, query_of(uid, groups, target, cmd, cmd_args)) {
            Some(i) => if configs_view(rules@)[i].action == Action::Permit {
                r matches Some(c) && c@ == configs_view(rules@)[i]
            } else {
                r is None
            },
            None => r is None,
        },
        r is Some <==> allowed(configs_view(rules@), lookups@, query_of(uid, groups, target, cmd, cmd_args)),
{
    let ghost rv = configs_view(rules@);
    let ghost q = query_of(uid, groups, target, cmd, cmd_args);
    match find_last_match(&rules, lookups, uid, groups, target, cmd, cmd_args) {
        Some(i) => {
            assert(last_match(rv, lookups@, q) == Some(i as int));
            let mut rules = rules;
            let rule = rules.swap_remove(i);
            assert(rule@ == rv[i as int]);
            match rule.action {
                Action::Permit => {
                    assert(rv[i as int].action == Action::Permit);
                    Some(rule)
                },
                Action::Deny => {
                    assert(rv[i as int].action == Action::Deny);
                    None
                },
            }
        },
        None => None,
    }
}

/// The answer of a check of the rule file against a command.
#[derive(Debug)]
pub enum CheckResult {
    /// No command was given: the file is well-formed; its rules.
    SyntaxOk(Vec<Config>),
    /// The command is permitted, by this rule.
    Permit(Config),
    /// The command is denied: by this rule, or because no rule applies.
    Deny(Option<Config>),
}

/// Checks a command (its name and arguments) against the rules: the last
/// rule that applies decides; without a command the rules are handed back.
pub fn check_rules(
    rules: Vec<Config>,
    lookups: &[Lookup],
    uid: u32,
    groups: &[u32],
    target: u32,
    cmds: &[Vec<u8>],
) -> (r: CheckResult)
    requires
        lookups@.len() == rules@.len(),
    ensures
        cmds@.len() == 0 ==> (r matches CheckResult::SyntaxOk(v) && configs_view(v@) == configs_view(rules@)),
        cmds@.len() > 0 ==> ({
            let q = query_of_cmds(uid, groups@, target, cmds@);
            match last_match(configs_view(rules@), lookups@, q) {
                Some(i) => if configs_view(rules@)[i].action == Action::Permit {
                    r matches CheckResult::Permit(c) && c@ == configs_view(rules@)[i]
                } else {
                    r matches CheckResult::Deny(Some(c)) && c@ == configs_view(rules@)[i]
                },
                None => r matches CheckResult::Deny(None),
            }
        }),
{
    if cmds.len() == 0 {
        return CheckResult::SyntaxOk(rules);
    }
    let ghost rv = configs_view(rules@);
    let cmd = cmds[0].as_slice();
    let args = &cmds[1..cmds.len()];
    assert(query_of(uid, groups, target, cmd, args) == query_of_cmds(uid, groups@, target, cmds@)) by {
        assert(args@ =~= cmds@.subrange(1, cmds@.len() as int));
        assert(args@.map_values(|a: Vec<u8>| a@) =~= cmds@.subrange(1, cmds@.len() as int).map_values(|a: Vec<u8>| a@));
    }
    match find_last_match(&rules, lookups, uid, groups, target, cmd, args) {
        Some(i) => {
            let mut rules = rules;
            let rule = rules.swap_remove(i);
            assert(rule@ == rv[i as int]);
            match rule.action {
                Action::Permit => CheckResult::Permit(rule),
                Action::Deny => CheckResult::Deny(Some(rule)),
            }
        },
        None => CheckResult::Deny(None),
    }
}

// ---------------------------------------------------------------------------
// Laws of the rule list

/// What a rule that applies says of the request: the caller is the rule's
/// user (by the id the name resolves to), or in its group, or both; the
/// requested user is the rule's target, when it names one; the command is
/// the rule's command, with the same arguments when it lists them. A rule
/// whose target names another user than the one asked for never applies.
pub proof fn law_match_conditions(r: ConfigV, lk: Lookup, q: Query)
    ensures
        spec_matches(r, lk, q) ==> match r.identity {
            IdentityV::User(u) => spec_parse_id(u, lk.user, UID_MAX) == Some(q.uid),
            IdentityV::Group(g) => exists|gid: u32|
                spec_parse_id(g, lk.group, GID_MAX) == Some(gid) && #[trigger] q.groups.contains(gid),
            IdentityV::Both(u, g) => spec_parse_id(u, lk.user, UID_MAX) == Some(q.uid) && exists|gid: u32|
                spec_parse_id(g, lk.group, GID_MAX) == Some(gid) && #[trigger] q.groups.contains(gid),
        },
        spec_matches(r, lk, q) && r.target is Some ==> spec_parse_id(r.target->0, lk.target, UID_MAX)
            == Some(q.target),
        r.target is Some && spec_parse_id(r.target->0, lk.target, UID_MAX) != Some(q.target)
            ==> !spec_matches(r, lk, q),
        spec_matches(r, lk, q) && r.cmd is Some ==> bytes_of(r.cmd->0.cmd) == q.cmd,
        spec_matches(r, lk, q) && r.cmd is Some && r.cmd->0.args is Some ==> r.cmd->0.args->0.len()
            == q.args.len(),
{
}

/// A request is allowed only by a permitting rule that applies to it: one
/// for the requested user when it names a target, and for the command when
/// it names one.
pub proof fn law_allowed_by_a_rule_for_the_request(rules: Seq<ConfigV>, lks: Seq<Lookup>, q: Query)
    requires
        rules.len() == lks.len(),
    ensures
        allowed(rules, lks, q) ==> exists|i: int|
            0 <= i < rules.len() && #[trigger] rules[i].action == Action::Permit && spec_matches(
                rules[i],
                lks[i],
                q,
            ) && (rules[i].target is Some ==> spec_parse_id(rules[i].target->0, lks[i].target, UID_MAX)
                == Some(q.target)),
{
    law_last_match_is_last(rules, lks, q);
    if let Some(i) = last_match(rules, lks, q) {
        law_match_conditions(rules[i], lks[i], q);
    }
}

/// How an identity word reads: a word without `:` names a user; `user:group`
/// (the user part free of `:`) names both when both parts are there, the
/// group alone when the user part is empty, and the user by the whole word
/// when the group part is empty; a lone `:` names nobody.
pub proof fn law_identity_word(u: Seq<char>, g: Seq<char>)
    requires
        !u.contains(':'),
    ensures
        identity_of(u) == Some(IdentityV::User(u)),
        u.len() > 0 && g.len() > 0 ==> identity_of(u + seq![':'] + g) == Some(IdentityV::Both(u, g)),
        u.len() == 0 && g.len() > 0 ==> identity_of(u + seq![':'] + g) == Some(IdentityV::Group(g)),
        u.len() > 0 && g.len() == 0 ==> identity_of(u + seq![':'] + g) == Some(
            IdentityV::User(u + seq![':'] + g),
        ),
        u.len() == 0 && g.len() == 0 ==> identity_of(u + seq![':'] + g) is None,
{
    let w = u + seq![':'] + g;
    lemma_first_index(u, ':');
    if first_index(u, ':') is Some {
        let i = first_index(u, ':')->0;
        assert(u.contains(':')) by {
            assert(u[i] == ':');
        }
    }
    lemma_first_index(w, ':');
    assert(w[u.len() as int] == ':');
    match first_index(w, ':') {
        Some(i) => {
            if i < u.len() {
                assert(w[i] == u[i]);
                assert(u.contains(':'));
            }
            if i > u.len() {
                assert(false);
            }
            assert(i == u.len());
            assert(w.subrange(0, i) =~= u);
            assert(w.subrange(i + 1, w.len() as int) =~= g);
        },
        None => {
            assert(false);
        },
    }
}

/// With no rules, nothing is allowed.
pub proof fn law_no_rules_deny(q: Query)
    ensures
        !allowed(Seq::empty(), Seq::empty(), q),
{
}

/// The last rule that applies decides: a rule added at the end that applies
/// to the request overrides every rule before it.
pub proof fn law_last_matching_rule_decides(
    rules: Seq<ConfigV>,
    lks: Seq<Lookup>,
    r: ConfigV,
    lk: Lookup,
    q: Query,
)
    requires
        rules.len() == lks.len(),
        spec_matches(r, lk, q),
    ensures
        last_match(rules.push(r), lks.push(lk), q) == Some(rules.len() as int),
        allowed(rules.push(r), lks.push(lk), q) <==> r.action == Action::Permit,
{
}

/// A rule added at the end that does not apply to the request changes nothing.
pub proof fn law_unmatched_rule_changes_nothing(
    rules: Seq<ConfigV>,
    lks: Seq<Lookup>,
    r: ConfigV,
    lk: Lookup,
    q: Query,
)
    requires
        rules.len() == lks.len(),
        !spec_matches(r, lk, q),
    ensures
        last_match(rules.push(r), lks.push(lk), q) == last_match(rules, lks, q),
        allowed(rules.push(r), lks.push(lk), q) == allowed(rules, lks, q),
{
    assert(rules.push(r).drop_last() =~= rules);
    assert(lks.push(lk).drop_last() =~= lks);
    if let Some(i) = last_match(rules, lks, q) {
        lemma_last_match_bounds(rules, lks, q);
        assert(rules.push(r)[i] == rules[i]);
    }
}

/// The rule found applies, and no rule after it does.
pub proof fn law_last_match_is_last(rules: Seq<ConfigV>, lks: Seq<Lookup>, q: Query)
    requires
        rules.len() == lks.len(),
    ensures
        match last_match(rules, lks, q) {
            Some(i) => 0 <= i < rules.len() && spec_matches(rules[i], lks[i], q) && forall|j: int|
                i < j < rules.len() ==> !spec_matches(#[trigger] rules[j], lks[j], q),
            None => forall|j: int| 0 <= j < rules.len() ==> !spec_matches(#[trigger] rules[j], lks[j], q),
        },
    decreases rules.len(),
{
    if rules.len() > 0 {
        law_last_match_is_last(rules.drop_last(), lks.drop_last(), q);
        if !spec_matches(rules.last(), lks.last(), q) {
            match last_match(rules.drop_last(), lks.drop_last(), q) {
                Some(i) => {
                    assert forall|j: int| i < j < rules.len() implies !spec_matches(
                        #[trigger] rules[j],
                        lks[j],
                        q,
                    ) by {
                        if j < rules.len() - 1 {
                            assert(rules[j] == rules.drop_last()[j]);
                            assert(lks[j] == lks.drop_last()[j]);
                        }
                    }
                    assert(rules[i] == rules.drop_last()[i]);
                    assert(lks[i] == lks.drop_last()[i]);
                },
                None => {
                    assert forall|j: int| 0 <= j < rules.len() implies !spec_matches(
                        #[trigger] rules[j],
                        lks[j],
                        q,
                    ) by {
                        if j < rules.len() - 1 {
                            assert(rules[j] == rules.drop_last()[j]);
                            assert(lks[j] == lks.drop_last()[j]);
                        }
                    }
                },
            }
        }
    }
}

proof fn lemma_last_match_bounds(rules: Seq<ConfigV>, lks: Seq<Lookup>, q: Query)
    ensures
        last_match(rules, lks, q) matches Some(i) ==> 0 <= i < rules.len(),
    decreases rules.len(),
{
    if rules.len() > 0 {
        lemma_last_match_bounds(rules.drop_last(), lks.drop_last(), q);
    }
}

} // verus!
