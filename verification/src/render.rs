//! Rules shown as text: how `vidoas` and `-C ... -v` print a rule, and the
//! messages of the errors found while reading the rule file.
use vstd::prelude::*;

use crate::config::{
    default_options, envs_view, strings_view, Action, CheckResult, ConfigError, Env, EnvV,
    Identity, IdentityV, Options, OptionsV, ParsingConfig, ParsingV, PermissionError, SyntaxError,
    SyntaxErrorV, Val, ValV,
};
use crate::text::{dec_repr, push_decimal, push_str, string_of};
use crate::timestamp::DurationError;

verus! {

broadcast use vstd::string::group_string_axioms;

/// The text that `{:?}` gives for a string: quoted, with special
/// characters escaped.
pub uninterp spec fn debug_quoted(s: Seq<char>) -> Seq<char>;

/// `format!("{:?}", s)` on a string slice (`<str as Debug>::fmt`). Claimed:
/// the text depends on the string alone, and is named `debug_quoted`.
#[verifier::external_body]
fn debug_str(s: &str) -> (r: String)
    ensures
        r@ == debug_quoted(s@),
{
    format!("{:?}", s)
}

/// Appends a string shown as `{:?}` shows it.
fn push_debug(out: &mut Vec<char>, s: &str)
    ensures
        final(out)@ == old(out)@ + debug_quoted(s@),
{
    let d = debug_str(s);
    push_str(out, d.as_str());
}

// ---------------------------------------------------------------------------
// The texts

pub open spec fn action_text(a: Action) -> Seq<char> {
    match a {
        Action::Permit => "Permit"@,
        Action::Deny => "Deny"@,
    }
}

pub open spec fn val_text(v: ValV) -> Seq<char> {
    match v {
        ValV::New(s) => "New("@ + debug_quoted(s) + ")"@,
        ValV::FromEnv(s) => "FromEnv("@ + debug_quoted(s) + ")"@,
    }
}

/// How a `setenv` entry is shown.
pub open spec fn env_text(e: EnvV) -> Seq<char> {
    match e {
        EnvV::Keep(s) => "Keep("@ + debug_quoted(s) + ")"@,
        EnvV::Remove(s) => "Remove("@ + debug_quoted(s) + ")"@,
        EnvV::Assign(k, v) => "Set(\""@ + k + "\"="@ + val_text(v) + ")"@,
    }
}

/// The entries of a `setenv` list, each followed by a space.
pub open spec fn envs_text(es: Seq<EnvV>) -> Seq<char>
    decreases es.len(),
{
    if es.len() == 0 {
        Seq::empty()
    } else {
        envs_text(es.drop_last()) + env_text(es.last()) + " "@
    }
}

/// The flags of a rule that are set, each followed by a space.
pub open spec fn flags_text(o: OptionsV) -> Seq<char> {
    flag_text(o.nopass, "nopass "@) + flag_text(o.pwfeedback, "pwfeedback "@) + flag_text(
        o.insult,
        "insult "@,
    ) + flag_text(o.nolog, "nolog "@) + flag_text(o.keepenv, "keepenv "@)
}

/// The time-out of a rule, in seconds, if it has one.
pub open spec fn persist_text(o: OptionsV) -> Seq<char> {
    match o.persist {
        Some((secs, _)) => "persist {"@ + dec_repr(secs) + "s} "@,
        None => Seq::empty(),
    }
}

/// The `setenv` entries of a rule, if it has any.
pub open spec fn setenv_text(o: OptionsV) -> Seq<char> {
    if o.envs.len() > 0 {
        "setenv\nenvs: { "@ + envs_text(o.envs) + "}"@
    } else {
        Seq::empty()
    }
}

/// How the options of a rule are shown: each flag that is set, followed by a
/// space; then the time-out (in seconds); then the `setenv` entries.
pub open spec fn options_text(o: OptionsV) -> Seq<char> {
    flags_text(o) + persist_text(o) + setenv_text(o)
}

/// How whom a rule is for is shown.
pub open spec fn identity_text(i: IdentityV) -> Seq<char> {
    match i {
        IdentityV::User(u) => "User("@ + debug_quoted(u) + ")"@,
        IdentityV::Group(g) => "Group("@ + debug_quoted(g) + ")"@,
        IdentityV::Both(u, g) => "User(\""@ + u + "\"), Group(\""@ + g + "\")"@,
    }
}

/// Quoted strings separated by `, `.
pub open spec fn list_body(items: Seq<Seq<char>>) -> Seq<char>
    decreases items.len(),
{
    if items.len() == 0 {
        Seq::empty()
    } else if items.len() == 1 {
        debug_quoted(items[0])
    } else {
        list_body(items.drop_last()) + ", "@ + debug_quoted(items.last())
    }
}

/// How a list of arguments is shown: `["a", "b"]`.
pub open spec fn args_text(items: Seq<Seq<char>>) -> Seq<char> {
    "["@ + list_body(items) + "]"@
}

/// The line that shows a rule's action.
pub open spec fn action_line(p: ParsingV) -> Seq<char> {
    "action: "@ + (match p.action {
        Some(a) => action_text(a),
        None => "None"@,
    }) + "\n"@
}

/// The line that shows a rule's options, unless no option is set.
pub open spec fn options_line(p: ParsingV) -> Seq<char> {
    if p.options == default_options() {
        Seq::empty()
    } else {
        "options: "@ + options_text(p.options) + "\n"@
    }
}

/// The line that shows whom a rule is for.
pub open spec fn identity_line(p: ParsingV) -> Seq<char> {
    "identity: "@ + (match p.identity {
        Some(i) => identity_text(i),
        None => "None"@,
    }) + "\n"@
}

/// The line that shows a rule's target, if it has one.
pub open spec fn target_line(p: ParsingV) -> Seq<char> {
    match p.target {
        Some(t) => "target: "@ + t + "\n"@,
        None => Seq::empty(),
    }
}

/// The lines that show a rule's command and arguments, if it has them.
pub open spec fn cmd_lines(p: ParsingV) -> Seq<char> {
    match p.cmd {
        Some(c) => "cmd: "@ + c.cmd + "\n"@ + (match c.args {
            Some(a) => "args: "@ + args_text(a) + "\n"@,
            None => Seq::empty(),
        }),
        None => Seq::empty(),
    }
}

/// How a rule (as far as it was read) is shown, one line per part:
/// `action: ...`, `options: ...` (unless no option is set),
/// `identity: ...`, then `target: ...`, `cmd: ...` and `args: [...]` where
/// the rule has them.
pub open spec fn parsing_text(p: ParsingV) -> Seq<char> {
    action_line(p) + options_line(p) + identity_line(p) + target_line(p) + cmd_lines(p)
}

// ---------------------------------------------------------------------------
// Writing them

fn push_action(out: &mut Vec<char>, a: Action)
    ensures
        final(out)@ == old(out)@ + action_text(a),
{
    match a {
        Action::Permit => push_str(out, "Permit"),
        Action::Deny => push_str(out, "Deny"),
    }
}

fn push_val(out: &mut Vec<char>, v: &Val)
    ensures
        final(out)@ == old(out)@ + val_text(v@),
{
    let ghost o = out@;
    match v {
        Val::New(s) => {
            push_str(out, "New(");
            push_debug(out, s.as_str());
            push_str(out, ")");
            assert(out@ =~= o + val_text(v@));
        },
        Val::FromEnv(s) => {
            push_str(out, "FromEnv(");
            push_debug(out, s.as_str());
            push_str(out, ")");
            assert(out@ =~= o + val_text(v@));
        },
    }
}

fn push_env(out: &mut Vec<char>, e: &Env)
    ensures
        final(out)@ == old(out)@ + env_text(e@),
{
    let ghost o = out@;
    match e {
        Env::Keep(s) => {
            push_str(out, "Keep(");
            push_debug(out, s.as_str());
            push_str(out, ")");
        },
        Env::Remove(s) => {
            push_str(out, "Remove(");
            push_debug(out, s.as_str());
            push_str(out, ")");
        },
        Env::Assign { key, val } => {
            push_str(out, "Set(\"");
            push_str(out, key.as_str());
            push_str(out, "\"=");
            push_val(out, val);
            push_str(out, ")");
        },
    }
    assert(out@ =~= o + env_text(e@));
}

impl Env {
    /// The entry as text (see `env_text`).
    pub fn to_string(&self) -> (s: String)
        ensures
            s@ == env_text(self@),
    {
        let mut out: Vec<char> = Vec::new();
        push_env(&mut out, self);
        assert(out@ =~= env_text(self@));
        string_of(out.as_slice())
    }
}

/// Concatenation is associative, for a chain of five pieces.
proof fn lemma_chain5(s: Seq<char>, a: Seq<char>, b: Seq<char>, c: Seq<char>, d: Seq<char>, e: Seq<char>)
    ensures
        s + (a + b + c + d + e) == s + a + b + c + d + e,
{
    vstd::seq_lib::lemma_concat_associative(s, a + b + c + d, e);
    vstd::seq_lib::lemma_concat_associative(s, a + b + c, d);
    vstd::seq_lib::lemma_concat_associative(s, a + b, c);
    vstd::seq_lib::lemma_concat_associative(s, a, b);
}

/// The text of a flag, if it is set.
pub open spec fn flag_text(set: bool, name: Seq<char>) -> Seq<char> {
    if set {
        name
    } else {
        Seq::empty()
    }
}

fn push_flag(out: &mut Vec<char>, set: bool, name: &str)
    ensures
        final(out)@ == old(out)@ + flag_text(set, name@),
{
    if set {
        push_str(out, name);
    } else {
        assert(out@ + Seq::<char>::empty() =~= out@);
    }
}

fn push_flags(out: &mut Vec<char>, o: &Options)
    ensures
        final(out)@ == old(out)@ + flags_text(o@),
{
    let ghost start = out@;
    push_flag(out, o.nopass, "nopass ");
    push_flag(out, o.pwfeedback, "pwfeedback ");
    push_flag(out, o.insult, "insult ");
    push_flag(out, o.nolog, "nolog ");
    push_flag(out, o.keepenv, "keepenv ");
    proof {
        lemma_chain5(
            start,
            flag_text(o.nopass, "nopass "@),
            flag_text(o.pwfeedback, "pwfeedback "@),
            flag_text(o.insult, "insult "@),
            flag_text(o.nolog, "nolog "@),
            flag_text(o.keepenv, "keepenv "@),
        );
    }
}

fn push_persist(out: &mut Vec<char>, o: &Options)
    ensures
        final(out)@ == old(out)@ + persist_text(o@),
{
    let ghost start = out@;
    if let Some(d) = &o.persist {
        push_str(out, "persist {");
        push_decimal(out, d.as_secs());
        push_str(out, "s} ");
    }
    assert(out@ =~= start + persist_text(o@));
}

fn push_setenv(out: &mut Vec<char>, o: &Options)
    ensures
        final(out)@ == old(out)@ + setenv_text(o@),
{
    let ghost start = out@;
    if o.envs.len() > 0 {
        push_str(out, "setenv\nenvs: { ");
        let mut i: usize = 0;
        let ghost head = out@;
        assert(o.envs@.take(0) =~= Seq::<Env>::empty());
        assert(envs_view(o.envs@.take(0)) =~= Seq::<EnvV>::empty());
        while i < o.envs.len()
            invariant
                i <= o.envs@.len(),
                out@ == head + envs_text(envs_view(o.envs@.take(i as int))),
            decreases o.envs@.len() - i,
        {
            push_env(out, &o.envs[i]);
            push_str(out, " ");
            proof {
                let t = envs_view(o.envs@.take(i + 1));
                assert(t.drop_last() =~= envs_view(o.envs@.take(i as int)));
                assert(t.last() == o.envs@[i as int]@);
            }
            i = i + 1;
        }
        assert(o.envs@.take(o.envs@.len() as int) =~= o.envs@);
        push_str(out, "}");
    }
    assert(out@ =~= start + setenv_text(o@));
}

fn push_options(out: &mut Vec<char>, o: &Options)
    ensures
        final(out)@ == old(out)@ + options_text(o@),
{
    let ghost start = out@;
    push_flags(out, o);
    push_persist(out, o);
    push_setenv(out, o);
    assert(out@ =~= start + options_text(o@));
}

impl Options {
    /// The options as text (see `options_text`).
    pub fn to_string(&self) -> (s: String)
        ensures
            s@ == options_text(self@),
    {
        let mut out: Vec<char> = Vec::new();
        push_options(&mut out, self);
        assert(out@ =~= options_text(self@));
        string_of(out.as_slice())
    }
}

fn push_identity(out: &mut Vec<char>, i: &Identity)
    ensures
        final(out)@ == old(out)@ + identity_text(i@),
{
    let ghost o = out@;
    match i {
        Identity::User(u) => {
            push_str(out, "User(");
            push_debug(out, u.as_str());
            push_str(out, ")");
        },
        Identity::Group(g) => {
            push_str(out, "Group(");
            push_debug(out, g.as_str());
            push_str(out, ")");
        },
        Identity::Both { user, group } => {
            push_str(out, "User(\"");
            push_str(out, user.as_str());
            push_str(out, "\"), Group(\"");
            push_str(out, group.as_str());
            push_str(out, "\")");
        },
    }
    assert(out@ =~= o + identity_text(i@));
}

impl Identity {
    /// Whom the rule is for, as text (see `identity_text`).
    pub fn to_string(&self) -> (s: String)
        ensures
            s@ == identity_text(self@),
    {
        let mut out: Vec<char> = Vec::new();
        push_identity(&mut out, self);
        assert(out@ =~= identity_text(self@));
        string_of(out.as_slice())
    }
}

fn push_args(out: &mut Vec<char>, args: &Vec<String>)
    ensures
        final(out)@ == old(out)@ + args_text(strings_view(args@)),
{
    let ghost o = out@;
    let ghost a = strings_view(args@);
    push_str(out, "[");
    let ghost head = out@;
    let mut i: usize = 0;
    assert(a.take(0) =~= Seq::<Seq<char>>::empty());
    while i < args.len()
        invariant
            a == strings_view(args@),
            i <= args@.len(),
            out@ == head + list_body(a.take(i as int)),
        decreases args@.len() - i,
    {
        let ghost before = out@;
        if i > 0 {
            push_str(out, ", ");
        }
        push_debug(out, args[i].as_str());
        proof {
            let t = a.take(i + 1);
            assert(t.drop_last() =~= a.take(i as int));
            assert(t.last() == args@[i as int]@);
            if i == 0 {
                assert(out@ =~= head + list_body(t));
            } else {
                assert(out@ =~= head + list_body(t));
            }
        }
        i = i + 1;
    }
    assert(a.take(args@.len() as int) =~= a);
    push_str(out, "]");
    assert(out@ =~= o + args_text(a));
}

fn push_action_line(out: &mut Vec<char>, p: &ParsingConfig)
    ensures
        final(out)@ == old(out)@ + action_line(p@),
{
    let ghost o = out@;
    push_str(out, "action: ");
    match p.action() {
        Some(a) => push_action(out, a),
        None => push_str(out, "None"),
    }
    push_str(out, "\n");
    assert(out@ =~= o + action_line(p@));
}

fn push_options_line(out: &mut Vec<char>, p: &ParsingConfig)
    ensures
        final(out)@ == old(out)@ + options_line(p@),
{
    let ghost o = out@;
    let opts = p.options();
    if !options_are_default(opts) {
        push_str(out, "options: ");
        push_options(out, opts);
        push_str(out, "\n");
    }
    assert(out@ =~= o + options_line(p@));
}

fn push_identity_line(out: &mut Vec<char>, p: &ParsingConfig)
    ensures
        final(out)@ == old(out)@ + identity_line(p@),
{
    let ghost o = out@;
    push_str(out, "identity: ");
    match p.identity() {
        Some(i) => push_identity(out, i),
        None => push_str(out, "None"),
    }
    push_str(out, "\n");
    assert(out@ =~= o + identity_line(p@));
}

fn push_target_line(out: &mut Vec<char>, p: &ParsingConfig)
    ensures
        final(out)@ == old(out)@ + target_line(p@),
{
    let ghost o = out@;
    match p.target() {
        Some(t) => {
            push_str(out, "target: ");
            push_str(out, t.as_str());
            push_str(out, "\n");
        },
        None => {},
    }
    assert(out@ =~= o + target_line(p@));
}

fn push_cmd_lines(out: &mut Vec<char>, p: &ParsingConfig)
    ensures
        final(out)@ == old(out)@ + cmd_lines(p@),
{
    let ghost o = out@;
    match p.cmd() {
        Some(c) => {
            push_str(out, "cmd: ");
            push_str(out, c.cmd().as_str());
            push_str(out, "\n");
            match c.cmd_args() {
                Some(a) => {
                    push_str(out, "args: ");
                    push_args(out, a);
                    push_str(out, "\n");
                },
                None => {},
            }
        },
        None => {},
    }
    assert(out@ =~= o + cmd_lines(p@));
}

fn push_parsing(out: &mut Vec<char>, p: &ParsingConfig)
    ensures
        final(out)@ == old(out)@ + parsing_text(p@),
{
    let ghost o = out@;
    push_action_line(out, p);
    push_options_line(out, p);
    push_identity_line(out, p);
    push_target_line(out, p);
    push_cmd_lines(out, p);
    proof {
        lemma_chain5(o, action_line(p@), options_line(p@), identity_line(p@), target_line(p@), cmd_lines(p@));
    }
}

/// Whether no option is set.
fn options_are_default(o: &Options) -> (b: bool)
    ensures
        b == (o@ == default_options()),
{
    let b = !o.nopass && !o.pwfeedback && !o.insult && !o.nolog && o.persist.is_none()
        && !o.keepenv && o.envs.len() == 0;
    proof {
        if b {
            assert(envs_view(o.envs@) =~= Seq::<EnvV>::empty());
            assert(o@ =~= default_options());
        }
        if o@ == default_options() {
            assert(envs_view(o.envs@).len() == 0);
        }
    }
    b
}

impl ParsingConfig {
    /// The rule as text (see `parsing_text`).
    pub fn to_string(&self) -> (s: String)
        ensures
            s@ == parsing_text(self@),
    {
        let mut out: Vec<char> = Vec::new();
        push_parsing(&mut out, self);
        assert(out@ =~= parsing_text(self@));
        string_of(out.as_slice())
    }
}

// ---------------------------------------------------------------------------
// Error messages

/// The message of a duration that could not be read.
pub open spec fn duration_error_text(e: DurationError) -> Seq<char> {
    match e {
        DurationError::Invalid => "invalid duration"@,
        DurationError::InvalidNumber => "invalid duration number"@,
        DurationError::InvalidUnit => "invalid duration unit"@,
    }
}

impl DurationError {
    /// The error's message (see `duration_error_text`).
    pub fn message(&self) -> (s: String)
        ensures
            s@ == duration_error_text(*self),
    {
        match self {
            DurationError::Invalid => String::from_str("invalid duration"),
            DurationError::InvalidNumber => String::from_str("invalid duration number"),
            DurationError::InvalidUnit => String::from_str("invalid duration unit"),
        }
    }
}

/// The message of an error in a rule.
pub open spec fn syntax_error_text(e: SyntaxErrorV) -> Seq<char> {
    match e {
        SyntaxErrorV::MissingAction => "missing action"@,
        SyntaxErrorV::MissingDuration => "missing duration after \"persist { \""@,
        SyntaxErrorV::Duration(d) => duration_error_text(d),
        SyntaxErrorV::MissingDurationClose => "missing \"}\" after duration"@,
        SyntaxErrorV::MissingEnvs => "missing envs after \"setenv\""@,
        SyntaxErrorV::EmptyEnvs => "missing envs inside \"{}\""@,
        SyntaxErrorV::MissingEnvAfterDash(t) => "invalid env: "@ + t
            + ", missing an env after \"-\""@,
        SyntaxErrorV::MissingKey(t) => "invalid env: "@ + t + ", missing a key before \"=\""@,
        SyntaxErrorV::MissingValue(t) => "invalid env: "@ + t
            + ", missing a value after \"=\""@,
        SyntaxErrorV::MissingEnvNameAfterDollar => "missing env name after \"$\""@,
        SyntaxErrorV::MissingEnvsClose => "missing \"}\" after envs"@,
        SyntaxErrorV::MissingIdentity => "missing identity"@,
        SyntaxErrorV::MissingTarget => "missing target after \"as\""@,
        SyntaxErrorV::ExpectedCmd => "expected \"cmd\" before command"@,
        SyntaxErrorV::MissingCommand => "missing command after \"cmd\""@,
        SyntaxErrorV::ExpectedArgs => "expected \"args\" after command"@,
    }
}

fn push_syntax_error(out: &mut Vec<char>, e: &SyntaxError)
    ensures
        final(out)@ == old(out)@ + syntax_error_text(e@),
{
    let ghost o = out@;
    match e {
        SyntaxError::MissingAction => push_str(out, "missing action"),
        SyntaxError::MissingDuration => push_str(out, "missing duration after \"persist { \""),
        SyntaxError::Duration(d) => {
            let m = d.message();
            push_str(out, m.as_str());
        },
        SyntaxError::MissingDurationClose => push_str(out, "missing \"}\" after duration"),
        SyntaxError::MissingEnvs => push_str(out, "missing envs after \"setenv\""),
        SyntaxError::EmptyEnvs => push_str(out, "missing envs inside \"{}\""),
        SyntaxError::MissingEnvAfterDash(t) => {
            push_str(out, "invalid env: ");
            push_str(out, t.as_str());
            push_str(out, ", missing an env after \"-\"");
        },
        SyntaxError::MissingKey(t) => {
            push_str(out, "invalid env: ");
            push_str(out, t.as_str());
            push_str(out, ", missing a key before \"=\"");
        },
        SyntaxError::MissingValue(t) => {
            push_str(out, "invalid env: ");
            push_str(out, t.as_str());
            push_str(out, ", missing a value after \"=\"");
        },
        SyntaxError::MissingEnvNameAfterDollar => push_str(out, "missing env name after \"$\""),
        SyntaxError::MissingEnvsClose => push_str(out, "missing \"}\" after envs"),
        SyntaxError::MissingIdentity => push_str(out, "missing identity"),
        SyntaxError::MissingTarget => push_str(out, "missing target after \"as\""),
        SyntaxError::ExpectedCmd => push_str(out, "expected \"cmd\" before command"),
        SyntaxError::MissingCommand => push_str(out, "missing command after \"cmd\""),
        SyntaxError::ExpectedArgs => push_str(out, "expected \"args\" after command"),
    }
    assert(out@ =~= o + syntax_error_text(e@));
}

impl SyntaxError {
    /// The error's message (see `syntax_error_text`).
    pub fn message(&self) -> (s: String)
        ensures
            s@ == syntax_error_text(self@),
    {
        let mut out: Vec<char> = Vec::new();
        push_syntax_error(&mut out, self);
        assert(out@ =~= syntax_error_text(self@));
        string_of(out.as_slice())
    }
}

/// The message of a rule file with the wrong mode or owner.
pub open spec fn permission_error_text(e: PermissionError) -> Seq<char> {
    match e {
        PermissionError::Writable => "config file is writable by group or other"@,
        PermissionError::NotOwnedByRoot => "config file is not owned by root"@,
    }
}

impl PermissionError {
    /// The error's message (see `permission_error_text`).
    pub fn message(&self) -> (s: String)
        ensures
            s@ == permission_error_text(*self),
    {
        match self {
            PermissionError::Writable => String::from_str("config file is writable by group or other"),
            PermissionError::NotOwnedByRoot => String::from_str("config file is not owned by root"),
        }
    }
}

/// How an error in the rule file is reported: what is wrong with the
/// file's mode or owner, with its path; or the line of a faulty rule, the
/// error, and the rule as far as it was read. The report ends a line.
pub open spec fn config_error_text(e: ConfigErrorV) -> Seq<char> {
    match e {
        ConfigErrorV::Permission(p, path) => "permission: "@ + permission_error_text(p)
            + ", file path: "@ + path + "\n"@,
        ConfigErrorV::Syntax(s, line, pc) => "syntax: line "@ + dec_repr(line) + ": "@
            + syntax_error_text(s) + "\nwhile parsing rule:\n\n"@ + parsing_text(pc) + "\n"@,
    }
}

/// An error in the rule file, as a value.
pub ghost enum ConfigErrorV {
    Permission(PermissionError, Seq<char>),
    Syntax(SyntaxErrorV, nat, ParsingV),
}

impl ConfigError {
    pub open spec fn view(&self) -> ConfigErrorV {
        match self {
            ConfigError::Permission(p, path) => ConfigErrorV::Permission(*p, path@),
            ConfigError::Syntax(s, line, pc) => ConfigErrorV::Syntax(s@, *line as nat, (**pc)@),
        }
    }

    /// The error's report (see `config_error_text`).
    pub fn to_string(&self) -> (s: String)
        ensures
            s@ == config_error_text(self@),
    {
        let mut out: Vec<char> = Vec::new();
        match self {
            ConfigError::Permission(p, path) => {
                push_str(&mut out, "permission: ");
                let m = p.message();
                push_str(&mut out, m.as_str());
                push_str(&mut out, ", file path: ");
                push_str(&mut out, path.as_str());
                push_str(&mut out, "\n");
            },
            ConfigError::Syntax(s, line, pc) => {
                push_str(&mut out, "syntax: line ");
                push_decimal(&mut out, *line as u64);
                push_str(&mut out, ": ");
                push_syntax_error(&mut out, s);
                push_str(&mut out, "\nwhile parsing rule:\n\n");
                push_parsing(&mut out, pc);
                push_str(&mut out, "\n");
            },
        }
        assert(out@ =~= config_error_text(self@));
        string_of(out.as_slice())
    }
}

/// The verdict of a check of the rule file: that its syntax is fine when
/// no command was given; else `permit` (with ` nopass` when the deciding
/// rule asks for no password) or `deny`.
pub open spec fn verdict_text(r: CheckResult) -> Seq<char> {
    match r {
        CheckResult::SyntaxOk(_) => "the configuration file syntax is ok"@,
        CheckResult::Permit(c) => if c@.options.nopass {
            "permit nopass"@
        } else {
            "permit"@
        },
        CheckResult::Deny(_) => "deny"@,
    }
}

/// The verdict of a check says `permit` exactly when the check permits,
/// followed by ` nopass` exactly when the deciding rule asks for no
/// password; a denial says `deny`.
pub proof fn law_verdict_names_the_decision(r: CheckResult)
    ensures
        r is Permit ==> verdict_text(r).len() >= 6 && verdict_text(r).take(6) == "permit"@,
        r is Permit ==> (verdict_text(r) == "permit nopass"@ <==> (r->Permit_0)@.options.nopass),
        r is Permit && !(r->Permit_0)@.options.nopass ==> verdict_text(r) == "permit"@,
        !(r is Permit) ==> verdict_text(r).len() < 6 || verdict_text(r).take(6) != "permit"@,
        r is Deny ==> verdict_text(r) == "deny"@,
{
    reveal_strlit("permit");
    reveal_strlit("permit nopass");
    reveal_strlit("deny");
    reveal_strlit("the configuration file syntax is ok");
    assert("permit nopass"@.take(6) =~= "permit"@);
    assert("permit"@.take(6) =~= "permit"@);
    if r is SyntaxOk {
        assert("the configuration file syntax is ok"@.take(6)[0] != "permit"@[0]);
    }
    assert("permit nopass"@ != "permit"@) by {
        assert("permit nopass"@.len() != "permit"@.len());
    }
}

/// The verdict line of a check (see `verdict_text`).
pub fn check_verdict(r: &CheckResult) -> (s: String)
    ensures
        s@ == verdict_text(*r),
{
    match r {
        CheckResult::SyntaxOk(_) => String::from_str("the configuration file syntax is ok"),
        CheckResult::Permit(c) => if c.options().nopass {
            String::from_str("permit nopass")
        } else {
            String::from_str("permit")
        },
        CheckResult::Deny(_) => String::from_str("deny"),
    }
}

} // verus!
