//! The library's view of the C library: the password entry of a user,
//! names resolved to ids, and the environment a command runs with.
use vstd::prelude::*;
use vstd::slice::slice_to_vec;

use crate::config::{bytes_of, Config, ConfigV, Env, EnvV, Val, ValV};
use crate::env::{EnvMap, SAFE_PATH};
use crate::sys::{accepted_below, GID_MAX, UID_MAX};
use crate::text::{chars_of, parse_uint, parse_unsigned};

verus! {

broadcast use vstd::string::group_string_axioms;

/// A user's entry in the password table; names and paths as bytes.
#[derive(Debug, Clone)]
pub struct Passwd {
    pub pw_name: Vec<u8>,
    pub pw_passwd: Vec<u8>,
    pub pw_uid: u32,
    pub pw_gid: u32,
    pub pw_gecos: Vec<u8>,
    pub pw_dir: Vec<u8>,
    pub pw_shell: Vec<u8>,
}

/// Whether a text holds a NUL character (it cannot be handed to the C library).
pub open spec fn has_nul(s: Seq<char>) -> bool {
    exists|i: int| 0 <= i < s.len() && s[i] == '\0'
}

/// The id a name stands for: the id the system's table gives for it
/// (`entry`), or else the name read as a number; a name holding a NUL, an
/// unknown name that is not a number, and the id `max` give `None`.
pub open spec fn spec_parse_id(name: Seq<char>, entry: Option<u32>, max: u32) -> Option<u32> {
    if has_nul(name) {
        None
    } else {
        match entry {
            Some(id) => if id == max {
                None
            } else {
                Some(id)
            },
            None => match parse_unsigned(name, u32::MAX as nat) {
                Some(v) => if v == max {
                    None
                } else {
                    Some(v as u32)
                },
                None => None,
            },
        }
    }
}

fn contains_nul(s: &[char]) -> (b: bool)
    ensures
        b == has_nul(s@),
{
    let mut i: usize = 0;
    while i < s.len()
        invariant
            i <= s@.len(),
            forall|j: int| 0 <= j < i ==> s@[j] != '\0',
        decreases s@.len() - i,
    {
        if s[i] == '\0' {
            return true;
        }
        i = i + 1;
    }
    false
}

fn parse_id(name: &str, entry: Option<u32>, max: u32) -> (r: Result<u32, ()>)
    ensures
        match spec_parse_id(name@, entry, max) {
            Some(id) => r == Ok::<u32, ()>(id),
            None => r is Err,
        },
{
    let s = chars_of(name);
    if contains_nul(s.as_slice()) {
        return Err(());
    }
    match entry {
        Some(id) => {
            if id == max {
                Err(())
            } else {
                Ok(id)
            }
        },
        None => match parse_uint(s.as_slice(), u32::MAX as u64) {
            Some(v) => {
                if v == max as u64 {
                    Err(())
                } else {
                    Ok(v as u32)
                }
            },
            None => Err(()),
        },
    }
}

/// The user id a name stands for, given what the password table says of it.
pub fn parse_uid(uid: &str, entry: Option<u32>) -> (r: Result<u32, ()>)
    ensures
        match spec_parse_id(uid@, entry, UID_MAX) {
            Some(id) => r == Ok::<u32, ()>(id),
            None => r is Err,
        },
{
    parse_id(uid, entry, UID_MAX)
}

/// The group id a name stands for, given what the group table says of it.
pub fn parse_gid(gid: &str, entry: Option<u32>) -> (r: Result<u32, ()>)
    ensures
        match spec_parse_id(gid@, entry, GID_MAX) {
            Some(id) => r == Ok::<u32, ()>(id),
            None => r is Err,
        },
{
    parse_id(gid, entry, GID_MAX)
}


// ---------------------------------------------------------------------------
// The command's environment

/// The bytes of a text.
pub open spec fn lit(s: &str) -> Seq<u8> {
    bytes_of(s@)
}

/// Copies a variable from the caller's environment, if it is set there.
pub open spec fn inherit(m: Map<Seq<u8>, Seq<u8>>, environ: Map<Seq<u8>, Seq<u8>>, key: Seq<u8>) -> Map<Seq<u8>, Seq<u8>> {
    if environ.contains_key(key) {
        m.insert(key, environ[key])
    } else {
        m
    }
}

/// The variables every command gets: who called it, and the target user's
/// home, name and shell; `DISPLAY` and `TERM` pass through.
pub open spec fn spec_create_env(
    my_name: Seq<u8>,
    target_name: Seq<u8>,
    target_dir: Seq<u8>,
    target_shell: Seq<u8>,
    environ: Map<Seq<u8>, Seq<u8>>,
) -> Map<Seq<u8>, Seq<u8>> {
    let base = Map::<Seq<u8>, Seq<u8>>::empty().insert(lit("DOAS_USER"), my_name).insert(
        lit("HOME"),
        target_dir,
    ).insert(lit("LOGNAME"), target_name).insert(lit("SHELL"), target_shell).insert(
        lit("USER"),
        target_name,
    );
    inherit(inherit(base, environ, lit("DISPLAY")), environ, lit("TERM"))
}

/// `PATH`: the caller's, unless the rule names a command (or the caller has
/// none), in which case the safe path.
pub open spec fn spec_set_path(m: Map<Seq<u8>, Seq<u8>>, has_cmd: bool, environ: Map<Seq<u8>, Seq<u8>>) -> Map<Seq<u8>, Seq<u8>> {
    if !has_cmd && environ.contains_key(lit("PATH")) {
        m.insert(lit("PATH"), environ[lit("PATH")])
    } else {
        m.insert(lit("PATH"), lit(SAFE_PATH))
    }
}

/// `keepenv`: every variable of the caller's environment not set already.
pub open spec fn spec_keep_envs(m: Map<Seq<u8>, Seq<u8>>, environ: Map<Seq<u8>, Seq<u8>>) -> Map<Seq<u8>, Seq<u8>> {
    environ.union_prefer_right(m)
}

/// One entry of the rule's `setenv` list.
pub open spec fn apply_env(m: Map<Seq<u8>, Seq<u8>>, e: EnvV, environ: Map<Seq<u8>, Seq<u8>>) -> Map<Seq<u8>, Seq<u8>> {
    match e {
        EnvV::Keep(k) => inherit(m, environ, bytes_of(k)),
        EnvV::Remove(k) => m.remove(bytes_of(k)),
        EnvV::Assign(k, ValV::New(v)) => m.insert(bytes_of(k), bytes_of(v)),
        EnvV::Assign(k, ValV::FromEnv(v)) => if environ.contains_key(bytes_of(v)) {
            m.insert(bytes_of(k), environ[bytes_of(v)])
        } else {
            m
        },
    }
}

/// The rule's `setenv` list, entry after entry.
pub open spec fn apply_envs(m: Map<Seq<u8>, Seq<u8>>, envs: Seq<EnvV>, environ: Map<Seq<u8>, Seq<u8>>) -> Map<Seq<u8>, Seq<u8>>
    decreases envs.len(),
{
    if envs.len() == 0 {
        m
    } else {
        apply_envs(apply_env(m, envs[0], environ), envs.drop_first(), environ)
    }
}

/// The environment of the command.
pub open spec fn spec_prep_env(
    mypw: Passwd,
    target_pw: Passwd,
    rule: ConfigV,
    environ: Map<Seq<u8>, Seq<u8>>,
) -> Map<Seq<u8>, Seq<u8>> {
    let m1 = spec_create_env(mypw.pw_name@, target_pw.pw_name@, target_pw.pw_dir@, target_pw.pw_shell@, environ);
    let m2 = spec_set_path(m1, rule.cmd is Some, environ);
    let m3 = if rule.options.keepenv {
        spec_keep_envs(m2, environ)
    } else {
        m2
    };
    apply_envs(m3, rule.options.envs, environ)
}

/// Texts that differ in length or in their first character have different
/// bytes.
proof fn lemma_lit_distinct(a: &str, b: &str)
    requires
        a@.len() != b@.len() || (a@.len() > 0 && b@.len() > 0 && a@[0] != b@[0]),
    ensures
        lit(a) != lit(b),
{
    vstd::utf8::encode_utf8_decode_utf8(a@);
    vstd::utf8::encode_utf8_decode_utf8(b@);
}

/// The variables doas sets itself (who called, and the target user's home,
/// name and shell) keep their values when `keepenv` lets the caller's
/// environment in: that environment only adds variables. Only the rule's own
/// `setenv` list could change them.
pub proof fn law_keepenv_only_adds(
    mypw: Passwd,
    target_pw: Passwd,
    rule: ConfigV,
    environ: Map<Seq<u8>, Seq<u8>>,
)
    requires
        rule.options.envs.len() == 0,
    ensures
        spec_prep_env(mypw, target_pw, rule, environ).contains_key(lit("DOAS_USER")),
        spec_prep_env(mypw, target_pw, rule, environ)[lit("DOAS_USER")] == mypw.pw_name@,
        spec_prep_env(mypw, target_pw, rule, environ)[lit("HOME")] == target_pw.pw_dir@,
        spec_prep_env(mypw, target_pw, rule, environ)[lit("LOGNAME")] == target_pw.pw_name@,
        spec_prep_env(mypw, target_pw, rule, environ)[lit("SHELL")] == target_pw.pw_shell@,
        spec_prep_env(mypw, target_pw, rule, environ)[lit("USER")] == target_pw.pw_name@,
        rule.options.keepenv ==> forall|k: Seq<u8>|
            #[trigger] environ.contains_key(k) ==> spec_prep_env(
                mypw,
                target_pw,
                rule,
                environ,
            ).contains_key(k),
{
    reveal_strlit("DOAS_USER");
    reveal_strlit("HOME");
    reveal_strlit("LOGNAME");
    reveal_strlit("SHELL");
    reveal_strlit("USER");
    reveal_strlit("DISPLAY");
    reveal_strlit("TERM");
    reveal_strlit("PATH");
    lemma_lit_distinct("DOAS_USER", "HOME");
    lemma_lit_distinct("DOAS_USER", "LOGNAME");
    lemma_lit_distinct("DOAS_USER", "SHELL");
    lemma_lit_distinct("DOAS_USER", "USER");
    lemma_lit_distinct("DOAS_USER", "DISPLAY");
    lemma_lit_distinct("DOAS_USER", "TERM");
    lemma_lit_distinct("DOAS_USER", "PATH");
    lemma_lit_distinct("HOME", "LOGNAME");
    lemma_lit_distinct("HOME", "SHELL");
    lemma_lit_distinct("HOME", "USER");
    lemma_lit_distinct("HOME", "DISPLAY");
    lemma_lit_distinct("HOME", "TERM");
    lemma_lit_distinct("HOME", "PATH");
    lemma_lit_distinct("LOGNAME", "SHELL");
    lemma_lit_distinct("LOGNAME", "USER");
    lemma_lit_distinct("LOGNAME", "DISPLAY");
    lemma_lit_distinct("LOGNAME", "TERM");
    lemma_lit_distinct("LOGNAME", "PATH");
    lemma_lit_distinct("SHELL", "USER");
    lemma_lit_distinct("SHELL", "DISPLAY");
    lemma_lit_distinct("SHELL", "TERM");
    lemma_lit_distinct("SHELL", "PATH");
    lemma_lit_distinct("USER", "DISPLAY");
    lemma_lit_distinct("USER", "TERM");
    lemma_lit_distinct("USER", "PATH");
    assert(rule.options.envs =~= Seq::<EnvV>::empty());
}

/// The variable a `setenv` entry is about.
pub open spec fn env_name(e: EnvV) -> Seq<u8> {
    match e {
        EnvV::Keep(k) => bytes_of(k),
        EnvV::Remove(k) => bytes_of(k),
        EnvV::Assign(k, _) => bytes_of(k),
    }
}

/// A `setenv` list leaves alone every variable that none of its entries names.
proof fn lemma_envs_leave_alone(
    m: Map<Seq<u8>, Seq<u8>>,
    envs: Seq<EnvV>,
    environ: Map<Seq<u8>, Seq<u8>>,
    key: Seq<u8>,
)
    requires
        forall|i: int| 0 <= i < envs.len() ==> env_name(#[trigger] envs[i]) != key,
    ensures
        apply_envs(m, envs, environ).contains_key(key) == m.contains_key(key),
        m.contains_key(key) ==> apply_envs(m, envs, environ)[key] == m[key],
    decreases envs.len(),
{
    if envs.len() > 0 {
        let m1 = apply_env(m, envs[0], environ);
        assert(env_name(envs[0]) != key);
        assert(m1.contains_key(key) == m.contains_key(key));
        assert(m.contains_key(key) ==> m1[key] == m[key]);
        assert forall|i: int| 0 <= i < envs.drop_first().len() implies env_name(
            #[trigger] envs.drop_first()[i],
        ) != key by {
            assert(envs.drop_first()[i] == envs[i + 1]);
        }
        lemma_envs_leave_alone(m1, envs.drop_first(), environ, key);
    }
}

/// `DISPLAY` and `TERM` pass through: unless the rule's `setenv` list names
/// it, each is set for the command exactly when the caller has it, and to
/// the caller's value.
pub proof fn law_terminal_passes_through(
    mypw: Passwd,
    target_pw: Passwd,
    rule: ConfigV,
    environ: Map<Seq<u8>, Seq<u8>>,
    name: &str,
)
    requires
        name == "DISPLAY" || name == "TERM",
        forall|i: int| 0 <= i < rule.options.envs.len() ==> env_name(#[trigger] rule.options.envs[i]) != lit(name),
    ensures
        spec_prep_env(mypw, target_pw, rule, environ).contains_key(lit(name)) <==> environ.contains_key(lit(name)),
        environ.contains_key(lit(name)) ==> spec_prep_env(mypw, target_pw, rule, environ)[lit(name)]
            == environ[lit(name)],
{
    reveal_strlit("DOAS_USER");
    reveal_strlit("HOME");
    reveal_strlit("LOGNAME");
    reveal_strlit("SHELL");
    reveal_strlit("USER");
    reveal_strlit("DISPLAY");
    reveal_strlit("TERM");
    reveal_strlit("PATH");
    lemma_lit_distinct("DISPLAY", "DOAS_USER");
    lemma_lit_distinct("DISPLAY", "HOME");
    lemma_lit_distinct("DISPLAY", "LOGNAME");
    lemma_lit_distinct("DISPLAY", "SHELL");
    lemma_lit_distinct("DISPLAY", "USER");
    lemma_lit_distinct("DISPLAY", "TERM");
    lemma_lit_distinct("DISPLAY", "PATH");
    lemma_lit_distinct("TERM", "DOAS_USER");
    lemma_lit_distinct("TERM", "HOME");
    lemma_lit_distinct("TERM", "LOGNAME");
    lemma_lit_distinct("TERM", "SHELL");
    lemma_lit_distinct("TERM", "USER");
    lemma_lit_distinct("TERM", "PATH");
    let key = lit(name);
    let m1 = spec_create_env(mypw.pw_name@, target_pw.pw_name@, target_pw.pw_dir@, target_pw.pw_shell@, environ);
    let m2 = spec_set_path(m1, rule.cmd is Some, environ);
    let m3 = if rule.options.keepenv {
        spec_keep_envs(m2, environ)
    } else {
        m2
    };
    assert(m1.contains_key(key) <==> environ.contains_key(key));
    assert(environ.contains_key(key) ==> m1[key] == environ[key]);
    assert(m3.contains_key(key) <==> environ.contains_key(key));
    assert(environ.contains_key(key) ==> m3[key] == environ[key]);
    lemma_envs_leave_alone(m3, rule.options.envs, environ, key);
}

/// `PATH`, unless the rule's `setenv` list names it: the caller's when the
/// rule names no command and the caller has one; the safe path otherwise.
pub proof fn law_command_path(
    mypw: Passwd,
    target_pw: Passwd,
    rule: ConfigV,
    environ: Map<Seq<u8>, Seq<u8>>,
)
    requires
        forall|i: int| 0 <= i < rule.options.envs.len() ==> env_name(#[trigger] rule.options.envs[i]) != lit("PATH"),
    ensures
        spec_prep_env(mypw, target_pw, rule, environ).contains_key(lit("PATH")),
        rule.cmd is None && environ.contains_key(lit("PATH")) ==> spec_prep_env(mypw, target_pw, rule, environ)[lit("PATH")]
            == environ[lit("PATH")],
        !(rule.cmd is None && environ.contains_key(lit("PATH"))) ==> spec_prep_env(
            mypw,
            target_pw,
            rule,
            environ,
        )[lit("PATH")] == lit(SAFE_PATH),
{
    let key = lit("PATH");
    let m1 = spec_create_env(mypw.pw_name@, target_pw.pw_name@, target_pw.pw_dir@, target_pw.pw_shell@, environ);
    let m2 = spec_set_path(m1, rule.cmd is Some, environ);
    let m3 = if rule.options.keepenv {
        spec_keep_envs(m2, environ)
    } else {
        m2
    };
    assert(m3.contains_key(key) && m3[key] == m2[key]);
    lemma_envs_leave_alone(m3, rule.options.envs, environ, key);
}

fn copy_bytes(v: &[u8]) -> (r: Vec<u8>)
    ensures
        r@ == v@,
{
    slice_to_vec(v)
}

fn str_bytes(s: &str) -> (r: Vec<u8>)
    ensures
        r@ == bytes_of(s@),
{
    slice_to_vec(s.as_bytes())
}

/// Copies a variable from the caller's environment, if it is set there.
fn fill_env_inherit(envs: &mut EnvMap, environ: &EnvMap, key: &str)
    requires
        old(envs).wf(),
        environ.wf(),
    ensures
        final(envs).wf(),
        final(envs)@ == inherit(old(envs)@, environ@, bytes_of(key@)),
{
    let k = str_bytes(key);
    match environ.get(k.as_slice()) {
        Some(v) => {
            let v = copy_bytes(v.as_slice());
            envs.insert(k, v);
        },
        None => {},
    }
}

fn create_env(mypw: &Passwd, target_pw: &Passwd, environ: &EnvMap) -> (envs: EnvMap)
    requires
        environ.wf(),
    ensures
        envs.wf(),
        envs@ == spec_create_env(mypw.pw_name@, target_pw.pw_name@, target_pw.pw_dir@, target_pw.pw_shell@, environ@),
{
    let mut envs = EnvMap::new();
    envs.insert(str_bytes("DOAS_USER"), copy_bytes(mypw.pw_name.as_slice()));
    envs.insert(str_bytes("HOME"), copy_bytes(target_pw.pw_dir.as_slice()));
    envs.insert(str_bytes("LOGNAME"), copy_bytes(target_pw.pw_name.as_slice()));
    envs.insert(str_bytes("SHELL"), copy_bytes(target_pw.pw_shell.as_slice()));
    envs.insert(str_bytes("USER"), copy_bytes(target_pw.pw_name.as_slice()));
    fill_env_inherit(&mut envs, environ, "DISPLAY");
    fill_env_inherit(&mut envs, environ, "TERM");
    envs
}

fn set_path(envs: &mut EnvMap, has_cmd: bool, environ: &EnvMap)
    requires
        old(envs).wf(),
        environ.wf(),
    ensures
        final(envs).wf(),
        final(envs)@ == spec_set_path(old(envs)@, has_cmd, environ@),
{
    let key = str_bytes("PATH");
    let val = if !has_cmd {
        match environ.get(key.as_slice()) {
            Some(v) => copy_bytes(v.as_slice()),
            None => str_bytes(SAFE_PATH),
        }
    } else {
        str_bytes(SAFE_PATH)
    };
    envs.insert(key, val);
}

/// Where the command is looked for: the safe path when the rule names the
/// command, otherwise the caller's `PATH` (nothing when it is unset).
pub fn search_dirs(has_cmd: bool, environ: &EnvMap) -> (r: Vec<u8>)
    requires
        environ.wf(),
    ensures
        has_cmd ==> r@ == lit(SAFE_PATH),
        !has_cmd && environ@.contains_key(lit("PATH")) ==> r@ == environ@[lit("PATH")],
        !has_cmd && !environ@.contains_key(lit("PATH")) ==> r@ == Seq::<u8>::empty(),
{
    if has_cmd {
        str_bytes(SAFE_PATH)
    } else {
        let key = str_bytes("PATH");
        match environ.get(key.as_slice()) {
            Some(v) => copy_bytes(v.as_slice()),
            None => Vec::new(),
        }
    }
}

fn keep_envs(envs: &mut EnvMap, environ: &EnvMap)
    requires
        old(envs).wf(),
        environ.wf(),
    ensures
        final(envs).wf(),
        final(envs)@ == spec_keep_envs(old(envs)@, environ@),
{
    let (ks, vs) = environ.entries();
    let ghost m0 = envs@;
    let mut i: usize = 0;
    while i < ks.len()
        invariant
            envs.wf(),
            environ.wf(),
            i <= ks@.len(),
            ks@.len() == vs@.len(),
            forall|j: int| 0 <= j < ks@.len() ==> environ@.contains_key(#[trigger] ks@[j]@) && environ@[ks@[j]@] == vs@[j]@,
            forall|x: Seq<u8>| #[trigger] envs@.contains_key(x) <==> m0.contains_key(x) || exists|j: int| 0 <= j < i && ks@[j]@ == x,
            forall|x: Seq<u8>| #[trigger] envs@.contains_key(x) ==> envs@[x] == if m0.contains_key(x) { m0[x] } else { environ@[x] },
        decreases ks@.len() - i,
    {
        let ghost before = envs@;
        let k = copy_bytes(ks[i].as_slice());
        let v = copy_bytes(vs[i].as_slice());
        envs.insert_if_absent(k, v);
        assert forall|x: Seq<u8>| #[trigger] envs@.contains_key(x) <==> m0.contains_key(x) || exists|j: int| 0 <= j < i + 1 && ks@[j]@ == x by {
            if x == ks@[i as int]@ {
            } else if envs@.contains_key(x) {
                assert(before.contains_key(x));
            } else if exists|j: int| 0 <= j < i + 1 && ks@[j]@ == x {
                let j = choose|j: int| 0 <= j < i + 1 && ks@[j]@ == x;
                assert(j < i);
            }
        }
        i = i + 1;
    }
    assert forall|x: Seq<u8>| #[trigger] envs@.contains_key(x) <==> spec_keep_envs(m0, environ@).contains_key(x) by {
        if environ@.contains_key(x) {
            let j = choose|j: int| 0 <= j < ks@.len() && ks@[j]@ == x;
            assert(ks@[j]@ == x);
        }
    }
    assert(envs@ =~= spec_keep_envs(m0, environ@));
}

fn apply_rule_envs(envs: &mut EnvMap, setenvs: &Vec<Env>, environ: &EnvMap)
    requires
        old(envs).wf(),
        environ.wf(),
    ensures
        final(envs).wf(),
        final(envs)@ == apply_envs(old(envs)@, crate::config::envs_view(setenvs@), environ@),
{
    let ghost all = crate::config::envs_view(setenvs@);
    let ghost m0 = envs@;
    let mut i: usize = 0;
    assert(all.subrange(0, all.len() as int) =~= all);
    while i < setenvs.len()
        invariant
            envs.wf(),
            environ.wf(),
            i <= setenvs@.len(),
            all == crate::config::envs_view(setenvs@),
            apply_envs(envs@, all.subrange(i as int, all.len() as int), environ@) == apply_envs(m0, all, environ@),
        decreases setenvs@.len() - i,
    {
        let ghost rest = all.subrange(i as int, all.len() as int);
        assert(rest.drop_first() =~= all.subrange(i + 1, all.len() as int));
        assert(rest[0] == setenvs@[i as int]@);
        match &setenvs[i] {
            Env::Keep(key) => {
                let k = str_bytes(key.as_str());
                match environ.get(k.as_slice()) {
                    Some(v) => {
                        let v = copy_bytes(v.as_slice());
                        envs.insert(k, v);
                    },
                    None => {},
                }
            },
            Env::Assign { key, val } => match val {
                Val::New(v) => {
                    envs.insert(str_bytes(key.as_str()), str_bytes(v.as_str()));
                },
                Val::FromEnv(val_key) => {
                    let vk = str_bytes(val_key.as_str());
                    match environ.get(vk.as_slice()) {
                        Some(v) => {
                            let v = copy_bytes(v.as_slice());
                            envs.insert(str_bytes(key.as_str()), v);
                        },
                        None => {},
                    }
                },
            },
            Env::Remove(key) => {
                let k = str_bytes(key.as_str());
                envs.remove(k.as_slice());
            },
        }
        i = i + 1;
    }
    assert(all.subrange(all.len() as int, all.len() as int) =~= Seq::<EnvV>::empty());
}

/// The environment a command runs with (see `spec_prep_env`), given the
/// caller's environment.
pub fn prep_env(mypw: &Passwd, target_pw: &Passwd, rule: Config, environ: &EnvMap) -> (envs: EnvMap)
    requires
        environ.wf(),
    ensures
        envs.wf(),
        envs@ == spec_prep_env(*mypw, *target_pw, rule@, environ@),
{
    let mut envs = create_env(mypw, target_pw, environ);
    set_path(&mut envs, rule.has_cmd(), environ);
    let options = rule.options();
    if options.keepenv {
        keep_envs(&mut envs, environ);
    }
    apply_rule_envs(&mut envs, &options.envs, environ);
    envs
}

/// An index below `len` from a drawn random value, or `None` when the value
/// must be drawn again (see `sys::random_index`).
pub fn random_index(len: u32, random: u32) -> (r: Option<u32>)
    requires
        len > 0,
    ensures
        random < accepted_below(len) ==> r == Some((random % len) as u32),
        random >= accepted_below(len) ==> r is None,
{
    crate::sys::random_index(len, random)
}

} // verus!
