use doas::c::{parse_gid, parse_uid, prep_env, Passwd};
use doas::config::{
    check_permission, check_rules, permit, Action, CheckResult, Config, ConfigError, Lookup,
    ParsingConfig, PermissionError, SyntaxError,
};
use doas::env::EnvMap;
use doas::render::check_verdict;
use doas::timestamp::DurationError;

fn parse(content: &str) -> Result<Vec<Config>, ConfigError> {
    let mut ignored = Vec::new();
    Config::parse(content, &mut ignored)
}

fn no_lookup() -> Lookup {
    Lookup { user: None, group: None, target: None }
}

#[test]
fn parse_rules_and_read_them_back() {
    let rules = parse("permit nopass keepenv :wheel\ndeny bob as root cmd reboot\n").unwrap();
    assert_eq!(rules.len(), 2);
    assert!(matches!(rules[0].action(), Action::Permit));
    assert!(rules[0].options().nopass);
    assert!(rules[0].options().keepenv);
    assert!(!rules[0].has_cmd());
    assert!(matches!(rules[1].action(), Action::Deny));
    assert_eq!(rules[1].target().map(|t| t.as_str()), Some("root"));
    assert!(rules[1].has_cmd());
    assert_eq!(rules[1].cmd().unwrap().cmd().as_str(), "reboot");
}

#[test]
fn parse_persist_duration() {
    let rules = parse("permit persist { 2m } alice\npermit persist bob\n").unwrap();
    assert_eq!(rules[0].options().persist.unwrap().as_secs(), 120);
    assert_eq!(rules[1].options().persist.unwrap().as_secs(), 300);
}

#[test]
fn parse_errors_report_line() {
    match parse("permit alice\n\nfrobnicate\n") {
        Err(ConfigError::Syntax(SyntaxError::MissingAction, line, _)) => assert_eq!(line, 3),
        other => panic!("unexpected {:?}", other),
    }
    match parse("permit persist { 5h } alice\n") {
        Err(ConfigError::Syntax(SyntaxError::Duration(DurationError::InvalidUnit), 1, _)) => {}
        other => panic!("unexpected {:?}", other),
    }
    match parse("permit\n") {
        Err(ConfigError::Syntax(SyntaxError::MissingIdentity, 1, _)) => {}
        other => panic!("unexpected {:?}", other),
    }
    match parse("permit alice as\n") {
        Err(ConfigError::Syntax(SyntaxError::MissingTarget, 1, _)) => {}
        other => panic!("unexpected {:?}", other),
    }
}

#[test]
fn syntax_error_report() {
    let err = parse("permit setenv { -  } alice\n").unwrap_err();
    let text = err.to_string();
    assert!(text.starts_with("syntax: line 1: "), "{}", text);
    assert!(text.contains("while parsing rule:\n\naction: Permit\n"), "{}", text);
}

#[test]
fn permission_checks() {
    assert_eq!(check_permission(0o100644, 0), Ok(()));
    assert_eq!(check_permission(0o100664, 0), Err(PermissionError::Writable));
    assert_eq!(check_permission(0o100644, 1000), Err(PermissionError::NotOwnedByRoot));
    let err = ConfigError::Permission(PermissionError::Writable, String::from("/etc/doas.conf"));
    assert_eq!(
        err.to_string(),
        "permission: config file is writable by group or other, file path: /etc/doas.conf\n"
    );
}

#[test]
fn last_matching_rule_decides() {
    let rules = parse("permit alice\ndeny alice cmd rm\n").unwrap();
    let lookups = vec![Lookup { user: Some(1000), ..no_lookup() }; 2];
    let rm = b"rm".to_vec();
    let ls = b"ls".to_vec();
    assert!(permit(rules, &lookups, 1000, &[], 0, &rm, &[]).is_none());
    let rules = parse("permit alice\ndeny alice cmd rm\n").unwrap();
    assert!(permit(rules, &lookups, 1000, &[], 0, &ls, &[]).is_some());
}

#[test]
fn no_rules_deny() {
    let cmd = b"ls".to_vec();
    assert!(permit(Vec::new(), &[], 0, &[], 0, &cmd, &[]).is_none());
}

#[test]
fn group_rule_matches_members() {
    let rules = parse("permit :wheel\n").unwrap();
    let lookups = vec![Lookup { group: Some(10), ..no_lookup() }];
    let cmd = b"id".to_vec();
    assert!(permit(rules, &lookups, 1000, &[10, 20], 0, &cmd, &[]).is_some());
    let rules = parse("permit :wheel\n").unwrap();
    assert!(permit(rules, &lookups, 1000, &[20], 0, &cmd, &[]).is_none());
}

#[test]
fn command_and_arguments_must_match() {
    let rules = parse("permit alice cmd ls args -l\n").unwrap();
    let lookups = vec![Lookup { user: Some(5), ..no_lookup() }];
    let r = &rules[0];
    let ls = b"ls".to_vec();
    assert!(r.match_rule(&lookups[0], 5, &[], 0, &ls, &[b"-l".to_vec()]).is_ok());
    assert!(r.match_rule(&lookups[0], 5, &[], 0, &ls, &[b"-a".to_vec()]).is_err());
    assert!(r.match_rule(&lookups[0], 5, &[], 0, &ls, &[]).is_err());
    assert!(r.match_rule(&lookups[0], 6, &[], 0, &ls, &[b"-l".to_vec()]).is_err());
}

#[test]
fn check_rules_verdicts() {
    let rules = parse("permit nopass alice\n").unwrap();
    let lookups = vec![Lookup { user: Some(5), ..no_lookup() }];
    let r = check_rules(rules, &lookups, 5, &[], 0, &[b"ls".to_vec()]);
    assert!(matches!(r, CheckResult::Permit(_)));
    assert_eq!(check_verdict(&r), "permit nopass");
    let rules = parse("permit nopass alice\n").unwrap();
    let r = check_rules(rules, &lookups, 6, &[], 0, &[b"ls".to_vec()]);
    assert!(matches!(r, CheckResult::Deny(None)));
    assert_eq!(check_verdict(&r), "deny");
    let rules = parse("permit nopass alice\n").unwrap();
    let r = check_rules(rules, &lookups, 6, &[], 0, &[]);
    assert_eq!(check_verdict(&r), "the configuration file syntax is ok");
}

#[test]
fn render_rule() {
    let mut rules = parse("permit nopass persist { 10s } setenv { -HOME FOO=bar } alice as root cmd ls args -l\n").unwrap();
    let rule = rules.pop().unwrap();
    let text = ParsingConfig::from(rule).to_string();
    assert_eq!(
        text,
        "action: Permit\noptions: nopass persist {10s} setenv\nenvs: { Remove(\"HOME\") Set(\"FOO\"=New(\"bar\")) }\nidentity: User(\"alice\")\ntarget: root\ncmd: ls\nargs: [\"-l\"]\n"
    );
}

#[test]
fn ids_from_names_and_numbers() {
    assert_eq!(parse_uid("root", Some(0)), Ok(0));
    assert_eq!(parse_uid("1000", None), Ok(1000));
    assert_eq!(parse_uid("65535", None), Err(()));
    assert_eq!(parse_uid("nobody-here", None), Err(()));
    assert_eq!(parse_gid("wheel", Some(10)), Ok(10));
    assert_eq!(parse_gid("+7", None), Ok(7));
}

fn pw(name: &str, dir: &str, shell: &str) -> Passwd {
    Passwd {
        pw_name: name.as_bytes().to_vec(),
        pw_passwd: b"x".to_vec(),
        pw_uid: 0,
        pw_gid: 0,
        pw_gecos: Vec::new(),
        pw_dir: dir.as_bytes().to_vec(),
        pw_shell: shell.as_bytes().to_vec(),
    }
}

fn get(m: &EnvMap, key: &str) -> Option<Vec<u8>> {
    m.get(key.as_bytes()).cloned()
}

#[test]
fn command_environment() {
    let me = pw("alice", "/home/alice", "/bin/zsh");
    let root = pw("root", "/root", "/bin/sh");
    let mut environ = EnvMap::new();
    environ.insert(b"TERM".to_vec(), b"xterm".to_vec());
    environ.insert(b"PATH".to_vec(), b"/opt/bin".to_vec());
    environ.insert(b"EDITOR".to_vec(), b"vi".to_vec());
    let mut rules = parse("permit setenv { FOO=bar -TERM } alice\n").unwrap();
    let envs = prep_env(&me, &root, rules.pop().unwrap(), &environ);
    assert_eq!(get(&envs, "DOAS_USER"), Some(b"alice".to_vec()));
    assert_eq!(get(&envs, "HOME"), Some(b"/root".to_vec()));
    assert_eq!(get(&envs, "USER"), Some(b"root".to_vec()));
    assert_eq!(get(&envs, "LOGNAME"), Some(b"root".to_vec()));
    assert_eq!(get(&envs, "SHELL"), Some(b"/bin/sh".to_vec()));
    assert_eq!(get(&envs, "PATH"), Some(b"/opt/bin".to_vec()));
    assert_eq!(get(&envs, "FOO"), Some(b"bar".to_vec()));
    assert_eq!(get(&envs, "TERM"), None);
    assert_eq!(get(&envs, "EDITOR"), None);
}

#[test]
fn command_environment_keepenv_and_safe_path() {
    let me = pw("alice", "/home/alice", "/bin/zsh");
    let root = pw("root", "/root", "/bin/sh");
    let mut environ = EnvMap::new();
    environ.insert(b"PATH".to_vec(), b"/opt/bin".to_vec());
    environ.insert(b"EDITOR".to_vec(), b"vi".to_vec());
    environ.insert(b"HOME".to_vec(), b"/home/alice".to_vec());
    environ.insert(b"USER".to_vec(), b"alice".to_vec());
    let mut rules = parse("permit keepenv alice cmd ls\n").unwrap();
    let envs = prep_env(&me, &root, rules.pop().unwrap(), &environ);
    assert_eq!(
        get(&envs, "PATH"),
        Some(b"/bin:/sbin:/usr/bin:/usr/sbin:/usr/local/bin:/usr/local/sbin".to_vec())
    );
    assert_eq!(get(&envs, "EDITOR"), Some(b"vi".to_vec()));
    assert_eq!(get(&envs, "HOME"), Some(b"/root".to_vec()));
    assert_eq!(get(&envs, "USER"), Some(b"root".to_vec()));
}

#[test]
fn unmatched_rule_changes_nothing() {
    let lookups = vec![Lookup { user: Some(1000), ..no_lookup() }, Lookup { user: Some(2000), ..no_lookup() }];
    let cmd = b"ls".to_vec();
    let rules = parse("permit alice\ndeny bob\n").unwrap();
    assert!(permit(rules, &lookups, 1000, &[], 0, &cmd, &[]).is_some());
    let rules = parse("permit alice\n").unwrap();
    assert!(permit(rules, &lookups[..1], 1000, &[], 0, &cmd, &[]).is_some());
}

#[test]
fn minutes_that_do_not_fit_stop_reading() {
    let mut ignored = Vec::new();
    assert!(Config::try_parse("permit persist { 999999999999999999m } alice\n", &mut ignored).is_none());
    let mut ignored = Vec::new();
    assert!(matches!(Config::try_parse("permit persist { 9m } alice\n", &mut ignored), Some(Ok(_))));
}

#[test]
fn quoted_setenv_entries_are_ignored() {
    let mut ignored = Vec::new();
    let rules = Config::parse("permit setenv { A \"B\" } alice\n", &mut ignored).unwrap();
    assert_eq!(ignored, vec![String::from("B")]);
    assert_eq!(rules[0].options().envs.len(), 1);
}

#[test]
fn more_syntax_errors() {
    let cases: &[(&str, fn(&SyntaxError) -> bool)] = &[
        ("permit persist {\n", |e| matches!(e, SyntaxError::MissingDuration)),
        ("permit persist { 5m alice\n", |e| matches!(e, SyntaxError::MissingDurationClose)),
        ("permit setenv alice\n", |e| matches!(e, SyntaxError::MissingEnvs)),
        ("permit setenv { } alice\n", |e| matches!(e, SyntaxError::EmptyEnvs)),
        ("permit setenv { - } alice\n", |e| matches!(e, SyntaxError::MissingEnvAfterDash(_))),
        ("permit setenv { =v } alice\n", |e| matches!(e, SyntaxError::MissingKey(_))),
        ("permit setenv { K= } alice\n", |e| matches!(e, SyntaxError::MissingValue(_))),
        ("permit setenv { K=$ } alice\n", |e| matches!(e, SyntaxError::MissingEnvNameAfterDollar)),
        ("permit setenv { K=v\n", |e| matches!(e, SyntaxError::MissingEnvsClose)),
        ("permit : \n", |e| matches!(e, SyntaxError::MissingIdentity)),
        ("permit alice run ls\n", |e| matches!(e, SyntaxError::ExpectedCmd)),
        ("permit alice cmd\n", |e| matches!(e, SyntaxError::MissingCommand)),
        ("permit alice cmd ls -l\n", |e| matches!(e, SyntaxError::ExpectedArgs)),
    ];
    for (text, is_expected) in cases {
        match parse(text) {
            Err(ConfigError::Syntax(e, _, _)) => assert!(is_expected(&e), "{}: {:?}", text, e),
            other => panic!("{}: unexpected {:?}", text, other),
        }
    }
}

#[test]
fn setenv_values() {
    let rules = parse("permit setenv { A=$B C=\"x y\" D } alice\n").unwrap();
    let envs = &rules[0].options().envs;
    assert!(matches!(&envs[0], doas::config::Env::Assign { key, val: doas::config::Val::FromEnv(v) } if key == "A" && v == "B"));
    assert!(matches!(&envs[1], doas::config::Env::Assign { key, val: doas::config::Val::New(v) } if key == "C" && v == "x y"));
    assert!(matches!(&envs[2], doas::config::Env::Keep(k) if k == "D"));
}
