use doas::config::{Env, Identity, Options, Val};
use doas::render::check_verdict;
use doas::config::{CheckResult, SyntaxError};
use doas::timestamp::Duration;

#[test]
fn render_envs_and_identities() {
    assert_eq!(Env::Keep(String::from("HOME")).to_string(), "Keep(\"HOME\")");
    assert_eq!(Env::Remove(String::from("A\"B")).to_string(), "Remove(\"A\\\"B\")");
    assert_eq!(
        Env::Assign { key: String::from("K"), val: Val::FromEnv(String::from("V")) }.to_string(),
        "Set(\"K\"=FromEnv(\"V\"))"
    );
    assert_eq!(Identity::User(String::from("root")).to_string(), "User(\"root\")");
    assert_eq!(Identity::Group(String::from("wheel")).to_string(), "Group(\"wheel\")");
    assert_eq!(
        Identity::Both { user: String::from("a"), group: String::from("b") }.to_string(),
        "User(\"a\"), Group(\"b\")"
    );
}

#[test]
fn render_options() {
    let mut o = Options::default();
    assert_eq!(o.to_string(), "");
    o.insult = true;
    o.nolog = true;
    o.persist = Some(Duration::from_secs(300));
    assert_eq!(o.to_string(), "insult nolog persist {300s} ");
    o.envs.push(Env::Keep(String::from("X")));
    assert_eq!(o.to_string(), "insult nolog persist {300s} setenv\nenvs: { Keep(\"X\") }");
}

#[test]
fn render_messages() {
    assert_eq!(SyntaxError::MissingKey(String::from("=v")).message(), "invalid env: =v, missing a key before \"=\"");
    assert_eq!(SyntaxError::ExpectedArgs.message(), "expected \"args\" after command");
    assert_eq!(check_verdict(&CheckResult::Deny(None)), "deny");
}
