use doas::pam::{account_step, conv_action, doas_prompt, is_password_prompt, AccountStep, ConvAction};
use doas::pass::{closing_bytes, finish_passwd, read_key, KeyOutcome};
use doas::utils::array::Array;
use doas::verify::{after_attempt, auth_need, AuthNeed, AuthStep};
use doas::vidoas::{confirm_word, edit_changed, edit_choice, editor_env, reuse_answer, EditChoice, ReuseAnswer};
use doas::env::EnvMap;
use doas::timestamp::{Time, Timespec};

#[test]
fn typing_a_password() {
    let mut buf = Array::<4, u8>::new();
    assert_eq!(read_key(&mut buf, true, b'a'), KeyOutcome::Continue(b"*".to_vec()));
    assert_eq!(read_key(&mut buf, true, b'b'), KeyOutcome::Continue(b"*".to_vec()));
    assert_eq!(read_key(&mut buf, true, 0x7f), KeyOutcome::Continue(b"\x08 \x08".to_vec()));
    assert_eq!(buf.as_slice(), b"a");
    assert_eq!(read_key(&mut buf, false, b'c'), KeyOutcome::Continue(Vec::new()));
    assert_eq!(read_key(&mut buf, true, 0x15), KeyOutcome::Continue(b"\x08 \x08\x08 \x08".to_vec()));
    assert!(buf.is_empty());
    assert_eq!(read_key(&mut buf, true, 0x08), KeyOutcome::Continue(Vec::new()));
    assert_eq!(read_key(&mut buf, true, 0x01), KeyOutcome::Continue(Vec::new()));
    assert_eq!(read_key(&mut buf, true, b'\r'), KeyOutcome::Done);
    assert_eq!(read_key(&mut buf, true, b'\n'), KeyOutcome::Done);
    assert_eq!(read_key(&mut buf, true, 0x04), KeyOutcome::Done);
    assert_eq!(read_key(&mut buf, true, 0x03), KeyOutcome::Abort);
}

#[test]
fn password_too_long() {
    let mut buf = Array::<2, u8>::new();
    assert!(matches!(read_key(&mut buf, false, b'x'), KeyOutcome::Continue(_)));
    assert!(matches!(read_key(&mut buf, false, b'y'), KeyOutcome::Continue(_)));
    assert_eq!(read_key(&mut buf, false, b'z'), KeyOutcome::TooLong);
    assert_eq!(finish_passwd(&mut buf), Err(()));
    let mut buf = Array::<3, u8>::new();
    read_key(&mut buf, false, 0xc3);
    read_key(&mut buf, false, 0xa9);
    assert_eq!(finish_passwd(&mut buf), Ok(()));
    assert_eq!(buf.as_slice(), &[0xc3, 0xa9, 0]);
}

#[test]
fn closing_the_prompt() {
    assert_eq!(closing_bytes(true, 2), b"\x08 \x08\x08 \x08\r\n".to_vec());
    assert_eq!(closing_bytes(false, 2), b"\r\n".to_vec());
    assert_eq!(closing_bytes(true, 0), b"\r\n".to_vec());
}

#[test]
fn authentication_tries() {
    assert_eq!(after_attempt(1, true), AuthStep::Granted);
    assert_eq!(after_attempt(1, false), AuthStep::Retry);
    assert_eq!(after_attempt(2, false), AuthStep::Retry);
    assert_eq!(after_attempt(3, false), AuthStep::GiveUp);
    assert_eq!(auth_need(true, false, true), AuthNeed::NotNeeded);
    assert_eq!(auth_need(false, true, true), AuthNeed::NotNeeded);
    assert_eq!(auth_need(false, false, true), AuthNeed::Refused);
    assert_eq!(auth_need(false, false, false), AuthNeed::Password);
}

#[test]
fn pam_conversation() {
    assert_eq!(conv_action(1), ConvAction::Prompt);
    assert_eq!(conv_action(2), ConvAction::Prompt);
    assert_eq!(conv_action(3), ConvAction::Show);
    assert_eq!(conv_action(4), ConvAction::Show);
    assert_eq!(conv_action(9), ConvAction::Invalid);
    assert_eq!(account_step(0), AccountStep::Valid);
    assert_eq!(account_step(12), AccountStep::RenewToken);
    assert_eq!(account_step(7), AccountStep::Refused);
    assert!(is_password_prompt(b"Password:"));
    assert!(is_password_prompt(b"Password: "));
    assert!(!is_password_prompt(b"Password:  "));
    assert_eq!(doas_prompt(b"alice", Some(b"host")), b"doas (alice@host) password: \0".to_vec());
    assert_eq!(doas_prompt(b"alice", None), b"doas (alice@?) password: \0".to_vec());
    let long = [b'a'; 40];
    let p = doas_prompt(&long, Some(b"h"));
    assert_eq!(p.len(), "doas (@h) password: ".len() + 32 + 1);
}

#[test]
fn vidoas_answers() {
    assert_eq!(reuse_answer("y\n"), ReuseAnswer::Reuse);
    assert_eq!(reuse_answer("  Y  "), ReuseAnswer::Reuse);
    assert_eq!(reuse_answer("n"), ReuseAnswer::Recreate);
    assert_eq!(reuse_answer("N\r\n"), ReuseAnswer::Recreate);
    assert_eq!(reuse_answer("yes"), ReuseAnswer::AskAgain);
    assert_eq!(reuse_answer(""), ReuseAnswer::AskAgain);
    let lock = confirm_word(true);
    assert_eq!(lock, "FORCE_LOCKOUT");
    assert_eq!(confirm_word(false), "FORCE_INVALID");
    assert_eq!(edit_choice("e\n", lock), EditChoice::Reedit);
    assert_eq!(edit_choice(" x ", lock), EditChoice::Exit);
    assert_eq!(edit_choice("FORCE_LOCKOUT\n", lock), EditChoice::Save);
    assert_eq!(edit_choice("FORCE_INVALID\n", lock), EditChoice::AskAgain);
    assert_eq!(edit_choice("\u{3000}e\u{a0}", lock), EditChoice::Reedit);
}

#[test]
fn vidoas_save_and_env() {
    let t1 = Time::new(Timespec { tv_sec: 5, tv_nsec: 1 });
    let t2 = Time::new(Timespec { tv_sec: 5, tv_nsec: 2 });
    assert!(!edit_changed(Some(t1), t1));
    assert!(edit_changed(Some(t1), t2));
    assert!(edit_changed(None, t1));
    let mut envs = EnvMap::new();
    envs.insert(b"TERM".to_vec(), b"xterm-kitty".to_vec());
    editor_env(&mut envs);
    assert_eq!(envs.get(b"TERM").cloned(), Some(b"xterm-256color".to_vec()));
    let mut envs = EnvMap::new();
    editor_env(&mut envs);
    assert_eq!(envs.get(b"TERM"), None);
}
