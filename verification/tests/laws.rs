use doas::c::search_dirs;
use doas::env::EnvMap;
use doas::config::{Config, ConfigError};
use doas::timestamp::{stamp_status, stamp_times, Duration, StampStatus, Time, Timespec};
use doas::tokenizer::{State, TokenizerInner};
use doas::utils::array::Array;
use doas::utils::fmt::{format_str, prep_str, Part};
use doas::verify::{after_attempt, AuthStep, AUTH_TRIES};

fn parse(content: &str) -> Result<Vec<Config>, ConfigError> {
    let mut ignored = Vec::new();
    Config::parse(content, &mut ignored)
}

#[test]
fn file_rules_are_the_rules_of_its_lines() {
    let lines = ["permit nopass alice", "# a comment", "", "deny bob as root cmd reboot", "permit :wheel"];
    let mut text = String::new();
    let mut expected = Vec::new();
    for l in lines.iter() {
        text.push_str(l);
        text.push('\n');
        let one = parse(&format!("{}\n", l)).unwrap();
        expected.extend(one.into_iter().map(|c| format!("{:?}", c)));
    }
    let whole: Vec<String> = parse(&text).unwrap().into_iter().map(|c| format!("{:?}", c)).collect();
    assert_eq!(whole.len(), 3);
    assert_eq!(whole, expected);
}

#[test]
fn lexer_lines_never_go_down() {
    let content = "permit alice\n\n# note\ndeny { bob }\n  x\n";
    let newlines = content.matches('\n').count();
    let mut iter = TokenizerInner::new(content);
    let mut last = 1;
    while let Some(item) = iter.next_impl() {
        let line = match item {
            State::Token(t, l) => {
                assert!(!t.as_str().is_empty());
                l
            }
            State::NewLine(l) => l,
        };
        assert!(line >= last);
        assert!(line >= 1 && line <= 1 + newlines);
        last = line;
    }
    assert_eq!(last, 5);
}

#[test]
fn parts_join_back_to_the_bytes() {
    let prepared: &[u8] = b"ab\0\0c\0";
    let parts = format_str::<5>(prepared);
    let mut joined = Vec::new();
    let mut args = 0;
    let mut prev_text = false;
    for p in parts.as_slice() {
        match p {
            Part::Arg => {
                joined.push(0u8);
                args += 1;
                prev_text = false;
            }
            Part::Text(s) => {
                assert!(!s.is_empty());
                assert!(!prev_text);
                joined.extend_from_slice(s.as_bytes());
                prev_text = true;
            }
        }
    }
    assert_eq!(joined, prepared.to_vec());
    assert_eq!(args, 3);
}

#[test]
fn preparing_loses_nothing() {
    const STR: &str = "{{a}} {} b {}";
    let out = prep_str::<13>(STR.as_bytes(), 2);
    let mut back = Vec::new();
    for &b in out.as_slice() {
        match b {
            0 => back.extend_from_slice(b"{}"),
            b'{' => back.extend_from_slice(b"{{"),
            b'}' => back.extend_from_slice(b"}}"),
            x => back.push(x),
        }
    }
    assert_eq!(back, STR.as_bytes().to_vec());
    assert_eq!(out.as_slice().iter().filter(|&&b| b == 0).count(), 2);
    assert!(out.len() <= 13);
}

#[test]
fn array_push_pop_history() {
    let mut a = Array::<4, u32>::new();
    a.push(1);
    a.push(2);
    a.push(3);
    assert_eq!(a.pop(), Some(3));
    a.push(4);
    a.push(5);
    assert_eq!(a.pop(), Some(5));
    assert_eq!(a.len(), 3);
    assert_eq!(a.as_slice().len(), 3);
    assert!(!a.is_empty());
    assert_eq!(a.capacity(), 4);
    assert_eq!(a.pop(), Some(4));
    assert_eq!(a.pop(), Some(2));
    assert_eq!(a.pop(), Some(1));
    assert!(a.is_empty());
}

#[test]
fn stamp_stays_valid_within_its_time_out() {
    let t = |s: i64, n: i64| Time::new(Timespec { tv_sec: s, tv_nsec: n });
    let timeout = Duration::from_secs(300);
    let (eb, er) = stamp_times(t(1000, 0), t(50_000, 5), timeout);
    for (b, r) in [(t(1000, 0), t(50_000, 5)), (t(1150, 7), t(50_001, 0)), (t(1300, 0), t(50_300, 5))] {
        assert_eq!(stamp_status(eb, er, Some(b), Some(r), timeout), StampStatus::Valid);
    }
    assert_eq!(stamp_status(eb, er, Some(t(1300, 1)), Some(t(50_000, 5)), timeout), StampStatus::Expired);
}

fn attempts(results: [bool; 3]) -> (usize, bool) {
    let mut made = 0;
    for attempt in 1..=AUTH_TRIES {
        made += 1;
        match after_attempt(attempt, results[(attempt - 1) as usize]) {
            AuthStep::Granted => return (made, true),
            AuthStep::Retry => {}
            AuthStep::GiveUp => return (made, false),
        }
    }
    (made, false)
}

#[test]
fn three_attempts() {
    assert_eq!(attempts([true, false, false]), (1, true));
    assert_eq!(attempts([false, true, false]), (2, true));
    assert_eq!(attempts([false, false, true]), (3, true));
    assert_eq!(attempts([false, false, false]), (3, false));
}

#[test]
fn time_addition_at_the_edges() {
    let t = |s: i64, n: i64| Time::new(Timespec { tv_sec: s, tv_nsec: n });
    assert!(t(1, 999_999_999).add(t(0, 1)).same(&t(2, 0)));
    assert!(t(i64::MIN + 1, 0).add(t(-1, 0)).same(&t(i64::MIN, 0)));
    assert!(t(i64::MAX - 1, 5).add(t(1, 0)).same(&t(i64::MAX, 5)));
    assert!(t(i64::MAX - 1, 600_000_000).add(t(0, 500_000_000)).same(&t(i64::MAX, 100_000_000)));
}

#[test]
fn command_search_path() {
    let mut environ = EnvMap::new();
    assert_eq!(search_dirs(false, &environ), Vec::<u8>::new());
    assert_eq!(
        search_dirs(true, &environ),
        b"/bin:/sbin:/usr/bin:/usr/sbin:/usr/local/bin:/usr/local/sbin".to_vec()
    );
    environ.insert(b"PATH".to_vec(), b"/opt/bin".to_vec());
    assert_eq!(search_dirs(false, &environ), b"/opt/bin".to_vec());
    assert_eq!(
        search_dirs(true, &environ),
        b"/bin:/sbin:/usr/bin:/usr/sbin:/usr/local/bin:/usr/local/sbin".to_vec()
    );
}
