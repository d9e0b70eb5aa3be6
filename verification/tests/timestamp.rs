use doas::timestamp::{
    default_timeout, get_path, get_tmp_path, stamp_dir_ok, stamp_meta_ok, stamp_status,
    stamp_times, Duration, DurationError, FromStr, ProcessInfo, StampStatus, Time, Timespec,
};

fn t(sec: i64, nsec: i64) -> Time {
    Time::new(Timespec { tv_sec: sec, tv_nsec: nsec })
}

#[test]
fn duration_from_text() {
    assert_eq!(Duration::from_str("5m").unwrap().as_secs(), 300);
    assert_eq!(Duration::from_str("30s").unwrap().as_secs(), 30);
    assert_eq!(Duration::from_str("30s").unwrap().subsec_nanos(), 0);
    assert!(matches!(Duration::from_str("s"), Err(DurationError::Invalid)));
    assert!(matches!(Duration::from_str("xs"), Err(DurationError::InvalidNumber)));
    assert!(matches!(Duration::from_str("5h"), Err(DurationError::InvalidUnit)));
    assert!(matches!(Duration::from_str("5é"), Err(DurationError::Invalid)));
    assert_eq!(default_timeout().as_secs(), 300);
    assert_eq!(DurationError::InvalidUnit.message(), "invalid duration unit");
}

#[test]
fn time_addition_carries_nanoseconds() {
    let a = t(1, 600_000_000);
    let b = t(2, 500_000_000);
    let c = a.add(b);
    assert!(c.same(&t(4, 100_000_000)));
    assert!(a.lt(&b));
    assert!(!b.lt(&a));
    assert!(!a.lt(&a));
    assert!(t(0, 0).is_set() == false);
    assert!(t(0, 1).is_set());
    assert!(a.add(b).same(&b.add(a)));
    let d = Time::from_duration(Duration::from_secs(7));
    assert!(d.same(&t(7, 0)));
}

#[test]
fn stamp_verdicts() {
    let timeout = Duration::from_secs(300);
    let boot = t(1000, 0);
    let real = t(50_000, 0);
    let (eb, er) = stamp_times(boot, real, timeout);
    assert!(eb.same(&t(1300, 0)));
    assert!(er.same(&t(50_300, 0)));
    assert_eq!(stamp_status(eb, er, Some(boot), Some(real), timeout), StampStatus::Valid);
    assert_eq!(
        stamp_status(eb, er, Some(t(1301, 0)), Some(real), timeout),
        StampStatus::Expired
    );
    assert_eq!(
        stamp_status(t(2000, 0), er, Some(boot), Some(real), timeout),
        StampStatus::TooFarAhead
    );
    assert_eq!(stamp_status(t(0, 0), er, Some(boot), Some(real), timeout), StampStatus::Unset);
    assert_eq!(stamp_status(eb, er, None, Some(real), timeout), StampStatus::NoClock);
}

#[test]
fn stamp_file_and_dir_checks() {
    assert!(stamp_meta_ok(0, 5, 5, true, 0o100000));
    assert!(!stamp_meta_ok(0, 5, 5, true, 0o100600));
    assert!(!stamp_meta_ok(1, 5, 5, true, 0o100000));
    assert!(!stamp_meta_ok(0, 4, 5, true, 0o100000));
    assert!(!stamp_meta_ok(0, 5, 5, false, 0o100000));
    assert!(stamp_dir_ok(true, 0, 0o40700));
    assert!(!stamp_dir_ok(true, 0, 0o40755));
    assert!(!stamp_dir_ok(false, 0, 0o40700));
    assert!(!stamp_dir_ok(true, 1, 0o40700));
}

#[test]
fn stamp_paths() {
    let info = ProcessInfo { ppid: 12, sid: -1, start_time: 99, tty: 34820 };
    assert_eq!(get_path(&info, 1000), "/var/run/doas/12--1-34820-99-1000");
    assert_eq!(get_tmp_path(4242), "/var/run/doas/.tmp-4242");
}
