use doas::sys::{get_proc_info, parse_stat_file, random_index, stat_path, StatError};
use doas::timestamp::ProcessInfo;

#[test]
fn parse_stat() {
    let content = "12437 (doas ( ) )) S 12309 12437 12309 34820 12437 4194560 556 0 0 0 31 54 0 0 20 0 2 0 247401 398000128 2592 18446744073709551615 1 1 0 0 0 0 0 0 134876794 0 0 0 17 6 0 0 0 0 0 0 0 0 0 0 0 0 0";
    let (tty, starttime) = parse_stat_file(content).unwrap();
    assert_eq!(tty, 34820);
    assert_eq!(starttime, 247401);
}

#[test]
fn parse_stat_errors() {
    assert_eq!(parse_stat_file("12437 (doas) "), Err(StatError::BadTty));
    assert_eq!(parse_stat_file("12437 doas S 1 2 3 4"), Err(StatError::NoCommand));
    assert_eq!(parse_stat_file("1 (x) S 1 2 3 x 5"), Err(StatError::BadTty));
    assert_eq!(parse_stat_file("1 (x) S 1 2 3 4 5"), Err(StatError::BadStartTime));
}

#[test]
fn proc_info_from_stat_line() {
    let content = "9 (sh) S 1 2 3 7 5 6 7 8 9 10 11 12 13 14 15 16 17 18 99 20";
    let info = get_proc_info(42, 17, content).unwrap();
    assert_eq!(info, ProcessInfo { ppid: 42, sid: 17, start_time: 99, tty: 7 });
    assert_eq!(stat_path(42), "/proc/42/stat");
}

#[test]
fn random_index_keeps_whole_cycles() {
    assert_eq!(random_index(10, 0), Some(0));
    assert_eq!(random_index(10, 123), Some(3));
    // u32::MAX % 10 == 5, so values from u32::MAX - 5 on are drawn again.
    assert_eq!(random_index(10, u32::MAX - 6), Some((u32::MAX - 6) % 10));
    assert_eq!(random_index(10, u32::MAX - 5), None);
    assert_eq!(random_index(1, u32::MAX - 1), Some(0));
    assert_eq!(doas::c::random_index(3, 7), Some(1));
}
