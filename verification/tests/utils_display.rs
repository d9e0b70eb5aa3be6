use doas::display::cat_cstr;
use doas::utils::display::{format_c, format_str, Part};

#[test]
fn format_literal() {
    const STR: &str = "{{hello}}, {}!!!";
    const N: usize = STR.len();
    let parts = format_str::<N, 3, 1>(STR.as_bytes());
    println!("{:?}", parts.as_slice());
}

#[test]
fn display_format_macro() {
    let cstr = format_c("hello, {} {}", &[b"world".to_vec(), b"and cstr".to_vec()]);
    assert_eq!(b"hello, world and cstr\0".to_vec(), cstr);
    let cstr = format_c("{} {}", &[b"hello".to_vec(), b"world".to_vec()]);
    assert_eq!(b"hello world\0".to_vec(), cstr);
    let cstr = format_c("hello, world", &[]);
    assert_eq!(b"hello world\0".to_vec(), cstr);
}

#[test]
fn display_format_str_keeps_escaped_braces() {
    const STR: &str = "{{hello}}, {}!!!";
    let parts = format_str::<16, 3, 1>(STR.as_bytes());
    let s = parts.as_slice();
    assert_eq!(s.len(), 3);
    assert!(matches!(s[0], Part::Text("{{hello}}, ")));
    assert!(matches!(s[1], Part::Arg));
    assert!(matches!(s[2], Part::Text("!!!")));
}

#[test]
fn display_format_str_splits_at_escaped_open_brace() {
    let parts = format_str::<6, 2, 0>(b"ab{{cd");
    let s = parts.as_slice();
    assert_eq!(s.len(), 2);
    assert!(matches!(s[0], Part::Text("ab")));
    assert!(matches!(s[1], Part::Text("{{cd")));
}

#[test]
fn display_cstr() {
    let s = cat_cstr(&[b"hello".to_vec(), b"wor\0ld".to_vec(), b"hhh".to_vec()]);
    assert_eq!(b"hellowor ldhhh\0".to_vec(), s);
}
