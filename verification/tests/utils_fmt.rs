use doas::utils::fmt::{format_c, format_str, prep_str, Part};

#[test]
fn prepare_str() {
    const STR: &str = "{{hello}}, {}!!!";
    const N: usize = STR.len();
    let parts = prep_str::<N>(STR.as_bytes(), 1);
    assert_eq!(b"{hello}, \0!!!", parts.as_slice());
}

#[test]
fn fmt_format_macro() {
    let cstr = format_c("{{hello}}, {} {}", &[b"world".to_vec(), b"and cstr".to_vec()]);
    assert_eq!(b"{hello}, world and cstr\0".to_vec(), cstr);
    let cstr = format_c("{} {}", &[b"hello".to_vec(), b"world".to_vec()]);
    assert_eq!(b"hello world\0".to_vec(), cstr);
    let cstr = format_c("hello, world", &[]);
    assert_eq!(b"hello, world\0".to_vec(), cstr);
}

#[test]
fn format_c_replaces_nul_in_arguments() {
    let cstr = format_c("<{}>", &[b"a\0b".to_vec()]);
    assert_eq!(b"<a b>\0".to_vec(), cstr);
}

#[test]
fn format_str_cuts_at_placeholders() {
    let prepared = b"ab\0\0c";
    let parts = format_str::<4>(prepared);
    let s = parts.as_slice();
    assert_eq!(s.len(), 4);
    assert!(matches!(s[0], Part::Text("ab")));
    assert!(matches!(s[1], Part::Arg));
    assert!(matches!(s[2], Part::Arg));
    assert!(matches!(s[3], Part::Text("c")));
}

#[test]
fn format_str_keeps_utf8_text() {
    let prepared = "é\0ü".as_bytes();
    let parts = format_str::<3>(prepared);
    let s = parts.as_slice();
    assert!(matches!(s[0], Part::Text("é")));
    assert!(matches!(s[1], Part::Arg));
    assert!(matches!(s[2], Part::Text("ü")));
}

#[test]
fn format_c_multibyte_text() {
    let cstr = format_c("ü{}ß", &[b"-".to_vec()]);
    assert_eq!("ü-ß\0".as_bytes().to_vec(), cstr);
}
