use doas::tokenizer::{gen_tokenizer, State, TokenizerInner};

const SAMPLE: &str = "# rules\npermit nopass :wheel as root cmd \"/usr/bin/ls\" args -l\n\
permit persist { 5m } setenv { -HOME FOO=bar \"QUOTED\" } alice\n\
deny bob as root \\\n  cmd reboot\n";

#[test]
fn parser_test_tokenizer() {
    let mut iter = TokenizerInner::new(SAMPLE);
    let mut count = 0;
    while let Some(token) = iter.next_impl() {
        println!("{:?}", token);
        count += 1;
    }
    assert!(count > 0);
}

#[test]
fn tokenizer_items_in_order() {
    let mut iter = TokenizerInner::new("permit alice\n\n{ x }\n");
    let mut seen = Vec::new();
    while let Some(item) = iter.next_impl() {
        match item {
            State::Token(t, line) => seen.push(format!("{}@{}", t.as_str(), line)),
            State::NewLine(line) => seen.push(format!("NL@{}", line)),
        }
    }
    assert_eq!(seen, vec!["permit@1", "alice@1", "NL@1", "{@3", "x@3", "}@3", "NL@3"]);
}

#[test]
fn tokenizer_no_empty_tokens_and_newlines_follow_tokens() {
    let mut iter = TokenizerInner::new("  \n# c\n a  \"\" b \\\n c\n{}\n");
    let mut last_was_token = false;
    while let Some(item) = iter.next_impl() {
        match item {
            State::Token(t, _) => {
                assert!(!t.as_str().is_empty());
                last_was_token = true;
            }
            State::NewLine(_) => {
                assert!(last_was_token);
                last_was_token = false;
            }
        }
    }
}

#[test]
fn tokenizer_quoted_span() {
    let mut t = gen_tokenizer("ab\"c d\"e\n");
    assert!(t.next_line());
    let tok = t.next().unwrap();
    assert_eq!(tok.as_str(), "abc de");
    assert!(tok.quoted());
    assert_eq!(tok.quote_str(), Some("c d"));
}
