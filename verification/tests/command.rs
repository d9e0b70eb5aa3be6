use doas::command::{command_candidates, command_line, join_words, ArgError, CmdArgs};

fn args(v: &[&str]) -> Vec<Vec<u8>> {
    v.iter().map(|s| s.as_bytes().to_vec()).collect()
}

#[test]
fn parse_command_and_user() {
    let a = CmdArgs::parse(args(&["-u", "bob", "ls", "-l"])).unwrap();
    assert_eq!(a.user.as_deref(), Some("bob"));
    assert_eq!(a.command, args(&["ls", "-l"]));
    assert!(!a.shell);
}

#[test]
fn parse_errors() {
    assert!(matches!(CmdArgs::parse(Vec::new()), Err(ArgError::Usage)));
    assert!(matches!(CmdArgs::parse(args(&["-u"])), Err(ArgError::MissingUser)));
    assert!(matches!(CmdArgs::parse(args(&["-x", "ls"])), Err(ArgError::InvalidOption(b'x'))));
    assert!(matches!(CmdArgs::parse(args(&["-s", "ls"])), Err(ArgError::ShellWithCommand)));
    assert!(matches!(CmdArgs::parse(args(&["-n"])), Err(ArgError::MissingCommand)));
}

#[test]
fn command_line_choice() {
    let given = args(&["ls", "-l"]);
    assert_eq!(command_line(false, false, None, b"/bin/sh", None, given.clone()), given);
    assert_eq!(
        command_line(true, false, Some(b"/bin/zsh".to_vec()), b"/bin/sh", None, Vec::new()),
        args(&["/bin/zsh"])
    );
    assert_eq!(command_line(true, false, None, b"/bin/sh", None, Vec::new()), args(&["/bin/sh"]));
    assert_eq!(
        command_line(false, true, None, b"/bin/sh", None, Vec::new()),
        args(&["vim", "/etc/doas.conf"])
    );
    assert_eq!(
        command_line(false, true, None, b"/bin/sh", Some(b"nano".to_vec()), Vec::new()),
        args(&["nano", "/etc/doas.conf"])
    );
}

#[test]
fn join_with_spaces() {
    assert_eq!(join_words(&args(&["ls", "-l", "/tmp"])), b"ls -l /tmp".to_vec());
    assert_eq!(join_words(&args(&["ls"])), b"ls".to_vec());
    assert_eq!(join_words(&[]), Vec::<u8>::new());
}

#[test]
fn parse_more_errors() {
    assert!(matches!(CmdArgs::parse(args(&["-s", "-s"])), Err(ArgError::RepeatedFlag(b's'))));
    assert!(matches!(CmdArgs::parse(args(&["-u", "a", "-u", "b", "ls"])), Err(ArgError::RepeatedUser)));
    assert!(matches!(CmdArgs::parse(args(&["-C", "a", "-C", "b"])), Err(ArgError::RepeatedConfig)));
    assert!(matches!(CmdArgs::parse(args(&["-C"])), Err(ArgError::MissingConfig)));
    assert!(matches!(CmdArgs::parse(args(&["-L", "ls"])), Err(ArgError::ClearWithCommand)));
    assert!(matches!(CmdArgs::parse(args(&["-L", "-n"])), Err(ArgError::ClearConflict)));
    assert!(matches!(CmdArgs::parse(args(&["vidoas", "-n"])), Err(ArgError::VidoasConflict)));
    assert!(matches!(CmdArgs::parse(args(&["-v", "ls"])), Err(ArgError::VerboseWithoutConfig)));
    assert!(matches!(CmdArgs::parse(args(&["-C", "f", "-s"])), Err(ArgError::ConfigConflict)));
    assert!(matches!(CmdArgs::parse(args(&["--version"])), Err(ArgError::Version)));
    let bad_user = vec![b"-u".to_vec(), vec![0xff, 0xfe], b"ls".to_vec()];
    assert!(matches!(CmdArgs::parse(bad_user), Err(ArgError::UserNotUtf8)));
}

#[test]
fn parse_options_and_separator() {
    let a = CmdArgs::parse(args(&["-sn"])).unwrap();
    assert!(a.non_interactive && a.shell);
    let a = CmdArgs::parse(args(&["-C", "/tmp/conf", "-v"])).unwrap();
    assert_eq!(a.config, Some(b"/tmp/conf".to_vec()));
    assert!(a.verbose);
    let a = CmdArgs::parse(args(&["--", "-s", "x"])).unwrap();
    assert_eq!(a.command, args(&["-s", "x"]));
    let a = CmdArgs::parse(args(&["vidoas"])).unwrap();
    assert!(a.vidoas);
}

#[test]
fn argument_error_messages() {
    assert_eq!(ArgError::RepeatedFlag(b'n').message(), "'-n' cannot be used multiple times");
    assert_eq!(ArgError::InvalidOption(b'q').message(), "invalid option: 'q'");
    assert_eq!(ArgError::MissingCommand.message(), "missing command");
    assert_eq!(ArgError::Usage.message(), "");
}

#[test]
fn where_commands_are_looked_for() {
    assert_eq!(command_candidates(b"ls", b"/bin:/usr/bin"), args(&["/bin/ls", "/usr/bin/ls"]));
    assert_eq!(command_candidates(b"./run", b"/bin"), args(&["./run"]));
    assert_eq!(command_candidates(b"ls", b""), args(&["/ls"]));
    assert_eq!(command_candidates(b"ls", b"/a::/b"), args(&["/a/ls", "/ls", "/b/ls"]));
}
