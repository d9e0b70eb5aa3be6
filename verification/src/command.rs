//! The command line: `doas [--version] [-Lnsv] [-C config] [-u user] command [arg ...]`
//! and `doas vidoas`.
use vstd::prelude::*;

use crate::text::{push_str, string_of};

verus! {

/// The parsed command line.
#[derive(Debug)]
pub struct CmdArgs {
    /// Config path: check the given rule file (and, with a command, match it), then exit.
    pub config: Option<Vec<u8>>,
    pub vidoas: bool,
    pub verbose: bool,
    /// Run the command as this user (a name or a uid); root by default.
    pub user: Option<String>,
    /// Fail if the matching rule asks for a password.
    pub non_interactive: bool,
    /// Run the shell from `SHELL` or the password table.
    pub shell: bool,
    /// Clear the remembered authentication, then exit.
    pub clear: bool,
    /// The command to run.
    pub command: Vec<Vec<u8>>,
}

/// Why the command line was refused (every case but `UserNotUtf8` and
/// `Version` is followed by the usage line).
#[derive(Debug, Clone, Copy, PartialEq, Eq, Structural)]
pub enum ArgError {
    /// No argument at all.
    Usage,
    /// `--version`: print the version and exit successfully.
    Version,
    /// "'-<flag>' cannot be used multiple times", for `s`, `n`, `L` and `v`.
    RepeatedFlag(u8),
    /// "argument 'user' cannot be used multiple times"
    RepeatedUser,
    /// "argument 'config' cannot be used multiple times"
    RepeatedConfig,
    /// "missing 'user' after '-u'"
    MissingUser,
    /// "missing 'config' after '-C'"
    MissingConfig,
    /// "argument 'user' needs to be utf-8 encoded"
    UserNotUtf8,
    /// "invalid option: '<c>'"
    InvalidOption(u8),
    /// "'-s' cannot be used with command"
    ShellWithCommand,
    /// "'-L' cannot be used with command"
    ClearWithCommand,
    /// "'-L' cannot be used with other options or commands"
    ClearConflict,
    /// "'vidoas' cannot be used with other options or commands"
    VidoasConflict,
    /// "'-v' requires '-C'"
    VerboseWithoutConfig,
    /// "'-C' is conflicted with '-u', '-s', '-n'"
    ConfigConflict,
    /// "missing command"
    MissingCommand,
}

/// The usage line.
pub const USAGE: &'static str = "usage: doas [--version] [-Lnsv] [-C config] [-u user] command [arg ...]";

/// The message printed for a refused command line (before the usage line,
/// where one follows); the usage error prints the usage line alone, and
/// the version request prints the version.
pub open spec fn arg_error_text(e: ArgError) -> Seq<char> {
    match e {
        ArgError::Usage => Seq::empty(),
        ArgError::Version => Seq::empty(),
        ArgError::RepeatedFlag(c) => "'-"@ + seq![c as char] + "' cannot be used multiple times"@,
        ArgError::RepeatedUser => "argument 'user' cannot be used multiple times"@,
        ArgError::RepeatedConfig => "argument 'config' cannot be used multiple times"@,
        ArgError::MissingUser => "missing 'user' after '-u'"@,
        ArgError::MissingConfig => "missing 'config' after '-C'"@,
        ArgError::UserNotUtf8 => "argument 'user' needs to be utf-8 encoded"@,
        ArgError::InvalidOption(c) => "invalid option: '"@ + seq![c as char] + "'"@,
        ArgError::ShellWithCommand => "'-s' cannot be used with command"@,
        ArgError::ClearWithCommand => "'-L' cannot be used with command"@,
        ArgError::ClearConflict => "'-L' cannot be used with other options or commands"@,
        ArgError::VidoasConflict => "'vidoas' cannot be used with other options or commands"@,
        ArgError::VerboseWithoutConfig => "'-v' requires '-C'"@,
        ArgError::ConfigConflict => "'-C' is conflicted with '-u', '-s', '-n'"@,
        ArgError::MissingCommand => "missing command"@,
    }
}

impl ArgError {
    /// The error's message (see `arg_error_text`).
    pub fn message(&self) -> (s: String)
        ensures
            s@ == arg_error_text(*self),
    {
        let mut out: Vec<char> = Vec::new();
        match self {
            ArgError::Usage => {},
            ArgError::Version => {},
            ArgError::RepeatedFlag(c) => {
                push_str(&mut out, "'-");
                out.push(*c as char);
                push_str(&mut out, "' cannot be used multiple times");
            },
            ArgError::RepeatedUser => push_str(&mut out, "argument 'user' cannot be used multiple times"),
            ArgError::RepeatedConfig => push_str(&mut out, "argument 'config' cannot be used multiple times"),
            ArgError::MissingUser => push_str(&mut out, "missing 'user' after '-u'"),
            ArgError::MissingConfig => push_str(&mut out, "missing 'config' after '-C'"),
            ArgError::UserNotUtf8 => push_str(&mut out, "argument 'user' needs to be utf-8 encoded"),
            ArgError::InvalidOption(c) => {
                push_str(&mut out, "invalid option: '");
                out.push(*c as char);
                push_str(&mut out, "'");
            },
            ArgError::ShellWithCommand => push_str(&mut out, "'-s' cannot be used with command"),
            ArgError::ClearWithCommand => push_str(&mut out, "'-L' cannot be used with command"),
            ArgError::ClearConflict => push_str(&mut out, "'-L' cannot be used with other options or commands"),
            ArgError::VidoasConflict => push_str(&mut out, "'vidoas' cannot be used with other options or commands"),
            ArgError::VerboseWithoutConfig => push_str(&mut out, "'-v' requires '-C'"),
            ArgError::ConfigConflict => push_str(&mut out, "'-C' is conflicted with '-u', '-s', '-n'"),
            ArgError::MissingCommand => push_str(&mut out, "missing command"),
        }
        assert(out@ =~= arg_error_text(*self));
        string_of(out.as_slice())
    }
}

/// What the command line says.
pub ghost struct ArgsV {
    pub config: Option<Seq<u8>>,
    pub vidoas: bool,
    pub verbose: bool,
    pub user: Option<Seq<char>>,
    pub non_interactive: bool,
    pub shell: bool,
    pub clear: bool,
    pub command: Seq<Seq<u8>>,
}

pub open spec fn bytes_view(v: Seq<Vec<u8>>) -> Seq<Seq<u8>> {
    v.map_values(|a: Vec<u8>| a@)
}

impl CmdArgs {
    pub open spec fn view(&self) -> ArgsV {
        ArgsV {
            config: match self.config {
                Some(c) => Some(c@),
                None => None,
            },
            vidoas: self.vidoas,
            verbose: self.verbose,
            user: match self.user {
                Some(u) => Some(u@),
                None => None,
            },
            non_interactive: self.non_interactive,
            shell: self.shell,
            clear: self.clear,
            command: bytes_view(self.command@),
        }
    }
}

pub open spec fn default_args() -> ArgsV {
    ArgsV {
        config: None,
        vidoas: false,
        verbose: false,
        user: None,
        non_interactive: false,
        shell: false,
        clear: false,
        command: Seq::empty(),
    }
}

impl Default for CmdArgs {
    fn default() -> (a: CmdArgs)
        ensures
            a@ == default_args(),
    {
        let a = CmdArgs {
            config: None,
            vidoas: false,
            verbose: false,
            user: None,
            non_interactive: false,
            shell: false,
            clear: false,
            command: Vec::new(),
        };
        assert(bytes_view(a.command@) =~= Seq::<Seq<u8>>::empty());
        a
    }
}

// ---------------------------------------------------------------------------
// The grammar of the command line

/// One option letter; `next` is the argument after the option cluster, if it
/// has not been taken yet. The flag says whether the option took it.
pub open spec fn spec_handle_option(p: ArgsV, option: u8, next: Option<Seq<u8>>) -> Result<(ArgsV, bool), ArgError> {
    if option == 's' as u8 {
        if p.shell { Err(ArgError::RepeatedFlag(option)) } else { Ok((ArgsV { shell: true, ..p }, false)) }
    } else if option == 'n' as u8 {
        if p.non_interactive { Err(ArgError::RepeatedFlag(option)) } else { Ok((ArgsV { non_interactive: true, ..p }, false)) }
    } else if option == 'L' as u8 {
        if p.clear { Err(ArgError::RepeatedFlag(option)) } else { Ok((ArgsV { clear: true, ..p }, false)) }
    } else if option == 'v' as u8 {
        if p.verbose { Err(ArgError::RepeatedFlag(option)) } else { Ok((ArgsV { verbose: true, ..p }, false)) }
    } else if option == 'u' as u8 {
        if p.user is Some {
            Err(ArgError::RepeatedUser)
        } else {
            match next {
                None => Err(ArgError::MissingUser),
                Some(b) => if vstd::utf8::valid_utf8(b) {
                    Ok((ArgsV { user: Some(vstd::utf8::decode_utf8(b)), ..p }, true))
                } else {
                    Err(ArgError::UserNotUtf8)
                },
            }
        }
    } else if option == 'C' as u8 {
        if p.config is Some {
            Err(ArgError::RepeatedConfig)
        } else {
            match next {
                None => Err(ArgError::MissingConfig),
                Some(b) => Ok((ArgsV { config: Some(b), ..p }, true)),
            }
        }
    } else {
        Err(ArgError::InvalidOption(option))
    }
}

/// A cluster of option letters (`-sn`), in order; the next argument can be
/// taken once.
pub open spec fn spec_cluster(p: ArgsV, opts: Seq<u8>, next: Option<Seq<u8>>) -> Result<(ArgsV, bool), ArgError>
    decreases opts.len(),
{
    if opts.len() == 0 {
        Ok((p, false))
    } else {
        match spec_handle_option(p, opts[0], next) {
            Err(e) => Err(e),
            Ok((p1, t1)) => match spec_cluster(
                p1,
                opts.drop_first(),
                if t1 {
                    None
                } else {
                    next
                },
            ) {
                Err(e) => Err(e),
                Ok((p2, t2)) => Ok((p2, t1 || t2)),
            },
        }
    }
}

/// The rest of the arguments are the command.
pub open spec fn spec_extend(p: ArgsV, rest: Seq<Seq<u8>>) -> Result<ArgsV, ArgError> {
    if p.shell {
        Err(ArgError::ShellWithCommand)
    } else if p.clear {
        Err(ArgError::ClearWithCommand)
    } else {
        Ok(ArgsV { command: p.command + rest, ..p })
    }
}

pub open spec fn dash_dash() -> Seq<u8> {
    seq!['-' as u8, '-' as u8]
}

pub open spec fn version_flag() -> Seq<u8> {
    seq!['-' as u8, '-' as u8, 'v' as u8, 'e' as u8, 'r' as u8, 's' as u8, 'i' as u8, 'o' as u8, 'n' as u8]
}

pub open spec fn vidoas_word() -> Seq<u8> {
    seq!['v' as u8, 'i' as u8, 'd' as u8, 'o' as u8, 'a' as u8, 's' as u8]
}

/// The arguments from position `i` on. An argument taken by an option is
/// emptied, and empty arguments are skipped.
pub open spec fn spec_args_from(p: ArgsV, args: Seq<Seq<u8>>, i: int) -> Result<ArgsV, ArgError>
    decreases args.len() - i,
{
    if i < 0 || i >= args.len() {
        Ok(p)
    } else {
        let a = args[i];
        if a.len() == 0 {
            spec_args_from(p, args, i + 1)
        } else if a == dash_dash() {
            spec_extend(p, args.subrange(i + 1, args.len() as int))
        } else if a == version_flag() {
            Err(ArgError::Version)
        } else if a == vidoas_word() {
            spec_args_from(ArgsV { vidoas: true, ..p }, args, i + 1)
        } else if a[0] == '-' as u8 {
            let next = if i + 1 < args.len() {
                Some(args[i + 1])
            } else {
                None
            };
            match spec_cluster(p, a.drop_first(), next) {
                Err(e) => Err(e),
                Ok((p2, taken)) => spec_args_from(
                    p2,
                    if taken && i + 1 < args.len() {
                        args.update(i + 1, Seq::empty())
                    } else {
                        args
                    },
                    i + 1,
                ),
            }
        } else {
            spec_extend(p, args.subrange(i, args.len() as int))
        }
    }
}

/// The options that do not go together.
pub open spec fn spec_check_conflicts(p: ArgsV) -> Result<ArgsV, ArgError> {
    if p.clear && (p.command.len() > 0 || p.shell || p.user is Some || p.config is Some
        || p.non_interactive || p.verbose) {
        Err(ArgError::ClearConflict)
    } else if p.vidoas && (p.command.len() > 0 || p.shell || p.clear || p.user is Some
        || p.config is Some || p.non_interactive || p.verbose) {
        Err(ArgError::VidoasConflict)
    } else if p.verbose && p.config is None {
        Err(ArgError::VerboseWithoutConfig)
    } else if p.config is Some && (p.shell || p.non_interactive || p.user is Some) {
        Err(ArgError::ConfigConflict)
    } else if !p.vidoas && !p.shell && !p.clear && p.config is None && p.command.len() == 0 {
        Err(ArgError::MissingCommand)
    } else {
        Ok(p)
    }
}

/// The command line (without the program's name).
pub open spec fn spec_parse_args(args: Seq<Seq<u8>>) -> Result<ArgsV, ArgError> {
    if args.len() == 0 {
        Err(ArgError::Usage)
    } else {
        match spec_args_from(default_args(), args, 0) {
            Err(e) => Err(e),
            Ok(p) => spec_check_conflicts(p),
        }
    }
}

// ---------------------------------------------------------------------------
// The parser

/// Reads bytes as UTF-8 text (`String::from_utf8`).
/// Claimed: the text is returned exactly when the bytes are valid UTF-8, and
/// then its characters are the decoded bytes.
#[verifier::external_body]
fn utf8_string(bytes: Vec<u8>) -> (r: Option<String>)
    ensures
        r is Some <==> vstd::utf8::valid_utf8(bytes@),
        r matches Some(s) ==> s@ == vstd::utf8::decode_utf8(bytes@),
{
    String::from_utf8(bytes).ok()
}

impl CmdArgs {
    /// One option letter; `next` holds the argument after the cluster until
    /// an option takes it.
    fn handle_option(&mut self, option: u8, next: &mut Option<Vec<u8>>) -> (r: Result<(), ArgError>)
        ensures
            match spec_handle_option(old(self)@, option, match *old(next) {
                Some(b) => Some(b@),
                None => None,
            }) {
                Err(e) => r == Err::<(), ArgError>(e) && final(self)@ == old(self)@,
                Ok((p, taken)) => r is Ok && final(self)@ == p && (if taken {
                    *final(next) is None
                } else {
                    *final(next) == *old(next)
                }),
            },
    {
        if option == 115u8 {
            if self.shell {
                return Err(ArgError::RepeatedFlag(option));
            }
            self.shell = true;
        } else if option == 110u8 {
            if self.non_interactive {
                return Err(ArgError::RepeatedFlag(option));
            }
            self.non_interactive = true;
        } else if option == 76u8 {
            if self.clear {
                return Err(ArgError::RepeatedFlag(option));
            }
            self.clear = true;
        } else if option == 118u8 {
            if self.verbose {
                return Err(ArgError::RepeatedFlag(option));
            }
            self.verbose = true;
        } else if option == 117u8 {
            if self.user.is_some() {
                return Err(ArgError::RepeatedUser);
            }
            let arg = match next.take() {
                Some(a) => a,
                None => return Err(ArgError::MissingUser),
            };
            match utf8_string(arg) {
                Some(u) => {
                    self.user = Some(u);
                },
                None => return Err(ArgError::UserNotUtf8),
            }
        } else if option == 67u8 {
            if self.config.is_some() {
                return Err(ArgError::RepeatedConfig);
            }
            let arg = match next.take() {
                Some(a) => a,
                None => return Err(ArgError::MissingConfig),
            };
            self.config = Some(arg);
        } else {
            return Err(ArgError::InvalidOption(option));
        }
        Ok(())
    }

    /// The remaining arguments are the command.
    fn extend_cmds(&mut self, rest: Vec<Vec<u8>>) -> (r: Result<(), ArgError>)
        ensures
            match spec_extend(old(self)@, bytes_view(rest@)) {
                Err(e) => r == Err::<(), ArgError>(e),
                Ok(p) => r is Ok && final(self)@ == p,
            },
    {
        if self.shell {
            return Err(ArgError::ShellWithCommand);
        }
        if self.clear {
            return Err(ArgError::ClearWithCommand);
        }
        let mut rest = rest;
        let ghost old_cmd = bytes_view(self.command@);
        let ghost rest_v = bytes_view(rest@);
        self.command.append(&mut rest);
        assert(bytes_view(self.command@) =~= old_cmd + rest_v);
        Ok(())
    }
}

fn is_dash_dash(a: &[u8]) -> (r: bool)
    ensures
        r == (a@ == dash_dash()),
{
    let r = a.len() == 2 && a[0] == 45u8 && a[1] == 45u8;
    if r {
        assert(a@ =~= dash_dash());
    }
    r
}

fn is_version_flag(a: &[u8]) -> (r: bool)
    ensures
        r == (a@ == version_flag()),
{
    let r = a.len() == 9 && a[0] == 45u8 && a[1] == 45u8 && a[2] == 118u8 && a[3] == 101u8 && a[4]
        == 114u8 && a[5] == 115u8 && a[6] == 105u8 && a[7] == 111u8 && a[8] == 110u8;
    if r {
        assert(a@ =~= version_flag());
    }
    r
}

fn is_vidoas_word(a: &[u8]) -> (r: bool)
    ensures
        r == (a@ == vidoas_word()),
{
    let r = a.len() == 6 && a[0] == 118u8 && a[1] == 105u8 && a[2] == 100u8 && a[3] == 111u8 && a[4]
        == 97u8 && a[5] == 115u8;
    if r {
        assert(a@ =~= vidoas_word());
    }
    r
}

pub open spec fn opt_bytes(o: Option<Vec<u8>>) -> Option<Seq<u8>> {
    match o {
        Some(b) => Some(b@),
        None => None,
    }
}

impl CmdArgs {
    /// A cluster of option letters; `next` holds the argument after it until
    /// an option takes it.
    fn handle_cluster(&mut self, opts: &[u8], next: &mut Option<Vec<u8>>) -> (r: Result<(), ArgError>)
        ensures
            match spec_cluster(old(self)@, opts@, opt_bytes(*old(next))) {
                Err(e) => r == Err::<(), ArgError>(e),
                Ok((p, taken)) => r is Ok && final(self)@ == p && (if taken {
                    *final(next) is None
                } else {
                    *final(next) == *old(next)
                }),
            },
    {
        let mut k: usize = 0;
        let ghost start = self@;
        let ghost n0 = *next;
        let ghost goal = spec_cluster(start, opts@, opt_bytes(n0));
        assert(opts@.subrange(0, opts@.len() as int) =~= opts@);
        while k < opts.len()
            invariant
                k <= opts@.len(),
                start == old(self)@,
                n0 == *old(next),
                goal == spec_cluster(start, opts@, opt_bytes(n0)),
                (*next is None || *next == n0),
                match spec_cluster(self@, opts@.subrange(k as int, opts@.len() as int), opt_bytes(*next)) {
                    Err(e) => goal == Err::<(ArgsV, bool), ArgError>(e),
                    Ok((p, t)) => goal matches Ok((gp, gt)) && gp == p && gt == (t || (n0 is Some && *next is None)),
                },
            decreases opts@.len() - k,
        {
            let ghost rest = opts@.subrange(k as int, opts@.len() as int);
            assert(rest.drop_first() =~= opts@.subrange(k + 1, opts@.len() as int));
            let ghost before = *next;
            let ghost p0 = self@;
            match self.handle_option(opts[k], next) {
                Err(e) => {
                    return Err(e);
                },
                Ok(()) => {},
            }
            k = k + 1;
        }
        assert(opts@.subrange(opts@.len() as int, opts@.len() as int) =~= Seq::<u8>::empty());
        Ok(())
    }

    /// Reads the command line (without the program's name).
    pub fn parse(argv: Vec<Vec<u8>>) -> (r: Result<CmdArgs, ArgError>)
        ensures
            match spec_parse_args(bytes_view(argv@)) {
                Ok(p) => r matches Ok(a) && a@ == p,
                Err(e) => r matches Err(e2) && e2 == e,
            },
    {
        if argv.len() == 0 {
            return Err(ArgError::Usage);
        }
        let mut args = argv;
        let mut parsed = CmdArgs::default();
        let mut i: usize = 0;
        let ghost goal = spec_args_from(default_args(), bytes_view(args@), 0);
        while i < args.len()
            invariant
                i <= args@.len(),
                goal == spec_args_from(default_args(), bytes_view(argv@), 0),
                argv@.len() > 0,
                spec_args_from(parsed@, bytes_view(args@), i as int) == goal,
            decreases args@.len() - i,
        {
            let ghost av = bytes_view(args@);
            assert(av[i as int] == args@[i as int]@);
            if args[i].len() == 0 {
                i = i + 1;
            } else if is_dash_dash(args[i].as_slice()) {
                let rest = args.split_off(i + 1);
                assert(bytes_view(rest@) =~= av.subrange(i + 1, av.len() as int));
                match parsed.extend_cmds(rest) {
                    Err(e) => return Err(e),
                    Ok(()) => return parsed.check_conflicts(),
                }
            } else if is_version_flag(args[i].as_slice()) {
                return Err(ArgError::Version);
            } else if is_vidoas_word(args[i].as_slice()) {
                parsed.vidoas = true;
                i = i + 1;
            } else if args[i][0] == 45u8 {
                let opts = slice_tail(args[i].as_slice());
                let mut next: Option<Vec<u8>> = if i + 1 < args.len() {
                    Some(args[i + 1].clone())
                } else {
                    None
                };
                let ghost n0 = next;
                match parsed.handle_cluster(opts.as_slice(), &mut next) {
                    Err(e) => return Err(e),
                    Ok(()) => {},
                }
                if next.is_none() && i + 1 < args.len() {
                    args.set(i + 1, Vec::new());
                    assert(bytes_view(args@) =~= av.update(i + 1, Seq::empty()));
                }
                i = i + 1;
            } else {
                let rest = args.split_off(i);
                assert(bytes_view(rest@) =~= av.subrange(i as int, av.len() as int));
                match parsed.extend_cmds(rest) {
                    Err(e) => return Err(e),
                    Ok(()) => return parsed.check_conflicts(),
                }
            }
        }
        parsed.check_conflicts()
    }

    fn check_conflicts(self) -> (r: Result<CmdArgs, ArgError>)
        ensures
            match spec_check_conflicts(self@) {
                Ok(p) => r matches Ok(a) && a@ == p,
                Err(e) => r matches Err(e2) && e2 == e,
            },
    {
        let p = self;
        let has_cmd = p.command.len() > 0;
        if p.clear && (has_cmd || p.shell || p.user.is_some() || p.config.is_some()
            || p.non_interactive || p.verbose) {
            return Err(ArgError::ClearConflict);
        }
        if p.vidoas && (has_cmd || p.shell || p.clear || p.user.is_some() || p.config.is_some()
            || p.non_interactive || p.verbose) {
            return Err(ArgError::VidoasConflict);
        }
        if p.verbose && p.config.is_none() {
            return Err(ArgError::VerboseWithoutConfig);
        }
        if p.config.is_some() && (p.shell || p.non_interactive || p.user.is_some()) {
            return Err(ArgError::ConfigConflict);
        }
        if !p.vidoas && !p.shell && !p.clear && p.config.is_none() && !has_cmd {
            return Err(ArgError::MissingCommand);
        }
        Ok(p)
    }
}

/// Everything but the first byte.
fn slice_tail(a: &[u8]) -> (r: Vec<u8>)
    requires
        a@.len() > 0,
    ensures
        r@ == a@.drop_first(),
{
    let r = vstd::slice::slice_to_vec(&a[1..a.len()]);
    assert(r@ =~= a@.drop_first());
    r
}

// ---------------------------------------------------------------------------
// The command that runs

/// The rule file.
pub const CONF_PATH: &'static str = "/etc/doas.conf";

/// The editor used when `EDITOR` is not set.
pub const DEFAULT_EDITOR: &'static str = "vim";

/// The words of the command that runs: with `-s`, the shell (from `SHELL`,
/// else from the password table); for `vidoas`, the editor (from `EDITOR`,
/// else `vim`) on the rule file; otherwise the command given.
pub open spec fn spec_command_line(
    shell: bool,
    vidoas: bool,
    env_shell: Option<Seq<u8>>,
    pw_shell: Seq<u8>,
    env_editor: Option<Seq<u8>>,
    command: Seq<Seq<u8>>,
) -> Seq<Seq<u8>> {
    if shell {
        seq![
            match env_shell {
                Some(sh) => sh,
                None => pw_shell,
            },
        ]
    } else if vidoas {
        seq![
            match env_editor {
                Some(ed) => ed,
                None => vstd::utf8::encode_utf8(DEFAULT_EDITOR@),
            },
            vstd::utf8::encode_utf8(CONF_PATH@),
        ]
    } else {
        command
    }
}

/// The bytes of an optional byte string.
pub open spec fn opt_view(v: Option<Vec<u8>>) -> Option<Seq<u8>> {
    match v {
        Some(x) => Some(x@),
        None => None,
    }
}

/// The bytes of each word.
pub open spec fn words_view(v: Seq<Vec<u8>>) -> Seq<Seq<u8>> {
    v.map_values(|w: Vec<u8>| w@)
}

/// Chooses the words of the command that runs (see `spec_command_line`).
pub fn command_line(
    shell: bool,
    vidoas: bool,
    env_shell: Option<Vec<u8>>,
    pw_shell: &[u8],
    env_editor: Option<Vec<u8>>,
    command: Vec<Vec<u8>>,
) -> (r: Vec<Vec<u8>>)
    ensures
        words_view(r@) == spec_command_line(
            shell,
            vidoas,
            opt_view(env_shell),
            pw_shell@,
            opt_view(env_editor),
            words_view(command@),
        ),
{
    if shell {
        let sh = match env_shell {
            Some(sh) => sh,
            None => vstd::slice::slice_to_vec(pw_shell),
        };
        let mut r: Vec<Vec<u8>> = Vec::new();
        r.push(sh);
        assert(words_view(r@) =~= seq![r@[0]@]);
        r
    } else if vidoas {
        let ed = match env_editor {
            Some(ed) => ed,
            None => vstd::slice::slice_to_vec(DEFAULT_EDITOR.as_bytes()),
        };
        let mut r: Vec<Vec<u8>> = Vec::new();
        r.push(ed);
        r.push(vstd::slice::slice_to_vec(CONF_PATH.as_bytes()));
        assert(words_view(r@) =~= seq![r@[0]@, r@[1]@]);
        r
    } else {
        command
    }
}

/// Words joined with single spaces, as the command line is logged.
pub open spec fn joined(words: Seq<Seq<u8>>) -> Seq<u8>
    decreases words.len(),
{
    if words.len() == 0 {
        Seq::empty()
    } else if words.len() == 1 {
        words[0]
    } else {
        joined(words.drop_last()) + seq![0x20u8] + words.last()
    }
}

/// Joins words with single spaces (see `joined`).
pub fn join_words(words: &[Vec<u8>]) -> (r: Vec<u8>)
    ensures
        r@ == joined(words_view(words@)),
{
    let ghost w = words_view(words@);
    let mut r: Vec<u8> = Vec::new();
    let mut i: usize = 0;
    while i < words.len()
        invariant
            w == words_view(words@),
            i <= words@.len(),
            r@ == joined(w.take(i as int)),
        decreases words@.len() - i,
    {
        let ghost before = r@;
        if i > 0 {
            r.push(0x20);
        }
        crate::utils::fmt::append_bytes(&mut r, words[i].as_slice());
        proof {
            let t = w.take(i + 1);
            assert(t.drop_last() =~= w.take(i as int));
            assert(t.last() == words@[i as int]@);
            if i == 0 {
                assert(r@ =~= t[0]);
            } else {
                assert(r@ =~= before + seq![0x20u8] + t.last());
            }
        }
        i = i + 1;
    }
    assert(w.take(words@.len() as int) =~= w);
    r
}

// ---------------------------------------------------------------------------
// Where the command is looked for

/// The position of the first `sep` in `s`.
pub open spec fn first_byte(s: Seq<u8>, sep: u8) -> Option<int>
    decreases s.len(),
{
    if s.len() == 0 {
        None
    } else if s[0] == sep {
        Some(0)
    } else {
        match first_byte(s.drop_first(), sep) {
            Some(i) => Some(i + 1),
            None => None,
        }
    }
}

/// The first position of a byte is the one before which it does not occur.
pub proof fn lemma_first_byte(s: Seq<u8>, sep: u8)
    ensures
        match first_byte(s, sep) {
            Some(i) => 0 <= i < s.len() && s[i] == sep && forall|j: int| 0 <= j < i ==> s[j] != sep,
            None => forall|j: int| 0 <= j < s.len() ==> s[j] != sep,
        },
    decreases s.len(),
{
    if s.len() > 0 && s[0] != sep {
        lemma_first_byte(s.drop_first(), sep);
        assert forall|j: int| 0 < j < s.len() implies s[j] == s.drop_first()[j - 1] by {}
    }
}

/// The directories of a search path: the text cut at each colon (an empty
/// text is one empty directory).
pub open spec fn path_dirs(path: Seq<u8>) -> Seq<Seq<u8>>
    decreases path.len(),
{
    match first_byte(path, 0x3a) {
        Some(i) => {
            proof {
                lemma_first_byte(path, 0x3a);
            }
            seq![path.take(i)] + path_dirs(path.skip(i + 1))
        },
        None => seq![path],
    }
}

/// Where a command is looked for, in order: as it is named when the name
/// holds a slash; else under each directory of the search path.
pub open spec fn spec_candidates(cmd: Seq<u8>, path: Seq<u8>) -> Seq<Seq<u8>> {
    if cmd.contains(0x2f) {
        seq![cmd]
    } else {
        path_dirs(path).map_values(|d: Seq<u8>| d + seq![0x2fu8] + cmd)
    }
}

/// The paths under which a command is looked for (see `spec_candidates`);
/// the first that names a file is run.
pub fn command_candidates(cmd: &[u8], path: &[u8]) -> (r: Vec<Vec<u8>>)
    ensures
        words_view(r@) == spec_candidates(cmd@, path@),
{
    let mut i: usize = 0;
    while i < cmd.len()
        invariant
            i <= cmd@.len(),
            forall|j: int| 0 <= j < i ==> cmd@[j] != 0x2f,
        decreases cmd@.len() - i,
    {
        if cmd[i] == 0x2f {
            let mut r: Vec<Vec<u8>> = Vec::new();
            r.push(vstd::slice::slice_to_vec(cmd));
            assert(cmd@.contains(cmd@[i as int]));
            assert(words_view(r@) =~= seq![cmd@]);
            return r;
        }
        i = i + 1;
    }
    assert(!cmd@.contains(0x2f));
    let ghost want = spec_candidates(cmd@, path@);
    let mut out: Vec<Vec<u8>> = Vec::new();
    let mut start: usize = 0;
    let ghost mut dirs: Seq<Seq<u8>> = Seq::empty();
    proof {
        assert(path@.skip(0) =~= path@);
        assert(dirs + path_dirs(path@) =~= path_dirs(path@));
        assert(words_view(out@) =~= dirs.map_values(|d: Seq<u8>| d + seq![0x2fu8] + cmd@));
    }
    loop
        invariant
            start <= path@.len(),
            !cmd@.contains(0x2f),
            want == spec_candidates(cmd@, path@),
            path_dirs(path@) == dirs + path_dirs(path@.skip(start as int)),
            words_view(out@) == dirs.map_values(|d: Seq<u8>| d + seq![0x2fu8] + cmd@),
        decreases path@.len() - start,
    {
        let rest = vstd::slice::slice_subrange(path, start, path.len());
        let ghost r = rest@;
        proof {
            lemma_first_byte(r, 0x3a);
        }
        let mut k: usize = 0;
        while k < rest.len() && rest[k] != 0x3a
            invariant
                k <= r.len(),
                r == rest@,
                forall|j: int| 0 <= j < k ==> r[j] != 0x3a,
            decreases r.len() - k,
        {
            k = k + 1;
        }
        let dir = vstd::slice::slice_subrange(path, start, start + k);
        let mut cand = vstd::slice::slice_to_vec(dir);
        cand.push(0x2f);
        crate::utils::fmt::append_bytes(&mut cand, cmd);
        assert(cand@ =~= dir@ + seq![0x2fu8] + cmd@);
        let ghost before = out@;
        out.push(cand);
        proof {
            assert(dir@ =~= r.take(k as int));
            if k < r.len() {
                assert(first_byte(r, 0x3a) == Some(k as int));
            } else {
                assert(first_byte(r, 0x3a) is None);
            }
        }
        if k < rest.len() {
            proof {
                assert(r.skip(k + 1) =~= path@.skip(start + k + 1));
                assert(path_dirs(r) == seq![r.take(k as int)] + path_dirs(r.skip(k + 1)));
                assert((dirs + seq![r.take(k as int)]) + path_dirs(path@.skip(start + k + 1)) =~= dirs
                    + (seq![r.take(k as int)] + path_dirs(path@.skip(start + k + 1))));
                assert(words_view(out@) =~= words_view(before).push(cand@));
                dirs = dirs.push(r.take(k as int));
                assert(words_view(out@) =~= dirs.map_values(|d: Seq<u8>| d + seq![0x2fu8] + cmd@));
            }
            start = start + k + 1;
        } else {
            proof {
                assert(r.take(k as int) =~= r);
                assert(path_dirs(r) == seq![r]);
                assert(words_view(out@) =~= words_view(before).push(cand@));
                dirs = dirs.push(r);
                assert(path_dirs(path@) =~= dirs);
                assert(words_view(out@) =~= dirs.map_values(|d: Seq<u8>| d + seq![0x2fu8] + cmd@));
            }
            return out;
        }
    }
}

} // verus!
