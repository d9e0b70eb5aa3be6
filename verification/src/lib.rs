//! A `doas` that lets users run commands as another user, by rules read
//! from `/etc/doas.conf`. The library holds what the program decides: the
//! command line, the rule file's lexer and parser, matching a request
//! against the rules, the command's environment, the time stamp that
//! spares a password, the password prompt, the messages it prints, and the
//! checks of `vidoas`. The program around it does the system calls.
use vstd::prelude::*;

pub mod text;
pub mod tokenizer;
pub mod timestamp;
pub mod config;
pub mod lines;
pub mod sys;
pub mod command;
pub mod env;
pub mod c;
pub mod utils;
pub mod display;
pub mod pass;
pub mod verify;
pub mod pam;
pub mod vidoas;
pub mod render;

verus! {

/// The program's name, put before its messages.
pub const NAME: &'static str = "doas";

} // verus!
