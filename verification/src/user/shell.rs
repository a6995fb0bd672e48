//! The line editor of the user shell: it reads one key at a time and decides
//! what to show and when to run a command. Reading keys, printing and the
//! fork/exec/wait of a command are the caller's part.
use vstd::prelude::*;
use crate::chars::{encode_chars, line_utf8};

verus! {

/// Line feed: runs the line.
pub const LF: u8 = 0x0a;
/// Carriage return: runs the line.
pub const CR: u8 = 0x0d;
/// Delete: erases the last character.
pub const DL: u8 = 0x7f;
/// Backspace: erases the last character.
pub const BS: u8 = 0x08;

/// What the shell does after a key.
#[derive(Debug)]
pub enum ShellAction {
    /// Print a fresh prompt that shows this exit code.
    Prompt(i32),
    /// Fork; the child executes the program named by these bytes (a
    /// NUL-terminated name), the parent waits for it and hands its exit code
    /// to `Shell::finish`.
    Run(Vec<u8>),
    /// Echo this character.
    Echo(u8),
    /// Erase the last character on the screen.
    Erase,
    /// Nothing to do.
    Ignore,
}

/// The shell's state: the characters typed since the last command, and the
/// exit code of that command.
pub struct Shell {
    pub line: Vec<u8>,
    pub last_exit_code: i32,
}

impl Shell {
    /// A shell with an empty line; the last exit code reads 0.
    pub fn new() -> (r: Shell)
        ensures
            r.line@ == Seq::<u8>::empty(),
            r.last_exit_code == 0,
    {
        Shell { line: Vec::new(), last_exit_code: 0 }
    }

    /// Takes the key `c`. Enter on an empty line shows a new prompt; on a
    /// typed line it hands out the line, UTF-8 encoded and NUL-terminated, as
    /// a command and starts a new line. Backspace or delete erases the last
    /// character, if there is one. Any other key is echoed and typed.
    pub fn feed(&mut self, c: u8) -> (r: ShellAction)
        ensures
            final(self).last_exit_code == old(self).last_exit_code,
            (c == LF || c == CR) && old(self).line@.len() == 0 ==> {
                &&& r matches ShellAction::Prompt(code) && code == old(self).last_exit_code
                &&& final(self).line@ == old(self).line@
            },
            (c == LF || c == CR) && old(self).line@.len() > 0 ==> {
                &&& r matches ShellAction::Run(cmd) && cmd@ == line_utf8(old(self).line@).push(0u8)
                &&& final(self).line@ == Seq::<u8>::empty()
            },
            (c == BS || c == DL) && old(self).line@.len() == 0 ==> {
                &&& r matches ShellAction::Ignore
                &&& final(self).line@ == old(self).line@
            },
            (c == BS || c == DL) && old(self).line@.len() > 0 ==> {
                &&& r matches ShellAction::Erase
                &&& final(self).line@ == old(self).line@.drop_last()
            },
            c != LF && c != CR && c != BS && c != DL ==> {
                &&& r matches ShellAction::Echo(e) && e == c
                &&& final(self).line@ == old(self).line@.push(c)
            },
    {
        if c == LF || c == CR {
            if self.line.len() == 0 {
                ShellAction::Prompt(self.last_exit_code)
            } else {
                let mut cmd = encode_chars(&self.line);
                cmd.push(0u8);
                self.line = Vec::new();
                ShellAction::Run(cmd)
            }
        } else if c == BS || c == DL {
            if self.line.len() == 0 {
                ShellAction::Ignore
            } else {
                self.line.pop();
                ShellAction::Erase
            }
        } else {
            self.line.push(c);
            ShellAction::Echo(c)
        }
    }

    /// The command has ended with `exit_code`: it is kept for the prompt,
    /// which is to be shown next.
    pub fn finish(&mut self, exit_code: i32) -> (r: ShellAction)
        ensures
            r matches ShellAction::Prompt(code) && code == exit_code,
            final(self).last_exit_code == exit_code,
            final(self).line@ == old(self).line@,
    {
        self.last_exit_code = exit_code;
        ShellAction::Prompt(exit_code)
    }
}

} // verus!
