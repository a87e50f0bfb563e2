//! Shell integration: the code handed back to the invoking shell.
//!
//! When the application is integrated into a shell, it writes shell code
//! into a side channel that the shell evaluates after the process exits;
//! that is how an environment variable like `AWS_PROFILE` reaches the
//! parent shell. [`Shell`] accumulates that code; whoever owns the real
//! side channel flushes the script afterwards. [`Setup`] carries the
//! decisions behind installing the integration into a shell profile's
//! startup script.

use vstd::prelude::*;

verus! {

use crate::error::Error;
use crate::text::contains_seq;
use crate::text::str_contains;

/// The line evaluated for one `export` of an environment variable.
pub open spec fn export_line(name: Seq<char>, value: Seq<char>) -> Seq<char> {
    "export "@ + name + "=\""@ + value + "\"\n"@
}

/// Accumulates shell code for the invoking shell to evaluate.
#[derive(Debug)]
pub struct Shell {
    /// The code written so far.
    code: String,
}

impl View for Shell {
    type V = Seq<char>;

    closed spec fn view(&self) -> Seq<char> {
        self.code@
    }
}

impl Shell {
    /// Creates an empty script.
    pub fn new() -> (r: Shell)
        ensures
            r@ == Seq::<char>::empty(),
    {
        Shell { code: String::new() }
    }

    /// Writes one line of shell code for evaluation.
    pub fn eval(&mut self, code: &str) -> (r: Result<(), Error>)
        ensures
            r is Ok,
            final(self)@ == old(self)@ + code@ + "\n"@,
    {
        self.code.append(code);
        self.code.append("\n");
        Ok(())
    }

    /// Exports a value for an environment variable.
    pub fn export(&mut self, name: &str, value: &str) -> (r: Result<(), Error>)
        ensures
            r is Ok,
            final(self)@ == old(self)@ + export_line(name@, value@),
    {
        let mut line = String::from_str("export ");
        line.append(name);
        line.append("=\"");
        line.append(value);
        line.append("\"");
        let out = self.eval(line.as_str());
        proof {
            reveal_strlit("\"");
            reveal_strlit("\n");
            reveal_strlit("\"\n");
            assert(self@ =~= old(self)@ + export_line(name@, value@));
        }
        out
    }

    /// Exits the shell's evaluation loop, if it is in one.
    pub fn exit(&mut self)
        ensures
            final(self)@ == old(self)@ + "break 2> /dev/null"@ + "\n"@,
    {
        let _ = self.eval("break 2> /dev/null");
    }

    /// Returns the accumulated shell code.
    pub fn script(&self) -> (r: &str)
        ensures
            r@ == self@,
    {
        self.code.as_str()
    }
}

/// The comment whose presence in a startup script marks the integration
/// as installed.
pub open spec fn installed_comment() -> Seq<char> {
    "# Integrate aws-login into the shell environment."@
}

/// The shell code a startup script evaluates to integrate the
/// application: it marks the shell by name and wraps the binary in a
/// function that evaluates whatever the binary writes into its side
/// channel.
pub open spec fn init_script(shell: Seq<char>, bin: Seq<char>) -> Seq<char> {
    "export AWS_LOGIN_SHELL=\""@ + shell + "\"\naws_login() {\n    SCRIPT=\"$(mktemp)\"\n    AWS_LOGIN_SCRIPT=\"$SCRIPT\" \""@
        + bin
        + "\" \"$@\"\n    STATUS=$?\n    if [ -s \"$SCRIPT\" ]; then\n        . \"$SCRIPT\"\n    fi\n    rm -f \"$SCRIPT\"\n    return $STATUS\n}\n"@
}

/// The lines appended to a startup script to install the integration.
pub open spec fn install_lines(shell: Seq<char>, bin: Seq<char>) -> Seq<char> {
    "\n"@ + installed_comment() + "\n"@ + "eval \"$("@ + bin + " shell init -s "@ + shell
        + ")\"\n"@
}

/// The mathematical model of a [`Setup`].
pub struct SetupModel {
    /// The shell the integration is for.
    pub shell: Seq<char>,
    /// The path of the startup script that will carry the integration.
    pub script: Seq<char>,
}

/// The decisions behind integrating the application into one shell.
#[derive(Debug)]
pub struct Setup {
    /// The shell the integration is for.
    shell: String,
    /// The path of the startup script that will carry the integration.
    script: String,
}

impl View for Setup {
    type V = SetupModel;

    closed spec fn view(&self) -> SetupModel {
        SetupModel { shell: self.shell@, script: self.script@ }
    }
}

impl Setup {
    /// Creates the setup for one shell: the startup script is the given
    /// path, or `<home>/.bashrc` when none is given.
    pub fn new(shell: String, profile: Option<&String>, home: &str) -> (r: Setup)
        ensures
            r@.shell == shell@,
            r@.script == match profile {
                Some(p) => p@,
                None => home@ + "/.bashrc"@,
            },
    {
        let script = match profile {
            Some(p) => p.clone(),
            None => {
                let mut s = String::from_str(home);
                s.append("/.bashrc");
                s
            },
        };
        Setup { shell, script }
    }

    /// Returns the path of the startup script.
    pub fn script_path(&self) -> (r: &str)
        ensures
            r@ == self@.script,
    {
        self.script.as_str()
    }

    /// Generates the shell code a startup script evaluates to integrate
    /// the application, for the binary at the given path.
    pub fn generate_script(&self, bin: &str) -> (r: String)
        ensures
            r@ == init_script(self@.shell, bin@),
    {
        let mut s = String::from_str("export AWS_LOGIN_SHELL=\"");
        s.append(self.shell.as_str());
        s.append(
            "\"\naws_login() {\n    SCRIPT=\"$(mktemp)\"\n    AWS_LOGIN_SCRIPT=\"$SCRIPT\" \"",
        );
        s.append(bin);
        s.append(
            "\" \"$@\"\n    STATUS=$?\n    if [ -s \"$SCRIPT\" ]; then\n        . \"$SCRIPT\"\n    fi\n    rm -f \"$SCRIPT\"\n    return $STATUS\n}\n",
        );
        proof {
            assert(s@ =~= init_script(self@.shell, bin@));
        }
        s
    }

    /// The lines appended to the startup script to install the
    /// integration, for the binary at the given path.
    pub fn install_addition(&self, bin: &str) -> (r: String)
        ensures
            r@ == install_lines(self@.shell, bin@),
    {
        let mut s = String::from_str("\n");
        s.append("# Integrate aws-login into the shell environment.");
        s.append("\n");
        s.append("eval \"$(");
        s.append(bin);
        s.append(" shell init -s ");
        s.append(self.shell.as_str());
        s.append(")\"\n");
        proof {
            reveal_strlit("# Integrate aws-login into the shell environment.");
            assert(s@ =~= install_lines(self@.shell, bin@));
        }
        s
    }

    /// Decides whether the integration is already installed: the startup
    /// script exists and carries the marker comment.
    pub fn is_installed(&self, script_exists: bool, contents: &str) -> (r: bool)
        ensures
            r == (script_exists && contains_seq(contents@, installed_comment())),
    {
        script_exists && str_contains(contents, "# Integrate aws-login into the shell environment.")
    }
}

/// Picks the setup suited to the named shell, with the given startup
/// script override and home directory; a shell this library cannot
/// integrate with gets nothing.
pub fn get_setup(shell: &str, profile: Option<&String>, home: &str) -> (r: Option<Setup>)
    ensures
        match r {
            Some(s) => (shell@ == "bash"@ || shell@ == "zsh"@) && s@.shell == shell@ && s@.script
                == match profile {
                Some(p) => p@,
                None => home@ + "/.bashrc"@,
            },
            None => shell@ != "bash"@ && shell@ != "zsh"@,
        },
{
    if crate::text::str_eq(shell, "bash") || crate::text::str_eq(shell, "zsh") {
        Some(Setup::new(String::from_str(shell), profile, home))
    } else {
        None
    }
}

} // verus!
