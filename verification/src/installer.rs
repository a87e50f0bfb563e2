//! Installing the integration script for a specific shell.
//!
//! The integration script wraps the binary in a shell function that
//! evaluates whatever shell code the binary leaves behind. Which function
//! name, which startup script, and which line loads the integration all
//! depend on the shell; [`Installer`] carries those decisions. Writing the
//! files is left to the caller, who hands in what was read and takes back
//! what must be written.

use vstd::prelude::*;

verus! {

use crate::text::contains_seq;
use crate::text::str_contains;
use crate::text::str_eq;

/// The shells the installer knows how to integrate with.
#[derive(Debug, PartialEq, Eq, Structural)]
pub enum Shell {
    /// The Bourne Again SHell.
    BASH,
    /// Any POSIX compliant shell.
    POSIX,
    /// The Z shell.
    ZSH,
}

impl Shell {
    /// Reads a shell from its name; an unrecognized name is an error
    /// message naming it.
    pub fn parse(s: &str) -> (r: Result<Shell, String>)
        ensures
            match r {
                Ok(shell) => (s@ == "bash"@ && shell == Shell::BASH) || (s@ == "posix"@ && shell
                    == Shell::POSIX) || (s@ == "zsh"@ && shell == Shell::ZSH),
                Err(m) => s@ != "bash"@ && s@ != "posix"@ && s@ != "zsh"@ && m@
                    == "Unrecognized shell: "@ + s@,
            },
    {
        if str_eq(s, "bash") {
            Ok(Shell::BASH)
        } else if str_eq(s, "posix") {
            Ok(Shell::POSIX)
        } else if str_eq(s, "zsh") {
            Ok(Shell::ZSH)
        } else {
            let mut m = String::from_str("Unrecognized shell: ");
            m.append(s);
            Err(m)
        }
    }
}

/// The text of the integration script around the shell function's name.
pub open spec fn integration_script(function: Seq<char>) -> Seq<char> {
    "#!/bin/sh\n\n# Find the command on the search path.\nexport AWS_LOGIN=\n\nif ! AWS_LOGIN=\"$(command -v aws-login)\"; then\n    echo \"The aws-login command could not be found in PATH.\" >&2\n\n    return 1\nfi\n\n# Wrap the command in a function that evaluates the shell code the\n# command writes into its side channel.\n"@
        + function
        + "()\n{\n    local SCRIPT=\n\n    if SCRIPT=\"$(mktemp)\"; then\n        SHELL_PIPE=\"$SCRIPT\" \"$AWS_LOGIN\" \"$@\"\n\n        local STATUS=$?\n\n        if [ -s \"$SCRIPT\" ]; then\n            eval \"$(cat \"$SCRIPT\")\"\n        fi\n\n        rm \"$SCRIPT\"\n\n        return $STATUS\n    fi\n\n    return 1\n}\n"@
}

/// The mathematical model of an [`Installer`].
pub struct InstallerModel {
    /// The name of the shell function to define.
    pub function: Seq<char>,
    /// What is written before the script path on the line that loads it.
    pub inject: Seq<char>,
    /// The path of the integration script.
    pub script: Seq<char>,
    /// The path of the shell profile's startup script.
    pub startup: Seq<char>,
}

/// The installation decisions for one shell.
#[derive(Debug)]
pub struct Installer {
    /// The name of the shell function to define.
    function: String,
    /// What is written before the script path on the line that loads it.
    inject: String,
    /// The path of the integration script.
    script: String,
    /// The path of the shell profile's startup script.
    startup: String,
}

impl View for Installer {
    type V = InstallerModel;

    closed spec fn view(&self) -> InstallerModel {
        InstallerModel {
            function: self.function@,
            inject: self.inject@,
            script: self.script@,
            startup: self.startup@,
        }
    }
}

impl Installer {
    /// Lays out the installation for a shell under the given home
    /// directory: which function name, which loader text, and which
    /// startup script.
    pub fn for_shell(shell: &Shell, home: &str) -> (r: Installer)
        ensures
            r@.script == home@ + "/.aws-login.sh"@,
            shell == Shell::BASH ==> r@.function == "aws-login"@ && r@.inject == ". "@
                && r@.startup == home@ + "/.bashrc"@,
            shell == Shell::POSIX ==> r@.function == "aws_login"@ && r@.inject == "source "@
                && r@.startup == home@ + "/.profile"@,
            shell == Shell::ZSH ==> r@.function == "aws-login"@ && r@.inject == "source "@
                && r@.startup == home@ + "/.zshrc"@,
    {
        let mut script = String::from_str(home);
        script.append("/.aws-login.sh");
        let mut startup = String::from_str(home);
        match shell {
            Shell::BASH => {
                startup.append("/.bashrc");
                Installer {
                    function: String::from_str("aws-login"),
                    inject: String::from_str(". "),
                    script,
                    startup,
                }
            },
            Shell::POSIX => {
                startup.append("/.profile");
                Installer {
                    function: String::from_str("aws_login"),
                    inject: String::from_str("source "),
                    script,
                    startup,
                }
            },
            Shell::ZSH => {
                startup.append("/.zshrc");
                Installer {
                    function: String::from_str("aws-login"),
                    inject: String::from_str("source "),
                    script,
                    startup,
                }
            },
        }
    }

    /// Returns the path of the integration script.
    pub fn script_path(&self) -> (r: &str)
        ensures
            r@ == self@.script,
    {
        self.script.as_str()
    }

    /// Returns the path of the startup script.
    pub fn startup_path(&self) -> (r: &str)
        ensures
            r@ == self@.startup,
    {
        self.startup.as_str()
    }

    /// The text of the integration script to create, with this shell's
    /// function name filled in.
    pub fn script_content(&self) -> (r: String)
        ensures
            r@ == integration_script(self@.function),
    {
        let mut s = String::from_str(
            "#!/bin/sh\n\n# Find the command on the search path.\nexport AWS_LOGIN=\n\nif ! AWS_LOGIN=\"$(command -v aws-login)\"; then\n    echo \"The aws-login command could not be found in PATH.\" >&2\n\n    return 1\nfi\n\n# Wrap the command in a function that evaluates the shell code the\n# command writes into its side channel.\n",
        );
        s.append(self.function.as_str());
        s.append(
            "()\n{\n    local SCRIPT=\n\n    if SCRIPT=\"$(mktemp)\"; then\n        SHELL_PIPE=\"$SCRIPT\" \"$AWS_LOGIN\" \"$@\"\n\n        local STATUS=$?\n\n        if [ -s \"$SCRIPT\" ]; then\n            eval \"$(cat \"$SCRIPT\")\"\n        fi\n\n        rm \"$SCRIPT\"\n\n        return $STATUS\n    fi\n\n    return 1\n}\n",
        );
        proof {
            assert(s@ =~= integration_script(self@.function));
        }
        s
    }

    /// The line appended to the startup script to load the integration
    /// script, ending in a newline.
    pub fn startup_line(&self) -> (r: String)
        ensures
            r@ == self@.inject + self@.script + "\n"@,
    {
        let mut s = self.inject.clone();
        s.append(self.script.as_str());
        s.append("\n");
        s
    }

    /// Decides whether the startup script must be touched: nothing is
    /// appended when it already names the integration script.
    pub fn startup_needs_line(&self, startup_contents: &str) -> (r: bool)
        ensures
            r == !contains_seq(startup_contents@, self@.script),
    {
        !str_contains(startup_contents, self.script.as_str())
    }

    /// Decides everything an installation must write, from what is on
    /// disk: the integration script's content where the script is
    /// missing, and the loader line where the startup script does not
    /// name the script yet. Nothing already in place is touched.
    pub fn install(&self, script_exists: bool, startup_contents: &str) -> (r: (
        Option<String>,
        Option<String>,
    ))
        ensures
            match r.0 {
                Some(content) => !script_exists && content@ == integration_script(self@.function),
                None => script_exists,
            },
            match r.1 {
                Some(line) => !contains_seq(startup_contents@, self@.script) && line@
                    == self@.inject + self@.script + "\n"@,
                None => contains_seq(startup_contents@, self@.script),
            },
    {
        let script = if script_exists {
            None
        } else {
            Some(self.script_content())
        };
        let line = if self.startup_needs_line(startup_contents) {
            Some(self.startup_line())
        } else {
            None
        };
        (script, line)
    }

    /// Decides whether the integration is installed: the integration
    /// script exists and the startup script names its path.
    pub fn is_installed(&self, script_exists: bool, startup_contents: &str) -> (r: bool)
        ensures
            r == (script_exists && contains_seq(startup_contents@, self@.script)),
    {
        script_exists && str_contains(startup_contents, self.script.as_str())
    }
}

} // verus!
