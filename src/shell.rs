//! Escape tables of the supported shells.

use vstd::prelude::*;
use crate::text::{lowercase, lower_of, same_text};
use vstd::string::*;

verus! {

/// Shell flavor whose escape quoting the prompt uses.
#[derive(Clone, Copy, Debug, PartialEq, Eq, Structural)]
pub enum Shell {
    Bash,
    Zsh,
}

/// The shell a lower-case name selects.
pub open spec fn shell_named(name: Seq<char>) -> Option<Shell> {
    if name == "bash"@ {
        Some(Shell::Bash)
    } else if name == "zsh"@ {
        Some(Shell::Zsh)
    } else {
        None
    }
}

impl Shell {
    /// The shell that `name`, already in lower case, selects.
    pub fn from_lowercase(name: &str) -> (r: Option<Shell>)
        ensures
            r == shell_named(name@),
    {
        if same_text(name, "bash") {
            Some(Shell::Bash)
        } else if same_text(name, "zsh") {
            Some(Shell::Zsh)
        } else {
            None
        }
    }

    /// The shell that `name` selects, ignoring case.
    pub fn from_name(name: &str) -> (r: Option<Shell>)
        ensures
            r == shell_named(lower_of(name@)),
    {
        let lowered = lowercase(name);
        Shell::from_lowercase(lowered.as_str())
    }
}

impl std::str::FromStr for Shell {
    type Err = ();

    fn from_str(s: &str) -> Result<Shell, ()> {
        match Shell::from_name(s) {
            Some(shell) => Ok(shell),
            None => Err(()),
        }
    }
}

/// Escape sequences of the eight basic colors, for one layer
/// (foreground or background).
#[derive(Clone, Copy, Debug, Default)]
pub struct ColorEscapes<'c> {
    pub black: &'c str,
    pub red: &'c str,
    pub green: &'c str,
    pub yellow: &'c str,
    pub blue: &'c str,
    pub magenta: &'c str,
    pub cyan: &'c str,
    pub white: &'c str,
}

/// The escape that a color name selects in a table.
pub open spec fn escape_named(t: ColorEscapes, name: Seq<char>) -> Option<Seq<char>> {
    if name == "black"@ {
        Some(t.black@)
    } else if name == "red"@ {
        Some(t.red@)
    } else if name == "green"@ {
        Some(t.green@)
    } else if name == "yellow"@ {
        Some(t.yellow@)
    } else if name == "blue"@ {
        Some(t.blue@)
    } else if name == "magenta"@ {
        Some(t.magenta@)
    } else if name == "cyan"@ {
        Some(t.cyan@)
    } else if name == "white"@ {
        Some(t.white@)
    } else {
        None
    }
}

impl<'c> ColorEscapes<'c> {
    /// The escape of the named color, or an error for an unknown name.
    pub fn get_escape(&self, color: &str) -> (r: Result<String, &str>)
        ensures
            match r {
                Ok(e) => escape_named(*self, color@) == Some(e@),
                Err(m) => escape_named(*self, color@) is None && m@ == "Unknown color name"@,
            },
    {
        let found: &str = if same_text(color, "black") {
            self.black
        } else if same_text(color, "red") {
            self.red
        } else if same_text(color, "green") {
            self.green
        } else if same_text(color, "yellow") {
            self.yellow
        } else if same_text(color, "blue") {
            self.blue
        } else if same_text(color, "magenta") {
            self.magenta
        } else if same_text(color, "cyan") {
            self.cyan
        } else if same_text(color, "white") {
            self.white
        } else {
            return Err("Unknown color name");
        };
        Ok(String::from_str(found))
    }
}

/// Escapes of one shell flavor: reset plus both color layers.
#[derive(Clone, Copy, Debug, Default)]
pub struct ShellInstance<'s> {
    pub reset: &'s str,
    pub foreground: ColorEscapes<'s>,
    pub background: ColorEscapes<'s>,
}

/// The escape table of each shell flavor.
pub open spec fn shell_escapes(shell: Shell) -> ShellInstance<'static> {
    match shell {
        Shell::Bash => ShellInstance {
            reset: "\x1B[0m",
            foreground: ColorEscapes {
                black: "\x1B[30m",
                red: "\x1B[31m",
                green: "\x1B[32m",
                yellow: "\x1B[33m",
                blue: "\x1B[34m",
                magenta: "\x1B[35m",
                cyan: "\x1B[36m",
                white: "\x1B[37m",
            },
            background: ColorEscapes {
                black: "\x1B[40m",
                red: "\x1B[41m",
                green: "\x1B[42m",
                yellow: "\x1B[43m",
                blue: "\x1B[44m",
                magenta: "\x1B[45m",
                cyan: "\x1B[46m",
                white: "\x1B[47m",
            },
        },
        Shell::Zsh => ShellInstance {
            reset: "%{\x1B[0m%}",
            foreground: ColorEscapes {
                black: "%{\x1B[30m%}",
                red: "%{\x1B[31m%}",
                green: "%{\x1B[32m%}",
                yellow: "%{\x1B[33m%}",
                blue: "%{\x1B[34m%}",
                magenta: "%{\x1B[35m%}",
                cyan: "%{\x1B[36m%}",
                white: "%{\x1B[37m%}",
            },
            background: ColorEscapes {
                black: "%{\x1B[40m%}",
                red: "%{\x1B[41m%}",
                green: "%{\x1B[42m%}",
                yellow: "%{\x1B[43m%}",
                blue: "%{\x1B[44m%}",
                magenta: "%{\x1B[45m%}",
                cyan: "%{\x1B[46m%}",
                white: "%{\x1B[47m%}",
            },
        },
    }
}

impl<'s> ShellInstance<'s> {
    /// The escape table of `shell`; zsh wraps each escape in `%{ %}`.
    pub fn new(shell: Shell) -> (r: ShellInstance<'static>)
        ensures
            r == shell_escapes(shell),
    {
        match shell {
            Shell::Bash => ShellInstance {
                reset: "\x1B[0m",
                foreground: ColorEscapes {
                    black: "\x1B[30m",
                    red: "\x1B[31m",
                    green: "\x1B[32m",
                    yellow: "\x1B[33m",
                    blue: "\x1B[34m",
                    magenta: "\x1B[35m",
                    cyan: "\x1B[36m",
                    white: "\x1B[37m",
                },
                background: ColorEscapes {
                    black: "\x1B[40m",
                    red: "\x1B[41m",
                    green: "\x1B[42m",
                    yellow: "\x1B[43m",
                    blue: "\x1B[44m",
                    magenta: "\x1B[45m",
                    cyan: "\x1B[46m",
                    white: "\x1B[47m",
                },
            },
            Shell::Zsh => ShellInstance {
                reset: "%{\x1B[0m%}",
                foreground: ColorEscapes {
                    black: "%{\x1B[30m%}",
                    red: "%{\x1B[31m%}",
                    green: "%{\x1B[32m%}",
                    yellow: "%{\x1B[33m%}",
                    blue: "%{\x1B[34m%}",
                    magenta: "%{\x1B[35m%}",
                    cyan: "%{\x1B[36m%}",
                    white: "%{\x1B[37m%}",
                },
                background: ColorEscapes {
                    black: "%{\x1B[40m%}",
                    red: "%{\x1B[41m%}",
                    green: "%{\x1B[42m%}",
                    yellow: "%{\x1B[43m%}",
                    blue: "%{\x1B[44m%}",
                    magenta: "%{\x1B[45m%}",
                    cyan: "%{\x1B[46m%}",
                    white: "%{\x1B[47m%}",
                },
            },
        }
    }
}

/// A table with every escape empty: the prompt before a shell is chosen.
pub open spec fn no_escapes() -> ShellInstance<'static> {
    ShellInstance {
        reset: "",
        foreground: ColorEscapes {
            black: "",
            red: "",
            green: "",
            yellow: "",
            blue: "",
            magenta: "",
            cyan: "",
            white: "",
        },
        background: ColorEscapes {
            black: "",
            red: "",
            green: "",
            yellow: "",
            blue: "",
            magenta: "",
            cyan: "",
            white: "",
        },
    }
}

impl<'s> ShellInstance<'s> {
    /// A table with every escape empty.
    pub fn plain() -> (r: ShellInstance<'static>)
        ensures
            r == no_escapes(),
    {
        ShellInstance {
            reset: "",
            foreground: ColorEscapes {
                black: "",
                red: "",
                green: "",
                yellow: "",
                blue: "",
                magenta: "",
                cyan: "",
                white: "",
            },
            background: ColorEscapes {
                black: "",
                red: "",
                green: "",
                yellow: "",
                blue: "",
                magenta: "",
                cyan: "",
                white: "",
            },
        }
    }
}

} // verus!
