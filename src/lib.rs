//! Rendering engine for a single-line shell status prompt.
//!
//! - `section`: one prompt segment and when it renders;
//! - `shell`: escape tables of the supported shells;
//! - `format`: the template language and its color arguments;
//! - `path`: path abbreviation;
//! - `fit`: width accounting and the fit pass;
//! - `layout`: composition of the whole line;
//! - `config`: the rules of the configuration settings;
//! - `prompt`, `text`: the prompt value and string helpers.

pub mod config;
pub mod fit;
pub mod format;
pub mod layout;
pub mod path;
pub mod prompt;
pub mod section;
pub mod shell;
pub mod text;

pub use format::{ColorError, ColorKind, FormatIssue};
pub use prompt::Prompt;
pub use section::{Position, PromptSection, SectionOptions};
pub use shell::{ColorEscapes, Shell, ShellInstance};

use vstd::prelude::*;

verus! {

/// Named visual styles a prompt configuration may select.
#[derive(Clone, Copy, Debug, PartialEq, Eq, Structural)]
pub enum Theme {
    Default,
    Line,
    Powerline,
    Pureline,
}

} // verus!
