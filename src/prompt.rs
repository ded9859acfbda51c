//! The prompt: its sections and the global layout knobs.

use vstd::prelude::*;
use crate::section::{shows, Position, PromptSection, SectionModel};
use crate::shell::ShellInstance;

verus! {

/// A whole prompt line. One value is rendered once: rendering abbreviates
/// paths and hides sections in place.
#[derive(Debug, Default)]
pub struct Prompt<'p> {
    pub sections: Vec<PromptSection>,
    /// Whether a blank line is printed before the prompt.
    pub newline: bool,
    /// Fill repeats between sections of one position.
    pub section_pad: usize,
    /// Fill repeats at each end of a position group.
    pub surround_pad: usize,
    /// Width of the terminal.
    pub columns: usize,
    /// Default foreground escape.
    pub foreground: String,
    /// Default background escape.
    pub background: String,
    pub section_fill: String,
    pub blank_fill: String,
    /// Home directory that the tilde option replaces by `~`.
    pub home: String,
    pub shell: ShellInstance<'p>,
}

/// Mathematical model of a prompt.
pub ghost struct PromptModel {
    pub sections: Seq<SectionModel>,
    pub newline: bool,
    pub section_pad: nat,
    pub surround_pad: nat,
    pub columns: nat,
    pub foreground: Seq<char>,
    pub background: Seq<char>,
    pub section_fill: Seq<char>,
    pub blank_fill: Seq<char>,
    pub home: Seq<char>,
    pub reset: Seq<char>,
}

/// Models of a sequence of sections.
pub open spec fn section_models(s: Seq<PromptSection>) -> Seq<SectionModel> {
    s.map_values(|x: PromptSection| x@)
}

impl<'p> View for Prompt<'p> {
    type V = PromptModel;

    open spec fn view(&self) -> PromptModel {
        PromptModel {
            sections: section_models(self.sections@),
            newline: self.newline,
            section_pad: self.section_pad as nat,
            surround_pad: self.surround_pad as nat,
            columns: self.columns as nat,
            foreground: self.foreground@,
            background: self.background@,
            section_fill: self.section_fill@,
            blank_fill: self.blank_fill@,
            home: self.home@,
            reset: self.shell.reset@,
        }
    }
}

/// Indices, in order, of the first `n` sections that render.
pub open spec fn shown_upto(s: Seq<SectionModel>, n: int) -> Seq<usize>
    decreases n,
{
    if n <= 0 {
        Seq::empty()
    } else if shows(s[n - 1]) {
        shown_upto(s, n - 1).push((n - 1) as usize)
    } else {
        shown_upto(s, n - 1)
    }
}

/// Indices, in order, of the first `n` sections that render and take part
/// in the width budget (all but the prompt indicator).
pub open spec fn lineup_upto(s: Seq<SectionModel>, n: int) -> Seq<usize>
    decreases n,
{
    if n <= 0 {
        Seq::empty()
    } else if shows(s[n - 1]) && s[n - 1].position != Position::Prompt {
        lineup_upto(s, n - 1).push((n - 1) as usize)
    } else {
        lineup_upto(s, n - 1)
    }
}

/// Indices of the sections that render.
pub open spec fn shown_indices(s: Seq<SectionModel>) -> Seq<usize> {
    shown_upto(s, s.len() as int)
}

/// Indices of the rendering sections that are not the prompt indicator.
pub open spec fn lineup_indices(s: Seq<SectionModel>) -> Seq<usize> {
    lineup_upto(s, s.len() as int)
}

/// Every entry of `l` indexes a section of `s`.
pub open spec fn indexes_into(l: Seq<usize>, len: int) -> bool {
    forall|k: int| 0 <= k < l.len() ==> #[trigger] l[k] < len
}

impl<'p> Prompt<'p> {
    /// Indices of the sections that render, in order.
    pub fn visible_sections(&self) -> (r: Vec<usize>)
        ensures
            r@ == shown_indices(self@.sections),
            indexes_into(r@, self@.sections.len() as int),
    {
        let n = self.sections.len();
        let mut r: Vec<usize> = Vec::new();
        let mut i: usize = 0;
        while i < n
            invariant
                n == self.sections@.len(),
                i <= n,
                r@ == shown_upto(self@.sections, i as int),
                indexes_into(r@, i as int),
            decreases n - i,
        {
            if self.sections[i].is_visible() {
                r.push(i);
            }
            i += 1;
        }
        r
    }

    /// Indices of the sections that render and are not the prompt
    /// indicator, in order.
    pub fn lineup_sections(&self) -> (r: Vec<usize>)
        ensures
            r@ == lineup_indices(self@.sections),
            indexes_into(r@, self@.sections.len() as int),
    {
        let n = self.sections.len();
        let mut r: Vec<usize> = Vec::new();
        let mut i: usize = 0;
        while i < n
            invariant
                n == self.sections@.len(),
                i <= n,
                r@ == lineup_upto(self@.sections, i as int),
                indexes_into(r@, i as int),
            decreases n - i,
        {
            if self.sections[i].is_visible() && self.sections[i].position != Position::Prompt {
                r.push(i);
            }
            i += 1;
        }
        r
    }
}

} // verus!
