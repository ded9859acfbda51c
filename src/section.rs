//! One prompt segment: its identity, its content and when it shows.

use vstd::prelude::*;
use crate::text::{char_count, is_single, lower_of, lowercase, same_text, starts_with};
use vstd::string::*;

verus! {

/// Layout slot of a section; sections are laid out in the order
/// `LeftAlign`, `CenterAlign`, `RightAlign`, `Prompt`.
#[derive(Clone, Copy, Debug, PartialEq, Eq, Structural)]
pub enum Position {
    LeftAlign,
    CenterAlign,
    RightAlign,
    Prompt,
}

/// The position a lower-case name selects.
pub open spec fn position_named(name: Seq<char>) -> Option<Position> {
    if name == "left"@ {
        Some(Position::LeftAlign)
    } else if name == "center"@ {
        Some(Position::CenterAlign)
    } else if name == "right"@ {
        Some(Position::RightAlign)
    } else if name == "prompt"@ {
        Some(Position::Prompt)
    } else {
        None
    }
}

impl Position {
    /// The position that `name`, already in lower case, selects.
    pub fn from_lowercase(name: &str) -> (r: Option<Position>)
        ensures
            r == position_named(name@),
    {
        if same_text(name, "left") {
            Some(Position::LeftAlign)
        } else if same_text(name, "center") {
            Some(Position::CenterAlign)
        } else if same_text(name, "right") {
            Some(Position::RightAlign)
        } else if same_text(name, "prompt") {
            Some(Position::Prompt)
        } else {
            None
        }
    }

    /// The position that `name` selects, ignoring case.
    pub fn from_name(name: &str) -> (r: Option<Position>)
        ensures
            r == position_named(lower_of(name@)),
    {
        let lowered = lowercase(name);
        Position::from_lowercase(lowered.as_str())
    }
}

impl std::str::FromStr for Position {
    type Err = ();

    fn from_str(s: &str) -> Result<Position, ()> {
        match Position::from_name(s) {
            Some(p) => Ok(p),
            None => Err(()),
        }
    }
}

/// Rank of a position in the layout order.
pub open spec fn position_rank(p: Position) -> nat {
    match p {
        Position::LeftAlign => 0,
        Position::CenterAlign => 1,
        Position::RightAlign => 2,
        Position::Prompt => 3,
    }
}

/// Independent flags that refine when and how a section shows.
#[derive(Clone, Copy, Debug, PartialEq, Eq, Structural)]
pub struct SectionOptions {
    pub tilde: bool,
    pub not_zero: bool,
    pub not_empty: bool,
}

impl Default for SectionOptions {
    fn default() -> (r: Self)
        ensures
            !r.tilde && !r.not_zero && !r.not_empty,
    {
        SectionOptions { tilde: false, not_zero: false, not_empty: false }
    }
}

/// Options after the option called `name` is switched on; `None` for a
/// name that calls no option.
pub open spec fn option_named(o: SectionOptions, name: Seq<char>) -> Option<SectionOptions> {
    if name == "not_zero"@ {
        Some(SectionOptions { not_zero: true, ..o })
    } else if name == "not_empty"@ {
        Some(SectionOptions { not_empty: true, ..o })
    } else if name == "~"@ || name == "tilde"@ {
        Some(SectionOptions { tilde: true, ..o })
    } else {
        None
    }
}

impl SectionOptions {
    /// Switches on the option called `name` (`not_zero`, `not_empty`, `~`
    /// or `tilde`); returns whether the name calls an option, and changes
    /// nothing when it does not.
    pub fn set_named(&mut self, name: &str) -> (r: bool)
        ensures
            r == option_named(*old(self), name@) is Some,
            r ==> Some(*final(self)) == option_named(*old(self), name@),
            !r ==> *final(self) == *old(self),
    {
        if same_text(name, "not_zero") {
            self.not_zero = true;
            true
        } else if same_text(name, "not_empty") {
            self.not_empty = true;
            true
        } else if same_text(name, "~") || same_text(name, "tilde") {
            self.tilde = true;
            true
        } else {
            false
        }
    }
}

/// One prompt segment.
#[derive(Debug)]
pub struct PromptSection {
    pub text: String,
    /// Text that path abbreviation and the tilde option work on.
    pub path: String,
    pub icon: String,
    pub format: String,
    pub visible: bool,
    /// Sacrifice order when the line is too wide: lower is hidden first.
    pub priority: usize,
    pub foreground: String,
    pub background: String,
    pub position: Position,
    /// Secondary sort key used while reading the configuration only.
    pub order: usize,
    pub options: SectionOptions,
}

/// Mathematical model of a section.
pub ghost struct SectionModel {
    pub text: Seq<char>,
    pub path: Seq<char>,
    pub icon: Seq<char>,
    pub format: Seq<char>,
    pub visible: bool,
    pub priority: nat,
    pub foreground: Seq<char>,
    pub background: Seq<char>,
    pub position: Position,
    pub order: nat,
    pub options: SectionOptions,
}

impl View for PromptSection {
    type V = SectionModel;

    open spec fn view(&self) -> SectionModel {
        SectionModel {
            text: self.text@,
            path: self.path@,
            icon: self.icon@,
            format: self.format@,
            visible: self.visible,
            priority: self.priority as nat,
            foreground: self.foreground@,
            background: self.background@,
            position: self.position,
            order: self.order as nat,
            options: self.options,
        }
    }
}

/// Whether a section renders: its own flag and a non-empty template,
/// unless an option hides it.
pub open spec fn shows(s: SectionModel) -> bool {
    &&& !(s.options.not_zero && s.text == seq!['0'])
    &&& !(s.options.not_empty && s.text.len() == 0 && s.path.len() == 0)
    &&& s.visible
    &&& s.format.len() > 0
}

impl PromptSection {
    /// Whether this section renders.
    pub fn is_visible(&self) -> (r: bool)
        ensures
            r == shows(self@),
    {
        if self.options.not_zero && is_single(self.text.as_str(), '0') {
            return false;
        }
        if self.options.not_empty && char_count(self.text.as_str()) == 0
            && char_count(self.path.as_str()) == 0 {
            return false;
        }
        self.visible && char_count(self.format.as_str()) > 0
    }
}

/// Path of section `s` after the tilde option: a leading home directory
/// becomes `~`. An empty home directory rewrites nothing.
pub open spec fn tilde_path(s: SectionModel, home: Seq<char>) -> Seq<char> {
    if s.options.tilde && home.len() > 0 && home.is_prefix_of(s.path) {
        seq!['~'] + s.path.skip(home.len() as int)
    } else {
        s.path
    }
}

/// Section `s` after its options are applied.
pub open spec fn with_options(s: SectionModel, home: Seq<char>) -> SectionModel {
    SectionModel { path: tilde_path(s, home), ..s }
}

impl PromptSection {
    /// Applies the tilde option: a path that starts with `home` gets that
    /// prefix replaced by `~`.
    pub fn apply_options(&mut self, home: &str)
        ensures
            final(self)@ == with_options(old(self)@, home@),
    {
        if self.options.tilde && char_count(home) > 0 && starts_with(self.path.as_str(), home) {
            let n = char_count(self.path.as_str());
            let h = char_count(home);
            proof {
                reveal_strlit("~");
            }
            let mut p = String::from_str("~");
            p.append(self.path.as_str().substring_char(h, n));
            proof {
                assert("~"@ =~= seq!['~']);
                assert(self.path@.subrange(h as int, n as int) =~= self.path@.skip(h as int));
                assert(p@ =~= seq!['~'] + self.path@.skip(h as int));
            }
            self.path = p;
        }
    }

    /// A copy of this section.
    pub fn duplicate(&self) -> (r: PromptSection)
        ensures
            r@ == self@,
    {
        PromptSection {
            text: self.text.clone(),
            path: self.path.clone(),
            icon: self.icon.clone(),
            format: self.format.clone(),
            visible: self.visible,
            priority: self.priority,
            foreground: self.foreground.clone(),
            background: self.background.clone(),
            position: self.position,
            order: self.order,
            options: self.options,
        }
    }
}

/// With `not_zero`, a section whose text is `0` never renders, whatever its
/// own flag says; and one that would otherwise render does so exactly when
/// its text is not `0`.
pub proof fn lemma_not_zero_hides_zero(s: SectionModel)
    requires
        s.options.not_zero,
    ensures
        s.text == seq!['0'] ==> !shows(s),
        s.visible && s.format.len() > 0 && !(s.options.not_empty && s.text.len() == 0
            && s.path.len() == 0) ==> (shows(s) <==> s.text != seq!['0']),
{
}

/// Applying the options a second time changes nothing, for a home
/// directory that does not itself start with `~`.
pub proof fn lemma_apply_options_twice(s: SectionModel, home: Seq<char>)
    requires
        home.len() == 0 || home[0] != '~',
    ensures
        with_options(with_options(s, home), home) == with_options(s, home),
{
    let once = with_options(s, home);
    if s.options.tilde && home.len() > 0 && home.is_prefix_of(s.path) {
        assert(once.path[0] == '~');
        assert(!home.is_prefix_of(once.path));
    }
}

} // verus!
