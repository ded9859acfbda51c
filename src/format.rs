//! The template language of a section and the color arguments inside it.
//!
//! Problems never stop an expansion: an unknown directive, and a color
//! argument that does not resolve, contribute nothing and are reported as
//! `FormatIssue`s. A numeric color offset that points past the rendering
//! sections resolves to the prompt's default color of that layer.

use vstd::prelude::*;
use vstd::string::*;
use crate::prompt::{indexes_into, lineup_indices, shown_indices, Prompt, PromptModel};
use crate::section::{PromptSection, SectionModel};

verus! {

/// Which layer a color escape paints.
#[derive(Clone, Copy, Debug, PartialEq, Eq, Structural)]
pub enum ColorKind {
    Foreground,
    Background,
}

/// Why a color argument could not be resolved.
#[derive(Clone, Copy, Debug, PartialEq, Eq, Structural)]
pub enum ColorError {
    /// The argument is a color name; names are not mapped at this layer.
    NamedColor,
    /// The argument starts with `%` but is no nested `%f{..}`, `%b{..}`,
    /// `%f` or `%b`.
    Malformed,
}

impl ColorError {
    /// A sentence that describes the error.
    pub fn message(&self) -> (r: &'static str)
        ensures
            *self == ColorError::NamedColor ==> r@ == "color names are not mapped to escape codes"@,
            *self == ColorError::Malformed ==> r@ == "unrecognized color argument"@,
    {
        match self {
            ColorError::NamedColor => "color names are not mapped to escape codes",
            ColorError::Malformed => "unrecognized color argument",
        }
    }
}

/// A problem met while expanding a template; the expansion goes on without
/// the directive's contribution.
#[derive(Clone, Copy, Debug, PartialEq, Eq, Structural)]
pub enum FormatIssue {
    /// `%` followed by a character that names no directive.
    UnknownDirective(char),
    /// A `%f{..}` or `%b{..}` whose argument did not resolve.
    Color(ColorError),
}

// ----- brace arguments -----

/// Number of characters of `s` before the `}` that closes a brace group
/// entered `depth` levels deep; all of `s` when no such `}` comes.
pub open spec fn arg_len(s: Seq<char>, depth: nat) -> nat
    decreases s.len(),
{
    if s.len() == 0 {
        0
    } else if s[0] == '}' && depth == 0 {
        0
    } else {
        let d: nat = if s[0] == '}' {
            (depth - 1) as nat
        } else if s[0] == '{' {
            depth + 1
        } else {
            depth
        };
        1 + arg_len(s.drop_first(), d)
    }
}

/// Length of the brace argument of `f` that starts at `start`, just after
/// its opening `{`.
pub fn brace_arg_len(f: &str, start: usize) -> (r: usize)
    requires
        start <= f@.len(),
    ensures
        r == arg_len(f@.subrange(start as int, f@.len() as int), 0),
        start + r <= f@.len(),
{
    let n = f.unicode_len();
    let mut j: usize = start;
    let mut depth: usize = 0;
    proof {
        assert(f@.subrange(start as int, n as int) =~= f@.subrange(j as int, n as int));
    }
    while j < n
        invariant
            n == f@.len(),
            start <= j <= n,
            depth <= j - start,
            arg_len(f@.subrange(start as int, n as int), 0) == (j - start) + arg_len(
                f@.subrange(j as int, n as int),
                depth as nat,
            ),
        decreases n - j,
    {
        let c = f.get_char(j);
        let ghost rest = f@.subrange(j as int, n as int);
        proof {
            assert(rest[0] == c);
            assert(rest.drop_first() =~= f@.subrange(j + 1, n as int));
        }
        if c == '}' {
            if depth == 0 {
                return j - start;
            }
            depth -= 1;
        } else if c == '{' {
            depth += 1;
        }
        j += 1;
    }
    proof {
        assert(f@.subrange(j as int, n as int).len() == 0);
    }
    j - start
}

/// The argument of the brace group whose `{` stands at `open` in `f`,
/// without the outer braces, and the index just past its closing `}`
/// (the length of `f` when none closes it).
pub fn get_arg<'a>(f: &'a str, open: usize) -> (r: (&'a str, usize))
    requires
        open < f@.len(),
    ensures
        r.0@ == f@.subrange(
            open + 1,
            open + 1 + arg_len(f@.subrange(open + 1, f@.len() as int), 0),
        ),
        r.1 == if open + 2 + arg_len(f@.subrange(open + 1, f@.len() as int), 0) <= f@.len() {
            open + 2 + arg_len(f@.subrange(open + 1, f@.len() as int), 0)
        } else {
            f@.len() as int
        },
{
    let n = f.unicode_len();
    let a = brace_arg_len(f, open + 1);
    let arg = f.substring_char(open + 1, open + 1 + a);
    let next = if a < n - open - 1 {
        open + 2 + a
    } else {
        n
    };
    (arg, next)
}

// ----- numeric offsets -----

pub open spec fn is_digit(c: char) -> bool {
    '0' <= c && c <= '9'
}

pub open spec fn all_digits(s: Seq<char>) -> bool {
    forall|k: int| 0 <= k < s.len() ==> is_digit(#[trigger] s[k])
}

/// Value of a run of decimal digits.
pub open spec fn digits_value(s: Seq<char>) -> nat
    decreases s.len(),
{
    if s.len() == 0 {
        0
    } else {
        digits_value(s.drop_last()) * 10 + ((s.last() as u32) - ('0' as u32)) as nat
    }
}

/// The integer that `s` spells as `str::parse::<isize>` reads it: an
/// optional sign, then one or more decimal digits, within `isize`'s range.
pub open spec fn offset_value(s: Seq<char>) -> Option<int> {
    let signed = s.len() > 0 && (s[0] == '-' || s[0] == '+');
    let body = if signed {
        s.drop_first()
    } else {
        s
    };
    let v: int = if s.len() > 0 && s[0] == '-' {
        -digits_value(body)
    } else {
        digits_value(body) as int
    };
    if body.len() > 0 && all_digits(body) && isize::MIN <= v <= isize::MAX {
        Some(v)
    } else {
        None
    }
}

/// Reads `s` as a signed decimal offset.
pub fn parse_offset(s: &str) -> (r: Option<isize>)
    ensures
        match r {
            Some(v) => offset_value(s@) == Some(v as int),
            None => offset_value(s@) is None,
        },
{
    let n = s.unicode_len();
    if n == 0 {
        return None;
    }
    let c0 = s.get_char(0);
    let start: usize = if c0 == '-' || c0 == '+' {
        1
    } else {
        0
    };
    let ghost body = s@.subrange(start as int, n as int);
    proof {
        if start == 1 {
            assert(body =~= s@.drop_first());
        } else {
            assert(body =~= s@);
        }
    }
    if start >= n {
        return None;
    }
    let limit: u128 = 0x1_0000_0000_0000_0000;
    let mut acc: u128 = 0;
    let mut big = false;
    let mut j: usize = start;
    proof {
        assert(s@.subrange(start as int, j as int) =~= Seq::<char>::empty());
    }
    while j < n
        invariant
            n == s@.len(),
            start <= j <= n,
            body == s@.subrange(start as int, n as int),
            c0 == s@[0],
            start == (if c0 == '-' || c0 == '+' { 1usize } else { 0usize }),
            limit == 0x1_0000_0000_0000_0000u128,
            all_digits(s@.subrange(start as int, j as int)),
            !big ==> acc as int == digits_value(s@.subrange(start as int, j as int)) && acc
                <= limit,
            big ==> digits_value(s@.subrange(start as int, j as int)) > limit,
        decreases n - j,
    {
        let c = s.get_char(j);
        if !('0' <= c && c <= '9') {
            proof {
                assert(body[j - start] == c);
                assert(!is_digit(body[j - start]));
            }
            return None;
        }
        let d = (c as u32 - 48) as u128;
        let ghost pre = s@.subrange(start as int, j as int);
        let ghost post = s@.subrange(start as int, j + 1);
        proof {
            assert(post.drop_last() =~= pre);
            assert(post.last() == c);
            assert(digits_value(post) == digits_value(pre) * 10 + d);
            assert forall|k: int| 0 <= k < post.len() implies is_digit(#[trigger] post[k]) by {
                if k < pre.len() {
                    assert(post[k] == pre[k]);
                }
            }
        }
        if !big {
            acc = acc * 10 + d;
            if acc > limit {
                big = true;
            }
        }
        j += 1;
    }
    proof {
        assert(s@.subrange(start as int, j as int) =~= body);
    }
    if big {
        return None;
    }
    if c0 == '-' {
        if acc <= (isize::MAX as u128) + 1 {
            let v: i128 = -(acc as i128);
            Some(v as isize)
        } else {
            None
        }
    } else if acc <= isize::MAX as u128 {
        Some(acc as isize)
    } else {
        None
    }
}

// ----- escape layers -----

/// `s` with its first `from` replaced by `to`; `s` itself when it holds no
/// `from`.
pub open spec fn replace_first(s: Seq<char>, from: char, to: char) -> Seq<char>
    decreases s.len(),
{
    if s.len() == 0 {
        s
    } else if s[0] == from {
        seq![to] + s.drop_first()
    } else {
        seq![s[0]] + replace_first(s.drop_first(), from, to)
    }
}

/// The foreground escape of the same color as background escape `e`: the
/// color family digit `4` becomes `3`.
pub open spec fn foreground_of(e: Seq<char>) -> Seq<char> {
    replace_first(e, '4', '3')
}

/// The background escape of the same color as foreground escape `e`: the
/// color family digit `3` becomes `4`.
pub open spec fn background_of(e: Seq<char>) -> Seq<char> {
    replace_first(e, '3', '4')
}

/// Escape `e` of layer `from`, recoded for layer `to`.
pub open spec fn recode(e: Seq<char>, from: ColorKind, to: ColorKind) -> Seq<char> {
    if from == to {
        e
    } else if to == ColorKind::Foreground {
        foreground_of(e)
    } else {
        background_of(e)
    }
}

proof fn lemma_replace_after_prefix(s: Seq<char>, from: char, to: char, j: int)
    requires
        0 <= j <= s.len(),
        forall|k: int| 0 <= k < j ==> s[k] != from,
    ensures
        replace_first(s, from, to) == s.take(j) + replace_first(s.skip(j), from, to),
    decreases j,
{
    if j == 0 {
        assert(s.take(0) + s.skip(0) =~= s);
        assert(s.take(0) + replace_first(s.skip(0), from, to) =~= replace_first(s, from, to));
    } else {
        let t = s.drop_first();
        assert forall|k: int| 0 <= k < j - 1 implies t[k] != from by {
            assert(t[k] == s[k + 1]);
        }
        lemma_replace_after_prefix(t, from, to, j - 1);
        assert(t.skip(j - 1) =~= s.skip(j));
        assert(seq![s[0]] + t.take(j - 1) =~= s.take(j));
        assert(seq![s[0]] + (t.take(j - 1) + replace_first(t.skip(j - 1), from, to)) =~= s.take(j)
            + replace_first(s.skip(j), from, to));
    }
}

/// `s` with its first `from` replaced by the one character of `to`.
fn replace_first_char(s: &str, from: char, to: &str) -> (r: String)
    requires
        to@.len() == 1,
    ensures
        r@ == replace_first(s@, from, to@[0]),
{
    let n = s.unicode_len();
    let mut j: usize = 0;
    while j < n && s.get_char(j) != from
        invariant
            n == s@.len(),
            j <= n,
            forall|k: int| 0 <= k < j ==> s@[k] != from,
        decreases n - j,
    {
        j += 1;
    }
    proof {
        lemma_replace_after_prefix(s@, from, to@[0], j as int);
    }
    let mut out = String::from_str(s.substring_char(0, j));
    if j < n {
        out.append(to);
        out.append(s.substring_char(j + 1, n));
        proof {
            let t = s@.skip(j as int);
            assert(t[0] == from);
            assert(replace_first(t, from, to@[0]) == seq![to@[0]] + t.drop_first());
            assert(t.drop_first() =~= s@.subrange(j + 1, n as int));
            assert(to@ =~= seq![to@[0]]);
            assert(s@.take(j as int) =~= s@.subrange(0, j as int));
            assert(out@ =~= s@.take(j as int) + replace_first(t, from, to@[0]));
        }
    } else {
        assert(s@.skip(j as int) =~= Seq::<char>::empty());
    }
    proof {
        assert(s@.take(j as int) =~= s@.subrange(0, j as int));
    }
    out
}

impl<'p> Prompt<'p> {
    /// The foreground escape of the color of background escape
    /// `color_escape`.
    pub fn get_foreground_color_escape(&self, color_escape: &str) -> (r: String)
        ensures
            r@ == foreground_of(color_escape@),
    {
        proof {
            reveal_strlit("3");
        }
        replace_first_char(color_escape, '4', "3")
    }

    /// The background escape of the color of foreground escape
    /// `color_escape`.
    pub fn get_background_color_escape(&self, color_escape: &str) -> (r: String)
        ensures
            r@ == background_of(color_escape@),
    {
        proof {
            reveal_strlit("4");
        }
        replace_first_char(color_escape, '3', "4")
    }
}

// ----- color arguments -----

/// Escape of layer `k` of a section.
pub open spec fn layer(s: SectionModel, k: ColorKind) -> Seq<char> {
    match k {
        ColorKind::Foreground => s.foreground,
        ColorKind::Background => s.background,
    }
}

/// The prompt's default escape of layer `k`.
pub open spec fn default_layer(m: PromptModel, k: ColorKind) -> Seq<char> {
    match k {
        ColorKind::Foreground => m.foreground,
        ColorKind::Background => m.background,
    }
}

/// Layer that a directive letter (`f` or `b`) names.
pub open spec fn kind_of_letter(c: char) -> ColorKind {
    if c == 'f' {
        ColorKind::Foreground
    } else {
        ColorKind::Background
    }
}

/// What a color argument resolves to, for the section that stands at
/// place `at` of `lineup` (the rendering sections in order, the indicator
/// left out):
/// - an integer `v` names layer `kind` of the section at place `at + v`,
///   or the prompt's default of that layer when no section stands there;
/// - `%f{inner}` / `%b{inner}` resolves `inner` for that layer, then
///   recodes the escape for layer `kind`;
/// - any other argument starting with `%` (a bare `%f` or `%b` too) is
///   malformed, and one that does not is a color name, which this layer
///   does not map.
pub open spec fn resolve_color(
    m: PromptModel,
    lineup: Seq<usize>,
    at: int,
    kind: ColorKind,
    arg: Seq<char>,
) -> Result<Seq<char>, ColorError>
    decreases arg.len(),
{
    match offset_value(arg) {
        Some(v) => if 0 <= at + v < lineup.len() {
            Ok(layer(m.sections[lineup[at + v] as int], kind))
        } else {
            Ok(default_layer(m, kind))
        },
        None => if arg.len() == 0 || arg[0] != '%' {
            Err(ColorError::NamedColor)
        } else if arg.len() <= 2 || (arg[1] != 'f' && arg[1] != 'b') {
            Err(ColorError::Malformed)
        } else if arg[2] == '{' && 4 + arg_len(arg.skip(3), 0) == arg.len() {
            match resolve_color(m, lineup, at,
                kind_of_letter(arg[1]),
                arg.subrange(3, arg.len() - 1),
            ) {
                Ok(e) => Ok(recode(e, kind_of_letter(arg[1]), kind)),
                Err(e) => Err(e),
            }
        } else {
            Err(ColorError::Malformed)
        },
    }
}

impl<'p> Prompt<'p> {
    /// Escape `e` of layer `from`, recoded for layer `to`.
    fn recode_escape(&self, e: String, from: ColorKind, to: ColorKind) -> (r: String)
        ensures
            r@ == recode(e@, from, to),
    {
        if from == to {
            e
        } else if to == ColorKind::Foreground {
            self.get_foreground_color_escape(e.as_str())
        } else {
            self.get_background_color_escape(e.as_str())
        }
    }

    /// Resolves color argument `arg` for layer `kind` in the template of
    /// the section that stands at place `at` of `lineup`.
    pub fn resolve_color(
        &self,
        lineup: &Vec<usize>,
        at: usize,
        kind: ColorKind,
        arg: &str,
    ) -> (r: Result<String, ColorError>)
        requires
            indexes_into(lineup@, self@.sections.len() as int),
        ensures
            match r {
                Ok(e) => resolve_color(self@, lineup@, at as int, kind, arg@) == Ok::<
                    Seq<char>,
                    ColorError,
                >(e@),
                Err(e) => resolve_color(self@, lineup@, at as int, kind, arg@) == Err::<
                    Seq<char>,
                    ColorError,
                >(e),
            },
        decreases arg@.len(),
    {
        match parse_offset(arg) {
            Some(v) => {
                let t: i128 = at as i128 + v as i128;
                if 0 <= t && t < lineup.len() as i128 {
                    let sec = &self.sections[lineup[t as usize]];
                    match kind {
                        ColorKind::Foreground => Ok(sec.foreground.clone()),
                        ColorKind::Background => Ok(sec.background.clone()),
                    }
                } else {
                    match kind {
                        ColorKind::Foreground => Ok(self.foreground.clone()),
                        ColorKind::Background => Ok(self.background.clone()),
                    }
                }
            },
            None => {
                let n = arg.unicode_len();
                if n == 0 || arg.get_char(0) != '%' {
                    return Err(ColorError::NamedColor);
                }
                if n <= 2 {
                    return Err(ColorError::Malformed);
                }
                let letter = arg.get_char(1);
                if letter != 'f' && letter != 'b' {
                    return Err(ColorError::Malformed);
                }
                let inner_kind = if letter == 'f' {
                    ColorKind::Foreground
                } else {
                    ColorKind::Background
                };
                if arg.get_char(2) != '{' {
                    return Err(ColorError::Malformed);
                }
                let a = brace_arg_len(arg, 3);
                proof {
                    assert(arg@.subrange(3, n as int) =~= arg@.skip(3));
                }
                if n < 4 || a != n - 4 {
                    return Err(ColorError::Malformed);
                }
                let inner = arg.substring_char(3, n - 1);
                match self.resolve_color(lineup, at, inner_kind, inner) {
                    Ok(e) => Ok(self.recode_escape(e, inner_kind, kind)),
                    Err(e) => Err(e),
                }
            },
        }
    }

    /// Resolves color argument `arg` for layer `kind` in the template of
    /// the `section_i`-th rendering section.
    pub fn process_color_arg(&self, kind: ColorKind, arg: &str, section_i: usize) -> (r: Result<
        String,
        ColorError,
    >)
        ensures
            match r {
                Ok(e) => resolve_color(
                    self@,
                    lineup_indices(self@.sections),
                    section_i as int,
                    kind,
                    arg@,
                ) == Ok::<Seq<char>, ColorError>(e@),
                Err(e) => resolve_color(
                    self@,
                    lineup_indices(self@.sections),
                    section_i as int,
                    kind,
                    arg@,
                ) == Err::<Seq<char>, ColorError>(e),
            },
    {
        let lineup = self.lineup_sections();
        self.resolve_color(&lineup, section_i, kind, arg)
    }
}

// ----- templates -----

/// One directive of a template.
pub ghost enum Directive {
    /// A character shown as it is (also `%%` and `%{`).
    Literal(char),
    /// `%t`
    Text,
    /// `%i`
    Icon,
    /// `%p`
    Path,
    /// `%F`, `%B`
    DefaultColor(ColorKind),
    /// `%f`, `%b` not followed by `{`
    OwnColor(ColorKind),
    /// `%f{arg}`, `%b{arg}`
    ColorArg(ColorKind, Seq<char>),
    /// `%r`
    Reset,
    /// `%` and a character that names no directive
    Unknown(char),
    /// `%` at the very end
    Dangling,
}

/// The directive at the start of the non-empty template rest `r`, and how
/// many characters it takes (the whole rest, or more, when a brace group
/// is left open).
pub open spec fn directive(r: Seq<char>) -> (Directive, nat) {
    if r[0] != '%' {
        (Directive::Literal(r[0]), 1)
    } else if r.len() == 1 {
        (Directive::Dangling, 1)
    } else if r[1] == 't' {
        (Directive::Text, 2)
    } else if r[1] == 'i' {
        (Directive::Icon, 2)
    } else if r[1] == 'p' {
        (Directive::Path, 2)
    } else if r[1] == 'F' {
        (Directive::DefaultColor(ColorKind::Foreground), 2)
    } else if r[1] == 'B' {
        (Directive::DefaultColor(ColorKind::Background), 2)
    } else if r[1] == 'r' {
        (Directive::Reset, 2)
    } else if r[1] == '%' || r[1] == '{' {
        (Directive::Literal(r[1]), 2)
    } else if r[1] == 'f' || r[1] == 'b' {
        if r.len() > 2 && r[2] == '{' {
            let a = arg_len(r.skip(3), 0);
            (Directive::ColorArg(kind_of_letter(r[1]), r.subrange(3, 3 + a as int)), 4 + a)
        } else {
            (Directive::OwnColor(kind_of_letter(r[1])), 2)
        }
    } else {
        (Directive::Unknown(r[1]), 2)
    }
}

/// What directive `d` of section `own`'s template contributes to the
/// output; nothing for a color argument that does not resolve.
pub open spec fn piece(m: PromptModel, lineup: Seq<usize>, at: int, own: int, d: Directive) -> Seq<
    char,
> {
    let s = m.sections[own];
    match d {
        Directive::Literal(c) => seq![c],
        Directive::Text => s.text,
        Directive::Icon => s.icon,
        Directive::Path => s.path,
        Directive::DefaultColor(k) => default_layer(m, k),
        Directive::OwnColor(k) => layer(s, k),
        Directive::ColorArg(k, a) => match resolve_color(m, lineup, at, k, a) {
            Ok(e) => e,
            Err(_) => Seq::empty(),
        },
        Directive::Reset => m.reset,
        Directive::Unknown(_) => Seq::empty(),
        Directive::Dangling => Seq::empty(),
    }
}

/// The problems that directive `d` reports.
pub open spec fn piece_issues(
    m: PromptModel,
    lineup: Seq<usize>,
    at: int,
    own: int,
    d: Directive,
) -> Seq<FormatIssue> {
    match d {
        Directive::ColorArg(k, a) => match resolve_color(m, lineup, at, k, a) {
            Ok(_) => Seq::empty(),
            Err(e) => seq![FormatIssue::Color(e)],
        },
        Directive::Unknown(c) => seq![FormatIssue::UnknownDirective(c)],
        _ => Seq::empty(),
    }
}

/// Expansion of template rest `r` of section `own`.
pub open spec fn expand(m: PromptModel, lineup: Seq<usize>, at: int, own: int, r: Seq<char>) -> Seq<
    char,
>
    decreases r.len(),
{
    if r.len() == 0 {
        Seq::empty()
    } else {
        let (d, c) = directive(r);
        if c >= r.len() {
            piece(m, lineup, at, own, d)
        } else {
            piece(m, lineup, at, own, d) + expand(m, lineup, at, own, r.skip(c as int))
        }
    }
}

/// Problems reported while expanding template rest `r`, in order.
pub open spec fn expand_issues(
    m: PromptModel,
    lineup: Seq<usize>,
    at: int,
    own: int,
    r: Seq<char>,
) -> Seq<FormatIssue>
    decreases r.len(),
{
    if r.len() == 0 {
        Seq::empty()
    } else {
        let (d, c) = directive(r);
        if c >= r.len() {
            piece_issues(m, lineup, at, own, d)
        } else {
            piece_issues(m, lineup, at, own, d) + expand_issues(m, lineup, at, own, r.skip(c as int))
        }
    }
}

/// Printable width of directive `d` in section `s`: literal characters,
/// text, icon and path count; escapes do not.
pub open spec fn piece_width(s: SectionModel, d: Directive) -> nat {
    match d {
        Directive::Literal(_) => 1,
        Directive::Text => s.text.len(),
        Directive::Icon => s.icon.len(),
        Directive::Path => s.path.len(),
        _ => 0,
    }
}

/// Printable width of template rest `r` in section `s`.
pub open spec fn template_width(s: SectionModel, r: Seq<char>) -> nat
    decreases r.len(),
{
    if r.len() == 0 {
        0
    } else {
        let (d, c) = directive(r);
        if c >= r.len() {
            piece_width(s, d)
        } else {
            piece_width(s, d) + template_width(s, r.skip(c as int))
        }
    }
}

/// Printable width of a section's expansion.
pub open spec fn section_width(s: SectionModel) -> nat {
    template_width(s, s.format)
}

/// The position just past the directive at `i` of `f`.
pub open spec fn next_index(f: Seq<char>, i: int) -> int {
    let c = directive(f.subrange(i, f.len() as int)).1;
    if i + c < f.len() {
        i + c
    } else {
        f.len() as int
    }
}

proof fn lemma_expand_step(m: PromptModel, lineup: Seq<usize>, at: int, own: int, f: Seq<char>, i: int)
    requires
        0 <= i < f.len(),
    ensures
        ({
            let r = f.subrange(i, f.len() as int);
            let d = directive(r).0;
            let j = next_index(f, i);
            &&& i < j <= f.len()
            &&& expand(m, lineup, at, own, r) == piece(m, lineup, at, own, d) + expand(
                m,
                lineup,
                at,
                own,
                f.subrange(j, f.len() as int),
            )
            &&& expand_issues(m, lineup, at, own, r) == piece_issues(m, lineup, at, own, d)
                + expand_issues(m, lineup, at, own, f.subrange(j, f.len() as int))
        }),
{
    let r = f.subrange(i, f.len() as int);
    let (d, c) = directive(r);
    let j = next_index(f, i);
    if c >= r.len() {
        assert(f.subrange(j, f.len() as int).len() == 0);
        assert(piece(m, lineup, at, own, d) + Seq::<char>::empty() =~= piece(m, lineup, at, own, d));
        assert(piece_issues(m, lineup, at, own, d) + Seq::<FormatIssue>::empty() =~= piece_issues(
            m,
            lineup,
            at,
            own,
            d,
        ));
    } else {
        assert(r.skip(c as int) =~= f.subrange(j, f.len() as int));
    }
}

proof fn lemma_width_step(s: SectionModel, f: Seq<char>, i: int)
    requires
        0 <= i < f.len(),
    ensures
        ({
            let r = f.subrange(i, f.len() as int);
            let j = next_index(f, i);
            &&& i < j <= f.len()
            &&& template_width(s, r) == piece_width(s, directive(r).0) + template_width(
                s,
                f.subrange(j, f.len() as int),
            )
        }),
{
    let r = f.subrange(i, f.len() as int);
    let c = directive(r).1;
    let j = next_index(f, i);
    if c >= r.len() {
        assert(f.subrange(j, f.len() as int).len() == 0);
    } else {
        assert(r.skip(c as int) =~= f.subrange(j, f.len() as int));
    }
}

impl<'p> Prompt<'p> {
    /// Expands the template of section `own`, which stands at place `at`
    /// of `lineup`; reports problems by appending them to `issues`.
    pub fn expand_section(
        &self,
        lineup: &Vec<usize>,
        at: usize,
        own: usize,
        issues: &mut Vec<FormatIssue>,
    ) -> (r: String)
        requires
            own < self@.sections.len(),
            indexes_into(lineup@, self@.sections.len() as int),
        ensures
            r@ == expand(self@, lineup@, at as int, own as int, self@.sections[own as int].format),
            final(issues)@ == old(issues)@ + expand_issues(
                self@,
                lineup@,
                at as int,
                own as int,
                self@.sections[own as int].format,
            ),
    {
        let sec = &self.sections[own];
        let f = sec.format.as_str();
        let n = f.unicode_len();
        let ghost m = self@;
        let ghost l = lineup@;
        let ghost full = f@;
        let ghost start = issues@;
        let mut out = String::new();
        let mut i: usize = 0;
        proof {
            assert(f@.subrange(0, n as int) =~= f@);
        }
        while i < n
            invariant
                n == f@.len(),
                f@ == full,
                i <= n,
                m == self@,
                l == lineup@,
                own < m.sections.len(),
                *sec == self.sections@[own as int],
                full == m.sections[own as int].format,
                indexes_into(lineup@, self@.sections.len() as int),
                out@ + expand(m, l, at as int, own as int, f@.subrange(i as int, n as int)) == expand(
                    m,
                    l,
                    at as int,
                    own as int,
                    full,
                ),
                issues@ + expand_issues(m, l, at as int, own as int, f@.subrange(i as int, n as int))
                    == start + expand_issues(m, l, at as int, own as int, full),
            decreases n - i,
        {
            let ghost r = f@.subrange(i as int, n as int);
            let ghost before = out@;
            let ghost issues_before = issues@;
            proof {
                lemma_expand_step(m, l, at as int, own as int, f@, i as int);
            }
            let ghost d = directive(r).0;
            let ghost j = next_index(f@, i as int);
            let c0 = f.get_char(i);
            if c0 != '%' {
                out.append(f.substring_char(i, i + 1));
                proof {
                    assert(f@.subrange(i as int, i + 1) =~= seq![c0]);
                }
                i += 1;
            } else if i + 1 == n {
                i += 1;
            } else {
                let c = f.get_char(i + 1);
                if c == 't' {
                    out.append(sec.text.as_str());
                    i += 2;
                } else if c == 'i' {
                    out.append(sec.icon.as_str());
                    i += 2;
                } else if c == 'p' {
                    out.append(sec.path.as_str());
                    i += 2;
                } else if c == 'F' {
                    out.append(self.foreground.as_str());
                    i += 2;
                } else if c == 'B' {
                    out.append(self.background.as_str());
                    i += 2;
                } else if c == 'r' {
                    out.append(self.shell.reset);
                    i += 2;
                } else if c == '%' || c == '{' {
                    out.append(f.substring_char(i + 1, i + 2));
                    proof {
                        assert(f@.subrange(i + 1, i + 2) =~= seq![c]);
                    }
                    i += 2;
                } else if c == 'f' || c == 'b' {
                    let kind = if c == 'f' {
                        ColorKind::Foreground
                    } else {
                        ColorKind::Background
                    };
                    if i + 2 < n && f.get_char(i + 2) == '{' {
                        let a = brace_arg_len(f, i + 3);
                        proof {
                            assert(r.skip(3) =~= f@.subrange(i + 3, n as int));
                            assert(r.subrange(3, 3 + a) =~= f@.subrange(i + 3, i + 3 + a));
                        }
                        let arg = f.substring_char(i + 3, i + 3 + a);
                        match self.resolve_color(lineup, at, kind, arg) {
                            Ok(e) => out.append(e.as_str()),
                            Err(err) => issues.push(FormatIssue::Color(err)),
                        }
                        i = if a < n - i - 3 {
                            i + 4 + a
                        } else {
                            n
                        };
                    } else {
                        match kind {
                            ColorKind::Foreground => out.append(sec.foreground.as_str()),
                            ColorKind::Background => out.append(sec.background.as_str()),
                        }
                        i += 2;
                    }
                } else {
                    issues.push(FormatIssue::UnknownDirective(c));
                    i += 2;
                }
            }
            proof {
                assert(i == j);
                assert(out@ =~= before + piece(m, l, at as int, own as int, d));
                assert(issues@ =~= issues_before + piece_issues(m, l, at as int, own as int, d));
                assert((before + piece(m, l, at as int, own as int, d)) + expand(
                    m,
                    l,
                    at as int,
                    own as int,
                    f@.subrange(j, n as int),
                ) =~= before + expand(m, l, at as int, own as int, r));
                assert((issues_before + piece_issues(m, l, at as int, own as int, d))
                    + expand_issues(m, l, at as int, own as int, f@.subrange(j, n as int))
                    =~= issues_before + expand_issues(m, l, at as int, own as int, r));
            }
        }
        proof {
            assert(f@.subrange(n as int, n as int) =~= Seq::<char>::empty());
            assert(out@ + Seq::<char>::empty() =~= out@);
            assert(issues@ + Seq::<FormatIssue>::empty() =~= issues@);
        }
        out
    }
}

impl<'p> Prompt<'p> {
    /// Expands the template of the `section_i`-th rendering section, with
    /// the problems met on the way.
    pub fn format_section(&self, section_i: usize) -> (r: (String, Vec<FormatIssue>))
        requires
            section_i < shown_indices(self@.sections).len(),
        ensures
            ({
                let own = shown_indices(self@.sections)[section_i as int] as int;
                let l = lineup_indices(self@.sections);
                &&& r.0@ == expand(self@, l, section_i as int, own, self@.sections[own].format)
                &&& r.1@ == expand_issues(self@, l, section_i as int, own, self@.sections[own].format)
            }),
    {
        let shown = self.visible_sections();
        let lineup = self.lineup_sections();
        let mut issues: Vec<FormatIssue> = Vec::new();
        let text = self.expand_section(&lineup, section_i, shown[section_i], &mut issues);
        proof {
            assert(issues@ =~= Seq::<FormatIssue>::empty() + issues@);
        }
        (text, issues)
    }
}

/// `x`, or `usize::MAX` when `x` exceeds it.
pub open spec fn clamp(x: int) -> int {
    if x > usize::MAX {
        usize::MAX as int
    } else {
        x
    }
}

/// Printable width of section `sec`'s template, or `usize::MAX` when it
/// exceeds that.
pub fn template_width_of(sec: &PromptSection) -> (r: usize)
    ensures
        r == clamp(section_width(sec@) as int),
{
    let f = sec.format.as_str();
    let n = f.unicode_len();
    let ghost s = sec@;
    let ghost full = f@;
    let ghost mut acc: int = 0;
    let mut w: usize = 0;
    let mut i: usize = 0;
    proof {
        assert(f@.subrange(0, n as int) =~= f@);
    }
    while i < n
        invariant
            n == f@.len(),
            f@ == full,
            s == sec@,
            full == s.format,
            i <= n,
            acc >= 0,
            w == clamp(acc),
            acc + template_width(s, f@.subrange(i as int, n as int)) == template_width(s, full),
        decreases n - i,
    {
        let ghost r = f@.subrange(i as int, n as int);
        proof {
            lemma_width_step(s, f@, i as int);
        }
        let ghost d = directive(r).0;
        let ghost j = next_index(f@, i as int);
        let c0 = f.get_char(i);
        let mut pw: usize = 0;
        if c0 != '%' {
            pw = 1;
            i += 1;
        } else if i + 1 == n {
            i += 1;
        } else {
            let c = f.get_char(i + 1);
            if c == 't' {
                pw = sec.text.as_str().unicode_len();
                i += 2;
            } else if c == 'i' {
                pw = sec.icon.as_str().unicode_len();
                i += 2;
            } else if c == 'p' {
                pw = sec.path.as_str().unicode_len();
                i += 2;
            } else if c == '%' || c == '{' {
                pw = 1;
                i += 2;
            } else if (c == 'f' || c == 'b') && i + 2 < n && f.get_char(i + 2) == '{' {
                let a = brace_arg_len(f, i + 3);
                proof {
                    assert(r.skip(3) =~= f@.subrange(i + 3, n as int));
                }
                i = if a < n - i - 3 {
                    i + 4 + a
                } else {
                    n
                };
            } else {
                i += 2;
            }
        }
        proof {
            assert(i == j);
            assert(pw == piece_width(s, d));
            acc = acc + pw;
        }
        w = w.saturating_add(pw);
    }
    proof {
        assert(f@.subrange(n as int, n as int).len() == 0);
    }
    w
}

/// Offsets -1 and +1 name the rendering neighbour before and after the
/// section, when it exists: its own escape, not a default.
pub proof fn lemma_neighbour_offsets(
    m: PromptModel,
    lineup: Seq<usize>,
    at: int,
    kind: ColorKind,
    arg: Seq<char>,
)
    ensures
        offset_value(arg) == Some(-1int) && 1 <= at <= lineup.len() ==> resolve_color(m, lineup, at,
            kind,
            arg,
        ) == Ok::<Seq<char>, ColorError>(layer(m.sections[lineup[at - 1] as int], kind)),
        offset_value(arg) == Some(1int) && 0 <= at && at + 1 < lineup.len() ==> resolve_color(m, lineup, at,
            kind,
            arg,
        ) == Ok::<Seq<char>, ColorError>(layer(m.sections[lineup[at + 1] as int], kind)),
{
}

} // verus!
