//! Composition of the whole line: options, ordering by position, the fit
//! pass, then the sections with alignment fill and padding.

use vstd::prelude::*;
use vstd::string::*;
use crate::fit::{
    all_no_wider, fitted, lemma_fit_no_wider, lemma_no_wider_trans, lemma_line_width_mono, line_width, no_wider, prompt_width,
    with_sections,
};
use crate::format::{clamp, expand, expand_issues, FormatIssue};
use crate::prompt::{lineup_indices, section_models, shown_indices, Prompt, PromptModel};
use crate::section::{position_rank, shows, with_options, Position, PromptSection, SectionModel};

verus! {

// ----- preparing the sections -----

/// The sections among the first `n` of `s` that stand at position `p`, in
/// order.
pub open spec fn at_position(s: Seq<SectionModel>, n: int, p: Position) -> Seq<SectionModel>
    decreases n,
{
    if n <= 0 {
        Seq::empty()
    } else if s[n - 1].position == p {
        at_position(s, n - 1, p).push(s[n - 1])
    } else {
        at_position(s, n - 1, p)
    }
}

/// `s` ordered by position (left, center, right, indicator); sections of
/// one position keep their order.
pub open spec fn by_position(s: Seq<SectionModel>) -> Seq<SectionModel> {
    at_position(s, s.len() as int, Position::LeftAlign) + at_position(
        s,
        s.len() as int,
        Position::CenterAlign,
    ) + at_position(s, s.len() as int, Position::RightAlign) + at_position(
        s,
        s.len() as int,
        Position::Prompt,
    )
}

/// `s` with every section's options applied.
pub open spec fn options_applied(s: Seq<SectionModel>, home: Seq<char>) -> Seq<SectionModel> {
    Seq::new(s.len(), |i: int| with_options(s[i], home))
}

/// The prompt before the fit pass: options applied, ordered by position.
pub open spec fn prepared(m: PromptModel) -> PromptModel {
    with_sections(m, by_position(options_applied(m.sections, m.home)))
}

/// The prompt as rendering leaves it.
pub open spec fn rendered(m: PromptModel) -> PromptModel {
    with_sections(prepared(m), fitted(prepared(m)))
}

/// Where a section with order key `key` goes into `r`: after the last
/// section whose key is at most `key`.
pub open spec fn order_slot(r: Seq<SectionModel>, key: nat) -> int
    decreases r.len(),
{
    if r.len() == 0 {
        0
    } else if r.last().order > key {
        order_slot(r.drop_last(), key)
    } else {
        r.len() as int
    }
}

/// The first `n` sections of `s` by ascending order key; equal keys keep
/// their order.
pub open spec fn by_order_upto(s: Seq<SectionModel>, n: int) -> Seq<SectionModel>
    decreases n,
{
    if n <= 0 {
        Seq::empty()
    } else {
        let r = by_order_upto(s, n - 1);
        r.insert(order_slot(r, s[n - 1].order), s[n - 1])
    }
}

/// Sections `s` by ascending order key, stable.
pub open spec fn by_order(s: Seq<SectionModel>) -> Seq<SectionModel> {
    by_order_upto(s, s.len() as int)
}

proof fn lemma_order_slot_bound(r: Seq<SectionModel>, key: nat)
    ensures
        0 <= order_slot(r, key) <= r.len(),
    decreases r.len(),
{
    if r.len() > 0 {
        lemma_order_slot_bound(r.drop_last(), key);
    }
}

proof fn lemma_by_order_len(s: Seq<SectionModel>, n: int)
    requires
        0 <= n <= s.len(),
    ensures
        by_order_upto(s, n).len() == n,
    decreases n,
{
    if n > 0 {
        lemma_by_order_len(s, n - 1);
        lemma_order_slot_bound(by_order_upto(s, n - 1), s[n - 1].order);
    }
}

// ----- the line -----

/// `s` repeated `n` times.
pub open spec fn repeat(s: Seq<char>, n: nat) -> Seq<char>
    decreases n,
{
    if n == 0 {
        Seq::empty()
    } else {
        repeat(s, (n - 1) as nat) + s
    }
}

/// Columns left over once the line's printable width is taken.
pub open spec fn spare_columns(m: PromptModel) -> nat {
    let w = clamp(prompt_width(m) as int);
    if m.columns > w {
        (m.columns - w) as nat
    } else {
        0
    }
}

/// Blank fill before a section at position `p` that follows one at `prev`:
/// it pushes the center group to the middle and the right group (and an
/// indicator that follows no right group) to the right edge.
pub open spec fn align_fill(m: PromptModel, prev: Option<Position>, p: Position) -> Seq<char> {
    let spare = spare_columns(m);
    match prev {
        None | Some(Position::LeftAlign) => match p {
            Position::LeftAlign => Seq::empty(),
            Position::CenterAlign => repeat(m.blank_fill, spare / 2 + spare % 2),
            _ => repeat(m.blank_fill, spare),
        },
        Some(Position::CenterAlign) => match p {
            Position::RightAlign | Position::Prompt => repeat(m.blank_fill, spare / 2),
            _ => Seq::empty(),
        },
        _ => Seq::empty(),
    }
}

/// Padding before a section at position `p` that follows one at `prev`:
/// surround padding when it opens a group, section padding within one,
/// none for the indicator.
pub open spec fn lead_pad(m: PromptModel, prev: Option<Position>, p: Position) -> Seq<char> {
    if p == Position::Prompt {
        Seq::empty()
    } else if prev == Some(p) {
        repeat(m.section_fill, m.section_pad)
    } else {
        repeat(m.section_fill, m.surround_pad)
    }
}

/// Padding after the `k`-th rendering section: surround padding when it
/// closes its group, none for the indicator.
pub open spec fn trail_pad(m: PromptModel, shown: Seq<usize>, k: int) -> Seq<char> {
    let p = m.sections[shown[k] as int].position;
    if p == Position::Prompt {
        Seq::empty()
    } else if k + 1 >= shown.len() || m.sections[shown[k + 1] as int].position != p {
        repeat(m.section_fill, m.surround_pad)
    } else {
        Seq::empty()
    }
}

/// What the `k`-th rendering section adds to the line after one at
/// `prev`: alignment fill, padding, its expansion, padding.
pub open spec fn section_piece(
    m: PromptModel,
    shown: Seq<usize>,
    lineup: Seq<usize>,
    k: int,
    prev: Option<Position>,
) -> Seq<char> {
    let i = shown[k] as int;
    let p = m.sections[i].position;
    align_fill(m, prev, p) + lead_pad(m, prev, p) + expand(m, lineup, k, i, m.sections[i].format)
        + trail_pad(m, shown, k)
}

/// The line from the `k`-th rendering section on, after one at `prev`.
pub open spec fn compose_from(
    m: PromptModel,
    shown: Seq<usize>,
    lineup: Seq<usize>,
    k: int,
    prev: Option<Position>,
) -> Seq<char>
    decreases shown.len() - k,
{
    if k >= shown.len() {
        Seq::empty()
    } else {
        section_piece(m, shown, lineup, k, prev) + compose_from(
            m,
            shown,
            lineup,
            k + 1,
            Some(m.sections[shown[k] as int].position),
        )
    }
}

/// Problems reported by the templates from the `k`-th rendering section on.
pub open spec fn compose_issues_from(
    m: PromptModel,
    shown: Seq<usize>,
    lineup: Seq<usize>,
    k: int,
) -> Seq<FormatIssue>
    decreases shown.len() - k,
{
    if k >= shown.len() {
        Seq::empty()
    } else {
        let i = shown[k] as int;
        expand_issues(m, lineup, k, i, m.sections[i].format) + compose_issues_from(
            m,
            shown,
            lineup,
            k + 1,
        )
    }
}

/// The line of prompt `m`, as it stands.
pub open spec fn compose(m: PromptModel) -> Seq<char> {
    compose_from(m, shown_indices(m.sections), lineup_indices(m.sections), 0, None)
}

/// Problems reported while composing the line of prompt `m`.
pub open spec fn compose_issues(m: PromptModel) -> Seq<FormatIssue> {
    compose_issues_from(m, shown_indices(m.sections), lineup_indices(m.sections), 0)
}

/// Appends `n` copies of `s` to `out`.
fn push_repeated(out: &mut String, s: &str, n: usize)
    ensures
        final(out)@ == old(out)@ + repeat(s@, n as nat),
{
    let ghost start = out@;
    let mut i: usize = 0;
    proof {
        assert(start + repeat(s@, 0) =~= start);
    }
    while i < n
        invariant
            i <= n,
            out@ == start + repeat(s@, i as nat),
        decreases n - i,
    {
        out.append(s);
        proof {
            assert(start + repeat(s@, (i + 1) as nat) =~= start + repeat(s@, i as nat) + s@);
        }
        i += 1;
    }
}

impl<'p> Prompt<'p> {
    /// Appends copies of the sections at position `p`, in order, to `out`.
    fn collect_position(&self, p: Position, out: &mut Vec<PromptSection>)
        ensures
            section_models(final(out)@) == section_models(old(out)@) + at_position(
                self@.sections,
                self@.sections.len() as int,
                p,
            ),
    {
        let n = self.sections.len();
        let ghost start = section_models(out@);
        let mut i: usize = 0;
        proof {
            assert(start + at_position(self@.sections, 0, p) =~= start);
        }
        while i < n
            invariant
                n == self.sections@.len(),
                i <= n,
                section_models(out@) == start + at_position(self@.sections, i as int, p),
            decreases n - i,
        {
            if self.sections[i].position == p {
                let ghost before = out@;
                out.push(self.sections[i].duplicate());
                proof {
                    assert(section_models(out@) =~= section_models(before).push(
                        self.sections@[i as int]@,
                    ));
                    assert(start + at_position(self@.sections, i + 1, p) =~= start + at_position(
                        self@.sections,
                        i as int,
                        p,
                    ).push(self@.sections[i as int]));
                }
            }
            i += 1;
        }
    }

    /// Orders the sections by position; sections of one position keep
    /// their order.
    pub fn sort_by_position(&mut self)
        ensures
            final(self)@ == with_sections(old(self)@, by_position(old(self)@.sections)),
            final(self).shell == old(self).shell,
    {
        let mut sorted: Vec<PromptSection> = Vec::new();
        proof {
            assert(section_models(sorted@) =~= Seq::<SectionModel>::empty());
        }
        self.collect_position(Position::LeftAlign, &mut sorted);
        self.collect_position(Position::CenterAlign, &mut sorted);
        self.collect_position(Position::RightAlign, &mut sorted);
        self.collect_position(Position::Prompt, &mut sorted);
        self.sections = sorted;
        proof {
            assert(self@.sections =~= by_position(old(self)@.sections));
        }
    }

    /// Orders the sections by their order key; equal keys keep their
    /// order.
    pub fn sort_by_order(&mut self)
        ensures
            final(self)@ == with_sections(old(self)@, by_order(old(self)@.sections)),
            final(self).shell == old(self).shell,
    {
        let n = self.sections.len();
        let ghost s = self@.sections;
        let mut sorted: Vec<PromptSection> = Vec::new();
        let mut i: usize = 0;
        proof {
            assert(section_models(sorted@) =~= Seq::<SectionModel>::empty());
        }
        while i < n
            invariant
                n == self.sections@.len(),
                s == self@.sections,
                i <= n,
                section_models(sorted@) == by_order_upto(s, i as int),
            decreases n - i,
        {
            let ghost r = section_models(sorted@);
            proof {
                lemma_by_order_len(s, i as int);
            }
            let key = self.sections[i].order;
            let mut j: usize = sorted.len();
            proof {
                assert(r.take(j as int) =~= r);
            }
            while j > 0 && sorted[j - 1].order > key
                invariant
                    r == section_models(sorted@),
                    j <= sorted@.len(),
                    order_slot(r.take(j as int), key as nat) == order_slot(r, key as nat),
                decreases j,
            {
                proof {
                    assert(r.take(j as int).drop_last() =~= r.take(j - 1));
                    assert(r[j - 1] == sorted@[j - 1]@);
                }
                j -= 1;
            }
            proof {
                if j > 0 {
                    assert(r.take(j as int).last() == r[j - 1]);
                    assert(r[j - 1] == sorted@[j - 1]@);
                }
            }
            let ghost before = sorted@;
            sorted.insert(j, self.sections[i].duplicate());
            proof {
                assert(section_models(sorted@) =~= r.insert(j as int, s[i as int]));
            }
            i += 1;
        }
        self.sections = sorted;
        proof {
            assert(self@.sections =~= by_order(s));
        }
    }

    /// Applies every section's options with the prompt's home directory.
    pub fn apply_all_options(&mut self)
        ensures
            final(self)@ == with_sections(
                old(self)@,
                options_applied(old(self)@.sections, old(self)@.home),
            ),
            final(self).shell == old(self).shell,
    {
        let n = self.sections.len();
        let home = self.home.clone();
        let ghost m0 = self@;
        let ghost sh0 = self.shell;
        let mut i: usize = 0;
        while i < n
            invariant
                self.shell == sh0,
                n == self.sections@.len(),
                n == m0.sections.len(),
                home@ == m0.home,
                i <= n,
                self@ == with_sections(m0, self@.sections),
                forall|k: int|
                    0 <= k < n ==> #[trigger] self@.sections[k] == if k < i {
                        with_options(m0.sections[k], m0.home)
                    } else {
                        m0.sections[k]
                    },
            decreases n - i,
        {
            let ghost before = self.sections@;
            self.sections[i].apply_options(home.as_str());
            proof {
                assert forall|k: int| 0 <= k < n implies #[trigger] self@.sections[k] == if k < i
                    + 1 {
                    with_options(m0.sections[k], m0.home)
                } else {
                    m0.sections[k]
                } by {
                    assert(self@.sections[k] == self.sections@[k]@);
                    assert(before[k]@ == section_models(before)[k]);
                    if k != i {
                        assert(self.sections@[k] == before[k]);
                    }
                }
            }
            i += 1;
        }
        proof {
            assert(self@.sections =~= options_applied(m0.sections, m0.home));
        }
    }
}

impl<'p> Prompt<'p> {
    /// Appends the blank fill that goes before a section at position `p`
    /// following one at `prev`.
    fn push_align_fill(&self, out: &mut String, prev: Option<Position>, p: Position, spare: usize)
        requires
            spare == spare_columns(self@),
        ensures
            final(out)@ == old(out)@ + align_fill(self@, prev, p),
    {
        let blank = self.blank_fill.as_str();
        match prev {
            None | Some(Position::LeftAlign) => match p {
                Position::LeftAlign => {
                    assert(old(out)@ + Seq::<char>::empty() =~= old(out)@);
                },
                Position::CenterAlign => push_repeated(out, blank, spare / 2 + spare % 2),
                _ => push_repeated(out, blank, spare),
            },
            Some(Position::CenterAlign) => match p {
                Position::RightAlign | Position::Prompt => push_repeated(out, blank, spare / 2),
                _ => {
                    assert(old(out)@ + Seq::<char>::empty() =~= old(out)@);
                },
            },
            _ => {
                assert(old(out)@ + Seq::<char>::empty() =~= old(out)@);
            },
        }
    }

    /// Appends the `k`-th rendering section, with its fill and padding, to
    /// `out`, and its template problems to `issues`.
    fn render_section(
        &self,
        out: &mut String,
        issues: &mut Vec<FormatIssue>,
        shown: &Vec<usize>,
        lineup: &Vec<usize>,
        k: usize,
        prev: Option<Position>,
        spare: usize,
    )
        requires
            spare == spare_columns(self@),
            crate::prompt::indexes_into(shown@, self@.sections.len() as int),
            crate::prompt::indexes_into(lineup@, self@.sections.len() as int),
            k < shown@.len(),
        ensures
            final(out)@ == old(out)@ + section_piece(self@, shown@, lineup@, k as int, prev),
            final(issues)@ == old(issues)@ + expand_issues(
                self@,
                lineup@,
                k as int,
                shown@[k as int] as int,
                self@.sections[shown@[k as int] as int].format,
            ),
    {
        let ghost m = self@;
        let i = shown[k];
        let p = self.sections[i].position;
        let ghost before = out@;
        self.push_align_fill(out, prev, p, spare);
        let ghost after_align = out@;
        let fill = self.section_fill.as_str();
        if p != Position::Prompt {
            let same = match prev {
                Some(q) => q == p,
                None => false,
            };
            if same {
                push_repeated(out, fill, self.section_pad);
            } else {
                push_repeated(out, fill, self.surround_pad);
            }
        }
        proof {
            if p == Position::Prompt {
                assert(out@ =~= after_align + lead_pad(m, prev, p));
            } else {
                assert(out@ == after_align + lead_pad(m, prev, p));
            }
        }
        let text = self.expand_section(lineup, k, i, issues);
        out.append(text.as_str());
        let ghost after_text = out@;
        if p != Position::Prompt {
            let closes = k >= shown.len() - 1 || self.sections[shown[k + 1]].position != p;
            if closes {
                push_repeated(out, fill, self.surround_pad);
            }
        }
        proof {
            if p == Position::Prompt || !(k + 1 >= shown@.len() || m.sections[shown@[k + 1] as int].position
                != p) {
                assert(out@ =~= after_text + trail_pad(m, shown@, k as int));
            } else {
                assert(out@ == after_text + trail_pad(m, shown@, k as int));
            }
            assert(out@ =~= before + section_piece(m, shown@, lineup@, k as int, prev));
        }
    }

    /// Renders the prompt line and reports the template problems met on
    /// the way. Applies the options, orders the sections by position and
    /// runs the fit pass on this value, which is left in that state.
    pub fn render(&mut self) -> (r: (String, Vec<FormatIssue>))
        ensures
            final(self)@ == rendered(old(self)@),
            final(self).shell == old(self).shell,
            r.0@ == compose(rendered(old(self)@)),
            r.1@ == compose_issues(rendered(old(self)@)),
    {
        self.apply_all_options();
        self.sort_by_position();
        self.fit_prompt();
        let ghost m = self@;
        let width = self.len();
        let spare: usize = if self.columns > width {
            self.columns - width
        } else {
            0
        };
        let shown = self.visible_sections();
        let lineup = self.lineup_sections();
        let mut out = String::new();
        let mut issues: Vec<FormatIssue> = Vec::new();
        let mut prev: Option<Position> = None;
        let mut k: usize = 0;
        let ghost full = compose(m);
        let ghost all_issues = compose_issues(m);
        proof {
            assert(out@ + compose_from(m, shown@, lineup@, 0, None) =~= full);
            assert(issues@ + compose_issues_from(m, shown@, lineup@, 0) =~= all_issues);
        }
        while k < shown.len()
            invariant
                m == self@,
                spare == spare_columns(m),
                shown@ == shown_indices(m.sections),
                lineup@ == lineup_indices(m.sections),
                crate::prompt::indexes_into(shown@, m.sections.len() as int),
                crate::prompt::indexes_into(lineup@, m.sections.len() as int),
                k <= shown@.len(),
                k > 0 ==> prev == Some(m.sections[shown@[k - 1] as int].position),
                k == 0 ==> prev is None,
                out@ + compose_from(m, shown@, lineup@, k as int, prev) == full,
                issues@ + compose_issues_from(m, shown@, lineup@, k as int) == all_issues,
            decreases shown@.len() - k,
        {
            let ghost before = out@;
            let ghost issues_before = issues@;
            self.render_section(&mut out, &mut issues, &shown, &lineup, k, prev, spare);
            let p = self.sections[shown[k]].position;
            proof {
                assert(before + compose_from(m, shown@, lineup@, k as int, prev) =~= out@
                    + compose_from(m, shown@, lineup@, k + 1, Some(p)));
                assert(issues@ + compose_issues_from(m, shown@, lineup@, k + 1) =~= issues_before
                    + compose_issues_from(m, shown@, lineup@, k as int));
            }
            prev = Some(p);
            k += 1;
        }
        proof {
            assert(out@ + Seq::<char>::empty() =~= out@);
            assert(issues@ + Seq::<FormatIssue>::empty() =~= issues@);
        }
        (out, issues)
    }

    /// Renders the prompt line; see `render`.
    pub fn term_text(&mut self) -> (r: String)
        ensures
            final(self)@ == rendered(old(self)@),
            final(self).shell == old(self).shell,
            r@ == compose(rendered(old(self)@)),
    {
        self.render().0
    }
}

// ----- rendering twice -----

/// Sections `s` stand in layout order.
pub open spec fn in_layout_order(s: Seq<SectionModel>) -> bool {
    forall|a: int, b: int|
        0 <= a < b < s.len() ==> position_rank(s[a].position) <= position_rank(s[b].position)
}

proof fn lemma_at_position_members(s: Seq<SectionModel>, n: int, p: Position)
    requires
        0 <= n <= s.len(),
    ensures
        forall|k: int| 0 <= k < at_position(s, n, p).len() ==> (#[trigger] at_position(s, n, p)[k]).position == p,
        at_position(s, n, p).len() <= n,
    decreases n,
{
    if n > 0 {
        lemma_at_position_members(s, n - 1, p);
    }
}

proof fn lemma_by_position_in_order(s: Seq<SectionModel>)
    ensures
        in_layout_order(by_position(s)),
{
    let n = s.len() as int;
    lemma_at_position_members(s, n, Position::LeftAlign);
    lemma_at_position_members(s, n, Position::CenterAlign);
    lemma_at_position_members(s, n, Position::RightAlign);
    lemma_at_position_members(s, n, Position::Prompt);
    let g0 = at_position(s, n, Position::LeftAlign);
    let g1 = at_position(s, n, Position::CenterAlign);
    let g2 = at_position(s, n, Position::RightAlign);
    let g3 = at_position(s, n, Position::Prompt);
    let r = by_position(s);
    assert(r =~= g0 + g1 + g2 + g3);
    assert forall|k: int| 0 <= k < r.len() implies position_rank((#[trigger] r[k]).position) == if k
        < g0.len() {
        0nat
    } else if k < g0.len() + g1.len() {
        1nat
    } else if k < g0.len() + g1.len() + g2.len() {
        2nat
    } else {
        3nat
    } by {
        if k < g0.len() {
            assert(r[k] == g0[k]);
        } else if k < g0.len() + g1.len() {
            assert(r[k] == g1[k - g0.len()]);
        } else if k < g0.len() + g1.len() + g2.len() {
            assert(r[k] == g2[k - g0.len() - g1.len()]);
        } else {
            assert(r[k] == g3[k - g0.len() - g1.len() - g2.len()]);
        }
    }
}

proof fn lemma_at_position_prefix(s: Seq<SectionModel>, t: Seq<SectionModel>, n: int, p: Position)
    requires
        0 <= n <= s.len(),
        n <= t.len(),
        forall|i: int| 0 <= i < n ==> s[i] == t[i],
    ensures
        at_position(s, n, p) == at_position(t, n, p),
    decreases n,
{
    if n > 0 {
        lemma_at_position_prefix(s, t, n - 1, p);
    }
}

proof fn lemma_at_position_absent(s: Seq<SectionModel>, n: int, p: Position)
    requires
        0 <= n <= s.len(),
        forall|i: int| 0 <= i < n ==> position_rank(s[i].position) < position_rank(p),
    ensures
        at_position(s, n, p) == Seq::<SectionModel>::empty(),
    decreases n,
{
    if n > 0 {
        lemma_at_position_absent(s, n - 1, p);
    }
}

/// Sections already in layout order stay as they are.
proof fn lemma_by_position_ordered(s: Seq<SectionModel>)
    requires
        in_layout_order(s),
    ensures
        by_position(s) == s,
    decreases s.len(),
{
    if s.len() == 0 {
        assert(by_position(s) =~= s);
    } else {
        let n = s.len() as int;
        let t = s.drop_last();
        let x = s.last();
        lemma_by_position_ordered(t);
        let ps = seq![Position::LeftAlign, Position::CenterAlign, Position::RightAlign, Position::Prompt];
        assert forall|j: int| 0 <= j < 4 implies #[trigger] at_position(s, n, ps[j]) == if ps[j]
            == x.position {
            at_position(t, n - 1, ps[j]).push(x)
        } else {
            at_position(t, n - 1, ps[j])
        } by {
            lemma_at_position_prefix(s, t, n - 1, ps[j]);
        }
        assert forall|j: int|
            0 <= j < 4 && position_rank(ps[j]) > position_rank(x.position) implies #[trigger] at_position(
            t,
            n - 1,
            ps[j],
        ) == Seq::<SectionModel>::empty() by {
            assert forall|i: int| 0 <= i < n - 1 implies position_rank(t[i].position) < position_rank(
                ps[j],
            ) by {
                assert(position_rank(s[i].position) <= position_rank(s[n - 1].position));
            }
            lemma_at_position_absent(t, n - 1, ps[j]);
        }
        let g0 = at_position(t, n - 1, Position::LeftAlign);
        let g1 = at_position(t, n - 1, Position::CenterAlign);
        let g2 = at_position(t, n - 1, Position::RightAlign);
        let g3 = at_position(t, n - 1, Position::Prompt);
        assert(t == g0 + g1 + g2 + g3);
        assert(at_position(s, n, ps[0]) == at_position(s, n, Position::LeftAlign));
        assert(at_position(s, n, ps[1]) == at_position(s, n, Position::CenterAlign));
        assert(at_position(s, n, ps[2]) == at_position(s, n, Position::RightAlign));
        assert(at_position(s, n, ps[3]) == at_position(s, n, Position::Prompt));
        assert(t.push(x) =~= s);
        match x.position {
            Position::LeftAlign => {
                assert(g1 == at_position(t, n - 1, ps[1]));
                assert(g2 == at_position(t, n - 1, ps[2]));
                assert(g3 == at_position(t, n - 1, ps[3]));
                assert(by_position(s) =~= g0.push(x) + g1 + g2 + g3);
                assert(g0.push(x) + g1 + g2 + g3 =~= (g0 + g1 + g2 + g3).push(x));
            },
            Position::CenterAlign => {
                assert(g2 == at_position(t, n - 1, ps[2]));
                assert(g3 == at_position(t, n - 1, ps[3]));
                assert(by_position(s) =~= g0 + g1.push(x) + g2 + g3);
                assert(g0 + g1.push(x) + g2 + g3 =~= (g0 + g1 + g2 + g3).push(x));
            },
            Position::RightAlign => {
                assert(g3 == at_position(t, n - 1, ps[3]));
                assert(by_position(s) =~= g0 + g1 + g2.push(x) + g3);
                assert(g0 + g1 + g2.push(x) + g3 =~= (g0 + g1 + g2 + g3).push(x));
            },
            Position::Prompt => {
                assert(by_position(s) =~= g0 + g1 + g2 + g3.push(x));
                assert(g0 + g1 + g2 + g3.push(x) =~= (g0 + g1 + g2 + g3).push(x));
            },
        }
    }
}

proof fn lemma_options_no_wider(s: Seq<SectionModel>, home: Seq<char>)
    ensures
        all_no_wider(options_applied(s, home), s),
{
    assert forall|i: int| 0 <= i < s.len() implies no_wider(#[trigger] options_applied(s, home)[i], s[i]) by {
        let x = s[i];
        if x.options.tilde && home.len() > 0 && home.is_prefix_of(x.path) {
            assert(x.path[0] == home[0]);
        }
    }
}

proof fn lemma_no_wider_keeps_order(s: Seq<SectionModel>, t: Seq<SectionModel>)
    requires
        all_no_wider(s, t),
        in_layout_order(t),
    ensures
        in_layout_order(s),
{
    assert forall|a: int, b: int| 0 <= a < b < s.len() implies position_rank(s[a].position)
        <= position_rank(s[b].position) by {
        assert(no_wider(s[a], t[a]));
        assert(no_wider(s[b], t[b]));
    }
}

/// Rendering a prompt a second time, on the value the first rendering
/// left, can only truncate further: the line is no wider, no section
/// hidden by the first rendering renders again, and each section keeps its
/// place, text and template with a path no longer than before.
pub proof fn lemma_render_twice(m: PromptModel)
    ensures
        ({
            let once = rendered(m);
            let twice = rendered(once);
            &&& twice.sections.len() == once.sections.len()
            &&& prompt_width(twice) <= prompt_width(once)
            &&& forall|i: int|
                0 <= i < twice.sections.len() && shows(#[trigger] twice.sections[i]) ==> shows(
                    once.sections[i],
                )
            &&& forall|i: int|
                0 <= i < twice.sections.len() ==> (#[trigger] twice.sections[i]).path.len()
                    <= once.sections[i].path.len() && twice.sections[i].text == once.sections[i].text
                    && twice.sections[i].format == once.sections[i].format
                    && twice.sections[i].position == once.sections[i].position
        }),
{
    let before_first = prepared(m);
    let once = rendered(m);
    lemma_by_position_in_order(options_applied(m.sections, m.home));
    lemma_fit_no_wider(before_first);
    lemma_no_wider_keeps_order(once.sections, before_first.sections);
    let opts = options_applied(once.sections, once.home);
    lemma_options_no_wider(once.sections, once.home);
    lemma_no_wider_keeps_order(opts, once.sections);
    lemma_by_position_ordered(opts);
    let before_second = prepared(once);
    assert(before_second.sections == opts);
    lemma_fit_no_wider(before_second);
    let twice = rendered(once);
    lemma_no_wider_trans(twice.sections, opts, once.sections);
    lemma_line_width_mono(once, twice.sections, once.sections);
    assert(prompt_width(twice) == line_width(once, twice.sections));
    assert forall|i: int| 0 <= i < twice.sections.len() implies #[trigger] no_wider(
        twice.sections[i],
        once.sections[i],
    ) by {
        assert(no_wider(twice.sections[i], once.sections[i]));
    }
}

} // verus!
