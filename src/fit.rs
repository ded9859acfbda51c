//! Width accounting and the fit pass that makes a prompt fit the terminal.

use vstd::prelude::*;
use vstd::string::*;
use crate::format::{clamp, section_width, template_width_of};
use crate::path::{shorten, shortened};
use crate::prompt::{section_models, Prompt, PromptModel};
use crate::section::{shows, Position, SectionModel};

verus! {

// ----- width -----

/// Whether a section renders and takes part in the width budget.
pub open spec fn counts(x: SectionModel) -> bool {
    shows(x) && x.position != Position::Prompt
}

/// Printable width of the counted sections among the first `n`.
pub open spec fn content_upto(s: Seq<SectionModel>, n: int) -> nat
    decreases n,
{
    if n <= 0 {
        0
    } else {
        content_upto(s, n - 1) + if counts(s[n - 1]) {
            section_width(s[n - 1])
        } else {
            0
        }
    }
}

/// Number of counted sections at position `p` among the first `n`.
pub open spec fn group_upto(s: Seq<SectionModel>, n: int, p: Position) -> nat
    decreases n,
{
    if n <= 0 {
        0
    } else {
        group_upto(s, n - 1, p) + if counts(s[n - 1]) && s[n - 1].position == p {
            1nat
        } else {
            0
        }
    }
}

/// Fill width of a position group of `count` sections: section padding
/// between siblings and surround padding at both ends.
pub open spec fn group_fill(m: PromptModel, count: nat) -> nat {
    if count == 0 {
        0
    } else {
        m.section_fill.len() * m.section_pad * (count - 1) as nat + m.section_fill.len()
            * m.surround_pad * 2
    }
}

/// Printable width of a prompt line whose sections are `s`.
pub open spec fn line_width(m: PromptModel, s: Seq<SectionModel>) -> nat {
    content_upto(s, s.len() as int) + group_fill(m, group_upto(s, s.len() as int, Position::LeftAlign))
        + group_fill(m, group_upto(s, s.len() as int, Position::CenterAlign)) + group_fill(
        m,
        group_upto(s, s.len() as int, Position::RightAlign),
    )
}

/// Printable width of the prompt.
pub open spec fn prompt_width(m: PromptModel) -> nat {
    line_width(m, m.sections)
}

proof fn lemma_clamp_mul(x: int, y: int)
    requires
        x >= 0,
        y >= 0,
    ensures
        clamp(clamp(x) * y) == clamp(x * y),
{
    if x > usize::MAX && y > 0 {
        assert(x * y >= x) by (nonlinear_arith)
            requires
                y >= 1,
                x >= 0,
        ;
        assert(usize::MAX * y >= usize::MAX) by (nonlinear_arith)
            requires
                y >= 1,
        ;
    }
}

/// `a * b`, or `usize::MAX` when that overflows.
fn mul_or_max(a: usize, b: usize) -> (r: usize)
    ensures
        r == clamp(a * b),
{
    match a.checked_mul(b) {
        Some(v) => v,
        None => usize::MAX,
    }
}

impl<'p> Prompt<'p> {
    /// Fill width of a position group of `count` sections, or `usize::MAX`
    /// when it exceeds that.
    fn group_fill_of(&self, count: usize) -> (r: usize)
        ensures
            r == clamp(group_fill(self@, count as nat) as int),
    {
        if count == 0 {
            return 0;
        }
        let fl = self.section_fill.as_str().unicode_len();
        let between = mul_or_max(mul_or_max(fl, self.section_pad), count - 1);
        let ends = mul_or_max(mul_or_max(fl, self.surround_pad), 2);
        proof {
            lemma_clamp_mul(fl * self.section_pad, (count - 1) as int);
            lemma_clamp_mul(fl * self.surround_pad, 2);
            assert(fl * self.section_pad >= 0) by (nonlinear_arith);
            assert(fl * self.surround_pad >= 0) by (nonlinear_arith);
            assert(fl * self.section_pad * (count - 1) >= 0) by (nonlinear_arith)
                requires
                    count >= 1,
            ;
        }
        between.saturating_add(ends)
    }

    /// Printable width of the prompt line: the expansions of the rendering
    /// sections other than the indicator, plus padding fill; `usize::MAX`
    /// when it exceeds that.
    pub fn len(&self) -> (r: usize)
        ensures
            r == clamp(prompt_width(self@) as int),
    {
        let n = self.sections.len();
        let ghost s = self@.sections;
        let ghost mut acc: int = 0;
        let mut w: usize = 0;
        let mut left: usize = 0;
        let mut center: usize = 0;
        let mut right: usize = 0;
        let mut i: usize = 0;
        while i < n
            invariant
                n == s.len(),
                s == self@.sections,
                i <= n,
                acc == content_upto(s, i as int),
                w == clamp(acc),
                left == group_upto(s, i as int, Position::LeftAlign),
                center == group_upto(s, i as int, Position::CenterAlign),
                right == group_upto(s, i as int, Position::RightAlign),
                left + center + right <= i,
            decreases n - i,
        {
            let sec = &self.sections[i];
            assert(s[i as int] == sec@);
            if sec.is_visible() && sec.position != Position::Prompt {
                let sw = template_width_of(sec);
                proof {
                    acc = acc + section_width(sec@);
                }
                w = w.saturating_add(sw);
                match sec.position {
                    Position::LeftAlign => left += 1,
                    Position::CenterAlign => center += 1,
                    Position::RightAlign => right += 1,
                    Position::Prompt => {},
                }
            }
            i += 1;
        }
        let gl = self.group_fill_of(left);
        let gc = self.group_fill_of(center);
        let gr = self.group_fill_of(right);
        w.saturating_add(gl).saturating_add(gc).saturating_add(gr)
    }
}

// ----- sacrifice order -----

/// Where section priority `pr` goes into `order`: after the last entry
/// whose priority is at most `pr`.
pub open spec fn insert_point(order: Seq<usize>, s: Seq<SectionModel>, pr: nat) -> int
    decreases order.len(),
{
    if order.len() == 0 {
        0
    } else if s[order.last() as int].priority > pr {
        insert_point(order.drop_last(), s, pr)
    } else {
        order.len() as int
    }
}

/// The first `n` sections by ascending priority; equal priorities keep
/// their order.
pub open spec fn priority_order_upto(s: Seq<SectionModel>, n: int) -> Seq<usize>
    decreases n,
{
    if n <= 0 {
        Seq::empty()
    } else {
        let o = priority_order_upto(s, n - 1);
        o.insert(insert_point(o, s, s[n - 1].priority), (n - 1) as usize)
    }
}

/// The order in which the fit pass considers sections: all of them,
/// lowest priority first, stable.
pub open spec fn priority_order(s: Seq<SectionModel>) -> Seq<usize> {
    priority_order_upto(s, s.len() as int)
}

proof fn lemma_insert_point_bound(order: Seq<usize>, s: Seq<SectionModel>, pr: nat)
    ensures
        0 <= insert_point(order, s, pr) <= order.len(),
    decreases order.len(),
{
    if order.len() > 0 {
        lemma_insert_point_bound(order.drop_last(), s, pr);
    }
}

proof fn lemma_priority_order_bound(s: Seq<SectionModel>, n: int)
    requires
        0 <= n <= s.len(),
    ensures
        forall|k: int|
            0 <= k < priority_order_upto(s, n).len() ==> #[trigger] priority_order_upto(s, n)[k]
                < n,
        priority_order_upto(s, n).len() <= n,
    decreases n,
{
    if n > 0 {
        lemma_priority_order_bound(s, n - 1);
        let o = priority_order_upto(s, n - 1);
        lemma_insert_point_bound(o, s, s[n - 1].priority);
    }
}

impl<'p> Prompt<'p> {
    /// The sections the fit pass considers, lowest priority first.
    pub fn priority_order(&self) -> (r: Vec<usize>)
        ensures
            r@ == priority_order(self@.sections),
            forall|k: int| 0 <= k < r@.len() ==> #[trigger] r@[k] < self@.sections.len(),
    {
        let n = self.sections.len();
        let ghost s = self@.sections;
        let mut order: Vec<usize> = Vec::new();
        let mut i: usize = 0;
        while i < n
            invariant
                n == s.len(),
                s == self@.sections,
                i <= n,
                order@ == priority_order_upto(s, i as int),
            decreases n - i,
        {
            proof {
                lemma_priority_order_bound(s, i as int);
            }
            {
                let pr = self.sections[i].priority;
                let mut j: usize = order.len();
                proof {
                    assert(order@.take(j as int) =~= order@);
                }
                while j > 0 && self.sections[order[j - 1]].priority > pr
                    invariant
                        n == s.len(),
                        s == self@.sections,
                        i < n,
                        pr == s[i as int].priority,
                        order@ == priority_order_upto(s, i as int),
                        forall|k: int| 0 <= k < order@.len() ==> #[trigger] order@[k] < i,
                        j <= order@.len(),
                        insert_point(order@.take(j as int), s, pr as nat) == insert_point(
                            order@,
                            s,
                            pr as nat,
                        ),
                    decreases j,
                {
                    proof {
                        assert(order@.take(j as int).drop_last() =~= order@.take(j - 1));
                    }
                    j -= 1;
                }
                proof {
                    if j > 0 {
                        assert(order@.take(j as int).last() == order@[j - 1]);
                    }
                }
                order.insert(j, i);
            }
            i += 1;
        }
        proof {
            lemma_priority_order_bound(s, n as int);
        }
        order
    }
}

// ----- the fit pass -----

/// Sections `s` with every path cut to keep its last `keep` components
/// whole.
pub open spec fn shorten_all(s: Seq<SectionModel>, keep: nat) -> Seq<SectionModel> {
    Seq::new(s.len(), |i: int| SectionModel { path: shortened(s[i].path, keep), ..s[i] })
}

/// Sections `s` with section `i` switched off.
pub open spec fn switched_off(s: Seq<SectionModel>, i: int) -> Seq<SectionModel> {
    s.update(i, SectionModel { visible: false, ..s[i] })
}

/// Progress of the fit pass: the sections so far, which abbreviation
/// tiers have fired (all components cut; last one kept; last two kept),
/// and whether the line fits and the pass stopped.
pub ghost struct FitState {
    pub sections: Seq<SectionModel>,
    pub cut_all: bool,
    pub keep_one: bool,
    pub keep_two: bool,
    pub done: bool,
}

/// Whether sections `s` fit the terminal width of `m` (a width past
/// `usize::MAX` counts as `usize::MAX`, as `Prompt::len` reports it).
pub open spec fn fits(m: PromptModel, s: Seq<SectionModel>) -> bool {
    clamp(line_width(m, s) as int) <= m.columns
}

/// Sections `s` with section `i` switched off, unless it is the prompt
/// indicator, which always stays.
pub open spec fn sacrifice(s: Seq<SectionModel>, i: int) -> Seq<SectionModel> {
    if s[i].position == Position::Prompt {
        s
    } else {
        switched_off(s, i)
    }
}

/// One step of the fit pass, on section `i`: stop if the line fits; else
/// fire the strongest abbreviation tier not yet fired whose threshold
/// (10, 20, 30) lies above the section's priority, and stop if the line
/// then fits; else hide the section, unless it is the prompt indicator.
pub open spec fn fit_step(m: PromptModel, st: FitState, i: int) -> FitState {
    let pr = st.sections[i].priority;
    if st.done || fits(m, st.sections) {
        FitState { done: true, ..st }
    } else {
        let tier = if !st.cut_all && pr < 10 {
            Some(FitState { sections: shorten_all(st.sections, 0), cut_all: true, ..st })
        } else if !st.keep_one && pr < 20 {
            Some(FitState { sections: shorten_all(st.sections, 1), keep_one: true, ..st })
        } else if !st.keep_two && pr < 30 {
            Some(FitState { sections: shorten_all(st.sections, 2), keep_two: true, ..st })
        } else {
            None
        };
        match tier {
            Some(t) => if fits(m, t.sections) {
                FitState { done: true, ..t }
            } else {
                FitState { sections: sacrifice(t.sections, i), ..t }
            },
            None => FitState { sections: sacrifice(st.sections, i), ..st },
        }
    }
}

/// State of the fit pass after the first `k` sections of `order`.
pub open spec fn fit_walk(m: PromptModel, order: Seq<usize>, k: int) -> FitState
    decreases k,
{
    if k <= 0 {
        FitState {
            sections: m.sections,
            cut_all: false,
            keep_one: false,
            keep_two: false,
            done: false,
        }
    } else {
        fit_step(m, fit_walk(m, order, k - 1), order[k - 1] as int)
    }
}

/// The sections after the fit pass.
pub open spec fn fitted(m: PromptModel) -> Seq<SectionModel> {
    let order = priority_order(m.sections);
    fit_walk(m, order, order.len() as int).sections
}

/// Prompt `m` with sections `s`.
pub open spec fn with_sections(m: PromptModel, s: Seq<SectionModel>) -> PromptModel {
    PromptModel { sections: s, ..m }
}

impl<'p> Prompt<'p> {
    /// Cuts every section's path to keep its last `keep` components whole.
    fn shorten_all_paths(&mut self, keep: usize)
        ensures
            final(self)@ == with_sections(old(self)@, shorten_all(old(self)@.sections, keep as nat)),
            final(self).sections@.len() == old(self).sections@.len(),
            final(self).shell == old(self).shell,
    {
        let n = self.sections.len();
        let ghost m0 = self@;
        let ghost sh0 = self.shell;
        let mut i: usize = 0;
        while i < n
            invariant
                self.shell == sh0,
                n == self.sections@.len(),
                n == m0.sections.len(),
                i <= n,
                self@ == with_sections(m0, self@.sections),
                forall|k: int|
                    0 <= k < n ==> #[trigger] self@.sections[k] == if k < i {
                        SectionModel {
                            path: shortened(m0.sections[k].path, keep as nat),
                            ..m0.sections[k]
                        }
                    } else {
                        m0.sections[k]
                    },
            decreases n - i,
        {
            let ghost before = self.sections@;
            let p = shorten(self.sections[i].path.as_str(), keep);
            self.sections[i].path = p;
            proof {
                assert forall|k: int| 0 <= k < n implies #[trigger] self@.sections[k] == if k < i
                    + 1 {
                    SectionModel { path: shortened(m0.sections[k].path, keep as nat), ..m0.sections[k] }
                } else {
                    m0.sections[k]
                } by {
                    assert(self@.sections[k] == self.sections@[k]@);
                    if k != i {
                        assert(self.sections@[k] == before[k]);
                        assert(before[k]@ == section_models(before)[k]);
                    } else {
                        assert(before[k]@ == section_models(before)[k]);
                    }
                }
            }
            i += 1;
        }
        proof {
            assert(self@.sections =~= shorten_all(m0.sections, keep as nat));
        }
    }

    /// Switches section `i` off.
    fn hide_section(&mut self, i: usize)
        requires
            i < old(self).sections@.len(),
        ensures
            final(self)@ == with_sections(old(self)@, switched_off(old(self)@.sections, i as int)),
            final(self).sections@.len() == old(self).sections@.len(),
            final(self).shell == old(self).shell,
    {
        self.sections[i].visible = false;
        proof {
            assert(self@.sections =~= switched_off(old(self)@.sections, i as int));
        }
    }

    /// Makes the line fit the terminal width: walking all sections from
    /// the lowest priority up, fires path abbreviation tiers and hides
    /// sections (never the prompt indicator) until the printable width is
    /// at most `columns`, or no section is left to hide.
    pub fn fit_prompt(&mut self)
        ensures
            final(self)@ == with_sections(old(self)@, fitted(old(self)@)),
            final(self).shell == old(self).shell,
    {
        let order = self.priority_order();
        let ghost m0 = self@;
        let ghost n0 = self.sections@.len();
        let ghost sh0 = self.shell;
        let mut cut_all = false;
        let mut keep_one = false;
        let mut keep_two = false;
        let mut done = false;
        let mut k: usize = 0;
        while k < order.len()
            invariant
                self.shell == sh0,
                order@ == priority_order(m0.sections),
                forall|j: int| 0 <= j < order@.len() ==> #[trigger] order@[j] < n0,
                k <= order@.len(),
                self.sections@.len() == n0,
                ({
                    let st = fit_walk(m0, order@, k as int);
                    &&& self@ == with_sections(m0, st.sections)
                    &&& cut_all == st.cut_all
                    &&& keep_one == st.keep_one
                    &&& keep_two == st.keep_two
                    &&& done == st.done
                }),
            decreases order@.len() - k,
        {
            let i = order[k];
            let ghost st = fit_walk(m0, order@, k as int);
            proof {
                assert(fit_walk(m0, order@, k + 1) == fit_step(m0, st, i as int));
                assert(self@.sections[i as int].priority == self.sections@[i as int].priority);
            }
            if !done {
                let w = self.len();
                proof {
                    assert(line_width(self@, self@.sections) == line_width(m0, st.sections));
                }
                if w <= self.columns {
                    done = true;
                } else {
                    let pr = self.sections[i].priority;
                    let mut any = false;
                    if !cut_all && pr < 10 {
                        self.shorten_all_paths(0);
                        cut_all = true;
                        any = true;
                    } else if !keep_one && pr < 20 {
                        self.shorten_all_paths(1);
                        keep_one = true;
                        any = true;
                    } else if !keep_two && pr < 30 {
                        self.shorten_all_paths(2);
                        keep_two = true;
                        any = true;
                    }
                    let w2 = self.len();
                    proof {
                        assert(line_width(self@, self@.sections) == line_width(m0, self@.sections));
                    }
                    if any && w2 <= self.columns {
                        done = true;
                    } else if self.sections[i].position != Position::Prompt {
                        self.hide_section(i);
                    }
                }
            }
            k += 1;
        }
    }
}

// ----- laws of the fit pass -----

proof fn lemma_walk_keeps_fitting(m: PromptModel, order: Seq<usize>, k: int)
    requires
        fits(m, m.sections),
        0 <= k <= order.len(),
    ensures
        fit_walk(m, order, k).sections == m.sections,
        k > 0 ==> fit_walk(m, order, k).done,
    decreases k,
{
    if k > 0 {
        lemma_walk_keeps_fitting(m, order, k - 1);
    }
}

/// A line that already fits comes out of the fit pass unchanged: no path
/// is abbreviated and no section hidden.
pub proof fn lemma_fit_keeps_fitting_line(m: PromptModel)
    requires
        prompt_width(m) <= m.columns,
    ensures
        fitted(m) == m.sections,
{
    let order = priority_order(m.sections);
    lemma_walk_keeps_fitting(m, order, order.len() as int);
}

proof fn lemma_insert_point_split(order: Seq<usize>, s: Seq<SectionModel>, pr: nat)
    requires
        forall|a: int, b: int|
            0 <= a < b < order.len() ==> s[order[a] as int].priority <= s[order[b] as int].priority,
    ensures
        forall|a: int|
            0 <= a < insert_point(order, s, pr) ==> s[order[a] as int].priority <= pr,
        forall|a: int|
            insert_point(order, s, pr) <= a < order.len() ==> s[order[a] as int].priority > pr,
    decreases order.len(),
{
    lemma_insert_point_bound(order, s, pr);
    if order.len() > 0 {
        let init = order.drop_last();
        lemma_insert_point_split(init, s, pr);
        lemma_insert_point_bound(init, s, pr);
        if s[order.last() as int].priority > pr {
            assert forall|a: int| 0 <= a < insert_point(order, s, pr) implies s[order[a] as int].priority
                <= pr by {
                assert(order[a] == init[a]);
            }
            assert forall|a: int|
                insert_point(order, s, pr) <= a < order.len() implies s[order[a] as int].priority
                > pr by {
                if a < init.len() {
                    assert(order[a] == init[a]);
                }
            }
        } else {
            assert forall|a: int| 0 <= a < insert_point(order, s, pr) implies s[order[a] as int].priority
                <= pr by {
                if a < order.len() - 1 {
                    assert(s[order[a] as int].priority <= s[order.last() as int].priority);
                }
            }
        }
    }
}

proof fn lemma_priority_order_upto_sorted(s: Seq<SectionModel>, n: int)
    requires
        0 <= n <= s.len(),
        s.len() <= usize::MAX,
    ensures
        forall|a: int, b: int|
            0 <= a < b < priority_order_upto(s, n).len() ==> s[priority_order_upto(
                s,
                n,
            )[a] as int].priority <= s[priority_order_upto(s, n)[b] as int].priority,
    decreases n,
{
    if n > 0 {
        lemma_priority_order_upto_sorted(s, n - 1);
        let o = priority_order_upto(s, n - 1);
        {
            let pr = s[n - 1].priority;
            lemma_insert_point_split(o, s, pr);
            lemma_insert_point_bound(o, s, pr);
            let j = insert_point(o, s, pr);
            let r = o.insert(j, (n - 1) as usize);
            assert(r[j] == (n - 1) as usize);
            assert(s[r[j] as int].priority == pr);
            assert forall|a: int, b: int| 0 <= a < b < r.len() implies s[r[a] as int].priority
                <= s[r[b] as int].priority by {
                if b < j {
                    assert(r[a] == o[a]);
                    assert(r[b] == o[b]);
                } else if b == j {
                    assert(r[a] == o[a]);
                } else if a < j {
                    assert(r[a] == o[a]);
                    assert(r[b] == o[b - 1]);
                } else if a == j {
                    assert(r[b] == o[b - 1]);
                } else {
                    assert(r[a] == o[a - 1]);
                    assert(r[b] == o[b - 1]);
                }
            }
        }
    }
}

/// The fit pass meets sections in ascending priority: a section is
/// considered, and so can fire its abbreviation tier or be hidden, only
/// after every section of lower priority.
pub proof fn lemma_priority_order_ascending(s: Seq<SectionModel>, a: int, b: int)
    requires
        s.len() <= usize::MAX,
        0 <= a < b < priority_order(s).len(),
    ensures
        s[priority_order(s)[a] as int].priority <= s[priority_order(s)[b] as int].priority,
{
    lemma_priority_order_upto_sorted(s, s.len() as int);
}

// ----- the fit pass never widens -----

/// Section `a` is `b` with, at most, a shorter path and less reason to
/// render.
pub open spec fn no_wider(a: SectionModel, b: SectionModel) -> bool {
    &&& a.format == b.format
    &&& a.text == b.text
    &&& a.icon == b.icon
    &&& a.position == b.position
    &&& a.priority == b.priority
    &&& a.path.len() <= b.path.len()
    &&& (shows(a) ==> shows(b))
}

/// Each section of `s` is no wider than its counterpart in `t`.
pub open spec fn all_no_wider(s: Seq<SectionModel>, t: Seq<SectionModel>) -> bool {
    &&& s.len() == t.len()
    &&& forall|i: int| 0 <= i < s.len() ==> no_wider(#[trigger] s[i], t[i])
}

proof fn lemma_template_width_mono(a: SectionModel, b: SectionModel, r: Seq<char>)
    requires
        a.text == b.text,
        a.icon == b.icon,
        a.path.len() <= b.path.len(),
    ensures
        crate::format::template_width(a, r) <= crate::format::template_width(b, r),
    decreases r.len(),
{
    if r.len() > 0 {
        let c = crate::format::directive(r).1;
        if c < r.len() {
            lemma_template_width_mono(a, b, r.skip(c as int));
        }
    }
}

proof fn lemma_group_fill_mono(m: PromptModel, c1: nat, c2: nat)
    requires
        c1 <= c2,
    ensures
        group_fill(m, c1) <= group_fill(m, c2),
{
    if c1 > 0 {
        let f = m.section_fill.len();
        let p = m.section_pad;
        assert(f * p * (c1 - 1) as nat <= f * p * (c2 - 1) as nat) by (nonlinear_arith)
            requires
                c1 <= c2,
                c1 >= 1,
        ;
    }
}

proof fn lemma_upto_mono(s: Seq<SectionModel>, t: Seq<SectionModel>, n: int)
    requires
        all_no_wider(s, t),
        0 <= n <= s.len(),
    ensures
        content_upto(s, n) <= content_upto(t, n),
        group_upto(s, n, Position::LeftAlign) <= group_upto(t, n, Position::LeftAlign),
        group_upto(s, n, Position::CenterAlign) <= group_upto(t, n, Position::CenterAlign),
        group_upto(s, n, Position::RightAlign) <= group_upto(t, n, Position::RightAlign),
    decreases n,
{
    if n > 0 {
        lemma_upto_mono(s, t, n - 1);
        assert(no_wider(s[n - 1], t[n - 1]));
        lemma_template_width_mono(s[n - 1], t[n - 1], s[n - 1].format);
    }
}

/// Narrower sections give a line that is no wider.
pub proof fn lemma_line_width_mono(m: PromptModel, s: Seq<SectionModel>, t: Seq<SectionModel>)
    requires
        all_no_wider(s, t),
    ensures
        line_width(m, s) <= line_width(m, t),
{
    let n = s.len() as int;
    lemma_upto_mono(s, t, n);
    lemma_group_fill_mono(m, group_upto(s, n, Position::LeftAlign), group_upto(t, n, Position::LeftAlign));
    lemma_group_fill_mono(m, group_upto(s, n, Position::CenterAlign), group_upto(t, n, Position::CenterAlign));
    lemma_group_fill_mono(m, group_upto(s, n, Position::RightAlign), group_upto(t, n, Position::RightAlign));
}

pub proof fn lemma_no_wider_trans(s: Seq<SectionModel>, t: Seq<SectionModel>, u: Seq<SectionModel>)
    requires
        all_no_wider(s, t),
        all_no_wider(t, u),
    ensures
        all_no_wider(s, u),
{
    assert forall|i: int| 0 <= i < s.len() implies no_wider(#[trigger] s[i], u[i]) by {
        assert(no_wider(s[i], t[i]));
        assert(no_wider(t[i], u[i]));
    }
}

proof fn lemma_no_wider_refl(s: Seq<SectionModel>)
    ensures
        all_no_wider(s, s),
{
}

proof fn lemma_shorten_all_no_wider(s: Seq<SectionModel>, keep: nat)
    ensures
        all_no_wider(shorten_all(s, keep), s),
{
    assert forall|i: int| 0 <= i < s.len() implies no_wider(#[trigger] shorten_all(s, keep)[i], s[i]) by {
        crate::path::lemma_shorten_len(s[i].path, keep);
    }
}

proof fn lemma_switched_off_no_wider(s: Seq<SectionModel>, j: int)
    requires
        0 <= j < s.len(),
    ensures
        all_no_wider(switched_off(s, j), s),
        all_no_wider(sacrifice(s, j), s),
{
    assert forall|i: int| 0 <= i < s.len() implies no_wider(#[trigger] switched_off(s, j)[i], s[i]) by {
        if i == j {
        }
    }
}

proof fn lemma_walk_no_wider(m: PromptModel, order: Seq<usize>, k: int)
    requires
        0 <= k <= order.len(),
        forall|j: int| 0 <= j < order.len() ==> #[trigger] order[j] < m.sections.len(),
    ensures
        all_no_wider(fit_walk(m, order, k).sections, m.sections),
    decreases k,
{
    if k == 0 {
        lemma_no_wider_refl(m.sections);
    } else {
        lemma_walk_no_wider(m, order, k - 1);
        let st = fit_walk(m, order, k - 1);
        let i = order[k - 1] as int;
        lemma_shorten_all_no_wider(st.sections, 0);
        lemma_shorten_all_no_wider(st.sections, 1);
        lemma_shorten_all_no_wider(st.sections, 2);
        lemma_switched_off_no_wider(st.sections, i);
        lemma_switched_off_no_wider(shorten_all(st.sections, 0), i);
        lemma_switched_off_no_wider(shorten_all(st.sections, 1), i);
        lemma_switched_off_no_wider(shorten_all(st.sections, 2), i);
        lemma_no_wider_trans(shorten_all(st.sections, 0), st.sections, m.sections);
        lemma_no_wider_trans(shorten_all(st.sections, 1), st.sections, m.sections);
        lemma_no_wider_trans(shorten_all(st.sections, 2), st.sections, m.sections);
        lemma_no_wider_trans(sacrifice(st.sections, i), st.sections, m.sections);
        lemma_no_wider_trans(sacrifice(shorten_all(st.sections, 0), i), shorten_all(st.sections, 0), m.sections);
        lemma_no_wider_trans(sacrifice(shorten_all(st.sections, 1), i), shorten_all(st.sections, 1), m.sections);
        lemma_no_wider_trans(sacrifice(shorten_all(st.sections, 2), i), shorten_all(st.sections, 2), m.sections);
    }
}

/// The fit pass only abbreviates paths and hides sections: each section
/// comes out no wider than it went in, and no section starts to render.
pub proof fn lemma_fit_no_wider(m: PromptModel)
    ensures
        all_no_wider(fitted(m), m.sections),
        line_width(m, fitted(m)) <= line_width(m, m.sections),
{
    let order = priority_order(m.sections);
    lemma_priority_order_bound(m.sections, m.sections.len() as int);
    lemma_walk_no_wider(m, order, order.len() as int);
    lemma_line_width_mono(m, fitted(m), m.sections);
}

// ----- sacrifice in ascending priority -----

proof fn lemma_priority_order_permutes(s: Seq<SectionModel>, n: int)
    requires
        0 <= n <= s.len(),
        s.len() <= usize::MAX,
    ensures
        priority_order_upto(s, n).len() == n,
        forall|x: int| 0 <= x < n ==> #[trigger] priority_order_upto(s, n).contains(x as usize),
        forall|i: int, j: int|
            0 <= i < j < n ==> priority_order_upto(s, n)[i] != priority_order_upto(s, n)[j],
    decreases n,
{
    if n > 0 {
        lemma_priority_order_permutes(s, n - 1);
        lemma_priority_order_bound(s, n - 1);
        let o = priority_order_upto(s, n - 1);
        let p = insert_point(o, s, s[n - 1].priority);
        lemma_insert_point_bound(o, s, s[n - 1].priority);
        let r = o.insert(p, (n - 1) as usize);
        assert forall|x: int| 0 <= x < n implies #[trigger] r.contains(x as usize) by {
            if x == n - 1 {
                assert(r[p] == (n - 1) as usize);
            } else {
                assert(o.contains(x as usize));
                let k = choose|k: int| 0 <= k < o.len() && #[trigger] o[k] == x as usize;
                if k < p {
                    assert(r[k] == o[k]);
                } else {
                    assert(r[k + 1] == o[k]);
                }
            }
        }
        assert forall|i: int, j: int| 0 <= i < j < n implies r[i] != r[j] by {
            if j < p {
                assert(r[i] == o[i] && r[j] == o[j]);
            } else if j == p {
                assert(r[i] == o[i]);
            } else if i < p {
                assert(r[i] == o[i] && r[j] == o[j - 1]);
            } else if i == p {
                assert(r[j] == o[j - 1]);
            } else {
                assert(r[i] == o[i - 1] && r[j] == o[j - 1]);
            }
        }
    }
}

/// The walk so far leaves every section it has not reached with its own
/// flag, its position and its priority.
proof fn lemma_walk_untouched(m: PromptModel, order: Seq<usize>, k: int)
    requires
        0 <= k <= order.len(),
        forall|j: int| 0 <= j < order.len() ==> #[trigger] order[j] < m.sections.len(),
    ensures
        fit_walk(m, order, k).sections.len() == m.sections.len(),
        forall|x: int|
            0 <= x < m.sections.len() ==> (#[trigger] fit_walk(m, order, k).sections[x]).position
                == m.sections[x].position && fit_walk(m, order, k).sections[x].priority
                == m.sections[x].priority,
        forall|x: int|
            0 <= x < m.sections.len() && !order.take(k).contains(x as usize) ==> (
            #[trigger] fit_walk(m, order, k).sections[x]).visible == m.sections[x].visible,
    decreases k,
{
    if k > 0 {
        lemma_walk_untouched(m, order, k - 1);
        assert forall|x: int|
            0 <= x < m.sections.len() && !#[trigger] order.take(k).contains(x as usize) implies !order.take(
            k - 1,
        ).contains(x as usize) && x != order[k - 1] as int by {
            if order.take(k - 1).contains(x as usize) {
                let j = choose|j: int| 0 <= j < k - 1 && #[trigger] order.take(k - 1)[j] == x as usize;
                assert(order.take(k)[j] == x as usize);
            }
            assert(order.take(k)[k - 1] == order[k - 1]);
        }
    }
}

proof fn lemma_walk_done_stays(m: PromptModel, order: Seq<usize>, k: int, j: int)
    requires
        0 <= k <= j <= order.len(),
        fit_walk(m, order, k).done,
    ensures
        fit_walk(m, order, j).done,
        fit_walk(m, order, j).sections == fit_walk(m, order, k).sections,
    decreases j - k,
{
    if j > k {
        lemma_walk_done_stays(m, order, k, j - 1);
    }
}

proof fn lemma_walk_hidden_stays(m: PromptModel, order: Seq<usize>, x: int, k: int, j: int)
    requires
        0 <= k <= j <= order.len(),
        forall|i: int| 0 <= i < order.len() ==> #[trigger] order[i] < m.sections.len(),
        0 <= x < m.sections.len(),
        !fit_walk(m, order, k).sections[x].visible,
    ensures
        !fit_walk(m, order, j).sections[x].visible,
    decreases j - k,
{
    if j > k {
        lemma_walk_hidden_stays(m, order, x, k, j - 1);
        lemma_walk_untouched(m, order, j - 1);
    }
}

/// While the walk goes on, every section it has passed, but the prompt
/// indicator, is hidden.
proof fn lemma_walk_hides_passed(m: PromptModel, order: Seq<usize>, k: int)
    requires
        0 <= k <= order.len(),
        forall|j: int| 0 <= j < order.len() ==> #[trigger] order[j] < m.sections.len(),
        !fit_walk(m, order, k).done,
    ensures
        forall|j: int|
            0 <= j < k && m.sections[order[j] as int].position != Position::Prompt ==> !(
            #[trigger] fit_walk(m, order, k).sections[order[j] as int]).visible,
    decreases k,
{
    if k > 0 {
        let st = fit_walk(m, order, k - 1);
        if st.done {
            lemma_walk_done_stays(m, order, k - 1, k);
        }
        lemma_walk_hides_passed(m, order, k - 1);
        lemma_walk_untouched(m, order, k - 1);
    }
}

/// The fit pass sacrifices sections strictly in ascending priority: when
/// it hides a section, it has hidden every section of lower priority that
/// is not the prompt indicator.
pub proof fn lemma_lower_priority_hidden_first(m: PromptModel, a: int, b: int)
    requires
        m.sections.len() <= usize::MAX,
        0 <= a < m.sections.len(),
        0 <= b < m.sections.len(),
        m.sections[a].position != Position::Prompt,
        m.sections[a].priority < m.sections[b].priority,
        m.sections[b].visible,
        !fitted(m)[b].visible,
    ensures
        !fitted(m)[a].visible,
{
    let s = m.sections;
    let n = s.len() as int;
    let order = priority_order(s);
    lemma_priority_order_permutes(s, n);
    lemma_priority_order_bound(s, n);
    assert(order.contains(a as usize));
    assert(order.contains(b as usize));
    let pa = choose|j: int| 0 <= j < order.len() && #[trigger] order[j] == a as usize;
    let pb = choose|j: int| 0 <= j < order.len() && #[trigger] order[j] == b as usize;
    if pb <= pa {
        if pb < pa {
            lemma_priority_order_ascending(s, pb, pa);
        }
        assert(false);
    }
    if fit_walk(m, order, pb).done {
        lemma_walk_done_stays(m, order, pb, n);
        lemma_walk_untouched(m, order, pb);
        assert(!order.take(pb).contains(b as usize)) by {
            if order.take(pb).contains(b as usize) {
                let j = choose|j: int| 0 <= j < pb && #[trigger] order.take(pb)[j] == b as usize;
                assert(order[j] == order[pb]);
            }
        }
        assert(false);
    }
    lemma_walk_hides_passed(m, order, pb);
    assert(order[pa] == a as usize);
    lemma_walk_hidden_stays(m, order, a, pb, n);
}

} // verus!
