//! Path abbreviation: components of a `/`-separated path cut to their
//! first character.

use vstd::prelude::*;
use vstd::string::*;
use crate::prompt::Prompt;

verus! {

/// The `/`-separated components of `p`; always at least one.
pub open spec fn split_path(p: Seq<char>) -> Seq<Seq<char>>
    decreases p.len(),
{
    if p.len() == 0 {
        seq![Seq::empty()]
    } else {
        let init = split_path(p.drop_last());
        if p.last() == '/' {
            init.push(Seq::empty())
        } else {
            init.update(init.len() - 1, init.last().push(p.last()))
        }
    }
}

/// Components `cs` joined with `/`.
pub open spec fn join_path(cs: Seq<Seq<char>>) -> Seq<char>
    decreases cs.len(),
{
    if cs.len() == 0 {
        Seq::empty()
    } else if cs.len() == 1 {
        cs[0]
    } else {
        join_path(cs.drop_last()) + seq!['/'] + cs.last()
    }
}

/// The first character of `c`, or nothing when `c` is empty.
pub open spec fn initial(c: Seq<char>) -> Seq<char> {
    if c.len() == 0 {
        c
    } else {
        seq![c[0]]
    }
}

/// How many leading components are cut when `keep` trailing ones are kept
/// whole out of `total`.
pub open spec fn cut_count(total: nat, keep: nat) -> nat {
    if total > keep {
        (total - keep) as nat
    } else {
        0
    }
}

/// `cs` with its first `k` components cut to their first character.
pub open spec fn abbreviate(cs: Seq<Seq<char>>, k: nat) -> Seq<Seq<char>> {
    Seq::new(cs.len(), |i: int| if i < k { initial(cs[i]) } else { cs[i] })
}

/// Path `p` with all but its last `keep` components cut to their first
/// character.
pub open spec fn shortened(p: Seq<char>, keep: nat) -> Seq<char> {
    let cs = split_path(p);
    join_path(abbreviate(cs, cut_count(cs.len(), keep)))
}

pub proof fn lemma_split_nonempty(p: Seq<char>)
    ensures
        split_path(p).len() >= 1,
    decreases p.len(),
{
    if p.len() > 0 {
        lemma_split_nonempty(p.drop_last());
    }
}

proof fn lemma_join_update_last(cs: Seq<Seq<char>>, c: Seq<char>)
    requires
        cs.len() >= 1,
    ensures
        cs.len() == 1 ==> join_path(cs.update(cs.len() - 1, c)) == c,
        cs.len() > 1 ==> join_path(cs.update(cs.len() - 1, c)) == join_path(cs.drop_last()) + seq![
            '/',
        ] + c,
        cs.len() == 1 ==> join_path(cs) == cs.last(),
        cs.len() > 1 ==> join_path(cs) == join_path(cs.drop_last()) + seq!['/'] + cs.last(),
{
    let u = cs.update(cs.len() - 1, c);
    assert(u.drop_last() =~= cs.drop_last());
}

/// One step of abbreviating a path read from left to right: how the
/// abbreviation of `p.take(j + 1)` follows from that of `p.take(j)`.
proof fn lemma_shorten_step(p: Seq<char>, j: int, k: nat)
    requires
        0 <= j < p.len(),
    ensures
        ({
            let before = split_path(p.take(j));
            let after = split_path(p.take(j + 1));
            let kept = p[j] == '/' || before.len() - 1 >= k || before.last().len() == 0;
            &&& after.len() == before.len() + (if p[j] == '/' { 1int } else { 0 })
            &&& after.last().len() == (if p[j] == '/' { 0 } else { before.last().len() + 1 })
            &&& join_path(abbreviate(after, k)) == join_path(abbreviate(before, k)) + (if kept {
                seq![p[j]]
            } else {
                Seq::empty()
            })
        }),
{
    let before = split_path(p.take(j));
    let after = split_path(p.take(j + 1));
    assert(p.take(j + 1).drop_last() =~= p.take(j));
    assert(p.take(j + 1).last() == p[j]);
    lemma_split_nonempty(p.take(j));
    let ab = abbreviate(before, k);
    let aa = abbreviate(after, k);
    if p[j] == '/' {
        assert(after == before.push(Seq::empty()));
        assert(aa.drop_last() =~= ab);
        assert(aa.last() =~= Seq::<char>::empty());
        assert(join_path(aa) == join_path(aa.drop_last()) + seq!['/'] + aa.last());
        assert(join_path(aa) =~= join_path(ab) + seq![p[j]]);
    } else {
        let last = before.len() - 1;
        let nl = before.last().push(p[j]);
        assert(after == before.update(last, nl));
        let na = if last < k {
            initial(nl)
        } else {
            nl
        };
        assert(aa =~= ab.update(last, na));
        lemma_join_update_last(ab, na);
        lemma_join_update_last(ab, ab.last());
        assert(ab.update(last, ab.last()) =~= ab);
        if last < k && before.last().len() > 0 {
            assert(na =~= ab.last());
        } else {
            assert(na =~= ab.last().push(p[j]));
        }
        if before.len() == 1 {
            assert(join_path(aa) =~= join_path(ab) + (if last >= k || before.last().len() == 0 {
                seq![p[j]]
            } else {
                Seq::empty()
            }));
        } else {
            assert(join_path(aa) =~= join_path(ab) + (if last >= k || before.last().len() == 0 {
                seq![p[j]]
            } else {
                Seq::empty()
            }));
        }
    }
}

/// Path `path` with all but its last `keep` components cut to their first
/// character.
pub fn shorten(path: &str, keep: usize) -> (r: String)
    ensures
        r@ == shortened(path@, keep as nat),
{
    let n = path.unicode_len();
    let mut total: u128 = 1;
    let mut j: usize = 0;
    proof {
        assert(path@.take(0) =~= Seq::<char>::empty());
    }
    while j < n
        invariant
            n == path@.len(),
            j <= n,
            total == split_path(path@.take(j as int)).len(),
            total <= j + 1,
        decreases n - j,
    {
        proof {
            lemma_shorten_step(path@, j as int, 0);
        }
        if path.get_char(j) == '/' {
            total += 1;
        }
        j += 1;
    }
    assert(path@.take(n as int) =~= path@);
    let cut: u128 = if total > keep as u128 {
        total - keep as u128
    } else {
        0
    };
    let mut out = String::new();
    let mut comp: usize = 0;
    let mut at_start = true;
    j = 0;
    proof {
        assert(path@.take(0) =~= Seq::<char>::empty());
        assert(abbreviate(seq![Seq::<char>::empty()], cut as nat) =~= seq![Seq::<char>::empty()]);
    }
    while j < n
        invariant
            n == path@.len(),
            j <= n,
            cut == cut_count(split_path(path@).len(), keep as nat),
            comp == split_path(path@.take(j as int)).len() - 1,
            comp <= j,
            at_start == (split_path(path@.take(j as int)).last().len() == 0),
            out@ == join_path(abbreviate(split_path(path@.take(j as int)), cut as nat)),
        decreases n - j,
    {
        proof {
            lemma_shorten_step(path@, j as int, cut as nat);
        }
        let c = path.get_char(j);
        if c == '/' {
            out.append(path.substring_char(j, j + 1));
            comp += 1;
            at_start = true;
        } else {
            if comp as u128 >= cut || at_start {
                out.append(path.substring_char(j, j + 1));
            }
            at_start = false;
        }
        proof {
            assert(path@.subrange(j as int, j + 1) =~= seq![c]);
        }
        j += 1;
    }
    out
}

impl<'p> Prompt<'p> {
    /// Path `path` with all but its last `long_levels` components cut to
    /// their first character.
    pub fn shorten_path(&self, path: &str, long_levels: usize) -> (r: String)
        ensures
            r@ == shortened(path@, long_levels as nat),
    {
        shorten(path, long_levels)
    }
}

/// No character of `c` is `/`.
pub open spec fn no_slash(c: Seq<char>) -> bool {
    forall|j: int| 0 <= j < c.len() ==> c[j] != '/'
}

proof fn lemma_split_no_slash(p: Seq<char>)
    ensures
        forall|i: int| 0 <= i < split_path(p).len() ==> no_slash(#[trigger] split_path(p)[i]),
    decreases p.len(),
{
    if p.len() > 0 {
        lemma_split_no_slash(p.drop_last());
        lemma_split_nonempty(p.drop_last());
        let init = split_path(p.drop_last());
        if p.last() != '/' {
            let nl = init.last().push(p.last());
            assert(no_slash(init.last()));
            assert(no_slash(nl));
        }
    }
}

proof fn lemma_join_split(p: Seq<char>, j: int)
    requires
        0 <= j <= p.len(),
    ensures
        join_path(split_path(p.take(j))) == p.take(j),
    decreases j,
{
    if j == 0 {
        assert(p.take(0) =~= Seq::<char>::empty());
    } else {
        lemma_join_split(p, j - 1);
        lemma_shorten_step(p, j - 1, 0);
        assert(abbreviate(split_path(p.take(j)), 0) =~= split_path(p.take(j)));
        assert(abbreviate(split_path(p.take(j - 1)), 0) =~= split_path(p.take(j - 1)));
        assert(p.take(j - 1) + seq![p[j - 1]] =~= p.take(j));
    }
}

proof fn lemma_split_plain(c: Seq<char>)
    requires
        no_slash(c),
    ensures
        split_path(c) == seq![c],
    decreases c.len(),
{
    if c.len() == 0 {
        assert(c =~= Seq::<char>::empty());
    } else {
        lemma_split_plain(c.drop_last());
        assert(c.drop_last().push(c.last()) =~= c);
        assert(seq![c.drop_last()].update(0, c.drop_last().push(c.last())) =~= seq![c]);
    }
}

proof fn lemma_split_append(a: Seq<char>, c: Seq<char>)
    requires
        no_slash(c),
    ensures
        split_path(a + seq!['/'] + c) == split_path(a).push(c),
    decreases c.len(),
{
    let w = a + seq!['/'] + c;
    if c.len() == 0 {
        assert(w.drop_last() =~= a);
        assert(c =~= Seq::<char>::empty());
        assert(split_path(a).push(Seq::<char>::empty()) =~= split_path(a).push(c));
    } else {
        lemma_split_append(a, c.drop_last());
        assert(w.drop_last() =~= a + seq!['/'] + c.drop_last());
        assert(w.last() == c.last());
        let init = split_path(a).push(c.drop_last());
        assert(c.drop_last().push(c.last()) =~= c);
        assert(init.update(init.len() - 1, init.last().push(c.last())) =~= split_path(a).push(c));
    }
}

proof fn lemma_split_join(cs: Seq<Seq<char>>)
    requires
        cs.len() >= 1,
        forall|i: int| 0 <= i < cs.len() ==> no_slash(#[trigger] cs[i]),
    ensures
        split_path(join_path(cs)) == cs,
    decreases cs.len(),
{
    if cs.len() == 1 {
        lemma_split_plain(cs[0]);
        assert(seq![cs[0]] =~= cs);
    } else {
        lemma_split_join(cs.drop_last());
        lemma_split_append(join_path(cs.drop_last()), cs.last());
        assert(cs.drop_last().push(cs.last()) =~= cs);
    }
}

/// Once the components that abbreviation cuts are at most one character
/// long, abbreviating changes nothing.
pub proof fn lemma_shorten_fixed_point(p: Seq<char>, keep: nat)
    requires
        forall|i: int|
            0 <= i < cut_count(split_path(p).len(), keep) ==> (#[trigger] split_path(p)[i]).len()
                <= 1,
    ensures
        shortened(p, keep) == p,
{
    let cs = split_path(p);
    let k = cut_count(cs.len(), keep);
    assert forall|i: int| 0 <= i < cs.len() implies #[trigger] abbreviate(cs, k)[i] == cs[i] by {
        if i < k {
            assert(cs[i].len() <= 1);
            if cs[i].len() == 1 {
                assert(seq![cs[i][0]] =~= cs[i]);
            }
        }
    }
    assert(abbreviate(cs, k) =~= cs);
    lemma_join_split(p, p.len() as int);
    assert(p.take(p.len() as int) =~= p);
}

/// Abbreviating a path twice at one level gives what abbreviating it once
/// gives.
pub proof fn lemma_shorten_idempotent(p: Seq<char>, keep: nat)
    ensures
        shortened(shortened(p, keep), keep) == shortened(p, keep),
{
    let cs = split_path(p);
    let k = cut_count(cs.len(), keep);
    let a = abbreviate(cs, k);
    lemma_split_nonempty(p);
    lemma_split_no_slash(p);
    assert forall|i: int| 0 <= i < a.len() implies no_slash(#[trigger] a[i]) by {
        assert(no_slash(cs[i]));
    }
    lemma_split_join(a);
    assert forall|i: int| 0 <= i < a.len() implies #[trigger] abbreviate(a, k)[i] == a[i] by {
        if i < k && cs[i].len() > 0 {
            assert(initial(initial(cs[i])) =~= initial(cs[i]));
        }
    }
    assert(abbreviate(a, k) =~= a);
}

proof fn lemma_shorten_prefix_len(p: Seq<char>, k: nat, j: int)
    requires
        0 <= j <= p.len(),
    ensures
        join_path(abbreviate(split_path(p.take(j)), k)).len() <= j,
    decreases j,
{
    if j == 0 {
        assert(p.take(0) =~= Seq::<char>::empty());
        assert(abbreviate(seq![Seq::<char>::empty()], k) =~= seq![Seq::<char>::empty()]);
    } else {
        lemma_shorten_prefix_len(p, k, j - 1);
        lemma_shorten_step(p, j - 1, k);
    }
}

/// Abbreviating never lengthens a path.
pub proof fn lemma_shorten_len(p: Seq<char>, keep: nat)
    ensures
        shortened(p, keep).len() <= p.len(),
{
    let k = cut_count(split_path(p).len(), keep);
    lemma_shorten_prefix_len(p, k, p.len() as int);
    assert(p.take(p.len() as int) =~= p);
}

} // verus!
