use vstd::prelude::*;
use vstd::std_specs::iter::IteratorSpec;
use vstd::string::StrSliceExecFns;
use itertools::Itertools;

use crate::style::{all_text, runs_of, Run, Styled};

verus! {

/// The state after splitting the first `k` characters of `t` at line breaks:
/// the finished pieces (each ending with its `'\n'`) and the open piece.
pub open spec fn split_prefix(t: Seq<char>, k: nat) -> (Seq<Seq<char>>, Seq<char>)
    decreases k,
{
    if k == 0 || k > t.len() {
        (Seq::empty(), Seq::empty())
    } else {
        let (done, open) = split_prefix(t, (k - 1) as nat);
        if t[k - 1] == '\n' {
            (done.push(open.push('\n')), Seq::empty())
        } else {
            (done, open.push(t[k - 1]))
        }
    }
}

/// The pieces of `t` cut after each line break. A text without a line break
/// is one piece, even when empty; otherwise an empty piece after the last
/// line break is left out.
pub open spec fn split_text(t: Seq<char>) -> Seq<Seq<char>> {
    let (done, open) = split_prefix(t, t.len());
    if done.len() == 0 || open.len() > 0 {
        done.push(open)
    } else {
        done
    }
}

/// The pieces of one run, each in the run's style.
pub open spec fn split_run(x: Run) -> Seq<Run> {
    split_text(x.0).map_values(|p: Seq<char>| (p, x.1))
}

/// All runs cut at their line breaks, in order.
pub open spec fn split_all(runs: Seq<Run>) -> Seq<Run>
    decreases runs.len(),
{
    if runs.len() == 0 {
        Seq::empty()
    } else {
        split_all(runs.drop_last()) + split_run(runs.last())
    }
}

/// Whether a run's text ends with a line break.
pub open spec fn ends_line(x: Run) -> bool {
    x.0.len() > 0 && x.0.last() == '\n'
}

/// The number of runs among the first `k` that end a line: the line index of
/// run `k`.
pub open spec fn lines_before(pieces: Seq<Run>, k: nat) -> nat
    decreases k,
{
    if k == 0 || k > pieces.len() {
        0
    } else {
        lines_before(pieces, (k - 1) as nat) + if ends_line(pieces[k - 1]) { 1nat } else { 0nat }
    }
}

/// Each run paired with the index of the line it stands on.
pub open spec fn keyed(pieces: Seq<Run>) -> Seq<(nat, Run)> {
    Seq::new(pieces.len(), |i: int| (lines_before(pieces, i as nat), pieces[i]))
}

/// The items of the groups, each paired with its group's key, in order.
pub open spec fn flatten_groups(groups: Seq<(nat, Seq<Run>)>) -> Seq<(nat, Run)>
    decreases groups.len(),
{
    if groups.len() == 0 {
        Seq::empty()
    } else {
        let g = groups.last();
        flatten_groups(groups.drop_last()) + g.1.map_values(|x: Run| (g.0, x))
    }
}

/// `groups` gathers the consecutive items of `items` with equal keys: every
/// group is non-empty, neighbouring groups have different keys, and the groups
/// hold the items in order.
pub open spec fn grouped(items: Seq<(nat, Run)>, groups: Seq<(nat, Seq<Run>)>) -> bool {
    &&& flatten_groups(groups) == items
    &&& forall|g: int| 0 <= g < groups.len() ==> #[trigger] groups[g].1.len() > 0
    &&& forall|g: int| 0 <= g < groups.len() - 1 ==> #[trigger] groups[g].0 != groups[g + 1].0
}

/// What a grouping says of its last group of `n` items: the items before it
/// are grouped by the other groups, the last `n` items are its own, and the
/// item before it (if any) has another key.
proof fn lemma_last_group(items: Seq<(nat, Run)>, groups: Seq<(nat, Seq<Run>)>)
    requires
        grouped(items, groups),
        groups.len() > 0,
    ensures
        groups.last().1.len() <= items.len(),
        grouped(items.take(items.len() - groups.last().1.len()), groups.drop_last()),
        forall|j: int|
            items.len() - groups.last().1.len() <= j < items.len() ==> #[trigger] items[j] == (
                groups.last().0,
                groups.last().1[j - (items.len() - groups.last().1.len())],
            ),
        groups.len() == 1 ==> groups.last().1.len() == items.len(),
        groups.len() > 1 ==> groups.last().1.len() < items.len() && items[items.len()
            - groups.last().1.len() - 1].0 != groups.last().0,
{
    let last = groups.last();
    let front = groups.drop_last();
    let n = last.1.len();
    let m = items.len();
    assert(groups[groups.len() - 1].1.len() > 0);
    let tail = last.1.map_values(|x: Run| (last.0, x));
    assert(items == flatten_groups(front) + tail);
    assert(items.take(m - n) =~= flatten_groups(front));
    assert forall|j: int| m - n <= j < m implies #[trigger] items[j] == (last.0, last.1[j - (m - n)]) by {
        assert(items[j] == tail[j - (m - n)]);
    }
    assert forall|i: int| 0 <= i < front.len() implies #[trigger] front[i].1.len() > 0 by {
        assert(front[i] == groups[i]);
        assert(groups[i].1.len() > 0);
    }
    assert forall|i: int| 0 <= i < front.len() - 1 implies #[trigger] front[i].0 != front[i + 1].0 by {
        assert(front[i] == groups[i] && front[i + 1] == groups[i + 1]);
        assert(groups[i].0 != groups[i + 1].0);
    }
    if groups.len() == 1 {
        assert(front.len() == 0);
        assert(flatten_groups(front).len() == 0);
    } else {
        let prev = front.last();
        assert(prev == groups[groups.len() - 2]);
        assert(prev.1.len() > 0);
        assert(groups[groups.len() - 2].0 != groups[groups.len() - 1].0);
        let ptail = prev.1.map_values(|x: Run| (prev.0, x));
        assert(flatten_groups(front) == flatten_groups(front.drop_last()) + ptail);
        assert(flatten_groups(front).last() == ptail.last());
        assert(items[m - n - 1] == flatten_groups(front).last());
    }
}

/// A grouping of items is determined by the items: there is only one.
pub proof fn lemma_grouped_unique(
    items: Seq<(nat, Run)>,
    g1: Seq<(nat, Seq<Run>)>,
    g2: Seq<(nat, Seq<Run>)>,
)
    requires
        grouped(items, g1),
        grouped(items, g2),
    ensures
        g1 == g2,
    decreases items.len(),
{
    if g1.len() == 0 || g2.len() == 0 {
        if g1.len() > 0 {
            lemma_last_group(items, g1);
            assert(g1[g1.len() - 1].1.len() > 0);
        }
        if g2.len() > 0 {
            lemma_last_group(items, g2);
            assert(g2[g2.len() - 1].1.len() > 0);
        }
        assert(g1 =~= g2);
    } else {
        lemma_last_group(items, g1);
        lemma_last_group(items, g2);
        let m = items.len();
        let (l1, l2) = (g1.last(), g2.last());
        let (n1, n2) = (l1.1.len(), l2.1.len());
        assert(g1[g1.len() - 1].1.len() > 0 && g2[g2.len() - 1].1.len() > 0);
        assert(items[m - 1] == (l1.0, l1.1[n1 - 1]));
        assert(items[m - 1] == (l2.0, l2.1[n2 - 1]));
        if n1 < n2 {
            assert(items[m - n1 - 1] == (l2.0, l2.1[m - n1 - 1 - (m - n2)]));
        }
        if n2 < n1 {
            assert(items[m - n2 - 1] == (l1.0, l1.1[m - n2 - 1 - (m - n1)]));
        }
        assert(n1 == n2);
        assert forall|j: int| 0 <= j < n1 implies l1.1[j] == l2.1[j] by {
            assert(items[m - n1 + j] == (l1.0, l1.1[j]));
            assert(items[m - n2 + j] == (l2.0, l2.1[j]));
        }
        assert(l1.1 =~= l2.1);
        lemma_grouped_unique(items.take(m - n1), g1.drop_last(), g2.drop_last());
        assert(g1 =~= g1.drop_last().push(l1));
        assert(g2 =~= g2.drop_last().push(l2));
    }
}

/// The mathematical value of keyed runs.
pub open spec fn keyed_of(v: Seq<(usize, Styled)>) -> Seq<(nat, Run)> {
    v.map_values(|p: (usize, Styled)| (p.0 as nat, p.1@))
}

/// The mathematical value of line groups.
pub open spec fn lines_of(v: Seq<(usize, Vec<Styled>)>) -> Seq<(nat, Seq<Run>)> {
    v.map_values(|p: (usize, Vec<Styled>)| (p.0 as nat, p.1@.map_values(|s: Styled| s@)))
}

/// Relies on itertools' `Itertools::group_by`: it yields, in order, the
/// maximal stretches of consecutive items whose keys (here the first tuple
/// field) are equal, each with that key.
#[verifier::external_body]
fn group_by_line(items: Vec<(usize, Styled)>) -> (r: Vec<(usize, Vec<Styled>)>)
    ensures
        grouped(keyed_of(items@), lines_of(r@)),
{
    let groups = items.into_iter().group_by(|p| p.0);
    let r = (&groups).into_iter().map(|(k, g)| (k, g.map(|p| p.1).collect())).collect();
    r
}

/// The characters of `s`, in order.
fn chars_of(s: &str) -> (r: Vec<char>)
    ensures
        r@ == s@,
{
    let n = s.unicode_len();
    let mut r: Vec<char> = Vec::new();
    let mut it = s.chars();
    broadcast use vstd::string::axiom_spec_iter, vstd::string::next_postcondition;
    while r.len() < n
        invariant
            r.len() <= n == s@.len(),
            it.obeys_prophetic_iter_laws(),
            r@ + it.remaining() == s@,
        ensures
            r@ == s@,
        decreases n - r.len(),
    {
        match it.next() {
            Some(c) => r.push(c),
            None => {
                break;
            },
        }
    }
    r
}

/// The texts of a sequence of runs.
pub open spec fn texts_of(v: Seq<Styled>) -> Seq<Seq<char>> {
    v.map_values(|s: Styled| s.content@)
}

/// Cuts a run after each of its line breaks; every piece keeps the run's style.
pub fn split_lines(x: &Styled) -> (r: Vec<Styled>)
    ensures
        r@.map_values(|s: Styled| s@) == split_run(x@),
{
    let text = x.content.as_str();
    let cs = chars_of(text);
    let n = cs.len();
    let mut r: Vec<Styled> = Vec::new();
    let mut start: usize = 0;
    let mut k: usize = 0;
    while k < n
        invariant
            start <= k <= n == cs@.len(),
            cs@ == x.content@,
            text@ == x.content@,
            split_prefix(cs@, k as nat) == (texts_of(r@), cs@.subrange(start as int, k as int)),
            forall|j: int| 0 <= j < r.len() ==> #[trigger] r@[j].style == x.style,
        decreases n - k,
    {
        let ghost t = cs@;
        let ghost old_r = r@;
        let ghost old_start = start;
        assert(t.subrange(start as int, k + 1) =~= t.subrange(start as int, k as int).push(t[k as int]));
        if cs[k] == '\n' {
            let piece = text.substring_char(start, k + 1).to_owned();
            r.push(Styled::new(piece, x.style));
            start = k + 1;
            proof {
                assert(texts_of(r@) =~= texts_of(old_r).push(piece@));
                assert(t.subrange(start as int, k + 1) =~= Seq::<char>::empty());
            }
        }
        k = k + 1;
        proof {
            assert(split_prefix(t, k as nat) == (texts_of(r@), t.subrange(start as int, k as int)));
        }
    }
    let ghost done = r@;
    if r.len() == 0 || start < n {
        let piece = text.substring_char(start, n).to_owned();
        r.push(Styled::new(piece, x.style));
        proof {
            assert(texts_of(r@) =~= texts_of(done).push(piece@));
        }
    }
    proof {
        assert(cs@.subrange(0, n as int) =~= cs@);
        assert(texts_of(r@) == split_text(x.content@));
        assert(r@.map_values(|s: Styled| s@) =~= split_run(x@));
    }
    r
}

/// Whether a run's text ends with a line break.
fn ends_with_newline(x: &Styled) -> (r: bool)
    ensures
        r == ends_line(x@),
{
    let text = x.content.as_str();
    let n = text.unicode_len();
    n > 0 && text.get_char(n - 1) == '\n'
}

/// Adding a run at the end leaves the line index of the earlier runs as it was.
proof fn lemma_lines_before_push(pieces: Seq<Run>, x: Run, k: nat)
    requires
        k <= pieces.len(),
    ensures
        lines_before(pieces.push(x), k) == lines_before(pieces, k),
    decreases k,
{
    if k > 0 {
        lemma_lines_before_push(pieces, x, (k - 1) as nat);
    }
}

/// Cuts the runs at their line breaks and gathers the pieces by line: each
/// group holds, in order, the pieces of one line with that line's index.
pub fn line_groups(runs: &Vec<Styled>) -> (r: Vec<(usize, Vec<Styled>)>)
    ensures
        grouped(keyed(split_all(runs_of(runs@))), lines_of(r@)),
{
    let mut items: Vec<(usize, Styled)> = Vec::new();
    let mut line: usize = 0;
    let mut j: usize = 0;
    let ghost mut pieces: Seq<Run> = Seq::empty();
    while j < runs.len()
        invariant
            j <= runs.len(),
            pieces == split_all(runs_of(runs@).take(j as int)),
            keyed_of(items@) == keyed(pieces),
            line == lines_before(pieces, pieces.len()),
            line <= items.len(),
        decreases runs.len() - j,
    {
        let parts = split_lines(&runs[j]);
        let ghost base = pieces;
        let mut q: usize = 0;
        while q < parts.len()
            invariant
                q <= parts.len(),
                pieces == base + parts@.map_values(|s: Styled| s@).take(q as int),
                keyed_of(items@) == keyed(pieces),
                line == lines_before(pieces, pieces.len()),
                line <= items.len(),
            decreases parts.len() - q,
        {
            let piece = parts[q].duplicate();
            let ends = ends_with_newline(&piece);
            let ghost before = pieces;
            let ghost old_items = items@;
            items.push((line, piece));
            proof {
                pieces = before.push(piece@);
                assert(parts@.map_values(|s: Styled| s@).take(q + 1) =~= parts@.map_values(
                    |s: Styled| s@,
                ).take(q as int).push(piece@));
                assert forall|i: int| 0 <= i < before.len() implies #[trigger] lines_before(pieces, i as nat)
                    == lines_before(before, i as nat) by {
                    lemma_lines_before_push(before, piece@, i as nat);
                }
                lemma_lines_before_push(before, piece@, before.len());
                assert(keyed_of(old_items).len() == old_items.len());
                assert(keyed(before).len() == before.len());
                assert(old_items.len() == before.len());
                assert(items@.len() == before.len() + 1);
                assert(keyed_of(items@).len() == items@.len());
                assert(keyed(pieces).len() == pieces.len());
                assert(keyed_of(items@).len() == keyed(pieces).len());
                assert forall|i: int| 0 <= i < pieces.len() implies #[trigger] keyed_of(items@)[i]
                    == keyed(pieces)[i] by {
                    if i < before.len() {
                        assert(items@[i] == old_items[i]);
                        assert(keyed_of(old_items)[i] == keyed(before)[i]);
                    }
                }
                assert(keyed_of(items@) =~= keyed(pieces));
                assert(line < items.len());
            }
            if ends {
                line = line + 1;
            }
            q = q + 1;
        }
        proof {
            assert(parts@.map_values(|s: Styled| s@).take(q as int) =~= parts@.map_values(
                |s: Styled| s@,
            ));
            assert(runs_of(runs@).take(j + 1).drop_last() =~= runs_of(runs@).take(j as int));
        }
        j = j + 1;
    }
    proof {
        assert(runs_of(runs@).take(j as int) =~= runs_of(runs@));
    }
    group_by_line(items)
}

/// The pieces, concatenated.
pub open spec fn joined(ps: Seq<Seq<char>>) -> Seq<char>
    decreases ps.len(),
{
    if ps.len() == 0 {
        Seq::empty()
    } else {
        joined(ps.drop_last()) + ps.last()
    }
}

proof fn lemma_split_prefix_joins(t: Seq<char>, k: nat)
    requires
        k <= t.len(),
    ensures
        joined(split_prefix(t, k).0) + split_prefix(t, k).1 == t.take(k as int),
        !t.take(k as int).contains('\n') ==> split_prefix(t, k).0.len() == 0,
    decreases k,
{
    if k > 0 {
        lemma_split_prefix_joins(t, (k - 1) as nat);
        let (done, open) = split_prefix(t, (k - 1) as nat);
        assert(t.take(k as int) =~= t.take(k - 1).push(t[k - 1]));
        if t[k - 1] == '\n' {
            assert(t.take(k as int)[k - 1] == '\n');
            assert(done.push(open.push('\n')).drop_last() =~= done);
            assert(joined(done.push(open.push('\n'))) == joined(done) + open.push('\n'));
            assert(joined(done) + open.push('\n') =~= (joined(done) + open).push('\n'));
        } else {
            assert(joined(done) + open.push(t[k - 1]) =~= (joined(done) + open).push(t[k - 1]));
            if !t.take(k as int).contains('\n') {
                assert forall|i: int| 0 <= i < k - 1 implies #[trigger] t.take(k - 1)[i] != '\n' by {
                    assert(t.take(k as int)[i] == t.take(k - 1)[i]);
                }
            }
        }
        assert(joined(split_prefix(t, k).0) + split_prefix(t, k).1 =~= t.take(k as int));
    }
}

proof fn lemma_all_text_styled(ps: Seq<Seq<char>>, x: Run)
    ensures
        all_text(ps.map_values(|p: Seq<char>| (p, x.1))) == joined(ps),
    decreases ps.len(),
{
    if ps.len() > 0 {
        lemma_all_text_styled(ps.drop_last(), x);
        assert(ps.map_values(|p: Seq<char>| (p, x.1)).drop_last() =~= ps.drop_last().map_values(
            |p: Seq<char>| (p, x.1),
        ));
    }
}

/// The pieces of a run rejoin to its text; a run without line breaks is its
/// own single piece.
pub proof fn lemma_split_run_rejoins(x: Run)
    ensures
        all_text(split_run(x)) == x.0,
        !x.0.contains('\n') ==> split_run(x) == seq![x],
{
    let t = x.0;
    lemma_split_prefix_joins(t, t.len());
    assert(t.take(t.len() as int) =~= t);
    lemma_all_text_styled(split_text(t), x);
    let (done, open) = split_prefix(t, t.len());
    if done.len() == 0 || open.len() > 0 {
        assert(done.push(open).drop_last() =~= done);
        assert(joined(done.push(open)) == joined(done) + open);
    } else {
        assert(joined(done) + open =~= joined(done));
    }
    if !t.contains('\n') {
        assert(joined(done) =~= Seq::<char>::empty());
        assert(split_run(x) =~= seq![x]);
    }
}

/// Concatenating two sequences of runs concatenates their text.
pub proof fn lemma_all_text_concat(a: Seq<Run>, b: Seq<Run>)
    ensures
        all_text(a + b) == all_text(a) + all_text(b),
    decreases b.len(),
{
    if b.len() == 0 {
        assert(a + b =~= a);
        assert(all_text(a) + all_text(b) =~= all_text(a));
    } else {
        lemma_all_text_concat(a, b.drop_last());
        assert((a + b).drop_last() =~= a + b.drop_last());
        assert(all_text(a) + all_text(b) =~= all_text(a) + all_text(b.drop_last()) + b.last().0);
    }
}

/// Cutting runs at line breaks keeps their text.
pub proof fn lemma_split_all_text(runs: Seq<Run>)
    ensures
        all_text(split_all(runs)) == all_text(runs),
    decreases runs.len(),
{
    if runs.len() > 0 {
        lemma_split_all_text(runs.drop_last());
        lemma_split_run_rejoins(runs.last());
        lemma_all_text_concat(split_all(runs.drop_last()), split_run(runs.last()));
    }
}

/// Runs without line breaks are not cut.
pub proof fn lemma_split_all_plain(runs: Seq<Run>)
    requires
        forall|i: int| 0 <= i < runs.len() ==> !(#[trigger] runs[i]).0.contains('\n'),
    ensures
        split_all(runs) == runs,
    decreases runs.len(),
{
    if runs.len() > 0 {
        lemma_split_all_plain(runs.drop_last());
        lemma_split_run_rejoins(runs.last());
        assert(runs.drop_last().push(runs.last()) =~= runs);
        assert(runs.drop_last() + seq![runs.last()] =~= runs);
    }
}

} // verus!
