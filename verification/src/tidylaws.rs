//! What the tidying pass guarantees of its output, and what it keeps.
use vstd::prelude::*;
use crate::text::{
    white_space, strip_space, lemma_strip_space_add, lemma_strip_space_push,
};
use crate::tidy::{
    split_lines, trim_end, tidy_lines, drop_trailing_empty, join_lines, tidy_text,
    tidy_text_lines, lemma_split_nonempty,
};

verus! {

/// The kept text of every line, one after another.
pub open spec fn strip_all(ls: Seq<Seq<char>>) -> Seq<char>
    decreases ls.len(),
{
    if ls.len() == 0 {
        Seq::<char>::empty()
    } else {
        strip_all(ls.drop_last()) + strip_space(ls.last())
    }
}

/// The number of empty lines in the run that ends at line `k`.
pub open spec fn blank_run(ls: Seq<Seq<char>>, k: int) -> int
    decreases k + 1,
{
    if k < 0 || k >= ls.len() || ls[k].len() > 0 {
        0
    } else {
        1 + blank_run(ls, k - 1)
    }
}

pub open spec fn has_no_newline(l: Seq<char>) -> bool {
    forall|j: int| 0 <= j < l.len() ==> #[trigger] l[j] != '\n'
}

pub open spec fn ends_without_space(l: Seq<char>) -> bool {
    l.len() == 0 || !white_space(l.last())
}

proof fn lemma_strip_all_push(ls: Seq<Seq<char>>, l: Seq<char>)
    ensures
        strip_all(ls.push(l)) == strip_all(ls) + strip_space(l),
{
    assert(ls.push(l).drop_last() =~= ls);
}

proof fn lemma_strip_split(s: Seq<char>)
    ensures
        strip_space(s) == strip_all(split_lines(s)),
    decreases s.len(),
{
    if s.len() == 0 {
        lemma_strip_all_push(Seq::<Seq<char>>::empty(), Seq::<char>::empty());
        assert(seq![Seq::<char>::empty()] =~= Seq::<Seq<char>>::empty().push(Seq::<char>::empty()));
        assert(Seq::<char>::empty() + Seq::<char>::empty() =~= Seq::<char>::empty());
    } else {
        let x = s.drop_last();
        let c = s.last();
        lemma_strip_split(x);
        lemma_split_nonempty(x);
        assert(x.push(c) =~= s);
        lemma_strip_space_push(x, c);
        let p = split_lines(x);
        if c == '\n' {
            lemma_strip_all_push(p, Seq::<char>::empty());
            assert(strip_all(p) + Seq::<char>::empty() =~= strip_all(p));
        } else {
            let l = p.last();
            assert(p =~= p.drop_last().push(l));
            assert(p.update(p.len() - 1, l.push(c)) =~= p.drop_last().push(l.push(c)));
            lemma_strip_all_push(p.drop_last(), l);
            lemma_strip_all_push(p.drop_last(), l.push(c));
            lemma_strip_space_push(l, c);
            if !white_space(c) {
                assert(strip_all(p.drop_last()) + strip_space(l).push(c) =~= (strip_all(p.drop_last())
                    + strip_space(l)).push(c));
            }
        }
    }
}

proof fn lemma_strip_trim(l: Seq<char>)
    ensures
        strip_space(trim_end(l)) == strip_space(l),
    decreases l.len(),
{
    if l.len() > 0 && white_space(l.last()) {
        lemma_strip_trim(l.drop_last());
        assert(l.drop_last().push(l.last()) =~= l);
        lemma_strip_space_push(l.drop_last(), l.last());
    }
}

proof fn lemma_trim_props(l: Seq<char>)
    ensures
        ends_without_space(trim_end(l)),
        trim_end(l).len() <= l.len(),
        trim_end(l) =~= l.take(trim_end(l).len() as int),
    decreases l.len(),
{
    if l.len() > 0 && white_space(l.last()) {
        lemma_trim_props(l.drop_last());
    }
}

proof fn lemma_blank_run_push(ls: Seq<Seq<char>>, l: Seq<char>, k: int)
    requires
        k < ls.len(),
    ensures
        blank_run(ls.push(l), k) == blank_run(ls, k),
    decreases k + 1,
{
    if k >= 0 && ls[k].len() == 0 {
        lemma_blank_run_push(ls, l, k - 1);
    }
}

proof fn lemma_tidy_lines(ls: Seq<Seq<char>>, max: int)
    requires
        max >= 0,
    ensures
        ({
            let (r, c) = tidy_lines(ls, max);
            &&& strip_all(r) == strip_all(ls)
            &&& c >= 0
            &&& blank_run(r, r.len() - 1) <= c
            &&& blank_run(r, r.len() - 1) <= max
            &&& c <= max ==> blank_run(r, r.len() - 1) == c
            &&& forall|k: int| 0 <= k < r.len() ==> #[trigger] blank_run(r, k) <= max
            &&& forall|k: int| 0 <= k < r.len() ==> ends_without_space(#[trigger] r[k])
            &&& (forall|k: int| 0 <= k < ls.len() ==> has_no_newline(#[trigger] ls[k])) ==> (
            forall|k: int| 0 <= k < r.len() ==> has_no_newline(#[trigger] r[k]))
        }),
    decreases ls.len(),
{
    if ls.len() > 0 {
        let rest = ls.drop_last();
        lemma_tidy_lines(rest, max);
        let (r, c) = tidy_lines(rest, max);
        let l = ls.last();
        let t = trim_end(l);
        lemma_strip_trim(l);
        lemma_trim_props(l);
        assert(ls =~= rest.push(l));
        lemma_strip_all_push(rest, l);
        lemma_strip_all_push(r, t);
        if (forall|k: int| 0 <= k < ls.len() ==> has_no_newline(#[trigger] ls[k])) {
            assert forall|k: int| 0 <= k < rest.len() implies has_no_newline(#[trigger] rest[k]) by {
                assert(rest[k] == ls[k]);
            }
            assert(has_no_newline(ls[ls.len() - 1]));
            assert forall|j: int| 0 <= j < t.len() implies #[trigger] t[j] != '\n' by {
                assert(t[j] == l[j]);
            }
        }
        let r2 = r.push(t);
        assert forall|k: int| 0 <= k < r.len() implies #[trigger] blank_run(r2, k) == blank_run(r, k) by {
            lemma_blank_run_push(r, t, k);
        }
        assert forall|k: int| 0 <= k < r.len() implies #[trigger] r2[k] == r[k] by {}
        if r.len() > 0 {
            assert(blank_run(r2, r.len() - 1) == blank_run(r, r.len() - 1));
        }
        if t.len() == 0 {
            assert(strip_space(t) =~= Seq::<char>::empty());
            assert(strip_all(r) + Seq::<char>::empty() =~= strip_all(r));
            if c + 1 <= max {
                assert(blank_run(r2, r.len() as int) == 1 + blank_run(r2, r.len() - 1));
                assert(blank_run(r2, r.len() as int) == c + 1);
                assert forall|k: int| 0 <= k < r2.len() implies #[trigger] blank_run(r2, k) <= max by {
                    if k < r.len() {
                        assert(blank_run(r2, k) == blank_run(r, k));
                    }
                }
                assert forall|k: int| 0 <= k < r2.len() implies ends_without_space(#[trigger] r2[k]) by {
                    if k < r.len() {
                        assert(r2[k] == r[k]);
                    }
                }
            }
        } else {
            assert(blank_run(r2, r.len() as int) == 0);
            assert forall|k: int| 0 <= k < r2.len() implies #[trigger] blank_run(r2, k) <= max by {
                if k < r.len() {
                    assert(blank_run(r2, k) == blank_run(r, k));
                }
            }
            assert forall|k: int| 0 <= k < r2.len() implies ends_without_space(#[trigger] r2[k]) by {
                if k < r.len() {
                    assert(r2[k] == r[k]);
                }
            }
        }
    }
}

proof fn lemma_drop_trailing(ls: Seq<Seq<char>>)
    ensures
        strip_all(drop_trailing_empty(ls)) == strip_all(ls),
        drop_trailing_empty(ls).len() <= ls.len(),
        drop_trailing_empty(ls) =~= ls.take(drop_trailing_empty(ls).len() as int),
        drop_trailing_empty(ls).len() > 0 ==> drop_trailing_empty(ls).last().len() > 0,
    decreases ls.len(),
{
    if ls.len() > 0 && ls.last().len() == 0 {
        lemma_drop_trailing(ls.drop_last());
        assert(ls =~= ls.drop_last().push(ls.last()));
        lemma_strip_all_push(ls.drop_last(), ls.last());
        assert(strip_space(ls.last()) =~= Seq::<char>::empty());
        assert(strip_all(ls.drop_last()) + Seq::<char>::empty() =~= strip_all(ls.drop_last()));
    }
}

proof fn lemma_strip_join(ls: Seq<Seq<char>>)
    ensures
        strip_space(join_lines(ls)) == strip_all(ls),
    decreases ls.len(),
{
    if ls.len() == 0 {
        assert(strip_space(Seq::<char>::empty()) == Seq::<char>::empty());
    } else if ls.len() == 1 {
        assert(ls.drop_last() =~= Seq::<Seq<char>>::empty());
        assert(strip_all(Seq::<Seq<char>>::empty()) == Seq::<char>::empty());
        assert(strip_all(ls) == strip_all(ls.drop_last()) + strip_space(ls.last()));
        assert(Seq::<char>::empty() + strip_space(ls[0]) =~= strip_space(ls[0]));
    } else if ls.len() > 1 {
        lemma_strip_join(ls.drop_last());
        let a = join_lines(ls.drop_last());
        lemma_strip_space_add(a + seq!['\n'], ls.last());
        lemma_strip_space_add(a, seq!['\n']);
        assert(seq!['\n'] =~= Seq::<char>::empty().push('\n'));
        lemma_strip_space_push(Seq::<char>::empty(), '\n');
        assert(strip_space(a) + Seq::<char>::empty() =~= strip_space(a));
    }
}

proof fn lemma_split_lines_nonl(s: Seq<char>)
    ensures
        forall|k: int| 0 <= k < split_lines(s).len() ==> has_no_newline(#[trigger] split_lines(s)[k]),
    decreases s.len(),
{
    if s.len() > 0 {
        lemma_split_lines_nonl(s.drop_last());
        lemma_split_nonempty(s.drop_last());
        let p = split_lines(s.drop_last());
        let c = s.last();
        if c != '\n' {
            let q = p.update(p.len() - 1, p.last().push(c));
            assert forall|k: int| 0 <= k < q.len() implies has_no_newline(#[trigger] q[k]) by {
                if k == p.len() - 1 {
                    assert(has_no_newline(p[k]));
                    assert forall|j: int| 0 <= j < q[k].len() implies #[trigger] q[k][j] != '\n' by {
                        if j < p[k].len() {
                            assert(q[k][j] == p[k][j]);
                        }
                    }
                }
            }
        } else {
            let q = p.push(Seq::<char>::empty());
            assert forall|k: int| 0 <= k < q.len() implies has_no_newline(#[trigger] q[k]) by {
                if k < p.len() {
                    assert(q[k] == p[k]);
                }
            }
        }
    }
}

proof fn lemma_split_append_line(x: Seq<char>, y: Seq<char>)
    requires
        has_no_newline(y),
    ensures
        split_lines(x + y) == split_lines(x).update(
            split_lines(x).len() - 1,
            split_lines(x).last() + y,
        ),
    decreases y.len(),
{
    lemma_split_nonempty(x);
    let p = split_lines(x);
    if y.len() == 0 {
        assert(x + y =~= x);
        assert(p.last() + y =~= p.last());
        assert(p.update(p.len() - 1, p.last()) =~= p);
    } else {
        let y0 = y.drop_last();
        assert forall|j: int| 0 <= j < y0.len() implies #[trigger] y0[j] != '\n' by {
            assert(y0[j] == y[j]);
        }
        lemma_split_append_line(x, y0);
        assert((x + y).drop_last() =~= x + y0);
        assert((x + y).last() == y.last());
        assert(y.last() != '\n');
        let q = p.update(p.len() - 1, p.last() + y0);
        assert(q.len() == p.len());
        assert(q.last() == p.last() + y0);
        assert(y0.push(y.last()) =~= y);
        assert((p.last() + y0).push(y.last()) =~= p.last() + y);
        assert(q.update(q.len() - 1, q.last().push(y.last())) =~= p.update(p.len() - 1, p.last() + y));
    }
}

proof fn lemma_split_join(ls: Seq<Seq<char>>)
    requires
        ls.len() > 0,
        forall|k: int| 0 <= k < ls.len() ==> has_no_newline(#[trigger] ls[k]),
    ensures
        split_lines(join_lines(ls)) == ls,
    decreases ls.len(),
{
    if ls.len() == 1 {
        assert(has_no_newline(ls[0]));
        lemma_split_append_line(Seq::<char>::empty(), ls[0]);
        assert(Seq::<char>::empty() + ls[0] =~= ls[0]);
        assert(split_lines(Seq::<char>::empty()) =~= seq![Seq::<char>::empty()]);
        assert(seq![Seq::<char>::empty()].update(0, Seq::<char>::empty() + ls[0]) =~= ls);
    } else {
        let rest = ls.drop_last();
        assert forall|k: int| 0 <= k < rest.len() implies has_no_newline(#[trigger] rest[k]) by {
            assert(rest[k] == ls[k]);
        }
        lemma_split_join(rest);
        let a = join_lines(rest);
        assert(a + seq!['\n'] =~= a.push('\n'));
        assert(a.push('\n').drop_last() =~= a);
        assert(split_lines(a.push('\n')) == split_lines(a).push(Seq::<char>::empty()));
        assert(has_no_newline(ls[ls.len() - 1]));
        lemma_split_append_line(a + seq!['\n'], ls.last());
        let p = rest.push(Seq::<char>::empty());
        assert(p.update(p.len() - 1, p.last() + ls.last()) =~= ls);
    }
}

/// Tidying changes only white space: the same characters other than white
/// space, in the same order.
pub proof fn law_tidy_keeps_text(s: Seq<char>, max: int)
    requires
        max >= 0,
    ensures
        strip_space(tidy_text(s, max)) == strip_space(s),
{
    let p = split_lines(s);
    lemma_strip_split(s);
    lemma_tidy_lines(p, max);
    let r = tidy_lines(p, max).0;
    lemma_drop_trailing(r);
    let l = drop_trailing_empty(r);
    lemma_strip_join(l);
    lemma_strip_space_push(join_lines(l), '\n');
}

/// The tidied text is its lines joined by line feeds, with a line feed at
/// the end. No line ends in white space, no more than `max` blank lines
/// come in a row, the last line is not blank, and the lines are exactly the
/// pieces of the text between its line feeds.
pub proof fn law_tidy_layout(s: Seq<char>, max: int)
    requires
        max >= 0,
    ensures
        ({
            let ls = tidy_text_lines(s, max);
            let out = tidy_text(s, max);
            &&& out == join_lines(ls).push('\n')
            &&& out.len() > 0 && out.last() == '\n'
            &&& forall|k: int| 0 <= k < ls.len() ==> ends_without_space(#[trigger] ls[k])
            &&& forall|k: int| 0 <= k < ls.len() ==> has_no_newline(#[trigger] ls[k])
            &&& forall|k: int| 0 <= k < ls.len() ==> #[trigger] blank_run(ls, k) <= max
            &&& ls.len() > 0 ==> ls.last().len() > 0
            &&& ls.len() > 0 ==> split_lines(join_lines(ls)) == ls
            &&& ls.len() == 0 ==> out == seq!['\n']
        }),
{
    let p = split_lines(s);
    lemma_split_lines_nonl(s);
    lemma_tidy_lines(p, max);
    let r = tidy_lines(p, max).0;
    lemma_drop_trailing(r);
    let ls = drop_trailing_empty(r);
    assert forall|k: int| 0 <= k < ls.len() implies {
        &&& ends_without_space(#[trigger] ls[k])
        &&& has_no_newline(ls[k])
        &&& blank_run(ls, k) <= max
    } by {
        assert(ls[k] == r[k]);
        lemma_blank_run_take(r, ls.len() as int, k);
    }
    if ls.len() > 0 {
        lemma_split_join(ls);
    } else {
        assert(join_lines(ls) =~= Seq::<char>::empty());
        assert(Seq::<char>::empty().push('\n') =~= seq!['\n']);
    }
}

proof fn lemma_blank_run_take(r: Seq<Seq<char>>, m: int, k: int)
    requires
        0 <= k < m <= r.len(),
    ensures
        blank_run(r.take(m), k) == blank_run(r, k),
    decreases k + 1,
{
    assert(r.take(m)[k] == r[k]);
    if k >= 0 && r[k].len() == 0 {
        if k > 0 {
            lemma_blank_run_take(r, m, k - 1);
        }
    }
}


proof fn lemma_trim_noop(l: Seq<char>)
    requires
        ends_without_space(l),
    ensures
        trim_end(l) == l,
{
}

/// Lines that are already tidy pass through `tidy_lines` unchanged, with the
/// final run of blank lines as the counter.
proof fn lemma_tidy_lines_noop(ls: Seq<Seq<char>>, max: int)
    requires
        max >= 0,
        forall|k: int| 0 <= k < ls.len() ==> ends_without_space(#[trigger] ls[k]),
        forall|k: int| 0 <= k < ls.len() ==> #[trigger] blank_run(ls, k) <= max,
    ensures
        tidy_lines(ls, max) == (ls, blank_run(ls, ls.len() - 1)),
    decreases ls.len(),
{
    if ls.len() > 0 {
        let rest = ls.drop_last();
        assert forall|k: int| 0 <= k < rest.len() implies ends_without_space(#[trigger] rest[k]) by {
            assert(rest[k] == ls[k]);
        }
        assert forall|k: int| 0 <= k < rest.len() implies #[trigger] blank_run(rest, k) <= max by {
            assert(rest.push(ls.last()) =~= ls);
            lemma_blank_run_push(rest, ls.last(), k);
        }
        lemma_tidy_lines_noop(rest, max);
        let l = ls.last();
        assert(ends_without_space(ls[ls.len() - 1]));
        lemma_trim_noop(l);
        assert(rest.push(l) =~= ls);
        if rest.len() > 0 {
            lemma_blank_run_push(rest, l, rest.len() - 1);
        }
        let b = blank_run(rest, rest.len() - 1);
        assert(tidy_lines(rest, max) == (rest, b));
        assert(blank_run(ls, ls.len() - 1) <= max);
        if l.len() == 0 {
            assert(blank_run(ls, ls.len() - 1) == 1 + blank_run(ls, ls.len() - 2));
            assert(blank_run(ls, ls.len() - 1) == 1 + b);
            assert(tidy_lines(ls, max) == (rest.push(l), b + 1));
        } else {
            assert(blank_run(ls, ls.len() - 1) == 0);
            assert(tidy_lines(ls, max) == (rest.push(l), 0int));
        }
    }
}

/// Tidying tidied text changes nothing.
pub proof fn law_tidy_idempotent(s: Seq<char>, max: int)
    requires
        max >= 0,
    ensures
        tidy_text(tidy_text(s, max), max) == tidy_text(s, max),
{
    law_tidy_layout(s, max);
    let ls = tidy_text_lines(s, max);
    let out = tidy_text(s, max);
    let e = Seq::<char>::empty();
    if ls.len() > 0 {
        assert(out.drop_last() =~= join_lines(ls));
        assert(split_lines(out) == ls.push(e));
        lemma_tidy_lines_noop(ls, max);
        let c = blank_run(ls, ls.len() - 1);
        assert(ls[ls.len() - 1].len() > 0);
        assert(c == 0);
        assert(ls.push(e).drop_last() =~= ls);
        assert(trim_end(e) == e);
        let r = tidy_lines(ls.push(e), max).0;
        if max >= 1 {
            assert(r == ls.push(e));
            assert(drop_trailing_empty(r) == drop_trailing_empty(ls));
        } else {
            assert(r == ls);
        }
        assert(drop_trailing_empty(ls) == ls);
    } else {
        assert(out == seq!['\n']);
        assert(seq!['\n'].drop_last() =~= e);
        assert(split_lines(e) == seq![e]);
        assert(split_lines(seq!['\n']) == seq![e].push(e));
        let two = seq![e].push(e);
        assert(two.drop_last() =~= seq![e]);
        assert(seq![e].drop_last() =~= Seq::<Seq<char>>::empty());
        assert(trim_end(e) == e);
        assert(seq![e].last() == e);
        assert(two.last() == e);
        assert(tidy_lines(Seq::<Seq<char>>::empty(), max) == (Seq::<Seq<char>>::empty(), 0int));
        let (r1, c1) = tidy_lines(seq![e], max);
        assert(c1 == 1);
        assert(forall|k: int| 0 <= k < r1.len() ==> #[trigger] r1[k] == e);
        let r2 = tidy_lines(two, max).0;
        assert forall|k: int| 0 <= k < r2.len() implies #[trigger] r2[k] == e by {
            if k < r1.len() {
                assert(r2[k] == r1[k]);
            }
        }
        lemma_drop_all_empty(r2);
        assert(join_lines(Seq::<Seq<char>>::empty()) =~= e);
    }
}

proof fn lemma_drop_all_empty(r: Seq<Seq<char>>)
    requires
        forall|k: int| 0 <= k < r.len() ==> #[trigger] r[k] == Seq::<char>::empty(),
    ensures
        drop_trailing_empty(r) == Seq::<Seq<char>>::empty(),
    decreases r.len(),
{
    if r.len() > 0 {
        assert(r.last() == Seq::<char>::empty());
        assert forall|k: int| 0 <= k < r.drop_last().len() implies #[trigger] r.drop_last()[k]
            == Seq::<char>::empty() by {
            assert(r.drop_last()[k] == r[k]);
        }
        lemma_drop_all_empty(r.drop_last());
    } else {
        assert(r =~= Seq::<Seq<char>>::empty());
    }
}


/// Tidying an empty text gives a single line feed.
pub proof fn law_tidy_empty(max: int)
    requires
        max >= 0,
    ensures
        tidy_text(Seq::<char>::empty(), max) == seq!['\n'],
{
    let e = Seq::<char>::empty();
    assert(split_lines(e) == seq![e]);
    assert(seq![e].last() == e);
    assert(seq![e].drop_last() =~= Seq::<Seq<char>>::empty());
    assert(trim_end(e) == e);
    assert(tidy_lines(Seq::<Seq<char>>::empty(), max) == (Seq::<Seq<char>>::empty(), 0int));
    let r = tidy_lines(seq![e], max).0;
    assert(forall|k: int| 0 <= k < r.len() ==> #[trigger] r[k] == e);
    lemma_drop_all_empty(r);
    assert(join_lines(Seq::<Seq<char>>::empty()) =~= e);
    assert(e.push('\n') =~= seq!['\n']);
}

} // verus!
