//! The last pass over printed text: trailing white space goes from every
//! line, runs of blank lines are cut to a maximum, blank lines at the end go,
//! and the text ends with one line feed.
use vstd::prelude::*;
use crate::text::{white_space, is_whitespace, chars_of, string_of};

verus! {

/// The pieces of `s` between line feeds (`str::split('\n')`): one more than
/// the number of line feeds.
pub open spec fn split_lines(s: Seq<char>) -> Seq<Seq<char>>
    decreases s.len(),
{
    if s.len() == 0 {
        seq![Seq::<char>::empty()]
    } else {
        let p = split_lines(s.drop_last());
        if s.last() == '\n' {
            p.push(Seq::<char>::empty())
        } else {
            p.update(p.len() - 1, p.last().push(s.last()))
        }
    }
}

/// The line without its trailing white space (`str::trim_end`).
pub open spec fn trim_end(l: Seq<char>) -> Seq<char>
    decreases l.len(),
{
    if l.len() > 0 && white_space(l.last()) {
        trim_end(l.drop_last())
    } else {
        l
    }
}

/// The trimmed lines, keeping at most `max` blank lines in a row, and the
/// length of the run of blank lines at the end.
pub open spec fn tidy_lines(lines: Seq<Seq<char>>, max: int) -> (Seq<Seq<char>>, int)
    decreases lines.len(),
{
    if lines.len() == 0 {
        (Seq::<Seq<char>>::empty(), 0)
    } else {
        let (r, c) = tidy_lines(lines.drop_last(), max);
        let t = trim_end(lines.last());
        if t.len() == 0 {
            if c + 1 <= max {
                (r.push(t), c + 1)
            } else {
                (r, c + 1)
            }
        } else {
            (r.push(t), 0)
        }
    }
}

/// The lines without the empty lines at their end.
pub open spec fn drop_trailing_empty(ls: Seq<Seq<char>>) -> Seq<Seq<char>>
    decreases ls.len(),
{
    if ls.len() > 0 && ls.last().len() == 0 {
        drop_trailing_empty(ls.drop_last())
    } else {
        ls
    }
}

/// The lines joined by line feeds (`join("\n")`).
pub open spec fn join_lines(ls: Seq<Seq<char>>) -> Seq<char>
    decreases ls.len(),
{
    if ls.len() == 0 {
        Seq::<char>::empty()
    } else if ls.len() == 1 {
        ls[0]
    } else {
        join_lines(ls.drop_last()) + seq!['\n'] + ls.last()
    }
}

/// The lines of the tidied text.
pub open spec fn tidy_text_lines(s: Seq<char>, max: int) -> Seq<Seq<char>> {
    drop_trailing_empty(tidy_lines(split_lines(s), max).0)
}

/// The tidied text.
pub open spec fn tidy_text(s: Seq<char>, max: int) -> Seq<char> {
    join_lines(tidy_text_lines(s, max)).push('\n')
}

pub open spec fn line_views(v: Seq<Vec<char>>) -> Seq<Seq<char>> {
    v.map_values(|l: Vec<char>| l@)
}

pub proof fn lemma_split_nonempty(s: Seq<char>)
    ensures
        split_lines(s).len() >= 1,
    decreases s.len(),
{
    if s.len() > 0 {
        lemma_split_nonempty(s.drop_last());
    }
}

fn trim_line(l: &Vec<char>) -> (t: Vec<char>)
    ensures
        t@ == trim_end(l@),
{
    let mut k = l.len();
    assert(l@.take(k as int) =~= l@);
    while k > 0 && is_whitespace(l[k - 1])
        invariant
            k <= l@.len(),
            trim_end(l@) == trim_end(l@.take(k as int)),
        decreases k,
    {
        assert(l@.take(k as int).drop_last() =~= l@.take(k - 1));
        k -= 1;
    }
    let mut t: Vec<char> = Vec::new();
    let mut j: usize = 0;
    while j < k
        invariant
            k <= l@.len(),
            j <= k,
            t@ == l@.take(j as int),
        decreases k - j,
    {
        t.push(l[j]);
        assert(l@.take(j as int).push(l@[j as int]) =~= l@.take(j + 1));
        j += 1;
    }
    t
}

pub(crate) fn split_chars(s: &Vec<char>) -> (lines: Vec<Vec<char>>)
    ensures
        line_views(lines@) == split_lines(s@),
{
    let n = s.len();
    let mut done: Vec<Vec<char>> = Vec::new();
    let mut cur: Vec<char> = Vec::new();
    let mut k: usize = 0;
    assert(s@.take(0) =~= Seq::<char>::empty());
    assert(line_views(done@).push(cur@) =~= seq![Seq::<char>::empty()]);
    while k < n
        invariant
            n == s@.len(),
            k <= n,
            split_lines(s@.take(k as int)) == line_views(done@).push(cur@),
        decreases n - k,
    {
        let c = s[k];
        let ghost before = s@.take(k as int);
        assert(s@.take(k + 1).drop_last() =~= before);
        assert(s@.take(k + 1).last() == c);
        if c == '\n' {
            let ghost d0 = line_views(done@);
            let old_cur = cur;
            cur = Vec::new();
            done.push(old_cur);
            assert(line_views(done@) =~= d0.push(old_cur@));
            assert(line_views(done@).push(cur@) =~= d0.push(old_cur@).push(Seq::<char>::empty()));
        } else {
            let ghost p = line_views(done@).push(cur@);
            cur.push(c);
            assert(line_views(done@).push(cur@) =~= p.update(p.len() - 1, p.last().push(c)));
        }
        k += 1;
    }
    assert(s@.take(n as int) =~= s@);
    let ghost d0 = line_views(done@);
    done.push(cur);
    assert(line_views(done@) =~= d0.push(cur@));
    done
}

/// The tidied text: see `tidy_text`.
pub fn finalize_chars(src: &Vec<char>, max_blank_lines: usize) -> (out: Vec<char>)
    ensures
        out@ == tidy_text(src@, max_blank_lines as int),
{
    let lines = split_chars(src);
    let ghost ls = line_views(lines@);
    let n = lines.len();
    let mut result: Vec<Vec<char>> = Vec::new();
    let mut consecutive_blank: usize = 0;
    let mut k: usize = 0;
    assert(ls.take(0) =~= Seq::<Seq<char>>::empty());
    while k < n
        invariant
            n == lines@.len(),
            ls == line_views(lines@),
            k <= n,
            consecutive_blank <= k,
            tidy_lines(ls.take(k as int), max_blank_lines as int) == (
            line_views(result@),
            consecutive_blank as int,
            ),
        decreases n - k,
    {
        let t = trim_line(&lines[k]);
        assert(ls.take(k + 1).drop_last() =~= ls.take(k as int));
        assert(ls.take(k + 1).last() == lines@[k as int]@);
        let ghost r0 = line_views(result@);
        if t.len() == 0 {
            consecutive_blank += 1;
            if consecutive_blank <= max_blank_lines {
                let ghost tv = t@;
                result.push(t);
                assert(line_views(result@) =~= r0.push(tv));
            }
        } else {
            consecutive_blank = 0;
            let ghost tv = t@;
            result.push(t);
            assert(line_views(result@) =~= r0.push(tv));
        }
        k += 1;
    }
    assert(ls.take(n as int) =~= ls);
    while result.len() > 0 && result[result.len() - 1].len() == 0
        invariant
            drop_trailing_empty(tidy_lines(ls, max_blank_lines as int).0) == drop_trailing_empty(
                line_views(result@),
            ),
        decreases result@.len(),
    {
        let ghost r0 = line_views(result@);
        result.pop();
        assert(line_views(result@) =~= r0.drop_last());
    }
    let ghost kept = line_views(result@);
    assert(drop_trailing_empty(kept) == kept);
    let m = result.len();
    let mut out: Vec<char> = Vec::new();
    let mut j: usize = 0;
    assert(kept.take(0) =~= Seq::<Seq<char>>::empty());
    while j < m
        invariant
            m == result@.len(),
            kept == line_views(result@),
            j <= m,
            out@ == join_lines(kept.take(j as int)),
        decreases m - j,
    {
        assert(kept.take(j + 1).drop_last() =~= kept.take(j as int));
        assert(kept.take(j + 1).last() == result@[j as int]@);
        if j > 0 {
            out.push('\n');
        } else {
            assert(kept.take(1) =~= seq![result@[0]@]);
        }
        let ghost o1 = out@;
        crate::formatter::push_all_chars(&mut out, &result[j]);
        assert(j > 0 ==> out@ =~= o1 + result@[j as int]@);
        assert(j > 0 ==> join_lines(kept.take(j as int)) + seq!['\n'] + result@[j as int]@ =~= out@);
        j += 1;
    }
    assert(kept.take(m as int) =~= kept);
    out.push('\n');
    out
}

/// Trims trailing white space from every line, keeps at most
/// `max_blank_lines` blank lines in a row, drops blank lines at the end and
/// ends the text with one line feed.
pub fn finalize(src: String, max_blank_lines: usize) -> (out: String)
    ensures
        out@ == tidy_text(src@, max_blank_lines as int),
{
    let cs = chars_of(src.as_str());
    let r = finalize_chars(&cs, max_blank_lines);
    string_of(&r)
}

} // verus!
