//! The whole-file unified diff that `--diff` prints.
use vstd::prelude::*;
use crate::text::{str_eq, chars_of, string_of};
use crate::tidy::{split_lines, split_chars, line_views};
use crate::formatter::push_all_chars;

verus! {

/// The line without a carriage return at its end.
pub open spec fn strip_cr(l: Seq<char>) -> Seq<char> {
    if l.len() > 0 && l.last() == '\r' {
        l.drop_last()
    } else {
        l
    }
}

/// The lines of a text as `str::lines` gives them: split at `'\n'`, a
/// carriage return before a line feed dropped, no line after a final line feed.
pub open spec fn text_lines(s: Seq<char>) -> Seq<Seq<char>> {
    let p = split_lines(s);
    let body = Seq::new((p.len() - 1) as nat, |k: int| strip_cr(p[k]));
    if p.last().len() == 0 {
        body
    } else {
        body.push(p.last())
    }
}

pub open spec fn digit_char(d: int) -> char {
    if d == 0 {
        '0'
    } else if d == 1 {
        '1'
    } else if d == 2 {
        '2'
    } else if d == 3 {
        '3'
    } else if d == 4 {
        '4'
    } else if d == 5 {
        '5'
    } else if d == 6 {
        '6'
    } else if d == 7 {
        '7'
    } else if d == 8 {
        '8'
    } else {
        '9'
    }
}

/// The decimal digits of `n`.
pub open spec fn decimal(n: nat) -> Seq<char>
    decreases n,
{
    if n < 10 {
        seq![digit_char(n as int)]
    } else {
        decimal(n / 10).push(digit_char((n % 10) as int))
    }
}

/// Each line after `mark`, each followed by a line feed.
pub open spec fn marked_lines(mark: char, ls: Seq<Seq<char>>) -> Seq<char>
    decreases ls.len(),
{
    if ls.len() == 0 {
        Seq::<char>::empty()
    } else {
        marked_lines(mark, ls.drop_last()) + seq![mark] + ls.last() + seq!['\n']
    }
}

/// The diff of two texts: empty when they are equal, otherwise a header that
/// names `label` and one hunk that removes every original line and adds
/// every formatted one.
pub open spec fn diff_text(original: Seq<char>, formatted: Seq<char>, label: Seq<char>) -> Seq<char> {
    if original == formatted {
        Seq::<char>::empty()
    } else {
        let ol = text_lines(original);
        let fl = text_lines(formatted);
        "--- "@ + label + " (original)\n+++ "@ + label + " (formatted)\n"@ + "@@ -1,"@
            + decimal(ol.len()) + " +1,"@ + decimal(fl.len()) + " @@\n"@ + marked_lines('-', ol)
            + marked_lines('+', fl)
    }
}

fn digit_of(d: usize) -> (c: char)
    requires
        d < 10,
    ensures
        c == digit_char(d as int),
{
    if d == 0 {
        '0'
    } else if d == 1 {
        '1'
    } else if d == 2 {
        '2'
    } else if d == 3 {
        '3'
    } else if d == 4 {
        '4'
    } else if d == 5 {
        '5'
    } else if d == 6 {
        '6'
    } else if d == 7 {
        '7'
    } else if d == 8 {
        '8'
    } else {
        '9'
    }
}

fn push_decimal(out: &mut Vec<char>, n: usize)
    ensures
        final(out)@ == old(out)@ + decimal(n as nat),
    decreases n,
{
    if n >= 10 {
        push_decimal(out, n / 10);
        out.push(digit_of(n % 10));
        assert(old(out)@ + decimal((n / 10) as nat).push(digit_char((n % 10) as int)) =~= (old(out)@
            + decimal((n / 10) as nat)).push(digit_char((n % 10) as int)));
    } else {
        out.push(digit_of(n));
        assert(old(out)@.push(digit_char(n as int)) =~= old(out)@ + seq![digit_char(n as int)]);
    }
}

fn push_str(out: &mut Vec<char>, s: &str)
    ensures
        final(out)@ == old(out)@ + s@,
{
    let cs = chars_of(s);
    push_all_chars(out, &cs);
}

/// The lines of a text as `str::lines` gives them.
fn lines_of(s: &str) -> (ls: Vec<Vec<char>>)
    ensures
        line_views(ls@) == text_lines(s@),
{
    let cs = chars_of(s);
    let p = split_chars(&cs);
    let ghost pv = line_views(p@);
    proof {
        crate::tidy::lemma_split_nonempty(cs@);
    }
    let m = p.len() - 1;
    let mut ls: Vec<Vec<char>> = Vec::new();
    let mut k: usize = 0;
    while k < m
        invariant
            pv == line_views(p@),
            pv == split_lines(cs@),
            m == p@.len() - 1,
            k <= m,
            line_views(ls@) =~= Seq::new(k as nat, |j: int| strip_cr(pv[j])),
        decreases m - k,
    {
        let mut l: Vec<char> = Vec::new();
        let len = p[k].len();
        let keep = if len > 0 && p[k][len - 1] == '\r' {
            len - 1
        } else {
            len
        };
        let mut j: usize = 0;
        while j < keep
            invariant
                k < p@.len(),
                keep <= p@[k as int]@.len(),
                j <= keep,
                l@ == p@[k as int]@.take(j as int),
            decreases keep - j,
        {
            l.push(p[k][j]);
            assert(p@[k as int]@.take(j as int).push(p@[k as int]@[j as int]) =~= p@[k as int]@.take(j + 1));
            j += 1;
        }
        assert(l@ =~= strip_cr(pv[k as int]));
        let ghost before = line_views(ls@);
        ls.push(l);
        assert(line_views(ls@) =~= before.push(strip_cr(pv[k as int])));
        k += 1;
    }
    if p[m].len() > 0 {
        let mut last: Vec<char> = Vec::new();
        push_all_chars(&mut last, &p[m]);
        let ghost before = line_views(ls@);
        ls.push(last);
        assert(line_views(ls@) =~= before.push(pv.last()));
    }
    ls
}

fn push_marked(out: &mut Vec<char>, mark: char, ls: &Vec<Vec<char>>)
    ensures
        final(out)@ == old(out)@ + marked_lines(mark, line_views(ls@)),
{
    let ghost lv = line_views(ls@);
    let n = ls.len();
    let mut k: usize = 0;
    assert(lv.take(0) =~= Seq::<Seq<char>>::empty());
    assert(old(out)@ + Seq::<char>::empty() =~= old(out)@);
    while k < n
        invariant
            lv == line_views(ls@),
            n == ls@.len(),
            k <= n,
            out@ == old(out)@ + marked_lines(mark, lv.take(k as int)),
        decreases n - k,
    {
        assert(lv.take(k + 1).drop_last() =~= lv.take(k as int));
        assert(lv.take(k + 1).last() == ls@[k as int]@);
        let ghost o0 = out@;
        out.push(mark);
        push_all_chars(out, &ls[k]);
        out.push('\n');
        assert(out@ =~= o0 + seq![mark] + ls@[k as int]@ + seq!['\n']);
        assert(old(out)@ + marked_lines(mark, lv.take(k + 1)) =~= o0 + seq![mark] + ls@[k as int]@
            + seq!['\n']);
        k += 1;
    }
    assert(lv.take(n as int) =~= lv);
}

/// A unified diff that replaces all of `original` with `formatted`; empty
/// when the two are equal.
pub fn unified_diff(original: &str, formatted: &str, label: &str) -> (d: String)
    ensures
        d@ == diff_text(original@, formatted@, label@),
{
    if str_eq(original, formatted) {
        return String::new();
    }
    let ol = lines_of(original);
    let fl = lines_of(formatted);
    let mut out: Vec<char> = Vec::new();
    push_str(&mut out, "--- ");
    push_str(&mut out, label);
    push_str(&mut out, " (original)\n+++ ");
    push_str(&mut out, label);
    push_str(&mut out, " (formatted)\n");
    push_str(&mut out, "@@ -1,");
    push_decimal(&mut out, ol.len());
    push_str(&mut out, " +1,");
    push_decimal(&mut out, fl.len());
    push_str(&mut out, " @@\n");
    push_marked(&mut out, '-', &ol);
    push_marked(&mut out, '+', &fl);
    string_of(&out)
}


/// The text with every `"\r\n"` turned into `"\n"` (a lone `'\r'` stays).
pub open spec fn crlf_to_lf(s: Seq<char>) -> Seq<char>
    decreases s.len(),
{
    if s.len() == 0 {
        Seq::<char>::empty()
    } else if s.len() > 1 && s[0] == '\r' && s[1] == '\n' {
        seq!['\n'] + crlf_to_lf(s.subrange(2, s.len() as int))
    } else {
        seq![s[0]] + crlf_to_lf(s.subrange(1, s.len() as int))
    }
}

/// Whether a file whose text is `original` needs rewriting to become
/// `formatted`: its text with `"\r\n"` line endings made `"\n"` differs.
pub fn needs_formatting(original: &str, formatted: &str) -> (r: bool)
    ensures
        r == (crlf_to_lf(original@) != formatted@),
{
    let cs = chars_of(original);
    let n = cs.len();
    let mut out: Vec<char> = Vec::new();
    let mut i: usize = 0;
    assert(cs@.subrange(0, n as int) =~= cs@);
    assert(out@ + crlf_to_lf(cs@) =~= crlf_to_lf(cs@));
    while i < n
        invariant
            n == cs@.len(),
            i <= n,
            crlf_to_lf(cs@) == out@ + crlf_to_lf(cs@.subrange(i as int, n as int)),
        decreases n - i,
    {
        let ghost rest = cs@.subrange(i as int, n as int);
        if i + 1 < n && cs[i] == '\r' && cs[i + 1] == '\n' {
            out.push('\n');
            assert(rest.subrange(2, rest.len() as int) =~= cs@.subrange(i + 2, n as int));
            i += 2;
        } else {
            out.push(cs[i]);
            assert(rest.subrange(1, rest.len() as int) =~= cs@.subrange(i + 1, n as int));
            i += 1;
        }
    }
    assert(cs@.subrange(n as int, n as int) =~= Seq::<char>::empty());
    assert(out@ + Seq::<char>::empty() =~= out@);
    let s = string_of(&out);
    !str_eq(s.as_str(), formatted)
}

} // verus!
