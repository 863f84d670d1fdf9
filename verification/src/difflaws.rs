//! What the diff helpers compute: line counts in decimal, and line endings
//! made uniform.
use vstd::prelude::*;
use crate::diff::{decimal, digit_char, crlf_to_lf};

verus! {

/// The value of a decimal digit character.
pub open spec fn digit_value(c: char) -> int {
    (c as int) - ('0' as int)
}

/// The number a string of decimal digits denotes.
pub open spec fn numeral_value(s: Seq<char>) -> int
    decreases s.len(),
{
    if s.len() == 0 {
        0
    } else {
        numeral_value(s.drop_last()) * 10 + digit_value(s.last())
    }
}

pub open spec fn all_digits(s: Seq<char>) -> bool {
    forall|k: int| 0 <= k < s.len() ==> '0' <= #[trigger] s[k] && s[k] <= '9'
}

proof fn lemma_digit_char(d: int)
    requires
        0 <= d < 10,
    ensures
        '0' <= digit_char(d) <= '9',
        digit_value(digit_char(d)) == d,
        digit_char(d) == '0' <==> d == 0,
{
}

/// `decimal(n)` is the base-ten numeral of `n`: digits only, worth `n`, and
/// without a leading zero unless `n` is zero (written `0`).
pub proof fn law_decimal_numeral(n: nat)
    ensures
        decimal(n).len() >= 1,
        all_digits(decimal(n)),
        numeral_value(decimal(n)) == n,
        decimal(n)[0] == '0' <==> n == 0,
        n == 0 ==> decimal(n) == seq!['0'],
    decreases n,
{
    if n < 10 {
        lemma_digit_char(n as int);
        let s = seq![digit_char(n as int)];
        assert(s.drop_last() =~= Seq::<char>::empty());
        assert(numeral_value(Seq::<char>::empty()) == 0);
        assert(numeral_value(s) == numeral_value(s.drop_last()) * 10 + digit_value(s.last()));
    } else {
        let q = (n / 10) as nat;
        let r = n % 10;
        law_decimal_numeral(q);
        lemma_digit_char(r as int);
        let s = decimal(q).push(digit_char(r as int));
        assert(s.drop_last() =~= decimal(q));
        assert(s[0] == decimal(q)[0]);
        assert forall|k: int| 0 <= k < s.len() implies '0' <= #[trigger] s[k] && s[k] <= '9' by {
            if k < decimal(q).len() {
                assert(s[k] == decimal(q)[k]);
            }
        }
        assert(q * 10 + r == n);
        assert(q >= 1);
        assert(numeral_value(s) == numeral_value(decimal(q)) * 10 + digit_value(s.last()));
        assert(s.last() == digit_char(r as int));
    }
}


/// Turning `"\r\n"` into `"\n"` works piece by piece, when the first piece
/// does not end in a carriage return (which could pair with the second).
pub proof fn law_crlf_to_lf_add(a: Seq<char>, b: Seq<char>)
    requires
        a.len() == 0 || a.last() != '\r',
    ensures
        crlf_to_lf(a + b) == crlf_to_lf(a) + crlf_to_lf(b),
    decreases a.len(),
{
    let n = a.len() as int;
    if n == 0 {
        assert(a + b =~= b);
        assert(crlf_to_lf(a) + crlf_to_lf(b) =~= crlf_to_lf(b));
    } else {
        let ab = a + b;
        if n >= 2 && a[0] == '\r' && a[1] == '\n' {
            let a2 = a.subrange(2, n);
            assert(a2.len() == 0 || a2.last() == a.last());
            law_crlf_to_lf_add(a2, b);
            assert(ab.subrange(2, ab.len() as int) =~= a2 + b);
            assert(crlf_to_lf(ab) == seq!['\n'] + crlf_to_lf(a2 + b));
            assert(seq!['\n'] + (crlf_to_lf(a2) + crlf_to_lf(b)) =~= (seq!['\n'] + crlf_to_lf(a2))
                + crlf_to_lf(b));
        } else {
            let a1 = a.subrange(1, n);
            assert(n >= 2 || a[0] != '\r');
            assert(a1.len() == 0 || a1.last() == a.last());
            law_crlf_to_lf_add(a1, b);
            assert(ab.subrange(1, ab.len() as int) =~= a1 + b);
            assert(ab[0] == a[0]);
            assert(ab.len() > 1 && ab[0] == '\r' ==> ab[1] == a[1]);
            assert(crlf_to_lf(ab) == seq![a[0]] + crlf_to_lf(a1 + b));
            assert(seq![a[0]] + (crlf_to_lf(a1) + crlf_to_lf(b)) =~= (seq![a[0]] + crlf_to_lf(a1))
                + crlf_to_lf(b));
        }
    }
}

/// Every `"\r\n"` becomes `"\n"`, wherever it stands: the text around it is
/// converted on its own.
pub proof fn law_crlf_to_lf_each(a: Seq<char>, b: Seq<char>)
    requires
        a.len() == 0 || a.last() != '\r',
    ensures
        crlf_to_lf(a + seq!['\r', '\n'] + b) == crlf_to_lf(a) + seq!['\n'] + crlf_to_lf(b),
{
    let crlf = seq!['\r', '\n'];
    law_crlf_to_lf_add(a, crlf + b);
    assert(a + crlf + b =~= a + (crlf + b));
    assert((crlf + b).subrange(2, (crlf + b).len() as int) =~= b);
    assert(crlf_to_lf(crlf + b) == seq!['\n'] + crlf_to_lf(b));
    assert(crlf_to_lf(a) + (seq!['\n'] + crlf_to_lf(b)) =~= crlf_to_lf(a) + seq!['\n'] + crlf_to_lf(b));
}

/// A text without carriage returns is left as it is.
pub proof fn law_crlf_to_lf_no_cr(s: Seq<char>)
    requires
        forall|k: int| 0 <= k < s.len() ==> #[trigger] s[k] != '\r',
    ensures
        crlf_to_lf(s) == s,
    decreases s.len(),
{
    if s.len() > 0 {
        let t = s.subrange(1, s.len() as int);
        assert forall|k: int| 0 <= k < t.len() implies #[trigger] t[k] != '\r' by {
            assert(t[k] == s[k + 1]);
        }
        law_crlf_to_lf_no_cr(t);
        assert(seq![s[0]] + t =~= s);
    }
}

} // verus!
