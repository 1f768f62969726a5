//! Character-level text primitives: decimal representations of integers,
//! digit folding, and plain string comparisons.  The JSON codec and the
//! profile labels are built on these.

use vstd::prelude::*;
use vstd::string::*;

verus! {

/// A decimal digit character.
pub open spec fn is_digit(c: char) -> bool {
    '0' <= c && c <= '9'
}

/// Numeric value of a digit character.
pub open spec fn digit_val(c: char) -> int {
    c as int - '0' as int
}

/// Digit character for a value in `0..10`.
pub open spec fn digit_char(d: int) -> char {
    if d == 0 {
        '0'
    } else if d == 1 {
        '1'
    } else if d == 2 {
        '2'
    } else if d == 3 {
        '3'
    } else if d == 4 {
        '4'
    } else if d == 5 {
        '5'
    } else if d == 6 {
        '6'
    } else if d == 7 {
        '7'
    } else if d == 8 {
        '8'
    } else {
        '9'
    }
}

/// Decimal representation of a natural number, most significant digit first,
/// without leading zeros (`0` is written as `"0"`).
pub open spec fn dec_rep(n: nat) -> Seq<char>
    decreases n,
{
    if n < 10 {
        seq![digit_char(n as int)]
    } else {
        dec_rep(n / 10) + seq![digit_char((n % 10) as int)]
    }
}

/// Decimal representation of an integer, with a leading `-` when negative.
pub open spec fn int_rep(v: int) -> Seq<char> {
    if v < 0 {
        seq!['-'] + dec_rep((-v) as nat)
    } else {
        dec_rep(v as nat)
    }
}

/// Value of a digit string, most significant digit first.
pub open spec fn val_of_digits(s: Seq<char>) -> int
    decreases s.len(),
{
    if s.len() == 0 {
        0
    } else {
        val_of_digits(s.drop_last()) * 10 + digit_val(s.last())
    }
}

/// Every character of `dec_rep(n)` is a digit, and there is at least one.
pub proof fn lemma_dec_rep_digits(n: nat)
    ensures
        dec_rep(n).len() >= 1,
        forall|i: int| 0 <= i < dec_rep(n).len() ==> is_digit(#[trigger] dec_rep(n)[i]),
    decreases n,
{
    if n >= 10 {
        lemma_dec_rep_digits(n / 10);
    }
}

/// Folding the digits of `dec_rep(n)` gives back `n`.
pub proof fn lemma_dec_rep_val(n: nat)
    ensures
        val_of_digits(dec_rep(n)) == n,
    decreases n,
{
    if n < 10 {
        assert(dec_rep(n).drop_last() =~= Seq::<char>::empty());
        assert(val_of_digits(Seq::<char>::empty()) == 0);
        assert(dec_rep(n).last() == digit_char(n as int));
        assert(digit_val(digit_char(n as int)) == n);
        assert(val_of_digits(dec_rep(n)) == val_of_digits(dec_rep(n).drop_last()) * 10
            + digit_val(dec_rep(n).last()));
    } else {
        lemma_dec_rep_val(n / 10);
        assert(dec_rep(n).drop_last() =~= dec_rep(n / 10));
        assert(dec_rep(n).last() == digit_char((n % 10) as int));
        assert(digit_val(digit_char((n % 10) as int)) == n % 10);
        assert(val_of_digits(dec_rep(n)) == (n / 10) * 10 + n % 10);
    }
}

/// Powers of ten.
pub open spec fn pow10(k: nat) -> nat
    decreases k,
{
    if k == 0 {
        1
    } else {
        10 * pow10((k - 1) as nat)
    }
}

/// A number below `pow10(k)` needs at most `k` digits.
pub proof fn lemma_dec_rep_len(n: nat, k: nat)
    requires
        k >= 1,
        n < pow10(k),
    ensures
        dec_rep(n).len() <= k,
    decreases n,
{
    if n >= 10 {
        assert(pow10(k) == 10 * pow10((k - 1) as nat));
        assert(n / 10 < pow10((k - 1) as nat)) by (nonlinear_arith)
            requires
                n < 10 * pow10((k - 1) as nat),
        ;
        assert(k - 1 >= 1) by {
            if k == 1 {
                assert(pow10(1nat) == 10);
            }
        }
        lemma_dec_rep_len(n / 10, (k - 1) as nat);
    }
}

/// One-character string for a digit value.
pub fn digit_str(d: u64) -> (r: &'static str)
    requires
        d < 10,
    ensures
        r@ =~= seq![digit_char(d as int)],
{
    proof {
        reveal_strlit("0");
        reveal_strlit("1");
        reveal_strlit("2");
        reveal_strlit("3");
        reveal_strlit("4");
        reveal_strlit("5");
        reveal_strlit("6");
        reveal_strlit("7");
        reveal_strlit("8");
        reveal_strlit("9");
    }
    if d == 0 {
        "0"
    } else if d == 1 {
        "1"
    } else if d == 2 {
        "2"
    } else if d == 3 {
        "3"
    } else if d == 4 {
        "4"
    } else if d == 5 {
        "5"
    } else if d == 6 {
        "6"
    } else if d == 7 {
        "7"
    } else if d == 8 {
        "8"
    } else {
        "9"
    }
}

/// Appends the decimal representation of `n` to `out`.
pub fn append_u64(out: &mut String, n: u64)
    ensures
        final(out)@ == old(out)@ + dec_rep(n as nat),
    decreases n,
{
    if n < 10 {
        out.append(digit_str(n));
    } else {
        append_u64(out, n / 10);
        out.append(digit_str(n % 10));
        proof {
            assert(old(out)@ + dec_rep((n / 10) as nat) + seq![digit_char((n % 10) as int)]
                =~= old(out)@ + dec_rep(n as nat));
        }
    }
}

/// Appends the decimal representation of `v` to `out`, with a sign if needed.
pub fn append_i32(out: &mut String, v: i32)
    ensures
        final(out)@ == old(out)@ + int_rep(v as int),
{
    if v < 0 {
        out.append("-");
        let m: u64 = (-(v as i64)) as u64;
        append_u64(out, m);
        proof {
            reveal_strlit("-");
            assert("-"@ =~= seq!['-']);
            assert(old(out)@ + seq!['-'] + dec_rep(m as nat) =~= old(out)@ + int_rep(v as int));
        }
    } else {
        append_u64(out, v as u64);
    }
}

/// Builds the decimal representation of `v` as a fresh string.
pub fn i32_to_string(v: i32) -> (r: String)
    ensures
        r@ == int_rep(v as int),
{
    let mut out = String::new();
    append_i32(&mut out, v);
    proof {
        assert(Seq::<char>::empty() + int_rep(v as int) =~= int_rep(v as int));
    }
    out
}

/// Character-by-character string equality.
pub fn str_eq(a: &str, b: &str) -> (r: bool)
    ensures
        r == (a@ == b@),
{
    let an: usize = a.unicode_len();
    let bn: usize = b.unicode_len();
    if an != bn {
        return false;
    }
    let mut i: usize = 0;
    while i < an
        invariant
            an == a@.len(),
            an == b@.len(),
            i <= an,
            forall|j: int| 0 <= j < i ==> a@[j] == b@[j],
        decreases an - i,
    {
        if a.get_char(i) != b.get_char(i) {
            return false;
        }
        i = i + 1;
    }
    proof {
        assert(a@ =~= b@);
    }
    true
}

/// `p` is a prefix of `s`.
pub open spec fn has_prefix(s: Seq<char>, p: Seq<char>) -> bool {
    p.len() <= s.len() && s.take(p.len() as int) == p
}

/// Character-by-character prefix test.
pub fn str_starts_with(s: &str, p: &str) -> (r: bool)
    ensures
        r == has_prefix(s@, p@),
{
    let sn: usize = s.unicode_len();
    let pn: usize = p.unicode_len();
    if pn > sn {
        return false;
    }
    let mut i: usize = 0;
    while i < pn
        invariant
            sn == s@.len(),
            pn == p@.len(),
            pn <= sn,
            i <= pn,
            forall|j: int| 0 <= j < i ==> s@[j] == p@[j],
        decreases pn - i,
    {
        if s.get_char(i) != p.get_char(i) {
            proof {
                assert(s@.take(pn as int)[i as int] != p@[i as int]);
            }
            return false;
        }
        i = i + 1;
    }
    proof {
        assert(s@.take(pn as int) =~= p@);
    }
    true
}

} // verus!
