//! A small JSON text layer: printing and parsing of the few shapes the
//! persisted documents use (quoted strings with escapes, integers, fixed
//! punctuation), together with the lemmas showing that parsing inverts
//! printing.  Parsers work on a string and a character position; `None`
//! means the text does not match.

use vstd::prelude::*;
use vstd::string::*;
use crate::text::{
    dec_rep, digit_val, int_rep, is_digit, lemma_dec_rep_digits, lemma_dec_rep_len,
    lemma_dec_rep_val, pow10, val_of_digits,
};

verus! {

// ---------------------------------------------------------------------------
// Digit runs and integers
// ---------------------------------------------------------------------------

/// End of the run of digit characters starting at `i`.
pub open spec fn run_end(s: Seq<char>, i: int) -> int
    decreases s.len() - i,
{
    if 0 <= i < s.len() && is_digit(s[i]) {
        run_end(s, i + 1)
    } else {
        i
    }
}

/// Basic shape of `run_end`: it stays within bounds and marks a maximal
/// run of digits.
pub proof fn lemma_run_end_shape(s: Seq<char>, i: int)
    requires
        0 <= i <= s.len(),
    ensures
        i <= run_end(s, i) <= s.len(),
        forall|k: int| i <= k < run_end(s, i) ==> is_digit(s[k]),
        run_end(s, i) == s.len() || !is_digit(s[run_end(s, i)]),
    decreases s.len() - i,
{
    if i < s.len() && is_digit(s[i]) {
        lemma_run_end_shape(s, i + 1);
    }
}

/// If every character in `[i, j)` is a digit and `j` sits on a non-digit
/// or the end, the run ends exactly at `j`.
pub proof fn lemma_run_end_is(s: Seq<char>, i: int, j: int)
    requires
        0 <= i <= j <= s.len(),
        forall|k: int| i <= k < j ==> is_digit(#[trigger] s[k]),
        j == s.len() || !is_digit(s[j]),
    ensures
        run_end(s, i) == j,
    decreases j - i,
{
    if i < j {
        lemma_run_end_is(s, i + 1, j);
    }
}

/// An unsigned number: a run of one to ten digits.
pub open spec fn p_nat(s: Seq<char>, i: int) -> Option<(int, int)> {
    let j = run_end(s, i);
    if 1 <= j - i && j - i <= 10 {
        Some((val_of_digits(s.subrange(i, j)), j))
    } else {
        None
    }
}

/// A signed 32-bit number: an optional minus sign and a digit run, with
/// the value within `i32` range.
pub open spec fn p_i32(s: Seq<char>, i: int) -> Option<(int, int)> {
    if 0 <= i < s.len() && s[i] == '-' {
        match p_nat(s, i + 1) {
            Some((v, j)) => if v <= 0x8000_0000 {
                Some((-v, j))
            } else {
                None
            },
            None => None,
        }
    } else {
        match p_nat(s, i) {
            Some((v, j)) => if v <= 0x7fff_ffff {
                Some((v, j))
            } else {
                None
            },
            None => None,
        }
    }
}

/// The value of a digit string is below `pow10` of its length.
pub proof fn lemma_val_of_digits_bound(s: Seq<char>)
    requires
        forall|k: int| 0 <= k < s.len() ==> is_digit(#[trigger] s[k]),
    ensures
        0 <= val_of_digits(s) < pow10(s.len()),
    decreases s.len(),
{
    if s.len() > 0 {
        lemma_val_of_digits_bound(s.drop_last());
        assert(digit_val(s.last()) <= 9);
        assert(pow10(s.len()) == 10 * pow10((s.len() - 1) as nat));
    }
}

pub proof fn lemma_pow10_10()
    ensures
        pow10(10) == 10_000_000_000,
        pow10(9) == 1_000_000_000,
{
    assert(pow10(0) == 1);
    assert(pow10(1) == 10);
    assert(pow10(2) == 100);
    assert(pow10(3) == 1000);
    assert(pow10(4) == 10000);
    assert(pow10(5) == 100000);
    assert(pow10(6) == 1000000);
    assert(pow10(7) == 10000000);
    assert(pow10(8) == 100000000);
    assert(pow10(9) == 1000000000);
    assert(pow10(10) == 10000000000);
}

/// Parsing inverts printing for unsigned numbers: if the text at `i` is
/// `dec_rep(n)` followed by a non-digit (or the end), `p_nat` returns `n`.
pub proof fn lemma_p_nat_inv(s: Seq<char>, i: int, n: nat)
    requires
        n <= 0xffff_ffff,
        0 <= i,
        i + dec_rep(n).len() <= s.len(),
        s.subrange(i, i + dec_rep(n).len() as int) == dec_rep(n),
        i + dec_rep(n).len() == s.len() || !is_digit(s[i + dec_rep(n).len()]),
    ensures
        p_nat(s, i) == Some((n as int, i + dec_rep(n).len() as int)),
{
    let l = dec_rep(n).len() as int;
    lemma_dec_rep_digits(n);
    assert(forall|k: int| i <= k < i + l ==> is_digit(#[trigger] s[k])) by {
        assert(forall|k: int| i <= k < i + l ==> s[k] == dec_rep(n)[k - i]);
    }
    lemma_run_end_is(s, i, i + l);
    lemma_pow10_10();
    lemma_dec_rep_len(n, 10);
    lemma_dec_rep_val(n);
}

/// Parsing inverts printing for signed 32-bit numbers.
pub proof fn lemma_p_i32_inv(s: Seq<char>, i: int, v: int)
    requires
        -0x8000_0000 <= v <= 0x7fff_ffff,
        0 <= i,
        i + int_rep(v).len() <= s.len(),
        s.subrange(i, i + int_rep(v).len() as int) == int_rep(v),
        i + int_rep(v).len() == s.len() || !is_digit(s[i + int_rep(v).len()]),
    ensures
        p_i32(s, i) == Some((v, i + int_rep(v).len() as int)),
{
    if v < 0 {
        let m = (-v) as nat;
        let l = dec_rep(m).len() as int;
        assert(s[i] == int_rep(v)[0]);
        assert(s.subrange(i + 1, i + 1 + l) =~= dec_rep(m)) by {
            assert(forall|k: int| 0 <= k < l ==> int_rep(v)[1 + k] == dec_rep(m)[k]);
            assert(forall|k: int| i + 1 <= k < i + 1 + l ==> s[k] == int_rep(v)[k - i]);
        }
        lemma_p_nat_inv(s, i + 1, m);
        lemma_dec_rep_digits(m);
        assert(s[i] == '-' && !is_digit('-'));
    } else {
        let l = dec_rep(v as nat).len() as int;
        lemma_p_nat_inv(s, i, v as nat);
        lemma_dec_rep_digits(v as nat);
        assert(s[i] == dec_rep(v as nat)[0]);
        assert(is_digit(s[i]));
        assert(s[i] != '-');
    }
}

/// Splits knowledge of a concatenated subrange into its two halves.
pub proof fn lemma_split_at(s: Seq<char>, i: int, a: Seq<char>, b: Seq<char>)
    requires
        0 <= i,
        i + a.len() + b.len() <= s.len(),
        s.subrange(i, i + a.len() + b.len()) == a + b,
    ensures
        s.subrange(i, i + a.len() as int) == a,
        s.subrange(i + a.len() as int, i + a.len() + b.len()) == b,
{
    let w = s.subrange(i, i + a.len() + b.len());
    assert(s.subrange(i, i + a.len() as int) =~= a) by {
        assert(forall|m: int| 0 <= m < a.len() ==> w[m] == (a + b)[m]);
    }
    assert forall|m: int| 0 <= m < b.len() implies s.subrange(
        i + a.len() as int,
        i + a.len() + b.len(),
    )[m] == b[m] by {
        assert(w[a.len() + m] == (a + b)[a.len() + m]);
        assert((a + b)[a.len() + m] == b[m]);
        assert(w[a.len() + m] == s[i + a.len() + m]);
        assert(s.subrange(i + a.len() as int, i + a.len() + b.len())[m] == s[i + a.len() + m]);
    }
    assert(s.subrange(i + a.len() as int, i + a.len() + b.len()) =~= b);
}

// ---------------------------------------------------------------------------
// Fixed text
// ---------------------------------------------------------------------------

/// A fixed piece of text at position `i`.
pub open spec fn p_lit(s: Seq<char>, i: int, lit: Seq<char>) -> Option<int> {
    if 0 <= i && i + lit.len() <= s.len() && s.subrange(i, i + lit.len() as int) == lit {
        Some(i + lit.len() as int)
    } else {
        None
    }
}

// ---------------------------------------------------------------------------
// Quoted strings
// ---------------------------------------------------------------------------

/// Escaped form of one character: quotes and backslashes get a backslash.
pub open spec fn esc_char(c: char) -> Seq<char> {
    if c == '"' || c == '\\' {
        seq!['\\', c]
    } else {
        seq![c]
    }
}

/// Escaped form of a string body.
pub open spec fn esc_rep(t: Seq<char>) -> Seq<char>
    decreases t.len(),
{
    if t.len() == 0 {
        Seq::<char>::empty()
    } else {
        esc_char(t[0]) + esc_rep(t.drop_first())
    }
}

/// A quoted, escaped string.
pub open spec fn str_rep(t: Seq<char>) -> Seq<char> {
    seq!['"'] + esc_rep(t) + seq!['"']
}

/// Escaping distributes over concatenation.
pub proof fn lemma_esc_rep_app(a: Seq<char>, b: Seq<char>)
    ensures
        esc_rep(a + b) == esc_rep(a) + esc_rep(b),
    decreases a.len(),
{
    if a.len() == 0 {
        assert(a + b =~= b);
        assert(esc_rep(a) + esc_rep(b) =~= esc_rep(b));
    } else {
        lemma_esc_rep_app(a.drop_first(), b);
        assert((a + b).drop_first() =~= a.drop_first() + b);
        assert(esc_char((a + b)[0]) + (esc_rep(a.drop_first()) + esc_rep(b)) =~= (esc_char(a[0])
            + esc_rep(a.drop_first())) + esc_rep(b));
    }
}

/// Escaping one more character appends its escaped form.
pub proof fn lemma_esc_rep_snoc(t: Seq<char>, k: int)
    requires
        0 <= k < t.len(),
    ensures
        esc_rep(t.take(k + 1)) == esc_rep(t.take(k)) + esc_char(t[k]),
{
    assert(t.take(k + 1) =~= t.take(k) + seq![t[k]]);
    lemma_esc_rep_app(t.take(k), seq![t[k]]);
    assert(esc_rep(seq![t[k]]) =~= esc_char(t[k])) by {
        assert(seq![t[k]].drop_first() =~= Seq::<char>::empty());
        assert(esc_rep(Seq::<char>::empty()) =~= Seq::<char>::empty());
        assert(esc_char(t[k]) + Seq::<char>::empty() =~= esc_char(t[k]));
    }
}

/// Body of a quoted string, read until the closing quote; a backslash
/// takes the next character literally.
pub open spec fn p_str_body(s: Seq<char>, i: int) -> Option<(Seq<char>, int)>
    decreases s.len() - i,
{
    if i < 0 || i >= s.len() {
        None
    } else if s[i] == '"' {
        Some((Seq::<char>::empty(), i + 1))
    } else if s[i] == '\\' {
        if i + 1 < s.len() {
            match p_str_body(s, i + 2) {
                Some((t, j)) => Some((seq![s[i + 1]] + t, j)),
                None => None,
            }
        } else {
            None
        }
    } else {
        match p_str_body(s, i + 1) {
            Some((t, j)) => Some((seq![s[i]] + t, j)),
            None => None,
        }
    }
}

/// A quoted string starting at `i`.
pub open spec fn p_string(s: Seq<char>, i: int) -> Option<(Seq<char>, int)> {
    if 0 <= i < s.len() && s[i] == '"' {
        p_str_body(s, i + 1)
    } else {
        None
    }
}

/// Reading a string body inverts escaping: if the text at `i` is
/// `esc_rep(t)` followed by a quote, the body read is `t`.
pub proof fn lemma_p_str_body_inv(s: Seq<char>, i: int, t: Seq<char>)
    requires
        0 <= i,
        i + esc_rep(t).len() + 1 <= s.len(),
        s.subrange(i, i + esc_rep(t).len() as int) == esc_rep(t),
        s[i + esc_rep(t).len()] == '"',
    ensures
        p_str_body(s, i) == Some((t, i + esc_rep(t).len() + 1)),
    decreases t.len(),
{
    let l = esc_rep(t).len() as int;
    if t.len() == 0 {
        assert(s[i] == '"');
    } else {
        let c = t[0];
        let t1 = t.drop_first();
        let l1 = esc_rep(t1).len() as int;
        assert(esc_rep(t) == esc_char(c) + esc_rep(t1));
        assert(forall|k: int| i <= k < i + l ==> s[k] == esc_rep(t)[k - i]);
        if c == '"' || c == '\\' {
            assert(s[i] == '\\');
            assert(s[i + 1] == c);
            assert(s.subrange(i + 2, i + 2 + l1) =~= esc_rep(t1)) by {
                assert(forall|k: int| 0 <= k < l1 ==> esc_rep(t)[2 + k] == esc_rep(t1)[k]);
            }
            lemma_p_str_body_inv(s, i + 2, t1);
            assert(seq![s[i + 1]] + t1 =~= t);
        } else {
            assert(s[i] == c);
            assert(s[i] != '"' && s[i] != '\\');
            assert(s.subrange(i + 1, i + 1 + l1) =~= esc_rep(t1)) by {
                assert(forall|k: int| 0 <= k < l1 ==> esc_rep(t)[1 + k] == esc_rep(t1)[k]);
            }
            lemma_p_str_body_inv(s, i + 1, t1);
            assert(seq![s[i]] + t1 =~= t);
        }
    }
}

/// Reading a quoted string inverts printing one.
pub proof fn lemma_p_string_inv(s: Seq<char>, i: int, t: Seq<char>)
    requires
        0 <= i,
        i + str_rep(t).len() <= s.len(),
        s.subrange(i, i + str_rep(t).len() as int) == str_rep(t),
    ensures
        p_string(s, i) == Some((t, i + str_rep(t).len() as int)),
{
    let l = esc_rep(t).len() as int;
    assert(forall|k: int| i <= k < i + l + 2 ==> s[k] == str_rep(t)[k - i]);
    assert(s[i] == '"');
    assert(s.subrange(i + 1, i + 1 + l) =~= esc_rep(t)) by {
        assert(forall|k: int| 0 <= k < l ==> str_rep(t)[1 + k] == esc_rep(t)[k]);
    }
    assert(s[i + 1 + l] == str_rep(t)[1 + l]);
    lemma_p_str_body_inv(s, i + 1, t);
}

// ---------------------------------------------------------------------------
// Executable parsers
// ---------------------------------------------------------------------------

/// Digit test on a character.
pub fn is_digit_char(c: char) -> (r: bool)
    ensures
        r == is_digit(c),
{
    '0' <= c && c <= '9'
}

/// Scans to the end of the digit run starting at `i`.
pub fn scan_digits(s: &str, i: usize) -> (j: usize)
    requires
        i <= s@.len(),
    ensures
        j == run_end(s@, i as int),
        i <= j <= s@.len(),
{
    let n: usize = s.unicode_len();
    let mut j: usize = i;
    while j < n && is_digit_char(s.get_char(j))
        invariant
            i <= j <= n,
            n == s@.len(),
            run_end(s@, i as int) == run_end(s@, j as int),
        decreases n - j,
    {
        j = j + 1;
    }
    proof {
        lemma_run_end_shape(s@, j as int);
    }
    j
}

/// Reads an unsigned number, following `p_nat`.
pub fn parse_nat(s: &str, i: usize) -> (r: Option<(u64, usize)>)
    requires
        i <= s@.len(),
    ensures
        match r {
            Some((v, j)) => p_nat(s@, i as int) == Some((v as int, j as int)) && i < j <= s@.len(),
            None => p_nat(s@, i as int) is None,
        },
{
    let j = scan_digits(s, i);
    proof {
        lemma_run_end_shape(s@, i as int);
    }
    if j == i || j - i > 10 {
        return None;
    }
    let ghost d = s@.subrange(i as int, j as int);
    proof {
        lemma_val_of_digits_bound(d);
        lemma_pow10_10();
        assert(pow10(d.len()) <= pow10(10)) by {
            lemma_pow10_monotone(d.len(), 10);
        }
    }
    let mut v: u64 = 0;
    let mut k: usize = i;
    while k < j
        invariant
            i <= k <= j <= s@.len(),
            d == s@.subrange(i as int, j as int),
            j - i <= 10,
            v == val_of_digits(s@.subrange(i as int, k as int)),
            v < pow10((k - i) as nat),
            forall|m: int| i <= m < j ==> is_digit(#[trigger] s@[m]),
        decreases j - k,
    {
        let c = s.get_char(k);
        let dv: u64 = (c as u32) as u64 - ('0' as u32) as u64;
        proof {
            assert(is_digit(s@[k as int]));
            assert(dv == digit_val(c));
            assert(s@.subrange(i as int, k as int + 1).drop_last() =~= s@.subrange(
                i as int,
                k as int,
            ));
            assert(pow10(((k + 1) - i) as nat) == 10 * pow10((k - i) as nat));
            assert(pow10((k - i) as nat) <= pow10(9)) by {
                lemma_pow10_monotone((k - i) as nat, 9);
            }
            lemma_pow10_10();
        }
        v = v * 10 + dv;
        k = k + 1;
    }
    proof {
        assert(s@.subrange(i as int, j as int) =~= d);
    }
    Some((v, j))
}

/// `pow10` is monotone.
pub proof fn lemma_pow10_monotone(a: nat, b: nat)
    requires
        a <= b,
    ensures
        pow10(a) <= pow10(b),
    decreases b,
{
    if a < b {
        lemma_pow10_monotone(a, (b - 1) as nat);
        assert(pow10(b) == 10 * pow10((b - 1) as nat));
    }
}

/// Reads a signed 32-bit number, following `p_i32`.
pub fn parse_i32(s: &str, i: usize) -> (r: Option<(i32, usize)>)
    requires
        i <= s@.len(),
    ensures
        match r {
            Some((v, j)) => p_i32(s@, i as int) == Some((v as int, j as int)) && i < j <= s@.len(),
            None => p_i32(s@, i as int) is None,
        },
{
    let n: usize = s.unicode_len();
    if i < n && s.get_char(i) == '-' {
        match parse_nat(s, i + 1) {
            Some((v, j)) => {
                if v <= 0x8000_0000 {
                    let w: i64 = -(v as i64);
                    Some((w as i32, j))
                } else {
                    None
                }
            },
            None => None,
        }
    } else {
        match parse_nat(s, i) {
            Some((v, j)) => {
                if v <= 0x7fff_ffff {
                    Some((v as i32, j))
                } else {
                    None
                }
            },
            None => None,
        }
    }
}

/// Checks for the fixed text `lit` at position `i`, following `p_lit`.
pub fn parse_lit(s: &str, i: usize, lit: &str) -> (r: Option<usize>)
    requires
        i <= s@.len(),
    ensures
        match r {
            Some(j) => p_lit(s@, i as int, lit@) == Some(j as int) && i <= j <= s@.len(),
            None => p_lit(s@, i as int, lit@) is None,
        },
{
    let n: usize = s.unicode_len();
    let m: usize = lit.unicode_len();
    if m > n - i {
        return None;
    }
    let mut k: usize = 0;
    while k < m
        invariant
            k <= m,
            i + m <= n,
            n == s@.len(),
            m == lit@.len(),
            forall|q: int| 0 <= q < k ==> s@[i + q] == lit@[q],
        decreases m - k,
    {
        if s.get_char(i + k) != lit.get_char(k) {
            proof {
                assert(s@.subrange(i as int, i as int + m)[k as int] != lit@[k as int]);
            }
            return None;
        }
        k = k + 1;
    }
    proof {
        assert(s@.subrange(i as int, i as int + m) =~= lit@);
    }
    Some(i + m)
}

/// Reads a quoted string, following `p_string`.
pub fn parse_string(s: &str, i: usize) -> (r: Option<(String, usize)>)
    requires
        i <= s@.len(),
    ensures
        match r {
            Some((t, j)) => p_string(s@, i as int) == Some((t@, j as int)) && i < j <= s@.len(),
            None => p_string(s@, i as int) is None,
        },
{
    let n: usize = s.unicode_len();
    if i >= n || s.get_char(i) != '"' {
        return None;
    }
    let mut acc = String::new();
    let mut k: usize = i + 1;
    proof {
        assert(Seq::<char>::empty() + Seq::<char>::empty() =~= Seq::<char>::empty());
    }
    loop
        invariant
            i + 1 <= k <= n,
            i < n,
            n == s@.len(),
            s@[i as int] == '"',
            match p_str_body(s@, k as int) {
                Some((t, j)) => p_str_body(s@, i + 1) == Some((acc@ + t, j)),
                None => p_str_body(s@, i + 1) is None,
            },
        decreases n - k,
    {
        if k >= n {
            return None;
        }
        let c = s.get_char(k);
        if c == '"' {
            proof {
                assert(acc@ + Seq::<char>::empty() =~= acc@);
            }
            return Some((acc, k + 1));
        } else if c == '\\' {
            if k + 1 >= n {
                return None;
            }
            let ghost acc0 = acc@;
            let piece = s.substring_char(k + 1, k + 2);
            proof {
                assert(piece@ =~= seq![s@[k as int + 1]]);
            }
            acc.append(piece);
            proof {
                match p_str_body(s@, k as int + 2) {
                    Some((t, j)) => {
                        assert(acc@ + t =~= acc0 + (seq![s@[k as int + 1]] + t));
                    },
                    None => {},
                }
            }
            k = k + 2;
        } else {
            let ghost acc0 = acc@;
            let piece = s.substring_char(k, k + 1);
            proof {
                assert(piece@ =~= seq![s@[k as int]]);
            }
            acc.append(piece);
            proof {
                match p_str_body(s@, k as int + 1) {
                    Some((t, j)) => {
                        assert(acc@ + t =~= acc0 + (seq![s@[k as int]] + t));
                    },
                    None => {},
                }
            }
            k = k + 1;
        }
    }
}

/// Appends the escaped form of `t` to `out`.
pub fn append_escaped(out: &mut String, t: &str)
    ensures
        final(out)@ == old(out)@ + esc_rep(t@),
{
    let n: usize = t.unicode_len();
    let mut i: usize = 0;
    proof {
        assert(t@.take(0) =~= Seq::<char>::empty());
        assert(out@ + Seq::<char>::empty() =~= out@);
    }
    while i < n
        invariant
            i <= n,
            n == t@.len(),
            out@ == old(out)@ + esc_rep(t@.take(i as int)),
        decreases n - i,
    {
        let c = t.get_char(i);
        if c == '"' {
            out.append("\\\"");
            proof {
                reveal_strlit("\\\"");
                assert("\\\""@ =~= seq!['\\', '"']);
            }
        } else if c == '\\' {
            out.append("\\\\");
            proof {
                reveal_strlit("\\\\");
                assert("\\\\"@ =~= seq!['\\', '\\']);
            }
        } else {
            let piece = t.substring_char(i, i + 1);
            proof {
                assert(piece@ =~= seq![t@[i as int]]);
            }
            out.append(piece);
        }
        proof {
            lemma_esc_rep_snoc(t@, i as int);
            assert(out@ =~= old(out)@ + esc_rep(t@.take(i as int + 1)));
        }
        i = i + 1;
    }
    proof {
        assert(t@.take(n as int) =~= t@);
    }
}

/// Appends `t` as a quoted, escaped JSON string.
pub fn append_quoted(out: &mut String, t: &str)
    ensures
        final(out)@ == old(out)@ + str_rep(t@),
{
    out.append("\"");
    append_escaped(out, t);
    out.append("\"");
    proof {
        reveal_strlit("\"");
        assert("\""@ =~= seq!['"']);
        assert(old(out)@ + seq!['"'] + esc_rep(t@) + seq!['"'] =~= old(out)@ + str_rep(t@));
    }
}

} // verus!
