//! Decimal integers and the textual float grammar of the header.
//!
//! Integers appear in note lines, line breaks, duet markers and the YEAR tag;
//! they are read and written here together with the proofs that reading back
//! a written number returns the original value. The numeric header tags (BPM,
//! GAP, VIDEOGAP) keep their value as text; [`float_syntax`] is the exact set
//! of strings that parse as a floating-point number, which is a purely
//! grammatical question: out-of-range values clamp instead of failing.

use vstd::prelude::*;

use crate::text::digit_run;
use crate::text::digit_run_exec;
use crate::text::is_digit;

verus! {

/// Numeric value of a decimal digit character.
pub open spec fn digit_val(c: char) -> int {
    c as int - '0' as int
}

/// Every character of `s` is a decimal digit.
pub open spec fn all_digits(s: Seq<char>) -> bool {
    forall|i: int| 0 <= i < s.len() ==> is_digit(#[trigger] s[i])
}

/// Value of a run of decimal digits, most significant first.
pub open spec fn digits_val(s: Seq<char>) -> int
    decreases s.len(),
{
    if s.len() == 0 {
        0
    } else {
        digits_val(s.drop_last()) * 10 + digit_val(s.last())
    }
}

/// Shape of an optionally negated digit run: `-?[0-9]+`.
pub open spec fn is_int_shape(s: Seq<char>) -> bool {
    if s.len() > 0 && s[0] == '-' {
        s.len() >= 2 && all_digits(s.skip(1))
    } else {
        s.len() >= 1 && all_digits(s)
    }
}

/// The value fits a 32-bit signed integer.
pub open spec fn fits_i32(v: int) -> bool {
    -0x8000_0000 <= v <= 0x7fff_ffff
}

/// Value of an optionally negated digit run.
pub open spec fn int_val(s: Seq<char>) -> int {
    if s.len() > 0 && s[0] == '-' {
        -digits_val(s.skip(1))
    } else {
        digits_val(s)
    }
}

pub proof fn lemma_digits_val_nonneg(s: Seq<char>)
    requires
        all_digits(s),
    ensures
        digits_val(s) >= 0,
    decreases s.len(),
{
    if s.len() > 0 {
        assert(all_digits(s.drop_last())) by {
            assert(forall|i: int|
                0 <= i < s.len() - 1 ==> is_digit(#[trigger] s.drop_last()[i]) == is_digit(s[i]));
        }
        lemma_digits_val_nonneg(s.drop_last());
        assert(digit_val(s.last()) >= 0);
    }
}

/// Appending one digit multiplies the value by ten and adds the digit.
pub proof fn lemma_digits_val_take_step(s: Seq<char>, k: int)
    requires
        0 <= k < s.len(),
    ensures
        digits_val(s.take(k + 1)) == digits_val(s.take(k)) * 10 + digit_val(s[k]),
{
    assert(s.take(k + 1).drop_last() =~= s.take(k));
    assert(s.take(k + 1).last() == s[k]);
}

/// Read `-?[0-9]+` as an `i32`; `None` exactly when the value does not fit.
pub fn parse_i32(s: &str) -> (r: Option<i32>)
    requires
        is_int_shape(s@),
    ensures
        match r {
            Some(v) => v as int == int_val(s@),
            None => !(-0x8000_0000 <= int_val(s@) <= 0x7fff_ffff),
        },
{
    let n = s.unicode_len();
    let neg = s.get_char(0) == '-';
    let start: usize = if neg {
        1
    } else {
        0
    };
    let ghost ds = if neg {
        s@.skip(1)
    } else {
        s@
    };
    proof {
        assert(ds =~= s@.subrange(start as int, n as int));
    }
    let mut i = start;
    let mut mag: u64 = 0;
    let mut big = false;
    while i < n
        invariant
            n == s@.len(),
            start <= i <= n,
            ds == s@.subrange(start as int, n as int),
            all_digits(ds),
            ds.len() >= 1,
            !big ==> mag <= 0xffff_ffff && mag == digits_val(ds.take(i - start)),
            big ==> digits_val(ds.take(i - start)) > 0xffff_ffff,
        decreases n - i,
    {
        let c = s.get_char(i);
        proof {
            assert(ds[i - start] == s@[i as int]);
            lemma_digits_val_take_step(ds, i - start);
        }
        if !big {
            let d = (c as u32) - 0x30;
            proof {
                assert(is_digit(ds[i - start]));
                assert(d == digit_val(ds[i - start]));
            }
            mag = mag * 10 + (d as u64);
            if mag > 0xffff_ffff {
                big = true;
            }
        } else {
            proof {
                assert(all_digits(ds.take(i - start))) by {
                    assert(forall|k: int|
                        0 <= k < i - start ==> is_digit(#[trigger] ds.take(i - start)[k])
                            == is_digit(ds[k]));
                }
                lemma_digits_val_nonneg(ds.take(i - start));
            }
        }
        i += 1;
    }
    proof {
        assert(ds.take(n - start) =~= ds);
    }
    if big {
        proof {
            if neg {
                assert(int_val(s@) == -digits_val(ds));
            }
        }
        return None;
    }
    if neg {
        if mag > 0x8000_0000 {
            None
        } else {
            Some((-(mag as i64)) as i32)
        }
    } else {
        if mag > 0x7fff_ffff {
            None
        } else {
            Some(mag as i32)
        }
    }
}

/// Shape the YEAR tag accepts: `\+?[0-9]+`.
pub open spec fn is_u32_shape(s: Seq<char>) -> bool {
    u32_body(s).len() >= 1 && all_digits(u32_body(s))
}

/// The digit run of a YEAR value, with an optional leading plus sign removed.
pub open spec fn u32_body(s: Seq<char>) -> Seq<char> {
    if s.len() > 0 && s[0] == '+' {
        s.skip(1)
    } else {
        s
    }
}

/// Read a `u32` the way the YEAR tag does: an optional `+`, then digits;
/// `None` on any other shape and on values that do not fit.
pub fn parse_u32(s: &str) -> (r: Option<u32>)
    ensures
        match r {
            Some(v) => is_u32_shape(s@) && v as int == digits_val(u32_body(s@)) && digits_val(
                u32_body(s@),
            ) <= 0xffff_ffff,
            None => !is_u32_shape(s@) || digits_val(u32_body(s@)) > 0xffff_ffff,
        },
{
    let n = s.unicode_len();
    if n == 0 {
        return None;
    }
    let start: usize = if s.get_char(0) == '+' {
        1
    } else {
        0
    };
    let ghost ds = u32_body(s@);
    proof {
        assert(ds =~= s@.subrange(start as int, n as int));
    }
    if n == start {
        return None;
    }
    let mut i = start;
    let mut mag: u64 = 0;
    let mut big = false;
    while i < n
        invariant
            n == s@.len(),
            start <= i <= n,
            ds == s@.subrange(start as int, n as int),
            ds == u32_body(s@),
            forall|k: int| 0 <= k < i - start ==> is_digit(#[trigger] ds[k]),
            !big ==> mag <= 0xffff_ffff && mag == digits_val(ds.take(i - start)),
            big ==> digits_val(ds.take(i - start)) > 0xffff_ffff,
        decreases n - i,
    {
        let c = s.get_char(i);
        proof {
            assert(ds[i - start] == s@[i as int]);
        }
        if !(c >= '0' && c <= '9') {
            proof {
                assert(!is_digit(ds[i - start]));
                assert(!is_u32_shape(s@));
            }
            return None;
        }
        proof {
            lemma_digits_val_take_step(ds, i - start);
        }
        if !big {
            let d = (c as u32) - 0x30;
            mag = mag * 10 + (d as u64);
            if mag > 0xffff_ffff {
                big = true;
            }
        } else {
            proof {
                assert(all_digits(ds.take(i - start))) by {
                    assert(forall|k: int|
                        0 <= k < i - start ==> is_digit(#[trigger] ds.take(i - start)[k])
                            == is_digit(ds[k]));
                }
                lemma_digits_val_nonneg(ds.take(i - start));
            }
        }
        i += 1;
    }
    proof {
        assert(ds.take(n - start) =~= ds);
        assert(is_u32_shape(s@));
    }
    if big {
        None
    } else if mag > 0xffff_ffff {
        None
    } else {
        Some(mag as u32)
    }
}

/// Decimal digit characters of `n`, most significant first, no leading zero.
pub open spec fn dec_digits(n: nat) -> Seq<char>
    decreases n,
{
    if n < 10 {
        seq![digit_of(n % 10)]
    } else {
        dec_digits(n / 10).push(digit_of(n % 10))
    }
}

/// The digit character for a value below ten.
pub open spec fn digit_of(n: nat) -> char {
    if n == 0 {
        '0'
    } else if n == 1 {
        '1'
    } else if n == 2 {
        '2'
    } else if n == 3 {
        '3'
    } else if n == 4 {
        '4'
    } else if n == 5 {
        '5'
    } else if n == 6 {
        '6'
    } else if n == 7 {
        '7'
    } else if n == 8 {
        '8'
    } else {
        '9'
    }
}

/// Decimal text of a signed value: a minus sign for negatives, then digits.
pub open spec fn int_str(v: int) -> Seq<char> {
    if v < 0 {
        seq!['-'] + dec_digits((-v) as nat)
    } else {
        dec_digits(v as nat)
    }
}

/// Append one digit character to a string.
pub fn push_digit(out: &mut String, d: u64)
    requires
        d < 10,
    ensures
        final(out)@ == old(out)@.push(digit_of(d as nat)),
{
    proof {
        reveal_strlit("0");
        reveal_strlit("1");
        reveal_strlit("2");
        reveal_strlit("3");
        reveal_strlit("4");
        reveal_strlit("5");
        reveal_strlit("6");
        reveal_strlit("7");
        reveal_strlit("8");
        reveal_strlit("9");
    }
    if d == 0 {
        out.append("0");
    } else if d == 1 {
        out.append("1");
    } else if d == 2 {
        out.append("2");
    } else if d == 3 {
        out.append("3");
    } else if d == 4 {
        out.append("4");
    } else if d == 5 {
        out.append("5");
    } else if d == 6 {
        out.append("6");
    } else if d == 7 {
        out.append("7");
    } else if d == 8 {
        out.append("8");
    } else {
        out.append("9");
    }
    proof {
        assert(out@ =~= old(out)@.push(digit_of(d as nat)));
    }
}

/// Append the decimal digits of `n` to a string.
pub fn push_u64(out: &mut String, n: u64)
    ensures
        final(out)@ == old(out)@ + dec_digits(n as nat),
    decreases n,
{
    if n >= 10 {
        push_u64(out, n / 10);
    }
    push_digit(out, n % 10);
    proof {
        assert(out@ =~= old(out)@ + dec_digits(n as nat));
    }
}

/// Append the decimal text of a signed 32-bit value to a string.
pub fn push_i32(out: &mut String, v: i32)
    ensures
        final(out)@ == old(out)@ + int_str(v as int),
{
    if v < 0 {
        proof {
            reveal_strlit("-");
        }
        out.append("-");
        let m = (-(v as i64)) as u64;
        push_u64(out, m);
        proof {
            assert(out@ =~= old(out)@ + int_str(v as int));
        }
    } else {
        push_u64(out, v as u64);
    }
}

pub proof fn lemma_dec_digits_shape(n: nat)
    ensures
        dec_digits(n).len() >= 1,
        all_digits(dec_digits(n)),
        dec_digits(n)[0] != '-',
        digits_val(dec_digits(n)) == n,
    decreases n,
{
    if n < 10 {
        let s = seq![digit_of(n % 10)];
        assert(dec_digits(n) == s);
        assert(s.drop_last() =~= Seq::<char>::empty());
        assert(s.last() == digit_of(n));
        assert(digits_val(Seq::<char>::empty()) == 0);
        assert(digits_val(s) == digits_val(s.drop_last()) * 10 + digit_val(s.last()));
        assert(digits_val(s) == digit_val(digit_of(n)));
        assert(digit_val(digit_of(n)) == n);
    } else {
        lemma_dec_digits_shape(n / 10);
        let d = dec_digits(n / 10);
        let w = d.push(digit_of(n % 10));
        assert(w.drop_last() =~= d);
        assert(w.last() == digit_of(n % 10));
        assert(digit_val(digit_of(n % 10)) == n % 10);
        assert(forall|i: int| 0 <= i < w.len() - 1 ==> #[trigger] w[i] == d[i]);
        assert(digits_val(w) == (n / 10) * 10 + n % 10);
    }
}

/// Reading back the written text of a signed value returns the value.
pub proof fn lemma_int_str_roundtrip(v: int)
    requires
        -0x8000_0000 <= v <= 0x7fff_ffff,
    ensures
        is_int_shape(int_str(v)),
        int_val(int_str(v)) == v,
{
    if v < 0 {
        lemma_dec_digits_shape((-v) as nat);
        let s = int_str(v);
        assert(s[0] == '-');
        assert(s.skip(1) =~= dec_digits((-v) as nat));
    } else {
        lemma_dec_digits_shape(v as nat);
        let s = int_str(v);
        assert(is_digit(s[0]));
        assert(s[0] != '-');
    }
}

/// One of the two spellings of a letter that is matched without regard to case.
pub open spec fn ci(c: char, low: char, up: char) -> bool {
    c == low || c == up
}

/// `inf`, in any mixture of case, filling `s` from `p` to the end.
pub open spec fn is_word_inf(s: Seq<char>, p: int) -> bool {
    s.len() - p == 3 && ci(s[p], 'i', 'I') && ci(s[p + 1], 'n', 'N') && ci(s[p + 2], 'f', 'F')
}

/// `infinity`, in any mixture of case, filling `s` from `p` to the end.
pub open spec fn is_word_infinity(s: Seq<char>, p: int) -> bool {
    s.len() - p == 8 && ci(s[p], 'i', 'I') && ci(s[p + 1], 'n', 'N') && ci(s[p + 2], 'f', 'F')
        && ci(s[p + 3], 'i', 'I') && ci(s[p + 4], 'n', 'N') && ci(s[p + 5], 'i', 'I') && ci(
        s[p + 6],
        't',
        'T',
    ) && ci(s[p + 7], 'y', 'Y')
}

/// `nan`, in any mixture of case, filling `s` from `p` to the end.
pub open spec fn is_word_nan(s: Seq<char>, p: int) -> bool {
    s.len() - p == 3 && ci(s[p], 'n', 'N') && ci(s[p + 1], 'a', 'A') && ci(s[p + 2], 'n', 'N')
}

/// An exponent part filling `s` from `p` to the end, or nothing at all:
/// `([eE][+-]?[0-9]+)?` anchored at both ends.
pub open spec fn float_exp_or_end(s: Seq<char>, p: int) -> bool {
    if p == s.len() {
        true
    } else if s[p] == 'e' || s[p] == 'E' {
        let q = if p + 1 < s.len() && (s[p + 1] == '+' || s[p + 1] == '-') {
            p + 2
        } else {
            p + 1
        };
        digit_run(s, q) > q && digit_run(s, q) == s.len()
    } else {
        false
    }
}

/// A decimal number with optional fraction and exponent, from `p` to the end:
/// either digits, an optional dot, optional further digits and an optional
/// exponent, or a dot followed by digits and an optional exponent.
pub open spec fn is_float_number(s: Seq<char>, p: int) -> bool {
    let k1 = digit_run(s, p);
    if k1 > p {
        if k1 < s.len() && s[k1] == '.' {
            float_exp_or_end(s, digit_run(s, k1 + 1))
        } else {
            float_exp_or_end(s, k1)
        }
    } else {
        p < s.len() && s[p] == '.' && digit_run(s, p + 1) > p + 1 && float_exp_or_end(
            s,
            digit_run(s, p + 1),
        )
    }
}

/// The exact set of strings accepted as a floating-point number: an optional
/// sign, then `inf`, `infinity`, `nan` (case-insensitive) or a decimal number.
/// Acceptance is purely grammatical; out-of-range values clamp, they do not
/// fail.
pub open spec fn float_syntax(s: Seq<char>) -> bool {
    let p: int = if s.len() > 0 && (s[0] == '+' || s[0] == '-') {
        1
    } else {
        0
    };
    is_word_inf(s, p) || is_word_infinity(s, p) || is_word_nan(s, p) || is_float_number(s, p)
}

/// Decide [`float_syntax`].
pub fn float_check(s: &str) -> (b: bool)
    ensures
        b == float_syntax(s@),
{
    let n = s.unicode_len();
    let p: usize = if n > 0 && (s.get_char(0) == '+' || s.get_char(0) == '-') {
        1
    } else {
        0
    };
    // the three case-insensitive words
    if n - p == 3 {
        let c0 = s.get_char(p);
        let c1 = s.get_char(p + 1);
        let c2 = s.get_char(p + 2);
        if (c0 == 'i' || c0 == 'I') && (c1 == 'n' || c1 == 'N') && (c2 == 'f' || c2 == 'F') {
            return true;
        }
        if (c0 == 'n' || c0 == 'N') && (c1 == 'a' || c1 == 'A') && (c2 == 'n' || c2 == 'N') {
            return true;
        }
    }
    if n - p == 8 {
        let c0 = s.get_char(p);
        let c1 = s.get_char(p + 1);
        let c2 = s.get_char(p + 2);
        let c3 = s.get_char(p + 3);
        let c4 = s.get_char(p + 4);
        let c5 = s.get_char(p + 5);
        let c6 = s.get_char(p + 6);
        let c7 = s.get_char(p + 7);
        if (c0 == 'i' || c0 == 'I') && (c1 == 'n' || c1 == 'N') && (c2 == 'f' || c2 == 'F') && (c3
            == 'i' || c3 == 'I') && (c4 == 'n' || c4 == 'N') && (c5 == 'i' || c5 == 'I') && (c6
            == 't' || c6 == 'T') && (c7 == 'y' || c7 == 'Y') {
            return true;
        }
    }
    float_number_check(s, p)
}

/// Decide [`is_float_number`] at position `p`.
fn float_number_check(s: &str, p: usize) -> (b: bool)
    requires
        p <= s@.len(),
    ensures
        b == is_float_number(s@, p as int),
{
    let n = s.unicode_len();
    let k1 = digit_run_exec(s, p);
    if k1 > p {
        if k1 < n && s.get_char(k1) == '.' {
            let k2 = digit_run_exec(s, k1 + 1);
            float_exp_check(s, k2)
        } else {
            float_exp_check(s, k1)
        }
    } else {
        if p < n && s.get_char(p) == '.' {
            let k2 = digit_run_exec(s, p + 1);
            if k2 > p + 1 {
                float_exp_check(s, k2)
            } else {
                false
            }
        } else {
            false
        }
    }
}

/// Decide [`float_exp_or_end`] at position `p`.
fn float_exp_check(s: &str, p: usize) -> (b: bool)
    requires
        p <= s@.len(),
    ensures
        b == float_exp_or_end(s@, p as int),
{
    let n = s.unicode_len();
    if p == n {
        return true;
    }
    let c = s.get_char(p);
    if !(c == 'e' || c == 'E') {
        return false;
    }
    let q: usize = if p + 1 < n {
        let c1 = s.get_char(p + 1);
        if c1 == '+' || c1 == '-' {
            p + 2
        } else {
            p + 1
        }
    } else {
        p + 1
    };
    let k = digit_run_exec(s, q);
    k > q && k == n
}

/// `s` with every comma turned into a dot, the leniency the numeric header
/// tags extend to a European decimal separator.
pub open spec fn subst_commas(s: Seq<char>) -> Seq<char> {
    s.map_values(|c: char| if c == ',' { '.' } else { c })
}

/// A string without commas is unchanged by [`subst_commas`].
pub proof fn lemma_subst_commas_id(s: Seq<char>)
    requires
        forall|i: int| 0 <= i < s.len() ==> #[trigger] s[i] != ',',
    ensures
        subst_commas(s) == s,
{
    assert(subst_commas(s) =~= s);
}

/// Build `s` with every comma turned into a dot.
pub fn replace_commas(s: &str) -> (r: String)
    ensures
        r@ == subst_commas(s@),
{
    let n = s.unicode_len();
    let mut out = String::new();
    let mut pos: usize = 0;
    while pos < n
        invariant
            n == s@.len(),
            pos <= n,
            out@ == subst_commas(s@.take(pos as int)),
        decreases n - pos,
    {
        let mut j = pos;
        while j < n && s.get_char(j) != ','
            invariant
                n == s@.len(),
                pos <= j <= n,
                forall|k: int| pos <= k < j ==> s@[k] != ',',
            decreases n - j,
        {
            j += 1;
        }
        out.append(s.substring_char(pos, j));
        if j < n {
            proof {
                reveal_strlit(".");
            }
            out.append(".");
            proof {
                assert(out@ =~= subst_commas(s@.take(j + 1)));
            }
            pos = j + 1;
        } else {
            proof {
                assert(out@ =~= subst_commas(s@.take(j as int)));
            }
            pos = j;
        }
    }
    proof {
        assert(s@.take(n as int) =~= s@);
    }
    out
}

} // verus!
