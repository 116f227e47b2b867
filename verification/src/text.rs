//! Character-level text helpers: literal matching, scanning, and the
//! decimal codec that version rendering and parsing are built on.

use vstd::prelude::*;

verus! {

/// `p` occurs in `s` starting at position `i`.
pub open spec fn prefix_at(s: Seq<char>, i: int, p: Seq<char>) -> bool {
    &&& 0 <= i
    &&& i + p.len() <= s.len()
    &&& forall|k: int| 0 <= k < p.len() ==> s[i + k] == p[k]
}

/// ASCII decimal digit.
pub open spec fn is_digit(c: char) -> bool {
    48 <= (c as int) <= 57
}

/// The value of a decimal digit.
pub open spec fn digit_val(c: char) -> nat {
    ((c as int) - 48) as nat
}

/// The digit character for a value below ten.
pub open spec fn digit_char(d: nat) -> char {
    (((48 + d) as u8) as char)
}

/// Every character of `s` is a decimal digit.
pub open spec fn all_digits(s: Seq<char>) -> bool {
    forall|k: int| 0 <= k < s.len() ==> is_digit(s[k])
}

/// The number denoted by a digit string, most significant digit first.
pub open spec fn digits_val(s: Seq<char>) -> nat
    decreases s.len(),
{
    if s.len() == 0 {
        0
    } else {
        digits_val(s.drop_last()) * 10 + digit_val(s.last())
    }
}

/// The canonical decimal rendering of `n`: no leading zeros.
pub open spec fn dec_chars(n: nat) -> Seq<char>
    decreases n,
{
    if n < 10 {
        seq![digit_char(n)]
    } else {
        dec_chars(n / 10).push(digit_char(n % 10))
    }
}

/// Ten to the `k`.
pub open spec fn pow10(k: nat) -> nat
    decreases k,
{
    if k == 0 {
        1
    } else {
        10 * pow10((k - 1) as nat)
    }
}

/// A digit string without a leading zero is at least ten to one less than
/// its length.
pub proof fn lemma_digits_val_lower(s: Seq<char>)
    requires
        all_digits(s),
        s.len() >= 1,
        s[0] != '0',
    ensures
        digits_val(s) >= pow10((s.len() - 1) as nat),
    decreases s.len(),
{
    if s.len() == 1 {
        assert(digits_val(s.drop_last()) == 0) by {
            assert(s.drop_last().len() == 0);
        }
        assert(digit_val(s[0]) >= 1);
    } else {
        assert(all_digits(s.drop_last()) && s.drop_last()[0] == s[0]) by {
            assert(forall|k: int| 0 <= k < s.len() - 1 ==> s.drop_last()[k] == s[k]);
        }
        lemma_digits_val_lower(s.drop_last());
        assert(digits_val(s.drop_last()) * 10 >= pow10((s.len() - 2) as nat) * 10)
            by (nonlinear_arith)
            requires
                digits_val(s.drop_last()) >= pow10((s.len() - 2) as nat),
        ;
        assert(pow10((s.len() - 1) as nat) == 10 * pow10((s.len() - 2) as nat));
    }
}

/// A canonical digit string — nonempty, digits only, no leading zero —
/// is exactly the rendering of its value.
pub proof fn lemma_canonical_digits(s: Seq<char>)
    requires
        all_digits(s),
        s.len() >= 1,
        s.len() > 1 ==> s[0] != '0',
    ensures
        dec_chars(digits_val(s)) == s,
    decreases s.len(),
{
    if s.len() == 1 {
        assert(s.drop_last() =~= Seq::<char>::empty());
        assert(digits_val(s.drop_last()) == 0);
        assert(s.last() == s[0]);
        assert(digits_val(s) == digit_val(s[0]));
        assert(is_digit(s[0]));
        let c = s[0];
        assert((((48 + digit_val(c)) as u8) as char) == c) by {
            assert((c as int) == 48 + digit_val(c));
            assert((((c as int)) as u8) as char == c);
        }
        assert(digits_val(s) < 10);
        assert(dec_chars(digits_val(s)) =~= s);
    } else {
        let hd = s.drop_last();
        assert(all_digits(hd) && hd[0] == s[0]) by {
            assert(forall|k: int| 0 <= k < s.len() - 1 ==> hd[k] == s[k]);
        }
        lemma_canonical_digits(hd);
        lemma_digits_val_lower(hd);
        let d = digit_val(s.last());
        let v = digits_val(s);
        assert(v == digits_val(hd) * 10 + d);
        assert(digits_val(hd) >= 1) by {
            assert(pow10((hd.len() - 1) as nat) >= 1) by {
                lemma_pow10_pos((hd.len() - 1) as nat);
            }
        }
        assert(v >= 10) by (nonlinear_arith)
            requires
                v == digits_val(hd) * 10 + d,
                digits_val(hd) >= 1,
                d >= 0,
        ;
        assert(v / 10 == digits_val(hd) && v % 10 == d) by (nonlinear_arith)
            requires
                v == digits_val(hd) * 10 + d,
                0 <= d < 10,
        ;
        assert(d < 10) by {
            assert(is_digit(s.last()));
        }
        assert(dec_chars(v) == dec_chars(digits_val(hd)).push(digit_char(d)));
        let c = s.last();
        assert((((48 + d) as u8) as char) == c) by {
            assert((c as int) == 48 + d);
            assert((((c as int)) as u8) as char == c);
        }
        assert(dec_chars(v) =~= s);
    }
}

/// Ten to any power is positive.
proof fn lemma_pow10_pos(k: nat)
    ensures
        pow10(k) >= 1,
    decreases k,
{
    if k > 0 {
        lemma_pow10_pos((k - 1) as nat);
    }
}

/// The canonical rendering consists of digits, is nonempty, starts with a
/// nonzero digit unless the value is zero, denotes the value back, and is
/// no longer than twenty digits for values that fit in 64 bits.
pub proof fn lemma_dec_chars(n: nat)
    ensures
        dec_chars(n).len() >= 1,
        all_digits(dec_chars(n)),
        digits_val(dec_chars(n)) == n,
        n > 0 ==> dec_chars(n)[0] != '0',
        dec_chars(n)[0] == '0' ==> n == 0,
        n < pow10(20) ==> dec_chars(n).len() <= 20,
    decreases n,
{
    if n < 10 {
        assert(dec_chars(n) =~= seq![digit_char(n)]);
        assert((((48 + n) as u8) as char) as int == 48 + n);
        assert(digit_val(digit_char(n)) == n);
        assert(dec_chars(n).drop_last() =~= Seq::<char>::empty());
        assert(dec_chars(n).last() == digit_char(n));
        assert(digits_val(Seq::<char>::empty()) == 0);
        assert(digits_val(dec_chars(n)) == digits_val(dec_chars(n).drop_last()) * 10 + digit_val(
            dec_chars(n).last(),
        ));
    } else {
        lemma_dec_chars(n / 10);
        let prefix = dec_chars(n / 10);
        assert(dec_chars(n) =~= prefix.push(digit_char((n % 10) as nat)));
        assert(dec_chars(n).drop_last() =~= prefix);
        let d = (n % 10) as nat;
        assert((((48 + d) as u8) as char) as int == 48 + d);
        assert(digit_val(digit_char(d)) == d);
        assert(digits_val(dec_chars(n)) == (n / 10) * 10 + n % 10);
        assert((n / 10) * 10 + n % 10 == n) by (nonlinear_arith);
        assert(dec_chars(n)[0] == prefix[0]);
        if n < pow10(20) {
            assert(n / 10 < pow10(19)) by {
                lemma_pow10_div(n, 20);
            }
            lemma_dec_len(n / 10, 19);
        }
    }
}

/// Dividing a bounded value by ten lowers the bounding power of ten.
proof fn lemma_pow10_div(n: nat, k: nat)
    requires
        k >= 1,
        n < pow10(k),
    ensures
        n / 10 < pow10((k - 1) as nat),
{
    assert(pow10(k) == 10 * pow10((k - 1) as nat));
    assert(n / 10 < pow10((k - 1) as nat)) by (nonlinear_arith)
        requires
            n < 10 * pow10((k - 1) as nat),
    ;
}

/// The canonical rendering of a value below ten to the `k` has at most `k`
/// digits.
proof fn lemma_dec_len(n: nat, k: nat)
    requires
        n < pow10(k),
        k >= 1,
    ensures
        dec_chars(n).len() <= k,
    decreases n,
{
    if n < 10 {
    } else {
        assert(k >= 2) by {
            if k == 1 {
                assert(pow10(1nat) == 10);
            }
        }
        lemma_pow10_div(n, k);
        lemma_dec_len(n / 10, (k - 1) as nat);
    }
}

/// Appends one digit character to `out`.
fn push_digit(out: &mut String, d: u8)
    requires
        d < 10,
    ensures
        final(out)@ == old(out)@ + seq![digit_char(d as nat)],
{
    proof {
        reveal_strlit("0");
        reveal_strlit("1");
        reveal_strlit("2");
        reveal_strlit("3");
        reveal_strlit("4");
        reveal_strlit("5");
        reveal_strlit("6");
        reveal_strlit("7");
        reveal_strlit("8");
        reveal_strlit("9");
    }
    match d {
        0 => out.append("0"),
        1 => out.append("1"),
        2 => out.append("2"),
        3 => out.append("3"),
        4 => out.append("4"),
        5 => out.append("5"),
        6 => out.append("6"),
        7 => out.append("7"),
        8 => out.append("8"),
        _ => out.append("9"),
    }
    proof {
        assert(final(out)@ =~= old(out)@ + seq![digit_char(d as nat)]);
    }
}

/// Appends the canonical decimal rendering of `n` to `out`.
pub fn push_decimal(out: &mut String, n: u64)
    ensures
        final(out)@ == old(out)@ + dec_chars(n as nat),
    decreases n,
{
    if n >= 10 {
        push_decimal(out, n / 10);
    }
    push_digit(out, (n % 10) as u8);
    proof {
        if n >= 10 {
            assert(dec_chars(n as nat) =~= dec_chars((n as nat) / 10).push(
                digit_char(((n as nat) % 10) as nat),
            ));
            assert(final(out)@ =~= old(out)@ + dec_chars(n as nat));
        } else {
            assert(dec_chars(n as nat) =~= seq![digit_char(n as nat)]);
            assert(final(out)@ =~= old(out)@ + dec_chars(n as nat));
        }
    }
}

/// A whole string is a canonically rendered 64-bit number: nonempty, all
/// digits, no leading zero, and in range.
pub open spec fn dec_ok(s: Seq<char>) -> bool {
    &&& s.len() >= 1
    &&& all_digits(s)
    &&& (s.len() > 1 ==> s[0] != '0')
    &&& digits_val(s) <= u64::MAX
}

/// Parses a whole string as a canonical decimal number.
pub fn parse_decimal(s: &str) -> (r: Option<u64>)
    ensures
        r == if dec_ok(s@) {
            Some(digits_val(s@) as u64)
        } else {
            None::<u64>
        },
{
    let n = s.unicode_len();
    if n == 0 || n > 20 {
        proof {
            if n > 20 && dec_ok(s@) {
                lemma_digits_val_lower(s@);
                lemma_pow10_mono(20, (s@.len() - 1) as nat);
                lemma_pow10_20();
            }
        }
        return None;
    }
    let first = s.get_char(0);
    if n > 1 && first == '0' {
        return None;
    }
    let mut acc: u128 = 0;
    let mut j: usize = 0;
    while j < n
        invariant
            0 <= j <= n,
            n == s@.len(),
            1 <= n <= 20,
            acc == digits_val(s@.subrange(0, j as int)),
            acc < pow10(j as nat),
            all_digits(s@.subrange(0, j as int)),
        decreases n - j,
    {
        let c = s.get_char(j);
        if !(c >= '0' && c <= '9') {
            proof {
                assert(!is_digit(s@[j as int]));
            }
            return None;
        }
        let d: u32 = (c as u32) - 48;
        proof {
            let pre = s@.subrange(0, j as int);
            let cur = s@.subrange(0, j + 1 as int);
            assert(cur.drop_last() =~= pre);
            assert(cur.last() == s@[j as int]);
            assert(acc * 10 + d < pow10((j + 1) as nat)) by (nonlinear_arith)
                requires
                    acc < pow10(j as nat),
                    d <= 9,
                    pow10((j + 1) as nat) == 10 * pow10(j as nat),
            ;
            lemma_pow10_mono((j + 1) as nat, 20);
            lemma_pow10_20();
        }
        acc = acc * 10 + (d as u128);
        j = j + 1;
    }
    proof {
        assert(s@.subrange(0, n as int) =~= s@);
    }
    if acc > u64::MAX as u128 {
        return None;
    }
    Some(acc as u64)
}

/// The value of ten to the twentieth, spelled out.
proof fn lemma_pow10_20()
    ensures
        pow10(20) == 0x56bc75e2d63100000,
{
    reveal_with_fuel(pow10, 21);
}

/// Powers of ten grow with the exponent.
proof fn lemma_pow10_mono(a: nat, b: nat)
    requires
        a <= b,
    ensures
        pow10(a) <= pow10(b),
    decreases b,
{
    if a < b {
        lemma_pow10_mono(a, (b - 1) as nat);
        assert(pow10(b) == 10 * pow10((b - 1) as nat));
    }
}

/// Whether the literal `lit` occurs in `s` at position `i`; `Some` carries
/// the position just past the match.
pub fn match_lit(s: &str, i: usize, lit: &str) -> (r: Option<usize>)
    requires
        i <= s@.len(),
    ensures
        match r {
            Some(j) => j == i + lit@.len() && prefix_at(s@, i as int, lit@),
            None => !prefix_at(s@, i as int, lit@),
        },
{
    let n = lit.unicode_len();
    let m = s.unicode_len();
    if n > m - i {
        return None;
    }
    let mut j: usize = 0;
    while j < n
        invariant
            0 <= j <= n,
            n == lit@.len(),
            m == s@.len(),
            i + n <= m,
            forall|k: int| 0 <= k < j ==> s@[i + k] == lit@[k],
        decreases n - j,
    {
        if s.get_char(i + j) != lit.get_char(j) {
            return None;
        }
        j = j + 1;
    }
    Some(i + n)
}

/// The position of the first occurrence of `c` in `s` at or after `i`.
pub fn scan_for(s: &str, i: usize, c: char) -> (r: Option<usize>)
    requires
        i <= s@.len(),
    ensures
        match r {
            Some(j) => i <= j < s@.len() && s@[j as int] == c && forall|k: int|
                i <= k < j ==> s@[k] != c,
            None => forall|k: int| i <= k < s@.len() ==> s@[k] != c,
        },
{
    let m = s.unicode_len();
    let mut j: usize = i;
    while j < m
        invariant
            i <= j <= m,
            m == s@.len(),
            forall|k: int| i <= k < j ==> s@[k] != c,
        decreases m - j,
    {
        if s.get_char(j) == c {
            return Some(j);
        }
        j = j + 1;
    }
    None
}

/// Whether `p` is a prefix of `s`.
pub fn starts_with(s: &str, p: &str) -> (r: bool)
    ensures
        r == prefix_at(s@, 0, p@),
{
    match match_lit(s, 0, p) {
        Some(_) => true,
        None => false,
    }
}

} // verus!
