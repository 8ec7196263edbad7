//! Text scanning and numeral formatting over character sequences.  The
//! specification functions here define, once, what it means to skip
//! whitespace, match a literal, and read a decimal or `0x`-prefixed
//! hexadecimal numeral; both the instruction-format parser and the
//! generated assembly codecs state their contracts in these terms.

use vstd::prelude::*;

verus! {

/// Whitespace, as the assembly and instruction-format grammars accept it.
pub open spec fn is_ws(c: char) -> bool {
    c == ' ' || c == '\t' || c == '\n' || c == '\r'
}

/// A decimal digit.
pub open spec fn is_digit(c: char) -> bool {
    48 <= c as u32 <= 57
}

/// A hexadecimal digit.
pub open spec fn is_hex_digit(c: char) -> bool {
    is_digit(c) || (97 <= c as u32 <= 102) || (65 <= c as u32 <= 70)
}

/// The numeric value of a decimal digit.
pub open spec fn digit_val(c: char) -> nat {
    (c as u32 - 48) as nat
}

/// The numeric value of a hexadecimal digit.
pub open spec fn hex_digit_val(c: char) -> nat {
    if is_digit(c) {
        digit_val(c)
    } else if 97 <= c as u32 <= 102 {
        (c as u32 - 87) as nat
    } else {
        (c as u32 - 55) as nat
    }
}

/// The character for a digit value below ten.
pub open spec fn digit_char(d: nat) -> char {
    if d == 0 {
        '0'
    } else if d == 1 {
        '1'
    } else if d == 2 {
        '2'
    } else if d == 3 {
        '3'
    } else if d == 4 {
        '4'
    } else if d == 5 {
        '5'
    } else if d == 6 {
        '6'
    } else if d == 7 {
        '7'
    } else if d == 8 {
        '8'
    } else {
        '9'
    }
}

/// The decimal numeral of `n`, most significant digit first.
pub open spec fn dec_digits(n: nat) -> Seq<char>
    decreases n,
{
    if n < 10 {
        seq![digit_char(n)]
    } else {
        dec_digits(n / 10).push(digit_char(n % 10))
    }
}

/// The first position at or after `i` holding a character that is not
/// whitespace, or the end of the sequence.
pub open spec fn skip_ws_end(s: Seq<char>, i: int) -> int
    decreases s.len() - i when 0 <= i <= s.len()
{
    if i < 0 || i >= s.len() {
        i
    } else if is_ws(s[i]) {
        skip_ws_end(s, i + 1)
    } else {
        i
    }
}

/// The first position at or after `i` holding a character that is not a
/// decimal digit, or the end of the sequence.
pub open spec fn digits_end(s: Seq<char>, i: int) -> int
    decreases s.len() - i when 0 <= i <= s.len()
{
    if i < 0 || i >= s.len() {
        i
    } else if is_digit(s[i]) {
        digits_end(s, i + 1)
    } else {
        i
    }
}

/// The first position at or after `i` holding a character that is not a
/// hexadecimal digit, or the end of the sequence.
pub open spec fn hex_digits_end(s: Seq<char>, i: int) -> int
    decreases s.len() - i when 0 <= i <= s.len()
{
    if i < 0 || i >= s.len() {
        i
    } else if is_hex_digit(s[i]) {
        hex_digits_end(s, i + 1)
    } else {
        i
    }
}

/// The value of the decimal digits `s[i..j)`, read left to right.
pub open spec fn dec_value(s: Seq<char>, i: int, j: int) -> nat
    decreases j - i when i <= j
{
    if j <= i {
        0
    } else {
        dec_value(s, i, j - 1) * 10 + digit_val(s[j - 1])
    }
}

/// The value of the hexadecimal digits `s[i..j)`, read left to right.
pub open spec fn hex_value(s: Seq<char>, i: int, j: int) -> nat
    decreases j - i when i <= j
{
    if j <= i {
        0
    } else {
        hex_value(s, i, j - 1) * 16 + hex_digit_val(s[j - 1])
    }
}

/// Whether `lit` occurs in `s` starting exactly at position `i`.
pub open spec fn has_lit(s: Seq<char>, i: int, lit: Seq<char>) -> bool {
    0 <= i && i + lit.len() <= s.len() && s.subrange(i, i + lit.len()) == lit
}

/// What reading one numeral at position `i` yields: the value and the
/// position after it, or nothing if no numeral is there or its value
/// exceeds `u64::MAX`.  Leading whitespace is skipped; a `0x` prefix
/// (itself possibly followed by whitespace) switches to hexadecimal.
pub open spec fn spec_number(s: Seq<char>, i: int) -> Option<(u64, int)> {
    let a = skip_ws_end(s, i);
    if has_lit(s, a, seq!['0', 'x']) {
        let b = skip_ws_end(s, a + 2);
        let e = hex_digits_end(s, b);
        if e == b {
            None
        } else if hex_value(s, b, e) > u64::MAX {
            None
        } else {
            Some((hex_value(s, b, e) as u64, e))
        }
    } else {
        let e = digits_end(s, a);
        if e == a {
            None
        } else if dec_value(s, a, e) > u64::MAX {
            None
        } else {
            Some((dec_value(s, a, e) as u64, e))
        }
    }
}

/// Positions skipped over by `skip_ws_end` hold whitespace; the position
/// reached holds none.
pub proof fn lemma_skip_ws_end(s: Seq<char>, i: int)
    requires
        0 <= i <= s.len(),
    ensures
        i <= skip_ws_end(s, i) <= s.len(),
        skip_ws_end(s, i) < s.len() ==> !is_ws(s[skip_ws_end(s, i)]),
        forall|k: int| i <= k < skip_ws_end(s, i) ==> is_ws(s[k]),
    decreases s.len() - i,
{
    if i < s.len() && is_ws(s[i]) {
        lemma_skip_ws_end(s, i + 1);
    }
}

/// Positions skipped over by `digits_end` hold digits; the position
/// reached holds none.
pub proof fn lemma_digits_end(s: Seq<char>, i: int)
    requires
        0 <= i <= s.len(),
    ensures
        i <= digits_end(s, i) <= s.len(),
        digits_end(s, i) < s.len() ==> !is_digit(s[digits_end(s, i)]),
        forall|k: int| i <= k < digits_end(s, i) ==> is_digit(s[k]),
    decreases s.len() - i,
{
    if i < s.len() && is_digit(s[i]) {
        lemma_digits_end(s, i + 1);
    }
}

/// Positions skipped over by `hex_digits_end` hold hexadecimal digits; the
/// position reached holds none.
pub proof fn lemma_hex_digits_end(s: Seq<char>, i: int)
    requires
        0 <= i <= s.len(),
    ensures
        i <= hex_digits_end(s, i) <= s.len(),
        hex_digits_end(s, i) < s.len() ==> !is_hex_digit(s[hex_digits_end(s, i)]),
        forall|k: int| i <= k < hex_digits_end(s, i) ==> is_hex_digit(s[k]),
    decreases s.len() - i,
{
    if i < s.len() && is_hex_digit(s[i]) {
        lemma_hex_digits_end(s, i + 1);
    }
}

/// `digits_end` lands exactly at `j` when `s[i..j)` are digits and `j` is
/// the end of the text or holds a non-digit.
pub proof fn lemma_digits_end_at(s: Seq<char>, i: int, j: int)
    requires
        0 <= i <= j <= s.len(),
        forall|k: int| i <= k < j ==> is_digit(s[k]),
        j < s.len() ==> !is_digit(s[j]),
    ensures
        digits_end(s, i) == j,
    decreases j - i,
{
    if i < j {
        lemma_digits_end_at(s, i + 1, j);
    }
}

/// `skip_ws_end` stays put on a non-whitespace position.
pub proof fn lemma_skip_ws_end_none(s: Seq<char>, i: int)
    requires
        0 <= i <= s.len(),
        i < s.len() ==> !is_ws(s[i]),
    ensures
        skip_ws_end(s, i) == i,
{
}

/// A longer run of digits never has a smaller value.
pub proof fn lemma_dec_value_mono(s: Seq<char>, i: int, j: int, k: int)
    requires
        i <= j <= k,
    ensures
        dec_value(s, i, j) <= dec_value(s, i, k),
    decreases k - j,
{
    if j < k {
        lemma_dec_value_mono(s, i, j, k - 1);
        assert(dec_value(s, i, k) == dec_value(s, i, k - 1) * 10 + digit_val(s[k - 1]));
        assert(dec_value(s, i, k - 1) * 10 >= dec_value(s, i, k - 1)) by (nonlinear_arith);
    }
}

/// A longer run of hexadecimal digits never has a smaller value.
pub proof fn lemma_hex_value_mono(s: Seq<char>, i: int, j: int, k: int)
    requires
        i <= j <= k,
    ensures
        hex_value(s, i, j) <= hex_value(s, i, k),
    decreases k - j,
{
    if j < k {
        lemma_hex_value_mono(s, i, j, k - 1);
        assert(hex_value(s, i, k) == hex_value(s, i, k - 1) * 16 + hex_digit_val(s[k - 1]));
        assert(hex_value(s, i, k - 1) * 16 >= hex_value(s, i, k - 1)) by (nonlinear_arith);
    }
}

/// The value of a digit run depends only on the characters in it.
pub proof fn lemma_dec_value_eq(s: Seq<char>, t: Seq<char>, i: int, j: int, d: int)
    requires
        i <= j,
        forall|k: int| i <= k < j ==> #[trigger] s[k] == t[k + d],
    ensures
        dec_value(s, i, j) == dec_value(t, i + d, j + d),
    decreases j - i,
{
    if i < j {
        lemma_dec_value_eq(s, t, i, j - 1, d);
        assert(s[j - 1] == t[j - 1 + d]);
    }
}

/// `digit_char` and `digit_val` invert one another below ten.
pub proof fn lemma_digit_char_val(d: nat)
    requires
        d < 10,
    ensures
        digit_val(digit_char(d)) == d,
        is_digit(digit_char(d)),
{
    assert('0' as u32 == 48 && '1' as u32 == 49 && '2' as u32 == 50 && '3' as u32 == 51 && '4'
        as u32 == 52 && '5' as u32 == 53 && '6' as u32 == 54 && '7' as u32 == 55 && '8' as u32
        == 56 && '9' as u32 == 57);
}

/// Every character of a decimal numeral is a digit, and the numeral is
/// never empty.
pub proof fn lemma_dec_digits_are_digits(n: nat)
    ensures
        dec_digits(n).len() >= 1,
        forall|k: int| 0 <= k < dec_digits(n).len() ==> is_digit(#[trigger] dec_digits(n)[k]),
    decreases n,
{
    if n >= 10 {
        lemma_dec_digits_are_digits(n / 10);
    }
}

/// A digit is not whitespace.
pub proof fn lemma_digit_not_ws(c: char)
    requires
        is_digit(c),
    ensures
        !is_ws(c),
{
    assert(' ' as u32 == 32 && '\t' as u32 == 9 && '\n' as u32 == 10 && '\r' as u32 == 13);
}

/// A decimal numeral standing at `i`, followed by neither a digit nor an
/// `x`, reads back under `spec_number` as its value.
pub proof fn lemma_spec_number_at(s: Seq<char>, i: int, n: nat)
    requires
        0 <= i,
        i + dec_digits(n).len() <= s.len(),
        forall|k: int| 0 <= k < dec_digits(n).len() ==> s[i + k] == #[trigger] dec_digits(n)[k],
        i + dec_digits(n).len() < s.len() ==> !is_digit(s[i + dec_digits(n).len()]) && s[i
            + dec_digits(n).len()] != 'x',
        n <= u64::MAX,
    ensures
        spec_number(s, i) == Some((n as u64, i + dec_digits(n).len())),
{
    let d = dec_digits(n);
    let l = d.len() as int;
    lemma_dec_digits_are_digits(n);
    assert(s[i + 0] == d[0]);
    lemma_digit_not_ws(s[i]);
    lemma_skip_ws_end_none(s, i);
    assert(!has_lit(s, i, seq!['0', 'x'])) by {
        if has_lit(s, i, seq!['0', 'x']) {
            assert(s.subrange(i, i + 2)[1] == 'x');
            assert(s[i + 1] == 'x');
            assert('x' as u32 == 120);
            if l >= 2 {
                assert(s[i + 1] == d[1]);
                assert(is_digit(d[1]));
            } else {
                assert(i + l < s.len() ==> s[i + l] != 'x');
                assert(i + 2 <= s.len());
            }
        }
    }
    assert forall|k: int| i <= k < i + l implies is_digit(s[k]) by {
        assert(s[i + (k - i)] == d[k - i]);
    }
    lemma_digits_end_at(s, i, i + l);
    assert forall|k: int| 0 <= k < l implies d[k] == s[k + i] by {
        assert(s[i + k] == d[k]);
    }
    lemma_dec_value_eq(d, s, 0, l, i);
    lemma_dec_digits_value(n);
    assert(dec_value(s, i, i + l) == n);
}

/// Whether `c` is whitespace.
pub fn char_is_ws(c: char) -> (r: bool)
    ensures
        r == is_ws(c),
{
    c == ' ' || c == '\t' || c == '\n' || c == '\r'
}

/// Whether `c` is a decimal digit.
pub fn char_is_digit(c: char) -> (r: bool)
    ensures
        r == is_digit(c),
{
    let u = c as u32;
    48 <= u && u <= 57
}

/// Whether `c` is a hexadecimal digit.
pub fn char_is_hex_digit(c: char) -> (r: bool)
    ensures
        r == is_hex_digit(c),
{
    let u = c as u32;
    (48 <= u && u <= 57) || (97 <= u && u <= 102) || (65 <= u && u <= 70)
}

/// Advance past any run of whitespace starting at `i`.
pub fn skip_ws(s: &str, i: usize) -> (r: usize)
    requires
        i <= s@.len(),
    ensures
        r == skip_ws_end(s@, i as int),
        i <= r <= s@.len(),
{
    let n = s.unicode_len();
    let mut j = i;
    loop
        invariant
            i <= j <= n,
            n == s@.len(),
            skip_ws_end(s@, i as int) == skip_ws_end(s@, j as int),
        decreases n - j,
    {
        if j < n && char_is_ws(s.get_char(j)) {
            j += 1;
        } else {
            return j;
        }
    }
}

/// Match `lit` at exactly position `i`, returning the position after it.
pub fn match_lit(s: &str, i: usize, lit: &str) -> (r: Option<usize>)
    requires
        i <= s@.len(),
    ensures
        match r {
            Some(j) => has_lit(s@, i as int, lit@) && j == i + lit@.len(),
            None => !has_lit(s@, i as int, lit@),
        },
{
    let n = s.unicode_len();
    let m = lit.unicode_len();
    if m > n - i {
        assert(!has_lit(s@, i as int, lit@));
        return None;
    }
    let mut k: usize = 0;
    while k < m
        invariant
            0 <= k <= m,
            i + m <= n,
            n == s@.len(),
            m == lit@.len(),
            forall|q: int| 0 <= q < k ==> s@[i + q] == lit@[q],
        decreases m - k,
    {
        if s.get_char(i + k) != lit.get_char(k) {
            proof {
                let sub = s@.subrange(i as int, i + lit@.len());
                assert(sub[k as int] != lit@[k as int]);
            }
            return None;
        }
        k += 1;
    }
    proof {
        assert(s@.subrange(i as int, i + lit@.len()) =~= lit@);
    }
    Some(i + m)
}

/// Advance past any run of decimal digits starting at `i`.
pub fn scan_digits(s: &str, i: usize) -> (r: usize)
    requires
        i <= s@.len(),
    ensures
        r == digits_end(s@, i as int),
        i <= r <= s@.len(),
{
    let n = s.unicode_len();
    let mut j = i;
    loop
        invariant
            i <= j <= n,
            n == s@.len(),
            digits_end(s@, i as int) == digits_end(s@, j as int),
        decreases n - j,
    {
        if j < n && char_is_digit(s.get_char(j)) {
            j += 1;
        } else {
            return j;
        }
    }
}

/// Advance past any run of hexadecimal digits starting at `i`.
pub fn scan_hex_digits(s: &str, i: usize) -> (r: usize)
    requires
        i <= s@.len(),
    ensures
        r == hex_digits_end(s@, i as int),
        i <= r <= s@.len(),
{
    let n = s.unicode_len();
    let mut j = i;
    loop
        invariant
            i <= j <= n,
            n == s@.len(),
            hex_digits_end(s@, i as int) == hex_digits_end(s@, j as int),
        decreases n - j,
    {
        if j < n && char_is_hex_digit(s.get_char(j)) {
            j += 1;
        } else {
            return j;
        }
    }
}

/// Read one numeral at position `i`, as `spec_number` describes it.
#[verifier::loop_isolation(false)]
pub fn scan_number(s: &str, i: usize) -> (r: Option<(u64, usize)>)
    requires
        i <= s@.len(),
    ensures
        match r {
            Some(v) => spec_number(s@, i as int) == Some((v.0, v.1 as int)) && i <= v.1
                <= s@.len(),
            None => spec_number(s@, i as int) is None,
        },
{
    let n = s.unicode_len();
    let a = skip_ws(s, i);
    proof {
        reveal_strlit("0x");
        assert("0x"@ =~= seq!['0', 'x']);
    }
    match match_lit(s, a, "0x") {
        Some(a2) => {
            let b = skip_ws(s, a2);
            let e = scan_hex_digits(s, b);
            proof {
                lemma_hex_digits_end(s@, b as int);
            }
            if e == b {
                return None;
            }
            let mut j = b;
            let mut v: u64 = 0;
            while j < e
                invariant
                    b <= j <= e,
                    v == hex_value(s@, b as int, j as int),
                decreases e - j,
            {
                let u = s.get_char(j) as u32;
                let d: u64 = if 48 <= u && u <= 57 {
                    (u - 48) as u64
                } else if 97 <= u && u <= 102 {
                    (u - 87) as u64
                } else {
                    (u - 55) as u64
                };
                proof {
                    assert(is_hex_digit(s@[j as int]));
                    assert(d == hex_digit_val(s@[j as int]));
                }
                if v <= (u64::MAX - d) / 16 {
                    v = v * 16 + d;
                    j += 1;
                } else {
                    proof {
                        assert(hex_value(s@, b as int, j + 1) == v * 16 + hex_digit_val(
                            s@[j as int],
                        ));
                        assert(v * 16 + d > u64::MAX);
                        lemma_hex_value_mono(s@, b as int, j + 1, e as int);
                    }
                    return None;
                }
            }
            Some((v, j))
        },
        None => {
            let e = scan_digits(s, a);
            proof {
                lemma_digits_end(s@, a as int);
            }
            if e == a {
                return None;
            }
            let mut j = a;
            let mut v: u64 = 0;
            while j < e
                invariant
                    a <= j <= e,
                    v == dec_value(s@, a as int, j as int),
                decreases e - j,
            {
                let d: u64 = (s.get_char(j) as u32 - 48) as u64;
                proof {
                    assert(is_digit(s@[j as int]));
                    assert(d == digit_val(s@[j as int]));
                }
                if v <= (u64::MAX - d) / 10 {
                    v = v * 10 + d;
                    j += 1;
                } else {
                    proof {
                        assert(dec_value(s@, a as int, j + 1) == v * 10 + digit_val(s@[j as int]));
                        assert(v * 10 + d > u64::MAX);
                        lemma_dec_value_mono(s@, a as int, j + 1, e as int);
                    }
                    return None;
                }
            }
            Some((v, j))
        },
    }
}

/// Relies on `String::push`: appends the given character to the end of
/// the string.
#[verifier::external_body]
pub fn push_char(s: &mut String, c: char)
    ensures
        final(s)@ == old(s)@.push(c),
{
    s.push(c)
}

/// Whether two string slices hold the same characters.
pub fn str_eq(a: &str, b: &str) -> (r: bool)
    ensures
        r == (a@ == b@),
{
    let n = a.unicode_len();
    let m = b.unicode_len();
    if n != m {
        return false;
    }
    let mut k: usize = 0;
    while k < n
        invariant
            0 <= k <= n,
            n == a@.len(),
            n == b@.len(),
            forall|q: int| 0 <= q < k ==> a@[q] == b@[q],
        decreases n - k,
    {
        if a.get_char(k) != b.get_char(k) {
            return false;
        }
        k += 1;
    }
    proof {
        assert(a@ =~= b@);
    }
    true
}

/// The string of one digit character.
pub fn digit_str(d: u64) -> (r: &'static str)
    requires
        d < 10,
    ensures
        r@ =~= seq![digit_char(d as nat)],
{
    proof {
        reveal_strlit("0");
        reveal_strlit("1");
        reveal_strlit("2");
        reveal_strlit("3");
        reveal_strlit("4");
        reveal_strlit("5");
        reveal_strlit("6");
        reveal_strlit("7");
        reveal_strlit("8");
        reveal_strlit("9");
    }
    if d == 0 {
        "0"
    } else if d == 1 {
        "1"
    } else if d == 2 {
        "2"
    } else if d == 3 {
        "3"
    } else if d == 4 {
        "4"
    } else if d == 5 {
        "5"
    } else if d == 6 {
        "6"
    } else if d == 7 {
        "7"
    } else if d == 8 {
        "8"
    } else {
        "9"
    }
}

/// Format `n` as its decimal numeral.
pub fn u64_to_dec(n: u64) -> (s: String)
    ensures
        s@ == dec_digits(n as nat),
    decreases n,
{
    if n < 10 {
        String::from_str(digit_str(n))
    } else {
        let mut s = u64_to_dec(n / 10);
        s.append(digit_str(n % 10));
        proof {
            assert(s@ =~= dec_digits(n as nat));
        }
        s
    }
}

/// Reading back the decimal numeral of `n` yields `n`.
pub proof fn lemma_dec_digits_value(n: nat)
    ensures
        dec_value(dec_digits(n), 0, dec_digits(n).len() as int) == n,
    decreases n,
{
    if n < 10 {
        lemma_digit_char_val(n);
        reveal_with_fuel(dec_value, 2);
        assert(dec_value(dec_digits(n), 0, 1) == digit_val(digit_char(n)));
    } else {
        lemma_dec_digits_value(n / 10);
        lemma_digit_char_val(n % 10);
        let p = dec_digits(n / 10);
        let w = dec_digits(n);
        let l = p.len() as int;
        lemma_dec_value_eq(p, w, 0, l, 0);
        assert(dec_value(w, 0, l + 1) == dec_value(w, 0, l) * 10 + digit_val(w[l]));
        assert(n / 10 * 10 + n % 10 == n) by (nonlinear_arith);
    }
}

} // verus!
