//! Decimal formatting and parsing for the scalar values the cache stores.
//!
//! Every scalar travels through the cache as its decimal string.  The
//! formatters and parsers here are exact: each function's contract ties the
//! string to the mathematical value, so round trips are provable.

use vstd::prelude::*;
use vstd::arithmetic::div_mod::lemma_fundamental_div_mod;

verus! {

/// The character for one decimal digit value.
pub open spec fn dec_digit(d: int) -> char {
    if d == 0 {
        '0'
    } else if d == 1 {
        '1'
    } else if d == 2 {
        '2'
    } else if d == 3 {
        '3'
    } else if d == 4 {
        '4'
    } else if d == 5 {
        '5'
    } else if d == 6 {
        '6'
    } else if d == 7 {
        '7'
    } else if d == 8 {
        '8'
    } else {
        '9'
    }
}

/// Decimal representation of a non-negative integer, without leading zeros.
pub open spec fn dec_str(n: int) -> Seq<char>
    decreases n,
{
    if n < 10 {
        seq![dec_digit(n)]
    } else {
        dec_str(n / 10).push(dec_digit(n % 10))
    }
}

/// The `width` least-significant decimal digits of `n`, zero padded.
pub open spec fn dec_str_pad(n: int, width: nat) -> Seq<char>
    decreases width,
{
    if width == 0 {
        Seq::empty()
    } else {
        dec_str_pad(n / 10, (width - 1) as nat).push(dec_digit(n % 10))
    }
}

/// True for the characters '0' to '9'.
pub open spec fn is_dec_digit(c: char) -> bool {
    48 <= c as u32 <= 57
}

/// Numeric value of a decimal digit character.
pub open spec fn digit_val(c: char) -> int {
    c as u32 - 48
}

/// True when the string is one or more decimal digits.
pub open spec fn all_dec_digits(s: Seq<char>) -> bool {
    s.len() > 0 && forall|i: int| 0 <= i < s.len() ==> is_dec_digit(s[i])
}

/// Numeric value of a digit string, most significant digit first.
pub open spec fn dec_val(s: Seq<char>) -> int
    decreases s.len(),
{
    if s.len() == 0 {
        0
    } else {
        dec_val(s.drop_last()) * 10 + digit_val(s.last())
    }
}

/// A digit string has a non-negative value.
pub proof fn lemma_dec_val_nonneg(s: Seq<char>)
    requires
        forall|i: int| 0 <= i < s.len() ==> is_dec_digit(s[i]),
    ensures
        dec_val(s) >= 0,
    decreases s.len(),
{
    if s.len() > 0 {
        lemma_dec_val_nonneg(s.drop_last());
    }
}

/// Extending a digit string on the right can only grow its value.
pub proof fn lemma_dec_val_prefix(s: Seq<char>, i: int)
    requires
        0 <= i <= s.len(),
        forall|j: int| 0 <= j < s.len() ==> is_dec_digit(s[j]),
    ensures
        dec_val(s.take(i)) <= dec_val(s),
    decreases s.len() - i,
{
    if i < s.len() {
        lemma_dec_val_prefix(s, i + 1);
        let t = s.take(i + 1);
        assert(t.drop_last() =~= s.take(i));
        lemma_dec_val_nonneg(s.take(i));
        assert(dec_val(s.take(i)) <= dec_val(s.take(i)) * 10 + digit_val(t.last()));
    } else {
        assert(s.take(i) =~= s);
    }
}

/// One decimal digit as a string literal.
fn digit_to_str(d: u128) -> (s: &'static str)
    requires
        d < 10,
    ensures
        s@ =~= seq![dec_digit(d as int)],
{
    proof {
        reveal_strlit("0");
        reveal_strlit("1");
        reveal_strlit("2");
        reveal_strlit("3");
        reveal_strlit("4");
        reveal_strlit("5");
        reveal_strlit("6");
        reveal_strlit("7");
        reveal_strlit("8");
        reveal_strlit("9");
    }
    if d == 0 {
        "0"
    } else if d == 1 {
        "1"
    } else if d == 2 {
        "2"
    } else if d == 3 {
        "3"
    } else if d == 4 {
        "4"
    } else if d == 5 {
        "5"
    } else if d == 6 {
        "6"
    } else if d == 7 {
        "7"
    } else if d == 8 {
        "8"
    } else {
        "9"
    }
}

/// Decimal string of an unsigned integer.
pub fn u128_to_string(n: u128) -> (s: String)
    ensures
        s@ == dec_str(n as int),
    decreases n,
{
    if n < 10 {
        let s = String::from_str(digit_to_str(n));
        assert(s@ =~= dec_str(n as int));
        s
    } else {
        let mut s = u128_to_string(n / 10);
        s.append(digit_to_str(n % 10));
        assert(s@ =~= dec_str(n as int));
        s
    }
}

/// Decimal string of a `u64`.
pub fn u64_to_string(n: u64) -> (s: String)
    ensures
        s@ == dec_str(n as int),
{
    u128_to_string(n as u128)
}

/// Decimal string of a `u32`.
pub fn u32_to_string(n: u32) -> (s: String)
    ensures
        s@ == dec_str(n as int),
{
    u128_to_string(n as u128)
}

/// The `width` least-significant digits of `n`, zero padded.
fn pad_to_string(n: u128, width: u32) -> (s: String)
    ensures
        s@ == dec_str_pad(n as int, width as nat),
    decreases width,
{
    if width == 0 {
        let s = String::new();
        assert(s@ =~= dec_str_pad(n as int, 0));
        s
    } else {
        let mut s = pad_to_string(n / 10, width - 1);
        s.append(digit_to_str(n % 10));
        assert(s@ =~= dec_str_pad(n as int, width as nat));
        s
    }
}

/// Character-wise equality of two strings.
pub fn str_eq(a: &str, b: &str) -> (r: bool)
    ensures
        r == (a@ == b@),
{
    let alen = a.unicode_len();
    let blen = b.unicode_len();
    if alen != blen {
        return false;
    }
    let mut i: usize = 0;
    while i < alen
        invariant
            0 <= i <= alen,
            alen == a@.len(),
            alen == b@.len(),
            forall|j: int| 0 <= j < i ==> a@[j] == b@[j],
        decreases alen - i,
    {
        if a.get_char(i) != b.get_char(i) {
            return false;
        }
        i += 1;
    }
    proof {
        assert(a@ =~= b@);
    }
    true
}

/// Parses a digit-only decimal string; `None` when the string is empty,
/// holds a non-digit, or its value exceeds `u128::MAX`.
pub fn parse_u128(s: &str) -> (r: Option<u128>)
    ensures
        match r {
            Some(v) => all_dec_digits(s@) && dec_val(s@) == v,
            None => !all_dec_digits(s@) || dec_val(s@) > u128::MAX,
        },
{
    let len = s.unicode_len();
    if len == 0 {
        return None;
    }
    let mut acc: u128 = 0;
    let mut i: usize = 0;
    while i < len
        invariant
            0 <= i <= len,
            len == s@.len(),
            forall|j: int| 0 <= j < i ==> is_dec_digit(s@[j]),
            acc == dec_val(s@.take(i as int)),
        decreases len - i,
    {
        let c = s.get_char(i);
        let cu = c as u32;
        if cu < 48 || cu > 57 {
            return None;
        }
        let d = (cu - 48) as u128;
        proof {
            assert(s@.take(i as int + 1).drop_last() =~= s@.take(i as int));
        }
        if acc > u128::MAX / 10 || (acc == u128::MAX / 10 && d > u128::MAX % 10) {
            proof {
                assert(dec_val(s@.take(i as int + 1)) > u128::MAX);
                if forall|j: int| 0 <= j < s@.len() ==> is_dec_digit(s@[j]) {
                    lemma_dec_val_prefix(s@, i as int + 1);
                }
            }
            return None;
        }
        acc = acc * 10 + d;
        i += 1;
    }
    proof {
        assert(s@.take(len as int) =~= s@);
    }
    Some(acc)
}

/// Parses a decimal string as a `u64`; `None` on malformed input or overflow.
pub fn parse_u64(s: &str) -> (r: Option<u64>)
    ensures
        match r {
            Some(v) => all_dec_digits(s@) && dec_val(s@) == v,
            None => !all_dec_digits(s@) || dec_val(s@) > u64::MAX,
        },
{
    match parse_u128(s) {
        Some(v) => if v <= u64::MAX as u128 {
            Some(v as u64)
        } else {
            None
        },
        None => None,
    }
}

/// Parses a decimal string as a `u32`; `None` on malformed input or overflow.
pub fn parse_u32(s: &str) -> (r: Option<u32>)
    ensures
        match r {
            Some(v) => all_dec_digits(s@) && dec_val(s@) == v,
            None => !all_dec_digits(s@) || dec_val(s@) > u32::MAX,
        },
{
    match parse_u128(s) {
        Some(v) => if v <= u32::MAX as u128 {
            Some(v as u32)
        } else {
            None
        },
        None => None,
    }
}

/// Parses "true" or "false"; `None` on anything else.
pub fn parse_bool(s: &str) -> (r: Option<bool>)
    ensures
        r == (if s@ == "true"@ {
            Some(true)
        } else if s@ == "false"@ {
            Some(false)
        } else {
            None::<bool>
        }),
{
    if str_eq(s, "true") {
        Some(true)
    } else if str_eq(s, "false") {
        Some(false)
    } else {
        None
    }
}

/// "true" or "false".
pub fn bool_to_string(b: bool) -> (s: String)
    ensures
        b ==> s@ == "true"@,
        !b ==> s@ == "false"@,
{
    if b {
        String::from_str("true")
    } else {
        String::from_str("false")
    }
}

/// Ten to the given power.
pub open spec fn pow10(w: nat) -> int
    decreases w,
{
    if w == 0 {
        1
    } else {
        10 * pow10((w - 1) as nat)
    }
}

/// Numeric values of the small powers of ten used here.
pub proof fn lemma_pow10_vals()
    ensures
        pow10(8) == 100_000_000,
        pow10(9) == 1_000_000_000,
{
    reveal_with_fuel(pow10, 11);
}

/// The string with its trailing '0' characters removed.
pub open spec fn trim_zeros(s: Seq<char>) -> Seq<char>
    decreases s.len(),
{
    if s.len() > 0 && s.last() == '0' {
        trim_zeros(s.drop_last())
    } else {
        s
    }
}

/// Decimal rendering of a fixed-point value with nine fractional digits:
/// the integer part, and when the fraction is non-zero a dot and the
/// fraction with trailing zeros removed.
pub open spec fn scaled_str(v: int) -> Seq<char> {
    if v % 1_000_000_000 == 0 {
        dec_str(v / 1_000_000_000)
    } else {
        dec_str(v / 1_000_000_000) + seq!['.'] + trim_zeros(
            dec_str_pad(v % 1_000_000_000, 9),
        )
    }
}

/// A padded digit string is all zeros only when the padded value is zero.
proof fn lemma_pad_nonzero(n: int, w: nat)
    requires
        0 < n < pow10(w),
    ensures
        exists|j: int| 0 <= j < w && #[trigger] dec_str_pad(n, w)[j] != '0',
    decreases w,
{
    assert(dec_str_pad(n, w).len() == w) by {
        lemma_pad_len(n, w);
    }
    if n % 10 != 0 {
        assert(dec_str_pad(n, w).last() != '0');
        assert(dec_str_pad(n, w)[w - 1] != '0');
    } else {
        assert(n >= 10);
        assert(n / 10 < pow10((w - 1) as nat)) by (nonlinear_arith)
            requires
                n < pow10(w),
                pow10(w) == 10 * pow10((w - 1) as nat),
                w >= 1,
        ;
        lemma_pad_nonzero(n / 10, (w - 1) as nat);
        let j = choose|j: int|
            0 <= j < w - 1 && #[trigger] dec_str_pad(n / 10, (w - 1) as nat)[j] != '0';
        lemma_pad_len(n / 10, (w - 1) as nat);
        assert(dec_str_pad(n, w)[j] == dec_str_pad(n / 10, (w - 1) as nat)[j]);
    }
}

/// A padded digit string has exactly `width` characters.
proof fn lemma_pad_len(n: int, w: nat)
    ensures
        dec_str_pad(n, w).len() == w,
    decreases w,
{
    if w > 0 {
        lemma_pad_len(n / 10, (w - 1) as nat);
    }
}

/// Removing a suffix of zeros is what `trim_zeros` does.
proof fn lemma_trim_take(s: Seq<char>, k: int)
    requires
        1 <= k <= s.len(),
        s[k - 1] != '0',
        forall|j: int| k <= j < s.len() ==> s[j] == '0',
    ensures
        trim_zeros(s) == s.take(k),
    decreases s.len() - k,
{
    if k == s.len() {
        assert(s.take(k) =~= s);
    } else {
        assert(s.last() == '0');
        assert(s.drop_last() =~= s.take(s.len() - 1));
        lemma_trim_take(s.take(s.len() - 1), k);
        assert(s.take(s.len() - 1).take(k) =~= s.take(k));
    }
}

/// Fixed-point decimal string of a value scaled by `SCALE`.
pub fn fmt_scaled(v: u128) -> (s: String)
    ensures
        s@ == scaled_str(v as int),
{
    let mut s = u128_to_string(v / 1_000_000_000);
    let rem = v % 1_000_000_000;
    if rem == 0 {
        return s;
    }
    proof {
        reveal_strlit(".");
    }
    s.append(".");
    let frac = pad_to_string(rem, 9);
    proof {
        lemma_pad_len(rem as int, 9);
        lemma_pow10_vals();
        lemma_pad_nonzero(rem as int, 9);
    }
    let mut k: usize = 9;
    let mut stop = false;
    while k > 0 && !stop
        invariant
            0 <= k <= 9,
            frac@.len() == 9,
            frac@ == dec_str_pad(rem as int, 9),
            forall|j: int| k <= j < 9 ==> frac@[j] == '0',
            exists|j: int| 0 <= j < k && #[trigger] frac@[j] != '0',
            stop ==> 1 <= k <= 9 && frac@[k - 1] != '0',
        decreases k + (if stop { 0int } else { 1int }),
    {
        if frac.as_str().get_char(k - 1) != '0' {
            stop = true;
        } else {
            k -= 1;
            proof {
                if k == 0 {
                    assert(forall|j: int| 0 <= j < 9 ==> frac@[j] == '0');
                    assert(false);
                }
            }
        }
    }
    proof {
        if !stop {
            assert(false);
        }
        lemma_trim_take(frac@, k as int);
    }
    let t = frac.as_str().substring_char(0, k);
    s.append(t);
    proof {
        assert(s@ =~= scaled_str(v as int));
    }
    s
}

/// First index of the character in the string, or -1 when absent.
pub open spec fn find_char(s: Seq<char>, c: char) -> int
    decreases s.len(),
{
    if s.len() == 0 {
        -1
    } else if s[0] == c {
        0
    } else if find_char(s.drop_first(), c) == -1 {
        -1
    } else {
        find_char(s.drop_first(), c) + 1
    }
}

/// What `find_char` returns: the first occurrence, or -1.
pub proof fn lemma_find_char(s: Seq<char>, c: char)
    ensures
        find_char(s, c) == -1 ==> forall|i: int| 0 <= i < s.len() ==> s[i] != c,
        find_char(s, c) != -1 ==> 0 <= find_char(s, c) < s.len() && s[find_char(s, c)] == c
            && forall|i: int| 0 <= i < find_char(s, c) ==> s[i] != c,
    decreases s.len(),
{
    if s.len() == 0 {
    } else if s[0] == c {
    } else {
        lemma_find_char(s.drop_first(), c);
        let d = s.drop_first();
        let r = find_char(d, c);
        assert(forall|i: int| 1 <= i < s.len() ==> s[i] == #[trigger] d[i - 1]);
        if r == -1 {
            assert(find_char(s, c) == -1);
            assert forall|i: int| 0 <= i < s.len() implies s[i] != c by {
                if i >= 1 {
                    assert(d[i - 1] != c);
                }
            }
        } else {
            assert(find_char(s, c) == r + 1);
            assert(s[r + 1] == d[r]);
            assert forall|i: int| 0 <= i < r + 1 implies s[i] != c by {
                if i >= 1 {
                    assert(d[i - 1] != c);
                }
            }
        }
    }
}

/// Position of the first occurrence of the character in the string.
pub fn find_in_str(s: &str, sep: char) -> (r: Option<usize>)
    ensures
        match r {
            Some(i) => find_char(s@, sep) == i as int,
            None => find_char(s@, sep) == -1,
        },
{
    let len = s.unicode_len();
    let mut i: usize = 0;
    while i < len
        invariant
            0 <= i <= len,
            len == s@.len(),
            forall|j: int| 0 <= j < i ==> s@[j] != sep,
        decreases len - i,
    {
        if s.get_char(i) == sep {
            proof {
                lemma_find_char(s@, sep);
                let f = find_char(s@, sep);
                if f == -1 {
                    assert(s@[i as int] != sep);
                } else if f < i {
                    assert(s@[f] != sep);
                } else if f > i {
                    assert(s@[i as int] != sep);
                }
            }
            return Some(i);
        }
        i += 1;
    }
    proof {
        lemma_find_char(s@, sep);
        if find_char(s@, sep) != -1 {
            assert(s@[find_char(s@, sep)] != sep);
        }
    }
    None
}

/// The pieces of the string between occurrences of the separator.
pub open spec fn split_at_sep(s: Seq<char>, sep: char) -> Seq<Seq<char>>
    decreases s.len(),
{
    let i = find_char(s, sep);
    if 0 <= i < s.len() {
        seq![s.take(i)] + split_at_sep(s.skip(i + 1), sep)
    } else {
        seq![s]
    }
}

/// Splits the string at every occurrence of the separator; an empty string
/// yields one empty piece, as `str::split` does.
pub fn split_string(s: &str, sep: char) -> (parts: Vec<String>)
    ensures
        parts@.len() == split_at_sep(s@, sep).len(),
        forall|i: int|
            0 <= i < parts@.len() ==> parts@[i]@ == split_at_sep(s@, sep)[i],
{
    let mut parts: Vec<String> = Vec::new();
    let mut rest: String = s.to_owned();
    loop
        invariant_except_break
            split_at_sep(s@, sep) =~= parts@.map_values(|p: String| p@) + split_at_sep(
                rest@,
                sep,
            ),
        ensures
            split_at_sep(s@, sep) =~= parts@.map_values(|p: String| p@),
        decreases rest@.len(),
    {
        let len = rest.as_str().unicode_len();
        let found = find_in_str(rest.as_str(), sep);
        let i = match found {
            Some(i) => i,
            None => {
                parts.push(rest);
                proof {
                    assert(split_at_sep(s@, sep) =~= parts@.map_values(|p: String| p@));
                }
                break;
            },
        };
        proof {
            lemma_find_char(rest@, sep);
        }
        let piece = rest.as_str().substring_char(0, i).to_owned();
        let tail = rest.as_str().substring_char(i + 1, len).to_owned();
        parts.push(piece);
        proof {
            assert(tail@ =~= rest@.skip(i as int + 1));
            assert(piece@ =~= rest@.take(i as int));
        }
        rest = tail;
        proof {
            assert(split_at_sep(s@, sep) =~= parts@.map_values(|p: String| p@)
                + split_at_sep(rest@, sep));
        }
    }
    proof {
        let m = parts@.map_values(|p: String| p@);
        assert(forall|i: int| 0 <= i < parts@.len() ==> parts@[i]@ == #[trigger] m[i]);
    }
    parts
}

/// Digit-only string as a value, where an empty string counts as zero;
/// `None` on a non-digit or on overflow past `u128::MAX`.
pub fn parse_digits_or_empty(s: &str) -> (r: Option<u128>)
    ensures
        match r {
            Some(v) => (forall|i: int| 0 <= i < s@.len() ==> is_dec_digit(s@[i]))
                && dec_val(s@) == v,
            None => (exists|i: int| 0 <= i < s@.len() && !is_dec_digit(s@[i]))
                || dec_val(s@) > u128::MAX,
        },
{
    if s.unicode_len() == 0 {
        proof {
            assert(dec_val(s@) == 0);
        }
        return Some(0);
    }
    parse_u128(s)
}

/// True when every character is a decimal digit (an empty string counts).
pub open spec fn digits_only(s: Seq<char>) -> bool {
    forall|i: int| 0 <= i < s.len() ==> is_dec_digit(s[i])
}

/// A digit string of `n` characters has a value below `10^n`.
pub proof fn lemma_dec_val_bound(s: Seq<char>)
    requires
        digits_only(s),
    ensures
        0 <= dec_val(s) < pow10(s.len()),
    decreases s.len(),
{
    if s.len() > 0 {
        lemma_dec_val_bound(s.drop_last());
        assert(dec_val(s.drop_last()) * 10 + digit_val(s.last()) < pow10(s.len()))
            by (nonlinear_arith)
            requires
                dec_val(s.drop_last()) < pow10((s.len() - 1) as nat),
                digit_val(s.last()) < 10,
                pow10(s.len()) == 10 * pow10((s.len() - 1) as nat),
        ;
    }
}

/// `10^a * 10^b == 10^(a+b)`.
pub proof fn lemma_pow10_add(a: nat, b: nat)
    ensures
        pow10(a) * pow10(b) == pow10(a + b),
    decreases a,
{
    if a == 0 {
        assert(pow10(0) == 1);
    } else {
        lemma_pow10_add((a - 1) as nat, b);
        assert((10 * pow10((a - 1) as nat)) * pow10(b) == 10 * (pow10((a - 1) as nat)
            * pow10(b))) by (nonlinear_arith);
    }
}

/// Checks that every character is a decimal digit.
pub fn digits_only_check(s: &str) -> (r: bool)
    ensures
        r == digits_only(s@),
{
    let len = s.unicode_len();
    let mut i: usize = 0;
    while i < len
        invariant
            0 <= i <= len,
            len == s@.len(),
            forall|j: int| 0 <= j < i ==> is_dec_digit(s@[j]),
        decreases len - i,
    {
        let cu = s.get_char(i) as u32;
        if cu < 48 || cu > 57 {
            return false;
        }
        i += 1;
    }
    true
}

/// Value of the fractional digits: the first nine digits after the dot,
/// scaled to nine places.
pub open spec fn frac_val(f: Seq<char>) -> int {
    if f.len() >= 9 {
        dec_val(f.take(9))
    } else {
        dec_val(f) * pow10((9 - f.len()) as nat)
    }
}

/// The value, in fixed point with nine places, of a decimal number written
/// as `digits`, `digits.digits`, `.digits` or `digits.`; `None` when the
/// text is not of that shape, or when the value cannot be held.  Fraction
/// digits past the ninth are cut off.
pub open spec fn scaled_val(s: Seq<char>) -> Option<int> {
    let dot = find_char(s, '.');
    if dot == -1 {
        if s.len() > 0 && digits_only(s) && dec_val(s) * 1_000_000_000 <= u128::MAX {
            Some(dec_val(s) * 1_000_000_000)
        } else {
            None
        }
    } else {
        let ip = s.take(dot);
        let fp = s.skip(dot + 1);
        if s.len() == 1 {
            None
        } else if digits_only(ip) && digits_only(fp) {
            if dec_val(ip) <= (u128::MAX - 1_000_000_000) / 1_000_000_000 {
                Some(dec_val(ip) * 1_000_000_000 + frac_val(fp))
            } else {
                None
            }
        } else {
            None
        }
    }
}

/// `10^a <= 10^b` when `a <= b`.
pub proof fn lemma_pow10_mono(a: nat, b: nat)
    requires
        a <= b,
    ensures
        pow10(a) <= pow10(b),
        pow10(a) >= 1,
    decreases b,
{
    if b > 0 {
        if a == b {
            lemma_pow10_mono((a - 1) as nat, (b - 1) as nat);
        } else {
            lemma_pow10_mono(a, (b - 1) as nat);
        }
    }
}

/// Parses a decimal number with an optional fraction into fixed point
/// (nine fractional places, extra digits cut off).  `None` when the text is
/// not `digits`, `digits.digits`, `.digits` or `digits.`, or on overflow.
pub fn parse_scaled(s: &str) -> (r: Option<u128>)
    ensures
        match r {
            Some(v) => scaled_val(s@) == Some(v as int),
            None => scaled_val(s@) == None::<int>,
        },
{
    let len = s.unicode_len();
    let dotr = find_in_str(s, '.');
    proof {
        lemma_find_char(s@, '.');
    }
    let dot = match dotr {
        Some(i) => i,
        None => len,
    };
    if dot == len {
        // no dot: a plain digit string
        match parse_u128(s) {
            Some(v) => {
                if v <= u128::MAX / 1_000_000_000 {
                    proof {
                        lemma_fundamental_div_mod(u128::MAX as int, 1_000_000_000);
                        assert(v * 1_000_000_000 <= ((u128::MAX as int) / 1_000_000_000)
                            * 1_000_000_000) by (nonlinear_arith)
                            requires
                                v <= (u128::MAX as int) / 1_000_000_000,
                        ;
                    }
                    Some(v * 1_000_000_000)
                } else {
                    proof {
                        lemma_fundamental_div_mod(u128::MAX as int, 1_000_000_000);
                        assert(v * 1_000_000_000 > u128::MAX) by (nonlinear_arith)
                            requires
                                v > (u128::MAX as int) / 1_000_000_000,
                                (u128::MAX as int) / 1_000_000_000 >= 0,
                                ((u128::MAX as int) / 1_000_000_000) * 1_000_000_000
                                    + 1_000_000_000 > u128::MAX,
                        ;
                    }
                    None
                }
            },
            None => {
                proof {
                    if all_dec_digits(s@) {
                        // the value itself exceeds u128::MAX, so the scaled
                        // value does as well
                        lemma_dec_val_nonneg(s@);
                        assert(dec_val(s@) * 1_000_000_000 >= dec_val(s@) * 1)
                            by (nonlinear_arith)
                            requires
                                dec_val(s@) >= 0,
                        ;
                    }
                }
                None
            },
        }
    } else {
        if len == 1 {
            // "." alone is not a number
            return None;
        }
        let ipart = s.substring_char(0, dot);
        let fpart = s.substring_char(dot + 1, len);
        proof {
            assert(ipart@ =~= s@.take(dot as int));
            assert(fpart@ =~= s@.skip(dot as int + 1));
        }
        if !digits_only_check(ipart) {
            return None;
        }
        if !digits_only_check(fpart) {
            return None;
        }
        let iv = match parse_digits_or_empty(ipart) {
            Some(v) => v,
            None => {
                // all digits, so the integer part alone exceeds u128::MAX
                proof {
                    lemma_fundamental_div_mod(u128::MAX as int - 1_000_000_000, 1_000_000_000);
                    assert(((u128::MAX - 1_000_000_000) as int) / 1_000_000_000
                        <= u128::MAX);
                }
                return None;
            },
        };
        let bound = (u128::MAX - 1_000_000_000) / 1_000_000_000;
        if iv > bound {
            return None;
        }
        let flen = len - dot - 1;
        let base: usize = if flen > 9 {
            9
        } else {
            flen
        };
        let fcut = if flen > 9 {
            s.substring_char(dot + 1, dot + 10)
        } else {
            fpart
        };
        proof {
            if flen >= 9 {
                assert(fcut@ =~= fpart@.take(9));
            }
        }
        let fv = match parse_digits_or_empty(fcut) {
            Some(v) => v,
            None => {
                proof {
                    lemma_dec_val_bound(fcut@);
                    lemma_pow10_mono(fcut@.len() as nat, 9);
                    lemma_pow10_vals();
                    assert(false);
                }
                0
            },
        };
        // pad the fraction to nine places
        let mut mul: u128 = 1;
        let mut w: usize = base;
        while w < 9
            invariant
                base <= w <= 9,
                mul == pow10((w - base) as nat),
            decreases 9 - w,
        {
            proof {
                lemma_pow10_mono((w - base) as nat, 8);
                lemma_pow10_vals();
            }
            mul = mul * 10;
            w += 1;
        }
        proof {
            // fv * mul < 10^9: the fraction scaled to nine places
            lemma_dec_val_bound(fcut@);
            lemma_pow10_add((base) as nat, (9 - base) as nat);
            lemma_pow10_vals();
            assert(fv * mul < 1_000_000_000) by (nonlinear_arith)
                requires
                    0 <= fv < pow10(base as nat),
                    mul == pow10((9 - base) as nat),
                    mul >= 0,
                    pow10(base as nat) * pow10((9 - base) as nat) == 1_000_000_000,
            ;
            // iv * SCALE stays clear of the top of u128
            lemma_fundamental_div_mod(u128::MAX as int - 1_000_000_000, 1_000_000_000);
            assert(iv * 1_000_000_000 <= u128::MAX - 1_000_000_000) by (nonlinear_arith)
                requires
                    iv <= ((u128::MAX - 1_000_000_000) as int) / 1_000_000_000,
                    (((u128::MAX - 1_000_000_000) as int) / 1_000_000_000) * 1_000_000_000
                        <= u128::MAX - 1_000_000_000,
            ;
        }
        let scaled_frac = fv * mul;
        let r = iv * 1_000_000_000 + scaled_frac;
        proof {
            if flen >= 9 {
                assert(frac_val(fpart@) == fv);
            } else {
                assert(frac_val(fpart@) == fv * mul);
            }
        }
        Some(r)
    }
}

/// The first occurrence characterises `find_char`.
pub proof fn lemma_find_at(s: Seq<char>, sep: char, k: int)
    requires
        0 <= k < s.len(),
        s[k] == sep,
        forall|j: int| 0 <= j < k ==> s[j] != sep,
    ensures
        find_char(s, sep) == k,
{
    lemma_find_char(s, sep);
    let f = find_char(s, sep);
    if f == -1 {
        assert(s[k] != sep);
    } else if f < k {
        assert(s[f] != sep);
    } else if f > k {
        assert(s[k] != sep);
    }
}

/// Without an occurrence `find_char` answers -1.
pub proof fn lemma_find_none(s: Seq<char>, sep: char)
    requires
        forall|j: int| 0 <= j < s.len() ==> s[j] != sep,
    ensures
        find_char(s, sep) == -1,
{
    lemma_find_char(s, sep);
    if find_char(s, sep) != -1 {
        assert(s[find_char(s, sep)] != sep);
    }
}

/// A separator-free string splits into one piece: itself.
pub proof fn lemma_split_whole(s: Seq<char>, sep: char)
    requires
        forall|j: int| 0 <= j < s.len() ==> s[j] != sep,
    ensures
        split_at_sep(s, sep) == seq![s],
{
    lemma_find_none(s, sep);
}

/// Splitting around one separator splits the two sides separately.
pub proof fn lemma_split_concat(a: Seq<char>, b: Seq<char>, sep: char)
    ensures
        split_at_sep(a + seq![sep] + b, sep) == split_at_sep(a, sep) + split_at_sep(b, sep),
    decreases a.len(),
{
    let s = a + seq![sep] + b;
    lemma_find_char(a, sep);
    let f = find_char(a, sep);
    if f == -1 {
        assert(s[a.len() as int] == sep);
        assert(forall|j: int| 0 <= j < a.len() ==> s[j] == a[j]);
        lemma_find_at(s, sep, a.len() as int);
        assert(s.take(a.len() as int) =~= a);
        assert(s.skip(a.len() as int + 1) =~= b);
        assert(split_at_sep(s, sep) == seq![a] + split_at_sep(b, sep));
        assert(split_at_sep(a, sep) == seq![a]);
    } else {
        assert(s[f] == a[f] && a[f] == sep);
        assert(forall|j: int| 0 <= j < f ==> s[j] == a[j] && a[j] != sep);
        lemma_find_at(s, sep, f);
        assert(s.take(f) =~= a.take(f));
        assert(s.skip(f + 1) =~= a.skip(f + 1) + seq![sep] + b);
        lemma_split_concat(a.skip(f + 1), b, sep);
        assert(split_at_sep(s, sep) == seq![a.take(f)] + (split_at_sep(a.skip(f + 1), sep)
            + split_at_sep(b, sep)));
        assert(split_at_sep(a, sep) == seq![a.take(f)] + split_at_sep(a.skip(f + 1), sep));
        assert(seq![a.take(f)] + (split_at_sep(a.skip(f + 1), sep) + split_at_sep(b, sep))
            =~= (seq![a.take(f)] + split_at_sep(a.skip(f + 1), sep)) + split_at_sep(b, sep));
    }
}

/// A decimal rendering is digits through and through.
pub proof fn lemma_dec_str_digits(n: int)
    requires
        n >= 0,
    ensures
        all_dec_digits(dec_str(n)),
    decreases n,
{
    if n < 10 {
        assert(is_dec_digit(dec_digit(n)));
    } else {
        lemma_dec_str_digits(n / 10);
        assert(is_dec_digit(dec_digit(n % 10)));
        assert(forall|j: int|
            0 <= j < dec_str(n / 10).len() ==> is_dec_digit(#[trigger] dec_str(n)[j]));
    }
}

/// A single decimal digit reads back as its value.
pub proof fn lemma_digit_round_trip(n: int)
    requires
        0 <= n <= 9,
    ensures
        dec_val(dec_str(n)) == n,
{
    assert(dec_str(n) == seq![dec_digit(n)]);
    assert(dec_str(n).drop_last() =~= Seq::<char>::empty());
    assert(dec_val(Seq::<char>::empty()) == 0);
    assert(dec_str(n).last() == dec_digit(n));
    if n == 0 {
        assert(digit_val('0') == 0);
    } else if n == 1 {
        assert(digit_val('1') == 1);
    } else if n == 2 {
        assert(digit_val('2') == 2);
    } else if n == 3 {
        assert(digit_val('3') == 3);
    } else if n == 4 {
        assert(digit_val('4') == 4);
    } else if n == 5 {
        assert(digit_val('5') == 5);
    } else if n == 6 {
        assert(digit_val('6') == 6);
    } else if n == 7 {
        assert(digit_val('7') == 7);
    } else if n == 8 {
        assert(digit_val('8') == 8);
    } else {
        assert(digit_val('9') == 9);
    }
}

} // verus!
