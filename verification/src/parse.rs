//! Verified scanning of the numeric fields that the wireless status text
//! carries: unsigned decimal integers (signal quality) and signed decimal
//! fixed-point values (powers in dBm), the latter read in thousandths.

use vstd::prelude::*;

verus! {

/// The largest magnitude, in thousandths of a dBm, that a parsed power
/// value may have. Keeping every reading within this bound keeps sums of
/// up to `MAX_SAMPLE_COUNT` readings inside `i64`.
pub const MAX_ABS_MILLI_DBM: i64 = 1_000_000_000;

/// The character is a decimal digit.
pub open spec fn is_digit(c: char) -> bool {
    48 <= c as u32 <= 57
}

/// The numeric value of a decimal digit.
pub open spec fn digit_val(c: char) -> int {
    c as u32 - 48
}

/// Every character of the sequence is a decimal digit.
pub open spec fn all_digits(s: Seq<char>) -> bool {
    forall|i: int| 0 <= i < s.len() ==> is_digit(#[trigger] s[i])
}

/// The value of a digit sequence read most significant digit first; an
/// empty sequence reads as zero.
pub open spec fn digits_val(s: Seq<char>) -> int
    decreases s.len(),
{
    if s.len() == 0 {
        0
    } else {
        digits_val(s.drop_last()) * 10 + digit_val(s.last())
    }
}

/// Extending a digit prefix by one character multiplies its value by ten
/// and adds the new digit.
proof fn lemma_digits_val_snoc(s: Seq<char>, i: int)
    requires
        0 <= i < s.len(),
    ensures
        digits_val(s.subrange(0, i + 1)) == digits_val(s.subrange(0, i)) * 10 + digit_val(s[i]),
{
    assert(s.subrange(0, i + 1).drop_last() =~= s.subrange(0, i));
    assert(s.subrange(0, i + 1).last() == s[i]);
}

/// A sequence of digits has a non-negative value.
proof fn lemma_digits_val_nonneg(s: Seq<char>)
    requires
        all_digits(s),
    ensures
        digits_val(s) >= 0,
    decreases s.len(),
{
    if s.len() > 0 {
        assert(all_digits(s.drop_last()));
        lemma_digits_val_nonneg(s.drop_last());
    }
}

/// Within a sequence of digits, a prefix never reads as more than the
/// whole.
proof fn lemma_digits_val_prefix_le(s: Seq<char>, k: int)
    requires
        all_digits(s),
        0 <= k <= s.len(),
    ensures
        digits_val(s.subrange(0, k)) <= digits_val(s),
    decreases s.len() - k,
{
    if k == s.len() {
        assert(s.subrange(0, k) =~= s);
    } else {
        lemma_digits_val_snoc(s, k);
        assert(all_digits(s.subrange(0, k))) by {
            assert(forall|i: int|
                0 <= i < k ==> s.subrange(0, k)[i] == s[i] && is_digit(#[trigger] s[i]));
        }
        lemma_digits_val_nonneg(s.subrange(0, k));
        lemma_digits_val_prefix_le(s, k + 1);
    }
}

/// Ten to the power `k`.
spec fn pow10(k: nat) -> int
    decreases k,
{
    if k == 0 {
        1
    } else {
        10 * pow10((k - 1) as nat)
    }
}

/// A digit sequence reads as less than ten to the power of its length.
proof fn lemma_digits_val_upper(s: Seq<char>)
    requires
        all_digits(s),
    ensures
        0 <= digits_val(s) < pow10(s.len()),
    decreases s.len(),
{
    if s.len() > 0 {
        assert(all_digits(s.drop_last()));
        lemma_digits_val_upper(s.drop_last());
        assert(digit_val(s.last()) <= 9);
    }
}

/// The first index at or after `from` where `c` occurs in `s`.
pub open spec fn find_from(s: Seq<char>, c: char, from: int) -> Option<int>
    decreases s.len() - from,
{
    if from < 0 || from >= s.len() {
        None
    } else if s[from] == c {
        Some(from)
    } else {
        find_from(s, c, from + 1)
    }
}

/// Executable counterpart of `find_from`.
pub fn find_char(s: &str, c: char, from: usize) -> (r: Option<usize>)
    requires
        from <= s@.len(),
    ensures
        r is Some <==> find_from(s@, c, from as int) is Some,
        r matches Some(i) ==> find_from(s@, c, from as int) == Some(i as int) && from <= i
            < s@.len(),
{
    let n = s.unicode_len();
    let mut i: usize = from;
    while i < n
        invariant
            from <= i <= n,
            n == s@.len(),
            find_from(s@, c, from as int) == find_from(s@, c, i as int),
        decreases n - i,
    {
        if s.get_char(i) == c {
            return Some(i);
        }
        i = i + 1;
    }
    None
}

/// The pattern `pat` occurs in `s` starting at index `i`.
pub open spec fn match_at(s: Seq<char>, pat: Seq<char>, i: int) -> bool {
    0 <= i && i + pat.len() <= s.len() && s.subrange(i, i + pat.len() as int) == pat
}

/// The first index at or after `from` where the non-empty pattern `pat`
/// occurs in `s`; an empty pattern is never found.
pub open spec fn find_sub_from(s: Seq<char>, pat: Seq<char>, from: int) -> Option<int>
    decreases s.len() - from,
{
    if from < 0 || pat.len() == 0 || from + pat.len() > s.len() {
        None
    } else if match_at(s, pat, from) {
        Some(from)
    } else {
        find_sub_from(s, pat, from + 1)
    }
}

/// Executable counterpart of `match_at`.
fn matches_at(s: &str, pat: &str, i: usize) -> (r: bool)
    requires
        i + pat@.len() <= s@.len(),
    ensures
        r == match_at(s@, pat@, i as int),
{
    let n = s.unicode_len();
    let m = pat.unicode_len();
    let mut j: usize = 0;
    while j < m
        invariant
            0 <= j <= m,
            n == s@.len(),
            m == pat@.len(),
            i + m <= n,
            forall|k: int| 0 <= k < j ==> s@[i + k] == pat@[k],
        decreases m - j,
    {
        if s.get_char(i + j) != pat.get_char(j) {
            assert(s@.subrange(i as int, i + m as int)[j as int] != pat@[j as int]);
            return false;
        }
        j = j + 1;
    }
    proof {
        assert(s@.subrange(i as int, i + m as int) =~= pat@);
    }
    true
}

/// Executable counterpart of `find_sub_from`.
pub fn find_sub(s: &str, pat: &str, from: usize) -> (r: Option<usize>)
    requires
        from <= s@.len(),
    ensures
        r is Some <==> find_sub_from(s@, pat@, from as int) is Some,
        r matches Some(i) ==> find_sub_from(s@, pat@, from as int) == Some(i as int) && from <= i
            && i + pat@.len() <= s@.len(),
{
    let n = s.unicode_len();
    let m = pat.unicode_len();
    if m == 0 || m > n {
        return None;
    }
    if from > n - m {
        return None;
    }
    let mut i: usize = from;
    while i <= n - m
        invariant
            from <= i,
            i <= n - m + 1,
            n == s@.len(),
            m == pat@.len(),
            0 < m <= n,
            find_sub_from(s@, pat@, from as int) == find_sub_from(s@, pat@, i as int),
        decreases n - i,
    {
        if matches_at(s, pat, i) {
            return Some(i);
        }
        i = i + 1;
    }
    None
}

/// Reads the whole of `s` as an unsigned decimal integer. Succeeds exactly
/// when `s` is one or more decimal digits whose value fits in a `u32`, and
/// then returns that value.
pub fn parse_u32(s: &str) -> (r: Option<u32>)
    ensures
        r is Some <==> s@.len() > 0 && all_digits(s@) && digits_val(s@) <= u32::MAX,
        r matches Some(v) ==> v == digits_val(s@),
{
    let n = s.unicode_len();
    if n == 0 {
        return None;
    }
    let mut acc: u64 = 0;
    let mut i: usize = 0;
    while i < n
        invariant
            0 <= i <= n,
            n == s@.len(),
            all_digits(s@.subrange(0, i as int)),
            acc == digits_val(s@.subrange(0, i as int)),
            acc <= u32::MAX,
        decreases n - i,
    {
        let c = s.get_char(i);
        let u = c as u32;
        if u < 48 || u > 57 {
            assert(!is_digit(s@[i as int]));
            return None;
        }
        let d = (u - 48) as u64;
        let t = acc * 10 + d;
        proof {
            lemma_digits_val_snoc(s@, i as int);
            assert(all_digits(s@.subrange(0, i as int + 1))) by {
                assert(forall|j: int|
                    0 <= j < i as int + 1 ==> s@.subrange(0, i as int + 1)[j] == s@[j]);
                assert(is_digit(s@[i as int]));
            }
        }
        if t > 0xFFFF_FFFF {
            proof {
                if all_digits(s@) {
                    lemma_digits_val_prefix_le(s@, i as int + 1);
                }
            }
            return None;
        }
        acc = t;
        i = i + 1;
    }
    proof {
        assert(s@.subrange(0, n as int) =~= s@);
    }
    Some(acc as u32)
}

/// Reads `s[from..to]` as an unsigned decimal integer of value at most
/// `bound`. Succeeds exactly when the range is one or more decimal digits
/// whose value is within the bound, and then returns that value.
fn parse_digits_bounded(s: &str, from: usize, to: usize, bound: u64) -> (r: Option<u64>)
    requires
        from <= to <= s@.len(),
        bound < 0x1000_0000_0000_0000,
    ensures
        r is Some <==> {
            let t = s@.subrange(from as int, to as int);
            t.len() > 0 && all_digits(t) && digits_val(t) <= bound
        },
        r matches Some(v) ==> v == digits_val(s@.subrange(from as int, to as int)) && v <= bound,
{
    let ghost t = s@.subrange(from as int, to as int);
    if from == to {
        return None;
    }
    let mut acc: u64 = 0;
    let mut i: usize = from;
    while i < to
        invariant
            from <= i <= to <= s@.len(),
            bound < 0x1000_0000_0000_0000,
            t == s@.subrange(from as int, to as int),
            all_digits(t.subrange(0, i - from)),
            digits_val(t.subrange(0, i - from)) <= bound ==> acc == digits_val(
                t.subrange(0, i - from),
            ),
            digits_val(t.subrange(0, i - from)) > bound ==> acc == bound + 1,
            acc <= bound + 1,
        decreases to - i,
    {
        let c = s.get_char(i);
        let u = c as u32;
        proof {
            assert(t[i - from] == s@[i as int]);
        }
        if u < 48 || u > 57 {
            assert(!is_digit(t[i - from]));
            return None;
        }
        let d = (u - 48) as u64;
        let v = acc * 10 + d;
        proof {
            lemma_digits_val_snoc(t, i - from);
            assert(all_digits(t.subrange(0, i - from + 1))) by {
                assert(forall|j: int|
                    0 <= j < i - from + 1 ==> t.subrange(0, i - from + 1)[j] == t[j]);
                assert(is_digit(t[i - from]));
            }
            lemma_digits_val_nonneg(t.subrange(0, i - from));
        }
        if v > bound {
            acc = bound + 1;
        } else {
            acc = v;
        }
        i = i + 1;
    }
    proof {
        assert(t.subrange(0, to - from) =~= t);
    }
    if acc > bound {
        None
    } else {
        Some(acc)
    }
}

/// Every character of `s[from..to]` is a decimal digit.
fn digits_only(s: &str, from: usize, to: usize) -> (r: bool)
    requires
        from <= to <= s@.len(),
    ensures
        r == all_digits(s@.subrange(from as int, to as int)),
{
    let ghost t = s@.subrange(from as int, to as int);
    let mut i: usize = from;
    while i < to
        invariant
            from <= i <= to <= s@.len(),
            t == s@.subrange(from as int, to as int),
            all_digits(t.subrange(0, i - from)),
        decreases to - i,
    {
        let c = s.get_char(i);
        let u = c as u32;
        proof {
            assert(t[i - from] == s@[i as int]);
        }
        if u < 48 || u > 57 {
            assert(!is_digit(t[i - from]));
            return false;
        }
        proof {
            assert(all_digits(t.subrange(0, i - from + 1))) by {
                assert(forall|j: int|
                    0 <= j < i - from + 1 ==> t.subrange(0, i - from + 1)[j] == t[j]);
                assert(is_digit(t[i - from]));
            }
        }
        i = i + 1;
    }
    proof {
        assert(t.subrange(0, to - from) =~= t);
    }
    true
}

/// The value, in thousandths, contributed by a fractional digit string:
/// its first three digits, padded with zeros on the right; digits past the
/// third are below the stored resolution and are dropped.
pub open spec fn frac_milli(s: Seq<char>) -> int {
    if s.len() >= 3 {
        digits_val(s.subrange(0, 3))
    } else if s.len() == 2 {
        digits_val(s) * 10
    } else if s.len() == 1 {
        digits_val(s) * 100
    } else {
        0
    }
}

/// The unsigned body of a decimal power value: one or more integer digits,
/// optionally followed by a point and one or more fractional digits.
pub open spec fn unsigned_milli_ok(s: Seq<char>) -> bool {
    match find_from(s, '.', 0) {
        None => s.len() > 0 && all_digits(s),
        Some(i) => {
            let ip = s.subrange(0, i);
            let fp = s.subrange(i + 1, s.len() as int);
            ip.len() > 0 && all_digits(ip) && fp.len() > 0 && all_digits(fp)
        },
    }
}

/// The value of an unsigned decimal body, in thousandths.
pub open spec fn unsigned_milli_val(s: Seq<char>) -> int {
    match find_from(s, '.', 0) {
        None => digits_val(s) * 1000,
        Some(i) => digits_val(s.subrange(0, i)) * 1000 + frac_milli(
            s.subrange(i + 1, s.len() as int),
        ),
    }
}

/// A decimal power value: an unsigned body with an optional leading minus
/// sign.
pub open spec fn milli_ok(s: Seq<char>) -> bool {
    if s.len() > 0 && s[0] == '-' {
        unsigned_milli_ok(s.subrange(1, s.len() as int))
    } else {
        unsigned_milli_ok(s)
    }
}

/// The value of a decimal power value, in thousandths.
pub open spec fn milli_val(s: Seq<char>) -> int {
    if s.len() > 0 && s[0] == '-' {
        -unsigned_milli_val(s.subrange(1, s.len() as int))
    } else {
        unsigned_milli_val(s)
    }
}

/// Reads the whole of `s` as an unsigned decimal value in thousandths.
/// Succeeds exactly when `s` fits the unsigned grammar and its value is at
/// most `MAX_ABS_MILLI_DBM`.
fn parse_unsigned_milli(s: &str) -> (r: Option<i64>)
    ensures
        r is Some <==> unsigned_milli_ok(s@) && unsigned_milli_val(s@) <= MAX_ABS_MILLI_DBM,
        r matches Some(v) ==> v == unsigned_milli_val(s@) && 0 <= v <= MAX_ABS_MILLI_DBM,
{
    let n = s.unicode_len();
    match find_char(s, '.', 0) {
        None => {
            match parse_digits_bounded(s, 0, n, 1_000_000) {
                Some(v) => {
                    proof {
                        assert(s@.subrange(0, n as int) =~= s@);
                    }
                    Some((v * 1000) as i64)
                },
                None => {
                    proof {
                        assert(s@.subrange(0, n as int) =~= s@);
                        if all_digits(s@) {
                            lemma_digits_val_nonneg(s@);
                        }
                    }
                    None
                },
            }
        },
        Some(dot) => {
            let ghost ip = s@.subrange(0, dot as int);
            let ghost fp = s@.subrange(dot as int + 1, s@.len() as int);
            if dot + 1 == n {
                // a trailing point with no fractional digits is malformed
                return None;
            }
            if !digits_only(s, dot + 1, n) {
                return None;
            }
            let flen = n - (dot + 1);
            let take: usize = if flen >= 3 {
                3
            } else {
                flen
            };
            proof {
                assert(all_digits(fp.subrange(0, take as int))) by {
                    assert(forall|j: int|
                        0 <= j < take as int ==> fp.subrange(0, take as int)[j] == fp[j]);
                }
                lemma_digits_val_upper(fp.subrange(0, take as int));
                reveal_with_fuel(pow10, 4);
                assert(pow10(1) == 10 && pow10(2) == 100 && pow10(3) == 1000);
                assert(digits_val(fp.subrange(0, take as int)) <= 999);
                assert(s@.subrange(dot as int + 1, dot as int + 1 + take as int) =~= fp.subrange(
                    0,
                    take as int,
                ));
            }
            let fv = match parse_digits_bounded(s, dot + 1, dot + 1 + take, 999) {
                Some(fv) => fv,
                None => {
                    // unreachable: at most three digits read as at most 999
                    return None;
                },
            };
            let fm: u64 = if take == 3 {
                fv
            } else if take == 2 {
                fv * 10
            } else {
                fv * 100
            };
            proof {
                if take as int == 3 {
                    assert(fp.len() >= 3);
                    assert(fm == frac_milli(fp));
                } else {
                    assert(fp.subrange(0, take as int) =~= fp);
                    assert(fm == frac_milli(fp));
                }
            }
            match parse_digits_bounded(s, 0, dot, 1_000_000) {
                Some(iv) => {
                    let v = iv * 1000 + fm;
                    if v > 1_000_000_000 {
                        proof {
                            lemma_digits_val_nonneg(ip);
                        }
                        None
                    } else {
                        Some(v as i64)
                    }
                },
                None => {
                    proof {
                        if ip.len() > 0 && all_digits(ip) {
                            lemma_digits_val_nonneg(ip);
                        }
                    }
                    None
                },
            }
        },
    }
}

/// Reads the whole of `s` as a signed decimal power value in thousandths
/// (of a dBm). Succeeds exactly when `s` fits the signed grammar and its
/// magnitude is at most `MAX_ABS_MILLI_DBM`, and then returns the exact
/// value.
pub fn parse_milli_dbm(s: &str) -> (r: Option<i64>)
    ensures
        r is Some <==> milli_ok(s@) && -MAX_ABS_MILLI_DBM <= milli_val(s@) <= MAX_ABS_MILLI_DBM,
        r matches Some(v) ==> v == milli_val(s@),
{
    let n = s.unicode_len();
    if n > 0 && s.get_char(0) == '-' {
        let body = s.substring_char(1, n);
        match parse_unsigned_milli(body) {
            Some(v) => Some(-v),
            None => None,
        }
    } else {
        parse_unsigned_milli(s)
    }
}

} // verus!
