//! Decimal digits: the spec-level decimal notation of a number, a verified
//! formatter, and the forgiving text-to-number parsers used by the exercise
//! table (invalid text becomes zero, it never fails).

use vstd::prelude::*;

verus! {

/// The character for one decimal digit value.
pub open spec fn digit_char(n: int) -> char {
    if n == 0 {
        '0'
    } else if n == 1 {
        '1'
    } else if n == 2 {
        '2'
    } else if n == 3 {
        '3'
    } else if n == 4 {
        '4'
    } else if n == 5 {
        '5'
    } else if n == 6 {
        '6'
    } else if n == 7 {
        '7'
    } else if n == 8 {
        '8'
    } else {
        '9'
    }
}

/// Whether `c` is a decimal digit character.
pub open spec fn is_digit(c: char) -> bool {
    c == '0' || c == '1' || c == '2' || c == '3' || c == '4' || c == '5' || c == '6' || c == '7'
        || c == '8' || c == '9'
}

/// The value of a decimal digit character; meaningful only when `is_digit(c)`.
pub open spec fn digit_val(c: char) -> nat {
    if c == '0' {
        0
    } else if c == '1' {
        1
    } else if c == '2' {
        2
    } else if c == '3' {
        3
    } else if c == '4' {
        4
    } else if c == '5' {
        5
    } else if c == '6' {
        6
    } else if c == '7' {
        7
    } else if c == '8' {
        8
    } else {
        9
    }
}

/// The usual decimal notation of `n`: most significant digit first, no sign,
/// no leading zero except for `n == 0` itself.
pub open spec fn dec_digits(n: nat) -> Seq<char>
    decreases n,
{
    if n < 10 {
        seq![digit_char(n as int)]
    } else {
        dec_digits(n / 10) + seq![digit_char((n % 10) as int)]
    }
}

/// The number denoted by a sequence of digit characters, most significant
/// first; meaningful only when every character is a digit.
pub open spec fn digits_val(s: Seq<char>) -> nat
    decreases s.len(),
{
    if s.len() == 0 {
        0
    } else {
        digits_val(s.drop_last()) * 10 + digit_val(s.last())
    }
}

/// Whether every character of `s` is a decimal digit.
pub open spec fn all_digits(s: Seq<char>) -> bool {
    forall|i: int| 0 <= i < s.len() ==> is_digit(#[trigger] s[i])
}

/// Decimal notation consists of digits and denotes the number it notates.
pub proof fn lemma_dec_digits_val(n: nat)
    ensures
        dec_digits(n).len() >= 1,
        all_digits(dec_digits(n)),
        digits_val(dec_digits(n)) == n,
    decreases n,
{
    if n < 10 {
        assert(digits_val(dec_digits(n)) == digits_val(Seq::<char>::empty()) * 10 + digit_val(
            digit_char(n as int),
        )) by {
            assert(dec_digits(n).drop_last() =~= Seq::<char>::empty());
        }
    } else {
        lemma_dec_digits_val(n / 10);
        let s = dec_digits(n);
        assert(s.drop_last() =~= dec_digits(n / 10));
        assert(s.last() == digit_char((n % 10) as int));
        assert(forall|i: int|
            0 <= i < s.len() ==> is_digit(#[trigger] s[i]) == if i < s.len() - 1 {
                is_digit(dec_digits(n / 10)[i])
            } else {
                is_digit(digit_char((n % 10) as int))
            });
    }
}

/// The exec mirror of [`digit_char`].
pub fn digit_char_exec(n: u64) -> (c: char)
    requires
        n < 10,
    ensures
        c == digit_char(n as int),
{
    if n == 0 {
        '0'
    } else if n == 1 {
        '1'
    } else if n == 2 {
        '2'
    } else if n == 3 {
        '3'
    } else if n == 4 {
        '4'
    } else if n == 5 {
        '5'
    } else if n == 6 {
        '6'
    } else if n == 7 {
        '7'
    } else if n == 8 {
        '8'
    } else {
        '9'
    }
}

/// The exec mirror of [`is_digit`] and [`digit_val`]: the digit value of `c`,
/// or `None` when `c` is not a digit.
pub fn digit_of(c: char) -> (r: Option<u64>)
    ensures
        r is Some <==> is_digit(c),
        r is Some ==> r->0 == digit_val(c),
{
    if c == '0' {
        Some(0)
    } else if c == '1' {
        Some(1)
    } else if c == '2' {
        Some(2)
    } else if c == '3' {
        Some(3)
    } else if c == '4' {
        Some(4)
    } else if c == '5' {
        Some(5)
    } else if c == '6' {
        Some(6)
    } else if c == '7' {
        Some(7)
    } else if c == '8' {
        Some(8)
    } else if c == '9' {
        Some(9)
    } else {
        None
    }
}

/// Relies on `String::push`: appends exactly the given character.
#[verifier::external_body]
pub(crate) fn push_char(s: &mut String, c: char)
    ensures
        final(s)@ == old(s)@ + seq![c],
{
    s.push(c)
}

/// Formats `n` in decimal notation.
pub fn u64_to_string(n: u64) -> (r: String)
    ensures
        r@ == dec_digits(n as nat),
{
    let mut rev: Vec<char> = Vec::new();
    let mut m: u64 = n;
    if m == 0 {
        let mut s = String::new();
        push_char(&mut s, '0');
        assert(s@ =~= dec_digits(0));
        return s;
    }
    while m > 0
        invariant
            dec_digits(n as nat) == if m > 0 {
                dec_digits(m as nat) + rev@.reverse()
            } else {
                rev@.reverse()
            },
        decreases m,
    {
        let d = m % 10;
        let ghost old_rev = rev@;
        rev.push(digit_char_exec(d));
        assert(rev@.reverse() =~= seq![digit_char(d as int)] + old_rev.reverse());
        m = m / 10;
        proof {
            if m > 0 {
                assert(dec_digits(n as nat) =~= dec_digits(m as nat) + rev@.reverse());
            } else {
                assert(dec_digits(n as nat) =~= rev@.reverse());
            }
        }
    }
    let mut s = String::new();
    let mut i: usize = rev.len();
    while i > 0
        invariant
            i <= rev.len(),
            dec_digits(n as nat) == rev@.reverse(),
            s@ == rev@.subrange(i as int, rev@.len() as int).reverse(),
        decreases i,
    {
        i = i - 1;
        let ghost old_s = s@;
        push_char(&mut s, rev[i]);
        assert(s@ =~= rev@.subrange(i as int, rev@.len() as int).reverse());
    }
    assert(s@ =~= rev@.reverse());
    s
}

/// Numbers grow (weakly) as digits are appended: the value of a digit string
/// is at least the value of any of its prefixes.
pub proof fn lemma_digits_val_prefix(s: Seq<char>, i: int)
    requires
        0 <= i <= s.len(),
    ensures
        digits_val(s) >= digits_val(s.take(i)),
    decreases s.len(),
{
    if i < s.len() {
        assert(s.drop_last().take(i) =~= s.take(i));
        lemma_digits_val_prefix(s.drop_last(), i);
    } else {
        assert(s.take(i) =~= s);
    }
}

/// For positive `k`: `a > b / k` exactly when `a * k > b`.
pub proof fn lemma_div_strict_bound(a: nat, b: nat, k: nat)
    requires
        k > 0,
    ensures
        a > b / k <==> a * k > b,
{
    vstd::arithmetic::div_mod::lemma_fundamental_div_mod(b as int, k as int);
    let q = b as int / k as int;
    let r = b as int % k as int;
    assert(b == k * q + r);
    assert(q == b / k);
    if a > b / k {
        assert(a * k > b) by (nonlinear_arith)
            requires
                a >= q + 1,
                b == k * q + r,
                r < k,
                k > 0,
        ;
    } else {
        assert(a * k <= b) by (nonlinear_arith)
            requires
                a <= q,
                b == k * q + r,
                r >= 0,
                k > 0,
        ;
    }
}

/// The number a digit string denotes, bounded to `u64`: `None` when the
/// string is empty, holds a non-digit, or denotes more than `u64::MAX`.
pub open spec fn sp_chunk_u64(s: Seq<char>) -> Option<u64> {
    if s.len() > 0 && all_digits(s) && digits_val(s) <= u64::MAX {
        Some(digits_val(s) as u64)
    } else {
        None
    }
}

/// Reads the digit string `v[start..end]` as a number, as
/// [`sp_chunk_u64`] describes.
pub fn parse_chunk_u64(v: &Vec<char>, start: usize, end: usize) -> (r: Option<u64>)
    requires
        start <= end <= v@.len(),
    ensures
        r == sp_chunk_u64(v@.subrange(start as int, end as int)),
{
    let ghost s = v@.subrange(start as int, end as int);
    if start == end {
        return None;
    }
    let mut acc: u64 = 0;
    let mut j: usize = start;
    while j < end
        invariant
            start <= j <= end <= v@.len(),
            s == v@.subrange(start as int, end as int),
            all_digits(s.take(j - start)),
            acc as nat == digits_val(s.take(j - start)),
        decreases end - j,
    {
        let ghost pre = s.take(j - start);
        assert(v@[j as int] == s[j - start]);
        match digit_of(v[j]) {
            None => {
                assert(!all_digits(s)) by {
                    assert(!is_digit(s[j - start]));
                }
                return None;
            },
            Some(d) => {
                proof {
                    assert(s.take(j + 1 - start).drop_last() =~= pre);
                    assert(s.take(j + 1 - start).last() == s[j - start]);
                }
                if acc > (u64::MAX - d) / 10 {
                    proof {
                        lemma_div_strict_bound(acc as nat, (u64::MAX - d) as nat, 10);
                        assert(digits_val(s.take(j + 1 - start)) > u64::MAX);
                        lemma_digits_val_prefix(s, j + 1 - start);
                    }
                    return None;
                }
                proof {
                    lemma_div_strict_bound(acc as nat, (u64::MAX - d) as nat, 10);
                }
                acc = acc * 10 + d;
                j = j + 1;
            },
        }
    }
    assert(s.take(j - start) =~= s);
    Some(acc)
}

/// First position of `c` in `s` at or after `from`; `s.len()` when absent.
pub open spec fn find_char(s: Seq<char>, c: char, from: int) -> int
    decreases s.len() - from,
{
    if from < 0 || from >= s.len() {
        s.len() as int
    } else if s[from] == c {
        from
    } else {
        find_char(s, c, from + 1)
    }
}

/// Finds the first `c` in `v[start..]`, as [`find_char`] describes.
pub fn find_char_from(v: &Vec<char>, c: char, start: usize) -> (r: usize)
    requires
        start <= v@.len(),
    ensures
        r == find_char(v@, c, start as int),
        start <= r <= v@.len(),
        r < v@.len() ==> v@[r as int] == c,
    decreases v@.len() - start,
{
    let mut j: usize = start;
    while j < v.len()
        invariant
            start <= j <= v@.len(),
            find_char(v@, c, start as int) == find_char(v@, c, j as int),
        decreases v@.len() - j,
    {
        if v[j] == c {
            return j;
        }
        j = j + 1;
    }
    j
}

/// The number a table cell's text denotes, with the forgiving policy of the
/// editor: an optional leading `+`, then decimal digits.  Empty text, any
/// other character, and values over `usize::MAX` all yield `0`.
pub open spec fn sp_usize_of_text(s: Seq<char>) -> nat {
    let body = if s.len() > 0 && s[0] == '+' {
        s.drop_first()
    } else {
        s
    };
    if body.len() > 0 && all_digits(body) && digits_val(body) <= usize::MAX {
        digits_val(body)
    } else {
        0
    }
}

/// Parses a numeric table cell, as [`sp_usize_of_text`] describes: the
/// number the text denotes, or `0` when it denotes none.
pub fn parse_usize_text(s: &str) -> (n: usize)
    ensures
        n as nat == sp_usize_of_text(s@),
{
    let v = str_to_chars(s);
    let n = parse_usize_chars(&v, 0, v.len());
    assert(v@.subrange(0, v@.len() as int) =~= s@);
    n
}

/// [`parse_usize_text`] on the character range `v[start..end]`.
pub fn parse_usize_chars(v: &Vec<char>, start: usize, end: usize) -> (n: usize)
    requires
        start <= end <= v@.len(),
    ensures
        n as nat == sp_usize_of_text(v@.subrange(start as int, end as int)),
{
    let ghost s = v@.subrange(start as int, end as int);
    let body_start: usize = if start < end && v[start] == '+' {
        start + 1
    } else {
        start
    };
    proof {
        let body = if s.len() > 0 && s[0] == '+' {
            s.drop_first()
        } else {
            s
        };
        assert(body =~= v@.subrange(body_start as int, end as int));
    }
    match parse_chunk_u64(v, body_start, end) {
        Some(n) => {
            if n <= usize::MAX as u64 {
                n as usize
            } else {
                0
            }
        },
        None => 0,
    }
}

/// Milliseconds of rest denoted by a table cell, with the forgiving policy
/// of the editor: an optional leading `+`, then a plain decimal number of
/// seconds with an optional fraction (`"90"`, `"7.5"`, `".25"`).  The
/// fraction is kept to millisecond precision, further digits are dropped.
/// Empty text, any other character, and values that do not fit all yield
/// `0`.
pub open spec fn sp_rest_ms_of_text(s: Seq<char>) -> nat {
    let body = if s.len() > 0 && s[0] == '+' {
        s.drop_first()
    } else {
        s
    };
    let dot = find_char(body, '.', 0);
    let ip = body.subrange(0, dot);
    let fp = if dot < body.len() {
        body.subrange(dot + 1, body.len() as int)
    } else {
        Seq::<char>::empty()
    };
    if all_digits(ip) && all_digits(fp) && ip.len() + fp.len() > 0 {
        let v = digits_val(ip) * 1000 + frac_ms(fp);
        if v <= u64::MAX {
            v
        } else {
            0
        }
    } else {
        0
    }
}

/// The milliseconds denoted by the fractional digits of a seconds value,
/// truncated to millisecond precision.
pub open spec fn frac_ms(f: Seq<char>) -> nat {
    if f.len() == 0 {
        0
    } else if f.len() == 1 {
        digits_val(f) * 100
    } else if f.len() == 2 {
        digits_val(f) * 10
    } else {
        digits_val(f.subrange(0, 3))
    }
}

/// Parses a rest cell into milliseconds, as [`sp_rest_ms_of_text`]
/// describes: the duration the text denotes, or `0` when it denotes none.
#[verifier::rlimit(40)]
pub fn parse_rest_ms_text(s: &str) -> (ms: u64)
    ensures
        ms as nat == sp_rest_ms_of_text(s@),
{
    let v = str_to_chars(s);
    let end: usize = v.len();
    let body_start: usize = if end > 0 && v[0] == '+' {
        1
    } else {
        0
    };
    let ghost body = if s@.len() > 0 && s@[0] == '+' {
        s@.drop_first()
    } else {
        s@
    };
    proof {
        assert(body =~= v@.subrange(body_start as int, end as int));
    }
    let dot = find_char_from(&v, '.', body_start);
    proof {
        lemma_find_char_suffix(v@, '.', body_start as int);
    }
    let ghost dot_rel = find_char(body, '.', 0);
    assert(dot_rel == dot - body_start);
    let ghost ip = body.subrange(0, dot_rel);
    let ghost fp = if dot_rel < body.len() {
        body.subrange(dot_rel + 1, body.len() as int)
    } else {
        Seq::<char>::empty()
    };
    assert(ip =~= v@.subrange(body_start as int, dot as int));
    if dot == body_start && dot >= end {
        // empty text (or a lone `+`)
        return 0;
    }
    if dot == body_start && dot + 1 >= end && dot < end {
        // a lone dot
        assert(fp =~= Seq::<char>::empty());
        return 0;
    }
    // integer part
    let ip_val: u64;
    if dot == body_start {
        ip_val = 0;
        assert(ip =~= Seq::<char>::empty());
    } else {
        match parse_chunk_u64(&v, body_start, dot) {
            Some(a) => {
                ip_val = a;
            },
            None => {
                if !all_digits_chars(&v, body_start, dot) {
                    return 0;
                }
                // all digits, so the chunk was refused for its size: the
                // total is certainly over `u64::MAX` as well
                proof {
                    assert(digits_val(ip) > u64::MAX);
                    assert(digits_val(ip) * 1000 + frac_ms(fp) > u64::MAX) by (nonlinear_arith)
                        requires
                            digits_val(ip) > u64::MAX,
                    ;
                }
                return 0;
            },
        }
    }
    // fractional part
    let frac: u64;
    if dot < end {
        assert(fp =~= v@.subrange(dot + 1, end as int));
        if !all_digits_chars(&v, dot + 1, end) {
            return 0;
        }
        let flen: usize = end - (dot + 1);
        proof {
            if flen >= 1 {
                assert(is_digit(fp[0]) && fp[0] == v@[dot + 1]);
            }
            if flen >= 2 {
                assert(is_digit(fp[1]) && fp[1] == v@[dot + 2]);
            }
            if flen >= 3 {
                assert(is_digit(fp[2]) && fp[2] == v@[dot + 3]);
            }
        }
        if flen == 0 {
            frac = 0;
        } else if flen == 1 {
            let d0 = digit_of(v[dot + 1]).unwrap();
            frac = d0 * 100;
            proof {
                assert(digits_val(fp) == digit_val(fp[0])) by {
                    reveal_with_fuel(digits_val, 2);
                    assert(fp.drop_last() =~= Seq::<char>::empty());
                    assert(fp.last() == fp[0]);
                }
            }
        } else if flen == 2 {
            let d0 = digit_of(v[dot + 1]).unwrap();
            let d1 = digit_of(v[dot + 2]).unwrap();
            frac = (d0 * 10 + d1) * 10;
            proof {
                assert(digits_val(fp) == digit_val(fp[0]) * 10 + digit_val(fp[1])) by {
                    reveal_with_fuel(digits_val, 3);
                    assert(fp.drop_last() =~= seq![fp[0]]);
                    assert(fp.last() == fp[1]);
                    assert(seq![fp[0]].drop_last() =~= Seq::<char>::empty());
                    assert(seq![fp[0]].last() == fp[0]);
                }
            }
        } else {
            let d0 = digit_of(v[dot + 1]).unwrap();
            let d1 = digit_of(v[dot + 2]).unwrap();
            let d2 = digit_of(v[dot + 3]).unwrap();
            frac = d0 * 100 + d1 * 10 + d2;
            proof {
                let f3 = fp.subrange(0, 3);
                assert(digits_val(f3) == (digit_val(fp[0]) * 10 + digit_val(fp[1])) * 10
                    + digit_val(fp[2])) by {
                    reveal_with_fuel(digits_val, 4);
                    assert(f3.drop_last() =~= seq![fp[0], fp[1]]);
                    assert(f3.last() == fp[2]);
                    assert(seq![fp[0], fp[1]].drop_last() =~= seq![fp[0]]);
                    assert(seq![fp[0], fp[1]].last() == fp[1]);
                    assert(seq![fp[0]].drop_last() =~= Seq::<char>::empty());
                    assert(seq![fp[0]].last() == fp[0]);
                }
            }
        }
    } else {
        frac = 0;
        assert(fp =~= Seq::<char>::empty());
    }
    assert(frac as nat == frac_ms(fp));
    assert(frac <= 999);
    // combine, rejecting values that do not fit
    if ip_val > (u64::MAX - frac) / 1000 {
        proof {
            lemma_div_strict_bound(ip_val as nat, (u64::MAX - frac) as nat, 1000);
        }
        return 0;
    }
    proof {
        lemma_div_strict_bound(ip_val as nat, (u64::MAX - frac) as nat, 1000);
    }
    ip_val * 1000 + frac
}

/// Searching from an offset is searching the suffix, shifted by the offset.
pub proof fn lemma_find_char_suffix(s: Seq<char>, c: char, off: int)
    requires
        0 <= off <= s.len(),
    ensures
        find_char(s, c, off) == off + find_char(s.subrange(off, s.len() as int), c, 0),
    decreases s.len() - off,
{
    let suf = s.subrange(off, s.len() as int);
    if off == s.len() {
    } else if s[off] == c {
        assert(suf[0] == c);
    } else {
        lemma_find_char_suffix(s, c, off + 1);
        assert(s.subrange(off + 1, s.len() as int) =~= suf.subrange(1, suf.len() as int));
        if off == 0 {
            assert(suf =~= s);
        } else {
            lemma_find_char_suffix(suf, c, 1);
        }
    }
}

/// Whether every character of `v[start..end]` is a decimal digit.
pub fn all_digits_chars(v: &Vec<char>, start: usize, end: usize) -> (b: bool)
    requires
        start <= end <= v@.len(),
    ensures
        b == all_digits(v@.subrange(start as int, end as int)),
{
    let ghost s = v@.subrange(start as int, end as int);
    let mut j: usize = start;
    while j < end
        invariant
            start <= j <= end <= v@.len(),
            s == v@.subrange(start as int, end as int),
            all_digits(s.take(j - start)),
        decreases end - j,
    {
        if digit_of(v[j]).is_none() {
            assert(!is_digit(s[j - start]));
            return false;
        }
        assert(s.take(j + 1 - start) =~= s.take(j - start).push(s[j - start]));
        j = j + 1;
    }
    assert(s.take(j - start) =~= s);
    true
}

/// Converts a string to the vector of its characters.
pub fn str_to_chars(s: &str) -> (v: Vec<char>)
    ensures
        v@ == s@,
{
    let n = s.unicode_len();
    let mut v: Vec<char> = Vec::new();
    let mut i: usize = 0;
    while i < n
        invariant
            n == s@.len(),
            i <= n,
            v@ == s@.take(i as int),
        decreases n - i,
    {
        v.push(s.get_char(i));
        i = i + 1;
        assert(v@ =~= s@.take(i as int));
    }
    assert(v@ =~= s@);
    v
}

/// The text of a numeric table cell: empty for zero, decimal otherwise.
pub open spec fn no_zero_seq(n: nat) -> Seq<char> {
    if n == 0 {
        Seq::<char>::empty()
    } else {
        dec_digits(n)
    }
}

/// Formats a numeric table cell: the empty string for zero, plain decimal
/// otherwise.
pub fn no_zero(n: usize) -> (r: String)
    ensures
        r@ == no_zero_seq(n as nat),
{
    if n == 0 {
        String::new()
    } else {
        u64_to_string(n as u64)
    }
}

/// The text of a progression cell: the two bounds joined by a dash, each
/// blank when zero.
pub fn progression_text(low: usize, high: usize) -> (r: String)
    ensures
        r@ == no_zero_seq(low as nat) + seq!['-'] + no_zero_seq(high as nat),
{
    let mut s = no_zero(low);
    push_char(&mut s, '-');
    let hi = no_zero(high);
    s.append(hi.as_str());
    s
}

} // verus!
