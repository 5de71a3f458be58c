//! The persistence format: a compact JSON document holding the ordered
//! exercise list.  The encoder and the decoder are both verified against
//! spec-level definitions of the format, and proved to round-trip: decoding
//! an encoded list yields the list itself, field for field.
//!
//! One record is written as
//! `{"name":"...","progression":[5,12],"reps":5,"sets":3,"rest":{"secs":60,"nanos":0}}`,
//! the list as a comma-separated array of records.  The rest is written as
//! whole seconds and nanoseconds; string contents are escaped as JSON asks:
//! quote and backslash with a backslash, control characters as `\u00XX`.

use vstd::prelude::*;
use crate::digits::all_digits;
use crate::digits::dec_digits;
use crate::digits::digit_val;
use crate::digits::digit_of;
use crate::digits::digits_val;
use crate::digits::is_digit;
use crate::digits::lemma_dec_digits_val;
use crate::digits::parse_chunk_u64;
use crate::digits::push_char;
use crate::digits::str_to_chars;
use crate::digits::u64_to_string;
use crate::exercise::Exercise;
use crate::exercise::ExerciseV;
use crate::exercise::views_of;

verus! {

/// Whether `c` is a control character, which JSON never holds raw.
pub open spec fn is_control(c: char) -> bool {
    (c as u32) < 32
}

/// The lowercase hexadecimal digit character for one value below 16.
pub open spec fn hex_char(n: int) -> char {
    if n == 0 {
        '0'
    } else if n == 1 {
        '1'
    } else if n == 2 {
        '2'
    } else if n == 3 {
        '3'
    } else if n == 4 {
        '4'
    } else if n == 5 {
        '5'
    } else if n == 6 {
        '6'
    } else if n == 7 {
        '7'
    } else if n == 8 {
        '8'
    } else if n == 9 {
        '9'
    } else if n == 10 {
        'a'
    } else if n == 11 {
        'b'
    } else if n == 12 {
        'c'
    } else if n == 13 {
        'd'
    } else if n == 14 {
        'e'
    } else {
        'f'
    }
}

/// Whether `c` is a hexadecimal digit, in either case.
pub open spec fn is_hex(c: char) -> bool {
    is_digit(c) || c == 'a' || c == 'b' || c == 'c' || c == 'd' || c == 'e' || c == 'f' || c == 'A'
        || c == 'B' || c == 'C' || c == 'D' || c == 'E' || c == 'F'
}

/// The value of a hexadecimal digit character; meaningful only when
/// `is_hex(c)`.
pub open spec fn hex_val(c: char) -> nat {
    if is_digit(c) {
        digit_val(c)
    } else if c == 'a' || c == 'A' {
        10
    } else if c == 'b' || c == 'B' {
        11
    } else if c == 'c' || c == 'C' {
        12
    } else if c == 'd' || c == 'D' {
        13
    } else if c == 'e' || c == 'E' {
        14
    } else {
        15
    }
}

/// How one character appears inside a JSON string: itself, or an escape.
pub open spec fn escape_char(c: char) -> Seq<char> {
    if c == '"' {
        seq!['\\', '"']
    } else if c == '\\' {
        seq!['\\', '\\']
    } else if is_control(c) {
        seq!['\\', 'u', '0', '0', hex_char((c as u32) as int / 16), hex_char((c as u32) as int % 16)]
    } else {
        seq![c]
    }
}

/// How a whole string appears inside a JSON document.
pub open spec fn escape(s: Seq<char>) -> Seq<char>
    decreases s.len(),
{
    if s.len() == 0 {
        Seq::<char>::empty()
    } else {
        escape_char(s[0]) + escape(s.drop_first())
    }
}

/// Escaping one more character appends its escape.
pub proof fn lemma_escape_snoc(t: Seq<char>, i: int)
    requires
        0 <= i < t.len(),
    ensures
        escape(t.take(i + 1)) == escape(t.take(i)) + escape_char(t[i]),
    decreases i,
{
    if i == 0 {
        assert(t.take(1).drop_first() =~= Seq::<char>::empty());
        assert(t.take(1)[0] == t[0]);
        assert(t.take(0) =~= Seq::<char>::empty());
        assert(escape(t.take(1)) =~= escape(t.take(0)) + escape_char(t[0]));
    } else {
        lemma_escape_snoc(t.drop_first(), i - 1);
        assert(t.take(i + 1).drop_first() =~= t.drop_first().take(i));
        assert(t.take(i).drop_first() =~= t.drop_first().take(i - 1));
        assert(t.take(i + 1)[0] == t[0]);
        assert(t.take(i)[0] == t[0]);
        assert(escape(t.take(i + 1)) == escape_char(t[0]) + escape(t.drop_first().take(i)));
        assert(escape(t.take(i)) == escape_char(t[0]) + escape(t.drop_first().take(i - 1)));
        assert(t.drop_first()[i - 1] == t[i]);
        assert((escape_char(t[0]) + escape(t.drop_first().take(i - 1))) + escape_char(t[i])
            =~= escape_char(t[0]) + (escape(t.drop_first().take(i - 1)) + escape_char(t[i])));
    }
}

/// The opening of a record, up to and including the quote of the name.
pub open spec fn lit_name() -> Seq<char> {
    "{\"name\":\""@
}

/// Between the name's closing quote and the progression values.
pub open spec fn lit_prog() -> Seq<char> {
    ",\"progression\":["@
}

/// Between the progression and the rep target.
pub open spec fn lit_reps() -> Seq<char> {
    "],\"reps\":"@
}

/// Between the rep target and the set count.
pub open spec fn lit_sets() -> Seq<char> {
    ",\"sets\":"@
}

/// Between the set count and the rest seconds.
pub open spec fn lit_rest() -> Seq<char> {
    ",\"rest\":{\"secs\":"@
}

/// Between the rest seconds and its nanoseconds.
pub open spec fn lit_nanos() -> Seq<char> {
    ",\"nanos\":"@
}

/// The closing of a record.
pub open spec fn lit_close() -> Seq<char> {
    "}}"@
}

/// One record in the persistence format.
pub open spec fn enc_exercise(e: ExerciseV) -> Seq<char> {
    lit_name() + escape(e.name) + seq!['"'] + lit_prog() + dec_digits(e.progression_low)
        + seq![','] + dec_digits(e.progression_high) + lit_reps() + dec_digits(e.reps) + lit_sets()
        + dec_digits(e.sets) + lit_rest() + dec_digits(e.rest_ms / 1000) + lit_nanos()
        + dec_digits((e.rest_ms % 1000) * 1000000) + lit_close()
}

/// The records of a list, separated by commas.
pub open spec fn enc_items(l: Seq<ExerciseV>) -> Seq<char>
    decreases l.len(),
{
    if l.len() == 0 {
        Seq::<char>::empty()
    } else if l.len() == 1 {
        enc_exercise(l[0])
    } else {
        enc_exercise(l[0]) + seq![','] + enc_items(l.drop_first())
    }
}

/// A whole exercise list in the persistence format.
pub open spec fn enc_list(l: Seq<ExerciseV>) -> Seq<char> {
    seq!['['] + enc_items(l) + seq![']']
}

/// Encoding one more record appends a separator (after the first) and the
/// record.
pub proof fn lemma_enc_items_snoc(l: Seq<ExerciseV>, k: int)
    requires
        0 <= k < l.len(),
    ensures
        enc_items(l.take(k + 1)) == enc_items(l.take(k)) + (if k == 0 {
            Seq::<char>::empty()
        } else {
            seq![',']
        }) + enc_exercise(l[k]),
    decreases k,
{
    if k == 0 {
        assert(l.take(1) =~= seq![l[0]]);
        assert(l.take(0) =~= Seq::<ExerciseV>::empty());
        assert(enc_items(l.take(1)) == enc_exercise(l[0]));
        assert(enc_items(l.take(0)) + Seq::<char>::empty() + enc_exercise(l[0]) =~= enc_exercise(
            l[0],
        ));
    } else {
        lemma_enc_items_snoc(l.drop_first(), k - 1);
        assert(l.take(k + 1).drop_first() =~= l.drop_first().take(k));
        assert(l.take(k).drop_first() =~= l.drop_first().take(k - 1));
        assert(l.take(k + 1)[0] == l[0]);
        assert(l.take(k)[0] == l[0]);
        assert(l.take(k + 1).len() == k + 1);
        assert(enc_items(l.take(k + 1)) == enc_exercise(l[0]) + seq![','] + enc_items(
            l.drop_first().take(k),
        ));
        if k == 1 {
            assert(l.drop_first().take(0) =~= Seq::<ExerciseV>::empty());
            assert(enc_items(l.take(1)) == enc_exercise(l[0]));
            assert(l.drop_first()[0] == l[1]);
            assert(enc_items(l.drop_first().take(1)) == enc_exercise(l[1]));
            assert(enc_exercise(l[0]) + seq![','] + enc_exercise(l[1]) =~= enc_items(l.take(1))
                + seq![','] + enc_exercise(l[1]));
        } else {
            assert(enc_items(l.take(k)) == enc_exercise(l[0]) + seq![','] + enc_items(
                l.drop_first().take(k - 1),
            ));
            assert(l.drop_first()[k - 1] == l[k]);
            assert(enc_exercise(l[0]) + seq![','] + (enc_items(l.drop_first().take(k - 1))
                + seq![','] + enc_exercise(l[k])) =~= (enc_exercise(l[0]) + seq![','] + enc_items(
                l.drop_first().take(k - 1),
            )) + seq![','] + enc_exercise(l[k]));
        }
    }
}

/// The exec mirror of [`hex_char`].
fn hex_char_exec(n: u32) -> (c: char)
    requires
        n < 16,
    ensures
        c == hex_char(n as int),
{
    if n == 0 {
        '0'
    } else if n == 1 {
        '1'
    } else if n == 2 {
        '2'
    } else if n == 3 {
        '3'
    } else if n == 4 {
        '4'
    } else if n == 5 {
        '5'
    } else if n == 6 {
        '6'
    } else if n == 7 {
        '7'
    } else if n == 8 {
        '8'
    } else if n == 9 {
        '9'
    } else if n == 10 {
        'a'
    } else if n == 11 {
        'b'
    } else if n == 12 {
        'c'
    } else if n == 13 {
        'd'
    } else if n == 14 {
        'e'
    } else {
        'f'
    }
}

/// Appends the JSON escape of `name` to `out`.
fn append_escaped(out: &mut String, name: &str)
    ensures
        final(out)@ == old(out)@ + escape(name@),
{
    let v = str_to_chars(name);
    let n = v.len();
    let mut i: usize = 0;
    while i < n
        invariant
            n == v@.len(),
            v@ == name@,
            i <= n,
            out@ == old(out)@ + escape(name@.take(i as int)),
        decreases n - i,
    {
        let c = v[i];
        let ghost before = out@;
        if c == '"' {
            push_char(out, '\\');
            push_char(out, '"');
        } else if c == '\\' {
            push_char(out, '\\');
            push_char(out, '\\');
        } else if (c as u32) < 32 {
            push_char(out, '\\');
            push_char(out, 'u');
            push_char(out, '0');
            push_char(out, '0');
            push_char(out, hex_char_exec((c as u32) / 16));
            push_char(out, hex_char_exec((c as u32) % 16));
        } else {
            push_char(out, c);
        }
        proof {
            assert(out@ =~= before + escape_char(name@[i as int]));
            lemma_escape_snoc(name@, i as int);
            assert(out@ =~= old(out)@ + escape(name@.take(i + 1)));
        }
        i = i + 1;
    }
    assert(name@.take(n as int) =~= name@);
}

/// Appends the decimal notation of `n` to `out`.
fn append_u64(out: &mut String, n: u64)
    ensures
        final(out)@ == old(out)@ + dec_digits(n as nat),
{
    let d = u64_to_string(n);
    out.append(d.as_str());
}

/// Appends one encoded record to `out`, as [`enc_exercise`] describes.
fn append_exercise(out: &mut String, e: &Exercise)
    ensures
        final(out)@ == old(out)@ + enc_exercise(e@),
{
    out.append("{\"name\":\"");
    append_escaped(out, e.name.as_str());
    push_char(out, '"');
    out.append(",\"progression\":[");
    append_u64(out, e.progression_low as u64);
    push_char(out, ',');
    append_u64(out, e.progression_high as u64);
    out.append("],\"reps\":");
    append_u64(out, e.reps as u64);
    out.append(",\"sets\":");
    append_u64(out, e.sets as u64);
    out.append(",\"rest\":{\"secs\":");
    append_u64(out, e.rest_ms / 1000);
    out.append(",\"nanos\":");
    append_u64(out, (e.rest_ms % 1000) * 1000000);
    out.append("}}");
    proof {
        assert(final(out)@ =~= old(out)@ + enc_exercise(e@));
    }
}

/// Encodes the exercise list in the persistence format, as [`enc_list`]
/// describes.
pub fn encode_exercises(exercises: &Vec<Exercise>) -> (r: String)
    ensures
        r@ == enc_list(views_of(exercises@)),
{
    let ghost l = views_of(exercises@);
    let mut out = String::new();
    push_char(&mut out, '[');
    let n = exercises.len();
    let mut k: usize = 0;
    while k < n
        invariant
            n == exercises@.len(),
            l == views_of(exercises@),
            k <= n,
            out@ == seq!['['] + enc_items(l.take(k as int)),
        decreases n - k,
    {
        let ghost before = out@;
        if k > 0 {
            push_char(&mut out, ',');
        }
        append_exercise(&mut out, &exercises[k]);
        proof {
            lemma_enc_items_snoc(l, k as int);
            assert(l[k as int] == exercises@[k as int]@);
            assert(out@ =~= seq!['['] + enc_items(l.take(k + 1)));
        }
        k = k + 1;
    }
    push_char(&mut out, ']');
    proof {
        assert(l.take(n as int) =~= l);
        assert(out@ =~= enc_list(l));
    }
    out
}

/// Whether `lit` occurs in `s` at position `i`.
pub open spec fn sp_lit(s: Seq<char>, i: int, lit: Seq<char>) -> bool {
    0 <= i && i + lit.len() <= s.len() && s.subrange(i, i + lit.len()) == lit
}

/// The end of the run of digit characters beginning at `i`.
pub open spec fn sp_digit_run_end(s: Seq<char>, i: int) -> int
    decreases s.len() - i,
{
    if 0 <= i < s.len() && is_digit(s[i]) {
        sp_digit_run_end(s, i + 1)
    } else {
        i
    }
}

/// Reading a number at `i`: the digit run must be non-empty and denote at
/// most `u64::MAX`; the result is the value and the position after the run.
pub open spec fn sp_number(s: Seq<char>, i: int) -> Option<(u64, int)> {
    let j = sp_digit_run_end(s, i);
    if i < j && digits_val(s.subrange(i, j)) <= u64::MAX {
        Some((digits_val(s.subrange(i, j)) as u64, j))
    } else {
        None
    }
}

/// A parsed character prepended to the rest of a string body.
pub open spec fn sp_push_front(c: char, rest: Option<(Seq<char>, int)>) -> Option<(Seq<char>, int)> {
    match rest {
        None => None,
        Some((t, k)) => Some((seq![c] + t, k)),
    }
}

/// Reading a JSON string body at `i` (the opening quote already consumed):
/// the decoded characters and the position after the closing quote.  Raw
/// control characters, unknown escapes, and `\u` escapes above `00ff` are
/// refused.
pub open spec fn sp_string_body(s: Seq<char>, i: int) -> Option<(Seq<char>, int)>
    decreases s.len() - i,
{
    if i < 0 || i >= s.len() {
        None
    } else if s[i] == '"' {
        Some((Seq::<char>::empty(), i + 1))
    } else if s[i] == '\\' {
        if i + 1 >= s.len() {
            None
        } else {
            let e = s[i + 1];
            if e == '"' {
                sp_push_front('"', sp_string_body(s, i + 2))
            } else if e == '\\' {
                sp_push_front('\\', sp_string_body(s, i + 2))
            } else if e == '/' {
                sp_push_front('/', sp_string_body(s, i + 2))
            } else if e == 'b' {
                sp_push_front('\u{0008}', sp_string_body(s, i + 2))
            } else if e == 't' {
                sp_push_front('\t', sp_string_body(s, i + 2))
            } else if e == 'n' {
                sp_push_front('\n', sp_string_body(s, i + 2))
            } else if e == 'f' {
                sp_push_front('\u{000C}', sp_string_body(s, i + 2))
            } else if e == 'r' {
                sp_push_front('\r', sp_string_body(s, i + 2))
            } else if e == 'u' {
                if i + 6 > s.len() {
                    None
                } else {
                    let c1 = s[i + 2];
                    let c2 = s[i + 3];
                    let c3 = s[i + 4];
                    let c4 = s[i + 5];
                    if is_hex(c1) && is_hex(c2) && is_hex(c3) && is_hex(c4) {
                        let val = ((hex_val(c1) * 16 + hex_val(c2)) * 16 + hex_val(c3)) * 16
                            + hex_val(c4);
                        if val < 256 {
                            sp_push_front(((val as u8) as char), sp_string_body(s, i + 6))
                        } else {
                            None
                        }
                    } else {
                        None
                    }
                }
            } else {
                None
            }
        }
    } else if is_control(s[i]) {
        None
    } else {
        sp_push_front(s[i], sp_string_body(s, i + 1))
    }
}

/// Reading one record at `i`: each field in order, with the same bounds the
/// record itself obeys (`usize` counts, `u64` milliseconds, nanoseconds
/// below one second).
pub open spec fn sp_exercise(s: Seq<char>, i: int) -> Option<(ExerciseV, int)> {
    if !sp_lit(s, i, lit_name()) {
        None
    } else {
        match sp_string_body(s, i + lit_name().len()) {
            None => None,
            Some((name, i1)) => {
                if !sp_lit(s, i1, lit_prog()) {
                    None
                } else {
                    match sp_number(s, i1 + lit_prog().len()) {
                        None => None,
                        Some((low, i2)) => {
                            if low > usize::MAX as u64 || !(i2 < s.len() && s[i2] == ',') {
                                None
                            } else {
                                match sp_number(s, i2 + 1) {
                                    None => None,
                                    Some((high, i3)) => {
                                        if high > usize::MAX as u64 || !sp_lit(s, i3, lit_reps()) {
                                            None
                                        } else {
                                            sp_exercise_tail(s, i3 + lit_reps().len(), name, low, high)
                                        }
                                    },
                                }
                            }
                        },
                    }
                }
            },
        }
    }
}

/// The tail of one record, from the rep target on.
pub open spec fn sp_exercise_tail(s: Seq<char>, i: int, name: Seq<char>, low: u64, high: u64) -> Option<(ExerciseV, int)> {
    match sp_number(s, i) {
        None => None,
        Some((reps, i4)) => {
            if reps > usize::MAX as u64 || !sp_lit(s, i4, lit_sets()) {
                None
            } else {
                match sp_number(s, i4 + lit_sets().len()) {
                    None => None,
                    Some((sets, i5)) => {
                        if sets > usize::MAX as u64 || !sp_lit(s, i5, lit_rest()) {
                            None
                        } else {
                            match sp_number(s, i5 + lit_rest().len()) {
                                None => None,
                                Some((secs, i6)) => {
                                    if !sp_lit(s, i6, lit_nanos()) {
                                        None
                                    } else {
                                        match sp_number(s, i6 + lit_nanos().len()) {
                                            None => None,
                                            Some((nanos, i7)) => {
                                                if !sp_lit(s, i7, lit_close()) {
                                                    None
                                                } else if nanos >= 1000000000 {
                                                    None
                                                } else {
                                                    let msub = nanos / 1000000;
                                                    if secs > (u64::MAX - msub) / 1000 {
                                                        None
                                                    } else {
                                                        Some(
                                                            (
                                                                ExerciseV {
                                                                    name: name,
                                                                    progression_low: low as nat,
                                                                    progression_high: high as nat,
                                                                    reps: reps as nat,
                                                                    sets: sets as nat,
                                                                    rest_ms: (secs * 1000 + msub) as nat,
                                                                },
                                                                i7 + lit_close().len(),
                                                            ),
                                                        )
                                                    }
                                                }
                                            },
                                        }
                                    }
                                },
                            }
                        }
                    },
                }
            }
        },
    }
}

/// A parsed record prepended to the rest of a record list.
pub open spec fn sp_cons_item(e: ExerciseV, rest: Option<(Seq<ExerciseV>, int)>) -> Option<
    (Seq<ExerciseV>, int),
> {
    match rest {
        None => None,
        Some((l, k)) => Some((seq![e] + l, k)),
    }
}

/// Reading records separated by commas, beginning at `i`.
pub open spec fn sp_items(s: Seq<char>, i: int) -> Option<(Seq<ExerciseV>, int)>
    decreases s.len() - i,
{
    match sp_exercise(s, i) {
        None => None,
        Some((e, j)) => {
            if i < j && j < s.len() && s[j] == ',' {
                sp_cons_item(e, sp_items(s, j + 1))
            } else if i < j {
                Some((seq![e], j))
            } else {
                None
            }
        },
    }
}

/// Reading a whole document: a bracketed, comma-separated list of records
/// filling the text exactly.
pub open spec fn sp_list(s: Seq<char>) -> Option<Seq<ExerciseV>> {
    if s.len() < 2 || s[0] != '[' {
        None
    } else if s.len() == 2 && s[1] == ']' {
        Some(Seq::<ExerciseV>::empty())
    } else {
        match sp_items(s, 1) {
            None => None,
            Some((l, j)) => {
                if j == s.len() - 1 && s[j] == ']' {
                    Some(l)
                } else {
                    None
                }
            },
        }
    }
}

/// Checks `lit` at position `i` and steps over it, as [`sp_lit`]
/// describes.
fn expect_advance(v: &Vec<char>, i: usize, lit: &str) -> (r: Option<usize>)
    requires
        i <= v@.len(),
    ensures
        r is Some <==> sp_lit(v@, i as int, lit@),
        r matches Some(j) ==> j == i + lit@.len() && j <= v@.len(),
{
    let m = lit.unicode_len();
    let n = v.len();
    if m > n - i {
        proof {
            assert(!sp_lit(v@, i as int, lit@));
        }
        return None;
    }
    let mut k: usize = 0;
    while k < m
        invariant
            m == lit@.len(),
            n == v@.len(),
            i + m <= n,
            k <= m,
            forall|x: int| 0 <= x < k ==> v@[i + x] == lit@[x],
        decreases m - k,
    {
        if v[i + k] != lit.get_char(k) {
            proof {
                assert(v@.subrange(i as int, i + lit@.len())[k as int] != lit@[k as int]);
            }
            return None;
        }
        k = k + 1;
    }
    proof {
        assert(v@.subrange(i as int, i + lit@.len()) =~= lit@);
    }
    Some(i + m)
}

/// Reads a number at `i`, as [`sp_number`] describes.
fn parse_number(v: &Vec<char>, i: usize) -> (r: Option<(u64, usize)>)
    requires
        i <= v@.len(),
    ensures
        r is None ==> sp_number(v@, i as int) is None,
        r matches Some((x, j)) ==> sp_number(v@, i as int) == Some((x, j as int)) && i < j
            <= v@.len(),
{
    let mut j: usize = i;
    while j < v.len() && digit_of(v[j]).is_some()
        invariant
            i <= j <= v@.len(),
            sp_digit_run_end(v@, i as int) == sp_digit_run_end(v@, j as int),
            all_digits(v@.subrange(i as int, j as int)),
        decreases v@.len() - j,
    {
        proof {
            assert(v@.subrange(i as int, j + 1) =~= v@.subrange(i as int, j as int).push(
                v@[j as int],
            ));
        }
        j = j + 1;
    }
    proof {
        assert(sp_digit_run_end(v@, j as int) == j);
    }
    if j == i {
        return None;
    }
    match parse_chunk_u64(v, i, j) {
        Some(x) => Some((x, j)),
        None => {
            proof {
                assert(v@.subrange(i as int, j as int).len() > 0);
                assert(digits_val(v@.subrange(i as int, j as int)) > u64::MAX);
            }
            None
        },
    }
}

/// The hexadecimal value of `c`, as [`is_hex`] and [`hex_val`] describe.
fn hex_of(c: char) -> (r: Option<u32>)
    ensures
        r is Some <==> is_hex(c),
        r matches Some(x) ==> x == hex_val(c) && x < 16,
{
    match digit_of(c) {
        Some(d) => Some(d as u32),
        None => {
            if c == 'a' || c == 'A' {
                Some(10)
            } else if c == 'b' || c == 'B' {
                Some(11)
            } else if c == 'c' || c == 'C' {
                Some(12)
            } else if c == 'd' || c == 'D' {
                Some(13)
            } else if c == 'e' || c == 'E' {
                Some(14)
            } else if c == 'f' || c == 'F' {
                Some(15)
            } else {
                None
            }
        },
    }
}

/// Reads a JSON string body at `i`, as [`sp_string_body`] describes.
fn parse_string_body(v: &Vec<char>, i: usize) -> (r: Option<(String, usize)>)
    requires
        i <= v@.len(),
    ensures
        r is None ==> sp_string_body(v@, i as int) is None,
        r matches Some((t, j)) ==> sp_string_body(v@, i as int) == Some((t@, j as int)) && i < j
            <= v@.len(),
{
    let ghost s = v@;
    let n = v.len();
    let mut acc = String::new();
    let mut j: usize = i;
    loop
        invariant
            i <= j <= n,
            n == v@.len(),
            s == v@,
            match sp_string_body(s, j as int) {
                None => sp_string_body(s, i as int) is None,
                Some((t, k)) => sp_string_body(s, i as int) == Some((acc@ + t, k)),
            },
        decreases n - j,
    {
        if j >= n {
            return None;
        }
        let c = v[j];
        if c == '"' {
            proof {
                assert(sp_string_body(s, i as int) == Some((acc@ + Seq::<char>::empty(), j + 1)));
                assert(acc@ + Seq::<char>::empty() =~= acc@);
            }
            return Some((acc, j + 1));
        }
        if c == '\\' {
            if j + 1 >= n {
                return None;
            }
            let e = v[j + 1];
            if e == 'u' {
                if n - j < 6 {
                    return None;
                }
                let h1 = hex_of(v[j + 2]);
                let h2 = hex_of(v[j + 3]);
                let h3 = hex_of(v[j + 4]);
                let h4 = hex_of(v[j + 5]);
                if h1.is_none() || h2.is_none() || h3.is_none() || h4.is_none() {
                    return None;
                }
                let val: u32 = ((h1.unwrap() * 16 + h2.unwrap()) * 16 + h3.unwrap()) * 16
                    + h4.unwrap();
                if val >= 256 {
                    return None;
                }
                let decoded: char = (val as u8) as char;
                let ghost before = acc@;
                push_char(&mut acc, decoded);
                proof {
                    lemma_string_step(s, i as int, j as int, before, seq![decoded], j + 6);
                }
                j = j + 6;
            } else {
                let decoded: char;
                if e == '"' {
                    decoded = '"';
                } else if e == '\\' {
                    decoded = '\\';
                } else if e == '/' {
                    decoded = '/';
                } else if e == 'b' {
                    decoded = '\u{0008}';
                } else if e == 't' {
                    decoded = '\t';
                } else if e == 'n' {
                    decoded = '\n';
                } else if e == 'f' {
                    decoded = '\u{000C}';
                } else if e == 'r' {
                    decoded = '\r';
                } else {
                    return None;
                }
                let ghost before = acc@;
                push_char(&mut acc, decoded);
                proof {
                    lemma_string_step(s, i as int, j as int, before, seq![decoded], j + 2);
                }
                j = j + 2;
            }
        } else if (c as u32) < 32 {
            return None;
        } else {
            let ghost before = acc@;
            push_char(&mut acc, c);
            proof {
                lemma_string_step(s, i as int, j as int, before, seq![c], j + 1);
            }
            j = j + 1;
        }
    }
}

/// One step of the string-body loop: when the body at `j` begins with one
/// decoded character and continues at `j2`, the accumulated prefix grows by
/// that character.
proof fn lemma_string_step(s: Seq<char>, i: int, j: int, acc: Seq<char>, dec: Seq<char>, j2: int)
    requires
        dec.len() == 1,
        sp_string_body(s, j) == sp_push_front(dec[0], sp_string_body(s, j2)),
        match sp_string_body(s, j) {
            None => sp_string_body(s, i) is None,
            Some((t, k)) => sp_string_body(s, i) == Some((acc + t, k)),
        },
    ensures
        match sp_string_body(s, j2) {
            None => sp_string_body(s, i) is None,
            Some((t, k)) => sp_string_body(s, i) == Some(((acc + dec) + t, k)),
        },
{
    match sp_string_body(s, j2) {
        None => {},
        Some((t, k)) => {
            assert(sp_string_body(s, j) == Some((seq![dec[0]] + t, k)));
            assert(acc + (seq![dec[0]] + t) =~= (acc + dec) + t);
        },
    }
}

/// Reads one record at `i`, as [`sp_exercise`] describes.
fn parse_exercise(v: &Vec<char>, i: usize) -> (r: Option<(Exercise, usize)>)
    requires
        i <= v@.len(),
    ensures
        r is None ==> sp_exercise(v@, i as int) is None,
        r matches Some((e, j)) ==> sp_exercise(v@, i as int) == Some((e@, j as int)) && i < j
            <= v@.len(),
{
    let i0 = match expect_advance(v, i, "{\"name\":\"") {
        Some(x) => x,
        None => {
            return None;
        },
    };
    let (name, i1) = match parse_string_body(v, i0) {
        Some(x) => x,
        None => {
            return None;
        },
    };
    let i1b = match expect_advance(v, i1, ",\"progression\":[") {
        Some(x) => x,
        None => {
            return None;
        },
    };
    let (low, i2) = match parse_number(v, i1b) {
        Some(x) => x,
        None => {
            return None;
        },
    };
    if low > usize::MAX as u64 {
        return None;
    }
    if !(i2 < v.len() && v[i2] == ',') {
        return None;
    }
    let (high, i3) = match parse_number(v, i2 + 1) {
        Some(x) => x,
        None => {
            return None;
        },
    };
    if high > usize::MAX as u64 {
        return None;
    }
    let i3b = match expect_advance(v, i3, "],\"reps\":") {
        Some(x) => x,
        None => {
            return None;
        },
    };
    let (reps, i4) = match parse_number(v, i3b) {
        Some(x) => x,
        None => {
            return None;
        },
    };
    if reps > usize::MAX as u64 {
        return None;
    }
    let i4b = match expect_advance(v, i4, ",\"sets\":") {
        Some(x) => x,
        None => {
            return None;
        },
    };
    let (sets, i5) = match parse_number(v, i4b) {
        Some(x) => x,
        None => {
            return None;
        },
    };
    if sets > usize::MAX as u64 {
        return None;
    }
    let i5b = match expect_advance(v, i5, ",\"rest\":{\"secs\":") {
        Some(x) => x,
        None => {
            return None;
        },
    };
    let (secs, i6) = match parse_number(v, i5b) {
        Some(x) => x,
        None => {
            return None;
        },
    };
    let i6b = match expect_advance(v, i6, ",\"nanos\":") {
        Some(x) => x,
        None => {
            return None;
        },
    };
    let (nanos, i7) = match parse_number(v, i6b) {
        Some(x) => x,
        None => {
            return None;
        },
    };
    let j = match expect_advance(v, i7, "}}") {
        Some(x) => x,
        None => {
            return None;
        },
    };
    if nanos >= 1000000000 {
        return None;
    }
    let msub: u64 = nanos / 1000000;
    if secs > (u64::MAX - msub) / 1000 {
        return None;
    }
    proof {
        crate::digits::lemma_div_strict_bound(secs as nat, (u64::MAX - msub) as nat, 1000);
    }
    let e = Exercise {
        name,
        progression_low: low as usize,
        progression_high: high as usize,
        reps: reps as usize,
        sets: sets as usize,
        rest_ms: secs * 1000 + msub,
    };
    Some((e, j))
}

/// Reads comma-separated records at `i`, as [`sp_items`] describes.
fn parse_items(v: &Vec<char>, i: usize) -> (r: Option<(Vec<Exercise>, usize)>)
    requires
        i <= v@.len(),
    ensures
        r is None ==> sp_items(v@, i as int) is None,
        r matches Some((l, j)) ==> sp_items(v@, i as int) == Some((views_of(l@), j as int)) && j
            <= v@.len(),
{
    let ghost s = v@;
    let n = v.len();
    let mut acc: Vec<Exercise> = Vec::new();
    let mut cur: usize = i;
    loop
        invariant
            i <= cur <= n,
            n == v@.len(),
            s == v@,
            match sp_items(s, cur as int) {
                None => sp_items(s, i as int) is None,
                Some((l, k)) => sp_items(s, i as int) == Some((views_of(acc@) + l, k)),
            },
        decreases n - cur,
    {
        let (e, j) = match parse_exercise(v, cur) {
            Some(x) => x,
            None => {
                return None;
            },
        };
        let ghost acc0 = acc@;
        if j < n && v[j] == ',' {
            acc.push(e);
            proof {
                assert(views_of(acc@) =~= views_of(acc0) + seq![e@]);
                match sp_items(s, j + 1) {
                    None => {
                        assert(sp_items(s, cur as int) is None);
                    },
                    Some((l2, k2)) => {
                        assert(sp_items(s, cur as int) == Some((seq![e@] + l2, k2)));
                        assert((views_of(acc0) + seq![e@]) + l2 =~= views_of(acc0) + (seq![e@]
                            + l2));
                    },
                }
            }
            cur = j + 1;
        } else {
            acc.push(e);
            proof {
                assert(views_of(acc@) =~= views_of(acc0) + seq![e@]);
                assert(sp_items(s, cur as int) == Some((seq![e@], j as int)));
            }
            return Some((acc, j));
        }
    }
}

/// Decodes an exercise list from the persistence format, as [`sp_list`]
/// describes: the list the document denotes, or nothing when the document
/// is not in the format.
pub fn decode_exercises(s: &str) -> (r: Option<Vec<Exercise>>)
    ensures
        r is None ==> sp_list(s@) is None,
        r matches Some(l) ==> sp_list(s@) == Some(views_of(l@)),
{
    let v = str_to_chars(s);
    let n = v.len();
    if n < 2 || v[0] != '[' {
        return None;
    }
    if n == 2 && v[1] == ']' {
        let empty: Vec<Exercise> = Vec::new();
        proof {
            assert(views_of(empty@) =~= Seq::<ExerciseV>::empty());
        }
        return Some(empty);
    }
    match parse_items(&v, 1) {
        None => None,
        Some((l, j)) => {
            if j == n - 1 && v[j] == ']' {
                Some(l)
            } else {
                None
            }
        },
    }
}

/// The bounds every record held in an [`Exercise`] obeys: counts fit
/// `usize`, the rest fits `u64`.
pub open spec fn ex_bounded(e: ExerciseV) -> bool {
    e.progression_low <= usize::MAX && e.progression_high <= usize::MAX && e.reps <= usize::MAX
        && e.sets <= usize::MAX && e.rest_ms <= u64::MAX
}

/// A digit run flanked by a non-digit (or the end) ends at the non-digit.
proof fn lemma_digit_run(s: Seq<char>, i: int, j: int)
    requires
        0 <= i <= j <= s.len(),
        all_digits(s.subrange(i, j)),
        j == s.len() || !is_digit(s[j]),
    ensures
        sp_digit_run_end(s, i) == j,
    decreases j - i,
{
    if i < j {
        assert(is_digit(s[i])) by {
            assert(s.subrange(i, j)[0] == s[i]);
        }
        assert forall|k: int| 0 <= k < j - (i + 1) implies is_digit(
            #[trigger] s.subrange(i + 1, j)[k],
        ) by {
            assert(s.subrange(i, j)[k + 1] == s[i + 1 + k]);
        }
        lemma_digit_run(s, i + 1, j);
    }
}

/// Parsing the decimal notation of `n`, flanked by a non-digit, yields `n`.
proof fn lemma_parse_dec(s: Seq<char>, i: int, n: nat)
    requires
        0 <= i,
        n <= u64::MAX,
        i + dec_digits(n).len() <= s.len(),
        s.subrange(i, i + dec_digits(n).len() as int) == dec_digits(n),
        i + dec_digits(n).len() == s.len() || !is_digit(s[i + dec_digits(n).len()]),
    ensures
        sp_number(s, i) == Some((n as u64, i + dec_digits(n).len() as int)),
{
    lemma_dec_digits_val(n);
    let j = i + dec_digits(n).len() as int;
    lemma_digit_run(s, i, j);
}

/// A slice of a matched block matches the block's slice.
proof fn lemma_slice_piece(s: Seq<char>, i: int, whole: Seq<char>, a: int, b: int)
    requires
        0 <= i,
        i + whole.len() <= s.len(),
        s.subrange(i, i + whole.len() as int) == whole,
        0 <= a <= b <= whole.len(),
    ensures
        s.subrange(i + a, i + b) == whole.subrange(a, b),
{
    assert forall|k: int| 0 <= k < b - a implies s.subrange(i + a, i + b)[k] == whole.subrange(
        a,
        b,
    )[k] by {
        assert(s.subrange(i, i + whole.len() as int)[a + k] == whole[a + k]);
    }
    assert(s.subrange(i + a, i + b) =~= whole.subrange(a, b));
}

/// Parsing an escaped name followed by its closing quote recovers the
/// name.
proof fn lemma_parse_escaped(s: Seq<char>, i: int, name: Seq<char>)
    requires
        0 <= i,
        i + escape(name).len() + 1 <= s.len(),
        s.subrange(i, i + escape(name).len() + 1) == escape(name) + seq!['"'],
    ensures
        sp_string_body(s, i) == Some((name, i + escape(name).len() + 1)),
    decreases name.len(),
{
    let whole = escape(name) + seq!['"'];
    let elen = escape(name).len() as int;
    assert forall|k: int| 0 <= k < whole.len() implies s[i + k] == whole[k] by {
        assert(s.subrange(i, i + elen + 1)[k] == whole[k]);
    }
    if name.len() == 0 {
        assert(escape(name) =~= Seq::<char>::empty());
        assert(s[i + 0] == whole[0]);
        assert(s[i] == '"');
    } else {
        let c = name[0];
        let tail = name.drop_first();
        let ec = escape_char(c);
        let et = escape(tail);
        assert(escape(name) == ec + et);
        let i2 = i + ec.len() as int;
        assert(s.subrange(i2, i2 + et.len() + 1) =~= et + seq!['"']) by {
            assert forall|k: int| 0 <= k < et.len() + 1 implies s.subrange(i2, i2 + et.len() + 1)[k]
                == (et + seq!['"'])[k] by {
                assert(whole[ec.len() + k] == (et + seq!['"'])[k]);
                assert(s[i + (ec.len() + k)] == whole[ec.len() + k]);
            }
        }
        lemma_parse_escaped(s, i2, tail);
        assert(seq![c] + tail =~= name);
        if c == '"' {
            assert(s[i + 0] == whole[0] && s[i + 1] == whole[1]);
            assert(s[i] == '\\' && s[i + 1] == '"');
        } else if c == '\\' {
            assert(s[i + 0] == whole[0] && s[i + 1] == whole[1]);
            assert(s[i] == '\\' && s[i + 1] == '\\');
        } else if is_control(c) {
            let cu = (c as u32) as int;
            assert(s[i + 0] == whole[0] && s[i + 1] == whole[1] && s[i + 2] == whole[2] && s[i + 3]
                == whole[3] && s[i + 4] == whole[4] && s[i + 5] == whole[5]);
            assert(s[i] == '\\' && s[i + 1] == 'u' && s[i + 2] == '0' && s[i + 3] == '0');
            assert(s[i + 4] == hex_char(cu / 16) && s[i + 5] == hex_char(cu % 16));
            assert(is_hex(hex_char(cu / 16)) && hex_val(hex_char(cu / 16)) == cu / 16);
            assert(is_hex(hex_char(cu % 16)) && hex_val(hex_char(cu % 16)) == cu % 16);
            vstd::arithmetic::div_mod::lemma_fundamental_div_mod(cu, 16);
            let val = ((hex_val(s[i + 2]) * 16 + hex_val(s[i + 3])) * 16 + hex_val(s[i + 4])) * 16
                + hex_val(s[i + 5]);
            assert(val == cu);
            vstd::utf8::char_u32_cast(c, c as u32);
            assert((val as u8) as char == c);
            assert(sp_string_body(s, i) == sp_push_front(c, sp_string_body(s, i + 6)));
        } else {
            assert(s[i + 0] == whole[0]);
            assert(s[i] == c);
        }
    }
}

/// Parsing an encoded record recovers the record.
#[verifier::rlimit(60)]
proof fn lemma_parse_exercise(s: Seq<char>, i: int, e: ExerciseV)
    requires
        0 <= i,
        ex_bounded(e),
        i + enc_exercise(e).len() <= s.len(),
        s.subrange(i, i + enc_exercise(e).len() as int) == enc_exercise(e),
    ensures
        sp_exercise(s, i) == Some((e, i + enc_exercise(e).len() as int)),
{
    let en = enc_exercise(e);
    let secs = e.rest_ms / 1000;
    let nanos = (e.rest_ms % 1000) * 1000000;
    let o1 = lit_name().len() as int;
    let o2 = o1 + escape(e.name).len() + 1;
    let o3 = o2 + lit_prog().len() as int;
    let o4 = o3 + dec_digits(e.progression_low).len() as int;
    let o5 = o4 + 1;
    let o6 = o5 + dec_digits(e.progression_high).len() as int;
    let o7 = o6 + lit_reps().len() as int;
    let o8 = o7 + dec_digits(e.reps).len() as int;
    let o9 = o8 + lit_sets().len() as int;
    let o10 = o9 + dec_digits(e.sets).len() as int;
    let o11 = o10 + lit_rest().len() as int;
    let o12 = o11 + dec_digits(secs).len() as int;
    let o13 = o12 + lit_nanos().len() as int;
    let o14 = o13 + dec_digits(nanos).len() as int;
    let o15 = o14 + lit_close().len() as int;
    assert(en.len() == o15);
    assert forall|k: int| 0 <= k < en.len() implies s[i + k] == en[k] by {
        assert(s.subrange(i, i + en.len() as int)[k] == en[k]);
    }
    // the opening literal and the name
    assert(en.subrange(0, o1) =~= lit_name());
    lemma_slice_piece(s, i, en, 0, o1);
    assert(sp_lit(s, i, lit_name()));
    assert(en.subrange(o1, o2) =~= escape(e.name) + seq!['"']);
    lemma_slice_piece(s, i, en, o1, o2);
    lemma_parse_escaped(s, i + o1, e.name);
    assert(sp_string_body(s, i + o1) == Some((e.name, i + o2)));
    // the progression literal and both bounds
    assert(en.subrange(o2, o3) =~= lit_prog());
    lemma_slice_piece(s, i, en, o2, o3);
    assert(sp_lit(s, i + o2, lit_prog()));
    assert(en.subrange(o3, o4) =~= dec_digits(e.progression_low));
    lemma_slice_piece(s, i, en, o3, o4);
    assert(s[i + o4] == ',') by {
        assert(en[o4] == ',');
    }
    lemma_parse_dec(s, i + o3, e.progression_low);
    assert(en.subrange(o5, o6) =~= dec_digits(e.progression_high));
    lemma_slice_piece(s, i, en, o5, o6);
    assert(s[i + o6] == ']') by {
        reveal_strlit("],\"reps\":");
        assert(en[o6] == lit_reps()[0]);
    }
    lemma_parse_dec(s, i + o5, e.progression_high);
    // reps
    assert(en.subrange(o6, o7) =~= lit_reps());
    lemma_slice_piece(s, i, en, o6, o7);
    assert(en.subrange(o7, o8) =~= dec_digits(e.reps));
    lemma_slice_piece(s, i, en, o7, o8);
    assert(s[i + o8] == ',') by {
        reveal_strlit(",\"sets\":");
        assert(en[o8] == lit_sets()[0]);
    }
    lemma_parse_dec(s, i + o7, e.reps);
    // sets
    assert(en.subrange(o8, o9) =~= lit_sets());
    lemma_slice_piece(s, i, en, o8, o9);
    assert(en.subrange(o9, o10) =~= dec_digits(e.sets));
    lemma_slice_piece(s, i, en, o9, o10);
    assert(s[i + o10] == ',') by {
        reveal_strlit(",\"rest\":{\"secs\":");
        assert(en[o10] == lit_rest()[0]);
    }
    lemma_parse_dec(s, i + o9, e.sets);
    // rest seconds and nanoseconds
    assert(en.subrange(o10, o11) =~= lit_rest());
    lemma_slice_piece(s, i, en, o10, o11);
    assert(en.subrange(o11, o12) =~= dec_digits(secs));
    lemma_slice_piece(s, i, en, o11, o12);
    assert(s[i + o12] == ',') by {
        reveal_strlit(",\"nanos\":");
        assert(en[o12] == lit_nanos()[0]);
    }
    lemma_parse_dec(s, i + o11, secs);
    assert(en.subrange(o12, o13) =~= lit_nanos());
    lemma_slice_piece(s, i, en, o12, o13);
    assert(en.subrange(o13, o14) =~= dec_digits(nanos));
    lemma_slice_piece(s, i, en, o13, o14);
    assert(s[i + o14] == '}') by {
        reveal_strlit("}}");
        assert(en[o14] == lit_close()[0]);
    }
    lemma_parse_dec(s, i + o13, nanos);
    assert(en.subrange(o14, o15) =~= lit_close());
    lemma_slice_piece(s, i, en, o14, o15);
    assert(sp_lit(s, i + o14, lit_close()));
    // the recovered milliseconds are the original ones
    assert(nanos < 1000000000);
    vstd::arithmetic::div_mod::lemma_div_by_multiple((e.rest_ms % 1000) as int, 1000000);
    assert(nanos / 1000000 == e.rest_ms % 1000);
    vstd::arithmetic::div_mod::lemma_fundamental_div_mod(e.rest_ms as int, 1000);
    assert(secs * 1000 + e.rest_ms % 1000 == e.rest_ms);
    crate::digits::lemma_div_strict_bound(
        secs,
        (u64::MAX - e.rest_ms % 1000) as nat,
        1000,
    );
    assert(!(secs > (u64::MAX - nanos / 1000000) / 1000));
    assert(sp_exercise(s, i) == Some((e, i + o15)));
}

/// Parsing encoded records, flanked by a non-comma, recovers them all.
proof fn lemma_parse_items(s: Seq<char>, i: int, l: Seq<ExerciseV>)
    requires
        0 <= i,
        l.len() > 0,
        forall|k: int| 0 <= k < l.len() ==> ex_bounded(#[trigger] l[k]),
        i + enc_items(l).len() <= s.len(),
        s.subrange(i, i + enc_items(l).len() as int) == enc_items(l),
        i + enc_items(l).len() == s.len() || s[i + enc_items(l).len()] != ',',
    ensures
        sp_items(s, i) == Some((l, i + enc_items(l).len() as int)),
    decreases l.len(),
{
    let en = enc_items(l);
    let e0 = l[0];
    let ee = enc_exercise(e0);
    assert(ee.len() > 0) by {
        reveal_strlit("{\"name\":\"");
        assert(lit_name().len() == 9);
    }
    assert forall|k: int| 0 <= k < en.len() implies s[i + k] == en[k] by {
        assert(s.subrange(i, i + en.len() as int)[k] == en[k]);
    }
    if l.len() == 1 {
        assert(en == ee);
        lemma_parse_exercise(s, i, e0);
        let j = i + ee.len() as int;
        assert(j == s.len() || s[j] != ',');
        assert(seq![e0] =~= l);
        assert(sp_items(s, i) == Some((l, i + en.len() as int)));
    } else {
        let rest = l.drop_first();
        let er = enc_items(rest);
        assert(en == ee + seq![','] + er);
        assert(en.subrange(0, ee.len() as int) =~= ee);
        lemma_slice_piece(s, i, en, 0, ee.len() as int);
        lemma_parse_exercise(s, i, e0);
        let j = i + ee.len() as int;
        assert(s[j] == ',') by {
            assert(en[ee.len() as int] == ',');
        }
        assert(en.subrange(ee.len() as int + 1, en.len() as int) =~= er);
        lemma_slice_piece(s, i, en, ee.len() as int + 1, en.len() as int);
        assert forall|k: int| 0 <= k < rest.len() implies ex_bounded(#[trigger] rest[k]) by {
            assert(rest[k] == l[k + 1]);
        }
        lemma_parse_items(s, j + 1, rest);
        assert(seq![e0] + rest =~= l);
        assert(sp_items(s, i) == Some((l, i + en.len() as int)));
    }
}

/// The round trip of the persistence format: decoding an encoded exercise
/// list yields exactly the encoded list, record for record and field for
/// field.  The bounds hold of every list an [`Exercise`] vector can
/// represent.
pub proof fn lemma_round_trip(l: Seq<ExerciseV>)
    requires
        forall|k: int| 0 <= k < l.len() ==> ex_bounded(#[trigger] l[k]),
    ensures
        sp_list(enc_list(l)) == Some(l),
{
    let s = enc_list(l);
    let en = enc_items(l);
    assert(s[0] == '[');
    if l.len() == 0 {
        assert(en =~= Seq::<char>::empty());
        assert(s.len() == 2 && s[1] == ']');
        assert(sp_list(s) == Some(l)) by {
            assert(l =~= Seq::<ExerciseV>::empty());
        }
    } else {
        assert(en.len() >= enc_exercise(l[0]).len());
        assert(enc_exercise(l[0]).len() > 0) by {
            reveal_strlit("{\"name\":\"");
            assert(lit_name().len() == 9);
        }
        assert(s.len() == en.len() + 2);
        assert(s.subrange(1, 1 + en.len() as int) =~= en);
        assert(s[1 + en.len() as int] == ']');
        lemma_parse_items(s, 1, l);
        assert(s[s.len() - 1] == ']');
        assert(sp_list(s) == Some(l));
    }
}

} // verus!
