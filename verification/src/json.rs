//! Text-level reader and writer for the JSON mirror.
//!
//! The textual bridge uses one canonical rendering per value: compact JSON
//! with no whitespace, object keys in schema order, byte strings as
//! lowercase hex text, and numbers in minimal decimal form. The reader
//! accepts exactly that rendering; deviations at the character level are
//! [`ErrorKind::TextFormat`] failures, and numbers outside their value range
//! are [`ErrorKind::Shape`] failures.

use vstd::prelude::*;

use crate::err::{DecodeError, DecodeErrorV, ErrorKind};

verus! {

/// `{`
pub const LBRACE: u8 = 123;

/// `}`
pub const RBRACE: u8 = 125;

/// `[`
pub const LBRACK: u8 = 91;

/// `]`
pub const RBRACK: u8 = 93;

/// `,`
pub const COMMA: u8 = 44;

/// `:`
pub const COLON: u8 = 58;

/// `"`
pub const QUOTE: u8 = 34;

/// `-`
pub const MINUS: u8 = 45;

/// Whether `c` is an ASCII decimal digit.
pub open spec fn is_digit(c: u8) -> bool {
    48 <= c <= 57
}

/// The lowercase hex digit for a value below 16.
pub open spec fn hex_digit(n: u8) -> u8 {
    if n < 10 {
        (48 + n) as u8
    } else {
        (87 + n) as u8
    }
}

/// Whether `c` is a lowercase ASCII hex digit.
pub open spec fn is_hex_digit(c: u8) -> bool {
    (48 <= c <= 57) || (97 <= c <= 102)
}

/// The value of a lowercase hex digit.
pub open spec fn hex_val(c: u8) -> u8 {
    if c <= 57 {
        (c - 48) as u8
    } else {
        (c - 87) as u8
    }
}

/// The lowercase hex text of a byte sequence: two digits per byte.
pub open spec fn spec_hex(b: Seq<u8>) -> Seq<u8>
    decreases b.len(),
{
    if b.len() == 0 {
        Seq::empty()
    } else {
        seq![hex_digit(b[0] / 16), hex_digit(b[0] % 16)] + spec_hex(b.subrange(1, b.len() as int))
    }
}

/// Hex text is twice as long as the bytes it shows.
pub proof fn lemma_hex_len(b: Seq<u8>)
    ensures
        spec_hex(b).len() == 2 * b.len(),
    decreases b.len(),
{
    if b.len() > 0 {
        lemma_hex_len(b.subrange(1, b.len() as int));
    }
}

/// Appending one byte appends its two hex digits.
pub proof fn lemma_hex_snoc(b: Seq<u8>, x: u8)
    ensures
        spec_hex(b.push(x)) == spec_hex(b) + seq![hex_digit(x / 16), hex_digit(x % 16)],
    decreases b.len(),
{
    let p = b.push(x);
    if b.len() == 0 {
        assert(p[0] == x);
        assert(p.subrange(1, 1) =~= Seq::<u8>::empty());
        assert(spec_hex(Seq::<u8>::empty()) == Seq::<u8>::empty());
        assert(spec_hex(p.subrange(1, p.len() as int)) == Seq::<u8>::empty());
        assert(spec_hex(b) == Seq::<u8>::empty());
        assert(spec_hex(p) =~= spec_hex(b) + seq![hex_digit(x / 16), hex_digit(x % 16)]);
    } else {
        assert(p[0] == b[0]);
        assert(p.subrange(1, p.len() as int) =~= b.subrange(1, b.len() as int).push(x));
        lemma_hex_snoc(b.subrange(1, b.len() as int), x);
        assert(spec_hex(p) == seq![hex_digit(p[0] / 16), hex_digit(p[0] % 16)] + spec_hex(
            p.subrange(1, p.len() as int),
        ));
        assert(spec_hex(p) =~= spec_hex(b) + seq![hex_digit(x / 16), hex_digit(x % 16)]);
    }
}

/// The hex text of a quoted byte string: `"` then digit pairs then `"`.
pub open spec fn spec_hex_str(b: Seq<u8>) -> Seq<u8> {
    seq![QUOTE] + spec_hex(b) + seq![QUOTE]
}

/// Reads hex digit pairs until a closing quote, starting right after the
/// opening quote.
pub open spec fn spec_parse_hex_pairs(s: Seq<u8>, i: int) -> Result<(Seq<u8>, int), DecodeErrorV>
    decreases s.len() - i,
{
    if !(0 <= i < s.len()) {
        Err(DecodeErrorV::root(ErrorKind::TextFormat))
    } else if s[i] == QUOTE {
        Ok((Seq::empty(), i + 1))
    } else if i + 1 < s.len() && is_hex_digit(s[i]) && is_hex_digit(s[i + 1]) {
        match spec_parse_hex_pairs(s, i + 2) {
            Err(e) => Err(e),
            Ok((b, j)) => Ok((seq![((hex_val(s[i]) * 16) + hex_val(s[i + 1])) as u8] + b, j)),
        }
    } else {
        Err(DecodeErrorV::root(ErrorKind::TextFormat))
    }
}

/// Reads a quoted hex byte string at position `i` of `s`.
pub open spec fn spec_parse_hex_str(s: Seq<u8>, i: int) -> Result<(Seq<u8>, int), DecodeErrorV> {
    if 0 <= i < s.len() && s[i] == QUOTE {
        spec_parse_hex_pairs(s, i + 1)
    } else {
        Err(DecodeErrorV::root(ErrorKind::TextFormat))
    }
}

/// Reading a buffer that carries hex pairs and a closing quote yields the
/// shown bytes.
proof fn lemma_parse_hex_pairs_prefix(s: Seq<u8>, i: int, b: Seq<u8>)
    requires
        0 <= i,
        i + 2 * b.len() + 1 <= s.len(),
        s.subrange(i, i + 2 * b.len() + 1) == spec_hex(b) + seq![QUOTE],
    ensures
        spec_parse_hex_pairs(s, i) == Ok::<(Seq<u8>, int), DecodeErrorV>((b, i + 2 * b.len() + 1)),
    decreases b.len(),
{
    lemma_hex_len(b);
    let whole = s.subrange(i, i + 2 * b.len() + 1);
    if b.len() == 0 {
        assert(whole[0] == s[i + 0]);
        assert(s[i] == QUOTE);
        assert(b =~= Seq::<u8>::empty());
    } else {
        assert(whole[0] == s[i + 0]);
        assert(whole[1] == s[i + 1]);
        let d1 = hex_digit(b[0] / 16);
        let d2 = hex_digit(b[0] % 16);
        assert((spec_hex(b) + seq![QUOTE])[0] == d1);
        assert((spec_hex(b) + seq![QUOTE])[1] == d2);
        assert(s[i] == d1 && s[i + 1] == d2);
        assert(is_hex_digit(d1) && is_hex_digit(d2) && d1 != QUOTE);
        assert(hex_val(d1) == b[0] / 16 && hex_val(d2) == b[0] % 16);
        let tail = b.subrange(1, b.len() as int);
        lemma_hex_len(tail);
        assert forall|k: int| 0 <= k < 2 * tail.len() + 1 implies s.subrange(
            i + 2,
            i + 2 + 2 * tail.len() + 1,
        )[k] == (spec_hex(tail) + seq![QUOTE])[k] by {
            assert(s.subrange(i + 2, i + 2 + 2 * tail.len() + 1)[k] == s[i + 2 + k]);
            assert(whole[2 + k] == s[i + (2 + k)]);
            assert(s[i + 2 + k] == s[i + (2 + k)]);
            assert((spec_hex(b) + seq![QUOTE])[2 + k] == (spec_hex(tail) + seq![QUOTE])[k]);
        }
        assert(s.subrange(i + 2, i + 2 + 2 * tail.len() + 1) =~= spec_hex(tail) + seq![QUOTE]);
        lemma_parse_hex_pairs_prefix(s, i + 2, tail);
        assert(seq![((hex_val(s[i]) * 16) + hex_val(s[i + 1])) as u8] + tail =~= b);
    }
}

/// Reading a buffer that carries a quoted hex byte string at position `i`
/// yields the shown bytes and stops right after the closing quote.
pub proof fn lemma_parse_hex_str_prefix(s: Seq<u8>, i: int, b: Seq<u8>)
    requires
        0 <= i,
        i + spec_hex_str(b).len() <= s.len(),
        s.subrange(i, i + spec_hex_str(b).len() as int) == spec_hex_str(b),
    ensures
        spec_parse_hex_str(s, i) == Ok::<(Seq<u8>, int), DecodeErrorV>(
            (b, i + spec_hex_str(b).len() as int),
        ),
{
    lemma_hex_len(b);
    let whole = s.subrange(i, i + spec_hex_str(b).len() as int);
    assert(whole[0] == s[i + 0]);
    assert(s[i] == QUOTE);
    assert forall|k: int| 0 <= k < 2 * b.len() + 1 implies s.subrange(
        i + 1,
        i + 1 + 2 * b.len() + 1,
    )[k] == (spec_hex(b) + seq![QUOTE])[k] by {
        assert(s.subrange(i + 1, i + 1 + 2 * b.len() + 1)[k] == s[i + 1 + k]);
        assert(whole[1 + k] == s[i + (1 + k)]);
        assert(s[i + 1 + k] == s[i + (1 + k)]);
        assert(spec_hex_str(b)[1 + k] == (spec_hex(b) + seq![QUOTE])[k]);
    }
    assert(s.subrange(i + 1, i + 1 + 2 * b.len() + 1) =~= spec_hex(b) + seq![QUOTE]);
    lemma_parse_hex_pairs_prefix(s, i + 1, b);
}

/// Writes the quoted lowercase hex text of `b` onto `out`.
pub fn push_hex_str(out: &mut Vec<u8>, b: &Vec<u8>)
    ensures
        final(out)@ == old(out)@ + spec_hex_str(b@),
{
    out.push(QUOTE);
    let n = b.len();
    let mut k: usize = 0;
    while k < n
        invariant
            k <= n,
            n == b@.len(),
            out@ == old(out)@ + seq![QUOTE] + spec_hex(b@.subrange(0, k as int)),
        decreases n - k,
    {
        let x = b[k];
        let hi = x / 16;
        let lo = x % 16;
        out.push(if hi < 10 {
            48 + hi
        } else {
            87 + hi
        });
        out.push(if lo < 10 {
            48 + lo
        } else {
            87 + lo
        });
        proof {
            assert(b@.subrange(0, k + 1 as int) =~= b@.subrange(0, k as int).push(b@[k as int]));
            lemma_hex_snoc(b@.subrange(0, k as int), b@[k as int]);
            assert(out@ =~= old(out)@ + seq![QUOTE] + spec_hex(b@.subrange(0, k + 1 as int)));
        }
        k = k + 1;
    }
    out.push(QUOTE);
    proof {
        assert(b@.subrange(0, b@.len() as int) =~= b@);
        assert(out@ =~= old(out)@ + spec_hex_str(b@));
    }
}

/// Reads a quoted hex byte string at position `i` of `s`, as
/// [`spec_parse_hex_str`] describes.
pub fn read_hex_str(s: &[u8], i: usize) -> (r: Result<(Vec<u8>, usize), DecodeError>)
    ensures
        ({
            let sp = spec_parse_hex_str(s@, i as int);
            match r {
                Ok((b, j)) => sp == Ok::<(Seq<u8>, int), DecodeErrorV>((b@, j as int)),
                Err(e) => sp == Err::<(Seq<u8>, int), DecodeErrorV>(e@),
            }
        }),
{
    if !(i < s.len() && s[i] == QUOTE) {
        return Err(DecodeError::root(ErrorKind::TextFormat));
    }
    let mut cur: usize = i + 1;
    let mut acc: Vec<u8> = Vec::new();
    loop
        invariant
            i < s@.len(),
            s@[i as int] == QUOTE,
            i + 1 <= cur <= s@.len(),
            ({
                let sp0 = spec_parse_hex_pairs(s@, i + 1 as int);
                match spec_parse_hex_pairs(s@, cur as int) {
                    Ok((b, j)) => sp0 == Ok::<(Seq<u8>, int), DecodeErrorV>((acc@ + b, j)),
                    Err(e) => sp0 == Err::<(Seq<u8>, int), DecodeErrorV>(e),
                }
            }),
        decreases s@.len() - cur,
    {
        if cur >= s.len() {
            return Err(DecodeError::root(ErrorKind::TextFormat));
        }
        let c = s[cur];
        if c == QUOTE {
            proof {
                assert(acc@ + Seq::<u8>::empty() =~= acc@);
            }
            return Ok((acc, cur + 1));
        }
        let hi_ok = (48 <= c && c <= 57) || (97 <= c && c <= 102);
        if !(cur + 1 < s.len() && hi_ok) {
            return Err(DecodeError::root(ErrorKind::TextFormat));
        }
        let c2 = s[cur + 1];
        let lo_ok = (48 <= c2 && c2 <= 57) || (97 <= c2 && c2 <= 102);
        if !lo_ok {
            return Err(DecodeError::root(ErrorKind::TextFormat));
        }
        let hi = if c <= 57 {
            c - 48
        } else {
            c - 87
        };
        let lo = if c2 <= 57 {
            c2 - 48
        } else {
            c2 - 87
        };
        let ghost old_acc = acc@;
        acc.push(hi * 16 + lo);
        proof {
            if spec_parse_hex_pairs(s@, cur + 2 as int) is Ok {
                let (b2, j2) = spec_parse_hex_pairs(s@, cur + 2 as int)->Ok_0;
                assert(old_acc + (seq![((hex_val(s@[cur as int]) * 16) + hex_val(
                    s@[cur + 1 as int],
                )) as u8] + b2) =~= acc@ + b2);
            }
        }
        cur = cur + 2;
    }
}

/// Ten to the power `k` (1 for non-positive `k`).
pub open spec fn pow10(k: int) -> int
    decreases k,
{
    if k <= 0 {
        1
    } else {
        10 * pow10(k - 1)
    }
}

/// The twentieth power of ten, written out.
pub proof fn lemma_pow10_20()
    ensures
        pow10(20) == 100000000000000000000int,
{
    reveal_with_fuel(pow10, 21);
}

/// Powers of ten grow with the exponent.
pub proof fn lemma_pow10_mono(a: int, b: int)
    requires
        a <= b,
    ensures
        pow10(a) <= pow10(b),
        pow10(a) >= 1,
    decreases b - a,
{
    if a < b {
        lemma_pow10_mono(a, b - 1);
    } else {
        lemma_pow10_mono_base(a);
    }
}

/// Every power of ten is at least one.
pub proof fn lemma_pow10_mono_base(a: int)
    ensures
        pow10(a) >= 1,
    decreases a,
{
    if a > 0 {
        lemma_pow10_mono_base(a - 1);
    }
}

/// The minimal decimal text of an unsigned 64-bit value.
pub open spec fn spec_dec_u64(v: u64) -> Seq<u8>
    decreases v,
{
    if v < 10 {
        seq![(48 + v) as u8]
    } else {
        spec_dec_u64(v / 10) + seq![(48 + (v % 10)) as u8]
    }
}

/// The minimal decimal text of a signed 64-bit value.
pub open spec fn spec_dec_i64(t: i64) -> Seq<u8> {
    if t >= 0 {
        spec_dec_u64(t as u64)
    } else {
        seq![MINUS] + spec_dec_u64((-t) as u64)
    }
}

/// The value shown by a run of decimal digit characters.
pub open spec fn dec_val(ds: Seq<u8>) -> int
    decreases ds.len(),
{
    if ds.len() == 0 {
        0
    } else {
        dec_val(ds.take(ds.len() - 1)) * 10 + (ds.last() - 48)
    }
}

/// Decimal text consists of digits, starts with a non-zero digit for values
/// of ten or more, and shows back the value it was made from.
pub proof fn lemma_dec_u64(v: u64)
    ensures
        1 <= spec_dec_u64(v).len(),
        forall|k: int| 0 <= k < spec_dec_u64(v).len() ==> is_digit(#[trigger] spec_dec_u64(v)[k]),
        v >= 10 ==> spec_dec_u64(v)[0] != 48,
        v >= 1 ==> spec_dec_u64(v)[0] != 48,
        dec_val(spec_dec_u64(v)) == v,
    decreases v,
{
    if v < 10 {
        let ds = spec_dec_u64(v);
        assert(ds.take(ds.len() - 1) =~= Seq::<u8>::empty());
        assert(dec_val(Seq::<u8>::empty()) == 0);
        assert(dec_val(ds.take(ds.len() - 1)) == 0);
    } else {
        lemma_dec_u64(v / 10);
        let p = spec_dec_u64(v / 10);
        let ds = spec_dec_u64(v);
        assert(ds.take(ds.len() - 1) =~= p);
        assert(ds.last() == (48 + (v % 10)) as u8);
        assert(dec_val(ds) == dec_val(p) * 10 + (v % 10));
        assert(ds[0] == p[0]);
    }
}

/// The decimal text of a value below the `k`-th power of ten has at most `k`
/// digits.
pub proof fn lemma_dec_u64_len(v: u64, k: int)
    requires
        1 <= k,
        v < pow10(k),
    ensures
        spec_dec_u64(v).len() <= k,
    decreases k,
{
    if v < 10 {
    } else {
        assert(10 * pow10(k - 1) == pow10(k));
        assert(v / 10 < pow10(k - 1)) by (nonlinear_arith)
            requires
                v >= 10,
                v < 10 * pow10(k - 1),
        ;
        lemma_pow10_mono_base(k - 1);
        assert(k >= 2);
        lemma_dec_u64_len(v / 10, k - 1);
    }
}

/// First position at or after `i` that does not hold a decimal digit.
pub open spec fn digits_end(s: Seq<u8>, i: int) -> int
    decreases s.len() - i,
{
    if 0 <= i < s.len() && is_digit(s[i]) {
        digits_end(s, i + 1)
    } else {
        i
    }
}

/// Every position before the end of a digit run holds a digit, and the end
/// stays inside the buffer.
pub proof fn lemma_digits_end_bounds(s: Seq<u8>, i: int)
    requires
        0 <= i <= s.len(),
    ensures
        i <= digits_end(s, i) <= s.len(),
        forall|k: int| i <= k < digits_end(s, i) ==> is_digit(s[k]),
    decreases s.len() - i,
{
    if i < s.len() && is_digit(s[i]) {
        lemma_digits_end_bounds(s, i + 1);
    }
}

/// A run of digits followed by a non-digit (or the end of the buffer) ends
/// exactly at its last digit.
pub proof fn lemma_digits_end_of_run(s: Seq<u8>, i: int, ds: Seq<u8>)
    requires
        0 <= i,
        i + ds.len() <= s.len(),
        s.subrange(i, i + ds.len() as int) == ds,
        forall|k: int| 0 <= k < ds.len() ==> is_digit(#[trigger] ds[k]),
        i + ds.len() == s.len() || !is_digit(s[i + ds.len()]),
    ensures
        digits_end(s, i) == i + ds.len(),
    decreases ds.len(),
{
    if ds.len() == 0 {
    } else {
        assert(s.subrange(i, i + ds.len() as int)[0] == s[i + 0]);
        assert(s[i] == ds[0]);
        let tail = ds.subrange(1, ds.len() as int);
        assert forall|k: int| 0 <= k < tail.len() implies s.subrange(
            i + 1,
            i + 1 + tail.len() as int,
        )[k] == tail[k] by {
            assert(s.subrange(i + 1, i + 1 + tail.len() as int)[k] == s[i + 1 + k]);
            assert(s.subrange(i, i + ds.len() as int)[1 + k] == s[i + (1 + k)]);
            assert(s[i + 1 + k] == s[i + (1 + k)]);
        }
        assert(s.subrange(i + 1, i + 1 + tail.len() as int) =~= tail);
        lemma_digits_end_of_run(s, i + 1, tail);
    }
}

/// Reads a canonical run of decimal digits at position `i` of `s` and gives
/// its value: no empty run, no redundant leading zero, at most twenty digits.
pub open spec fn spec_parse_json_udec(s: Seq<u8>, i: int) -> Result<(int, int), DecodeErrorV> {
    let e = digits_end(s, i);
    if e == i {
        Err(DecodeErrorV::root(ErrorKind::TextFormat))
    } else if s[i] == 48 && e > i + 1 {
        Err(DecodeErrorV::root(ErrorKind::TextFormat))
    } else if e - i > 20 {
        Err(DecodeErrorV::root(ErrorKind::Shape))
    } else {
        Ok((dec_val(s.subrange(i, e)), e))
    }
}

/// Reads an unsigned 64-bit decimal number at position `i` of `s`; a value
/// outside the range is a shape failure.
pub open spec fn spec_parse_json_u64(s: Seq<u8>, i: int) -> Result<(u64, int), DecodeErrorV> {
    match spec_parse_json_udec(s, i) {
        Err(e) => Err(e),
        Ok((val, e)) => {
            if val > 0xffff_ffff_ffff_ffff {
                Err(DecodeErrorV::root(ErrorKind::Shape))
            } else {
                Ok((val as u64, e))
            }
        },
    }
}

/// Reads a signed 64-bit decimal number at position `i` of `s`; a value
/// outside the range is a shape failure, and `-0` is not canonical.
pub open spec fn spec_parse_json_i64(s: Seq<u8>, i: int) -> Result<(i64, int), DecodeErrorV> {
    if 0 <= i < s.len() && s[i] == MINUS {
        match spec_parse_json_udec(s, i + 1) {
            Err(e) => Err(e),
            Ok((val, e)) => {
                if val == 0 {
                    Err(DecodeErrorV::root(ErrorKind::TextFormat))
                } else if val > 0x8000_0000_0000_0000 {
                    Err(DecodeErrorV::root(ErrorKind::Shape))
                } else {
                    Ok(((-val) as i64, e))
                }
            },
        }
    } else {
        match spec_parse_json_udec(s, i) {
            Err(e) => Err(e),
            Ok((val, e)) => {
                if val > 0x7fff_ffff_ffff_ffff {
                    Err(DecodeErrorV::root(ErrorKind::Shape))
                } else {
                    Ok((val as i64, e))
                }
            },
        }
    }
}

/// Reading a buffer that carries the decimal text of `v` followed by a
/// non-digit yields `v` back.
pub proof fn lemma_parse_json_udec_prefix(s: Seq<u8>, i: int, v: u64)
    requires
        0 <= i,
        i + spec_dec_u64(v).len() <= s.len(),
        s.subrange(i, i + spec_dec_u64(v).len() as int) == spec_dec_u64(v),
        i + spec_dec_u64(v).len() == s.len() || !is_digit(s[i + spec_dec_u64(v).len()]),
    ensures
        spec_parse_json_udec(s, i) == Ok::<(int, int), DecodeErrorV>(
            (v as int, i + spec_dec_u64(v).len() as int),
        ),
{
    let ds = spec_dec_u64(v);
    lemma_dec_u64(v);
    lemma_digits_end_of_run(s, i, ds);
    assert(s.subrange(i, i + ds.len() as int)[0] == s[i + 0]);
    assert(s[i] == ds[0]);
    lemma_pow10_20();
    lemma_dec_u64_len(v, 20);
    assert(s.subrange(i, digits_end(s, i)) == ds);
    if v < 10 {
    } else {
        assert(s[i] != 48);
    }
}

/// Reading a buffer that carries the decimal text of `t` followed by a
/// non-digit yields `t` back.
pub proof fn lemma_parse_json_i64_prefix(s: Seq<u8>, i: int, t: i64)
    requires
        0 <= i,
        i + spec_dec_i64(t).len() <= s.len(),
        s.subrange(i, i + spec_dec_i64(t).len() as int) == spec_dec_i64(t),
        i + spec_dec_i64(t).len() == s.len() || !is_digit(s[i + spec_dec_i64(t).len()]),
    ensures
        spec_parse_json_i64(s, i) == Ok::<(i64, int), DecodeErrorV>(
            (t, i + spec_dec_i64(t).len() as int),
        ),
{
    if t >= 0 {
        lemma_dec_u64(t as u64);
        assert(s.subrange(i, i + spec_dec_i64(t).len() as int)[0] == s[i + 0]);
        assert(s[i] == spec_dec_u64(t as u64)[0]);
        assert(s[i] != MINUS);
        lemma_parse_json_udec_prefix(s, i, t as u64);
    } else {
        let mag = (-t) as u64;
        let md = spec_dec_u64(mag);
        assert(s.subrange(i, i + spec_dec_i64(t).len() as int)[0] == s[i + 0]);
        assert(s[i] == MINUS);
        assert forall|k: int| 0 <= k < md.len() implies s.subrange(
            i + 1,
            i + 1 + md.len() as int,
        )[k] == md[k] by {
            assert(s.subrange(i + 1, i + 1 + md.len() as int)[k] == s[i + 1 + k]);
            assert(s.subrange(i, i + spec_dec_i64(t).len() as int)[1 + k] == s[i + (1 + k)]);
            assert(s[i + 1 + k] == s[i + (1 + k)]);
            assert(spec_dec_i64(t)[1 + k] == md[k]);
        }
        assert(s.subrange(i + 1, i + 1 + md.len() as int) =~= md);
        lemma_parse_json_udec_prefix(s, i + 1, mag);
        assert(mag >= 1);
    }
}

/// Writes the minimal decimal text of `v` onto `out`.
pub fn push_dec_u64(out: &mut Vec<u8>, v: u64)
    ensures
        final(out)@ == old(out)@ + spec_dec_u64(v),
    decreases v,
{
    if v < 10 {
        out.push(48 + (v as u8));
        proof {
            assert(out@ =~= old(out)@ + spec_dec_u64(v));
        }
    } else {
        push_dec_u64(out, v / 10);
        out.push(48 + ((v % 10) as u8));
        proof {
            assert(out@ =~= old(out)@ + spec_dec_u64(v));
        }
    }
}

/// Writes the minimal decimal text of `t` onto `out`.
pub fn push_dec_i64(out: &mut Vec<u8>, t: i64)
    ensures
        final(out)@ == old(out)@ + spec_dec_i64(t),
{
    if t >= 0 {
        push_dec_u64(out, t as u64);
    } else {
        out.push(MINUS);
        let mag: u64 = ((-(t + 1)) as u64) + 1;
        push_dec_u64(out, mag);
        proof {
            assert(out@ =~= old(out)@ + spec_dec_i64(t));
        }
    }
}

/// Reads a canonical digit run at position `i` of `s`, as
/// [`spec_parse_json_udec`] describes.
fn read_json_udec(s: &[u8], i: usize) -> (r: Result<(u128, usize), DecodeError>)
    ensures
        ({
            let sp = spec_parse_json_udec(s@, i as int);
            match r {
                Ok((val, e)) => sp == Ok::<(int, int), DecodeErrorV>((val as int, e as int)),
                Err(er) => sp == Err::<(int, int), DecodeErrorV>(er@),
            }
        }),
{
    let n = s.len();
    if i >= n {
        proof {
            assert(digits_end(s@, i as int) == i as int);
        }
        return Err(DecodeError::root(ErrorKind::TextFormat));
    }
    let mut e: usize = i;
    while e < n && 48 <= s[e] && s[e] <= 57
        invariant
            i <= e <= n,
            n == s@.len(),
            digits_end(s@, i as int) == digits_end(s@, e as int),
        decreases n - e,
    {
        proof {
            assert(digits_end(s@, e as int) == digits_end(s@, e + 1 as int));
        }
        e = e + 1;
    }
    proof {
        assert(digits_end(s@, e as int) == e as int);
    }
    if e == i {
        return Err(DecodeError::root(ErrorKind::TextFormat));
    }
    if s[i] == 48 && e > i + 1 {
        return Err(DecodeError::root(ErrorKind::TextFormat));
    }
    if e - i > 20 {
        return Err(DecodeError::root(ErrorKind::Shape));
    }
    proof {
        lemma_pow10_20();
    }
    let mut acc: u128 = 0;
    let mut cur: usize = i;
    while cur < e
        invariant
            i <= cur <= e <= n,
            n == s@.len(),
            e - i <= 20,
            digits_end(s@, i as int) == e as int,
            acc as int == dec_val(s@.subrange(i as int, cur as int)),
            (acc as int) < pow10(cur - i),
            pow10(20) == 100000000000000000000int,
        decreases e - cur,
    {
        proof {
            lemma_digits_end_bounds(s@, i as int);
            assert(is_digit(s@[cur as int]));
            lemma_pow10_mono((cur - i) as int, 19);
            let run = s@.subrange(i as int, cur + 1 as int);
            assert(run.take(run.len() - 1) =~= s@.subrange(i as int, cur as int));
            assert(run.last() == s@[cur as int]);
        }
        let d = s[cur] - 48;
        acc = acc * 10 + (d as u128);
        cur = cur + 1;
    }
    if acc > 0xffff_ffff_ffff_ffff_ffff_ffff_ffff_ffffu128 {
        return Err(DecodeError::root(ErrorKind::Shape));
    }
    Ok((acc, e))
}

/// Reads an unsigned 64-bit decimal number at position `i` of `s`, as
/// [`spec_parse_json_u64`] describes.
pub fn read_json_u64(s: &[u8], i: usize) -> (r: Result<(u64, usize), DecodeError>)
    ensures
        ({
            let sp = spec_parse_json_u64(s@, i as int);
            match r {
                Ok((v, e)) => sp == Ok::<(u64, int), DecodeErrorV>((v, e as int)),
                Err(er) => sp == Err::<(u64, int), DecodeErrorV>(er@),
            }
        }),
{
    match read_json_udec(s, i) {
        Err(e) => Err(e),
        Ok((val, e)) => {
            if val > 0xffff_ffff_ffff_ffffu128 {
                Err(DecodeError::root(ErrorKind::Shape))
            } else {
                Ok((val as u64, e))
            }
        },
    }
}

/// Reads a signed 64-bit decimal number at position `i` of `s`, as
/// [`spec_parse_json_i64`] describes.
pub fn read_json_i64(s: &[u8], i: usize) -> (r: Result<(i64, usize), DecodeError>)
    ensures
        ({
            let sp = spec_parse_json_i64(s@, i as int);
            match r {
                Ok((t, e)) => sp == Ok::<(i64, int), DecodeErrorV>((t, e as int)),
                Err(er) => sp == Err::<(i64, int), DecodeErrorV>(er@),
            }
        }),
{
    if i < s.len() && s[i] == MINUS {
        match read_json_udec(s, i + 1) {
            Err(e) => Err(e),
            Ok((val, e)) => {
                if val == 0 {
                    Err(DecodeError::root(ErrorKind::TextFormat))
                } else if val > 0x8000_0000_0000_0000u128 {
                    Err(DecodeError::root(ErrorKind::Shape))
                } else if val == 0x8000_0000_0000_0000u128 {
                    Ok((i64::MIN, e))
                } else {
                    Ok((-((val as u64) as i64), e))
                }
            },
        }
    } else {
        match read_json_udec(s, i) {
            Err(e) => Err(e),
            Ok((val, e)) => {
                if val > 0x7fff_ffff_ffff_ffffu128 {
                    Err(DecodeError::root(ErrorKind::Shape))
                } else {
                    Ok((val as i64, e))
                }
            },
        }
    }
}

/// Whether `pat` occurs in `s` exactly at position `i`.
pub open spec fn spec_match_lit(s: Seq<u8>, i: int, pat: Seq<u8>) -> bool {
    0 <= i && i + pat.len() <= s.len() && s.subrange(i, i + pat.len() as int) == pat
}

/// The text `null`.
pub open spec fn spec_lit_null() -> Seq<u8> {
    seq![110u8, 117u8, 108u8, 108u8]
}

/// The text `true`.
pub open spec fn spec_lit_true() -> Seq<u8> {
    seq![116u8, 114u8, 117u8, 101u8]
}

/// The text `false`.
pub open spec fn spec_lit_false() -> Seq<u8> {
    seq![102u8, 97u8, 108u8, 115u8, 101u8]
}

/// The text of a boolean.
pub open spec fn spec_json_bool(b: bool) -> Seq<u8> {
    if b {
        spec_lit_true()
    } else {
        spec_lit_false()
    }
}

/// Reads a boolean literal at position `i` of `s`.
pub open spec fn spec_parse_json_bool(s: Seq<u8>, i: int) -> Result<(bool, int), DecodeErrorV> {
    if spec_match_lit(s, i, spec_lit_true()) {
        Ok((true, i + 4))
    } else if spec_match_lit(s, i, spec_lit_false()) {
        Ok((false, i + 5))
    } else {
        Err(DecodeErrorV::root(ErrorKind::TextFormat))
    }
}

/// Reading a buffer that carries a boolean literal yields that boolean.
pub proof fn lemma_parse_json_bool_prefix(s: Seq<u8>, i: int, b: bool)
    requires
        0 <= i,
        i + spec_json_bool(b).len() <= s.len(),
        s.subrange(i, i + spec_json_bool(b).len() as int) == spec_json_bool(b),
    ensures
        spec_parse_json_bool(s, i) == Ok::<(bool, int), DecodeErrorV>(
            (b, i + spec_json_bool(b).len() as int),
        ),
{
    if b {
    } else {
        if spec_match_lit(s, i, spec_lit_true()) {
            assert(s.subrange(i, i + 4)[0] == s[i + 0]);
            assert(s.subrange(i, i + 5)[0] == s[i + 0]);
            assert(false);
        }
    }
}

/// Writes `pat` onto `out`.
pub fn push_lit(out: &mut Vec<u8>, pat: &Vec<u8>)
    ensures
        final(out)@ == old(out)@ + pat@,
{
    let n = pat.len();
    let mut k: usize = 0;
    while k < n
        invariant
            k <= n,
            n == pat@.len(),
            out@ == old(out)@ + pat@.subrange(0, k as int),
        decreases n - k,
    {
        out.push(pat[k]);
        proof {
            assert(pat@.subrange(0, k + 1 as int) =~= pat@.subrange(0, k as int).push(
                pat@[k as int],
            ));
        }
        k = k + 1;
    }
    proof {
        assert(pat@.subrange(0, pat@.len() as int) =~= pat@);
        assert(out@ =~= old(out)@ + pat@);
    }
}

/// Whether `pat` occurs in `s` exactly at position `i`, as
/// [`spec_match_lit`] describes.
pub fn expect_lit(s: &[u8], i: usize, pat: &Vec<u8>) -> (r: bool)
    ensures
        r == spec_match_lit(s@, i as int, pat@),
{
    let n = pat.len();
    let sn = s.len();
    if i > sn || n > sn - i {
        return false;
    }
    let mut k: usize = 0;
    while k < n
        invariant
            k <= n,
            n == pat@.len(),
            sn == s@.len(),
            i + n <= sn,
            forall|m: int| 0 <= m < k ==> s@[i + m] == pat@[m],
        decreases n - k,
    {
        if s[i + k] != pat[k] {
            proof {
                assert(s@.subrange(i as int, i + pat@.len() as int)[k as int] == s@[i + k]);
            }
            return false;
        }
        k = k + 1;
    }
    proof {
        assert forall|m: int| 0 <= m < pat@.len() implies s@.subrange(
            i as int,
            i + pat@.len() as int,
        )[m] == pat@[m] by {
            assert(s@.subrange(i as int, i + pat@.len() as int)[m] == s@[i + m]);
        }
        assert(s@.subrange(i as int, i + pat@.len() as int) =~= pat@);
    }
    true
}

/// Whether every byte of `b` is in the ASCII range.
pub open spec fn ascii_seq(b: Seq<u8>) -> bool {
    forall|k: int| 0 <= k < b.len() ==> b[k] < 128
}

/// Hex text is ASCII.
pub proof fn lemma_hex_ascii(b: Seq<u8>)
    ensures
        ascii_seq(spec_hex(b)),
        ascii_seq(spec_hex_str(b)),
    decreases b.len(),
{
    if b.len() == 0 {
    } else {
        lemma_hex_ascii(b.subrange(1, b.len() as int));
    }
    assert forall|k: int| 0 <= k < spec_hex_str(b).len() implies spec_hex_str(b)[k] < 128 by {
        if 1 <= k < spec_hex(b).len() + 1 {
            assert(spec_hex_str(b)[k] == spec_hex(b)[k - 1]);
        }
    }
}

/// Decimal text is ASCII.
pub proof fn lemma_dec_ascii(v: u64)
    ensures
        ascii_seq(spec_dec_u64(v)),
    decreases v,
{
    if v >= 10 {
        lemma_dec_ascii(v / 10);
    }
}

/// Signed decimal text is ASCII.
pub proof fn lemma_dec_i64_ascii(t: i64)
    ensures
        ascii_seq(spec_dec_i64(t)),
{
    if t >= 0 {
        lemma_dec_ascii(t as u64);
    } else {
        lemma_dec_ascii((-t) as u64);
        assert forall|k: int| 0 <= k < spec_dec_i64(t).len() implies spec_dec_i64(t)[k] < 128 by {
            if k >= 1 {
                assert(spec_dec_i64(t)[k] == spec_dec_u64((-t) as u64)[k - 1]);
            }
        }
    }
}

/// The characters shown by a byte sequence read one byte per character.
pub open spec fn chars_of_bytes(b: Seq<u8>) -> Seq<char> {
    Seq::new(b.len(), |k: int| b[k] as char)
}

/// The bytes of a character sequence, one byte per character.
pub open spec fn bytes_of_chars(t: Seq<char>) -> Seq<u8> {
    Seq::new(t.len(), |k: int| t[k] as u8)
}

/// Relies on `String::from_utf8`: a byte sequence in the ASCII range decodes
/// to the string with exactly those characters. A non-ASCII input (never
/// produced by this crate's writers) falls back to the empty string rather
/// than failing.
#[verifier::external_body]
pub(crate) fn string_from_ascii(bytes: Vec<u8>) -> (r: String)
    ensures
        ascii_seq(bytes@) ==> r@ == chars_of_bytes(bytes@),
{
    match String::from_utf8(bytes) {
        Ok(t) => t,
        Err(_) => String::new(),
    }
}

} // verus!
