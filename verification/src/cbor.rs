//! Canonical CBOR byte-level reader and writer.
//!
//! Every CBOR item starts with a head: a major type in the top three bits of
//! the first byte and an unsigned argument. The canonical profile admits
//! exactly one head per (major, argument) pair: the shortest one. The reader
//! rejects longer-than-needed arguments and indefinite-length markers with
//! [`ErrorKind::CanonicalForm`], and everything else unreadable with
//! [`ErrorKind::Shape`].

use vstd::prelude::*;

use crate::err::{DecodeError, DecodeErrorV, ErrorKind};

verus! {

/// The byte encoding the simple value `false`.
pub const SIMPLE_FALSE: u8 = 0xf4;

/// The byte encoding the simple value `true`.
pub const SIMPLE_TRUE: u8 = 0xf5;

/// The byte encoding the simple value `null`.
pub const SIMPLE_NULL: u8 = 0xf6;

/// The canonical head for major type `major` with argument `v`: the shortest
/// of the five head widths that holds `v`.
pub open spec fn spec_head(major: u8, v: u64) -> Seq<u8> {
    let ib = (major << 5) as u8;
    if v < 24 {
        seq![(ib | (v as u8)) as u8]
    } else if v <= 0xff {
        seq![(ib | 24) as u8, v as u8]
    } else if v <= 0xffff {
        seq![(ib | 25) as u8, ((v >> 8) & 0xff) as u8, (v & 0xff) as u8]
    } else if v <= 0xffff_ffff {
        seq![
            (ib | 26) as u8,
            ((v >> 24) & 0xff) as u8,
            ((v >> 16) & 0xff) as u8,
            ((v >> 8) & 0xff) as u8,
            (v & 0xff) as u8,
        ]
    } else {
        seq![
            (ib | 27) as u8,
            ((v >> 56) & 0xff) as u8,
            ((v >> 48) & 0xff) as u8,
            ((v >> 40) & 0xff) as u8,
            ((v >> 32) & 0xff) as u8,
            ((v >> 24) & 0xff) as u8,
            ((v >> 16) & 0xff) as u8,
            ((v >> 8) & 0xff) as u8,
            (v & 0xff) as u8,
        ]
    }
}

/// Reads a head at position `i` of `s`. Returns the major type, the argument
/// and the position after the head; rejects non-minimal arguments and the
/// indefinite-length marker as non-canonical, and anything else unreadable as
/// a shape failure.
pub open spec fn spec_parse_head(s: Seq<u8>, i: int) -> Result<(u8, u64, int), DecodeErrorV> {
    if !(0 <= i < s.len()) {
        Err(DecodeErrorV::root(ErrorKind::Shape))
    } else {
        let b0 = s[i];
        let major = (b0 >> 5) as u8;
        let ai = (b0 & 0x1f) as u8;
        if ai < 24 {
            Ok((major, ai as u64, i + 1))
        } else if ai == 24 {
            if s.len() < i + 2 {
                Err(DecodeErrorV::root(ErrorKind::Shape))
            } else {
                let v = s[i + 1] as u64;
                if v < 24 {
                    Err(DecodeErrorV::root(ErrorKind::CanonicalForm))
                } else {
                    Ok((major, v, i + 2))
                }
            }
        } else if ai == 25 {
            if s.len() < i + 3 {
                Err(DecodeErrorV::root(ErrorKind::Shape))
            } else {
                let v = (((s[i + 1] as u64) << 8) | (s[i + 2] as u64)) as u64;
                if v <= 0xff {
                    Err(DecodeErrorV::root(ErrorKind::CanonicalForm))
                } else {
                    Ok((major, v, i + 3))
                }
            }
        } else if ai == 26 {
            if s.len() < i + 5 {
                Err(DecodeErrorV::root(ErrorKind::Shape))
            } else {
                let v = (((s[i + 1] as u64) << 24) | ((s[i + 2] as u64) << 16) | ((s[i + 3]
                    as u64) << 8) | (s[i + 4] as u64)) as u64;
                if v <= 0xffff {
                    Err(DecodeErrorV::root(ErrorKind::CanonicalForm))
                } else {
                    Ok((major, v, i + 5))
                }
            }
        } else if ai == 27 {
            if s.len() < i + 9 {
                Err(DecodeErrorV::root(ErrorKind::Shape))
            } else {
                let v = (((s[i + 1] as u64) << 56) | ((s[i + 2] as u64) << 48) | ((s[i + 3]
                    as u64) << 40) | ((s[i + 4] as u64) << 32) | ((s[i + 5] as u64) << 24) | ((s[i
                    + 6] as u64) << 16) | ((s[i + 7] as u64) << 8) | (s[i + 8] as u64)) as u64;
                if v <= 0xffff_ffff {
                    Err(DecodeErrorV::root(ErrorKind::CanonicalForm))
                } else {
                    Ok((major, v, i + 9))
                }
            }
        } else if ai == 31 {
            Err(DecodeErrorV::root(ErrorKind::CanonicalForm))
        } else {
            Err(DecodeErrorV::root(ErrorKind::Shape))
        }
    }
}

/// Reading a buffer that carries a canonical head at position `i` yields that
/// head's major type and argument and stops right after it.
pub proof fn lemma_parse_head_prefix(s: Seq<u8>, i: int, major: u8, v: u64)
    requires
        major < 8,
        0 <= i,
        i + spec_head(major, v).len() <= s.len(),
        s.subrange(i, i + spec_head(major, v).len() as int) == spec_head(major, v),
    ensures
        spec_parse_head(s, i) == Ok::<(u8, u64, int), DecodeErrorV>(
            (major, v, i + spec_head(major, v).len() as int),
        ),
{
    let h = spec_head(major, v);
    let sub = s.subrange(i, i + h.len() as int);
    assert forall|k: int| 0 <= k < h.len() implies s[i + k] == h[k] by {
        assert(sub[k] == s[i + k]);
    }
    assert(s[i] == h[0]) by {
        assert(s[i + 0] == h[0]);
    }
    let ib = (major << 5) as u8;
    if v < 24 {
        let b0 = (ib | (v as u8)) as u8;
        assert(s[i] == b0);
        assert((b0 >> 5) as u8 == major && (b0 & 0x1f) as u8 == v as u8 && (b0 & 0x1f) < 24 && (
        (b0 & 0x1f) as u8) as u64 == v) by (bit_vector)
            requires
                major < 8,
                v < 24,
                b0 == ((major << 5) as u8 | (v as u8)) as u8,
        ;
    } else if v <= 0xff {
        let b0 = (ib | 24) as u8;
        assert(s[i] == b0 && s[i + 1] == v as u8);
        assert((b0 >> 5) as u8 == major && (b0 & 0x1f) as u8 == 24 && (v as u8) as u64 == v && (v
        as u8) >= 24) by (bit_vector)
            requires
                major < 8,
                24 <= v <= 0xff,
                b0 == ((major << 5) as u8 | 24) as u8,
        ;
    } else if v <= 0xffff {
        let b0 = (ib | 25) as u8;
        let b1 = ((v >> 8) & 0xff) as u8;
        let b2 = (v & 0xff) as u8;
        assert(s[i] == b0 && s[i + 1] == b1 && s[i + 2] == b2);
        assert((b0 >> 5) as u8 == major && (b0 & 0x1f) as u8 == 25 && (((b1 as u64) << 8) | (b2
        as u64)) as u64 == v && v > 0xff) by (bit_vector)
            requires
                major < 8,
                0xff < v <= 0xffff,
                b0 == ((major << 5) as u8 | 25) as u8,
                b1 == ((v >> 8) & 0xff) as u8,
                b2 == (v & 0xff) as u8,
        ;
    } else if v <= 0xffff_ffff {
        let b0 = (ib | 26) as u8;
        let b1 = ((v >> 24) & 0xff) as u8;
        let b2 = ((v >> 16) & 0xff) as u8;
        let b3 = ((v >> 8) & 0xff) as u8;
        let b4 = (v & 0xff) as u8;
        assert(s[i] == b0 && s[i + 1] == b1 && s[i + 2] == b2 && s[i + 3] == b3 && s[i + 4] == b4);
        assert((b0 >> 5) as u8 == major && (b0 & 0x1f) as u8 == 26 && (((b1 as u64) << 24) | ((b2
        as u64) << 16) | ((b3 as u64) << 8) | (b4 as u64)) as u64 == v && v > 0xffff) by (bit_vector)
            requires
                major < 8,
                0xffff < v <= 0xffff_ffff,
                b0 == ((major << 5) as u8 | 26) as u8,
                b1 == ((v >> 24) & 0xff) as u8,
                b2 == ((v >> 16) & 0xff) as u8,
                b3 == ((v >> 8) & 0xff) as u8,
                b4 == (v & 0xff) as u8,
        ;
    } else {
        let b0 = (ib | 27) as u8;
        let b1 = ((v >> 56) & 0xff) as u8;
        let b2 = ((v >> 48) & 0xff) as u8;
        let b3 = ((v >> 40) & 0xff) as u8;
        let b4 = ((v >> 32) & 0xff) as u8;
        let b5 = ((v >> 24) & 0xff) as u8;
        let b6 = ((v >> 16) & 0xff) as u8;
        let b7 = ((v >> 8) & 0xff) as u8;
        let b8 = (v & 0xff) as u8;
        assert(s[i] == b0 && s[i + 1] == b1 && s[i + 2] == b2 && s[i + 3] == b3 && s[i + 4] == b4
            && s[i + 5] == b5 && s[i + 6] == b6 && s[i + 7] == b7 && s[i + 8] == b8);
        assert((b0 >> 5) as u8 == major && (b0 & 0x1f) as u8 == 27 && (((b1 as u64) << 56) | ((b2
        as u64) << 48) | ((b3 as u64) << 40) | ((b4 as u64) << 32) | ((b5 as u64) << 24) | ((b6
        as u64) << 16) | ((b7 as u64) << 8) | (b8 as u64)) as u64 == v && v > 0xffff_ffff)
            by (bit_vector)
            requires
                major < 8,
                v > 0xffff_ffff,
                b0 == ((major << 5) as u8 | 27) as u8,
                b1 == ((v >> 56) & 0xff) as u8,
                b2 == ((v >> 48) & 0xff) as u8,
                b3 == ((v >> 40) & 0xff) as u8,
                b4 == ((v >> 32) & 0xff) as u8,
                b5 == ((v >> 24) & 0xff) as u8,
                b6 == ((v >> 16) & 0xff) as u8,
                b7 == ((v >> 8) & 0xff) as u8,
                b8 == (v & 0xff) as u8,
        ;
    }
}

/// A head the reader accepts is exactly the canonical head of what it read:
/// the consumed bytes equal `spec_head` of the result.
pub proof fn lemma_parse_head_canonical(s: Seq<u8>, i: int)
    requires
        spec_parse_head(s, i) is Ok,
    ensures
        ({
            let (major, v, j) = spec_parse_head(s, i)->Ok_0;
            &&& major < 8
            &&& 0 <= i < j <= s.len()
            &&& j == i + spec_head(major, v).len()
            &&& s.subrange(i, j) == spec_head(major, v)
        }),
{
    let (major, v, j) = spec_parse_head(s, i)->Ok_0;
    let b0 = s[i];
    let ai = (b0 & 0x1f) as u8;
    assert(((b0 >> 5) as u8) < 8) by (bit_vector);
    assert(((((b0 >> 5) as u8) << 5) as u8 | ((b0 & 0x1f) as u8)) == b0) by (bit_vector);
    let ib = (major << 5) as u8;
    if ai < 24 {
        assert((ai as u64) < 24 && (ai as u64) as u8 == ai) by (bit_vector)
            requires
                ai == (b0 & 0x1f) as u8,
                ai < 24,
        ;
        assert(s.subrange(i, j) =~= spec_head(major, v));
    } else if ai == 24 {
        let b1 = s[i + 1];
        assert((b1 as u64) <= 0xff && (b1 as u64) as u8 == b1) by (bit_vector);
        assert(s.subrange(i, j) =~= spec_head(major, v));
    } else if ai == 25 {
        let b1 = s[i + 1];
        let b2 = s[i + 2];
        let w = (((b1 as u64) << 8) | (b2 as u64)) as u64;
        assert(w <= 0xffff && ((w >> 8) & 0xff) as u8 == b1 && (w & 0xff) as u8 == b2)
            by (bit_vector)
            requires
                w == (((b1 as u64) << 8) | (b2 as u64)) as u64,
        ;
        assert(s.subrange(i, j) =~= spec_head(major, v));
    } else if ai == 26 {
        let b1 = s[i + 1];
        let b2 = s[i + 2];
        let b3 = s[i + 3];
        let b4 = s[i + 4];
        let w = (((b1 as u64) << 24) | ((b2 as u64) << 16) | ((b3 as u64) << 8) | (b4
            as u64)) as u64;
        assert(w <= 0xffff_ffff && ((w >> 24) & 0xff) as u8 == b1 && ((w >> 16) & 0xff) as u8 == b2
            && ((w >> 8) & 0xff) as u8 == b3 && (w & 0xff) as u8 == b4) by (bit_vector)
            requires
                w == (((b1 as u64) << 24) | ((b2 as u64) << 16) | ((b3 as u64) << 8) | (b4
                    as u64)) as u64,
        ;
        assert(s.subrange(i, j) =~= spec_head(major, v));
    } else {
        let b1 = s[i + 1];
        let b2 = s[i + 2];
        let b3 = s[i + 3];
        let b4 = s[i + 4];
        let b5 = s[i + 5];
        let b6 = s[i + 6];
        let b7 = s[i + 7];
        let b8 = s[i + 8];
        let w = (((b1 as u64) << 56) | ((b2 as u64) << 48) | ((b3 as u64) << 40) | ((b4
            as u64) << 32) | ((b5 as u64) << 24) | ((b6 as u64) << 16) | ((b7 as u64) << 8) | (b8
            as u64)) as u64;
        assert(((w >> 56) & 0xff) as u8 == b1 && ((w >> 48) & 0xff) as u8 == b2 && ((w >> 40)
            & 0xff) as u8 == b3 && ((w >> 32) & 0xff) as u8 == b4 && ((w >> 24) & 0xff) as u8 == b5
            && ((w >> 16) & 0xff) as u8 == b6 && ((w >> 8) & 0xff) as u8 == b7 && (w & 0xff) as u8
            == b8) by (bit_vector)
            requires
                w == (((b1 as u64) << 56) | ((b2 as u64) << 48) | ((b3 as u64) << 40) | ((b4
                    as u64) << 32) | ((b5 as u64) << 24) | ((b6 as u64) << 16) | ((b7
                    as u64) << 8) | (b8 as u64)) as u64,
        ;
        assert(s.subrange(i, j) =~= spec_head(major, v));
    }
}

/// The top three bits of the first byte of a canonical head give back the
/// major type; in particular no head of major type 0 to 5 starts with a
/// simple-value byte.
pub proof fn lemma_head_first_byte(major: u8, v: u64)
    requires
        major < 8,
    ensures
        spec_head(major, v).len() >= 1,
        ((spec_head(major, v)[0] >> 5) as u8) == major,
{
    let ib = (major << 5) as u8;
    if v < 24 {
        let b0 = (ib | (v as u8)) as u8;
        assert(((b0 >> 5) as u8) == major) by (bit_vector)
            requires
                major < 8,
                v < 24,
                b0 == ((major << 5) as u8 | (v as u8)) as u8,
        ;
    } else if v <= 0xff {
        let b0 = (ib | 24) as u8;
        assert(((b0 >> 5) as u8) == major) by (bit_vector)
            requires
                major < 8,
                b0 == ((major << 5) as u8 | 24) as u8,
        ;
    } else if v <= 0xffff {
        let b0 = (ib | 25) as u8;
        assert(((b0 >> 5) as u8) == major) by (bit_vector)
            requires
                major < 8,
                b0 == ((major << 5) as u8 | 25) as u8,
        ;
    } else if v <= 0xffff_ffff {
        let b0 = (ib | 26) as u8;
        assert(((b0 >> 5) as u8) == major) by (bit_vector)
            requires
                major < 8,
                b0 == ((major << 5) as u8 | 26) as u8,
        ;
    } else {
        let b0 = (ib | 27) as u8;
        assert(((b0 >> 5) as u8) == major) by (bit_vector)
            requires
                major < 8,
                b0 == ((major << 5) as u8 | 27) as u8,
        ;
    }
}

/// Splitting a known subrange equality at a concatenation boundary.
pub proof fn lemma_subrange_split(s: Seq<u8>, i: int, a: Seq<u8>, b: Seq<u8>)
    requires
        0 <= i,
        i + a.len() + b.len() <= s.len(),
        s.subrange(i, i + a.len() + b.len()) == a + b,
    ensures
        s.subrange(i, i + a.len() as int) == a,
        s.subrange(i + a.len() as int, i + a.len() + b.len()) == b,
{
    let whole = s.subrange(i, i + a.len() + b.len());
    let first = s.subrange(i, i + a.len() as int);
    let second = s.subrange(i + a.len() as int, i + a.len() + b.len());
    assert forall|k: int| 0 <= k < a.len() implies first[k] == a[k] by {
        assert(first[k] == s[i + k]);
        assert(whole[k] == s[i + k]);
        assert((a + b)[k] == a[k]);
    }
    assert forall|k: int| 0 <= k < b.len() implies second[k] == b[k] by {
        assert(second[k] == s[i + a.len() + k]);
        assert(whole[a.len() + k] == s[i + (a.len() + k)]);
        assert(s[i + a.len() + k] == s[i + (a.len() + k)]);
        assert((a + b)[a.len() + k] == b[k]);
    }
    assert(first =~= a);
    assert(second =~= b);
}

/// Joining two adjacent subranges into one.
pub proof fn lemma_subrange_join(s: Seq<u8>, i: int, m: int, j: int)
    requires
        0 <= i <= m <= j <= s.len(),
    ensures
        s.subrange(i, j) == s.subrange(i, m) + s.subrange(m, j),
{
    assert(s.subrange(i, j) =~= s.subrange(i, m) + s.subrange(m, j));
}

/// Writes the canonical head for `(major, v)` onto `out`.
pub fn push_head(out: &mut Vec<u8>, major: u8, v: u64)
    requires
        major < 8,
    ensures
        final(out)@ == old(out)@ + spec_head(major, v),
{
    let ib: u8 = major << 5;
    if v < 24 {
        out.push(ib | (v as u8));
    } else if v <= 0xff {
        out.push(ib | 24);
        out.push((v & 0xff) as u8);
    } else if v <= 0xffff {
        out.push(ib | 25);
        out.push(((v >> 8) & 0xff) as u8);
        out.push((v & 0xff) as u8);
    } else if v <= 0xffff_ffff {
        out.push(ib | 26);
        out.push(((v >> 24) & 0xff) as u8);
        out.push(((v >> 16) & 0xff) as u8);
        out.push(((v >> 8) & 0xff) as u8);
        out.push((v & 0xff) as u8);
    } else {
        out.push(ib | 27);
        out.push(((v >> 56) & 0xff) as u8);
        out.push(((v >> 48) & 0xff) as u8);
        out.push(((v >> 40) & 0xff) as u8);
        out.push(((v >> 32) & 0xff) as u8);
        out.push(((v >> 24) & 0xff) as u8);
        out.push(((v >> 16) & 0xff) as u8);
        out.push(((v >> 8) & 0xff) as u8);
        out.push((v & 0xff) as u8);
    }
    proof {
        assert(v < 24 ==> (v & 0xff) as u8 == v as u8) by (bit_vector);
        assert(v <= 0xff ==> (v & 0xff) as u8 == v as u8) by (bit_vector);
        assert(out@ =~= old(out)@ + spec_head(major, v));
    }
}

/// Reads one head at position `i` of `s`, as [`spec_parse_head`] describes.
pub fn read_head(s: &[u8], i: usize) -> (r: Result<(u8, u64, usize), DecodeError>)
    ensures
        ({
            let sp = spec_parse_head(s@, i as int);
            match r {
                Ok((major, v, j)) => sp == Ok::<(u8, u64, int), DecodeErrorV>(
                    (major, v, j as int),
                ),
                Err(e) => sp == Err::<(u8, u64, int), DecodeErrorV>(e@),
            }
        }),
{
    let n = s.len();
    if i >= n {
        return Err(DecodeError::root(ErrorKind::Shape));
    }
    let b0 = s[i];
    let major = b0 >> 5;
    let ai = b0 & 0x1f;
    if ai < 24 {
        Ok((major, ai as u64, i + 1))
    } else if ai == 24 {
        if n - i < 2 {
            return Err(DecodeError::root(ErrorKind::Shape));
        }
        let v = s[i + 1] as u64;
        if v < 24 {
            Err(DecodeError::root(ErrorKind::CanonicalForm))
        } else {
            Ok((major, v, i + 2))
        }
    } else if ai == 25 {
        if n - i < 3 {
            return Err(DecodeError::root(ErrorKind::Shape));
        }
        let v = ((s[i + 1] as u64) << 8) | (s[i + 2] as u64);
        if v <= 0xff {
            Err(DecodeError::root(ErrorKind::CanonicalForm))
        } else {
            Ok((major, v, i + 3))
        }
    } else if ai == 26 {
        if n - i < 5 {
            return Err(DecodeError::root(ErrorKind::Shape));
        }
        let v = ((s[i + 1] as u64) << 24) | ((s[i + 2] as u64) << 16) | ((s[i + 3] as u64) << 8)
            | (s[i + 4] as u64);
        if v <= 0xffff {
            Err(DecodeError::root(ErrorKind::CanonicalForm))
        } else {
            Ok((major, v, i + 5))
        }
    } else if ai == 27 {
        if n - i < 9 {
            return Err(DecodeError::root(ErrorKind::Shape));
        }
        let v = ((s[i + 1] as u64) << 56) | ((s[i + 2] as u64) << 48) | ((s[i + 3] as u64) << 40)
            | ((s[i + 4] as u64) << 32) | ((s[i + 5] as u64) << 24) | ((s[i + 6] as u64) << 16) | (
        (s[i + 7] as u64) << 8) | (s[i + 8] as u64);
        if v <= 0xffff_ffff {
            Err(DecodeError::root(ErrorKind::CanonicalForm))
        } else {
            Ok((major, v, i + 9))
        }
    } else if ai == 31 {
        Err(DecodeError::root(ErrorKind::CanonicalForm))
    } else {
        Err(DecodeError::root(ErrorKind::Shape))
    }
}

/// The canonical encoding of a byte string: a major-2 head carrying the
/// length, then the bytes themselves.
pub open spec fn spec_cbor_bytes(b: Seq<u8>) -> Seq<u8> {
    spec_head(2, b.len() as u64) + b
}

/// Reads a byte string at position `i` of `s`.
pub open spec fn spec_parse_bytes(s: Seq<u8>, i: int) -> Result<(Seq<u8>, int), DecodeErrorV> {
    match spec_parse_head(s, i) {
        Ok((major, v, j)) => {
            if major != 2 {
                Err(DecodeErrorV::root(ErrorKind::Shape))
            } else if s.len() < j + v {
                Err(DecodeErrorV::root(ErrorKind::Shape))
            } else {
                Ok((s.subrange(j, j + v), j + v))
            }
        },
        Err(e) => Err(e),
    }
}

/// Reading a buffer that carries a canonical byte string at position `i`
/// yields those bytes and stops right after them.
pub proof fn lemma_parse_bytes_prefix(s: Seq<u8>, i: int, b: Seq<u8>)
    requires
        0 <= i,
        b.len() <= 0xffff_ffff,
        i + spec_cbor_bytes(b).len() <= s.len(),
        s.subrange(i, i + spec_cbor_bytes(b).len() as int) == spec_cbor_bytes(b),
    ensures
        spec_parse_bytes(s, i) == Ok::<(Seq<u8>, int), DecodeErrorV>(
            (b, i + spec_cbor_bytes(b).len() as int),
        ),
{
    let h = spec_head(2, b.len() as u64);
    lemma_subrange_split(s, i, h, b);
    lemma_parse_head_prefix(s, i, 2, b.len() as u64);
    assert(spec_parse_bytes(s, i)->Ok_0.0 =~= b);
}

/// A byte string the reader accepts occupies exactly its canonical encoding.
pub proof fn lemma_parse_bytes_canonical(s: Seq<u8>, i: int)
    requires
        spec_parse_bytes(s, i) is Ok,
    ensures
        ({
            let (b, j) = spec_parse_bytes(s, i)->Ok_0;
            &&& 0 <= i < j <= s.len()
            &&& b.len() <= 0xffff_ffff_ffff_ffff
            &&& s.subrange(i, j) == spec_cbor_bytes(b)
        }),
{
    let (major, v, m) = spec_parse_head(s, i)->Ok_0;
    lemma_parse_head_canonical(s, i);
    let (b, j) = spec_parse_bytes(s, i)->Ok_0;
    lemma_subrange_join(s, i, m, j);
    assert(s.subrange(m, j) =~= b);
    assert(b.len() as u64 == v);
    assert(s.subrange(i, j) =~= spec_cbor_bytes(b));
}

/// The canonical encoding of a signed 64-bit integer: major type 0 for
/// non-negative values, major type 1 otherwise.
pub open spec fn spec_cbor_i64(t: i64) -> Seq<u8> {
    if t >= 0 {
        spec_head(0, t as u64)
    } else {
        spec_head(1, (-1 - t) as u64)
    }
}

/// Reads a signed 64-bit integer at position `i` of `s`; an integer outside
/// the signed 64-bit range is a shape failure.
pub open spec fn spec_parse_i64(s: Seq<u8>, i: int) -> Result<(i64, int), DecodeErrorV> {
    match spec_parse_head(s, i) {
        Ok((major, v, j)) => {
            if major == 0 {
                if v <= 0x7fff_ffff_ffff_ffff {
                    Ok((v as i64, j))
                } else {
                    Err(DecodeErrorV::root(ErrorKind::Shape))
                }
            } else if major == 1 {
                if v <= 0x7fff_ffff_ffff_ffff {
                    Ok(((-1 - v) as i64, j))
                } else {
                    Err(DecodeErrorV::root(ErrorKind::Shape))
                }
            } else {
                Err(DecodeErrorV::root(ErrorKind::Shape))
            }
        },
        Err(e) => Err(e),
    }
}

/// Reading a buffer that carries a canonical signed integer at position `i`
/// yields that integer and stops right after it.
pub proof fn lemma_parse_i64_prefix(s: Seq<u8>, i: int, t: i64)
    requires
        0 <= i,
        i + spec_cbor_i64(t).len() <= s.len(),
        s.subrange(i, i + spec_cbor_i64(t).len() as int) == spec_cbor_i64(t),
    ensures
        spec_parse_i64(s, i) == Ok::<(i64, int), DecodeErrorV>(
            (t, i + spec_cbor_i64(t).len() as int),
        ),
{
    if t >= 0 {
        lemma_parse_head_prefix(s, i, 0, t as u64);
    } else {
        lemma_parse_head_prefix(s, i, 1, (-1 - t) as u64);
    }
}

/// A signed integer the reader accepts occupies exactly its canonical
/// encoding.
pub proof fn lemma_parse_i64_canonical(s: Seq<u8>, i: int)
    requires
        spec_parse_i64(s, i) is Ok,
    ensures
        ({
            let (t, j) = spec_parse_i64(s, i)->Ok_0;
            &&& 0 <= i < j <= s.len()
            &&& s.subrange(i, j) == spec_cbor_i64(t)
        }),
{
    lemma_parse_head_canonical(s, i);
}

/// The canonical encoding of a boolean: one simple-value byte.
pub open spec fn spec_cbor_bool(b: bool) -> Seq<u8> {
    if b {
        seq![SIMPLE_TRUE]
    } else {
        seq![SIMPLE_FALSE]
    }
}

/// Reads a boolean at position `i` of `s`.
pub open spec fn spec_parse_bool(s: Seq<u8>, i: int) -> Result<(bool, int), DecodeErrorV> {
    if !(0 <= i < s.len()) {
        Err(DecodeErrorV::root(ErrorKind::Shape))
    } else if s[i] == SIMPLE_FALSE {
        Ok((false, i + 1))
    } else if s[i] == SIMPLE_TRUE {
        Ok((true, i + 1))
    } else {
        Err(DecodeErrorV::root(ErrorKind::Shape))
    }
}

/// Reading a buffer that carries an encoded boolean at position `i` yields
/// that boolean and stops right after it.
pub proof fn lemma_parse_bool_prefix(s: Seq<u8>, i: int, b: bool)
    requires
        0 <= i,
        i + 1 <= s.len(),
        s.subrange(i, i + 1) == spec_cbor_bool(b),
    ensures
        spec_parse_bool(s, i) == Ok::<(bool, int), DecodeErrorV>((b, i + 1)),
{
    assert(s[i] == s.subrange(i, i + 1)[0]);
}

/// A boolean the reader accepts occupies exactly its canonical encoding.
pub proof fn lemma_parse_bool_canonical(s: Seq<u8>, i: int)
    requires
        spec_parse_bool(s, i) is Ok,
    ensures
        ({
            let (b, j) = spec_parse_bool(s, i)->Ok_0;
            &&& 0 <= i < j <= s.len()
            &&& s.subrange(i, j) == spec_cbor_bool(b)
        }),
{
    let (b, j) = spec_parse_bool(s, i)->Ok_0;
    assert(s.subrange(i, j) =~= spec_cbor_bool(b));
}

/// Writes a byte string item onto `out`.
pub fn push_bytes(out: &mut Vec<u8>, b: &Vec<u8>)
    ensures
        final(out)@ == old(out)@ + spec_cbor_bytes(b@),
{
    push_head(out, 2, b.len() as u64);
    let n = b.len();
    let mut k: usize = 0;
    while k < n
        invariant
            k <= n,
            n == b@.len(),
            out@ == old(out)@ + spec_head(2, b@.len() as u64) + b@.subrange(0, k as int),
        decreases n - k,
    {
        out.push(b[k]);
        proof {
            assert(b@.subrange(0, k + 1 as int) =~= b@.subrange(0, k as int).push(b@[k as int]));
        }
        k = k + 1;
    }
    proof {
        assert(b@.subrange(0, b@.len() as int) =~= b@);
        assert(out@ =~= old(out)@ + spec_cbor_bytes(b@));
    }
}

/// Writes a signed 64-bit integer onto `out`.
pub fn push_i64(out: &mut Vec<u8>, t: i64)
    ensures
        final(out)@ == old(out)@ + spec_cbor_i64(t),
{
    if t >= 0 {
        push_head(out, 0, t as u64);
    } else {
        let mag: i64 = -(t + 1);
        push_head(out, 1, mag as u64);
    }
}

/// Writes a boolean onto `out`.
pub fn push_bool(out: &mut Vec<u8>, b: bool)
    ensures
        final(out)@ == old(out)@ + spec_cbor_bool(b),
{
    if b {
        out.push(SIMPLE_TRUE);
    } else {
        out.push(SIMPLE_FALSE);
    }
    proof {
        assert(out@ =~= old(out)@ + spec_cbor_bool(b));
    }
}

/// Reads a byte string at position `i` of `s`, as [`spec_parse_bytes`]
/// describes.
pub fn read_bytes(s: &[u8], i: usize) -> (r: Result<(Vec<u8>, usize), DecodeError>)
    ensures
        ({
            let sp = spec_parse_bytes(s@, i as int);
            match r {
                Ok((b, j)) => sp == Ok::<(Seq<u8>, int), DecodeErrorV>((b@, j as int)),
                Err(e) => sp == Err::<(Seq<u8>, int), DecodeErrorV>(e@),
            }
        }),
{
    match read_head(s, i) {
        Err(e) => Err(e),
        Ok((major, v, j)) => {
            if major != 2 {
                return Err(DecodeError::root(ErrorKind::Shape));
            }
            proof {
                lemma_parse_head_canonical(s@, i as int);
            }
            let n = s.len();
            if v > (n - j) as u64 {
                return Err(DecodeError::root(ErrorKind::Shape));
            }
            let end = j + (v as usize);
            let sub = &s[j..end];
            let b = vstd::slice::slice_to_vec(sub);
            Ok((b, end))
        },
    }
}

/// Reads a signed 64-bit integer at position `i` of `s`, as
/// [`spec_parse_i64`] describes.
pub fn read_i64(s: &[u8], i: usize) -> (r: Result<(i64, usize), DecodeError>)
    ensures
        ({
            let sp = spec_parse_i64(s@, i as int);
            match r {
                Ok((t, j)) => sp == Ok::<(i64, int), DecodeErrorV>((t, j as int)),
                Err(e) => sp == Err::<(i64, int), DecodeErrorV>(e@),
            }
        }),
{
    match read_head(s, i) {
        Err(e) => Err(e),
        Ok((major, v, j)) => {
            if major == 0 {
                if v <= 0x7fff_ffff_ffff_ffff {
                    Ok((v as i64, j))
                } else {
                    Err(DecodeError::root(ErrorKind::Shape))
                }
            } else if major == 1 {
                if v <= 0x7fff_ffff_ffff_ffff {
                    Ok((-1 - (v as i64), j))
                } else {
                    Err(DecodeError::root(ErrorKind::Shape))
                }
            } else {
                Err(DecodeError::root(ErrorKind::Shape))
            }
        },
    }
}

/// Reads a boolean at position `i` of `s`, as [`spec_parse_bool`] describes.
pub fn read_bool(s: &[u8], i: usize) -> (r: Result<(bool, usize), DecodeError>)
    ensures
        ({
            let sp = spec_parse_bool(s@, i as int);
            match r {
                Ok((b, j)) => sp == Ok::<(bool, int), DecodeErrorV>((b, j as int)),
                Err(e) => sp == Err::<(bool, int), DecodeErrorV>(e@),
            }
        }),
{
    if i >= s.len() {
        Err(DecodeError::root(ErrorKind::Shape))
    } else {
        let b0 = s[i];
        if b0 == SIMPLE_FALSE {
            Ok((false, i + 1))
        } else if b0 == SIMPLE_TRUE {
            Ok((true, i + 1))
        } else {
            Err(DecodeError::root(ErrorKind::Shape))
        }
    }
}

} // verus!
