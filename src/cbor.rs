//! The CBOR subset that the wire format is made of: unsigned integers,
//! byte strings, arrays, booleans and null, always in their shortest form.
use vstd::prelude::*;

verus! {

/// Major type of an unsigned integer.
pub const MAJOR_UINT: u8 = 0;

/// Major type of a byte string.
pub const MAJOR_BYTES: u8 = 2;

/// Major type of an array.
pub const MAJOR_ARRAY: u8 = 4;

/// The simple value `false`.
pub const CBOR_FALSE: u8 = 0xf4;

/// The simple value `true`.
pub const CBOR_TRUE: u8 = 0xf5;

/// The simple value `null`.
pub const CBOR_NULL: u8 = 0xf6;

/// The header of a data item of the given major type whose argument is `v`,
/// in the shortest form that holds `v`.
pub open spec fn head(major: u8, v: u64) -> Seq<u8> {
    let m = (major * 32) as u8;
    if v < 24 {
        seq![(m + v) as u8]
    } else if v < 0x100 {
        seq![(m + 24) as u8, v as u8]
    } else if v < 0x1_0000 {
        seq![(m + 25) as u8, ((v >> 8u64) & 0xff) as u8, (v & 0xff) as u8]
    } else if v < 0x1_0000_0000 {
        seq![
            (m + 26) as u8,
            ((v >> 24u64) & 0xff) as u8,
            ((v >> 16u64) & 0xff) as u8,
            ((v >> 8u64) & 0xff) as u8,
            (v & 0xff) as u8,
        ]
    } else {
        seq![
            (m + 27) as u8,
            ((v >> 56u64) & 0xff) as u8,
            ((v >> 48u64) & 0xff) as u8,
            ((v >> 40u64) & 0xff) as u8,
            ((v >> 32u64) & 0xff) as u8,
            ((v >> 24u64) & 0xff) as u8,
            ((v >> 16u64) & 0xff) as u8,
            ((v >> 8u64) & 0xff) as u8,
            (v & 0xff) as u8,
        ]
    }
}

/// Big-endian value of two bytes.
pub open spec fn be2(a: u8, b: u8) -> u64 {
    ((a as u64) << 8u64) | (b as u64)
}

/// Big-endian value of four bytes.
pub open spec fn be4(s: Seq<u8>) -> u64 {
    ((s[0] as u64) << 24u64) | ((s[1] as u64) << 16u64) | ((s[2] as u64) << 8u64) | (
    s[3] as u64)
}

/// Big-endian value of eight bytes.
pub open spec fn be8(s: Seq<u8>) -> u64 {
    ((s[0] as u64) << 56u64) | ((s[1] as u64) << 48u64) | ((s[2] as u64) << 40u64) | ((
    s[3] as u64) << 32u64) | ((s[4] as u64) << 24u64) | ((s[5] as u64) << 16u64) | ((
    s[6] as u64) << 8u64) | (s[7] as u64)
}

/// Reads a header of the given major type at the start of `s`: its argument and
/// the number of bytes it takes. Only the shortest form of an argument is read.
pub open spec fn parse_head(s: Seq<u8>, major: u8) -> Option<(u64, int)> {
    if s.len() == 0 || s[0] / 32 != major {
        None
    } else {
        let ai = s[0] % 32;
        if ai < 24 {
            Some((ai as u64, 1))
        } else if ai == 24 {
            if s.len() < 2 || s[1] < 24 {
                None
            } else {
                Some((s[1] as u64, 2))
            }
        } else if ai == 25 {
            if s.len() < 3 || be2(s[1], s[2]) < 0x100 {
                None
            } else {
                Some((be2(s[1], s[2]), 3))
            }
        } else if ai == 26 {
            if s.len() < 5 || be4(s.subrange(1, 5)) < 0x1_0000 {
                None
            } else {
                Some((be4(s.subrange(1, 5)), 5))
            }
        } else if ai == 27 {
            if s.len() < 9 || be8(s.subrange(1, 9)) < 0x1_0000_0000 {
                None
            } else {
                Some((be8(s.subrange(1, 9)), 9))
            }
        } else {
            None
        }
    }
}

proof fn lemma_byte(x: u64)
    ensures
        x & 0xff < 256,
{
    assert(x & 0xff < 256) by (bit_vector);
}

proof fn lemma_be2(v: u64)
    requires
        v < 0x1_0000,
    ensures
        be2(((v >> 8u64) & 0xff) as u8, (v & 0xff) as u8) == v,
{
    let a: u64 = (v >> 8u64) & 0xff;
    let b: u64 = v & 0xff;
    lemma_byte(v >> 8u64);
    lemma_byte(v);
    assert((a << 8u64) | b == v) by (bit_vector)
        requires
            a == (v >> 8u64) & 0xff,
            b == v & 0xff,
            v < 0x1_0000,
    ;
}

proof fn lemma_be2_split(a: u8, b: u8)
    ensures
        ((be2(a, b) >> 8u64) & 0xff) as u8 == a,
        (be2(a, b) & 0xff) as u8 == b,
        be2(a, b) < 0x1_0000,
{
    let x = a as u64;
    let y = b as u64;
    assert(((((x << 8u64) | y) >> 8u64) & 0xff) == x && (((x << 8u64) | y) & 0xff) == y && ((
    x << 8u64) | y) < 0x1_0000) by (bit_vector)
        requires
            x < 256,
            y < 256,
    ;
}

proof fn lemma_be4(v: u64, s: Seq<u8>)
    requires
        v < 0x1_0000_0000,
        s =~= seq![
            ((v >> 24u64) & 0xff) as u8,
            ((v >> 16u64) & 0xff) as u8,
            ((v >> 8u64) & 0xff) as u8,
            (v & 0xff) as u8,
        ],
    ensures
        be4(s) == v,
{
    let a: u64 = (v >> 24u64) & 0xff;
    let b: u64 = (v >> 16u64) & 0xff;
    let c: u64 = (v >> 8u64) & 0xff;
    let d: u64 = v & 0xff;
    lemma_byte(v >> 24u64);
    lemma_byte(v >> 16u64);
    lemma_byte(v >> 8u64);
    lemma_byte(v);
    assert((a << 24u64) | (b << 16u64) | (c << 8u64) | d == v) by (bit_vector)
        requires
            a == (v >> 24u64) & 0xff,
            b == (v >> 16u64) & 0xff,
            c == (v >> 8u64) & 0xff,
            d == v & 0xff,
            v < 0x1_0000_0000,
    ;
}

proof fn lemma_be4_split(s: Seq<u8>)
    requires
        s.len() == 4,
    ensures
        s =~= seq![
            ((be4(s) >> 24u64) & 0xff) as u8,
            ((be4(s) >> 16u64) & 0xff) as u8,
            ((be4(s) >> 8u64) & 0xff) as u8,
            (be4(s) & 0xff) as u8,
        ],
        be4(s) < 0x1_0000_0000,
{
    let a = s[0] as u64;
    let b = s[1] as u64;
    let c = s[2] as u64;
    let d = s[3] as u64;
    let v = be4(s);
    assert(v == (a << 24u64) | (b << 16u64) | (c << 8u64) | d);
    assert(((v >> 24u64) & 0xff) == a && ((v >> 16u64) & 0xff) == b && ((v >> 8u64) & 0xff)
        == c && (v & 0xff) == d && v < 0x1_0000_0000) by (bit_vector)
        requires
            a < 256,
            b < 256,
            c < 256,
            d < 256,
            v == (a << 24u64) | (b << 16u64) | (c << 8u64) | d,
    ;
}

proof fn lemma_be8(v: u64, s: Seq<u8>)
    requires
        s =~= seq![
            ((v >> 56u64) & 0xff) as u8,
            ((v >> 48u64) & 0xff) as u8,
            ((v >> 40u64) & 0xff) as u8,
            ((v >> 32u64) & 0xff) as u8,
            ((v >> 24u64) & 0xff) as u8,
            ((v >> 16u64) & 0xff) as u8,
            ((v >> 8u64) & 0xff) as u8,
            (v & 0xff) as u8,
        ],
    ensures
        be8(s) == v,
{
    let a0: u64 = (v >> 56u64) & 0xff;
    let a1: u64 = (v >> 48u64) & 0xff;
    let a2: u64 = (v >> 40u64) & 0xff;
    let a3: u64 = (v >> 32u64) & 0xff;
    let a4: u64 = (v >> 24u64) & 0xff;
    let a5: u64 = (v >> 16u64) & 0xff;
    let a6: u64 = (v >> 8u64) & 0xff;
    let a7: u64 = v & 0xff;
    lemma_byte(v >> 56u64);
    lemma_byte(v >> 48u64);
    lemma_byte(v >> 40u64);
    lemma_byte(v >> 32u64);
    lemma_byte(v >> 24u64);
    lemma_byte(v >> 16u64);
    lemma_byte(v >> 8u64);
    lemma_byte(v);
    assert((a0 << 56u64) | (a1 << 48u64) | (a2 << 40u64) | (a3 << 32u64) | (a4 << 24u64) | (a5
        << 16u64) | (a6 << 8u64) | a7 == v) by (bit_vector)
        requires
            a0 == (v >> 56u64) & 0xff,
            a1 == (v >> 48u64) & 0xff,
            a2 == (v >> 40u64) & 0xff,
            a3 == (v >> 32u64) & 0xff,
            a4 == (v >> 24u64) & 0xff,
            a5 == (v >> 16u64) & 0xff,
            a6 == (v >> 8u64) & 0xff,
            a7 == v & 0xff,
    ;
}

proof fn lemma_be8_split(s: Seq<u8>)
    requires
        s.len() == 8,
    ensures
        s =~= seq![
            ((be8(s) >> 56u64) & 0xff) as u8,
            ((be8(s) >> 48u64) & 0xff) as u8,
            ((be8(s) >> 40u64) & 0xff) as u8,
            ((be8(s) >> 32u64) & 0xff) as u8,
            ((be8(s) >> 24u64) & 0xff) as u8,
            ((be8(s) >> 16u64) & 0xff) as u8,
            ((be8(s) >> 8u64) & 0xff) as u8,
            (be8(s) & 0xff) as u8,
        ],
{
    let a0 = s[0] as u64;
    let a1 = s[1] as u64;
    let a2 = s[2] as u64;
    let a3 = s[3] as u64;
    let a4 = s[4] as u64;
    let a5 = s[5] as u64;
    let a6 = s[6] as u64;
    let a7 = s[7] as u64;
    let v = be8(s);
    assert(v == (a0 << 56u64) | (a1 << 48u64) | (a2 << 40u64) | (a3 << 32u64) | (a4 << 24u64)
        | (a5 << 16u64) | (a6 << 8u64) | a7);
    assert(((v >> 56u64) & 0xff) == a0 && ((v >> 48u64) & 0xff) == a1 && ((v >> 40u64) & 0xff)
        == a2 && ((v >> 32u64) & 0xff) == a3 && ((v >> 24u64) & 0xff) == a4 && ((v >> 16u64)
        & 0xff) == a5 && ((v >> 8u64) & 0xff) == a6 && (v & 0xff) == a7) by (bit_vector)
        requires
            a0 < 256,
            a1 < 256,
            a2 < 256,
            a3 < 256,
            a4 < 256,
            a5 < 256,
            a6 < 256,
            a7 < 256,
            v == (a0 << 56u64) | (a1 << 48u64) | (a2 << 40u64) | (a3 << 32u64) | (a4 << 24u64)
                | (a5 << 16u64) | (a6 << 8u64) | a7,
    ;
}

/// A header is read back as written, whatever follows it.
pub proof fn lemma_head_round_trip(major: u8, v: u64, rest: Seq<u8>)
    requires
        major < 8,
    ensures
        parse_head(head(major, v) + rest, major) == Some((v, head(major, v).len() as int)),
        1 <= head(major, v).len() <= 9,
{
    let s = head(major, v) + rest;
    let h = head(major, v);
    if v < 24 {
        assert(s[0] == h[0]);
    } else if v < 0x100 {
        assert(s[0] == h[0] && s[1] == h[1]);
    } else if v < 0x1_0000 {
        assert(s[0] == h[0] && s[1] == h[1] && s[2] == h[2]);
        lemma_be2(v);
    } else if v < 0x1_0000_0000 {
        assert(s.subrange(1, 5) =~= h.subrange(1, 5));
        lemma_be4(v, h.subrange(1, 5));
    } else {
        assert(s.subrange(1, 9) =~= h.subrange(1, 9));
        lemma_be8(v, h.subrange(1, 9));
    }
}

/// What a header is read from is that header.
pub proof fn lemma_head_sound(s: Seq<u8>, major: u8)
    requires
        major < 8,
        parse_head(s, major) is Some,
    ensures
        ({
            let (v, n) = parse_head(s, major).unwrap();
            0 < n <= s.len() && s.subrange(0, n) == head(major, v)
        }),
{
    let (v, n) = parse_head(s, major).unwrap();
    let ai = s[0] % 32;
    assert(s[0] == major * 32 + ai);
    if ai < 24 {
        assert(s.subrange(0, n) =~= head(major, v));
    } else if ai == 24 {
        assert(s.subrange(0, n) =~= head(major, v));
    } else if ai == 25 {
        lemma_be2_split(s[1], s[2]);
        assert(s.subrange(0, n) =~= head(major, v));
    } else if ai == 26 {
        lemma_be4_split(s.subrange(1, 5));
        assert(s.subrange(0, n) =~= head(major, v));
    } else {
        lemma_be8_split(s.subrange(1, 9));
        assert(s.subrange(0, n) =~= head(major, v));
    }
}

/// Appends the header of the given major type and argument.
pub fn write_head(out: &mut Vec<u8>, major: u8, v: u64)
    requires
        major < 8,
    ensures
        final(out)@ == old(out)@ + head(major, v),
{
    let m: u8 = major * 32;
    if v < 24 {
        out.push(m + v as u8);
    } else if v < 0x100 {
        out.push(m + 24);
        out.push(v as u8);
    } else if v < 0x1_0000 {
        out.push(m + 25);
        out.push(((v >> 8) & 0xff) as u8);
        out.push((v & 0xff) as u8);
    } else if v < 0x1_0000_0000 {
        out.push(m + 26);
        out.push(((v >> 24) & 0xff) as u8);
        out.push(((v >> 16) & 0xff) as u8);
        out.push(((v >> 8) & 0xff) as u8);
        out.push((v & 0xff) as u8);
    } else {
        out.push(m + 27);
        out.push(((v >> 56) & 0xff) as u8);
        out.push(((v >> 48) & 0xff) as u8);
        out.push(((v >> 40) & 0xff) as u8);
        out.push(((v >> 32) & 0xff) as u8);
        out.push(((v >> 24) & 0xff) as u8);
        out.push(((v >> 16) & 0xff) as u8);
        out.push(((v >> 8) & 0xff) as u8);
        out.push((v & 0xff) as u8);
    }
    assert(final(out)@ =~= old(out)@ + head(major, v));
}

/// Reads a header of the given major type at `pos`: its argument and the
/// position after it.
pub fn read_head(b: &[u8], pos: usize, major: u8) -> (r: Option<(u64, usize)>)
    requires
        pos <= b@.len(),
        major < 8,
    ensures
        match parse_head(b@.subrange(pos as int, b@.len() as int), major) {
            None => r is None,
            Some((v, n)) => r matches Some((w, e)) && w == v && e == pos + n,
        },
        r matches Some((w, e)) ==> pos < e <= b@.len(),
{
    let ghost s = b@.subrange(pos as int, b@.len() as int);
    if pos >= b.len() {
        return None;
    }
    let b0 = b[pos];
    assert(s[0] == b0);
    if b0 / 32 != major {
        return None;
    }
    let ai = b0 % 32;
    let len = b.len();
    if ai < 24 {
        Some((ai as u64, pos + 1))
    } else if ai == 24 {
        if len - pos < 2 {
            return None;
        }
        assert(s[1] == b[pos + 1]);
        if b[pos + 1] < 24 {
            None
        } else {
            Some((b[pos + 1] as u64, pos + 2))
        }
    } else if ai == 25 {
        if len - pos < 3 {
            return None;
        }
        assert(s[1] == b[pos + 1] && s[2] == b[pos + 2]);
        let v = ((b[pos + 1] as u64) << 8) | (b[pos + 2] as u64);
        if v < 0x100 {
            None
        } else {
            Some((v, pos + 3))
        }
    } else if ai == 26 {
        if len - pos < 5 {
            return None;
        }
        assert(s.subrange(1, 5) =~= b@.subrange(pos + 1, pos + 5));
        let v = ((b[pos + 1] as u64) << 24) | ((b[pos + 2] as u64) << 16) | ((b[pos + 3] as u64)
            << 8) | (b[pos + 4] as u64);
        if v < 0x1_0000 {
            None
        } else {
            Some((v, pos + 5))
        }
    } else if ai == 27 {
        if len - pos < 9 {
            return None;
        }
        assert(s.subrange(1, 9) =~= b@.subrange(pos + 1, pos + 9));
        let v = ((b[pos + 1] as u64) << 56) | ((b[pos + 2] as u64) << 48) | ((b[pos + 3] as u64)
            << 40) | ((b[pos + 4] as u64) << 32) | ((b[pos + 5] as u64) << 24) | ((b[pos + 6]
            as u64) << 16) | ((b[pos + 7] as u64) << 8) | (b[pos + 8] as u64);
        if v < 0x1_0000_0000 {
            None
        } else {
            Some((v, pos + 9))
        }
    } else {
        None
    }
}

} // verus!
