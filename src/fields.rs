//! Arrays of fields: what a struct or an enum variant is on the wire. Each
//! field has a kind, fixed by the message it belongs to.
use vstd::prelude::*;
use crate::cbor::{
    head,
    parse_head,
    lemma_head_round_trip,
    lemma_head_sound,
    write_head,
    read_head,
    MAJOR_UINT,
    MAJOR_BYTES,
    CBOR_FALSE,
    CBOR_TRUE,
    CBOR_NULL,
};

verus! {

/// The value of one field, as the wire format sees it.
pub enum FieldV {
    Uint(u64),
    Bool(bool),
    Null,
    Bytes(Seq<u8>),
}

/// One field of a message on its way to or from the wire.
pub enum Field {
    Uint(u64),
    Bool(bool),
    Null,
    Bytes(Vec<u8>),
}

impl View for Field {
    type V = FieldV;

    open spec fn view(&self) -> FieldV {
        match self {
            Field::Uint(v) => FieldV::Uint(*v),
            Field::Bool(b) => FieldV::Bool(*b),
            Field::Null => FieldV::Null,
            Field::Bytes(s) => FieldV::Bytes(s@),
        }
    }
}

/// What a field may hold: `Gap` is an unused index, read and written as null.
#[derive(Debug, Clone, Copy, PartialEq, Eq, Structural)]
pub enum Kind {
    Uint,
    Bool,
    OptUint,
    Bytes,
    Gap,
}

/// The wire values of a list of fields.
pub open spec fn views(fs: Seq<Field>) -> Seq<FieldV> {
    fs.map_values(|f: Field| f@)
}

/// Whether a value may stand in a field of kind `k`.
pub open spec fn fits_kind(f: FieldV, k: Kind) -> bool {
    match k {
        Kind::Uint => f is Uint,
        Kind::Bool => f is Bool,
        Kind::OptUint => f is Uint || f is Null,
        Kind::Gap => f is Null,
        Kind::Bytes => f matches FieldV::Bytes(s) && s.len() <= u64::MAX,
    }
}

/// Whether each value may stand in the field of the same index.
pub open spec fn fits_all(fs: Seq<FieldV>, ks: Seq<Kind>) -> bool {
    fs.len() == ks.len() && forall|i: int| 0 <= i < fs.len() ==> fits_kind(#[trigger] fs[i], ks[i])
}

/// The bytes of one field.
pub open spec fn enc_field(f: FieldV) -> Seq<u8> {
    match f {
        FieldV::Uint(v) => head(MAJOR_UINT, v),
        FieldV::Bool(b) => seq![if b { CBOR_TRUE } else { CBOR_FALSE }],
        FieldV::Null => seq![CBOR_NULL],
        FieldV::Bytes(s) => head(MAJOR_BYTES, s.len() as u64) + s,
    }
}

/// The bytes of a list of fields, one after another.
pub open spec fn enc_fields(fs: Seq<FieldV>) -> Seq<u8>
    decreases fs.len(),
{
    if fs.len() == 0 {
        seq![]
    } else {
        enc_field(fs[0]) + enc_fields(fs.drop_first())
    }
}

/// Reads an unsigned integer field at the start of `s`.
pub open spec fn parse_uint(s: Seq<u8>) -> Option<(FieldV, int)> {
    match parse_head(s, MAJOR_UINT) {
        Some((v, n)) => Some((FieldV::Uint(v), n)),
        None => None,
    }
}

/// Reads one field of kind `k` at the start of `s`, with the bytes it takes.
pub open spec fn parse_field(s: Seq<u8>, k: Kind) -> Option<(FieldV, int)> {
    match k {
        Kind::Uint => parse_uint(s),
        Kind::Bool => if s.len() >= 1 && s[0] == CBOR_TRUE {
            Some((FieldV::Bool(true), 1))
        } else if s.len() >= 1 && s[0] == CBOR_FALSE {
            Some((FieldV::Bool(false), 1))
        } else {
            None
        },
        Kind::Gap => if s.len() >= 1 && s[0] == CBOR_NULL {
            Some((FieldV::Null, 1))
        } else {
            None
        },
        Kind::OptUint => if s.len() >= 1 && s[0] == CBOR_NULL {
            Some((FieldV::Null, 1))
        } else {
            parse_uint(s)
        },
        Kind::Bytes => match parse_head(s, MAJOR_BYTES) {
            Some((n, h)) => if h + n <= s.len() {
                Some((FieldV::Bytes(s.subrange(h, h + n)), h + n))
            } else {
                None
            },
            None => None,
        },
    }
}

/// Reads fields of the kinds `ks`, one after another, at the start of `s`.
pub open spec fn parse_fields(s: Seq<u8>, ks: Seq<Kind>) -> Option<(Seq<FieldV>, int)>
    decreases ks.len(),
{
    if ks.len() == 0 {
        Some((seq![], 0))
    } else {
        match parse_field(s, ks[0]) {
            None => None,
            Some((f, n)) => if 0 < n <= s.len() {
                match parse_fields(s.subrange(n, s.len() as int), ks.drop_first()) {
                    None => None,
                    Some((fs, m)) => Some((seq![f] + fs, n + m)),
                }
            } else {
                None
            },
        }
    }
}

/// A field is read back as written, whatever follows it.
pub proof fn lemma_field_round_trip(f: FieldV, k: Kind, rest: Seq<u8>)
    requires
        fits_kind(f, k),
    ensures
        parse_field(enc_field(f) + rest, k) == Some((f, enc_field(f).len() as int)),
        enc_field(f).len() > 0,
{
    let s = enc_field(f) + rest;
    match f {
        FieldV::Uint(v) => {
            lemma_head_round_trip(MAJOR_UINT, v, rest);
            assert(s[0] == head(MAJOR_UINT, v)[0]);
        },
        FieldV::Bool(b) => {
            assert(s[0] == enc_field(f)[0]);
        },
        FieldV::Null => {
            assert(s[0] == enc_field(f)[0]);
        },
        FieldV::Bytes(b) => {
            let h = head(MAJOR_BYTES, b.len() as u64);
            assert(s =~= h + (b + rest));
            lemma_head_round_trip(MAJOR_BYTES, b.len() as u64, b + rest);
            assert(s.subrange(h.len() as int, (h.len() + b.len()) as int) =~= b);
        },
    }
}

/// What a field is read from is that field's bytes.
pub proof fn lemma_field_sound(s: Seq<u8>, k: Kind)
    requires
        parse_field(s, k) is Some,
    ensures
        ({
            let (f, n) = parse_field(s, k).unwrap();
            0 < n <= s.len() && s.subrange(0, n) == enc_field(f) && fits_kind(f, k)
        }),
{
    let (f, n) = parse_field(s, k).unwrap();
    match k {
        Kind::Bytes => {
            lemma_head_sound(s, MAJOR_BYTES);
            let (len, h) = parse_head(s, MAJOR_BYTES).unwrap();
            assert(s.subrange(0, n) =~= s.subrange(0, h) + s.subrange(h, h + len));
        },
        Kind::Bool | Kind::Gap => {
            assert(s.subrange(0, n) =~= enc_field(f));
        },
        _ => {
            if s.len() >= 1 && s[0] == CBOR_NULL && k == Kind::OptUint {
                assert(s.subrange(0, n) =~= enc_field(f));
            } else {
                lemma_head_sound(s, MAJOR_UINT);
            }
        },
    }
}

/// A list of fields is read back as written, whatever follows it.
pub proof fn lemma_fields_round_trip(fs: Seq<FieldV>, ks: Seq<Kind>, rest: Seq<u8>)
    requires
        fits_all(fs, ks),
    ensures
        parse_fields(enc_fields(fs) + rest, ks) == Some((fs, enc_fields(fs).len() as int)),
    decreases fs.len(),
{
    if fs.len() == 0 {
        assert(enc_fields(fs) + rest =~= rest);
    } else {
        let s = enc_fields(fs) + rest;
        let tail = fs.drop_first();
        let e0 = enc_field(fs[0]);
        assert(s =~= e0 + (enc_fields(tail) + rest));
        assert(fits_kind(fs[0], ks[0]));
        lemma_field_round_trip(fs[0], ks[0], enc_fields(tail) + rest);
        assert(s.subrange(e0.len() as int, s.len() as int) =~= enc_fields(tail) + rest);
        assert(fits_all(tail, ks.drop_first())) by {
            assert forall|i: int| 0 <= i < tail.len() implies fits_kind(
                #[trigger] tail[i],
                ks.drop_first()[i],
            ) by {
                assert(fits_kind(fs[i + 1], ks[i + 1]));
            }
        }
        lemma_fields_round_trip(tail, ks.drop_first(), rest);
        assert(seq![fs[0]] + tail =~= fs);
    }
}

/// What a list of fields is read from is those fields' bytes.
pub proof fn lemma_fields_sound(s: Seq<u8>, ks: Seq<Kind>)
    requires
        parse_fields(s, ks) is Some,
    ensures
        ({
            let (fs, n) = parse_fields(s, ks).unwrap();
            0 <= n <= s.len() && s.subrange(0, n) == enc_fields(fs) && fits_all(fs, ks)
        }),
    decreases ks.len(),
{
    let (fs, n) = parse_fields(s, ks).unwrap();
    if ks.len() == 0 {
        assert(s.subrange(0, n) =~= enc_fields(fs));
    } else {
        let (f, n0) = parse_field(s, ks[0]).unwrap();
        lemma_field_sound(s, ks[0]);
        let s1 = s.subrange(n0, s.len() as int);
        lemma_fields_sound(s1, ks.drop_first());
        let (tail, m) = parse_fields(s1, ks.drop_first()).unwrap();
        assert(fs =~= seq![f] + tail);
        assert(fs[0] == f);
        assert(fs.drop_first() =~= tail);
        assert(s.subrange(0, n) =~= s.subrange(0, n0) + s1.subrange(0, m));
        assert forall|i: int| 0 <= i < fs.len() implies fits_kind(#[trigger] fs[i], ks[i]) by {
            if i > 0 {
                assert(fs[i] == tail[i - 1]);
                assert(ks[i] == ks.drop_first()[i - 1]);
            }
        }
    }
}

/// Appends the bytes of one field.
pub fn write_field(out: &mut Vec<u8>, f: &Field)
    ensures
        final(out)@ == old(out)@ + enc_field(f@),
{
    match f {
        Field::Uint(v) => write_head(out, MAJOR_UINT, *v),
        Field::Bool(b) => {
            out.push(if *b { CBOR_TRUE } else { CBOR_FALSE });
            assert(final(out)@ =~= old(out)@ + enc_field(f@));
        },
        Field::Null => {
            out.push(CBOR_NULL);
            assert(final(out)@ =~= old(out)@ + enc_field(f@));
        },
        Field::Bytes(s) => {
            write_head(out, MAJOR_BYTES, s.len() as u64);
            let ghost mid = out@;
            let mut i: usize = 0;
            while i < s.len()
                invariant
                    i <= s@.len(),
                    out@ == mid + s@.subrange(0, i as int),
                decreases s@.len() - i,
            {
                out.push(s[i]);
                i = i + 1;
                assert(out@ =~= mid + s@.subrange(0, i as int));
            }
            assert(s@.subrange(0, s@.len() as int) =~= s@);
            assert(final(out)@ =~= old(out)@ + enc_field(f@));
        },
    }
}

/// Appends the fields `fs[i..]`.
pub fn write_fields(out: &mut Vec<u8>, fs: &Vec<Field>, i: usize)
    requires
        i <= fs@.len(),
    ensures
        final(out)@ == old(out)@ + enc_fields(views(fs@).skip(i as int)),
    decreases fs@.len() - i,
{
    let ghost vs = views(fs@).skip(i as int);
    if i == fs.len() {
        assert(vs =~= seq![]);
        assert(final(out)@ =~= old(out)@ + enc_fields(vs));
    } else {
        write_field(out, &fs[i]);
        write_fields(out, fs, i + 1);
        assert(vs.drop_first() =~= views(fs@).skip(i + 1));
        assert(vs[0] == fs@[i as int]@);
        assert(final(out)@ =~= old(out)@ + enc_fields(vs));
    }
}

/// Reads a field of kind `k` at `pos`: the field and the position after it.
pub fn read_field(b: &[u8], pos: usize, k: Kind) -> (r: Option<(Field, usize)>)
    requires
        pos <= b@.len(),
    ensures
        match parse_field(b@.subrange(pos as int, b@.len() as int), k) {
            None => r is None,
            Some((f, n)) => r matches Some((g, e)) && g@ == f && e == pos + n,
        },
{
    let ghost s = b@.subrange(pos as int, b@.len() as int);
    let first: Option<u8> = if pos < b.len() {
        Some(b[pos])
    } else {
        None
    };
    assert(first matches Some(x) ==> s.len() >= 1 && s[0] == x);
    assert(first is None ==> s.len() == 0);
    match k {
        Kind::Uint => match read_head(b, pos, MAJOR_UINT) {
            Some((v, e)) => Some((Field::Uint(v), e)),
            None => None,
        },
        Kind::Bool => {
            if first == Some(CBOR_TRUE) {
                Some((Field::Bool(true), pos + 1))
            } else if first == Some(CBOR_FALSE) {
                Some((Field::Bool(false), pos + 1))
            } else {
                None
            }
        },
        Kind::Gap => {
            if first == Some(CBOR_NULL) {
                Some((Field::Null, pos + 1))
            } else {
                None
            }
        },
        Kind::OptUint => {
            if first == Some(CBOR_NULL) {
                Some((Field::Null, pos + 1))
            } else {
                match read_head(b, pos, MAJOR_UINT) {
                    Some((v, e)) => Some((Field::Uint(v), e)),
                    None => None,
                }
            }
        },
        Kind::Bytes => match read_head(b, pos, MAJOR_BYTES) {
            Some((n, h)) => {
                if n > (b.len() - h) as u64 {
                    None
                } else {
                    let end = h + n as usize;
                    let mut v: Vec<u8> = Vec::new();
                    let mut i: usize = h;
                    while i < end
                        invariant
                            h <= i <= end <= b@.len(),
                            v@ == b@.subrange(h as int, i as int),
                        decreases end - i,
                    {
                        v.push(b[i]);
                        i = i + 1;
                        assert(v@ =~= b@.subrange(h as int, i as int));
                    }
                    assert(v@ =~= s.subrange(h - pos, h - pos + n));
                    Some((Field::Bytes(v), end))
                }
            },
            None => None,
        },
    }
}

/// Reads fields of the kinds `ks[i..]` at `pos`.
pub fn read_fields(b: &[u8], pos: usize, ks: &Vec<Kind>, i: usize) -> (r: Option<(Vec<Field>, usize)>)
    requires
        pos <= b@.len(),
        i <= ks@.len(),
    ensures
        match parse_fields(b@.subrange(pos as int, b@.len() as int), ks@.skip(i as int)) {
            None => r is None,
            Some((fs, n)) => r matches Some((g, e)) && views(g@) == fs && e == pos + n,
        },
    decreases ks@.len() - i,
{
    let ghost s = b@.subrange(pos as int, b@.len() as int);
    let ghost kss = ks@.skip(i as int);
    if i == ks.len() {
        assert(kss.len() == 0);
        let v: Vec<Field> = Vec::new();
        assert(views(v@) =~= seq![]);
        return Some((v, pos));
    }
    assert(kss[0] == ks@[i as int]);
    match read_field(b, pos, ks[i]) {
        None => None,
        Some((f, end1)) => {
            if end1 <= pos {
                return None;
            }
            assert(kss.drop_first() =~= ks@.skip(i + 1));
            assert(s.subrange(end1 - pos, s.len() as int) =~= b@.subrange(
                end1 as int,
                b@.len() as int,
            ));
            match read_fields(b, end1, ks, i + 1) {
                None => None,
                Some((rest, end2)) => {
                    let ghost fv = f@;
                    let ghost rv = views(rest@);
                    let mut out = rest;
                    out.insert(0, f);
                    assert(views(out@) =~= seq![fv] + rv);
                    Some((out, end2))
                },
            }
        },
    }
}

/// The bytes that `pending` well-formed data items take at the start of `s`,
/// nested arrays, maps and tags included. Each header must be in its
/// shortest form and every length definite.
pub open spec fn skip_items(s: Seq<u8>, pending: nat) -> Option<int>
    decreases s.len(),
{
    if pending == 0 {
        Some(0)
    } else if pending > s.len() {
        None
    } else {
        let major = s[0] / 32;
        match parse_head(s, major) {
            None => None,
            Some((v, h)) => {
                let body: int = if major == 2 || major == 3 {
                    v as int
                } else {
                    0
                };
                let more: int = if major == 4 {
                    v as int
                } else if major == 5 {
                    2 * v
                } else if major == 6 {
                    1
                } else {
                    0
                };
                if h <= 0 || h + body > s.len() {
                    None
                } else {
                    match skip_items(
                        s.subrange(h + body, s.len() as int),
                        (pending - 1 + more) as nat,
                    ) {
                        Some(m) => Some(h + body + m),
                        None => None,
                    }
                }
            },
        }
    }
}

/// Whether every kind of `ks` may be left out: read as null when absent.
pub open spec fn all_optional(ks: Seq<Kind>) -> bool {
    forall|i: int| 0 <= i < ks.len() ==> (#[trigger] ks[i]) is OptUint || ks[i] is Gap
}

/// Reads an array body of `cnt` items whose fields have the kinds `ks`: items
/// past the known fields are skipped, and known optional fields past the end
/// read as null.
pub open spec fn parse_record(s: Seq<u8>, ks: Seq<Kind>, cnt: u64) -> Option<(Seq<FieldV>, int)> {
    if cnt >= ks.len() {
        match parse_fields(s, ks) {
            Some((fs, n)) => if 0 <= n <= s.len() {
                match skip_items(s.subrange(n, s.len() as int), (cnt - ks.len()) as nat) {
                    Some(m) => Some((fs, n + m)),
                    None => None,
                }
            } else {
                None
            },
            None => None,
        }
    } else if all_optional(ks.subrange(cnt as int, ks.len() as int)) {
        match parse_fields(s, ks.subrange(0, cnt as int)) {
            Some((fs, n)) => Some(
                (fs + Seq::new((ks.len() - cnt) as nat, |i: int| FieldV::Null), n),
            ),
            None => None,
        }
    } else {
        None
    }
}

/// A list of fields written as a whole array is read back as written.
pub proof fn lemma_record_round_trip(fs: Seq<FieldV>, ks: Seq<Kind>, rest: Seq<u8>)
    requires
        fits_all(fs, ks),
        ks.len() <= u64::MAX,
    ensures
        parse_record(enc_fields(fs) + rest, ks, ks.len() as u64) == Some(
            (fs, enc_fields(fs).len() as int),
        ),
{
    lemma_fields_round_trip(fs, ks, rest);
    let s = enc_fields(fs) + rest;
    assert(s.len() >= enc_fields(fs).len());
}

proof fn lemma_sub_sub(b: Seq<u8>, pos: int, n: int)
    requires
        0 <= pos <= b.len(),
        0 <= n <= b.len() - pos,
    ensures
        b.subrange(pos, b.len() as int).subrange(n, b.len() - pos) =~= b.subrange(
            pos + n,
            b.len() as int,
        ),
{
}

/// Skips `pending` data items at `pos`: the position after them.
#[verifier::rlimit(80)]
pub fn skip_items_at(b: &[u8], pos: usize, pending: u64) -> (r: Option<usize>)
    requires
        pos <= b@.len(),
    ensures
        match skip_items(b@.subrange(pos as int, b@.len() as int), pending as nat) {
            None => r is None,
            Some(m) => r matches Some(e) && e == pos + m,
        },
    decreases b@.len() - pos,
{
    let ghost s = b@.subrange(pos as int, b@.len() as int);
    if pending == 0 {
        return Some(pos);
    }
    if pending > (b.len() - pos) as u64 {
        return None;
    }
    let major = b[pos] / 32;
    assert(s[0] == b[pos as int]);
    let (v, h) = match read_head(b, pos, major) {
        Some(x) => x,
        None => return None,
    };
    let remaining = (b.len() - h) as u64;
    let body: u64 = if major == 2 || major == 3 {
        v
    } else {
        0
    };
    if body > remaining {
        return None;
    }
    let next = h + body as usize;
    let cap: u64 = (b.len() - next) as u64 + 1;
    let more: u64 = if major == 4 {
        if v > cap {
            cap
        } else {
            v
        }
    } else if major == 5 {
        if v > cap / 2 {
            cap
        } else {
            2 * v
        }
    } else if major == 6 {
        1
    } else {
        0
    };
    let next_pending: u64 = if more >= cap || pending - 1 >= cap - more {
        cap
    } else {
        pending - 1 + more
    };
    proof {
        lemma_sub_sub(b@, pos as int, next - pos);
        let s1 = b@.subrange(next as int, b@.len() as int);
        let full: int = pending - 1 + (if major == 4 {
            v as int
        } else if major == 5 {
            2 * v
        } else if major == 6 {
            1
        } else {
            0
        });
        if next_pending == cap {
            assert(full > s1.len());
            assert(skip_items(s1, full as nat) is None);
            assert(skip_items(s1, cap as nat) is None);
        }
    }
    skip_items_at(b, next, next_pending)
}

/// Reads an array body of `cnt` items with the field kinds `ks`; see
/// `parse_record`.
pub fn read_record(b: &[u8], pos: usize, ks: &Vec<Kind>, cnt: u64) -> (r: Option<(Vec<Field>, usize)>)
    requires
        pos <= b@.len(),
    ensures
        match parse_record(b@.subrange(pos as int, b@.len() as int), ks@, cnt) {
            None => r is None,
            Some((fs, n)) => r matches Some((g, e)) && views(g@) == fs && e == pos + n,
        },
{
    let ghost s = b@.subrange(pos as int, b@.len() as int);
    proof {
        assert(ks@.skip(0) =~= ks@);
    }
    if cnt >= ks.len() as u64 {
        let (fs, end1) = match read_fields(b, pos, ks, 0) {
            Some(x) => x,
            None => return None,
        };
        if end1 < pos || end1 > b.len() {
            return None;
        }
        proof {
            lemma_sub_sub(b@, pos as int, end1 - pos);
        }
        match skip_items_at(b, end1, cnt - ks.len() as u64) {
            Some(e) => Some((fs, e)),
            None => None,
        }
    } else {
        let k = cnt as usize;
        let mut i: usize = k;
        while i < ks.len()
            invariant
                k == cnt,
                cnt < ks@.len(),
                k <= i <= ks@.len(),
                forall|j: int| 0 <= j < i - k ==> #[trigger] ks@.subrange(k as int, ks@.len() as int)[j] is OptUint
                    || ks@.subrange(k as int, ks@.len() as int)[j] is Gap,
            decreases ks@.len() - i,
        {
            if ks[i] != Kind::OptUint && ks[i] != Kind::Gap {
                proof {
                    let tail = ks@.subrange(k as int, ks@.len() as int);
                    assert(tail[i - k] == ks@[i as int]);
                    assert(!all_optional(tail));
                }
                return None;
            }
            assert(ks@.subrange(k as int, ks@.len() as int)[i - k] == ks@[i as int]);
            i = i + 1;
        }
        let mut prefix: Vec<Kind> = Vec::new();
        let mut j: usize = 0;
        while j < k
            invariant
                j <= k < ks@.len(),
                prefix@ == ks@.subrange(0, j as int),
            decreases k - j,
        {
            prefix.push(ks[j]);
            j = j + 1;
            assert(prefix@ =~= ks@.subrange(0, j as int));
        }
        assert(prefix@.skip(0) =~= ks@.subrange(0, k as int));
        let (mut fs, end1) = match read_fields(b, pos, &prefix, 0) {
            Some(x) => x,
            None => return None,
        };
        let ghost head_views = views(fs@);
        let mut m: usize = k;
        while m < ks.len()
            invariant
                k <= m <= ks@.len(),
                views(fs@) == head_views + Seq::new((m - k) as nat, |i: int| FieldV::Null),
            decreases ks@.len() - m,
        {
            let ghost prev = fs@;
            fs.push(Field::Null);
            m = m + 1;
            assert(views(fs@) =~= views(prev).push(FieldV::Null));
            assert(views(fs@) =~= head_views + Seq::new((m - k) as nat, |i: int| FieldV::Null));
        }
        Some((fs, end1))
    }
}

/// What a record is read as fits its kinds.
pub proof fn lemma_record_fits(s: Seq<u8>, ks: Seq<Kind>, cnt: u64)
    requires
        parse_record(s, ks, cnt) is Some,
    ensures
        fits_all(parse_record(s, ks, cnt).unwrap().0, ks),
{
    if cnt >= ks.len() {
        lemma_fields_sound(s, ks);
    } else {
        let k = cnt as int;
        let pre = ks.subrange(0, k);
        lemma_fields_sound(s, pre);
        let (fs, n) = parse_record(s, ks, cnt).unwrap();
        let (head_fs, m) = parse_fields(s, pre).unwrap();
        assert forall|i: int| 0 <= i < fs.len() implies fits_kind(#[trigger] fs[i], ks[i]) by {
            if i < k {
                assert(fs[i] == head_fs[i]);
                assert(pre[i] == ks[i]);
            } else {
                assert(ks.subrange(k, ks.len() as int)[i - k] == ks[i]);
            }
        }
    }
}

} // verus!
