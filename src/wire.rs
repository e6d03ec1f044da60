//! The binary encoding of an array record: length-delimited fields, varint
//! integers, elements as packed little-endian 64-bit words.

use vstd::prelude::*;

use crate::array::{Float64, Float64View, Meta, MetaView};

verus! {

/// The base-128 varint encoding of `v`, least significant group first.
pub open spec fn varint(v: u64) -> Seq<u8>
    decreases v,
{
    if v < 128 {
        seq![v as u8]
    } else {
        seq![(v % 128 + 128) as u8] + varint(v / 128)
    }
}

/// The eight little-endian bytes of `x`.
pub open spec fn le64(x: u64) -> Seq<u8> {
    seq![
        (x & 0xff) as u8,
        ((x >> 8u64) & 0xff) as u8,
        ((x >> 16u64) & 0xff) as u8,
        ((x >> 24u64) & 0xff) as u8,
        ((x >> 32u64) & 0xff) as u8,
        ((x >> 40u64) & 0xff) as u8,
        ((x >> 48u64) & 0xff) as u8,
        ((x >> 56u64) & 0xff) as u8,
    ]
}

/// The elements, eight little-endian bytes each, in order.
pub open spec fn data_bytes(d: Seq<u64>) -> Seq<u8>
    decreases d.len(),
{
    if d.len() == 0 {
        Seq::empty()
    } else {
        data_bytes(d.drop_last()) + le64(d.last())
    }
}

/// A length-delimited field: key, length, body.
pub open spec fn delimited(key: u64, body: Seq<u8>) -> Seq<u8> {
    varint(key) + varint(body.len() as u64) + body
}

/// Key of the annotations field of the metadata record.
pub const RAW_KEY: u64 = 0x0a;

/// Key of the width field of the metadata record.
pub const WIDTH_KEY: u64 = 0x10;

/// Key of the height field of the metadata record.
pub const HEIGHT_KEY: u64 = 0x18;

/// Key of the metadata field of the array record.
pub const META_KEY: u64 = 0x0a;

/// Key of the packed elements field of the array record.
pub const DATA_KEY: u64 = 0x12;

/// The encoding of a metadata record.
pub open spec fn meta_bytes(m: MetaView) -> Seq<u8> {
    (match m.raw {
        Some(r) => delimited(RAW_KEY, r),
        None => Seq::empty(),
    }) + varint(WIDTH_KEY) + varint(m.width) + varint(HEIGHT_KEY) + varint(m.height)
}

/// The encoding of an array record.
pub open spec fn message_bytes(m: Float64View) -> Seq<u8> {
    (match m.meta {
        Some(mm) => delimited(META_KEY, meta_bytes(mm)),
        None => Seq::empty(),
    }) + delimited(DATA_KEY, data_bytes(m.data))
}

/// Whether the length of the packed elements fits in `usize`.
pub open spec fn encodable(m: Float64View) -> bool {
    m.data.len() * 8 <= usize::MAX
}

pub fn put_varint(out: &mut Vec<u8>, v: u64)
    ensures
        final(out)@ == old(out)@ + varint(v),
{
    let mut x: u64 = v;
    while x >= 128
        invariant
            out@ + varint(x) == old(out)@ + varint(v),
        decreases x,
    {
        let b: u8 = (x % 128 + 128) as u8;
        let ghost before = out@;
        out.push(b);
        proof {
            assert(varint(x) == seq![b] + varint(x / 128));
            assert(before + varint(x) =~= out@ + varint(x / 128));
        }
        x = x / 128;
    }
    let ghost before = out@;
    out.push(x as u8);
    proof {
        assert(before + varint(x) =~= out@);
    }
}

pub fn put_le64(out: &mut Vec<u8>, x: u64)
    ensures
        final(out)@ == old(out)@ + le64(x),
{
    out.push((x & 0xff) as u8);
    out.push(((x >> 8u64) & 0xff) as u8);
    out.push(((x >> 16u64) & 0xff) as u8);
    out.push(((x >> 24u64) & 0xff) as u8);
    out.push(((x >> 32u64) & 0xff) as u8);
    out.push(((x >> 40u64) & 0xff) as u8);
    out.push(((x >> 48u64) & 0xff) as u8);
    out.push(((x >> 56u64) & 0xff) as u8);
    assert(final(out)@ =~= old(out)@ + le64(x));
}

fn put_data(out: &mut Vec<u8>, d: &Vec<u64>)
    ensures
        final(out)@ == old(out)@ + data_bytes(d@),
{
    let mut j: usize = 0;
    while j < d.len()
        invariant
            j <= d@.len(),
            out@ == old(out)@ + data_bytes(d@.take(j as int)),
        decreases d@.len() - j,
    {
        let ghost before = out@;
        put_le64(out, d[j]);
        proof {
            let t = d@.take(j as int + 1);
            assert(t.drop_last() =~= d@.take(j as int));
            assert(out@ =~= old(out)@ + data_bytes(t));
        }
        j = j + 1;
    }
    assert(d@.take(j as int) =~= d@);
}

proof fn lemma_data_bytes_len(d: Seq<u64>)
    ensures
        data_bytes(d).len() == d.len() * 8,
    decreases d.len(),
{
    if d.len() > 0 {
        lemma_data_bytes_len(d.drop_last());
    }
}

fn meta_encoding(m: &Meta) -> (r: Vec<u8>)
    ensures
        r@ == meta_bytes(m@),
{
    let mut out: Vec<u8> = Vec::new();
    match &m.raw {
        Some(raw) => {
            put_varint(&mut out, RAW_KEY);
            put_varint(&mut out, raw.len() as u64);
            let mut body = raw.clone();
            out.append(&mut body);
        },
        None => {},
    }
    put_varint(&mut out, WIDTH_KEY);
    put_varint(&mut out, m.width);
    put_varint(&mut out, HEIGHT_KEY);
    put_varint(&mut out, m.height);
    assert(out@ =~= meta_bytes(m@));
    out
}

/// Appends the encoding of an array record to `out`.
pub fn f2buf64(m: &Float64, out: &mut Vec<u8>)
    requires
        encodable(m@),
    ensures
        final(out)@ == old(out)@ + message_bytes(m@),
{
    let ghost start = out@;
    match &m.meta {
        Some(mm) => {
            let mut body = meta_encoding(mm);
            put_varint(out, META_KEY);
            put_varint(out, body.len() as u64);
            out.append(&mut body);
        },
        None => {},
    }
    proof {
        lemma_data_bytes_len(m.data@);
    }
    put_varint(out, DATA_KEY);
    put_varint(out, (m.data.len() * 8) as u64);
    put_data(out, &m.data);
    assert(out@ =~= start + message_bytes(m@));
}

/// 128 to the power `k`, for the ten groups that a 64-bit varint may have.
pub open spec fn pow128(k: nat) -> nat {
    if k == 0 {
        1
    } else if k == 1 {
        0x80
    } else if k == 2 {
        0x4000
    } else if k == 3 {
        0x20_0000
    } else if k == 4 {
        0x1000_0000
    } else if k == 5 {
        0x8_0000_0000
    } else if k == 6 {
        0x400_0000_0000
    } else if k == 7 {
        0x2_0000_0000_0000
    } else if k == 8 {
        0x100_0000_0000_0000
    } else if k == 9 {
        0x8000_0000_0000_0000
    } else {
        0
    }
}

/// Reading a varint that starts at `i` and must end before `end`, with `k`
/// groups read so far and `acc` their value: the value and where it ends.
/// A varint of more than ten groups, or whose tenth group exceeds 1, is
/// refused.
pub open spec fn varint_from(s: Seq<u8>, i: nat, end: nat, k: nat, acc: nat) -> Option<(u64, nat)>
    decreases 10 - k,
{
    if k >= 10 || i + k >= end {
        None
    } else {
        let b = s[(i + k) as int];
        if b < 128 {
            if k == 9 && b > 1 {
                None
            } else {
                Some(((acc + b * pow128(k)) as u64, i + k + 1))
            }
        } else if k == 9 {
            None
        } else {
            varint_from(s, i, end, k + 1, (acc + (b - 128) * pow128(k)) as nat)
        }
    }
}

pub open spec fn varint_at(s: Seq<u8>, i: nat, end: nat) -> Option<(u64, nat)> {
    varint_from(s, i, end, 0, 0)
}

pub fn read_varint(s: &[u8], i: usize, end: usize) -> (r: Option<(u64, usize)>)
    requires
        end <= s@.len(),
    ensures
        r is None <==> varint_at(s@, i as nat, end as nat) is None,
        r matches Some((v, e)) ==> varint_at(s@, i as nat, end as nat) == Some((v, e as nat)),
{
    let mut k: usize = 0;
    let mut acc: u64 = 0;
    let mut pow: u64 = 1;
    loop
        invariant
            end <= s@.len(),
            k <= 9,
            pow == pow128(k as nat),
            acc < pow,
            varint_at(s@, i as nat, end as nat) == varint_from(
                s@,
                i as nat,
                end as nat,
                k as nat,
                acc as nat,
            ),
        decreases 10 - k,
    {
        if i >= end || k >= end - i {
            return None;
        }
        let b: u8 = s[i + k];
        if b < 128 {
            if k == 9 && b > 1 {
                return None;
            }
            if k <= 8 {
                assert(acc + b * pow < 128 * pow) by (nonlinear_arith)
                    requires
                        acc < pow,
                        b < 128,
                ;
            } else {
                assert(b * pow <= pow) by (nonlinear_arith)
                    requires
                        b <= 1,
                ;
            }
            return Some((acc + (b as u64) * pow, i + k + 1));
        }
        if k == 9 {
            return None;
        }
        assert(acc + (b - 128) * pow < pow * 128) by (nonlinear_arith)
            requires
                acc < pow,
                b - 128 < 128,
                128 <= b,
        ;
        acc = acc + ((b - 128) as u64) * pow;
        pow = pow * 128;
        k = k + 1;
    }
}

/// The little-endian value of the eight bytes at `j`.
pub open spec fn le_at(s: Seq<u8>, j: int) -> u64 {
    (s[j] as u64) | ((s[j + 1] as u64) << 8u64) | ((s[j + 2] as u64) << 16u64) | ((s[j
        + 3] as u64) << 24u64) | ((s[j + 4] as u64) << 32u64) | ((s[j + 5] as u64) << 40u64) | ((s[j
        + 6] as u64) << 48u64) | ((s[j + 7] as u64) << 56u64)
}

fn read_le64(s: &[u8], j: usize) -> (r: u64)
    requires
        j + 8 <= s@.len(),
    ensures
        r == le_at(s@, j as int),
{
    (s[j] as u64) | ((s[j + 1] as u64) << 8u64) | ((s[j + 2] as u64) << 16u64) | ((s[j
        + 3] as u64) << 24u64) | ((s[j + 4] as u64) << 32u64) | ((s[j + 5] as u64) << 40u64) | ((s[j
        + 6] as u64) << 48u64) | ((s[j + 7] as u64) << 56u64)
}

/// The payload of one field.
pub enum FieldValue {
    Varint(u64),
    Fixed64(u64),
    /// The bounds of a length-delimited payload.
    Bytes(usize, usize),
    Fixed32,
}

/// The field that starts at `i` and ends at or before `end`: its number, its
/// payload and where it ends. Keys beyond 32 bits, field number 0 and the
/// group wire types are refused.
pub open spec fn field_at(s: Seq<u8>, i: nat, end: nat) -> Option<(u64, FieldValue, nat)> {
    match varint_at(s, i, end) {
        None => None,
        Some((key, j)) => {
            if key > u32::MAX || key / 8 == 0 {
                None
            } else if key % 8 == 0 {
                match varint_at(s, j, end) {
                    Some((v, e)) => Some((key / 8, FieldValue::Varint(v), e)),
                    None => None,
                }
            } else if key % 8 == 1 {
                if j + 8 <= end {
                    Some((key / 8, FieldValue::Fixed64(le_at(s, j as int)), j + 8))
                } else {
                    None
                }
            } else if key % 8 == 2 {
                match varint_at(s, j, end) {
                    Some((n, e)) => if e + n <= end {
                        Some((key / 8, FieldValue::Bytes(e as usize, (e + n) as usize), (e + n) as nat))
                    } else {
                        None
                    },
                    None => None,
                }
            } else if key % 8 == 5 {
                if j + 4 <= end {
                    Some((key / 8, FieldValue::Fixed32, j + 4))
                } else {
                    None
                }
            } else {
                None
            }
        },
    }
}

pub fn read_field(s: &[u8], i: usize, end: usize) -> (r: Option<(u64, FieldValue, usize)>)
    requires
        end <= s@.len(),
    ensures
        r is None <==> field_at(s@, i as nat, end as nat) is None,
        r matches Some((f, v, e)) ==> field_at(s@, i as nat, end as nat) == Some((f, v, e as nat))
            && i < e <= end,
{
    let (key, j) = match read_varint(s, i, end) {
        None => return None,
        Some(p) => p,
    };
    proof {
        lemma_varint_bounds(s@, i as nat, end as nat, 0, 0);
    }
    if key > u32::MAX as u64 || key / 8 == 0 {
        return None;
    }
    let wt: u64 = key % 8;
    if wt == 0 {
        match read_varint(s, j, end) {
            Some((v, e)) => {
                proof {
                    lemma_varint_bounds(s@, j as nat, end as nat, 0, 0);
                }
                Some((key / 8, FieldValue::Varint(v), e))
            },
            None => None,
        }
    } else if wt == 1 {
        if j <= end && 8 <= end - j {
            Some((key / 8, FieldValue::Fixed64(read_le64(s, j)), j + 8))
        } else {
            None
        }
    } else if wt == 2 {
        match read_varint(s, j, end) {
            Some((n, e)) => {
                proof {
                    lemma_varint_bounds(s@, j as nat, end as nat, 0, 0);
                }
                if n <= (end - e) as u64 {
                    Some((key / 8, FieldValue::Bytes(e, e + n as usize), e + n as usize))
                } else {
                    None
                }
            },
            None => None,
        }
    } else if wt == 5 {
        if j <= end && 4 <= end - j {
            Some((key / 8, FieldValue::Fixed32, j + 4))
        } else {
            None
        }
    } else {
        None
    }
}

proof fn lemma_varint_bounds(s: Seq<u8>, i: nat, end: nat, k: nat, acc: nat)
    ensures
        varint_from(s, i, end, k, acc) matches Some((v, e)) ==> i + k < e <= end,
    decreases 10 - k,
{
    if k < 10 && i + k < end && s[(i + k) as int] >= 128 && k != 9 {
        lemma_varint_bounds(s, i, end, k + 1, (acc + (s[(i + k) as int] - 128) * pow128(k)) as nat);
    }
}

/// Whether `b` decodes as an annotation record: a string-keyed map of
/// dynamically typed values.
pub uninterp spec fn struct_valid(b: Seq<u8>) -> bool;

/// Relies on `prost_types::Struct`'s `Message::decode`: whether the bytes
/// decode as an annotation record. No bytes decode as the empty record.
#[verifier::external_body]
fn annotations_valid(b: &[u8]) -> (r: bool)
    ensures
        r == struct_valid(b@),
        b@.len() == 0 ==> r,
{
    <prost_types::Struct as prost::Message>::decode(b).is_ok()
}

fn copy_range(s: &[u8], a: usize, b: usize) -> (r: Vec<u8>)
    requires
        a <= b <= s@.len(),
    ensures
        r@ == s@.subrange(a as int, b as int),
{
    let mut r: Vec<u8> = Vec::new();
    let mut j: usize = a;
    while j < b
        invariant
            a <= j <= b <= s@.len(),
            r@ == s@.subrange(a as int, j as int),
        decreases b - j,
    {
        r.push(s[j]);
        assert(r@ =~= s@.subrange(a as int, j + 1));
        j = j + 1;
    }
    r
}

/// The elements packed, eight little-endian bytes each, in `s[a..b]`.
pub open spec fn packed(s: Seq<u8>, a: nat, b: nat) -> Seq<u64>
    decreases b,
{
    if b < a + 8 {
        Seq::empty()
    } else {
        packed(s, a, (b - 8) as nat).push(le_at(s, b - 8))
    }
}

/// Metadata as it is before any of its fields is read.
pub open spec fn empty_meta() -> MetaView {
    MetaView { raw: None, width: 0, height: 0 }
}

/// One field of a metadata record applied to `m`: annotations are merged,
/// width and height replaced, unknown fields skipped.
pub open spec fn meta_field(m: MetaView, s: Seq<u8>, f: u64, v: FieldValue) -> Option<MetaView> {
    if f == 1 {
        match v {
            FieldValue::Bytes(a, b) => {
                let piece = s.subrange(a as int, b as int);
                if struct_valid(piece) {
                    let before = match m.raw {
                        Some(r) => r,
                        None => Seq::empty(),
                    };
                    Some(MetaView { raw: Some(before + piece), width: m.width, height: m.height })
                } else {
                    None
                }
            },
            _ => None,
        }
    } else if f == 2 {
        match v {
            FieldValue::Varint(x) => Some(MetaView { raw: m.raw, width: x, height: m.height }),
            _ => None,
        }
    } else if f == 3 {
        match v {
            FieldValue::Varint(x) => Some(MetaView { raw: m.raw, width: m.width, height: x }),
            _ => None,
        }
    } else {
        Some(m)
    }
}

/// The fields of a metadata record in `s[i..end]` applied to `m` in order.
pub open spec fn merge_meta_from(m: MetaView, s: Seq<u8>, i: nat, end: nat) -> Option<MetaView>
    decreases end - i,
{
    if i >= end {
        Some(m)
    } else {
        match field_at(s, i, end) {
            None => None,
            Some((f, v, e)) => if e <= i || e > end {
                None
            } else {
                match meta_field(m, s, f, v) {
                    None => None,
                    Some(m2) => merge_meta_from(m2, s, e, end),
                }
            },
        }
    }
}

/// One field of an array record applied to `m`: metadata is merged,
/// elements appended, packed or one at a time, unknown fields skipped.
pub open spec fn message_field(m: Float64View, s: Seq<u8>, f: u64, v: FieldValue) -> Option<
    Float64View,
> {
    if f == 1 {
        match v {
            FieldValue::Bytes(a, b) => {
                let mm = match m.meta {
                    Some(x) => x,
                    None => empty_meta(),
                };
                match merge_meta_from(mm, s, a as nat, b as nat) {
                    Some(mm2) => Some(Float64View { meta: Some(mm2), data: m.data }),
                    None => None,
                }
            },
            _ => None,
        }
    } else if f == 2 {
        match v {
            FieldValue::Bytes(a, b) => if (b - a) % 8 == 0 {
                Some(Float64View { meta: m.meta, data: m.data + packed(s, a as nat, b as nat) })
            } else {
                None
            },
            FieldValue::Fixed64(x) => Some(Float64View { meta: m.meta, data: m.data.push(x) }),
            _ => None,
        }
    } else {
        Some(m)
    }
}

/// The fields of an array record in `s[i..end]` applied to `m` in order.
pub open spec fn merge_message_from(m: Float64View, s: Seq<u8>, i: nat, end: nat) -> Option<
    Float64View,
>
    decreases end - i,
{
    if i >= end {
        Some(m)
    } else {
        match field_at(s, i, end) {
            None => None,
            Some((f, v, e)) => if e <= i || e > end {
                None
            } else {
                match message_field(m, s, f, v) {
                    None => None,
                    Some(m2) => merge_message_from(m2, s, e, end),
                }
            },
        }
    }
}

/// `s` decoded as an array record and merged into `m`.
pub open spec fn merged(m: Float64View, s: Seq<u8>) -> Option<Float64View> {
    merge_message_from(m, s, 0, s.len())
}

fn merge_meta(m: &mut Meta, s: &[u8], start: usize, end: usize) -> (ok: bool)
    requires
        start <= end <= s@.len(),
    ensures
        ok == merge_meta_from(old(m)@, s@, start as nat, end as nat) is Some,
        ok ==> final(m)@ == merge_meta_from(old(m)@, s@, start as nat, end as nat)->Some_0,
{
    let mut i: usize = start;
    while i < end
        invariant
            start <= i <= end <= s@.len(),
            merge_meta_from(old(m)@, s@, start as nat, end as nat) == merge_meta_from(
                m@,
                s@,
                i as nat,
                end as nat,
            ),
        decreases end - i,
    {
        let (f, v, e) = match read_field(s, i, end) {
            None => return false,
            Some(x) => x,
        };
        if f == 1 {
            match v {
                FieldValue::Bytes(a, b) => {
                    let mut piece = copy_range(s, a, b);
                    if !annotations_valid(piece.as_slice()) {
                        return false;
                    }
                    let mut r: Vec<u8> = match m.raw.take() {
                        Some(r) => r,
                        None => Vec::new(),
                    };
                    r.append(&mut piece);
                    m.raw = Some(r);
                },
                _ => return false,
            }
        } else if f == 2 {
            match v {
                FieldValue::Varint(x) => m.width = x,
                _ => return false,
            }
        } else if f == 3 {
            match v {
                FieldValue::Varint(x) => m.height = x,
                _ => return false,
            }
        }
        i = e;
    }
    true
}

fn append_packed(out: &mut Vec<u64>, s: &[u8], a: usize, b: usize)
    requires
        a <= b <= s@.len(),
        (b - a) % 8 == 0,
    ensures
        final(out)@ == old(out)@ + packed(s@, a as nat, b as nat),
{
    let mut j: usize = a;
    while j < b
        invariant
            a <= j <= b <= s@.len(),
            (j - a) % 8 == 0,
            (b - a) % 8 == 0,
            out@ == old(out)@ + packed(s@, a as nat, j as nat),
        decreases b - j,
    {
        let x = read_le64(s, j);
        out.push(x);
        assert(packed(s@, a as nat, (j + 8) as nat) == packed(s@, a as nat, j as nat).push(x));
        assert(out@ =~= old(out)@ + packed(s@, a as nat, (j + 8) as nat));
        j = j + 8;
    }
}

/// Decodes `s` as an array record and merges it into `m`: metadata fields
/// are merged into the existing metadata (or into empty metadata), elements
/// are appended. False where `s` is not a well-formed record; `m` may then
/// hold part of the merge.
pub fn merge_message(m: &mut Float64, s: &[u8]) -> (ok: bool)
    ensures
        ok == merged(old(m)@, s@) is Some,
        ok ==> final(m)@ == merged(old(m)@, s@)->Some_0,
{
    let end = s.len();
    let mut i: usize = 0;
    while i < end
        invariant
            i <= end == s@.len(),
            merged(old(m)@, s@) == merge_message_from(m@, s@, i as nat, end as nat),
        decreases end - i,
    {
        let (f, v, e) = match read_field(s, i, end) {
            None => return false,
            Some(x) => x,
        };
        if f == 1 {
            match v {
                FieldValue::Bytes(a, b) => {
                    let mut mm = match m.meta.take() {
                        Some(x) => x,
                        None => Meta { raw: None, width: 0, height: 0 },
                    };
                    if !merge_meta(&mut mm, s, a, b) {
                        return false;
                    }
                    m.meta = Some(mm);
                },
                _ => return false,
            }
        } else if f == 2 {
            match v {
                FieldValue::Bytes(a, b) => {
                    if (b - a) % 8 != 0 {
                        return false;
                    }
                    append_packed(&mut m.data, s, a, b);
                },
                FieldValue::Fixed64(x) => m.data.push(x),
                _ => return false,
            }
        }
        i = e;
    }
    true
}

proof fn lemma_varint_len(v: u64)
    ensures
        varint(v).len() >= 1,
    decreases v,
{
    if v >= 128 {
        lemma_varint_len(v / 128);
    }
}

proof fn lemma_read_varint_from(s: Seq<u8>, i: nat, end: nat, k: nat, acc: nat, w: u64)
    requires
        k <= 9,
        acc < pow128(k),
        acc + w * pow128(k) <= u64::MAX,
        i + k + varint(w).len() <= end,
        end <= s.len(),
        s.subrange((i + k) as int, (i + k + varint(w).len()) as int) == varint(w),
    ensures
        varint_from(s, i, end, k, acc) == Some(
            ((acc + w * pow128(k)) as u64, (i + k + varint(w).len()) as nat),
        ),
    decreases w,
{
    lemma_varint_len(w);
    let p = pow128(k);
    assert(s[(i + k) as int] == varint(w)[0]);
    if w < 128 {
        if k == 9 && w > 1 {
            assert(w * p >= 2 * p) by (nonlinear_arith)
                requires
                    w >= 2,
                    p >= 0,
            ;
        }
    } else {
        if k == 9 {
            assert(w * p >= 128 * p) by (nonlinear_arith)
                requires
                    w >= 128,
                    p >= 0,
            ;
        }
        let q = w / 128;
        let acc2 = (acc + (w % 128) * p) as nat;
        assert(acc2 < 128 * p) by (nonlinear_arith)
            requires
                acc < p,
                w % 128 < 128,
                acc2 == acc + (w % 128) * p,
        ;
        assert(acc2 + q * pow128(k + 1) == acc + w * p) by (nonlinear_arith)
            requires
                pow128(k + 1) == 128 * p,
                w == 128 * q + w % 128,
                acc2 == acc + (w % 128) * p,
        ;
        assert(varint(w) == seq![(w % 128 + 128) as u8] + varint(q));
        assert(s.subrange((i + k + 1) as int, (i + k + 1 + varint(q).len()) as int) =~= varint(q)) by {
            assert(s.subrange((i + k + 1) as int, (i + k + 1 + varint(q).len()) as int) =~= s.subrange(
                (i + k) as int,
                (i + k + varint(w).len()) as int,
            ).subrange(1, varint(w).len() as int));
        }
        lemma_read_varint_from(s, i, end, k + 1, acc2, q);
    }
}

/// Reading a varint where `varint(v)` stands gives `v` and its end.
proof fn lemma_read_varint(s: Seq<u8>, i: nat, end: nat, v: u64)
    requires
        i + varint(v).len() <= end,
        end <= s.len(),
        s.subrange(i as int, (i + varint(v).len()) as int) == varint(v),
    ensures
        varint_at(s, i, end) == Some((v, (i + varint(v).len()) as nat)),
{
    lemma_read_varint_from(s, i, end, 0, 0, v);
}

proof fn lemma_read_le64(s: Seq<u8>, j: int, x: u64)
    requires
        0 <= j,
        j + 8 <= s.len(),
        s.subrange(j, j + 8) == le64(x),
    ensures
        le_at(s, j) == x,
{
    let t = s.subrange(j, j + 8);
    assert(s[j] == t[0] && s[j + 1] == t[1] && s[j + 2] == t[2] && s[j + 3] == t[3]);
    assert(s[j + 4] == t[4] && s[j + 5] == t[5] && s[j + 6] == t[6] && s[j + 7] == t[7]);
    assert(((x & 0xff) as u8 as u64) | ((((x >> 8u64) & 0xff) as u8 as u64) << 8u64) | ((((x
        >> 16u64) & 0xff) as u8 as u64) << 16u64) | ((((x >> 24u64) & 0xff) as u8 as u64)
        << 24u64) | ((((x >> 32u64) & 0xff) as u8 as u64) << 32u64) | ((((x >> 40u64) & 0xff) as u8
        as u64) << 40u64) | ((((x >> 48u64) & 0xff) as u8 as u64) << 48u64) | ((((x >> 56u64)
        & 0xff) as u8 as u64) << 56u64) == x) by (bit_vector);
}

proof fn lemma_read_packed(s: Seq<u8>, a: nat, d: Seq<u64>)
    requires
        a + d.len() * 8 <= s.len(),
        s.subrange(a as int, (a + d.len() * 8) as int) == data_bytes(d),
    ensures
        packed(s, a, (a + d.len() * 8) as nat) == d,
    decreases d.len(),
{
    lemma_data_bytes_len(d);
    if d.len() > 0 {
        let p = d.drop_last();
        let b: int = (a + d.len() * 8) as int;
        lemma_data_bytes_len(p);
        assert(s.subrange(a as int, (a + p.len() * 8) as int) =~= data_bytes(d).subrange(
            0,
            (p.len() * 8) as int,
        ));
        assert(data_bytes(d).subrange(0, (p.len() * 8) as int) =~= data_bytes(p));
        lemma_read_packed(s, a, p);
        assert(s.subrange(b - 8, b) =~= data_bytes(d).subrange(
            (p.len() * 8) as int,
            (d.len() * 8) as int,
        ));
        assert(data_bytes(d).subrange((p.len() * 8) as int, (d.len() * 8) as int) =~= le64(
            d.last(),
        ));
        lemma_read_le64(s, b - 8, d.last());
        assert((b - 8) as nat == a + p.len() * 8);
        assert(packed(s, a, b as nat) == packed(s, a, (b - 8) as nat).push(le_at(s, b - 8)));
        assert(p.push(d.last()) =~= d);
    }
}

/// A varint field where `varint(key) + varint(v)` stands is read as such.
proof fn lemma_read_varint_field(s: Seq<u8>, i: nat, end: nat, key: u64, v: u64)
    requires
        key % 8 == 0,
        8 <= key <= u32::MAX,
        i + varint(key).len() + varint(v).len() <= end,
        end <= s.len(),
        s.subrange(i as int, (i + varint(key).len() + varint(v).len()) as int) == varint(key)
            + varint(v),
    ensures
        field_at(s, i, end) == Some(
            (key / 8, FieldValue::Varint(v), (i + varint(key).len() + varint(v).len()) as nat),
        ),
{
    let j = i + varint(key).len();
    let t = s.subrange(i as int, (j + varint(v).len()) as int);
    assert(s.subrange(i as int, j as int) =~= t.subrange(0, varint(key).len() as int));
    assert(s.subrange(j as int, (j + varint(v).len()) as int) =~= t.subrange(
        varint(key).len() as int,
        t.len() as int,
    ));
    let kv = varint(key) + varint(v);
    assert(kv.subrange(0, varint(key).len() as int) =~= varint(key));
    assert(kv.subrange(varint(key).len() as int, kv.len() as int) =~= varint(v));
    lemma_read_varint(s, i, end, key);
    lemma_read_varint(s, j as nat, end, v);
}

/// A length-delimited field where `delimited(key, body)` stands is read as
/// such.
proof fn lemma_read_delimited(s: Seq<u8>, i: nat, end: nat, key: u64, body: Seq<u8>)
    requires
        key % 8 == 2,
        8 <= key <= u32::MAX,
        end <= usize::MAX,
        i + delimited(key, body).len() <= end,
        end <= s.len(),
        s.subrange(i as int, (i + delimited(key, body).len()) as int) == delimited(key, body),
    ensures
        ({
            let e: int = (i + varint(key).len() + varint(body.len() as u64).len()) as int;
            &&& field_at(s, i, end) == Some(
                (key / 8, FieldValue::Bytes(e as usize, (e + body.len()) as usize), (e
                    + body.len()) as nat),
            )
            &&& s.subrange(e, e + body.len()) == body
        }),
{
    let n = body.len() as u64;
    let j = i + varint(key).len();
    let e: int = (j + varint(n).len()) as int;
    let t = s.subrange(i as int, (i + delimited(key, body).len()) as int);
    assert(s.subrange(i as int, j as int) =~= t.subrange(0, varint(key).len() as int));
    assert(s.subrange(j as int, e as int) =~= t.subrange(varint(key).len() as int, e - i));
    assert(s.subrange(e, e + body.len()) =~= t.subrange(e - i, t.len() as int));
    let dl = delimited(key, body);
    assert(dl.subrange(0, varint(key).len() as int) =~= varint(key));
    assert(dl.subrange(varint(key).len() as int, e - i) =~= varint(n));
    assert(dl.subrange(e - i, dl.len() as int) =~= body);
    lemma_read_varint(s, i, end, key);
    lemma_read_varint(s, j as nat, end, n);
}

/// The metadata that decoding the encoding of `mm` into `bm` gives.
pub open spec fn meta_merged(bm: MetaView, mm: MetaView) -> MetaView {
    MetaView {
        raw: match mm.raw {
            Some(r) => Some(
                match bm.raw {
                    Some(x) => x,
                    None => Seq::empty(),
                } + r,
            ),
            None => bm.raw,
        },
        width: mm.width,
        height: mm.height,
    }
}

/// Whether the annotations of `m`, if any, decode as an annotation record.
pub open spec fn annotations_ok(m: Float64View) -> bool {
    m.meta matches Some(mm) ==> (mm.raw matches Some(r) ==> struct_valid(r))
}

proof fn lemma_merge_meta_dims(s: Seq<u8>, p1: nat, end: nat, m1: MetaView, w: u64, h: u64)
    requires
        end <= s.len(),
        s.len() <= usize::MAX,
        p1 + (varint(WIDTH_KEY) + varint(w) + varint(HEIGHT_KEY) + varint(h)).len() == end,
        s.subrange(p1 as int, end as int) == varint(WIDTH_KEY) + varint(w) + varint(HEIGHT_KEY)
            + varint(h),
    ensures
        merge_meta_from(m1, s, p1, end) == Some(MetaView { raw: m1.raw, width: w, height: h }),
{
    let vw = varint(WIDTH_KEY) + varint(w);
    let vh = varint(HEIGHT_KEY) + varint(h);
    let t = s.subrange(p1 as int, end as int);
    assert(t =~= vw + vh);
    let p2 = (p1 + vw.len()) as nat;
    lemma_varint_len(WIDTH_KEY);
    lemma_varint_len(HEIGHT_KEY);
    assert(s.subrange(p1 as int, p2 as int) =~= t.subrange(0, vw.len() as int));
    assert(t.subrange(0, vw.len() as int) =~= vw);
    assert(s.subrange(p2 as int, end as int) =~= t.subrange(vw.len() as int, t.len() as int));
    assert(t.subrange(vw.len() as int, t.len() as int) =~= vh);
    lemma_read_varint_field(s, p2, end, HEIGHT_KEY, h);
    let m3 = MetaView { raw: m1.raw, width: w, height: h };
    let m2 = MetaView { raw: m1.raw, width: w, height: m1.height };
    assert(merge_meta_from(m3, s, end, end) == Some(m3));
    assert(merge_meta_from(m2, s, p2, end) == Some(m3));
    lemma_read_varint_field(s, p1, end, WIDTH_KEY, w);
}

proof fn lemma_merge_meta_bytes(s: Seq<u8>, a: nat, bm: MetaView, mm: MetaView)
    requires
        a + meta_bytes(mm).len() <= s.len(),
        s.len() <= usize::MAX,
        s.subrange(a as int, (a + meta_bytes(mm).len()) as int) == meta_bytes(mm),
        mm.raw matches Some(r) ==> struct_valid(r),
    ensures
        merge_meta_from(bm, s, a, (a + meta_bytes(mm).len()) as nat) == Some(meta_merged(bm, mm)),
{
    let t = meta_bytes(mm);
    let end = (a + t.len()) as nat;
    let head: Seq<u8> = match mm.raw {
        Some(r) => delimited(RAW_KEY, r),
        None => Seq::empty(),
    };
    let dims = varint(WIDTH_KEY) + varint(mm.width) + varint(HEIGHT_KEY) + varint(mm.height);
    assert(t =~= head + dims);
    let p1 = (a + head.len()) as nat;
    assert(s.subrange(p1 as int, end as int) =~= t.subrange(head.len() as int, t.len() as int));
    assert(t.subrange(head.len() as int, t.len() as int) =~= dims);
    let m1 = MetaView { raw: meta_merged(bm, mm).raw, width: bm.width, height: bm.height };
    lemma_merge_meta_dims(s, p1, end, m1, mm.width, mm.height);
    match mm.raw {
        Some(r) => {
            assert(s.subrange(a as int, p1 as int) =~= t.subrange(0, head.len() as int));
            assert(t.subrange(0, head.len() as int) =~= head);
            lemma_read_delimited(s, a, end, RAW_KEY, r);
            assert(merge_meta_from(bm, s, a, end) == merge_meta_from(m1, s, p1, end));
        },
        None => {
            assert(m1 == bm);
        },
    }
}

proof fn lemma_merge_data_field(s: Seq<u8>, p1: nat, m1: Float64View, d: Seq<u64>)
    requires
        s.len() <= usize::MAX,
        d.len() * 8 <= usize::MAX,
        p1 + delimited(DATA_KEY, data_bytes(d)).len() == s.len(),
        s.subrange(p1 as int, s.len() as int) == delimited(DATA_KEY, data_bytes(d)),
    ensures
        merge_message_from(m1, s, p1, s.len()) == Some(
            Float64View { meta: m1.meta, data: m1.data + d },
        ),
{
    let end = s.len();
    let body = data_bytes(d);
    lemma_data_bytes_len(d);
    lemma_read_delimited(s, p1, end, DATA_KEY, body);
    let e = p1 + varint(DATA_KEY).len() + varint(body.len() as u64).len();
    lemma_read_packed(s, e, d);
    assert((body.len() as int) % 8 == 0);
    let m2 = Float64View { meta: m1.meta, data: m1.data + d };
    assert(merge_message_from(m2, s, end, end) == Some(m2));
}

/// Decoding the encoding of `m` into `b` merges `m`'s metadata into `b`'s
/// and appends `m`'s elements to `b`'s.
pub proof fn lemma_merge_message_bytes(b: Float64View, m: Float64View)
    requires
        encodable(m),
        annotations_ok(m),
        message_bytes(m).len() <= usize::MAX,
    ensures
        merged(b, message_bytes(m)) == Some(
            Float64View {
                meta: match m.meta {
                    Some(mm) => Some(
                        meta_merged(
                            match b.meta {
                                Some(x) => x,
                                None => empty_meta(),
                            },
                            mm,
                        ),
                    ),
                    None => b.meta,
                },
                data: b.data + m.data,
            },
        ),
{
    let s = message_bytes(m);
    let end = s.len();
    let head: Seq<u8> = match m.meta {
        Some(mm) => delimited(META_KEY, meta_bytes(mm)),
        None => Seq::empty(),
    };
    let tail = delimited(DATA_KEY, data_bytes(m.data));
    assert(s =~= head + tail);
    let p1 = head.len();
    assert(s.subrange(p1 as int, end as int) =~= tail);
    let bm = match b.meta {
        Some(x) => x,
        None => empty_meta(),
    };
    let m1 = Float64View {
        meta: match m.meta {
            Some(mm) => Some(meta_merged(bm, mm)),
            None => b.meta,
        },
        data: b.data,
    };
    lemma_merge_data_field(s, p1, m1, m.data);
    match m.meta {
        Some(mm) => {
            let mb = meta_bytes(mm);
            assert(s.subrange(0, p1 as int) =~= head);
            lemma_read_delimited(s, 0, end, META_KEY, mb);
            let e0 = varint(META_KEY).len() + varint(mb.len() as u64).len();
            lemma_merge_meta_bytes(s, e0, bm, mm);
            assert(message_field(b, s, 1, FieldValue::Bytes(e0 as usize, p1 as usize)) == Some(m1));
            assert(merged(b, s) == merge_message_from(m1, s, p1, end));
        },
        None => {
            assert(m1 == b);
        },
    }
}

} // verus!
