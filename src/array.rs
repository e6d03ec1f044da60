//! The store: the decoded array, the buffer with its encoding, and the
//! operations that a host calls on them.

use vstd::prelude::*;

use crate::slot::{read_opt, write_opt, write_opt_init, Slot, SlotError};
use crate::wire::{
    annotations_ok, empty_meta, encodable, f2buf64, lemma_merge_message_bytes, merge_message,
    merged, message_bytes,
};

verus! {

/// Width, height and annotations of a two-dimensional array.
pub struct Meta {
    /// The annotations, as the encoded body of a string-keyed record of
    /// dynamically typed values.
    pub raw: Option<Vec<u8>>,
    pub width: u64,
    pub height: u64,
}

/// A two-dimensional array of 64-bit floats, row-major, each element held as
/// its IEEE 754 bit pattern, with optional metadata.
pub struct Float64 {
    pub meta: Option<Meta>,
    pub data: Vec<u64>,
}

pub struct MetaView {
    pub raw: Option<Seq<u8>>,
    pub width: u64,
    pub height: u64,
}

pub struct Float64View {
    pub meta: Option<MetaView>,
    pub data: Seq<u64>,
}

pub open spec fn raw_view(r: Option<Vec<u8>>) -> Option<Seq<u8>> {
    match r {
        Some(v) => Some(v@),
        None => None,
    }
}

impl View for Meta {
    type V = MetaView;

    open spec fn view(&self) -> MetaView {
        MetaView { raw: raw_view(self.raw), width: self.width, height: self.height }
    }
}

pub open spec fn meta_view(m: Option<Meta>) -> Option<MetaView> {
    match m {
        Some(m) => Some(m@),
        None => None,
    }
}

impl View for Float64 {
    type V = Float64View;

    open spec fn view(&self) -> Float64View {
        Float64View { meta: meta_view(self.meta), data: self.data@ }
    }
}

/// What a slot of arrays holds, as a model.
pub open spec fn held(s: Slot<Float64>) -> Option<Float64View> {
    match s.value {
        Some(f) => Some(f@),
        None => None,
    }
}

/// The store: one decoded array and one buffer with its last encoding.
pub struct Array2d {
    pub decoded: Slot<Float64>,
    pub serialized: Slot<Vec<u8>>,
}

impl Array2d {
    /// A store with both slots empty and free.
    pub fn new() -> (r: Array2d)
        ensures
            r.decoded.value is None,
            r.decoded.writable(),
            r.serialized.value is None,
            r.serialized.writable(),
    {
        Array2d { decoded: Slot::new(), serialized: Slot::new() }
    }
}

/// `d` brought to length `n`: a prefix is kept and new places hold `v`.
pub open spec fn resized(d: Seq<u64>, n: nat, v: u64) -> Seq<u64> {
    Seq::new(n, |i: int| if i < d.len() { d[i] } else { v })
}

/// The number of cells of a `width` by `height` array, if both are
/// non-negative and the product fits in `usize`.
pub open spec fn cells(width: i32, height: i32) -> Option<nat> {
    if width >= 0 && height >= 0 && width * height <= usize::MAX {
        Some((width * height) as nat)
    } else {
        None
    }
}

/// Relies on Vec::capacity: never below the length.
#[verifier::external_body]
fn vec_capacity<T>(v: &Vec<T>) -> (r: usize)
    ensures
        r >= v@.len(),
{
    v.capacity()
}

fn cell_count(width: i32, height: i32) -> (r: Option<usize>)
    ensures
        r matches Some(n) ==> cells(width, height) == Some(n as nat),
        r is None ==> cells(width, height) is None,
{
    if width < 0 || height < 0 {
        return None;
    }
    let w: u64 = width as u64;
    let h: u64 = height as u64;
    assert(w * h <= i32::MAX * i32::MAX) by (nonlinear_arith)
        requires
            w <= i32::MAX,
            h <= i32::MAX,
    ;
    let p: u64 = w * h;
    if p > usize::MAX as u64 {
        None
    } else {
        Some(p as usize)
    }
}

fn to_i32(n: usize) -> (r: Result<i32, SlotError>)
    ensures
        n <= i32::MAX ==> r == Ok::<i32, SlotError>(n as i32),
        n > i32::MAX ==> r == Err::<i32, SlotError>(SlotError::InvalidArgument),
{
    if n <= i32::MAX as usize {
        Ok(n as i32)
    } else {
        Err(SlotError::InvalidArgument)
    }
}

fn capacity_i32(v: &Vec<u64>) -> (r: Result<i32, SlotError>)
    ensures
        r matches Ok(c) ==> c >= v@.len(),
        r is Err ==> r == Err::<i32, SlotError>(SlotError::InvalidArgument),
{
    to_i32(vec_capacity(v))
}

/// Changes the decoded array under an exclusive access.
pub fn f64write<U, F: Fn(Float64) -> (Float64, Result<U, SlotError>)>(
    o: &mut Slot<Float64>,
    f: F,
) -> (r: Result<U, SlotError>)
    requires
        old(o).writable() && old(o).value is Some ==> f.requires((old(o).value->Some_0,)),
    ensures
        final(o).readers == old(o).readers,
        final(o).writer == old(o).writer,
        !old(o).writable() ==> r == Err::<U, SlotError>(SlotError::LockUnavailable)
            && final(o).value == old(o).value,
        old(o).writable() && old(o).value is None ==> r == Err::<U, SlotError>(SlotError::NoData)
            && final(o).value is None,
        old(o).writable() && old(o).value is Some ==> final(o).value is Some && f.ensures(
            (old(o).value->Some_0,),
            (final(o).value->Some_0, r),
        ),
{
    write_opt(o, f)
}

/// Changes the decoded array, first building it with `init` if there is none.
pub fn f64write_init<U, F: Fn(Float64) -> (Float64, Result<U, SlotError>), I: Fn() -> Float64>(
    o: &mut Slot<Float64>,
    f: F,
    init: I,
) -> (r: Result<U, SlotError>)
    requires
        old(o).writable() && old(o).value is None ==> init.requires(())
            && forall|t: Float64| init.ensures((), t) ==> f.requires((t,)),
        old(o).writable() && old(o).value is Some ==> f.requires((old(o).value->Some_0,)),
    ensures
        final(o).readers == old(o).readers,
        final(o).writer == old(o).writer,
        !old(o).writable() ==> r == Err::<U, SlotError>(SlotError::LockUnavailable)
            && final(o).value == old(o).value,
        old(o).writable() && old(o).value is None ==> exists|t: Float64, t2: Float64|
            init.ensures((), t) && f.ensures((t,), (t2, r)) && (r is Ok ==> final(o).value
                == Some(t2)) && (r is Err ==> final(o).value is None),
        old(o).writable() && old(o).value is Some ==> final(o).value is Some && f.ensures(
            (old(o).value->Some_0,),
            (final(o).value->Some_0, r),
        ),
{
    write_opt_init(o, f, init)
}

/// Reads the decoded array under a shared access.
pub fn f64read<U, F: Fn(&Float64) -> Result<U, SlotError>>(o: &Slot<Float64>, f: F) -> (r: Result<
    U,
    SlotError,
>)
    requires
        o.readable() && o.value is Some ==> f.requires((&o.value->Some_0,)),
    ensures
        !o.readable() ==> r == Err::<U, SlotError>(SlotError::LockUnavailable),
        o.readable() && o.value is None ==> r == Err::<U, SlotError>(SlotError::NoData),
        o.readable() && o.value is Some ==> f.ensures((&o.value->Some_0,), r),
{
    read_opt(o, f)
}

/// Reads the last encoding under a shared access.
pub fn f64read_serialized<U, F: Fn(&Vec<u8>) -> Result<U, SlotError>>(
    o: &Slot<Vec<u8>>,
    f: F,
) -> (r: Result<U, SlotError>)
    requires
        o.readable() && o.value is Some ==> f.requires((&o.value->Some_0,)),
    ensures
        !o.readable() ==> r == Err::<U, SlotError>(SlotError::LockUnavailable),
        o.readable() && o.value is None ==> r == Err::<U, SlotError>(SlotError::NoData),
        o.readable() && o.value is Some ==> f.ensures((&o.value->Some_0,), r),
{
    read_opt(o, f)
}

/// Changes the metadata of the decoded array under an exclusive access; fails
/// with `NoData` where the array has none.
pub fn f64write_meta<U, F: Fn(Meta) -> (Meta, Result<U, SlotError>)>(
    o: &mut Slot<Float64>,
    f: F,
) -> (r: Result<U, SlotError>)
    requires
        old(o).writable() && old(o).value is Some && old(o).value->Some_0.meta is Some
            ==> f.requires((old(o).value->Some_0.meta->Some_0,)),
    ensures
        final(o).readers == old(o).readers,
        final(o).writer == old(o).writer,
        !(old(o).writable() && old(o).value is Some && old(o).value->Some_0.meta is Some) ==> {
            &&& !old(o).writable() ==> r == Err::<U, SlotError>(SlotError::LockUnavailable)
            &&& old(o).writable() ==> r == Err::<U, SlotError>(SlotError::NoData)
            &&& held(*final(o)) == held(*old(o))
        },
        old(o).writable() && old(o).value is Some && old(o).value->Some_0.meta is Some ==> {
            &&& final(o).value is Some
            &&& final(o).value->Some_0.meta is Some
            &&& final(o).value->Some_0.data@ == old(o).value->Some_0.data@
            &&& f.ensures(
                (old(o).value->Some_0.meta->Some_0,),
                (final(o).value->Some_0.meta->Some_0, r),
            )
        },
{
    write_opt(
        o,
        |mf: Float64| -> (r: (Float64, Result<U, SlotError>))
            requires
                mf.meta is Some ==> f.requires((mf.meta->Some_0,)),
            ensures
                r.0.data@ == mf.data@,
                mf.meta is None ==> r.0@ == mf@ && r.1 == Err::<U, SlotError>(SlotError::NoData),
                mf.meta is Some ==> r.0.meta is Some && f.ensures(
                    (mf.meta->Some_0,),
                    (r.0.meta->Some_0, r.1),
                )
            {
                match mf.meta {
                    None => (Float64 { meta: None, data: mf.data }, Err(SlotError::NoData)),
                    Some(m) => {
                        let (m2, r) = f(m);
                        (Float64 { meta: Some(m2), data: mf.data }, r)
                    },
                }
            },
    )
}

/// Reads the metadata of the decoded array; fails with `NoData` where the
/// array has none.
pub fn f64read_meta<U, F: Fn(&Meta) -> Result<U, SlotError>>(o: &Slot<Float64>, f: F) -> (r:
    Result<U, SlotError>)
    requires
        o.readable() && o.value is Some && o.value->Some_0.meta is Some ==> f.requires(
            (&o.value->Some_0.meta->Some_0,),
        ),
    ensures
        !o.readable() ==> r == Err::<U, SlotError>(SlotError::LockUnavailable),
        o.readable() && !(o.value is Some && o.value->Some_0.meta is Some) ==> r == Err::<
            U,
            SlotError,
        >(SlotError::NoData),
        o.readable() && o.value is Some && o.value->Some_0.meta is Some ==> f.ensures(
            (&o.value->Some_0.meta->Some_0,),
            r,
        ),
{
    read_opt(
        o,
        |fd: &Float64| -> (r: Result<U, SlotError>)
            requires
                fd.meta is Some ==> f.requires((&fd.meta->Some_0,)),
            ensures
                fd.meta is None ==> r == Err::<U, SlotError>(SlotError::NoData),
                fd.meta is Some ==> f.ensures((&fd.meta->Some_0,), r)
            {
                match &fd.meta {
                    None => Err(SlotError::NoData),
                    Some(m) => f(m),
                }
            },
    )
}

/// Reads the elements of the decoded array.
pub fn f64read_data<U, F: Fn(&Vec<u64>) -> Result<U, SlotError>>(o: &Slot<Float64>, f: F) -> (r:
    Result<U, SlotError>)
    requires
        o.readable() && o.value is Some ==> f.requires((&o.value->Some_0.data,)),
    ensures
        !o.readable() ==> r == Err::<U, SlotError>(SlotError::LockUnavailable),
        o.readable() && o.value is None ==> r == Err::<U, SlotError>(SlotError::NoData),
        o.readable() && o.value is Some ==> f.ensures((&o.value->Some_0.data,), r),
{
    read_opt(
        o,
        |fd: &Float64| -> (r: Result<U, SlotError>)
            requires
                f.requires((&fd.data,)),
            ensures
                f.ensures((&fd.data,), r)
            { f(&fd.data) },
    )
}

/// Empties the decoded array in place: no metadata, no elements. Returns the
/// capacity left to the elements, or -1.
pub fn f64clear_decoded(st: &mut Array2d) -> (r: i32)
    ensures
        final(st).serialized == old(st).serialized,
        final(st).decoded.readers == old(st).decoded.readers,
        final(st).decoded.writer == old(st).decoded.writer,
        !(old(st).decoded.writable() && old(st).decoded.value is Some) ==> r == -1 && held(
            final(st).decoded,
        ) == held(old(st).decoded),
        old(st).decoded.writable() && old(st).decoded.value is Some ==> r >= -1 && held(
            final(st).decoded,
        ) == Some(Float64View { meta: None, data: Seq::empty() }),
{
    let r = f64write(
        &mut st.decoded,
        |f: Float64| -> (r: (Float64, Result<i32, SlotError>))
            ensures
                r.0@ == (Float64View { meta: None, data: Seq::empty() }),
                r.1 matches Ok(c) ==> c >= 0
            {
                let mut d = f.data;
                d.clear();
                let c = capacity_i32(&d);
                (Float64 { meta: None, data: d }, c)
            },
    );
    match r {
        Ok(c) => c,
        Err(_) => -1,
    }
}

/// The array that a resize builds where there is none.
pub open spec fn fresh_array(width: i32, height: i32, n: nat, v: u64) -> Float64View {
    Float64View {
        meta: Some(MetaView { raw: Some(Seq::empty()), width: width as u64, height: height as u64 }),
        data: Seq::new(n, |i: int| v),
    }
}

/// Brings the decoded array to `width * height` elements, new places holding
/// `init`. Where there is no array, one is built with that metadata and empty
/// annotations; an existing array keeps its metadata. Returns the capacity of
/// the elements, or -1.
pub fn f64resize(st: &mut Array2d, width: i32, height: i32, init: u64) -> (r: i32)
    ensures
        final(st).serialized == old(st).serialized,
        final(st).decoded.readers == old(st).decoded.readers,
        final(st).decoded.writer == old(st).decoded.writer,
        !old(st).decoded.writable() || cells(width, height) is None ==> r == -1 && held(
            final(st).decoded,
        ) == held(old(st).decoded),
        old(st).decoded.writable() && cells(width, height) is Some ==> {
            let n = cells(width, height)->Some_0;
            &&& r == -1 || r >= n
            &&& old(st).decoded.value is None ==> (r == -1 <==> final(st).decoded.value is None)
            &&& old(st).decoded.value is None && r != -1 ==> held(final(st).decoded) == Some(
                fresh_array(width, height, n, init),
            )
            &&& old(st).decoded.value matches Some(a) ==> held(final(st).decoded) == Some(
                Float64View { meta: a@.meta, data: resized(a@.data, n, init) },
            )
        },
{
    let r = f64write_init(
        &mut st.decoded,
        |f: Float64| -> (r: (Float64, Result<i32, SlotError>))
            ensures
                cells(width, height) is None ==> r.0@ == f@ && r.1 is Err,
                cells(width, height) matches Some(n) ==> {
                    &&& r.0@ == (Float64View { meta: f@.meta, data: resized(f@.data, n, init) })
                    &&& r.1 matches Ok(c) ==> c >= n
                }
            {
                match cell_count(width, height) {
                    None => (f, Err(SlotError::InvalidArgument)),
                    Some(n) => {
                        let mut d = f.data;
                        d.resize(n, init);
                        proof {
                            assert(d@ =~= resized(f.data@, n as nat, init));
                        }
                        let c = capacity_i32(&d);
                        (Float64 { meta: f.meta, data: d }, c)
                    },
                }
            },
        || -> (r: Float64)
            ensures
                cells(width, height) matches Some(n) ==> r@ == (Float64View {
                    meta: fresh_array(width, height, n, init).meta,
                    data: Seq::empty(),
                })
            {
                let cap: usize = match cell_count(width, height) {
                    Some(n) => n,
                    None => 0,
                };
                let w: u64 = if width >= 0 { width as u64 } else { 0 };
                let h: u64 = if height >= 0 { height as u64 } else { 0 };
                let m = Meta { raw: Some(Vec::new()), width: w, height: h };
                Float64 { meta: Some(m), data: Vec::with_capacity(cap) }
            },
    );
    proof {
        if old(st).decoded.writable() && old(st).decoded.value is None && cells(width, height) is Some {
            let n = cells(width, height)->Some_0;
            assert(resized(Seq::<u64>::empty(), n, init) =~= Seq::new(n, |i: int| init));
        }
    }
    match r {
        Ok(c) => c,
        Err(_) => -1,
    }
}

/// Sets the width and height of the decoded array's metadata, leaving its
/// elements alone. False where there is no metadata, a value is negative, or
/// the slot is held.
pub fn f64set_dim(st: &mut Array2d, width: i64, height: i64) -> (r: bool)
    ensures
        final(st).serialized == old(st).serialized,
        final(st).decoded.readers == old(st).decoded.readers,
        final(st).decoded.writer == old(st).decoded.writer,
        r == (old(st).decoded.writable() && old(st).decoded.value is Some
            && old(st).decoded.value->Some_0.meta is Some && width >= 0 && height >= 0),
        !r ==> held(final(st).decoded) == held(old(st).decoded),
        r ==> {
            let a = old(st).decoded.value->Some_0@;
            held(final(st).decoded) == Some(
                Float64View {
                    meta: Some(
                        MetaView { raw: a.meta->Some_0.raw, width: width as u64, height: height as u64 },
                    ),
                    data: a.data,
                },
            )
        },
{
    let r = f64write_meta(
        &mut st.decoded,
        |m: Meta| -> (r: (Meta, Result<(), SlotError>))
            ensures
                !(width >= 0 && height >= 0) ==> r.0@ == m@ && r.1 is Err,
                width >= 0 && height >= 0 ==> r.1 is Ok && r.0@ == (MetaView {
                    raw: m@.raw,
                    width: width as u64,
                    height: height as u64,
                })
            {
                if width < 0 || height < 0 {
                    (m, Err(SlotError::InvalidArgument))
                } else {
                    (Meta { raw: m.raw, width: width as u64, height: height as u64 }, Ok(()))
                }
            },
    );
    r.is_ok()
}

/// What a count of elements reports: the number of elements of the held
/// array, or -1.
pub open spec fn count_of(s: Slot<Float64>) -> int {
    if s.readable() && s.value is Some && s.value->Some_0.data@.len() <= i32::MAX {
        s.value->Some_0.data@.len() as int
    } else {
        -1
    }
}

/// What a query of the width reports: the width in the held array's
/// metadata, or -1.
pub open spec fn width_of(s: Slot<Float64>) -> int {
    if s.readable() && s.value is Some && s.value->Some_0.meta is Some
        && s.value->Some_0.meta->Some_0.width <= i64::MAX {
        s.value->Some_0.meta->Some_0.width as int
    } else {
        -1
    }
}

/// What a query of the height reports: the height in the held array's
/// metadata, or -1.
pub open spec fn height_of(s: Slot<Float64>) -> int {
    if s.readable() && s.value is Some && s.value->Some_0.meta is Some
        && s.value->Some_0.meta->Some_0.height <= i64::MAX {
        s.value->Some_0.meta->Some_0.height as int
    } else {
        -1
    }
}

/// The number of elements of the decoded array, or -1.
pub fn f64data_count(st: &Array2d) -> (r: i32)
    ensures
        r == count_of(st.decoded),
{
    let r = f64read_data(
        &st.decoded,
        |d: &Vec<u64>| -> (r: Result<i32, SlotError>)
            ensures
                d@.len() <= i32::MAX ==> r == Ok::<i32, SlotError>(d@.len() as i32),
                d@.len() > i32::MAX ==> r is Err
            { to_i32(d.len()) },
    );
    match r {
        Ok(n) => n,
        Err(_) => -1,
    }
}

fn dim_i64(d: u64) -> (r: Result<i64, SlotError>)
    ensures
        d <= i64::MAX ==> r == Ok::<i64, SlotError>(d as i64),
        d > i64::MAX ==> r is Err,
{
    if d <= i64::MAX as u64 {
        Ok(d as i64)
    } else {
        Err(SlotError::InvalidArgument)
    }
}

/// The height in the decoded array's metadata, or -1.
pub fn f64height(st: &Array2d) -> (r: i64)
    ensures
        r == height_of(st.decoded),
{
    let r = f64read_meta(
        &st.decoded,
        |m: &Meta| -> (r: Result<i64, SlotError>)
            ensures
                m.height <= i64::MAX ==> r == Ok::<i64, SlotError>(m.height as i64),
                m.height > i64::MAX ==> r is Err
            { dim_i64(m.height) },
    );
    match r {
        Ok(n) => n,
        Err(_) => -1,
    }
}

/// The width in the decoded array's metadata, or -1.
pub fn f64width(st: &Array2d) -> (r: i64)
    ensures
        r == width_of(st.decoded),
{
    let r = f64read_meta(
        &st.decoded,
        |m: &Meta| -> (r: Result<i64, SlotError>)
            ensures
                m.width <= i64::MAX ==> r == Ok::<i64, SlotError>(m.width as i64),
                m.width > i64::MAX ==> r is Err
            { dim_i64(m.width) },
    );
    match r {
        Ok(n) => n,
        Err(_) => -1,
    }
}

fn copy_message(m: &Float64) -> (r: Float64)
    ensures
        r@ == m@,
{
    let meta = match &m.meta {
        Some(mm) => {
            let raw = match &mm.raw {
                Some(v) => Some(v.clone()),
                None => None,
            };
            Some(Meta { raw, width: mm.width, height: mm.height })
        },
        None => None,
    };
    let r = Float64 { meta, data: m.data.clone() };
    assert(r.data@ =~= m.data@);
    r
}

fn can_encode(m: &Float64) -> (r: bool)
    ensures
        r == encodable(m@),
{
    m.data.len() <= usize::MAX / 8
}

/// The encoding of an array record.
pub fn f2vec64(msg: &Float64) -> (r: Vec<u8>)
    requires
        encodable(msg@),
    ensures
        r@ == message_bytes(msg@),
{
    let mut out: Vec<u8> = Vec::new();
    f2buf64(msg, &mut out);
    assert(out@ =~= message_bytes(msg@));
    out
}

/// The length of the encoding of an array record.
pub fn encoded_len(msg: &Float64) -> (r: usize)
    requires
        encodable(msg@),
    ensures
        r == message_bytes(msg@).len(),
{
    f2vec64(msg).len()
}

/// Merges the array record encoded in `s` into `f`; where `s` is not a
/// well-formed record, `f` is left as it was.
pub fn f64merge_slice(s: &[u8], f: &mut Float64) -> (r: Result<(), SlotError>)
    ensures
        r is Ok <==> merged(old(f)@, s@) is Some,
        r is Ok ==> final(f)@ == merged(old(f)@, s@)->Some_0,
        r is Err ==> r == Err::<(), SlotError>(SlotError::CodecFailure) && final(f)@ == old(f)@,
{
    let mut c = copy_message(f);
    if merge_message(&mut c, s) {
        *f = c;
        Ok(())
    } else {
        Err(SlotError::CodecFailure)
    }
}

/// The array record encoded in `s`.
pub fn slice2f64(s: &[u8]) -> (r: Result<Float64, SlotError>)
    ensures
        r is Ok <==> merged(Float64View { meta: None, data: Seq::empty() }, s@) is Some,
        r matches Ok(f) ==> f@ == merged(Float64View { meta: None, data: Seq::empty() }, s@)->Some_0,
        r is Err ==> r == Err::<Float64, SlotError>(SlotError::CodecFailure),
{
    let mut f = Float64 { meta: None, data: Vec::new() };
    assert(f@ == (Float64View { meta: None, data: Seq::empty() }));
    match f64merge_slice(s, &mut f) {
        Ok(()) => Ok(f),
        Err(e) => Err(e),
    }
}

/// The length of the encoding of `m`, where it can be encoded and the length
/// fits in `i32`.
pub open spec fn encoded_size(m: Float64View) -> Option<i32> {
    if encodable(m) && message_bytes(m).len() <= i32::MAX {
        Some(message_bytes(m).len() as i32)
    } else {
        None
    }
}

fn encoded_size_of(m: &Float64) -> (r: Result<i32, SlotError>)
    ensures
        encoded_size(m@) matches Some(n) ==> r == Ok::<i32, SlotError>(n),
        encoded_size(m@) is None ==> r is Err,
{
    if can_encode(m) {
        to_i32(encoded_len(m))
    } else {
        Err(SlotError::InvalidArgument)
    }
}

/// Gives the buffer slot an empty buffer, sized for the encoding of the
/// decoded array, where it has none; writes no bytes. Returns the buffer's
/// length, or -1.
pub fn f64serialize_init(st: &mut Array2d) -> (r: i32)
    ensures
        final(st).decoded == old(st).decoded,
        final(st).serialized.readers == old(st).serialized.readers,
        final(st).serialized.writer == old(st).serialized.writer,
        !(old(st).decoded.readable() && old(st).decoded.value is Some && encodable(
            old(st).decoded.value->Some_0@,
        ) && old(st).serialized.writable()) ==> r == -1 && final(st).serialized.value
            == old(st).serialized.value,
        old(st).decoded.readable() && old(st).decoded.value is Some && encodable(
            old(st).decoded.value->Some_0@,
        ) && old(st).serialized.writable() ==> {
            &&& old(st).serialized.value is None ==> r == 0 && final(st).serialized.value is Some
                && final(st).serialized.value->Some_0@.len() == 0
            &&& old(st).serialized.value matches Some(v) ==> final(st).serialized.value
                == old(st).serialized.value && r == (if v@.len() <= i32::MAX {
                v@.len() as int
            } else {
                -1
            })
        },
{
    if st.decoded.writer {
        return -1;
    }
    let cap = match &st.decoded.value {
        None => return -1,
        Some(inp) => {
            if !can_encode(inp) {
                return -1;
            }
            encoded_len(inp)
        },
    };
    let r = write_opt_init(
        &mut st.serialized,
        |v: Vec<u8>| -> (r: (Vec<u8>, Result<i32, SlotError>))
            ensures
                r.0 == v,
                v@.len() <= i32::MAX ==> r.1 == Ok::<i32, SlotError>(v@.len() as i32),
                v@.len() > i32::MAX ==> r.1 is Err
            {
                let n = to_i32(v.len());
                (v, n)
            },
        || -> (r: Vec<u8>)
            ensures
                r@.len() == 0
            { Vec::with_capacity(cap) },
    );
    match r {
        Ok(n) => n,
        Err(_) => -1,
    }
}

/// Encodes the decoded array into the buffer slot, replacing what it held.
/// Returns the length of the encoding, or -1.
pub fn f64serialize(st: &mut Array2d) -> (r: i32)
    ensures
        final(st).decoded == old(st).decoded,
        final(st).serialized.readers == old(st).serialized.readers,
        final(st).serialized.writer == old(st).serialized.writer,
        !(old(st).decoded.readable() && old(st).decoded.value is Some && encodable(
            old(st).decoded.value->Some_0@,
        ) && old(st).serialized.writable()) ==> r == -1 && final(st).serialized.value
            == old(st).serialized.value,
        old(st).decoded.readable() && old(st).decoded.value is Some && encodable(
            old(st).decoded.value->Some_0@,
        ) && old(st).serialized.writable() ==> {
            let bytes = message_bytes(old(st).decoded.value->Some_0@);
            &&& bytes.len() <= i32::MAX ==> r == bytes.len() && final(st).serialized.value is Some
                && final(st).serialized.value->Some_0@ == bytes
            &&& bytes.len() > i32::MAX ==> r == -1
        },
{
    if st.decoded.writer {
        return -1;
    }
    let inp: &Float64 = match &st.decoded.value {
        None => return -1,
        Some(inp) => inp,
    };
    if !can_encode(inp) {
        return -1;
    }
    let r = write_opt_init(
        &mut st.serialized,
        |v: Vec<u8>| -> (r: (Vec<u8>, Result<i32, SlotError>))
            requires
                encodable(inp@)
            ensures
                r.0@ == message_bytes(inp@),
                message_bytes(inp@).len() <= i32::MAX ==> r.1 == Ok::<i32, SlotError>(
                    message_bytes(inp@).len() as i32,
                ),
                message_bytes(inp@).len() > i32::MAX ==> r.1 is Err
            {
                let mut out = v;
                out.clear();
                f2buf64(inp, &mut out);
                assert(out@ =~= message_bytes(inp@));
                let n = to_i32(out.len());
                (out, n)
            },
        || -> (r: Vec<u8>)
            ensures
                r@.len() == 0
            { Vec::new() },
    );
    match r {
        Ok(n) => n,
        Err(_) => -1,
    }
}

/// The array that a decode merges into where there is none: empty metadata,
/// no elements.
pub open spec fn decode_base() -> Float64View {
    Float64View { meta: Some(empty_meta()), data: Seq::empty() }
}

/// Decodes the buffer slot's bytes and merges them into the decoded array,
/// first building one (empty metadata, room for `capacity` elements) where
/// there is none. Returns the length of the resulting array's encoding, or
/// -1. Where the bytes are not a well-formed record, the decoded array is
/// left as it was.
pub fn f64decode(st: &mut Array2d, capacity: i32) -> (r: i32)
    ensures
        final(st).serialized == old(st).serialized,
        final(st).decoded.readers == old(st).decoded.readers,
        final(st).decoded.writer == old(st).decoded.writer,
        !(old(st).serialized.readable() && old(st).serialized.value is Some
            && old(st).decoded.writable()) ==> r == -1 && held(final(st).decoded) == held(
            old(st).decoded,
        ),
        old(st).serialized.readable() && old(st).serialized.value is Some
            && old(st).decoded.writable() ==> {
            let bytes = old(st).serialized.value->Some_0@;
            let base = match old(st).decoded.value {
                Some(a) => a@,
                None => decode_base(),
            };
            &&& merged(base, bytes) is None ==> r == -1 && held(final(st).decoded) == held(
                old(st).decoded,
            )
            &&& merged(base, bytes) matches Some(x) ==> {
                &&& encoded_size(x) matches Some(n) ==> r == n && held(final(st).decoded) == Some(
                    x,
                )
                &&& encoded_size(x) is None ==> r == -1
                &&& encoded_size(x) is None && old(st).decoded.value is None
                    ==> final(st).decoded.value is None
                &&& encoded_size(x) is None && old(st).decoded.value is Some
                    ==> held(final(st).decoded) == Some(x)
            }
        },
{
    if st.serialized.writer {
        return -1;
    }
    let v: &Vec<u8> = match &st.serialized.value {
        None => return -1,
        Some(v) => v,
    };
    let cap: usize = if capacity >= 0 { capacity as usize } else { 0 };
    let r = write_opt_init(
        &mut st.decoded,
        |f: Float64| -> (r: (Float64, Result<i32, SlotError>))
            ensures
                merged(f@, v@) is None ==> r.0@ == f@ && r.1 is Err,
                merged(f@, v@) matches Some(x) ==> r.0@ == x && (encoded_size(x) matches Some(n)
                    ==> r.1 == Ok::<i32, SlotError>(n)) && (encoded_size(x) is None ==> r.1 is Err)
            {
                let mut g = f;
                match f64merge_slice(v.as_slice(), &mut g) {
                    Ok(()) => {
                        let n = encoded_size_of(&g);
                        (g, n)
                    },
                    Err(e) => (g, Err(e)),
                }
            },
        || -> (r: Float64)
            ensures
                r@ == decode_base()
            {
                let f = Float64 {
                    meta: Some(Meta { raw: None, width: 0, height: 0 }),
                    data: Vec::with_capacity(cap),
                };
                assert(f@.data =~= Seq::<u64>::empty());
                f
            },
    );
    match r {
        Ok(n) => n,
        Err(_) => -1,
    }
}

/// An array built by a resize of an empty store to `width` by `height` with
/// `v` reports `width * height` elements, each `v`, and that width and
/// height.
pub proof fn resize_builds_filled_array(s: Slot<Float64>, width: i32, height: i32, v: u64)
    requires
        width >= 0,
        height >= 0,
        width * height <= i32::MAX,
        s.readable(),
        held(s) == Some(fresh_array(width, height, (width * height) as nat, v)),
    ensures
        count_of(s) == width * height,
        forall|i: int| 0 <= i < width * height ==> s.value->Some_0.data@[i] == v,
        width_of(s) == width,
        height_of(s) == height,
{
    assert(s.value->Some_0.data@ == fresh_array(width, height, (width * height) as nat, v).data);
}

/// After a clear, the held array reports no elements.
pub proof fn clear_leaves_no_elements(s: Slot<Float64>)
    requires
        s.readable(),
        held(s) == Some(Float64View { meta: None, data: Seq::empty() }),
    ensures
        count_of(s) == 0,
        width_of(s) == -1,
        height_of(s) == -1,
{
}

/// Setting the dimensions of an array with metadata to `width` by `height`
/// makes the queries report them, and leaves the element count alone.
pub proof fn set_dim_reports_new_dims(
    before: Slot<Float64>,
    after: Slot<Float64>,
    width: i64,
    height: i64,
)
    requires
        width >= 0,
        height >= 0,
        before.readable() == after.readable(),
        before.value is Some,
        before.value->Some_0.meta is Some,
        held(after) == Some(
            Float64View {
                meta: Some(
                    MetaView {
                        raw: before.value->Some_0@.meta->Some_0.raw,
                        width: width as u64,
                        height: height as u64,
                    },
                ),
                data: before.value->Some_0@.data,
            },
        ),
    ensures
        after.readable() ==> width_of(after) == width && height_of(after) == height,
        count_of(after) == count_of(before),
{
}

/// Decoding the encoding of an array with metadata into a store with no
/// array gives back that array: its elements and its metadata exactly.
pub proof fn serialize_then_decode_round_trip(m: Float64View)
    requires
        m.meta is Some,
        encodable(m),
        annotations_ok(m),
        message_bytes(m).len() <= usize::MAX,
    ensures
        merged(decode_base(), message_bytes(m)) == Some(m),
{
    lemma_merge_message_bytes(decode_base(), m);
    let mm = m.meta->Some_0;
    match mm.raw {
        Some(r) => {
            assert(Seq::<u8>::empty() + r =~= r);
        },
        None => {},
    }
    assert(Seq::<u64>::empty() + m.data =~= m.data);
}

} // verus!
