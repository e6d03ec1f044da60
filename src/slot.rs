//! A holder of zero or one value behind a lock that fails rather than waits.

use vstd::prelude::*;

verus! {

/// Why an access to a slot failed.
#[derive(Clone, Copy, Debug, PartialEq, Eq, Structural)]
pub enum SlotError {
    /// Another holder has the slot in a conflicting mode.
    LockUnavailable,
    /// The slot holds no value.
    NoData,
    /// An argument was out of range, or a size did not fit its type.
    InvalidArgument,
    /// Bytes could not be decoded.
    CodecFailure,
}

/// A holder of zero or one value, guarded by a lock that is never waited on:
/// an access that conflicts with a current holder fails at once.
pub struct Slot<T> {
    /// The guarded value, if any.
    pub value: Option<T>,
    /// Number of outstanding shared holds.
    pub readers: u64,
    /// Whether an exclusive hold is outstanding.
    pub writer: bool,
}

impl<T> Slot<T> {
    /// An empty slot that nobody holds.
    pub fn new() -> (r: Slot<T>)
        ensures
            r.value is None,
            r.readers == 0,
            !r.writer,
    {
        Slot { value: None, readers: 0, writer: false }
    }

    /// Whether a shared access can be granted now.
    pub open spec fn readable(&self) -> bool {
        !self.writer
    }

    /// Whether an exclusive access can be granted now.
    pub open spec fn writable(&self) -> bool {
        !self.writer && self.readers == 0
    }

    /// Takes an exclusive hold that lasts until `end_write`.
    pub fn begin_write(&mut self) -> (r: Result<(), SlotError>)
        ensures
            old(self).writable() ==> r is Ok && final(self).writer
                && final(self).readers == old(self).readers
                && final(self).value == old(self).value,
            !old(self).writable() ==> r == Err::<(), SlotError>(SlotError::LockUnavailable)
                && *final(self) == *old(self),
    {
        if self.writer || self.readers != 0 {
            Err(SlotError::LockUnavailable)
        } else {
            self.writer = true;
            Ok(())
        }
    }

    /// Gives up an exclusive hold.
    pub fn end_write(&mut self)
        ensures
            !final(self).writer,
            final(self).readers == old(self).readers,
            final(self).value == old(self).value,
    {
        self.writer = false;
    }

    /// Takes a shared hold that lasts until `end_read`.
    pub fn begin_read(&mut self) -> (r: Result<(), SlotError>)
        ensures
            old(self).readable() && old(self).readers < u64::MAX ==> r is Ok
                && final(self).readers == old(self).readers + 1
                && final(self).writer == old(self).writer
                && final(self).value == old(self).value,
            !(old(self).readable() && old(self).readers < u64::MAX) ==> r
                == Err::<(), SlotError>(SlotError::LockUnavailable) && *final(self) == *old(self),
    {
        if self.writer || self.readers == u64::MAX {
            Err(SlotError::LockUnavailable)
        } else {
            self.readers = self.readers + 1;
            Ok(())
        }
    }

    /// Gives up a shared hold.
    pub fn end_read(&mut self)
        ensures
            final(self).readers == if old(self).readers > 0 {
                old(self).readers - 1
            } else {
                0
            },
            final(self).writer == old(self).writer,
            final(self).value == old(self).value,
    {
        if self.readers > 0 {
            self.readers = self.readers - 1;
        }
    }
}

/// Applies `f` to the held value under a shared access.
pub fn read_opt<T, U, F: Fn(&T) -> Result<U, SlotError>>(o: &Slot<T>, f: F) -> (r: Result<
    U,
    SlotError,
>)
    requires
        o.readable() && o.value is Some ==> f.requires((&o.value->Some_0,)),
    ensures
        !o.readable() ==> r == Err::<U, SlotError>(SlotError::LockUnavailable),
        o.readable() && o.value is None ==> r == Err::<U, SlotError>(SlotError::NoData),
        o.readable() && o.value is Some ==> f.ensures((&o.value->Some_0,), r),
{
    if o.writer {
        return Err(SlotError::LockUnavailable);
    }
    match &o.value {
        None => Err(SlotError::NoData),
        Some(t) => f(t),
    }
}

/// Applies `f` to the held value under an exclusive access; `f` hands the
/// value back, changed or not, together with its outcome.
pub fn write_opt<T, U, F: Fn(T) -> (T, Result<U, SlotError>)>(o: &mut Slot<T>, f: F) -> (r: Result<
    U,
    SlotError,
>)
    requires
        old(o).writable() && old(o).value is Some ==> f.requires((old(o).value->Some_0,)),
    ensures
        final(o).readers == old(o).readers,
        final(o).writer == old(o).writer,
        !old(o).writable() ==> r == Err::<U, SlotError>(SlotError::LockUnavailable)
            && final(o).value == old(o).value,
        old(o).writable() && old(o).value is None ==> r == Err::<U, SlotError>(SlotError::NoData)
            && final(o).value is None,
        old(o).writable() && old(o).value is Some ==> final(o).value is Some && f.ensures(
            (old(o).value->Some_0,),
            (final(o).value->Some_0, r),
        ),
{
    if o.writer || o.readers != 0 {
        return Err(SlotError::LockUnavailable);
    }
    match o.value.take() {
        None => Err(SlotError::NoData),
        Some(t) => {
            let (t2, r) = f(t);
            o.value = Some(t2);
            r
        },
    }
}

/// Like `write_opt`, but an empty slot is first given a value built by
/// `init`; that value is kept only if `f` succeeds on it.
pub fn write_opt_init<T, U, F: Fn(T) -> (T, Result<U, SlotError>), I: Fn() -> T>(
    o: &mut Slot<T>,
    f: F,
    init: I,
) -> (r: Result<U, SlotError>)
    requires
        old(o).writable() && old(o).value is None ==> init.requires(())
            && forall|t: T| init.ensures((), t) ==> f.requires((t,)),
        old(o).writable() && old(o).value is Some ==> f.requires((old(o).value->Some_0,)),
    ensures
        final(o).readers == old(o).readers,
        final(o).writer == old(o).writer,
        !old(o).writable() ==> r == Err::<U, SlotError>(SlotError::LockUnavailable)
            && final(o).value == old(o).value,
        old(o).writable() && old(o).value is None ==> exists|t: T, t2: T|
            init.ensures((), t) && f.ensures((t,), (t2, r)) && (r is Ok ==> final(o).value
                == Some(t2)) && (r is Err ==> final(o).value is None),
        old(o).writable() && old(o).value is Some ==> final(o).value is Some && f.ensures(
            (old(o).value->Some_0,),
            (final(o).value->Some_0, r),
        ),
{
    if o.writer || o.readers != 0 {
        return Err(SlotError::LockUnavailable);
    }
    match o.value.take() {
        None => {
            let t = init();
            let (t2, r) = f(t);
            if r.is_ok() {
                o.value = Some(t2);
            }
            r
        },
        Some(t) => {
            let (t2, r) = f(t);
            o.value = Some(t2);
            r
        },
    }
}

/// A slot under an exclusive hold grants no other access, shared or
/// exclusive: such an access fails at once with `LockUnavailable`.
pub proof fn held_slot_refuses_access<T>(s: Slot<T>)
    requires
        s.writer,
    ensures
        !s.writable(),
        !s.readable(),
{
}

} // verus!
