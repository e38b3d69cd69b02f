//! Pipes: a byte stream over a bounded ring buffer with a writing and a
//! reading end.  A full pipe blocks its writer and an empty pipe blocks
//! its reader; the machine-facing layer decides how to wait, the library
//! decides what to transfer.
use vstd::prelude::*;

use ringbuffer::AllocRingBuffer;

verus! {

#[verifier::external_type_specification]
#[verifier::external_body]
#[verifier::reject_recursive_types(T)]
pub struct ExAllocRingBuffer<T>(AllocRingBuffer<T>);

/// The bytes a pipe's ring buffer holds, oldest first.
pub uninterp spec fn rb_bytes(rb: AllocRingBuffer<u8>) -> Seq<u8>;

/// The capacity a pipe's ring buffer was created with.
pub uninterp spec fn rb_capacity(rb: AllocRingBuffer<u8>) -> nat;

/// Relies on `AllocRingBuffer::new`: a fresh buffer holds nothing and
/// remembers the requested capacity, which must not be zero.
#[verifier::external_body]
fn rb_new(capacity: usize) -> (r: AllocRingBuffer<u8>)
    requires
        capacity >= 1,
    ensures
        rb_bytes(r) == Seq::<u8>::empty(),
        rb_capacity(r) == capacity,
{
    AllocRingBuffer::new(capacity)
}

/// Relies on `RingBuffer::len` for `AllocRingBuffer`: the number of
/// elements held.
#[verifier::external_body]
fn rb_len(rb: &AllocRingBuffer<u8>) -> (r: usize)
    ensures
        r == rb_bytes(*rb).len(),
{
    ringbuffer::RingBuffer::len(rb)
}

/// Relies on `RingBuffer::capacity` for `AllocRingBuffer`: the capacity
/// it was created with.
#[verifier::external_body]
fn rb_capacity_of(rb: &AllocRingBuffer<u8>) -> (r: usize)
    ensures
        r == rb_capacity(*rb),
{
    ringbuffer::RingBuffer::capacity(rb)
}

/// Relies on `RingBuffer::is_full` for `AllocRingBuffer`: whether the
/// buffer holds as many elements as its capacity.
#[verifier::external_body]
fn rb_is_full(rb: &AllocRingBuffer<u8>) -> (r: bool)
    ensures
        r == (rb_bytes(*rb).len() == rb_capacity(*rb)),
{
    ringbuffer::RingBuffer::is_full(rb)
}

/// Relies on `RingBuffer::is_empty` for `AllocRingBuffer`: whether the
/// buffer holds nothing.
#[verifier::external_body]
fn rb_is_empty(rb: &AllocRingBuffer<u8>) -> (r: bool)
    ensures
        r == (rb_bytes(*rb).len() == 0),
{
    ringbuffer::RingBuffer::is_empty(rb)
}

/// Relies on `RingBuffer::enqueue` for `AllocRingBuffer`: the value is
/// appended; when the buffer is already full the oldest element is
/// dropped to make room and handed back.
#[verifier::external_body]
fn rb_enqueue(rb: &mut AllocRingBuffer<u8>, value: u8) -> (r: Option<u8>)
    ensures
        rb_capacity(*final(rb)) == rb_capacity(*old(rb)),
        rb_bytes(*old(rb)).len() < rb_capacity(*old(rb)) ==> rb_bytes(*final(rb)) == rb_bytes(
            *old(rb),
        ).push(value) && r is None,
        rb_bytes(*old(rb)).len() >= rb_capacity(*old(rb)) ==> rb_bytes(*final(rb)) == rb_bytes(
            *old(rb),
        ).drop_first().push(value) && r == Some(rb_bytes(*old(rb))[0]),
{
    ringbuffer::RingBuffer::enqueue(rb, value)
}

/// Relies on `RingBuffer::dequeue` for `AllocRingBuffer`: the oldest
/// element is removed and returned; an empty buffer stays empty.
#[verifier::external_body]
fn rb_dequeue(rb: &mut AllocRingBuffer<u8>) -> (r: Option<u8>)
    ensures
        rb_capacity(*final(rb)) == rb_capacity(*old(rb)),
        rb_bytes(*old(rb)).len() == 0 ==> r is None && rb_bytes(*final(rb)) == rb_bytes(*old(rb)),
        rb_bytes(*old(rb)).len() > 0 ==> r == Some(rb_bytes(*old(rb))[0]) && rb_bytes(*final(rb))
            == rb_bytes(*old(rb)).drop_first(),
{
    ringbuffer::RingBuffer::dequeue(rb)
}

/// A pipe: its buffered bytes plus the two blocking marks — whether the
/// writing or the reading side is suspended waiting for the other.
pub struct Pipe {
    pub w_lock: bool,
    pub r_lock: bool,
    pub nonblocking: i32,
    pub buffer: AllocRingBuffer<u8>,
}

impl Pipe {
    /// The bytes currently buffered, oldest first.
    pub open spec fn contents(self) -> Seq<u8> {
        rb_bytes(self.buffer)
    }

    /// The pipe's capacity.
    pub open spec fn capacity(self) -> nat {
        rb_capacity(self.buffer)
    }

    /// A pipe never holds more than its capacity, which is at least one.
    pub open spec fn wf(self) -> bool {
        self.contents().len() <= self.capacity() && self.capacity() >= 1
    }

    /// A pipe over a fresh buffer of the given capacity, which must not
    /// be zero.
    pub fn new(size: usize) -> (r: Pipe)
        requires
            size >= 1,
        ensures
            r.wf(),
            r.contents() == Seq::<u8>::empty(),
            r.capacity() == size,
            !r.w_lock,
            !r.r_lock,
    {
        Pipe { w_lock: false, r_lock: false, nonblocking: 0, buffer: rb_new(size) }
    }

    /// Write from `buffer` into the pipe until either everything is
    /// written or the pipe is full.  Returns how many bytes went in; a
    /// second value of true means the writer must block — the pipe filled
    /// up with input left over — and marks the writing side suspended.
    /// At least one written byte releases a blocked reader.
    pub fn write(&mut self, buffer: &[u8]) -> (r: (usize, bool))
        requires
            old(self).wf(),
        ensures
            final(self).wf(),
            final(self).capacity() == old(self).capacity(),
            r.0 <= buffer@.len(),
            final(self).contents() == old(self).contents() + buffer@.take(r.0 as int),
            r.1 == (r.0 < buffer@.len()),
            r.1 ==> final(self).contents().len() == final(self).capacity() && final(self).w_lock,
            r.0 > 0 ==> !final(self).r_lock,
    {
        let ghost c0 = self.contents();
        let mut written: usize = 0;
        proof {
            assert(c0 + buffer@.take(0) =~= c0);
        }
        while written < buffer.len()
            invariant
                self.capacity() == old(self).capacity(),
                old(self).capacity() >= 1,
                written <= buffer@.len(),
                self.contents() == c0 + buffer@.take(written as int),
                self.contents().len() <= self.capacity(),
                c0 == old(self).contents(),
                c0.len() <= self.capacity(),
                self.w_lock == old(self).w_lock,
                self.r_lock == old(self).r_lock,
            decreases buffer@.len() - written,
        {
            if rb_is_full(&self.buffer) {
                self.w_lock = true;
                proof {
                    assert(self.contents() =~= old(self).contents() + buffer@.take(
                        written as int,
                    ));
                }
                if written > 0 {
                    self.r_lock = false;
                }
                return (written, true);
            }
            let b = buffer[written];
            rb_enqueue(&mut self.buffer, b);
            written += 1;
            proof {
                assert(c0 + buffer@.take(written as int) =~= (c0 + buffer@.take(
                    written - 1,
                )).push(b));
            }
        }
        proof {
            assert(self.contents() =~= old(self).contents() + buffer@.take(written as int));
        }
        if written > 0 {
            self.r_lock = false;
        }
        (written, false)
    }

    /// Read from the pipe into `buffer`, at most as many bytes as are
    /// buffered and at most the buffer's length.  Returns how many bytes
    /// came out; a second value of true means the reader must block — the
    /// pipe was empty — and marks the reading side suspended.  A read
    /// releases a blocked writer.
    pub fn read(&mut self, buffer: &mut Vec<u8>) -> (r: (usize, bool))
        requires
            old(self).wf(),
        ensures
            final(self).wf(),
            final(self).capacity() == old(self).capacity(),
            r.1 == (old(self).contents().len() == 0),
            r.1 ==> r.0 == 0 && final(self).contents() == old(self).contents()
                && final(self).r_lock && final(buffer)@ == old(buffer)@,
            !r.1 ==> {
                &&& r.0 == if old(buffer)@.len() <= old(self).contents().len() {
                    old(buffer)@.len() as int
                } else {
                    old(self).contents().len() as int
                }
                &&& final(self).contents() == old(self).contents().skip(r.0 as int)
                &&& final(buffer)@ == old(self).contents().take(r.0 as int) + old(buffer)@.skip(
                    r.0 as int,
                )
                &&& !final(self).w_lock
            },
    {
        if rb_is_empty(&self.buffer) {
            self.r_lock = true;
            return (0, true);
        }
        let available = rb_len(&self.buffer);
        let reading = if buffer.len() < available {
            buffer.len()
        } else {
            available
        };
        let ghost c0 = self.contents();
        let ghost b0 = buffer@;
        let mut i: usize = 0;
        proof {
            assert(c0.take(0) + b0.skip(0) =~= b0);
        }
        while i < reading
            invariant
                reading <= c0.len(),
                reading <= b0.len(),
                i <= reading,
                self.capacity() == old(self).capacity(),
                self.contents() == c0.skip(i as int),
                buffer@ == c0.take(i as int) + b0.skip(i as int),
                c0 == old(self).contents(),
                b0 == old(buffer)@,
                self.w_lock == old(self).w_lock,
                self.r_lock == old(self).r_lock,
            decreases reading - i,
        {
            let byte = match rb_dequeue(&mut self.buffer) {
                Some(b) => b,
                None => {
                    proof {
                        assert(false);
                    }
                    0
                },
            };
            buffer.set(i, byte);
            i += 1;
            proof {
                assert(c0.skip(i - 1).drop_first() =~= c0.skip(i as int));
                assert(c0.take(i as int) + b0.skip(i as int) =~= (c0.take(i - 1) + b0.skip(
                    i - 1,
                )).update(i - 1, byte));
            }
        }
        self.w_lock = false;
        (reading, false)
    }
}

} // verus!
