//! A fixed-capacity circular byte buffer ("ring buffer").
//!
//! A `RingBuf` owns a fixed-length backing region of `capacity + 1` bytes and
//! two cursors (a read position and a write position) that advance circularly
//! over it. The extra slot is sacrificed so that "full" and "empty" can be
//! told apart from the cursors alone. All operations are specified against an
//! abstract view of the buffer: the sequence of bytes currently held, in the
//! order they were written.

use vstd::prelude::*;

verus! {

/// Error conditions surfaced by ring buffer operations.
#[derive(Clone, Copy, Debug, PartialEq, Eq, Structural)]
pub enum RingBufError {
    /// The read position was asked to advance past the write position.
    InvalidSeek,
}

/// A fixed sized byte buffer connected end-to-end.
///
/// The backing region has length `capacity + 1`; the slot just before the
/// read position (circularly) is never occupied, which makes
/// `read_pos == write_pos` equivalent to emptiness.
pub struct RingBuf {
    data: Vec<u8>,
    read_pos: usize,
    write_pos: usize,
}

/// Reduces an offset in `[0, 2 * region_len)` into `[0, region_len)` by a
/// single conditional subtraction, mirroring how the cursors wrap.
pub open spec fn wrap_index(region_len: int, i: int) -> int {
    if i < region_len {
        i
    } else {
        i - region_len
    }
}

/// The number of bytes a transfer moves: all that is available, capped by
/// what was requested.
pub open spec fn xfer_count(avail: nat, requested: nat) -> nat {
    if avail <= requested {
        avail
    } else {
        requested
    }
}

/// How many bytes `write` accepts from `src` into a buffer that holds
/// `contents` and can hold `cap` bytes in all: the free space, capped by the
/// length of `src`.
pub open spec fn write_count(contents: Seq<u8>, cap: nat, src: Seq<u8>) -> nat {
    xfer_count((cap - contents.len()) as nat, src.len())
}

/// The buffer contents after `write`: the accepted prefix of `src` is
/// appended to what was already held.
pub open spec fn after_write(contents: Seq<u8>, cap: nat, src: Seq<u8>) -> Seq<u8> {
    contents + src.take(write_count(contents, cap, src) as int)
}

/// How many bytes `peek` and `read` copy out of a buffer that holds
/// `contents` into a destination of `dest_len` bytes.
pub open spec fn read_count(contents: Seq<u8>, dest_len: nat) -> nat {
    xfer_count(contents.len(), dest_len)
}

/// The destination after `peek` or `read`: the copied bytes land at its
/// beginning and the rest of it is untouched.
pub open spec fn read_into(contents: Seq<u8>, dest: Seq<u8>) -> Seq<u8> {
    contents.take(read_count(contents, dest.len()) as int) + dest.skip(
        read_count(contents, dest.len()) as int,
    )
}

/// The buffer contents after `read`: the copied bytes are consumed from the
/// front.
pub open spec fn after_read(contents: Seq<u8>, dest_len: nat) -> Seq<u8> {
    contents.skip(read_count(contents, dest_len) as int)
}

impl View for RingBuf {
    type V = Seq<u8>;

    /// The bytes currently held, oldest first.
    closed spec fn view(&self) -> Seq<u8> {
        Seq::new(
            self.spec_len(),
            |i: int| self.data@[wrap_index(self.data@.len() as int, self.read_pos + i)],
        )
    }
}

impl RingBuf {
    /// Well-formedness: the backing region is nonempty and both cursors lie
    /// inside it. Constructors establish this and every method preserves it.
    pub closed spec fn wf(&self) -> bool {
        &&& self.data@.len() >= 1
        &&& self.read_pos < self.data@.len()
        &&& self.write_pos < self.data@.len()
    }

    /// The number of bytes the buffer can hold: one less than the backing
    /// region's length.
    pub closed spec fn spec_capacity(&self) -> nat {
        (self.data@.len() - 1) as nat
    }

    /// The number of bytes held, computed from the cursors.
    closed spec fn spec_len(&self) -> nat {
        if self.read_pos > self.write_pos {
            (self.data@.len() - self.read_pos + self.write_pos) as nat
        } else {
            (self.write_pos - self.read_pos) as nat
        }
    }

    /// A well-formed buffer never holds more than its capacity.
    pub proof fn lemma_len_le_capacity(&self)
        requires
            self.wf(),
        ensures
            self@.len() <= self.spec_capacity(),
    {
    }

    /// Constructs a new, empty `RingBuf` with the specified capacity.
    /// The underlying region will be of length `capacity + 1`.
    pub fn with_capacity(capacity: usize) -> (r: RingBuf)
        requires
            capacity < usize::MAX,
        ensures
            r.wf(),
            r.spec_capacity() == capacity,
            r@ == Seq::<u8>::empty(),
    {
        let data: Vec<u8> = vec![0u8; capacity + 1];
        let r = RingBuf { data, read_pos: 0, write_pos: 0 };
        proof {
            assert(r@ =~= Seq::<u8>::empty());
        }
        r
    }

    /// Returns the number of bytes the ring buffer can hold.
    pub fn capacity(&self) -> (r: usize)
        requires
            self.wf(),
        ensures
            r == self.spec_capacity(),
    {
        self.data.len() - 1
    }

    /// Returns the number of bytes in the ring buffer, also referred to
    /// as its 'length'.
    pub fn len(&self) -> (r: usize)
        requires
            self.wf(),
        ensures
            r == self@.len(),
    {
        if self.read_pos > self.write_pos {
            self.data.len() - self.read_pos + self.write_pos
        } else {
            self.write_pos - self.read_pos
        }
    }

    /// Creates a ring buffer with the given bytes as backing region.
    /// One slot is sacrificed as the sentinel, so the capacity is one byte
    /// less than the length of the region; the buffer starts empty. A
    /// zero-length region would leave no room for the sentinel and is
    /// rejected by the precondition.
    pub fn from_region(region: Vec<u8>) -> (r: RingBuf)
        requires
            region@.len() >= 1,
        ensures
            r.wf(),
            r.spec_capacity() == region@.len() - 1,
            r@ == Seq::<u8>::empty(),
    {
        let r = RingBuf { data: region, read_pos: 0, write_pos: 0 };
        proof {
            assert(r@ =~= Seq::<u8>::empty());
        }
        r
    }

    /// Creates a ring buffer holding exactly the given bytes, in order.
    /// A sentinel byte is appended to the region, so the capacity equals the
    /// length of the input and the buffer starts full.
    pub fn from_vec(bytes: Vec<u8>) -> (r: RingBuf)
        requires
            bytes@.len() < usize::MAX,
        ensures
            r.wf(),
            r.spec_capacity() == bytes@.len(),
            r@ == bytes@,
    {
        let ghost supplied = bytes@;
        let mut data = bytes;
        data.push(0);
        let write_pos = data.len() - 1;
        let r = RingBuf { data, read_pos: 0, write_pos };
        proof {
            assert(r@ =~= supplied);
        }
        r
    }

    /// Clears the ring buffer, resetting the read and write position to 0.
    /// The bytes in the backing region are not zeroed; they are logically
    /// discarded.
    pub fn clear(&mut self)
        requires
            old(self).wf(),
        ensures
            final(self).wf(),
            final(self).spec_capacity() == old(self).spec_capacity(),
            final(self)@ == Seq::<u8>::empty(),
    {
        self.read_pos = 0;
        self.write_pos = 0;
        proof {
            assert(self@ =~= Seq::<u8>::empty());
        }
    }

    /// Advances the read position by `count`, logically discarding that many
    /// bytes from the front without copying them out. The read position
    /// can't go past the write position: if `count` exceeds the current
    /// length the call fails with `InvalidSeek` and the buffer is left
    /// unchanged. Advancing by exactly the current length empties the buffer.
    pub fn advance_read_pos(&mut self, count: usize) -> (res: Result<(), RingBufError>)
        requires
            old(self).wf(),
        ensures
            final(self).wf(),
            final(self).spec_capacity() == old(self).spec_capacity(),
            res matches Ok(_) <==> count <= old(self)@.len(),
            count <= old(self)@.len() ==> final(self)@ == old(self)@.skip(count as int),
            count == old(self)@.len() ==> final(self)@ == Seq::<u8>::empty(),
            count > old(self)@.len() ==> *final(self) == *old(self) && res == Err::<
                (),
                RingBufError,
            >(RingBufError::InvalidSeek),
    {
        if count > self.len() {
            return Err(RingBufError::InvalidSeek);
        }

        let bytes_until_end = self.data.len() - self.read_pos;
        if count >= bytes_until_end {
            self.read_pos = count - bytes_until_end;
        } else {
            self.read_pos = self.read_pos + count;
        }

        proof {
            assert(self@ =~= old(self)@.skip(count as int));
            assert(old(self)@.skip(old(self)@.len() as int) =~= Seq::<u8>::empty());
        }
        Ok(())
    }

    /// Returns `true` if the ring buffer doesn't contain any bytes.
    pub fn is_empty(&self) -> (r: bool)
        requires
            self.wf(),
        ensures
            r == (self@.len() == 0),
    {
        self.read_pos == self.write_pos
    }

    /// Reads from the ring buffer without advancing the read position.
    /// Copies `min(len(), dest.len())` bytes from the front of the buffer
    /// into the beginning of `dest`, handling wraparound, and returns the
    /// number of bytes peeked. Never fails: a zero-length destination or an
    /// empty buffer yields `Ok(0)`.
    pub fn peek(&self, dest: &mut Vec<u8>) -> (res: Result<usize, RingBufError>)
        requires
            self.wf(),
        ensures
            final(dest)@.len() == old(dest)@.len(),
            res == Ok::<usize, RingBufError>(read_count(self@, old(dest)@.len()) as usize),
            final(dest)@ == read_into(self@, old(dest)@),
    {
        let buffered = self.len();
        let to_read = if buffered <= dest.len() {
            buffered
        } else {
            dest.len()
        };
        let mut i: usize = 0;
        while i < to_read
            invariant
                self.wf(),
                to_read == xfer_count(self@.len(), old(dest)@.len()),
                to_read <= self@.len(),
                i <= to_read,
                dest@.len() == old(dest)@.len(),
                to_read <= dest@.len(),
                forall|j: int| 0 <= j < i ==> dest@[j] == self@[j],
                forall|j: int| i <= j < dest@.len() ==> dest@[j] == old(dest)@[j],
            decreases to_read - i,
        {
            let bytes_until_end = self.data.len() - self.read_pos;
            let src_idx = if i >= bytes_until_end {
                i - bytes_until_end
            } else {
                self.read_pos + i
            };
            dest[i] = self.data[src_idx];
            i = i + 1;
        }
        proof {
            let n = to_read as int;
            assert(dest@ =~= self@.take(n) + old(dest)@.skip(n));
        }
        Ok(to_read)
    }

    /// Reads and consumes bytes from the ring buffer: a `peek` followed by
    /// advancing the read position by the number of bytes peeked. A partial
    /// read (fewer bytes than `dest.len()`) signals that no more data is
    /// currently available; a return of `Ok(0)` means the buffer was empty.
    pub fn read(&mut self, dest: &mut Vec<u8>) -> (res: Result<usize, RingBufError>)
        requires
            old(self).wf(),
        ensures
            final(self).wf(),
            final(self).spec_capacity() == old(self).spec_capacity(),
            final(dest)@.len() == old(dest)@.len(),
            res == Ok::<usize, RingBufError>(read_count(old(self)@, old(dest)@.len()) as usize),
            final(dest)@ == read_into(old(self)@, old(dest)@),
            final(self)@ == after_read(old(self)@, old(dest)@.len()),
    {
        proof {
            // The destination is a Vec, so its length fits in usize; this
            // lets the count returned by peek be equated with read_count.
            assert(dest@.len() == dest.len());
        }
        let bytes_read = match self.peek(dest) {
            Ok(n) => n,
            Err(e) => {
                return Err(e);
            },
        };
        match self.advance_read_pos(bytes_read) {
            Ok(_) => Ok(bytes_read),
            Err(e) => Err(e),
        }
    }

    /// Writes bytes into the ring buffer. Copies
    /// `min(capacity() - len(), src.len())` bytes from the front of `src`
    /// into the free space, handling wraparound, and advances the write
    /// position by that count. A short write (fewer bytes than `src.len()`)
    /// signals that the buffer reached capacity — not an error.
    pub fn write(&mut self, src: &[u8]) -> (res: Result<usize, RingBufError>)
        requires
            old(self).wf(),
        ensures
            final(self).wf(),
            final(self).spec_capacity() == old(self).spec_capacity(),
            res == Ok::<usize, RingBufError>(
                write_count(old(self)@, old(self).spec_capacity(), src@) as usize,
            ),
            final(self)@ == after_write(old(self)@, old(self).spec_capacity(), src@),
    {
        proof {
            self.lemma_len_le_capacity();
        }
        let cap = self.capacity();
        let buffered = self.len();
        let free = cap - buffered;
        let to_write = if free <= src.len() {
            free
        } else {
            src.len()
        };
        let ghost region_len = self.data@.len() as int;
        let ghost r0 = self.read_pos as int;
        let mut i: usize = 0;
        while i < to_write
            invariant
                self.wf(),
                self.read_pos == old(self).read_pos,
                self.write_pos == old(self).write_pos,
                self.data@.len() == old(self).data@.len(),
                region_len == self.data@.len() as int,
                r0 == self.read_pos as int,
                buffered == self@.len(),
                to_write <= src@.len(),
                buffered + to_write <= self.spec_capacity(),
                i <= to_write,
                forall|j: int|
                    0 <= j < i ==> self.data@[wrap_index(region_len, r0 + buffered + j)] == src@[j],
                forall|k: int|
                    0 <= k < buffered ==> #[trigger] self.data@[wrap_index(region_len, r0 + k)]
                        == old(self).data@[wrap_index(region_len, r0 + k)],
            decreases to_write - i,
        {
            let bytes_until_end = self.data.len() - self.write_pos;
            let dst_idx = if i >= bytes_until_end {
                i - bytes_until_end
            } else {
                self.write_pos + i
            };
            self.data[dst_idx] = src[i];
            i = i + 1;
        }
        let bytes_until_end = self.data.len() - self.write_pos;
        if to_write >= bytes_until_end {
            self.write_pos = to_write - bytes_until_end;
        } else {
            self.write_pos = self.write_pos + to_write;
        }
        proof {
            assert(self@ =~= old(self)@ + src@.take(to_write as int));
        }
        Ok(to_write)
    }

    /// Returns the current read position within the backing region.
    pub fn read_pos(&self) -> (r: usize)
        ensures
            r == self.spec_read_pos(),
    {
        self.read_pos
    }

    /// Returns the current write position within the backing region.
    pub fn write_pos(&self) -> (r: usize)
        ensures
            r == self.spec_write_pos(),
    {
        self.write_pos
    }

    /// The read cursor's offset into the backing region.
    pub closed spec fn spec_read_pos(&self) -> nat {
        self.read_pos as nat
    }

    /// The write cursor's offset into the backing region.
    pub closed spec fn spec_write_pos(&self) -> nat {
        self.write_pos as nat
    }

    /// Flushing is a no-op that always succeeds: there is no downstream
    /// buffering behind the ring buffer.
    pub fn flush(&mut self) -> (res: Result<(), RingBufError>)
        requires
            old(self).wf(),
        ensures
            *final(self) == *old(self),
            res == Ok::<(), RingBufError>(()),
    {
        Ok(())
    }
}

/// Write-then-read round trip: a sequence `s` that fits within the capacity
/// of an empty buffer is accepted by `write` in full, and a subsequent
/// `read` into a destination of at least `s.len()` bytes copies `s` back out
/// unchanged and leaves the buffer empty.
pub proof fn lemma_write_then_read_round_trip(cap: nat, s: Seq<u8>, dest: Seq<u8>)
    requires
        s.len() <= cap,
        dest.len() >= s.len(),
    ensures
        write_count(Seq::<u8>::empty(), cap, s) == s.len(),
        after_write(Seq::<u8>::empty(), cap, s) == s,
        read_count(s, dest.len()) == s.len(),
        read_into(s, dest) == s + dest.skip(s.len() as int),
        after_read(s, dest.len()) == Seq::<u8>::empty(),
{
    assert(after_write(Seq::<u8>::empty(), cap, s) =~= s);
    assert(read_into(s, dest) =~= s + dest.skip(s.len() as int));
    assert(after_read(s, dest.len()) =~= Seq::<u8>::empty());
}

/// Short-write semantics: writing a sequence longer than the remaining free
/// space transfers exactly `cap - contents.len()` bytes — the prefix of the
/// input — and fills the buffer to capacity.
pub proof fn lemma_short_write(contents: Seq<u8>, cap: nat, src: Seq<u8>)
    requires
        contents.len() <= cap,
        src.len() > cap - contents.len(),
    ensures
        write_count(contents, cap, src) == cap - contents.len(),
        after_write(contents, cap, src) == contents + src.take((cap - contents.len()) as int),
        after_write(contents, cap, src).len() == cap,
{
}

/// Short-read/empty semantics: a `peek` or `read` on an empty buffer, or
/// into a zero-length destination, transfers nothing: the destination and
/// the buffer contents are both left as they were.
pub proof fn lemma_read_empty_or_zero_dest(contents: Seq<u8>, dest: Seq<u8>)
    requires
        contents.len() == 0 || dest.len() == 0,
    ensures
        read_count(contents, dest.len()) == 0,
        read_into(contents, dest) == dest,
        after_read(contents, dest.len()) == contents,
{
    assert(read_into(contents, dest) =~= dest);
    assert(after_read(contents, dest.len()) =~= contents);
}

} // verus!
