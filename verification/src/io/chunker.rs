//! The windowed reader: it turns a source into a run of bounded windows,
//! each with its offset in the whole stream, and each beginning with the
//! last `overlap` bytes of the one before, so that an occurrence that
//! crosses the end of one window lies whole in the next.

use vstd::prelude::*;
use crate::engine::Source;

verus! {

/// The buffer is never made smaller than this, however small the windows.
pub const MIN_CAPACITY: usize = 4096;

/// Why a reader could not be made.
#[derive(Clone, Copy, Debug, PartialEq, Eq)]
pub enum ConfigError {
    /// A window must take in at least one new byte, or the reader would
    /// never move.
    ZeroChunkSize,
    /// Chunk size and overlap together are more than a buffer can hold.
    WindowTooLarge,
}

/// An offset as the reader reports it: the offset itself, or the largest
/// `u64` where the stream has run past what a `u64` can count.
pub open spec fn saturate(at: int) -> u64 {
    if at < 0 {
        0
    } else if at > u64::MAX {
        u64::MAX
    } else {
        at as u64
    }
}

/// A reader of overlapping windows over a source.
pub struct Chunker<'a, R: Source> {
    reader: &'a mut R,
    /// Working buffer, `chunk_size + overlap` bytes or more.
    buf: Vec<u8>,
    /// How many new bytes a window takes in at most.
    chunk_size: usize,
    /// How many bytes of a window are carried into the next.
    overlap: usize,
    /// How many bytes at the front of `buf` are the current window.
    len: usize,
    /// The source has reported its end.
    eof: bool,
    /// Offset of the current window in the stream.
    next_global_off: u64,
    /// The whole stream: what the source held when the reader was made.
    stream: Ghost<Seq<u8>>,
    /// How many bytes of the stream have been taken from the source.
    consumed: Ghost<nat>,
}

/// Moves the `count` bytes that start at `from` to the front of `buf`.
fn move_to_front(buf: &mut Vec<u8>, from: usize, count: usize)
    requires
        from + count <= old(buf)@.len(),
    ensures
        final(buf)@.len() == old(buf)@.len(),
        final(buf)@.take(count as int) == old(buf)@.subrange(from as int, from + count),
{
    let total: usize = buf.len();
    let mut i: usize = 0;
    while i < count
        invariant
            i <= count,
            from + count <= total,
            buf@.len() == total,
            total == old(buf)@.len(),
            forall|j: int| 0 <= j < i ==> buf@[j] == old(buf)@[from + j],
            forall|j: int| i <= j < buf@.len() ==> buf@[j] == old(buf)@[j],
        decreases count - i,
    {
        let byte: u8 = buf[from + i];
        buf[i] = byte;
        i = i + 1;
    }
    assert(buf@.take(count as int) =~= old(buf)@.subrange(from as int, from + count));
}

impl<'a, R: Source> Chunker<'a, R> {
    /// The source that this reader draws from.
    pub closed spec fn source(&self) -> &'a mut R {
        self.reader
    }

    /// The stream from its first byte to its last, as the source held it
    /// when the reader was made.
    pub closed spec fn stream(&self) -> Seq<u8> {
        self.stream@
    }

    /// How many bytes of the stream the reader has taken from the source.
    pub closed spec fn consumed(&self) -> nat {
        self.consumed@
    }

    /// Offset in the stream of the first byte of the current window.
    pub closed spec fn position(&self) -> int {
        self.consumed@ - self.len
    }

    /// The current window.
    pub closed spec fn window(&self) -> Seq<u8> {
        self.buf@.take(self.len as int)
    }

    /// How many new bytes a window takes in at most.
    pub closed spec fn chunk_size(&self) -> nat {
        self.chunk_size as nat
    }

    /// How many bytes of a window are carried into the next.
    pub closed spec fn overlap(&self) -> nat {
        self.overlap as nat
    }

    /// How many bytes the buffer holds.
    pub closed spec fn capacity(&self) -> nat {
        self.buf@.len()
    }

    /// The source has reported its end. It is not read again.
    pub closed spec fn source_ended(&self) -> bool {
        self.eof
    }

    /// The reader has reported the end of the stream: the source has
    /// reported its end and no window is held. Every further call reports
    /// the end again.
    pub open spec fn ended(&self) -> bool {
        self.source_ended() && self.position() == self.consumed()
    }

    /// The fields agree with one another and with the offsets above.
    pub closed spec fn well_formed(&self) -> bool {
        &&& self.chunk_size + self.overlap <= self.buf@.len()
        &&& self.len <= self.chunk_size + self.overlap
        &&& self.len <= self.consumed@
        &&& self.next_global_off == saturate(self.consumed@ - self.len)
        &&& self.eof ==> self.consumed@ == self.stream@.len()
        &&& !self.eof && self.len < self.overlap ==> self.consumed@ == self.len
    }

    /// What holds of a reader between calls: the window is the piece of the
    /// stream that ends where reading has got to, and the source holds the
    /// rest of the stream.
    pub open spec fn inv(&self) -> bool {
        &&& self.well_formed()
        &&& self.chunk_size() >= 1
        &&& 0 <= self.position() <= self.consumed() <= self.stream().len()
        &&& self.consumed() - self.position() <= self.chunk_size() + self.overlap()
        &&& self.window() == self.stream().subrange(self.position(), self.consumed() as int)
        &&& self.source().remaining() == self.stream().skip(self.consumed() as int)
        &&& self.source_ended() ==> self.consumed() == self.stream().len()
    }

    /// Makes a reader over `reader` whose windows take in up to `chunk_size`
    /// new bytes each and carry `overlap` bytes from one to the next.
    ///
    /// A chunk size of zero is refused, and so are a chunk size and an
    /// overlap that no buffer could hold together.
    pub fn new(reader: &'a mut R, chunk_size: usize, overlap: usize) -> (made: Result<
        Self,
        ConfigError,
    >)
        ensures
            match made {
                Ok(chunker) => {
                    &&& chunk_size >= 1
                    &&& chunk_size + overlap <= usize::MAX
                    &&& chunker.inv()
                    &&& chunker.chunk_size() == chunk_size
                    &&& chunker.overlap() == overlap
                    &&& chunker.capacity() == if chunk_size + overlap < MIN_CAPACITY {
                        MIN_CAPACITY as nat
                    } else {
                        (chunk_size + overlap) as nat
                    }
                    &&& chunker.stream() == old(reader).remaining()
                    &&& chunker.consumed() == 0
                    &&& chunker.position() == 0
                    &&& !chunker.source_ended()
                    &&& *chunker.source() == *old(reader)
                    &&& *final(chunker.source()) == *final(reader)
                },
                Err(ConfigError::ZeroChunkSize) => chunk_size == 0 && *final(reader) == *old(
                    reader,
                ),
                Err(ConfigError::WindowTooLarge) => chunk_size >= 1 && chunk_size + overlap
                    > usize::MAX && *final(reader) == *old(reader),
            },
    {
        if chunk_size == 0 {
            return Err(ConfigError::ZeroChunkSize);
        }
        let needed: usize = match chunk_size.checked_add(overlap) {
            Some(sum) => sum,
            None => {
                return Err(ConfigError::WindowTooLarge);
            },
        };
        let cap: usize = if needed < MIN_CAPACITY {
            MIN_CAPACITY
        } else {
            needed
        };
        let ghost stream = reader.remaining();
        let chunker = Chunker {
            reader,
            buf: vec![0u8; cap],
            chunk_size,
            overlap,
            len: 0,
            eof: false,
            next_global_off: 0,
            stream: Ghost(stream),
            consumed: Ghost(0nat),
        };
        assert(chunker.window() =~= stream.subrange(0, 0));
        assert(stream.skip(0) =~= stream);
        Ok(chunker)
    }

    /// A reader that is no longer used has left its source as the source
    /// will stay.
    pub proof fn lemma_source_settled(self)
        requires
            has_resolved(self),
        ensures
            *final(self.source()) == *self.source(),
    {
    }

    /// Reads the next window.
    ///
    /// Returns the window's offset in the stream and its bytes: the last
    /// `overlap` bytes of the window before (all of it, if it was shorter)
    /// followed by up to `chunk_size` new bytes, fewer only where the stream
    /// ends. Returns `None` once the source has no new byte to give, and
    /// then on every further call. A source is asked again until the window
    /// is full or the source is at its end; after it has reported its end it
    /// is not asked again.
    ///
    /// A read that fails ends the call with the source's error. The reader
    /// is spent then: it says how far the source was read, and promises no
    /// more windows.
    pub fn next_chunk(&mut self) -> (next: Result<Option<(u64, &[u8])>, std::io::Error>)
        requires
            old(self).inv(),
        ensures
            *final(final(self).source()) == *final(old(self).source()),
            final(self).stream() == old(self).stream(),
            final(self).chunk_size() == old(self).chunk_size(),
            final(self).overlap() == old(self).overlap(),
            final(self).capacity() == old(self).capacity(),
            old(self).source().reliable() ==> next is Ok && final(self).source().reliable(),
            old(self).source_ended() ==> (next matches Ok(None)) && *final(self).source() == *old(
                self,
            ).source(),
            next is Ok ==> final(self).inv() && final(self).position() >= old(self).position(),
            match next {
                Ok(Some((offset, bytes))) => {
                    &&& old(self).consumed() < old(self).stream().len()
                    &&& final(self).consumed() == if old(self).consumed() + old(
                        self,
                    ).chunk_size() <= old(self).stream().len() {
                        old(self).consumed() + old(self).chunk_size()
                    } else {
                        old(self).stream().len()
                    }
                    &&& final(self).position() == if old(self).consumed() >= old(self).overlap() {
                        old(self).consumed() - old(self).overlap()
                    } else {
                        0
                    }
                    &&& offset == saturate(final(self).position())
                    &&& bytes@ == final(self).window()
                    &&& 0 < bytes@.len() <= old(self).chunk_size() + old(self).overlap()
                    &&& bytes@ == {
                        let carried = old(self).consumed() - final(self).position();
                        let taken = final(self).consumed() - old(self).consumed();
                        old(self).window().skip(old(self).window().len() - carried) + old(
                            self,
                        ).source().remaining().take(taken)
                    }
                },
                Ok(None) => {
                    &&& old(self).consumed() == old(self).stream().len()
                    &&& final(self).consumed() == old(self).consumed()
                    &&& final(self).ended()
                },
                Err(_) => {
                    &&& !old(self).source().reliable()
                    &&& !old(self).source_ended()
                    &&& old(self).consumed() <= final(self).consumed() < old(self).consumed() + old(
                        self,
                    ).chunk_size()
                    &&& final(self).consumed() <= final(self).stream().len()
                    &&& final(self).source().remaining() == final(self).stream().skip(
                        final(self).consumed() as int,
                    )
                },
            },
    {
        if self.eof && self.len == 0 {
            return Ok(None);
        }
        let ghost stream = self.stream@;
        let ghost before = self.consumed@;
        let ghost window = self.window();
        let chunk_size: usize = self.chunk_size;
        let cap: usize = self.buf.len();

        // Carry the tail of the last window to the front of the buffer.
        let carry: usize = if self.len < self.overlap {
            self.len
        } else {
            self.overlap
        };
        let advanced: usize = self.len - carry;
        self.next_global_off = self.next_global_off.saturating_add(advanced as u64);
        move_to_front(&mut self.buf, advanced, carry);
        self.len = carry;
        assert(self.buf@.take(carry as int) =~= stream.subrange(before - carry, before as int)) by {
            assert(old(self).buf@.subrange(advanced as int, advanced + carry) =~= window.subrange(
                advanced as int,
                advanced + carry,
            ));
        }

        // Take in up to `chunk_size` new bytes behind the carried ones.
        let mut filled: usize = 0;
        while filled < chunk_size && !self.eof
            invariant
                stream == old(self).stream@,
                before == old(self).consumed@,
                cap == old(self).buf@.len(),
                chunk_size == old(self).chunk_size,
                old(self).eof ==> self.eof && *self.reader == *old(self).reader,
                self.chunk_size == chunk_size,
                self.overlap == old(self).overlap,
                self.len == carry,
                self.next_global_off == saturate(before - carry),
                self.stream@ == stream,
                self.consumed@ == before,
                self.buf@.len() == cap,
                carry <= self.overlap,
                carry <= before,
                chunk_size + self.overlap <= cap,
                filled <= chunk_size,
                before + filled <= stream.len(),
                self.buf@.take(carry + filled) == stream.subrange(
                    before - carry,
                    before + filled,
                ),
                self.reader.remaining() == stream.skip(before + filled),
                self.eof ==> before + filled == stream.len(),
                *final(self.reader) == *final(old(self).reader),
                old(self).reader.reliable() ==> self.reader.reliable(),
            decreases
                    chunk_size - filled + if self.eof {
                        0int
                    } else {
                        1int
                    },
        {
            let start: usize = carry + filled;
            let room: usize = chunk_size - filled;
            let ghost held = self.buf@;
            let ghost rest = self.reader.remaining();
            let whole = self.buf.as_mut_slice();
            let (_kept, free) = whole.split_at_mut(start);
            let (dst, _spare) = free.split_at_mut(room);
            match self.reader.read(dst) {
                Err(e) => {
                    proof {
                        self.consumed = Ghost((before + filled) as nat);
                    }
                    return Err(e);
                },
                Ok(n) => {
                    assert(self.buf@.len() == cap);
                    assert(self.buf@.take(start as int) =~= held.take(start as int));
                    assert(self.buf@.subrange(start as int, start + n) =~= rest.take(n as int));
                    assert(self.buf@.take(start + n) =~= stream.subrange(
                        before - carry,
                        before + filled + n,
                    )) by {
                        assert(self.buf@.take(start + n) =~= self.buf@.take(start as int)
                            + self.buf@.subrange(start as int, start + n));
                    }
                    assert(rest.skip(n as int) =~= stream.skip(before + filled + n));
                    if n == 0 {
                        self.eof = true;
                    } else {
                        filled = filled + n;
                    }
                },
            }
        }

        if filled == 0 {
            // The source had nothing new: the stream is finished.
            self.next_global_off = self.next_global_off.saturating_add(carry as u64);
            self.len = 0;
            assert(self.window() =~= stream.subrange(before as int, before as int));
            return Ok(None);
        }
        self.len = carry + filled;
        proof {
            self.consumed = Ghost((before + filled) as nat);
        }
        let offset: u64 = self.next_global_off;
        let bytes = vstd::slice::slice_subrange(self.buf.as_slice(), 0, self.len);
        assert(bytes@ =~= window.skip(window.len() - carry) + stream.skip(before as int).take(
            filled as int,
        ));
        Ok(Some((offset, bytes)))
    }
}

} // verus!
