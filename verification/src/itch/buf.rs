//! Buffer for an ITCH stream: bytes are filled at the back and consumed at the front, so
//! that a whole frame can be parsed from one contiguous slice.

use vstd::prelude::*;

verus! {

/// What a reader must do before `n` bytes are pending in one contiguous run.
#[derive(Debug, Clone, Copy, PartialEq, Eq, Structural)]
pub enum Prepared {
    /// `n` bytes can never be pending: it exceeds the buffer's capacity.
    TooLarge,
    /// At least `n` bytes are pending already.
    Ready,
    /// Fewer are pending; there is room behind them to read up to `n`.
    NeedRead,
}

/// Buffered reader: holds the source `R` and a fixed-capacity byte buffer whose bytes from
/// `pos` to `limit` are the ones read but not yet consumed.
#[derive(Debug)]
pub struct BufferedReader<R> {
    inner: R,
    buf: Vec<u8>,
    len: usize,
    limit: usize,
    pos: usize,
}

impl<R> BufferedReader<R> {
    /// The buffer holds `capacity` bytes and the pending bytes lie within them.
    pub closed spec fn wf(&self) -> bool {
        &&& self.buf@.len() == self.len
        &&& self.pos <= self.limit <= self.len
    }

    /// The bytes read but not yet consumed.
    pub closed spec fn pending(&self) -> Seq<u8> {
        self.buf@.subrange(self.pos as int, self.limit as int)
    }

    /// The buffer's capacity.
    pub closed spec fn capacity(&self) -> nat {
        self.len as nat
    }

    /// Room left at the back of the buffer.
    pub closed spec fn room(&self) -> nat {
        (self.len - self.limit) as nat
    }

    /// The bytes before the pending ones, still held in the buffer.
    pub closed spec fn consumed(&self) -> nat {
        self.pos as nat
    }

    /// The byte source.
    pub closed spec fn source(&self) -> R {
        self.inner
    }

    /// An empty buffer of `capacity` bytes over `inner`.
    pub fn new(capacity: usize, inner: R) -> (r: Self)
        ensures
            r.pending() == Seq::<u8>::empty(),
            r.capacity() == capacity,
            r.room() == capacity,
            r.consumed() == 0,
            r.source() == inner,
            r.wf(),
    {
        let buf: Vec<u8> = vec![0u8; capacity];
        Self { inner, buf, len: capacity, limit: 0, pos: 0 }
    }

    /// The pending bytes from `offset` on, as one contiguous slice.
    pub fn get(&self, offset: usize) -> (r: &[u8])
        requires
            self.wf(),
            offset <= self.pending().len(),
        ensures
            r@ == self.pending().subrange(offset as int, self.pending().len() as int),
    {
        let start = self.pos + offset;
        let all = self.buf.as_slice();
        let r = &all[start..self.limit];
        proof {
            assert(r@ =~= self.pending().subrange(offset as int, self.pending().len() as int));
        }
        r
    }

    /// How many bytes are pending.
    pub fn available(&self) -> (r: usize)
        requires
            self.wf(),
        ensures
            r == self.pending().len(),
    {
        self.limit - self.pos
    }

    /// Whether at least `n` bytes are pending.
    pub fn available_n(&self, n: usize) -> (r: bool)
        requires
            self.wf(),
        ensures
            r == (n <= self.pending().len()),
    {
        n <= self.limit - self.pos
    }

    /// Consumes `bytes` pending bytes.
    pub fn advance(&mut self, bytes: usize)
        requires
            old(self).wf(),
            bytes <= old(self).pending().len(),
        ensures
            final(self).pending() == old(self).pending().subrange(bytes as int, old(self).pending().len() as int),
            final(self).capacity() == old(self).capacity(),
            final(self).room() == old(self).room(),
            final(self).consumed() == old(self).consumed() + bytes,
            final(self).source() == old(self).source(),
            old(self).wf() ==> final(self).wf(),
    {
        self.pos = self.pos + bytes;
        proof {
            assert(self.pending() =~= old(self).pending().subrange(bytes as int, old(self).pending().len() as int));
        }
    }

    /// Moves the pending bytes to the front of the buffer (or empties it when nothing is
    /// pending), freeing the room taken by consumed bytes.
    pub fn discard_to_pos(&mut self)
        requires
            old(self).wf(),
        ensures
            final(self).pending() == old(self).pending(),
            final(self).capacity() == old(self).capacity(),
            final(self).consumed() == 0 || (final(self).consumed() == old(self).consumed() && old(self).consumed() == 0),
            final(self).room() == old(self).room() + old(self).consumed(),
            final(self).source() == old(self).source(),
            old(self).wf() ==> final(self).wf(),
    {
        if self.pos > 0 && self.pos < self.limit {
            let copy_len = self.limit - self.pos;
            let ghost pending = self.pending();
            let mut j: usize = 0;
            while j < copy_len
                invariant
                    0 < self.pos < self.limit <= self.len,
                    self.buf@.len() == self.len,
                    copy_len == self.limit - self.pos,
                    j <= copy_len,
                    pending == old(self).buf@.subrange(old(self).pos as int, old(self).limit as int),
                    pending.len() == copy_len,
                    old(self).buf@.len() == old(self).len,
                    self.pos == old(self).pos,
                    self.limit == old(self).limit,
                    self.len == old(self).len,
                    self.inner == old(self).inner,
                    forall|k: int| 0 <= k < j ==> self.buf@[k] == pending[k],
                    forall|k: int| j <= k < self.len ==> self.buf@[k] == old(self).buf@[k],
                decreases copy_len - j,
            {
                let b = self.buf[self.pos + j];
                assert(self.buf@[self.pos + j] == old(self).buf@[self.pos + j]);
                assert(pending[j as int] == old(self).buf@[self.pos + j]);
                self.buf.set(j, b);
                j = j + 1;
            }
            self.limit = copy_len;
            self.pos = 0;
            proof {
                assert(self.pending() =~= pending);
            }
        } else if self.pos >= self.limit {
            self.limit = 0;
            self.pos = 0;
            proof {
                assert(self.pending() =~= old(self).pending());
            }
        }
    }

    /// The buffer's capacity.
    pub fn capacity_len(&self) -> (r: usize)
        ensures
            r == self.capacity(),
    {
        self.len
    }

    /// Room left at the back of the buffer.
    pub fn room_left(&self) -> (r: usize)
        requires
            self.wf(),
        ensures
            r == self.room(),
    {
        self.len - self.limit
    }

    /// How many consumed bytes the buffer still holds before the pending ones.
    pub fn consumed_len(&self) -> (r: usize)
        ensures
            r == self.consumed(),
    {
        self.pos
    }

    /// Whether a read must first make room: never with a well-formed buffer, as the
    /// consumed bytes never pass the filled ones.
    pub fn read_needs_room(&self) -> (r: bool)
        requires
            self.wf(),
        ensures
            !r,
    {
        self.pos + (self.len - self.limit) > self.len
    }

    /// Appends bytes read from the source at the back of the buffer.
    pub fn fill(&mut self, chunk: &[u8])
        requires
            old(self).wf(),
            chunk@.len() <= old(self).room(),
        ensures
            final(self).pending() == old(self).pending() + chunk@,
            final(self).capacity() == old(self).capacity(),
            final(self).room() == old(self).room() - chunk@.len(),
            final(self).consumed() == old(self).consumed(),
            final(self).source() == old(self).source(),
            old(self).wf() ==> final(self).wf(),
    {
        let ghost start = self.buf@;
        let n = chunk.len();
        let mut j: usize = 0;
        while j < n
            invariant
                self.pos <= self.limit,
                self.limit + n <= self.len,
                self.buf@.len() == self.len,
                n == chunk@.len(),
                j <= n,
                self.pos == old(self).pos,
                self.limit == old(self).limit,
                self.len == old(self).len,
                self.inner == old(self).inner,
                start == old(self).buf@,
                forall|k: int| 0 <= k < self.limit ==> self.buf@[k] == start[k],
                forall|k: int| 0 <= k < j ==> self.buf@[self.limit + k] == chunk@[k],
            decreases n - j,
        {
            self.buf.set(self.limit + j, chunk[j]);
            j = j + 1;
        }
        self.limit = self.limit + n;
        proof {
            assert(self.pending() =~= old(self).pending() + chunk@);
        }
    }

    /// Gets the buffer ready to hold `n` pending bytes: too large a request is refused
    /// and a satisfied one changes nothing; otherwise the pending bytes are moved to the
    /// front when the consumed ones leave too little room behind them, so that reading
    /// can bring the pending bytes up to `n`.
    pub fn prepare(&mut self, n: usize) -> (r: Prepared)
        requires
            old(self).wf(),
        ensures
            final(self).wf(),
            final(self).pending() == old(self).pending(),
            final(self).capacity() == old(self).capacity(),
            final(self).source() == old(self).source(),
            r == if n > old(self).capacity() {
                Prepared::TooLarge
            } else if n <= old(self).pending().len() {
                Prepared::Ready
            } else {
                Prepared::NeedRead
            },
            r != Prepared::NeedRead ==> *final(self) == *old(self),
            r == Prepared::NeedRead ==> final(self).pending().len() + final(self).room() >= n,
    {
        if n > self.len {
            return Prepared::TooLarge;
        }
        if n <= self.limit - self.pos {
            return Prepared::Ready;
        }
        if n > self.len - self.pos {
            self.discard_to_pos();
        }
        Prepared::NeedRead
    }

    /// The byte source, to read the next chunk from.
    pub fn inner_mut(&mut self) -> (r: &mut R)
        ensures
            *r == old(self).source(),
            final(self).source() == *final(r),
            final(self).pending() == old(self).pending(),
            final(self).capacity() == old(self).capacity(),
            final(self).room() == old(self).room(),
            final(self).consumed() == old(self).consumed(),
            old(self).wf() ==> final(self).wf(),
    {
        &mut self.inner
    }
}

} // verus!
