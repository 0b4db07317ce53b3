//! Bookkeeping of a file read from a channel in bounded chunks.

use vstd::prelude::*;

verus! {

/// The largest chunk read from a channel at once.
pub const BUFFER_SIZE: usize = 1024 * 128 * 2;

/// A file of known size being read chunk by chunk.
pub struct FileReceive {
    size: i64,
    got: i64,
    amount: i64,
}

/// What a read of a chunk came to.
#[derive(Debug, Clone, Copy, PartialEq, Eq, Structural)]
pub enum ReadOutcome {
    /// This many bytes arrived and are to be written.
    Data(usize),
    /// Nothing arrived; read again.
    Empty,
    /// The read failed; the transfer ends.
    Failed,
}

impl FileReceive {
    #[verifier::type_invariant]
    spec fn inv(self) -> bool {
        &&& 0 <= self.got
        &&& 0 < self.amount <= BUFFER_SIZE
    }

    /// The size of the file.
    pub closed spec fn size(self) -> int {
        self.size as int
    }

    /// How many bytes have arrived so far.
    pub closed spec fn received(self) -> int {
        self.got as int
    }

    /// The length of the chunk asked for last (the whole buffer before the first read).
    pub closed spec fn chunk(self) -> int {
        self.amount as int
    }

    /// A file of `size` bytes of which nothing has arrived yet.
    pub fn new(size: i64) -> (t: FileReceive)
        ensures
            t.size() == size,
            t.received() == 0,
            t.chunk() == BUFFER_SIZE,
    {
        FileReceive { size, got: 0, amount: BUFFER_SIZE as i64 }
    }

    /// How many bytes have arrived so far.
    pub fn received_bytes(&self) -> (n: i64)
        ensures
            n == self.received(),
    {
        self.got
    }

    /// The length of the next chunk to read, while the file is not complete: the
    /// last chunk's length, cut to what is left of the file.
    pub fn next_read(&mut self) -> (r: Option<usize>)
        ensures
            final(self).size() == old(self).size(),
            final(self).received() == old(self).received(),
            old(self).received() < old(self).size() ==> {
                let n = if old(self).size() - old(self).received() < old(self).chunk() {
                    old(self).size() - old(self).received()
                } else {
                    old(self).chunk()
                };
                &&& r == Some(n as usize)
                &&& final(self).chunk() == n
            },
            old(self).received() >= old(self).size() ==> r is None && final(self).chunk()
                == old(self).chunk(),
            r matches Some(n) ==> 0 < n <= BUFFER_SIZE && n <= old(self).size() - old(self).received(),
    {
        proof {
            use_type_invariant(&*self);
        }
        if self.got < self.size {
            if self.size - self.got < self.amount {
                self.amount = self.size - self.got;
            }
            Some(self.amount as usize)
        } else {
            None
        }
    }

    /// Records the result of a read into the buffer: a positive count of bytes
    /// arrived, zero for none, a negative one for an error.
    pub fn record(&mut self, rc: i64) -> (o: ReadOutcome)
        requires
            rc <= BUFFER_SIZE,
            old(self).received() + rc <= i64::MAX,
        ensures
            final(self).size() == old(self).size(),
            final(self).chunk() == old(self).chunk(),
            rc > 0 ==> o == ReadOutcome::Data(rc as usize) && final(self).received() == old(
                self,
            ).received() + rc,
            rc == 0 ==> o == ReadOutcome::Empty && final(self).received() == old(self).received(),
            rc < 0 ==> o == ReadOutcome::Failed && final(self).received() == old(self).received(),
            old(self).received() < old(self).size() && old(self).chunk() <= old(self).size() - old(
                self,
            ).received() && rc <= old(self).chunk() ==> final(self).received() <= final(self).size(),
    {
        proof {
            use_type_invariant(&*self);
        }
        if rc > 0 {
            self.got = self.got + rc;
            ReadOutcome::Data(rc as usize)
        } else if rc < 0 {
            ReadOutcome::Failed
        } else {
            ReadOutcome::Empty
        }
    }
}

/// Appends the bytes that a channel read delivered into the first `rc` places of
/// `buffer`; tells whether anything arrived, which is when reading goes on.
pub fn append_chunk(output: &mut Vec<u8>, buffer: &[u8], rc: usize) -> (more: bool)
    requires
        rc <= buffer@.len(),
    ensures
        more == (rc > 0),
        final(output)@ == old(output)@ + buffer@.subrange(0, rc as int),
{
    let mut i: usize = 0;
    while i < rc
        invariant
            i <= rc <= buffer@.len(),
            output@ == old(output)@ + buffer@.subrange(0, i as int),
        decreases rc - i,
    {
        output.push(buffer[i]);
        i = i + 1;
        assert(output@ =~= old(output)@ + buffer@.subrange(0, i as int));
    }
    rc > 0
}

} // verus!
