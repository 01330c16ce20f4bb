//! Growable in-memory byte stream: a cursor over a byte buffer with a
//! monotonic read position. Reads never move the position backward, and a
//! read past the available length fails rather than returning partial data.

use vstd::prelude::*;

verus! {

/// Failure of a read on an in-memory stream.
#[derive(Debug, PartialEq, Eq, Structural, Clone, Copy)]
pub enum ReadError {
    /// Fewer bytes were available than the read requested.
    EndOfStream,
}

/// A cursor over a byte buffer. Writing appends to the buffer; reading
/// consumes bytes from the current position forward.
pub struct MemStream {
    buffer: Vec<u8>,
    position: usize,
}

impl MemStream {
    /// The whole buffered content, written and already-read bytes included.
    pub closed spec fn data(self) -> Seq<u8> {
        self.buffer@
    }

    /// The read position: how many bytes of `data` have been consumed.
    pub closed spec fn pos(self) -> nat {
        self.position as nat
    }

    /// The position never runs past the buffered content.
    pub open spec fn wf(self) -> bool {
        self.pos() <= self.data().len()
    }

    /// The bytes not yet consumed by reads.
    pub open spec fn remaining(self) -> Seq<u8> {
        self.data().subrange(self.pos() as int, self.data().len() as int)
    }

    /// Reads exactly `n` bytes, or fails with `EndOfStream` (leaving the
    /// stream unchanged) when fewer than `n` remain.
    pub fn read_exact(&mut self, n: usize) -> (r: Result<Vec<u8>, ReadError>)
        requires
            old(self).wf(),
        ensures
            final(self).wf(),
            final(self).data() == old(self).data(),
            match r {
                Ok(v) => {
                    &&& n <= old(self).remaining().len()
                    &&& v@ == old(self).remaining().subrange(0, n as int)
                    &&& final(self).pos() == old(self).pos() + n
                },
                Err(e) => {
                    &&& e == ReadError::EndOfStream
                    &&& n > old(self).remaining().len()
                    &&& final(self).pos() == old(self).pos()
                },
            },
    {
        if n > self.buffer.len() - self.position {
            return Err(ReadError::EndOfStream);
        }
        let mut out: Vec<u8> = Vec::new();
        let mut i: usize = 0;
        while i < n
            invariant
                self.position + n <= self.buffer.len(),
                i <= n,
                out@ == self.buffer@.subrange(
                    self.position as int,
                    self.position + i as int,
                ),
            decreases n - i,
        {
            out.push(self.buffer[self.position + i]);
            i = i + 1;
            proof {
                assert(out@ =~= self.buffer@.subrange(
                    self.position as int,
                    self.position + i as int,
                ));
            }
        }
        self.position = self.position + n;
        Ok(out)
    }

    /// Appends `data` to the buffer, advancing the position past it.
    pub fn write(&mut self, data: &Vec<u8>)
        requires
            old(self).wf(),
        ensures
            final(self).wf(),
            final(self).data() == old(self).data() + data@,
            final(self).pos() == old(self).pos() + data@.len(),
    {
        let mut i: usize = 0;
        let len: usize = data.len();
        while i < len
            invariant
                i <= len,
                len == data@.len(),
                self.buffer@ == old(self).buffer@ + data@.subrange(0, i as int),
                self.position == old(self).position,
                self.position <= old(self).buffer@.len(),
            decreases len - i,
        {
            self.buffer.push(data[i]);
            i = i + 1;
            proof {
                assert(self.buffer@ =~= old(self).buffer@ + data@.subrange(0, i as int));
            }
        }
        proof {
            assert(data@.subrange(0, data@.len() as int) =~= data@);
        }
        let buffered: usize = self.buffer.len();
        assert(self.position + len <= buffered);
        self.position = self.position + len;
    }

    /// How many bytes remain to be read.
    pub fn available(&self) -> (r: usize)
        requires
            self.wf(),
        ensures
            r == self.remaining().len(),
    {
        self.buffer.len() - self.position
    }

    /// Exposes the whole buffered content without consuming it.
    pub fn get_data(&self) -> (r: &Vec<u8>)
        ensures
            r@ == self.data(),
    {
        &self.buffer
    }

    /// Takes the whole buffered content out of the stream.
    pub fn into_data(self) -> (r: Vec<u8>)
        ensures
            r@ == self.data(),
    {
        self.buffer
    }
}

/// Builds a stream over a copy of `buffer`, positioned at its start.
pub fn new(buffer: &Vec<u8>) -> (r: MemStream)
    ensures
        r.wf(),
        r.data() == buffer@,
        r.pos() == 0,
{
    let mut copy: Vec<u8> = Vec::new();
    let mut i: usize = 0;
    let len: usize = buffer.len();
    while i < len
        invariant
            i <= len,
            len == buffer@.len(),
            copy@ == buffer@.subrange(0, i as int),
        decreases len - i,
    {
        copy.push(buffer[i]);
        i = i + 1;
        proof {
            assert(copy@ =~= buffer@.subrange(0, i as int));
        }
    }
    proof {
        assert(buffer@.subrange(0, buffer@.len() as int) =~= buffer@);
    }
    MemStream { buffer: copy, position: 0 }
}

} // verus!
