//! A forward-only byte cursor over an in-memory buffer.
//!
//! Every structural decode consumes bytes through this cursor.  Its
//! remaining suffix is the sequence the wire-format spec functions speak of.

use vstd::prelude::*;

verus! {

use crate::transaction::Error;
use crate::wire::dec_u8;

/// A byte buffer together with a read position that only moves forward.
pub struct Cursor {
    bytes: Vec<u8>,
    pos: usize,
}

impl Cursor {
    /// The position never runs past the end of the buffer.
    pub closed spec fn wf(&self) -> bool {
        self.pos <= self.bytes@.len()
    }

    /// The whole underlying buffer.
    pub closed spec fn data(&self) -> Seq<u8> {
        self.bytes@
    }

    /// The bytes not yet consumed.
    pub closed spec fn remaining(&self) -> Seq<u8> {
        self.bytes@.skip(self.pos as int)
    }

    pub fn new(bytes: Vec<u8>) -> (c: Cursor)
        ensures
            c.wf(),
            c.data() == bytes@,
            c.remaining() == bytes@,
    {
        let c = Cursor { bytes, pos: 0 };
        proof {
            assert(c.remaining() =~= c.data());
        }
        c
    }

    /// How many bytes are left to read.
    pub fn remaining_len(&self) -> (r: usize)
        requires
            self.wf(),
        ensures
            r == self.remaining().len(),
    {
        self.bytes.len() - self.pos
    }

    /// Reads one byte, or fails without moving when none is left.
    pub fn read_byte(&mut self) -> (r: Result<u8, Error>)
        requires
            old(self).wf(),
        ensures
            final(self).wf(),
            final(self).data() == old(self).data(),
            match r {
                Ok(v) => dec_u8(old(self).remaining()) == Some((v, final(self).remaining())),
                Err(e) => {
                    &&& e == Error::TruncatedInput
                    &&& old(self).remaining().len() == 0
                    &&& *final(self) == *old(self)
                },
            },
    {
        if self.pos < self.bytes.len() {
            let b = self.bytes[self.pos];
            self.pos = self.pos + 1;
            proof {
                assert(final(self).remaining() =~= old(self).remaining().skip(1));
                assert(old(self).remaining()[0] == b);
            }
            Ok(b)
        } else {
            Err(Error::TruncatedInput)
        }
    }

    /// Reads exactly `n` bytes, or fails without moving when fewer remain.
    pub fn read_bytes(&mut self, n: usize) -> (r: Result<Vec<u8>, Error>)
        requires
            old(self).wf(),
        ensures
            final(self).wf(),
            final(self).data() == old(self).data(),
            match r {
                Ok(v) => {
                    &&& old(self).remaining().len() >= n
                    &&& v@ == old(self).remaining().take(n as int)
                    &&& final(self).remaining() == old(self).remaining().skip(n as int)
                },
                Err(e) => {
                    &&& e == Error::TruncatedInput
                    &&& old(self).remaining().len() < n
                    &&& *final(self) == *old(self)
                },
            },
    {
        if n > self.bytes.len() - self.pos {
            return Err(Error::TruncatedInput);
        }
        let mut out: Vec<u8> = Vec::new();
        let mut i: usize = 0;
        while i < n
            invariant
                old(self).wf(),
                *self == *old(self),
                i <= n,
                n <= self.bytes@.len() - self.pos,
                self.bytes@.len() <= usize::MAX,
                out@ =~= self.remaining().take(i as int),
            decreases n - i,
        {
            let b = self.bytes[self.pos + i];
            out.push(b);
            i = i + 1;
            proof {
                assert(out@ =~= self.remaining().take(i as int));
            }
        }
        self.pos = self.pos + n;
        proof {
            assert(final(self).remaining() =~= old(self).remaining().skip(n as int));
        }
        Ok(out)
    }
}

} // verus!
