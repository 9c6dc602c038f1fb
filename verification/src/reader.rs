//! The byte source that values are decoded from.

use crate::error::{CodecError, Failure};
use vstd::prelude::*;
use vstd::slice::{slice_subrange, slice_to_vec};

verus! {

/// A byte source: a buffer, and how much of it has been read.
pub struct ByteReader {
    data: Vec<u8>,
    pos: usize,
}

impl ByteReader {
    /// All the bytes of the source, read or not.
    pub closed spec fn bytes(self) -> Seq<u8> {
        self.data@
    }

    /// How many bytes have been read.
    pub closed spec fn offset(self) -> nat {
        self.pos as nat
    }

    /// No more has been read than there is.
    #[verifier::type_invariant]
    pub open spec fn wf(self) -> bool {
        self.offset() <= self.bytes().len()
    }

    /// After a read of `n` bytes, what remains is what remained before
    /// without its first `n` bytes.
    pub proof fn lemma_remaining_skip(self, after: ByteReader, n: nat)
        requires
            after.bytes() == self.bytes(),
            after.offset() == self.offset() + n,
            after.wf(),
        ensures
            after.remaining() == self.remaining().skip(n as int),
            n <= self.remaining().len(),
    {
        assert(after.remaining() =~= self.remaining().skip(n as int));
    }

    /// The bytes that have not been read yet.
    pub open spec fn remaining(self) -> Seq<u8> {
        self.bytes().skip(self.offset() as int)
    }

    /// A source over `data`, with nothing read.
    pub fn new(data: Vec<u8>) -> (r: Self)
        ensures
            r.bytes() == data@,
            r.offset() == 0,
    {
        ByteReader { data, pos: 0 }
    }

    /// How many bytes have been read.
    pub fn position(&self) -> (r: usize)
        ensures
            r == self.offset(),
            r <= self.bytes().len(),
    {
        proof {
            use_type_invariant(self);
        }
        self.pos
    }

    /// The bytes that have not been read yet.
    pub fn rest(&self) -> (r: &[u8])
        ensures
            r@ == self.remaining(),
            self.offset() <= self.bytes().len(),
    {
        proof {
            use_type_invariant(self);
        }
        slice_subrange(self.data.as_slice(), self.pos, self.data.len())
    }

    /// Marks the next `n` bytes as read.
    pub fn advance(&mut self, n: usize)
        requires
            n <= old(self).remaining().len(),
        ensures
            final(self).bytes() == old(self).bytes(),
            final(self).offset() == old(self).offset() + n,
            final(self).offset() <= final(self).bytes().len(),
    {
        proof {
            use_type_invariant(&*self);
            assert(self.remaining().len() == self.data@.len() - self.pos);
        }
        let len: usize = self.data.len();
        assert(self.pos + n <= len);
        self.pos = self.pos + n;
    }

    /// Reads the next `n` bytes, or fails where fewer are left.
    pub fn read_exact(&mut self, n: usize) -> (r: Result<Vec<u8>, CodecError>)
        ensures
            final(self).bytes() == old(self).bytes(),
            n <= old(self).remaining().len() ==> (r matches Ok(taken) && taken@ == old(
                self,
            ).remaining().take(n as int) && final(self).offset() == old(self).offset() + n),
            n > old(self).remaining().len() ==> (r matches Err(e) && e@ == Failure::UnexpectedEof
                && final(self).offset() == old(self).offset()),
    {
        let rest = self.rest();
        if n <= rest.len() {
            let taken = slice_to_vec(slice_subrange(rest, 0, n));
            self.advance(n);
            Ok(taken)
        } else {
            Err(CodecError::UnexpectedEof)
        }
    }
}

} // verus!
