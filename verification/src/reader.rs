//! A cursor over the bytes of a file held in memory.
use vstd::prelude::*;
use vstd::slice::*;

verus! {

/// Bytes, and how many of them have been read. A decoder takes what it needs
/// from the front of the unread bytes and moves the reader on; a decoder that
/// fails leaves the reader where it was.
#[derive(Debug)]
pub struct ByteReader {
    data: Vec<u8>,
    pos: usize,
}

impl ByteReader {
    #[verifier::type_invariant]
    spec fn within(self) -> bool {
        self.pos <= self.data@.len()
    }

    /// All the bytes, read or not.
    pub closed spec fn source(self) -> Seq<u8> {
        self.data@
    }

    /// The number of bytes read so far.
    pub closed spec fn offset(self) -> nat {
        self.pos as nat
    }

    /// The bytes not yet read.
    pub open spec fn unread(self) -> Seq<u8> {
        self.source().skip(self.offset() as int)
    }

    /// This reader is `before` after `n` more bytes were read.
    pub open spec fn moved_on(self, before: ByteReader, n: nat) -> bool {
        &&& self.source() == before.source()
        &&& self.offset() == before.offset() + n
    }

    /// A reader at the start of `data`.
    pub fn new(data: Vec<u8>) -> (reader: Self)
        ensures
            reader.source() == data@,
            reader.offset() == 0,
            reader.unread() == data@,
    {
        ByteReader { data, pos: 0 }
    }

    /// The number of bytes read so far.
    pub fn position(&self) -> (p: usize)
        ensures
            p == self.offset(),
            p <= self.source().len(),
    {
        proof {
            use_type_invariant(self);
        }
        self.pos
    }

    /// The number of bytes not yet read.
    pub fn remaining(&self) -> (n: usize)
        ensures
            n == self.unread().len(),
    {
        proof {
            use_type_invariant(self);
        }
        self.data.len() - self.pos
    }

    /// The bytes not yet read.
    pub(crate) fn rest(&self) -> (s: &[u8])
        ensures
            s@ == self.unread(),
    {
        proof {
            use_type_invariant(self);
        }
        slice_subrange(self.data.as_slice(), self.pos, self.data.len())
    }

    /// Moves on by `n` bytes.
    pub(crate) fn advance(&mut self, n: usize)
        requires
            n <= old(self).unread().len(),
        ensures
            final(self).moved_on(*old(self), n as nat),
            final(self).unread() == old(self).unread().skip(n as int),
    {
        let len = self.data.len();
        proof {
            use_type_invariant(&*self);
            assert(self.unread().len() == len - self.pos);
        }
        self.pos = self.pos + n;
        assert(self.data@.skip(self.pos as int) =~= old(self).data@.skip(old(self).pos as int).skip(
            n as int,
        ));
    }
}

} // verus!
