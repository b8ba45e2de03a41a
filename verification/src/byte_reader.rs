//! A cursor over bytes in memory.

use vstd::prelude::*;
use vstd::slice::slice_subrange;

verus! {

/// A cursor over a byte slice: it hands out consecutive stretches of the
/// slice and remembers how far it has come.
pub struct ByteReader<'a> {
    data: &'a [u8],
    pos: usize,
}

impl<'a> ByteReader<'a> {
    #[verifier::type_invariant]
    spec fn in_bounds(self) -> bool {
        self.pos <= self.data@.len()
    }

    /// All the bytes under the cursor, read or not.
    pub closed spec fn source(self) -> Seq<u8> {
        self.data@
    }

    /// How many bytes the cursor has passed.
    pub closed spec fn position(self) -> nat {
        self.pos as nat
    }

    /// The bytes that the cursor has not passed yet.
    pub open spec fn remaining(self) -> Seq<u8> {
        self.source().skip(self.position() as int)
    }

    /// A cursor at the start of `data`.
    pub fn new(data: &'a [u8]) -> (reader: ByteReader<'a>)
        ensures
            reader.source() == data@,
            reader.position() == 0,
    {
        ByteReader { data, pos: 0 }
    }

    /// How many bytes the cursor has passed.
    pub fn offset(&self) -> (n: usize)
        ensures
            n == self.position(),
            n <= self.source().len(),
    {
        proof {
            use_type_invariant(self);
        }
        self.pos
    }

    /// How many bytes are left.
    pub fn left(&self) -> (n: usize)
        ensures
            n == self.remaining().len(),
            n + self.position() == self.source().len(),
    {
        proof {
            use_type_invariant(self);
        }
        self.data.len() - self.pos
    }

    /// Hands out the next `n` bytes and moves past them. Where fewer than
    /// `n` bytes are left, nothing is handed out and the cursor stays.
    pub fn take(&mut self, n: usize) -> (r: Option<&'a [u8]>)
        ensures
            final(self).source() == old(self).source(),
            final(self).position() <= final(self).source().len(),
            match r {
                Some(bytes) => n <= old(self).remaining().len() && bytes@ == old(
                    self,
                ).remaining().take(n as int) && final(self).position() == old(self).position()
                    + n,
                None => n > old(self).remaining().len() && final(self).position() == old(
                    self,
                ).position(),
            },
    {
        proof {
            use_type_invariant(&*self);
        }
        if n > self.data.len() - self.pos {
            return None;
        }
        let bytes = slice_subrange(self.data, self.pos, self.pos + n);
        proof {
            assert(bytes@ =~= self.remaining().take(n as int));
        }
        self.pos = self.pos + n;
        Some(bytes)
    }

    /// Moves the cursor to stand after the first `to` bytes. Where the
    /// source is shorter than that, the cursor stays.
    pub fn seek(&mut self, to: usize) -> (moved: bool)
        ensures
            final(self).source() == old(self).source(),
            final(self).position() <= final(self).source().len(),
            moved == (to <= old(self).source().len()),
            moved ==> final(self).position() == to,
            !moved ==> final(self).position() == old(self).position(),
    {
        proof {
            use_type_invariant(&*self);
        }
        if to <= self.data.len() {
            self.pos = to;
            true
        } else {
            false
        }
    }
}

/// The cursor has moved on by `by` bytes over the same source, and has not
/// left it.
pub open spec fn advanced(before: ByteReader, after: ByteReader, by: nat) -> bool {
    &&& after.source() == before.source()
    &&& after.position() == before.position() + by
    &&& after.position() <= after.source().len()
}

} // verus!
