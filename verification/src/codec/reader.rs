//! A cursor over a byte buffer.

use vstd::prelude::*;
use vstd::slice::slice_subrange;

verus! {

/// A cursor over a borrowed byte buffer. Reading moves it forward; it never
/// moves past the end of the buffer.
pub struct ByteReader<'a> {
    data: &'a [u8],
    at: usize,
}

impl<'a> ByteReader<'a> {
    /// All bytes of the underlying buffer, read or not.
    pub closed spec fn data(&self) -> Seq<u8> {
        self.data@
    }

    /// How many bytes have been read so far.
    pub closed spec fn position(&self) -> nat {
        self.at as nat
    }

    /// The cursor lies within the buffer.
    #[verifier::type_invariant]
    pub open spec fn in_bounds(self) -> bool {
        self.position() <= self.data().len()
    }

    /// The bytes still to be read.
    pub open spec fn rest(&self) -> Seq<u8> {
        self.data().skip(self.position() as int)
    }

    /// A cursor at the start of `data`.
    pub fn new(data: &'a [u8]) -> (r: Self)
        ensures
            r.data() == data@,
            r.position() == 0,
    {
        ByteReader { data, at: 0 }
    }

    /// The number of bytes read so far.
    pub fn pos(&self) -> (n: usize)
        ensures
            n == self.position(),
            n <= self.data().len(),
    {
        proof {
            use_type_invariant(self);
        }
        self.at
    }

    /// The number of bytes still to be read.
    pub fn remaining(&self) -> (n: usize)
        ensures
            n == self.rest().len(),
            self.position() + n == self.data().len(),
    {
        proof {
            use_type_invariant(self);
        }
        self.data.len() - self.at
    }

    /// Moves the cursor back to `start`.
    pub fn rewind(&mut self, start: usize)
        requires
            start <= old(self).data().len(),
        ensures
            final(self).data() == old(self).data(),
            final(self).position() == start,
    {
        proof {
            use_type_invariant(&*self);
        }
        self.at = start;
    }

    /// Reads one byte, if there is one.
    pub fn get_u8(&mut self) -> (r: Option<u8>)
        ensures
            final(self).data() == old(self).data(),
            match r {
                Some(b) => {
                    &&& old(self).rest().len() > 0
                    &&& b == old(self).rest()[0]
                    &&& final(self).position() == old(self).position() + 1
                    &&& final(self).rest() == old(self).rest().skip(1)
                },
                None => old(self).rest().len() == 0 && final(self).position() == old(
                    self,
                ).position(),
            },
    {
        proof {
            use_type_invariant(&*self);
        }
        if self.at < self.data.len() {
            let b: u8 = self.data[self.at];
            self.at = self.at + 1;
            Some(b)
        } else {
            None
        }
    }

    /// Reads the next `n` bytes, if that many are left; otherwise reads none.
    pub fn take(&mut self, n: usize) -> (r: Option<&'a [u8]>)
        ensures
            final(self).data() == old(self).data(),
            match r {
                Some(bytes) => {
                    &&& n <= old(self).rest().len()
                    &&& bytes@ == old(self).rest().take(n as int)
                    &&& final(self).position() == old(self).position() + n
                    &&& final(self).rest() == old(self).rest().skip(n as int)
                },
                None => n > old(self).rest().len() && final(self).position() == old(
                    self,
                ).position(),
            },
    {
        proof {
            use_type_invariant(&*self);
        }
        if n <= self.data.len() - self.at {
            let bytes = slice_subrange(self.data, self.at, self.at + n);
            self.at = self.at + n;
            Some(bytes)
        } else {
            None
        }
    }
}

} // verus!
