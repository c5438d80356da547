//! A buffer that is read out piece by piece.

use vstd::prelude::*;

verus! {

/// What a read takes from `bytes` when `pos` bytes are out already and the
/// reader has room for `room`: as much of the rest as fits.
pub open spec fn chunk(bytes: Seq<u8>, pos: nat, room: nat) -> Seq<u8> {
    if pos < bytes.len() {
        let n = if room < bytes.len() - pos {
            room as int
        } else {
            bytes.len() - pos
        };
        bytes.subrange(pos as int, pos + n)
    } else {
        Seq::empty()
    }
}

/// Bytes and how many of them have been read; never more than there are.
#[derive(Debug)]
pub struct Cursor {
    bytes: Vec<u8>,
    pos: usize,
}

impl Cursor {
    #[verifier::type_invariant]
    closed spec fn inv(self) -> bool {
        self.pos <= self.bytes@.len()
    }

    /// All the bytes, read or not.
    pub closed spec fn bytes(self) -> Seq<u8> {
        self.bytes@
    }

    /// How many bytes have been read.
    pub closed spec fn position(self) -> nat {
        self.pos as nat
    }

    /// A cursor at the start of `bytes`.
    pub fn new(bytes: Vec<u8>) -> (r: Cursor)
        ensures
            r.bytes() == bytes@,
            r.position() == 0,
    {
        Cursor { bytes: bytes, pos: 0 }
    }

    /// Whether every byte has been read.
    pub fn is_spent(&self) -> (r: bool)
        ensures
            r == (self.position() >= self.bytes().len()),
    {
        self.pos >= self.bytes.len()
    }

    /// Copies the next bytes to the front of `buf`, as many as are left and
    /// fit, and says how many they were. The rest of `buf` stays as it was.
    pub fn read(&mut self, buf: &mut [u8]) -> (n: usize)
        ensures
            final(self).bytes() == old(self).bytes(),
            final(self).position() == old(self).position() + n,
            n == chunk(old(self).bytes(), old(self).position(), old(buf)@.len()).len(),
            final(buf)@ == chunk(old(self).bytes(), old(self).position(), old(buf)@.len())
                + old(buf)@.skip(n as int),
    {
        proof {
            use_type_invariant(&*self);
        }
        let left: usize = self.bytes.len() - self.pos;
        let n: usize = if buf.len() < left {
            buf.len()
        } else {
            left
        };
        let mut i: usize = 0;
        while i < n
            invariant
                i <= n,
                n <= buf@.len(),
                buf@.len() == old(buf)@.len(),
                self.pos + n <= self.bytes@.len() <= usize::MAX,
                forall|j: int| 0 <= j < i ==> buf@[j] == self.bytes@[self.pos + j],
                forall|j: int| i <= j < buf@.len() ==> buf@[j] == old(buf)@[j],
            decreases n - i,
        {
            buf[i] = self.bytes[self.pos + i];
            i += 1;
        }
        assert(buf@ =~= chunk(self.bytes@, self.pos as nat, old(buf)@.len()) + old(buf)@.skip(
            n as int,
        ));
        self.pos = self.pos + n;
        n
    }
}

} // verus!
