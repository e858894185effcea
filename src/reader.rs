use vstd::prelude::*;

use crate::error::Error;
use crate::wire::{be_value, read_be};

verus! {

/// A sequential cursor over an immutable byte slice.
pub struct Reader<'a> {
    input: &'a [u8],
    pos: usize,
}

impl<'a> View for Reader<'a> {
    /// The bytes that have not been consumed yet.
    type V = Seq<u8>;

    closed spec fn view(&self) -> Seq<u8> {
        self.input@.subrange(self.pos as int, self.input@.len() as int)
    }
}

impl<'a> Reader<'a> {
    pub closed spec fn wf(&self) -> bool {
        self.pos <= self.input@.len()
    }

    /// A reader positioned at the start of `input`.
    pub fn new(input: &'a [u8]) -> (r: Self)
        ensures
            r.wf(),
            r@ == input@,
    {
        let r = Reader { input, pos: 0 };
        assert(r@ =~= input@);
        r
    }

    /// The number of bytes left.
    pub fn len(&self) -> (n: usize)
        requires
            self.wf(),
        ensures
            n == self@.len(),
    {
        self.input.len() - self.pos
    }

    /// Consumes one byte, or returns `None` at the end of the input.
    pub fn maybe_byte(&mut self) -> (r: Option<u8>)
        requires
            old(self).wf(),
        ensures
            final(self).wf(),
            old(self)@.len() == 0 ==> r == None::<u8> && final(self)@ == old(self)@,
            old(self)@.len() > 0 ==> r == Some(old(self)@[0]) && final(self)@ == old(self)@.drop_first(),
    {
        if self.pos < self.input.len() {
            let b = self.input[self.pos];
            self.pos = self.pos + 1;
            assert(self@ =~= old(self)@.drop_first());
            Some(b)
        } else {
            None
        }
    }

    /// Consumes one byte, failing at the end of the input.
    pub fn byte(&mut self) -> (r: Result<u8, Error>)
        requires
            old(self).wf(),
        ensures
            final(self).wf(),
            old(self)@.len() == 0 ==> r == Err::<u8, Error>(Error::PrematureEOF),
            old(self)@.len() > 0 ==> r == Ok::<u8, Error>(old(self)@[0]) && final(self)@ == old(self)@.drop_first(),
    {
        match self.maybe_byte() {
            Some(b) => Ok(b),
            None => Err(Error::PrematureEOF),
        }
    }

    /// Consumes exactly `n` bytes and returns them, failing if fewer are left.
    pub fn get_bytes(&mut self, n: usize) -> (r: Result<&'a [u8], Error>)
        requires
            old(self).wf(),
        ensures
            final(self).wf(),
            n > old(self)@.len() ==> r == Err::<&'a [u8], Error>(Error::PrematureEOF),
            n <= old(self)@.len() ==> r.is_ok() && r.unwrap()@ == old(self)@.take(n as int)
                && final(self)@ == old(self)@.skip(n as int),
    {
        if n > self.input.len() - self.pos {
            return Err(Error::PrematureEOF);
        }
        let end = self.pos + n;
        let out = &self.input[self.pos..end];
        self.pos = end;
        assert(out@ =~= old(self)@.take(n as int));
        assert(self@ =~= old(self)@.skip(n as int));
        Ok(out)
    }

    /// Consumes four bytes and returns the unsigned big-endian integer they
    /// spell, failing if fewer are left.
    pub fn be_u32(&mut self) -> (r: Result<u32, Error>)
        requires
            old(self).wf(),
        ensures
            final(self).wf(),
            old(self)@.len() < 4 ==> r == Err::<u32, Error>(Error::PrematureEOF),
            old(self)@.len() >= 4 ==> r.is_ok() && r.unwrap() as nat == be_value(old(self)@.take(4))
                && final(self)@ == old(self)@.skip(4),
    {
        let bytes = self.get_bytes(4)?;
        Ok(read_be(bytes))
    }
}

} // verus!
