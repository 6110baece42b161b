//! A sequential big-endian reader over a fully buffered record.

use vstd::prelude::*;

use crate::error::DecodeError;
use crate::utils::{word_at, words_at};

verus! {

/// A cursor over an immutable byte buffer. Every decode is a single linear
/// pass through one of these.
pub struct Reader<'a> {
    pub data: &'a [u8],
    pub pos: usize,
}

impl<'a> Reader<'a> {
    /// The cursor never points past the end of the buffer.
    pub open spec fn wf(self) -> bool {
        self.pos <= self.data@.len()
    }

    pub fn new(data: &'a [u8]) -> (r: Self)
        ensures
            r.wf(),
            r.data@ == data@,
            r.pos == 0,
    {
        Reader { data, pos: 0 }
    }

    /// Reads one byte, advancing the cursor; fails when the buffer is
    /// exhausted.
    pub fn read_u8(&mut self) -> (r: Result<u8, DecodeError>)
        requires
            old(self).wf(),
        ensures
            final(self).wf(),
            final(self).data@ == old(self).data@,
            match r {
                Ok(v) => old(self).pos + 1 <= old(self).data@.len() && final(self).pos == old(
                    self,
                ).pos + 1 && v == old(self).data@[old(self).pos as int],
                Err(e) => old(self).pos + 1 > old(self).data@.len() && e
                    == DecodeError::Truncated && final(self).pos == old(self).pos,
            },
    {
        if self.pos < self.data.len() {
            let v = self.data[self.pos];
            self.pos = self.pos + 1;
            Ok(v)
        } else {
            Err(DecodeError::Truncated)
        }
    }

    /// Reads one big-endian 16-bit word, advancing the cursor; fails when
    /// fewer than two bytes remain.
    pub fn read_u16(&mut self) -> (r: Result<u16, DecodeError>)
        requires
            old(self).wf(),
        ensures
            final(self).wf(),
            final(self).data@ == old(self).data@,
            match r {
                Ok(v) => old(self).pos + 2 <= old(self).data@.len() && final(self).pos == old(
                    self,
                ).pos + 2 && v == word_at(old(self).data@, old(self).pos as int),
                Err(e) => old(self).pos + 2 > old(self).data@.len() && e
                    == DecodeError::Truncated && final(self).pos == old(self).pos,
            },
    {
        if self.data.len() - self.pos >= 2 {
            let hi = self.data[self.pos];
            let lo = self.data[self.pos + 1];
            self.pos = self.pos + 2;
            Ok((hi as u16) * 256 + (lo as u16))
        } else {
            Err(DecodeError::Truncated)
        }
    }

    /// Reads `n` consecutive big-endian 16-bit words, advancing the cursor;
    /// fails when fewer than `2 * n` bytes remain.
    pub fn read_words(&mut self, n: usize) -> (r: Result<Vec<u16>, DecodeError>)
        requires
            old(self).wf(),
        ensures
            final(self).wf(),
            final(self).data@ == old(self).data@,
            match r {
                Ok(v) => old(self).pos + 2 * n <= old(self).data@.len() && final(self).pos == old(
                    self,
                ).pos + 2 * n && v@ == words_at(old(self).data@, old(self).pos as int, n as int),
                Err(e) => old(self).pos + 2 * n > old(self).data@.len() && e
                    == DecodeError::Truncated && final(self).pos == old(self).pos,
            },
    {
        if n <= (self.data.len() - self.pos) / 2 {
            let mut v: Vec<u16> = Vec::new();
            let mut i: usize = 0;
            while i < n
                invariant
                    i <= n,
                    self.wf(),
                    self.data@ == old(self).data@,
                    self.pos == old(self).pos + 2 * i,
                    old(self).pos + 2 * n <= self.data@.len(),
                    v@ == words_at(self.data@, old(self).pos as int, i as int),
                decreases n - i,
            {
                let hi = self.data[self.pos];
                let lo = self.data[self.pos + 1];
                v.push((hi as u16) * 256 + (lo as u16));
                self.pos = self.pos + 2;
                i += 1;
                proof {
                    assert(v@ =~= words_at(self.data@, old(self).pos as int, i as int));
                }
            }
            Ok(v)
        } else {
            Err(DecodeError::Truncated)
        }
    }
}

} // verus!
