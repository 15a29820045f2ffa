//! A cursor that walks a byte buffer line by line.  It hands out the slice
//! before each CR LF terminator and finally the unconsumed remainder; its
//! position only ever moves forward.

use crate::scan::{crlf_from, find_crlf};
use vstd::prelude::*;

verus! {

/// A scan position inside a borrowed byte buffer.
pub struct Cursor<'a> {
    /// The buffer being scanned.
    pub inner: &'a [u8],
    /// The offset of the first byte not yet consumed.
    pub pos: usize,
}

impl<'a> Cursor<'a> {
    /// The position never runs past the end of the buffer.
    pub open spec fn wf(self) -> bool {
        self.pos <= self.inner@.len()
    }

    /// A cursor at the start of `inner`.
    pub fn new(inner: &'a [u8]) -> (r: Self)
        ensures
            r.wf(),
            r.inner@ == inner@,
            r.pos == 0,
    {
        Self { inner, pos: 0 }
    }

    /// The slice strictly between the current position and the next CR LF
    /// pair, advancing past that pair; or `None`, leaving the position
    /// unchanged, when no CR LF pair remains.
    pub fn find_next_crlf(&mut self) -> (r: Option<&'a [u8]>)
        requires
            old(self).wf(),
        ensures
            final(self).wf(),
            final(self).inner@ == old(self).inner@,
            ({
                let s = old(self).inner@;
                let i = crlf_from(s, old(self).pos as int);
                match r {
                    Some(line) => i < s.len() && line@ == s.subrange(old(self).pos as int, i)
                        && final(self).pos == i + 2,
                    None => i == s.len() && final(self).pos == old(self).pos,
                }
            }),
    {
        let i = find_crlf(self.inner, self.pos);
        proof {
            crate::scan::lemma_crlf_from(self.inner@, self.pos as int);
        }
        if i == self.inner.len() {
            None
        } else {
            let line = vstd::slice::slice_subrange(self.inner, self.pos, i);
            self.pos = i + 2;
            Some(line)
        }
    }

    /// Every byte from the current position to the end of the buffer.
    /// Consumes the cursor: once the body has been located, no further
    /// line scanning is meaningful.
    pub fn remain(self) -> (r: &'a [u8])
        requires
            self.wf(),
        ensures
            r@ == self.inner@.subrange(self.pos as int, self.inner@.len() as int),
    {
        vstd::slice::slice_subrange(self.inner, self.pos, self.inner.len())
    }
}

} // verus!
