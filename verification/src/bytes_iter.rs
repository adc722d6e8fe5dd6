//! Fixed-width values exposed as finite, restartable forward byte
//! sequences.

use vstd::prelude::*;
use crate::word::{Word, word_be_bytes, word_le_bytes};

verus! {

/// Iterator over a buffered sequence of values, handing them out in order.
pub struct FixedBufferValueIterator<T, const N: usize> {
    buf: Vec<T>,
    pos: usize,
}

/// A finite forward iterator handing out the items of a fixed-width value.
pub trait FixedLengthIterator<I, const N: usize>: Sized {
    /// The items not yet handed out.
    spec fn remaining(&self) -> Seq<I>;

    /// The next item, or `None` once all are consumed.
    fn next(&mut self) -> (r: Option<I>)
        ensures
            old(self).remaining().len() == 0 ==> r == None::<I> && final(self).remaining()
                == old(self).remaining(),
            old(self).remaining().len() > 0 ==> r == Some(old(self).remaining()[0])
                && final(self).remaining() == old(self).remaining().skip(1),
    ;
}

impl<T: Copy, const N: usize> FixedLengthIterator<T, N> for FixedBufferValueIterator<T, N> {
    closed spec fn remaining(&self) -> Seq<T> {
        if self.pos <= self.buf@.len() {
            self.buf@.skip(self.pos as int)
        } else {
            Seq::empty()
        }
    }

    fn next(&mut self) -> (r: Option<T>) {
        if self.pos < self.buf.len() {
            let v = self.buf[self.pos];
            self.pos += 1;
            proof {
                assert(old(self).remaining()[0] == v);
                assert(self.remaining() =~= old(self).remaining().skip(1));
            }
            Some(v)
        } else {
            proof {
                assert(self.remaining().len() == 0);
            }
            None
        }
    }
}

/// Conversion of a fixed-width value into forward byte sequences, in
/// little- or big-endian order. Each call starts a fresh pass.
pub trait IntoFixedLengthByteIterator<const N: usize>: Sized {
    /// The little-endian bytes of the value.
    spec fn le_bytes(self) -> Seq<u8>;

    /// The big-endian bytes of the value.
    spec fn be_bytes(self) -> Seq<u8>;

    /// A forward pass over the little-endian bytes.
    fn into_le_iter(self) -> (r: FixedBufferValueIterator<u8, N>)
        ensures
            r.remaining() == self.le_bytes(),
    ;

    /// A forward pass over the big-endian bytes.
    fn into_be_iter(self) -> (r: FixedBufferValueIterator<u8, N>)
        ensures
            r.remaining() == self.be_bytes(),
    ;
}

impl IntoFixedLengthByteIterator<32> for Word {
    open spec fn le_bytes(self) -> Seq<u8> {
        word_le_bytes(self)
    }

    open spec fn be_bytes(self) -> Seq<u8> {
        word_be_bytes(self)
    }

    fn into_le_iter(self) -> (r: FixedBufferValueIterator<u8, 32>) {
        let buf = self.to_le_bytes();
        let r = FixedBufferValueIterator { buf, pos: 0 };
        proof {
            assert(r.remaining() =~= word_le_bytes(self));
        }
        r
    }

    fn into_be_iter(self) -> (r: FixedBufferValueIterator<u8, 32>) {
        let buf = self.to_be_bytes();
        let r = FixedBufferValueIterator { buf, pos: 0 };
        proof {
            assert(r.remaining() =~= word_be_bytes(self));
        }
        r
    }
}

} // verus!
