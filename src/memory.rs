use vstd::prelude::*;

use crate::source::{ByteSource, ReadError, SeekableSource};

verus! {

/// Bytes held in memory, read from a cursor. A read hands out at most
/// `fragment` bytes, so that a stream that answers in small pieces can be
/// stood for by the same content.
pub struct BytesSource {
    data: Vec<u8>,
    pos: usize,
    fragment: usize,
}

impl BytesSource {
    #[verifier::type_invariant]
    spec fn inv(&self) -> bool {
        &&& self.pos <= self.data.len()
        &&& self.fragment >= 1
    }

    /// The whole content.
    pub closed spec fn data(&self) -> Seq<u8> {
        self.data@
    }

    /// How many bytes have been read since the start.
    pub closed spec fn pos(&self) -> nat {
        self.pos as nat
    }

    /// The most that one read hands out.
    pub closed spec fn fragment(&self) -> nat {
        self.fragment as nat
    }

    /// A source over `data` that answers each read as fully as it can.
    pub fn new(data: Vec<u8>) -> (r: Self)
        ensures
            r.data() == data@,
            r.pos() == 0,
            r.fragment() == usize::MAX,
    {
        BytesSource { data, pos: 0, fragment: usize::MAX }
    }

    /// A source over `data` whose reads hand out at most `fragment` bytes each.
    pub fn with_fragment(data: Vec<u8>, fragment: usize) -> (r: Self)
        requires
            fragment >= 1,
        ensures
            r.data() == data@,
            r.pos() == 0,
            r.fragment() == fragment,
    {
        BytesSource { data, pos: 0, fragment }
    }

    /// How many bytes have been read since the start.
    pub fn position(&self) -> (r: usize)
        ensures
            r == self.pos(),
    {
        self.pos
    }
}

impl<E> ByteSource<E> for BytesSource {
    open spec fn remaining(&self) -> Seq<u8> {
        self.data().skip(self.pos() as int)
    }

    open spec fn interruptions(&self) -> nat {
        0
    }

    open spec fn never_fails(&self) -> bool {
        true
    }

    open spec fn content(&self) -> Seq<u8> {
        self.data()
    }

    fn read_into(&mut self, buf: &mut Vec<u8>, max: usize) -> (r: Result<usize, ReadError<E>>) {
        proof {
            use_type_invariant(&*self);
        }
        let left = self.data.len() - self.pos;
        let mut n = if max < left {
            max
        } else {
            left
        };
        if self.fragment < n {
            n = self.fragment;
        }
        let start = self.pos;
        let mut i: usize = 0;
        while i < n
            invariant
                n <= left,
                left == self.data.len() - start,
                start <= self.data.len(),
                i <= n,
                buf@ == old(buf)@ + self.data@.subrange(start as int, start + i),
            decreases n - i,
        {
            buf.push(self.data[start + i]);
            assert(self.data@.subrange(start as int, start + i + 1) =~= self.data@.subrange(
                start as int,
                start + i,
            ).push(self.data@[start + i]));
            i = i + 1;
        }
        self.pos = start + n;
        assert(self.data@.subrange(start as int, start + n) =~= self.data@.skip(start as int).take(
            n as int,
        ));
        assert(self.data@.skip(start as int).skip(n as int) =~= self.data@.skip(start + n));
        Ok(n)
    }
}

impl<E> SeekableSource<E> for BytesSource {
    fn size(&self) -> (r: Result<u64, E>) {
        Ok(self.data.len() as u64)
    }

    fn rewind(&mut self) -> (r: Result<(), E>) {
        proof {
            use_type_invariant(&*self);
        }
        self.pos = 0;
        assert(self.data@.skip(0) =~= self.data@);
        Ok(())
    }
}

} // verus!
