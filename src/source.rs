use vstd::prelude::*;

verus! {

/// Why a single read from a source handed out no bytes.
#[derive(Debug)]
pub enum ReadError<E> {
    /// The read was interrupted before it took any byte; it is tried again
    /// and never ends a comparison. The source's own error is kept.
    Interrupted(E),
    /// The source failed; the error is handed on as the source gave it.
    Io(E),
}

/// A readable stream of bytes, seen as its whole content and the part of it
/// that it has still to hand out.
///
/// The models below carry bodies only so that a source written outside
/// verified code, which cannot state them, still compiles. Nothing proved of
/// the comparisons holds of such a source for free: it holds where the
/// source's reads behave as `read_into` states for some choice of the models.
/// That is, each read hands out the next bytes of the stream and no more than
/// asked, a read that hands out nothing for a positive request comes only at
/// the end of the stream, an interrupted read takes no byte, and a source
/// reports only finitely many interruptions in a row.
pub trait ByteSource<E> {
    /// All the bytes of the stream, from its first.
    closed spec fn content(&self) -> Seq<u8> {
        Seq::empty()
    }

    /// The bytes from the current position up to the end of the stream.
    closed spec fn remaining(&self) -> Seq<u8> {
        Seq::empty()
    }

    /// How many interrupted reads the source may still report before it
    /// makes progress again.
    closed spec fn interruptions(&self) -> nat {
        0
    }

    /// Whether reads of the source never fail. They may still be
    /// interrupted.
    closed spec fn never_fails(&self) -> bool {
        false
    }

    /// Appends at most `max` of the next bytes to `buf` and returns how many.
    /// A count of zero for a positive `max` means that the stream has ended.
    fn read_into(&mut self, buf: &mut Vec<u8>, max: usize) -> (r: Result<usize, ReadError<E>>)
        ensures
            final(self).content() == old(self).content(),
            match r {
                Ok(n) => {
                    &&& n <= max
                    &&& n <= old(self).remaining().len()
                    &&& (n == 0 && max > 0 ==> old(self).remaining().len() == 0)
                    &&& final(buf)@ == old(buf)@ + old(self).remaining().take(n as int)
                    &&& final(self).remaining() == old(self).remaining().skip(n as int)
                },
                Err(ReadError::Interrupted(_)) => {
                    &&& final(buf)@ == old(buf)@
                    &&& final(self).remaining() == old(self).remaining()
                    &&& final(self).interruptions() < old(self).interruptions()
                },
                Err(ReadError::Io(_)) => true,
            },
            old(self).never_fails() ==> final(self).never_fails() && !(r matches Err(
                ReadError::Io(_),
            )),
    ;
}

/// A byte source over stored content of known size, which can be read again
/// from its start, such as a file.
pub trait SeekableSource<E>: ByteSource<E> {
    /// The size of the whole content, read without moving the position.
    fn size(&self) -> (r: Result<u64, E>)
        ensures
            match r {
                Ok(n) => n == self.content().len(),
                Err(_) => !self.never_fails(),
            },
    ;

    /// Moves back to the first byte, so that the whole content is left to read.
    fn rewind(&mut self) -> (r: Result<(), E>)
        ensures
            final(self).content() == old(self).content(),
            r is Ok ==> final(self).remaining() == old(self).content(),
            old(self).never_fails() ==> r is Ok && final(self).never_fails(),
    ;
}

} // verus!
