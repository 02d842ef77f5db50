use vstd::prelude::*;

use crate::session::{
    agree_upto, known_different, lemma_agree_extends, lemma_verdict, second_not_ahead, Comparison,
    Step,
};
use crate::source::{ByteSource, ReadError, SeekableSource};

verus! {

/// The buffer size used when the caller names none.
pub const DEFAULT_BUFFER_SIZE: usize = 256;

/// The verdict of a comparison: the two sequences hold the same bytes.
pub open spec fn same_content(x: Seq<u8>, y: Seq<u8>) -> bool {
    x == y
}

/// What a comparison in rounds of at most `n` bytes may answer, as `same`,
/// of two sources that had `x` and `y` left to read before it and `ra` and
/// `rb` after it. The verdict is whether `x` and `y` are equal. After a true
/// verdict both sources are read to their end. After a false one, what was
/// read already shows the difference; neither source was read more than `n`
/// bytes past the prefix the two share; and the second was read no further
/// than the first, or one byte further once the first had ended.
pub open spec fn compared(x: Seq<u8>, y: Seq<u8>, ra: Seq<u8>, rb: Seq<u8>, n: int, same: bool) -> bool {
    let ka = x.len() - ra.len();
    let kb = y.len() - rb.len();
    &&& 0 <= ka
    &&& 0 <= kb
    &&& ra == x.skip(ka)
    &&& rb == y.skip(kb)
    &&& same == same_content(x, y)
    &&& same ==> ra.len() == 0 && rb.len() == 0
    &&& !same ==> {
        &&& known_different(x.take(ka), ra.len() == 0, y.take(kb), rb.len() == 0)
        &&& second_not_ahead(x.take(ka), ra.len() == 0, y.take(kb))
        &&& (ka <= n || agree_upto(x, y, ka - n))
        &&& (kb <= n || agree_upto(x, y, kb - n))
    }
}

/// Clears `buffer` and fills it with the next `len` bytes of `a`, or with all
/// that is left of `a` where fewer remain. Interrupted reads are retried and
/// add nothing; any other failure is returned at once.
pub fn read_try_exact<E, A: ByteSource<E>>(a: &mut A, buffer: &mut Vec<u8>, len: usize) -> (r:
    Result<usize, E>)
    ensures
        final(a).content() == old(a).content(),
        match r {
            Ok(n) => {
                &&& n <= len
                &&& n <= old(a).remaining().len()
                &&& n < len ==> n == old(a).remaining().len()
                &&& final(buffer)@ == old(a).remaining().take(n as int)
                &&& final(a).remaining() == old(a).remaining().skip(n as int)
            },
            Err(_) => true,
        },
        len == 0 ==> *final(a) == *old(a) && (match r {
            Ok(n) => n == 0,
            Err(_) => false,
        }),
        old(a).never_fails() ==> r is Ok && final(a).never_fails(),
{
    buffer.clear();
    if len == 0 {
        return Ok(0);
    }
    let mut sum: usize = 0;
    while sum < len
        invariant
            sum <= len,
            sum <= old(a).remaining().len(),
            buffer@ == old(a).remaining().take(sum as int),
            a.remaining() == old(a).remaining().skip(sum as int),
            a.content() == old(a).content(),
            old(a).never_fails() ==> a.never_fails(),
        decreases a.remaining().len(), a.interruptions(),
    {
        match a.read_into(buffer, len - sum) {
            Ok(0) => {
                return Ok(sum);
            },
            Ok(n) => {
                proof {
                    let s = old(a).remaining();
                    assert(s.take(sum as int) + s.skip(sum as int).take(n as int) =~= s.take(
                        sum + n,
                    ));
                    assert(s.skip(sum as int).skip(n as int) =~= s.skip(sum + n));
                }
                sum = sum + n;
            },
            Err(ReadError::Interrupted(_)) => {},
            Err(ReadError::Io(e)) => {
                return Err(e);
            },
        }
    }
    Ok(sum)
}

/// Compares what `a` and `b` have left, reading both in rounds of at most
/// `buffer_size` bytes. Each round takes one read from `a`, then as many
/// bytes from `b`; a round that finds a difference, or finds that `b` ends
/// first, ends the comparison. Interrupted reads are retried on both
/// sources; any other failure is returned at once.
pub fn same_content_from_readers2<E, A: ByteSource<E>, B: ByteSource<E>>(
    a: &mut A,
    b: &mut B,
    buffer_size: usize,
) -> (r: Result<bool, E>)
    requires
        buffer_size >= 1,
    ensures
        final(a).content() == old(a).content(),
        final(b).content() == old(b).content(),
        match r {
            Ok(same) => compared(
                old(a).remaining(),
                old(b).remaining(),
                final(a).remaining(),
                final(b).remaining(),
                buffer_size as int,
                same,
            ),
            Err(_) => true,
        },
        old(a).never_fails() && old(b).never_fails() ==> r is Ok,
{
    let ghost x = a.remaining();
    let ghost y = b.remaining();
    let mut comparison = Comparison::new(buffer_size);
    let mut buffer1: Vec<u8> = Vec::with_capacity(buffer_size);
    let mut buffer2: Vec<u8> = Vec::with_capacity(buffer_size);
    proof {
        assert(x =~= comparison.seen_first() + a.remaining());
        assert(y =~= comparison.seen_second() + b.remaining());
    }
    loop
        invariant
            x == old(a).remaining(),
            y == old(b).remaining(),
            a.content() == old(a).content(),
            b.content() == old(b).content(),
            comparison.wf(),
            comparison.decided_rightly(),
            comparison.read_within_one_buffer(),
            comparison.second_within_first(),
            buffer_size >= 1,
            comparison.buffer_size() == buffer_size,
            x == comparison.seen_first() + a.remaining(),
            y == comparison.seen_second() + b.remaining(),
            comparison.first_ended() ==> a.remaining().len() == 0,
            comparison.second_ended() ==> b.remaining().len() == 0,
            old(a).never_fails() ==> a.never_fails(),
            old(b).never_fails() ==> b.never_fails(),
        decreases
            a.remaining().len() + b.remaining().len(),
            if comparison.first_ended() {
                0int
            } else {
                1int
            },
            if comparison.next() is Done {
                0int
            } else {
                1int
            },
            a.interruptions(),
    {
        let ghost sa = comparison.seen_first();
        let ghost sb = comparison.seen_second();
        proof {
            assert(sa =~= x.take(sa.len() as int));
            assert(sb =~= y.take(sb.len() as int));
            assert(a.remaining() =~= x.skip(sa.len() as int));
            assert(b.remaining() =~= y.skip(sb.len() as int));
        }
        match comparison.step() {
            Step::Done(same) => {
                proof {
                    lemma_verdict(
                        sa,
                        comparison.first_ended(),
                        sb,
                        comparison.second_ended(),
                        x,
                        y,
                    );
                    if sa.len() > buffer_size {
                        lemma_agree_extends(sa, sb, x, y, sa.len() - buffer_size);
                    }
                    if sb.len() > buffer_size {
                        lemma_agree_extends(sa, sb, x, y, sb.len() - buffer_size);
                    }
                }
                return Ok(same);
            },
            Step::ReadFirst(max) => {
                buffer1.clear();
                match a.read_into(&mut buffer1, max) {
                    Ok(ca) => {
                        assert(buffer1@.len() == ca);
                        comparison.first_read(buffer1.as_slice());
                        proof {
                            assert(x =~= comparison.seen_first() + a.remaining());
                        }
                    },
                    Err(ReadError::Interrupted(_)) => {},
                    Err(ReadError::Io(e)) => {
                        return Err(e);
                    },
                }
            },
            Step::ReadSecond(max) => {
                let cb = match read_try_exact(b, &mut buffer2, max) {
                    Ok(n) => n,
                    Err(e) => {
                        return Err(e);
                    },
                };
                assert(buffer2@.len() == cb);
                comparison.second_read(buffer2.as_slice());
                proof {
                    assert(y =~= comparison.seen_second() + b.remaining());
                }
                if cb < max {
                    // Fewer bytes than asked: the second source has ended.
                    match comparison.step() {
                        Step::ReadSecond(_) => {
                            buffer2.clear();
                            comparison.second_read(buffer2.as_slice());
                            proof {
                                assert(y =~= comparison.seen_second() + b.remaining());
                            }
                        },
                        _ => {},
                    }
                }
            },
        }
    }
}

/// Compares what `a` and `b` have left, in rounds of the default buffer size.
pub fn same_content_from_readers<E, A: ByteSource<E>, B: ByteSource<E>>(a: &mut A, b: &mut B) -> (r:
    Result<bool, E>)
    ensures
        final(a).content() == old(a).content(),
        final(b).content() == old(b).content(),
        match r {
            Ok(same) => compared(
                old(a).remaining(),
                old(b).remaining(),
                final(a).remaining(),
                final(b).remaining(),
                DEFAULT_BUFFER_SIZE as int,
                same,
            ),
            Err(_) => true,
        },
        old(a).never_fails() && old(b).never_fails() ==> r is Ok,
{
    same_content_from_readers2(a, b, DEFAULT_BUFFER_SIZE)
}

/// Decides a comparison of stored contents from their sizes alone where it
/// can: different sizes mean different contents; equal sizes decide nothing.
pub fn sizes_decide(size_a: u64, size_b: u64) -> (r: Option<bool>)
    ensures
        r == (if size_a != size_b {
            Some(false)
        } else {
            None
        }),
{
    if size_a != size_b {
        Some(false)
    } else {
        None
    }
}

/// Compares the whole content of `a` and `b`, wherever their positions stand.
/// Sources of different sizes are told apart without any read or move;
/// otherwise both go back to their first byte and are compared in rounds of
/// at most `buffer_size` bytes.
pub fn same_content_from_files2<E, A: SeekableSource<E>, B: SeekableSource<E>>(
    a: &mut A,
    b: &mut B,
    buffer_size: usize,
) -> (r: Result<bool, E>)
    requires
        buffer_size >= 1,
    ensures
        final(a).content() == old(a).content(),
        final(b).content() == old(b).content(),
        match r {
            Ok(same) => {
                &&& same == same_content(old(a).content(), old(b).content())
                &&& old(a).content().len() == old(b).content().len() ==> compared(
                    old(a).content(),
                    old(b).content(),
                    final(a).remaining(),
                    final(b).remaining(),
                    buffer_size as int,
                    same,
                )
            },
            Err(_) => true,
        },
        old(a).content().len() != old(b).content().len() ==> *final(a) == *old(a) && *final(b)
            == *old(b),
        old(a).never_fails() && old(b).never_fails() ==> r is Ok,
{
    let size_a = match a.size() {
        Ok(n) => n,
        Err(e) => {
            return Err(e);
        },
    };
    let size_b = match b.size() {
        Ok(n) => n,
        Err(e) => {
            return Err(e);
        },
    };
    match sizes_decide(size_a, size_b) {
        Some(same) => {
            return Ok(same);
        },
        None => {},
    }
    match a.rewind() {
        Ok(()) => {},
        Err(e) => {
            return Err(e);
        },
    }
    match b.rewind() {
        Ok(()) => {},
        Err(e) => {
            return Err(e);
        },
    }
    same_content_from_readers2(a, b, buffer_size)
}

/// Compares the whole content of `a` and `b` in rounds of the default buffer
/// size.
pub fn same_content_from_files<E, A: SeekableSource<E>, B: SeekableSource<E>>(a: &mut A, b: &mut B) -> (r:
    Result<bool, E>)
    ensures
        final(a).content() == old(a).content(),
        final(b).content() == old(b).content(),
        match r {
            Ok(same) => {
                &&& same == same_content(old(a).content(), old(b).content())
                &&& old(a).content().len() == old(b).content().len() ==> compared(
                    old(a).content(),
                    old(b).content(),
                    final(a).remaining(),
                    final(b).remaining(),
                    DEFAULT_BUFFER_SIZE as int,
                    same,
                )
            },
            Err(_) => true,
        },
        old(a).content().len() != old(b).content().len() ==> *final(a) == *old(a) && *final(b)
            == *old(b),
        old(a).never_fails() && old(b).never_fails() ==> r is Ok,
{
    same_content_from_files2(a, b, DEFAULT_BUFFER_SIZE)
}

} // verus!
