use vstd::prelude::*;

use crate::compare::same_content;
use crate::session::{lemma_verdict, Comparison, Step};

verus! {

/// Any content compares equal to itself: two sources that hold the same
/// bytes, such as one file opened twice, are reported the same.
pub proof fn lemma_reflexive(x: Seq<u8>)
    ensures
        same_content(x, x),
{
}

/// The verdict does not depend on which source comes first.
pub proof fn lemma_symmetric(x: Seq<u8>, y: Seq<u8>)
    ensures
        same_content(x, y) == same_content(y, x),
{
}

/// Sources of different lengths are never reported the same.
pub proof fn lemma_length_sensitive(x: Seq<u8>, y: Seq<u8>)
    requires
        x.len() != y.len(),
    ensures
        !same_content(x, y),
{
}

/// A source that holds a strict prefix of the other is reported different.
pub proof fn lemma_strict_prefix(x: Seq<u8>, y: Seq<u8>)
    requires
        x.len() < y.len(),
        x == y.take(x.len() as int),
    ensures
        !same_content(x, y),
        !same_content(y, x),
{
}

/// A finished comparison fed from sources holding `x` and `y` answers
/// whether they are the same, so two of them agree, whatever buffer sizes
/// they were given and however the reads split the bytes.
pub proof fn lemma_verdict_independent_of_reads(
    c1: Comparison,
    c2: Comparison,
    x: Seq<u8>,
    y: Seq<u8>,
    same1: bool,
    same2: bool,
)
    requires
        c1.decided_rightly(),
        c1.next() == Step::Done(same1),
        c1.fed_from(x, y),
        c2.decided_rightly(),
        c2.next() == Step::Done(same2),
        c2.fed_from(x, y),
    ensures
        same1 == same_content(x, y),
        same1 == same2,
{
    lemma_verdict(c1.seen_first(), c1.first_ended(), c1.seen_second(), c1.second_ended(), x, y);
    lemma_verdict(c2.seen_first(), c2.first_ended(), c2.seen_second(), c2.second_ended(), x, y);
}

} // verus!
