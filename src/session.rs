use vstd::prelude::*;

verus! {

/// What the party that owns the two sources is to do next.
#[derive(Debug, Clone, Copy, PartialEq, Eq)]
pub enum Step {
    /// Read once from the first source, at most this many bytes, and report
    /// them with `first_read`.
    ReadFirst(usize),
    /// Read from the second source, at most this many bytes, and report them
    /// with `second_read`.
    ReadSecond(usize),
    /// The comparison is over: whether the two sources hold the same bytes.
    Done(bool),
}

/// True where the bytes seen from two sources, and which of them are known
/// to have ended, already rule out equal content: the two disagree at some
/// position that both reached, or one ended shorter than what the other gave.
pub open spec fn known_different(sa: Seq<u8>, ended_a: bool, sb: Seq<u8>, ended_b: bool) -> bool {
    ||| exists|i: int| 0 <= i < sa.len() && i < sb.len() && sa[i] != sb[i]
    ||| ended_a && sa.len() < sb.len()
    ||| ended_b && sb.len() < sa.len()
}

/// Appends the bytes of `data` to `dst`.
fn append_bytes(dst: &mut Vec<u8>, data: &[u8])
    ensures
        final(dst)@ == old(dst)@ + data@,
{
    let mut i: usize = 0;
    while i < data.len()
        invariant
            i <= data@.len(),
            dst@ == old(dst)@ + data@.take(i as int),
        decreases data@.len() - i,
    {
        dst.push(data[i]);
        assert(data@.take(i + 1) =~= data@.take(i as int).push(data@[i as int]));
        i = i + 1;
    }
    assert(data@.take(i as int) =~= data@);
}

/// True where `x` and `y` hold the same bytes.
fn same_bytes(x: &Vec<u8>, y: &Vec<u8>) -> (r: bool)
    ensures
        r == (x@ == y@),
{
    if x.len() != y.len() {
        return false;
    }
    let mut i: usize = 0;
    while i < x.len()
        invariant
            x.len() == y.len(),
            i <= x.len(),
            x@.take(i as int) == y@.take(i as int),
        decreases x.len() - i,
    {
        if x[i] != y[i] {
            assert(x@[i as int] != y@[i as int]);
            return false;
        }
        assert(x@.take(i + 1) =~= x@.take(i as int).push(x@[i as int]));
        assert(y@.take(i + 1) =~= y@.take(i as int).push(y@[i as int]));
        i = i + 1;
    }
    assert(x@ =~= x@.take(i as int));
    assert(y@ =~= y@.take(i as int));
    true
}

/// True where `x` and `y` have the same first `k` bytes, both being at least
/// `k` long.
pub open spec fn agree_upto(x: Seq<u8>, y: Seq<u8>, k: int) -> bool {
    &&& 0 <= k <= x.len()
    &&& k <= y.len()
    &&& x.take(k) == y.take(k)
}

/// True where neither `sa` nor `sb` runs more than `n` bytes past a prefix
/// on which the two agree.
pub open spec fn within_one_buffer(sa: Seq<u8>, sb: Seq<u8>, n: int) -> bool {
    &&& (sa.len() <= n || agree_upto(sa, sb, sa.len() - n))
    &&& (sb.len() <= n || agree_upto(sa, sb, sb.len() - n))
}

/// Agreement on a prefix carries over to every shorter prefix.
proof fn lemma_agree_shorter(x: Seq<u8>, y: Seq<u8>, j: int, k: int)
    requires
        agree_upto(x, y, k),
        0 <= j <= k,
    ensures
        agree_upto(x, y, j),
{
    assert(x.take(j) =~= x.take(k).take(j));
    assert(y.take(j) =~= y.take(k).take(j));
}

/// Both sequences within `n` bytes past a common prefix of length `k`.
proof fn lemma_within(sa: Seq<u8>, sb: Seq<u8>, n: int, k: int)
    requires
        agree_upto(sa, sb, k),
        sa.len() <= k + n,
        sb.len() <= k + n,
    ensures
        within_one_buffer(sa, sb, n),
{
    if sa.len() > n {
        lemma_agree_shorter(sa, sb, sa.len() - n, k);
    }
    if sb.len() > n {
        lemma_agree_shorter(sa, sb, sb.len() - n, k);
    }
}

/// Once a comparison has decided, its verdict is whether the two sources
/// hold the same bytes, for any contents `x` and `y` that begin with what was
/// seen of each and end there where the source reported its end.
pub proof fn lemma_verdict(
    sa: Seq<u8>,
    ended_a: bool,
    sb: Seq<u8>,
    ended_b: bool,
    x: Seq<u8>,
    y: Seq<u8>,
)
    requires
        sa.len() <= x.len(),
        sa == x.take(sa.len() as int),
        ended_a ==> x == sa,
        sb.len() <= y.len(),
        sb == y.take(sb.len() as int),
        ended_b ==> y == sb,
    ensures
        known_different(sa, ended_a, sb, ended_b) ==> x != y,
        ended_a && ended_b && sa == sb ==> x == y,
{
    if known_different(sa, ended_a, sb, ended_b) && x == y {
        if exists|i: int| 0 <= i < sa.len() && i < sb.len() && sa[i] != sb[i] {
            let i = choose|i: int| 0 <= i < sa.len() && i < sb.len() && sa[i] != sb[i];
            assert(sa[i] == x[i]);
            assert(sb[i] == y[i]);
        }
    }
}

/// Where `sa` and `sb` begin `x` and `y` and agree on their first `k`
/// bytes, so do `x` and `y`.
pub proof fn lemma_agree_extends(sa: Seq<u8>, sb: Seq<u8>, x: Seq<u8>, y: Seq<u8>, k: int)
    requires
        agree_upto(sa, sb, k),
        sa.len() <= x.len(),
        sa == x.take(sa.len() as int),
        sb.len() <= y.len(),
        sb == y.take(sb.len() as int),
    ensures
        agree_upto(x, y, k),
{
    assert(x.take(k) =~= sa.take(k));
    assert(y.take(k) =~= sb.take(k));
}

/// True where `sb` is no longer than `sa`, or one byte longer where the
/// source of `sa` has ended.
pub open spec fn second_not_ahead(sa: Seq<u8>, ended_a: bool, sb: Seq<u8>) -> bool {
    sb.len() <= sa.len() || (ended_a && sb.len() == sa.len() + 1)
}

/// A comparison of two sources driven by whoever can read them, blocking or
/// not: it says which read to make next, takes what the read gave, and
/// decides. Each round takes one read of at most the buffer size from the
/// first source, then as many bytes from the second, gathered over as many
/// reads as it takes.
pub struct Comparison {
    buffer_size: usize,
    chunk: Vec<u8>,
    got: Vec<u8>,
    want: usize,
    verdict: Option<bool>,
    seen_a: Ghost<Seq<u8>>,
    seen_b: Ghost<Seq<u8>>,
    ended_a: Ghost<bool>,
    ended_b: Ghost<bool>,
}

impl Comparison {
    /// All bytes taken from the first source so far.
    pub closed spec fn seen_first(&self) -> Seq<u8> {
        self.seen_a@
    }

    /// All bytes taken from the second source so far.
    pub closed spec fn seen_second(&self) -> Seq<u8> {
        self.seen_b@
    }

    /// Whether the first source has reported its end.
    pub closed spec fn first_ended(&self) -> bool {
        self.ended_a@
    }

    /// Whether the second source has reported its end.
    pub closed spec fn second_ended(&self) -> bool {
        self.ended_b@
    }

    /// The chosen buffer size.
    pub closed spec fn buffer_size(&self) -> nat {
        self.buffer_size as nat
    }

    /// A verdict, once given, is borne out by what was seen: equal bytes from
    /// two ended sources, or a difference that no later byte can undo.
    pub open spec fn decided_rightly(&self) -> bool {
        match self.next() {
            Step::Done(true) => {
                &&& self.first_ended()
                &&& self.second_ended()
                &&& self.seen_first() == self.seen_second()
            },
            Step::Done(false) => known_different(
                self.seen_first(),
                self.first_ended(),
                self.seen_second(),
                self.second_ended(),
            ),
            _ => true,
        }
    }

    /// What was seen is what sources holding `x` and `y` give: a beginning of
    /// each, the whole of it where that source reported its end.
    pub open spec fn fed_from(&self, x: Seq<u8>, y: Seq<u8>) -> bool {
        &&& self.seen_first().len() <= x.len()
        &&& self.seen_first() == x.take(self.seen_first().len() as int)
        &&& self.first_ended() ==> x == self.seen_first()
        &&& self.seen_second().len() <= y.len()
        &&& self.seen_second() == y.take(self.seen_second().len() as int)
        &&& self.second_ended() ==> y == self.seen_second()
    }

    /// Neither source has been read more than one buffer past the bytes on
    /// which the two agree.
    pub open spec fn read_within_one_buffer(&self) -> bool {
        within_one_buffer(self.seen_first(), self.seen_second(), self.buffer_size() as int)
    }

    /// The second source has been read no further than the first, or one
    /// byte further once the first has ended.
    pub open spec fn second_within_first(&self) -> bool {
        second_not_ahead(self.seen_first(), self.first_ended(), self.seen_second())
    }

    /// What is to be done next.
    pub closed spec fn next(&self) -> Step {
        match self.verdict {
            Some(same) => Step::Done(same),
            None => if self.want == 0 {
                Step::ReadFirst(self.buffer_size)
            } else {
                Step::ReadSecond((self.want - self.got.len()) as usize)
            },
        }
    }

    /// The state is consistent with the bytes seen so far.
    pub closed spec fn wf(&self) -> bool {
        let sa = self.seen_a@;
        let sb = self.seen_b@;
        &&& self.buffer_size >= 1
        &&& self.want <= self.buffer_size
        &&& within_one_buffer(sa, sb, self.buffer_size as int)
        &&& second_not_ahead(sa, self.ended_a@, sb)
        &&& match self.verdict {
            Some(true) => self.ended_a@ && self.ended_b@ && sa == sb,
            Some(false) => known_different(sa, self.ended_a@, sb, self.ended_b@),
            None => {
                &&& !self.ended_b@
                &&& self.got@.len() < self.want || self.want == 0
                &&& if self.want == 0 {
                    &&& !self.ended_a@
                    &&& sa == sb
                    &&& self.chunk@.len() == 0
                    &&& self.got@.len() == 0
                } else if self.ended_a@ {
                    &&& self.chunk@.len() == 0
                    &&& self.want == 1
                    &&& self.got@.len() == 0
                    &&& sa == sb
                } else {
                    &&& self.chunk@.len() == self.want
                    &&& self.want <= self.buffer_size
                    &&& sa.len() >= self.want
                    &&& sb == sa.take(sa.len() - self.want) + self.got@
                    &&& sa == sa.take(sa.len() - self.want) + self.chunk@
                }
            },
        }
    }

    /// A comparison that has seen nothing yet.
    pub fn new(buffer_size: usize) -> (r: Self)
        requires
            buffer_size >= 1,
        ensures
            r.wf(),
            r.buffer_size() == buffer_size,
            r.seen_first() == Seq::<u8>::empty(),
            r.seen_second() == Seq::<u8>::empty(),
            !r.first_ended(),
            !r.second_ended(),
            r.next() == Step::ReadFirst(buffer_size),
            r.decided_rightly(),
            r.read_within_one_buffer(),
            r.second_within_first(),
    {
        Comparison {
            buffer_size,
            chunk: Vec::with_capacity(buffer_size),
            got: Vec::with_capacity(buffer_size),
            want: 0,
            verdict: None,
            seen_a: Ghost(Seq::empty()),
            seen_b: Ghost(Seq::empty()),
            ended_a: Ghost(false),
            ended_b: Ghost(false),
        }
    }

    /// What is to be done next.
    pub fn step(&self) -> (r: Step)
        requires
            self.wf(),
        ensures
            r == self.next(),
            match r {
                Step::ReadFirst(n) => n == self.buffer_size() && !self.first_ended(),
                Step::ReadSecond(n) => 1 <= n <= self.buffer_size(),
                Step::Done(_) => true,
            },
    {
        match self.verdict {
            Some(same) => Step::Done(same),
            None => if self.want == 0 {
                Step::ReadFirst(self.buffer_size)
            } else {
                Step::ReadSecond(self.want - self.got.len())
            },
        }
    }

    /// Takes the bytes that one read from the first source gave; none means
    /// that the first source has ended.
    pub fn first_read(&mut self, data: &[u8])
        requires
            old(self).wf(),
            old(self).next() matches Step::ReadFirst(n) && data@.len() <= n,
        ensures
            final(self).wf(),
            final(self).buffer_size() == old(self).buffer_size(),
            final(self).seen_first() == old(self).seen_first() + data@,
            final(self).seen_second() == old(self).seen_second(),
            final(self).first_ended() == (data@.len() == 0),
            !final(self).second_ended(),
            final(self).next() == Step::ReadSecond(if data@.len() == 0 { 1 } else { data@.len() as usize }),
            final(self).decided_rightly(),
            final(self).read_within_one_buffer(),
            final(self).second_within_first(),
    {
        let ghost sa = self.seen_a@;
        self.chunk.clear();
        append_bytes(&mut self.chunk, data);
        self.seen_a = Ghost(sa + data@);
        if data.len() == 0 {
            self.ended_a = Ghost(true);
            self.want = 1;
            assert(sa + data@ =~= sa);
        } else {
            self.want = data.len();
            assert((sa + data@).take(sa.len() as int) =~= sa);
            proof {
                assert(self.seen_b@.take(sa.len() as int) =~= sa);
                lemma_within(sa + data@, self.seen_b@, self.buffer_size as int, sa.len() as int);
            }
        }
    }

    /// Takes the bytes that one read from the second source gave; none means
    /// that the second source has ended.
    pub fn second_read(&mut self, data: &[u8])
        requires
            old(self).wf(),
            old(self).next() matches Step::ReadSecond(n) && data@.len() <= n,
        ensures
            final(self).wf(),
            final(self).decided_rightly(),
            final(self).read_within_one_buffer(),
            final(self).second_within_first(),
            final(self).buffer_size() == old(self).buffer_size(),
            final(self).seen_first() == old(self).seen_first(),
            final(self).seen_second() == old(self).seen_second() + data@,
            final(self).first_ended() == old(self).first_ended(),
            final(self).second_ended() == (data@.len() == 0),
            data@.len() == 0 ==> final(self).next() is Done,
    {
        let ghost sa = self.seen_a@;
        let ghost sb = self.seen_b@;
        let ghost common = sa.take(sa.len() - self.want);
        self.seen_b = Ghost(sb + data@);
        if data.len() == 0 {
            self.ended_b = Ghost(true);
            assert(sb + data@ =~= sb);
            proof {
                if !self.ended_a@ {
                    assert(sb.len() == common.len() + self.got@.len());
                    assert(sb.len() < sa.len());
                }
            }
            self.verdict = Some(self.chunk.len() == 0);
            return;
        }
        append_bytes(&mut self.got, data);
        if self.chunk.len() == 0 {
            assert(self.got@.len() == 1);
            proof {
                assert((sb + data@).take(sa.len() as int) =~= sa);
                assert(sa.take(sa.len() as int) =~= sa);
                lemma_within(sa, sb + data@, self.buffer_size as int, sa.len() as int);
            }
            assert((sb + data@).len() > sa.len());
            self.verdict = Some(false);
            return;
        }
        assert(sb + data@ =~= common + self.got@);
        proof {
            assert(sa.take(common.len() as int) =~= common);
            assert((sb + data@).take(common.len() as int) =~= common);
            lemma_within(sa, sb + data@, self.buffer_size as int, common.len() as int);
        }
        if self.got.len() < self.want {
            return;
        }
        if same_bytes(&self.chunk, &self.got) {
            assert(sa =~= sb + data@);
            self.chunk.clear();
            self.got.clear();
            self.want = 0;
        } else {
            proof {
                assert(exists|k: int| 0 <= k < self.want && self.chunk@[k] != self.got@[k]) by {
                    if !(exists|k: int| 0 <= k < self.want && self.chunk@[k] != self.got@[k]) {
                        assert(self.chunk@ =~= self.got@);
                    }
                }
                let k = choose|k: int| 0 <= k < self.want && self.chunk@[k] != self.got@[k];
                assert(sa[common.len() + k] == self.chunk@[k]);
                assert((sb + data@)[common.len() + k] == self.got@[k]);
            }
            self.verdict = Some(false);
        }
    }

    /// Whether an interrupted read is to be tried again: so it is for
    /// either source, as long as no verdict has been given.
    pub fn retries_interrupted(&self) -> (r: bool)
        requires
            self.wf(),
        ensures
            r == !(self.next() is Done),
    {
        self.verdict.is_none()
    }
}

} // verus!
