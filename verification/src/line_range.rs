//! Cutting a range of lines out of a stream of bytes read piece by piece.
//! Lines are counted from 0; the newline that ends a line belongs to it.
use vstd::prelude::*;

verus! {

/// The number of newlines in `d`.
pub open spec fn newlines(d: Seq<u8>) -> nat
    decreases d.len(),
{
    if d.len() == 0 {
        0
    } else {
        (if d[0] == 10 {
            1nat
        } else {
            0nat
        }) + newlines(d.skip(1))
    }
}

/// The bytes of `d` that lie on lines `from` up to `to` (exclusive), when
/// the first byte of `d` lies on line `line`.
pub open spec fn range_bytes(d: Seq<u8>, from: nat, to: nat, line: nat) -> Seq<u8>
    decreases d.len(),
{
    if d.len() == 0 {
        Seq::empty()
    } else {
        (if from <= line && line < to {
            seq![d[0]]
        } else {
            Seq::empty()
        }) + range_bytes(d.skip(1), from, to, line + if d[0] == 10 {
            1nat
        } else {
            0nat
        })
    }
}

/// The smaller of two numbers.
pub open spec fn min_nat(a: nat, b: nat) -> nat {
    if a < b {
        a
    } else {
        b
    }
}

/// Cuts the lines `from` up to `to` out of a stream, fed to it piece by piece.
#[derive(Debug)]
pub struct LineRange {
    from: usize,
    to: usize,
    seen: usize,
}

impl LineRange {
    /// The first line kept.
    pub closed spec fn first(&self) -> nat {
        self.from as nat
    }

    /// The first line no longer kept.
    pub closed spec fn end(&self) -> nat {
        self.to as nat
    }

    /// The line on which the next byte fed lies (no more than `end`).
    pub closed spec fn line(&self) -> nat {
        self.seen as nat
    }

    /// Keeps the lines `from` up to `to`, before anything is fed.
    pub fn new(from: usize, to: usize) -> (r: LineRange)
        ensures
            r.first() == from,
            r.end() == to,
            r.line() == 0,
    {
        LineRange { from, to, seen: 0 }
    }

    /// Whether every line to keep has gone by.
    pub fn done(&self) -> (b: bool)
        ensures
            b == (self.line() >= self.end()),
    {
        self.seen >= self.to
    }

    /// The bytes of `chunk`, the next piece of the stream, that lie on the
    /// lines to keep.
    pub fn feed(&mut self, chunk: &[u8]) -> (out: Vec<u8>)
        requires
            old(self).line() < old(self).end(),
        ensures
            out@ == range_bytes(chunk@, old(self).first(), old(self).end(), old(self).line()),
            final(self).first() == old(self).first(),
            final(self).end() == old(self).end(),
            final(self).line() == min_nat(old(self).line() + newlines(chunk@), old(self).end()),
    {
        let ghost s0 = self.seen as nat;
        let ghost f = self.from as nat;
        let ghost t = self.to as nat;
        let len = chunk.len();
        let mut out: Vec<u8> = Vec::new();
        let mut j: usize = 0;
        assert(chunk@.skip(0) =~= chunk@);
        assert(chunk@.take(0) =~= Seq::<u8>::empty());
        // Skip the bytes before the first line to keep.
        while j < len && self.seen < self.from && self.seen < self.to
            invariant
                len == chunk@.len(),
                j <= len,
                self.from == f && self.to == t,
                self.seen <= self.to,
                self.seen == s0 + newlines(chunk@.take(j as int)),
                range_bytes(chunk@, f, t, s0) == range_bytes(chunk@.skip(j as int), f, t, self.seen as nat),
            decreases len - j,
        {
            proof {
                lemma_newlines_step(chunk@, j as int);
                assert(chunk@.skip(j as int).skip(1) =~= chunk@.skip(j + 1));
            }
            if chunk[j] == 10 {
                self.seen = self.seen + 1;
            }
            j = j + 1;
        }
        // Keep the bytes up to the end of the last line to keep.
        while j < len && self.seen < self.to
            invariant
                len == chunk@.len(),
                j <= len,
                self.from == f && self.to == t,
                self.seen <= self.to,
                j < len ==> (self.seen >= self.from || self.seen >= self.to),
                self.seen == s0 + newlines(chunk@.take(j as int)),
                range_bytes(chunk@, f, t, s0) == out@ + range_bytes(chunk@.skip(j as int), f, t, self.seen as nat),
            decreases len - j,
        {
            proof {
                lemma_newlines_step(chunk@, j as int);
                assert(chunk@.skip(j as int).skip(1) =~= chunk@.skip(j + 1));
            }
            out.push(chunk[j]);
            if chunk[j] == 10 {
                self.seen = self.seen + 1;
            }
            j = j + 1;
            assert(range_bytes(chunk@, f, t, s0) =~= out@ + range_bytes(chunk@.skip(j as int), f, t, self.seen as nat));
        }
        proof {
            if j < len {
                // every line to keep has gone by
                lemma_past_end(chunk@.skip(j as int), f, t, self.seen as nat);
                lemma_newlines_bound(chunk@, j as int);
            } else {
                assert(chunk@.take(j as int) =~= chunk@);
                assert(chunk@.skip(j as int) =~= Seq::<u8>::empty());
            }
            assert(out@ + Seq::<u8>::empty() =~= out@);
        }
        out
    }
}

proof fn lemma_newlines_step(d: Seq<u8>, j: int)
    requires
        0 <= j < d.len(),
    ensures
        newlines(d.take(j + 1)) == newlines(d.take(j)) + if d[j] == 10 {
            1nat
        } else {
            0nat
        },
{
    lemma_newlines_concat(d.take(j), seq![d[j]]);
    assert(d.take(j) + seq![d[j]] =~= d.take(j + 1));
    assert(seq![d[j]].skip(1) =~= Seq::<u8>::empty());
    assert(newlines(Seq::<u8>::empty()) == 0);
    assert(newlines(seq![d[j]]) == (if d[j] == 10 {
        1nat
    } else {
        0nat
    }) + newlines(seq![d[j]].skip(1)));
}

/// Newlines add up over concatenation.
pub proof fn lemma_newlines_concat(a: Seq<u8>, b: Seq<u8>)
    ensures
        newlines(a + b) == newlines(a) + newlines(b),
    decreases a.len(),
{
    if a.len() > 0 {
        lemma_newlines_concat(a.skip(1), b);
        assert((a + b).skip(1) =~= a.skip(1) + b);
    } else {
        assert(a + b =~= b);
    }
}

proof fn lemma_newlines_bound(d: Seq<u8>, j: int)
    requires
        0 <= j <= d.len(),
    ensures
        newlines(d.take(j)) <= newlines(d),
{
    lemma_newlines_concat(d.take(j), d.skip(j));
    assert(d.take(j) + d.skip(j) =~= d);
}

/// Once the line reaches the end of the range, nothing more is kept.
pub proof fn lemma_past_end(d: Seq<u8>, from: nat, to: nat, line: nat)
    requires
        line >= to,
    ensures
        range_bytes(d, from, to, line) == Seq::<u8>::empty(),
    decreases d.len(),
{
    if d.len() > 0 {
        lemma_past_end(d.skip(1), from, to, line + if d[0] == 10 {
            1nat
        } else {
            0nat
        });
        assert(range_bytes(d, from, to, line) =~= Seq::<u8>::empty());
    }
}

/// Law: reading the stream in pieces changes nothing. What is kept of `a`
/// followed by `b` is what is kept of `a`, then what is kept of `b` starting
/// on the line where `a` ends, counted no further than the end of the range.
pub proof fn law_pieces_concatenate(a: Seq<u8>, b: Seq<u8>, from: nat, to: nat, line: nat)
    ensures
        range_bytes(a + b, from, to, line) == range_bytes(a, from, to, line) + range_bytes(
            b,
            from,
            to,
            min_nat(line + newlines(a), to),
        ),
    decreases a.len(),
{
    if a.len() == 0 {
        assert(a + b =~= b);
        assert(range_bytes(a, from, to, line) + range_bytes(b, from, to, line) =~= range_bytes(
            b,
            from,
            to,
            line,
        ));
        if line > to {
            lemma_past_end(b, from, to, line);
            lemma_past_end(b, from, to, to);
        }
    } else {
        let step: nat = if a[0] == 10 {
            1
        } else {
            0
        };
        law_pieces_concatenate(a.skip(1), b, from, to, line + step);
        assert((a + b).skip(1) =~= a.skip(1) + b);
        assert((a + b)[0] == a[0]);
        assert(range_bytes(a + b, from, to, line) =~= range_bytes(a, from, to, line)
            + range_bytes(b, from, to, min_nat(line + newlines(a), to)));
    }
}

/// Law: when every line of `d` lies in the range, all of `d` is kept.
pub proof fn law_range_keeps_all(d: Seq<u8>, from: nat, to: nat, line: nat)
    requires
        from <= line,
        line + newlines(d) < to,
    ensures
        range_bytes(d, from, to, line) == d,
    decreases d.len(),
{
    if d.len() > 0 {
        let next = line + if d[0] == 10 {
            1nat
        } else {
            0nat
        };
        law_range_keeps_all(d.skip(1), from, to, next);
        assert(d =~= seq![d[0]] + d.skip(1));
    }
}

/// Law: once the range is past, nothing more is kept.
pub proof fn law_range_keeps_none_after(d: Seq<u8>, from: nat, to: nat, line: nat)
    requires
        line >= to,
    ensures
        range_bytes(d, from, to, line) == Seq::<u8>::empty(),
    decreases d.len(),
{
    if d.len() > 0 {
        let next = line + if d[0] == 10 {
            1nat
        } else {
            0nat
        };
        law_range_keeps_none_after(d.skip(1), from, to, next);
        assert(Seq::<u8>::empty() + Seq::<u8>::empty() =~= Seq::<u8>::empty());
    }
}

/// Law: what is kept is part of the stream, byte for byte in order: it is
/// never longer than the stream.
pub proof fn law_range_no_longer(d: Seq<u8>, from: nat, to: nat, line: nat)
    ensures
        range_bytes(d, from, to, line).len() <= d.len(),
    decreases d.len(),
{
    if d.len() > 0 {
        let next = line + if d[0] == 10 {
            1nat
        } else {
            0nat
        };
        law_range_no_longer(d.skip(1), from, to, next);
    }
}

} // verus!
