use vstd::prelude::*;
use vstd::seq_lib::lemma_flatten_concat;

verus! {

/// The pieces of `s` that a separator byte has closed, in order, without
/// their separators.
pub open spec fn pieces(s: Seq<u8>, sep: u8) -> Seq<Seq<u8>>
    decreases s.len(),
{
    if s.len() == 0 {
        seq![]
    } else if s.last() == sep {
        pieces(s.drop_last(), sep).push(rest(s.drop_last(), sep))
    } else {
        pieces(s.drop_last(), sep)
    }
}

/// The bytes of `s` after its last separator (all of `s` if it has none).
pub open spec fn rest(s: Seq<u8>, sep: u8) -> Seq<u8>
    decreases s.len(),
{
    if s.len() == 0 {
        seq![]
    } else if s.last() == sep {
        seq![]
    } else {
        rest(s.drop_last(), sep).push(s.last())
    }
}

/// The views of a sequence of byte vectors.
pub open spec fn views(v: Seq<Vec<u8>>) -> Seq<Seq<u8>> {
    v.map_values(|x: Vec<u8>| x@)
}

/// Every piece of `s`: the closed ones, then the open remainder.
pub open spec fn all_pieces(s: Seq<u8>, sep: u8) -> Seq<Seq<u8>> {
    pieces(s, sep).push(rest(s, sep))
}

/// The pieces of a finished stream: the closed ones, then the remainder if it
/// is not empty.
pub open spec fn flushed_pieces(s: Seq<u8>, sep: u8) -> Seq<Seq<u8>> {
    if rest(s, sep).len() == 0 {
        pieces(s, sep)
    } else {
        pieces(s, sep).push(rest(s, sep))
    }
}

/// The pieces that `chunk` closes when it follows `seen`.
pub open spec fn newly_closed(seen: Seq<u8>, chunk: Seq<u8>, sep: u8) -> Seq<Seq<u8>> {
    pieces(seen + chunk, sep).skip(pieces(seen, sep).len() as int)
}

/// The pieces that a splitter hands out when the chunks are pushed one after
/// another into a fresh one.
pub open spec fn fed(chunks: Seq<Seq<u8>>, sep: u8) -> Seq<Seq<u8>>
    decreases chunks.len(),
{
    if chunks.len() == 0 {
        seq![]
    } else {
        fed(chunks.drop_last(), sep) + newly_closed(chunks.drop_last().flatten(), chunks.last(), sep)
    }
}

/// Appending bytes never changes the pieces already closed.
pub proof fn lemma_pieces_prefix(a: Seq<u8>, b: Seq<u8>, sep: u8)
    ensures
        pieces(a, sep).len() <= pieces(a + b, sep).len(),
        pieces(a + b, sep).subrange(0, pieces(a, sep).len() as int) == pieces(a, sep),
    decreases b.len(),
{
    if b.len() == 0 {
        assert(a + b =~= a);
        assert(pieces(a, sep).subrange(0, pieces(a, sep).len() as int) =~= pieces(a, sep));
    } else {
        assert((a + b).drop_last() =~= a + b.drop_last());
        lemma_pieces_prefix(a, b.drop_last(), sep);
        let p = pieces(a + b.drop_last(), sep);
        let n = pieces(a, sep).len() as int;
        if (a + b).last() == sep {
            assert(p.push(rest(a + b.drop_last(), sep)).subrange(0, n) =~= p.subrange(0, n));
        }
    }
}

/// Pushing chunks one after another closes exactly the pieces of their
/// concatenation, wherever the chunk boundaries fall.
pub proof fn lemma_fed(chunks: Seq<Seq<u8>>, sep: u8)
    ensures
        fed(chunks, sep) == pieces(chunks.flatten(), sep),
    decreases chunks.len(),
{
    if chunks.len() == 0 {
        assert(pieces(Seq::<u8>::empty(), sep) =~= Seq::<Seq<u8>>::empty());
        assert(fed(chunks, sep) =~= pieces(chunks.flatten(), sep));
    } else {
        let init = chunks.drop_last();
        let last = chunks.last();
        lemma_fed(init, sep);
        lemma_flatten_concat(init, seq![last]);
        seq![last].lemma_flatten_one_element();
        assert(init + seq![last] =~= chunks);
        assert(chunks.flatten() =~= init.flatten() + last);
        lemma_pieces_prefix(init.flatten(), last, sep);
        let whole = pieces(init.flatten() + last, sep);
        let n = pieces(init.flatten(), sep).len() as int;
        assert(whole =~= whole.subrange(0, n) + whole.skip(n));
    }
}

/// Splits a stream that arrives in chunks at a separator byte, keeping the
/// unfinished piece between chunks.
pub struct Splitter {
    sep: u8,
    pending: Vec<u8>,
    seen: Ghost<Seq<u8>>,
}

impl Splitter {
    /// The separator byte.
    pub closed spec fn separator(&self) -> u8 {
        self.sep
    }

    /// Everything pushed so far.
    pub closed spec fn consumed(&self) -> Seq<u8> {
        self.seen@
    }

    pub closed spec fn wf(&self) -> bool {
        self.pending@ == rest(self.seen@, self.sep)
    }

    pub fn new(sep: u8) -> (r: Splitter)
        ensures
            r.wf(),
            r.separator() == sep,
            r.consumed() == Seq::<u8>::empty(),
    {
        Splitter { sep, pending: Vec::new(), seen: Ghost(Seq::empty()) }
    }

    /// Takes the next chunk and returns the pieces that it closes, in order.
    pub fn push(&mut self, chunk: &[u8]) -> (closed: Vec<Vec<u8>>)
        requires
            old(self).wf(),
        ensures
            final(self).wf(),
            final(self).separator() == old(self).separator(),
            final(self).consumed() == old(self).consumed() + chunk@,
            pieces(final(self).consumed(), final(self).separator()) == pieces(
                old(self).consumed(),
                old(self).separator(),
            )
                + views(closed@),
            views(closed@) == newly_closed(old(self).consumed(), chunk@, old(self).separator()),
    {
        let ghost start = self.seen@;
        let mut closed: Vec<Vec<u8>> = Vec::new();
        let mut i: usize = 0;
        assert(start + chunk@.subrange(0, 0) =~= start);
        assert(pieces(start, self.sep) + views(closed@) =~= pieces(start, self.sep));
        while i < chunk.len()
            invariant
                self.sep == old(self).sep,
                start == old(self).seen@,
                0 <= i <= chunk@.len(),
                self.pending@ == rest(start + chunk@.subrange(0, i as int), self.sep),
                pieces(start + chunk@.subrange(0, i as int), self.sep) == pieces(start, self.sep)
                    + views(closed@),
            decreases chunk@.len() - i,
        {
            let ghost before = start + chunk@.subrange(0, i as int);
            let ghost after = start + chunk@.subrange(0, i as int + 1);
            assert(after.drop_last() =~= before);
            assert(after.last() == chunk@[i as int]);
            let b = chunk[i];
            if b == self.sep {
                let mut piece: Vec<u8> = Vec::new();
                std::mem::swap(&mut piece, &mut self.pending);
                let ghost prev = views(closed@);
                let ghost pv = piece@;
                closed.push(piece);
                assert(views(closed@) =~= prev.push(pv));
                assert(pieces(after, self.sep) =~= pieces(start, self.sep) + views(closed@));
            } else {
                self.pending.push(b);
            }
            i = i + 1;
        }
        assert(start + chunk@.subrange(0, chunk@.len() as int) =~= start + chunk@);
        self.seen = Ghost(start + chunk@);
        proof {
            let all = pieces(start + chunk@, self.sep);
            let n = pieces(start, self.sep).len() as int;
            assert(all.skip(n) =~= views(closed@));
        }
        closed
    }

    /// Ends the stream: the unfinished piece, if it is not empty.
    pub fn finish(self) -> (last: Option<Vec<u8>>)
        requires
            self.wf(),
        ensures
            last is None <==> rest(self.consumed(), self.separator()).len() == 0,
            last matches Some(p) ==> p@ == rest(self.consumed(), self.separator()),
            pieces(self.consumed(), self.separator()) + (match last {
                Some(p) => seq![p@],
                None => Seq::<Seq<u8>>::empty(),
            }) == flushed_pieces(self.consumed(), self.separator()),
    {
        if self.pending.len() == 0 {
            assert(pieces(self.seen@, self.sep) + Seq::<Seq<u8>>::empty() =~= pieces(self.seen@, self.sep));
            None
        } else {
            let p = self.pending;
            assert(pieces(self.seen@, self.sep) + seq![p@] =~= pieces(self.seen@, self.sep).push(p@));
            Some(p)
        }
    }
}

} // verus!
