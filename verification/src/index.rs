use vstd::prelude::*;
use crate::byteops::{bytes_eq, seqs_of};

verus! {

/// The line separator of the index record.
pub const NEWLINE: u8 = 10;

/// The ordered record of the working directory's titles: one title per
/// line, in insertion order.
pub struct ContentIndex {
    titles: Vec<Vec<u8>>,
}

impl View for ContentIndex {
    type V = Seq<Seq<u8>>;

    closed spec fn view(&self) -> Seq<Seq<u8>> {
        seqs_of(self.titles@)
    }
}

/// The index record's text: each title followed by a newline, in order.
pub open spec fn render_spec(titles: Seq<Seq<u8>>) -> Seq<u8>
    decreases titles.len(),
{
    if titles.len() == 0 {
        Seq::empty()
    } else {
        render_spec(titles.drop_last()) + titles.last() + seq![NEWLINE]
    }
}

/// Line splitting: bytes before each newline form a title, and a trailing
/// run without a newline forms a final title; `cur` carries the bytes of
/// the line being read.
pub open spec fn parse_rec(data: Seq<u8>, cur: Seq<u8>) -> Seq<Seq<u8>>
    decreases data.len(),
{
    if data.len() == 0 {
        if cur.len() == 0 {
            Seq::empty()
        } else {
            seq![cur]
        }
    } else if data[0] == NEWLINE {
        seq![cur] + parse_rec(data.drop_first(), Seq::empty())
    } else {
        parse_rec(data.drop_first(), cur.push(data[0]))
    }
}

/// The titles read from an index record's text.
pub open spec fn parse_spec(data: Seq<u8>) -> Seq<Seq<u8>> {
    parse_rec(data, Seq::empty())
}

/// True iff no title holds a newline: the only shape the line-per-title
/// record can carry faithfully.
pub open spec fn line_free(titles: Seq<Seq<u8>>) -> bool {
    forall|i: int| 0 <= i < titles.len() ==> !(#[trigger] titles[i]).contains(NEWLINE)
}

impl ContentIndex {
    /// An index with no titles.
    pub fn empty() -> (r: Self)
        ensures
            r@ == Seq::<Seq<u8>>::empty(),
    {
        let r = ContentIndex { titles: Vec::new() };
        proof {
            assert(r@ =~= Seq::<Seq<u8>>::empty());
        }
        r
    }

    /// An index holding exactly the given titles, in order.
    pub fn from_titles(titles: Vec<Vec<u8>>) -> (r: Self)
        ensures
            r@ == seqs_of(titles@),
    {
        ContentIndex { titles }
    }

    /// The titles, in insertion order.
    pub fn list(&self) -> (r: &Vec<Vec<u8>>)
        ensures
            seqs_of(r@) == self@,
    {
        &self.titles
    }

    pub fn len(&self) -> (r: usize)
        ensures
            r == self@.len(),
    {
        self.titles.len()
    }

    /// True iff some line of the record holds exactly this title.
    pub fn contains_title(&self, t: &[u8]) -> (r: bool)
        ensures
            r <==> self@.contains(t@),
    {
        let mut i: usize = 0;
        while i < self.titles.len()
            invariant
                0 <= i <= self.titles@.len(),
                self@.len() == self.titles@.len(),
                forall|j: int| 0 <= j < i ==> self@[j] != t@,
            decreases self.titles@.len() - i,
        {
            if bytes_eq(self.titles[i].as_slice(), t) {
                proof {
                    assert(self@[i as int] == t@);
                }
                return true;
            }
            proof {
                assert(self@[i as int] == self.titles@[i as int]@);
            }
            i += 1;
        }
        false
    }

    /// Appends a title at the end of the record.
    pub fn append(&mut self, t: Vec<u8>)
        ensures
            final(self)@ == old(self)@.push(t@),
    {
        let ghost d = t@;
        self.titles.push(t);
        proof {
            assert(self@ =~= old(self)@.push(d));
        }
    }

    /// Removes the first line holding this title; an absent title is a
    /// no-op, not an error.
    pub fn remove_title(&mut self, t: &[u8])
        ensures
            match old(self)@.index_of_first(t@) {
                Some(i) => final(self)@ == old(self)@.remove(i),
                None => final(self)@ == old(self)@,
            },
    {
        let mut i: usize = 0;
        while i < self.titles.len()
            invariant
                0 <= i <= self.titles@.len(),
                self@.len() == self.titles@.len(),
                *self == *old(self),
                forall|j: int| 0 <= j < i ==> self@[j] != t@,
            decreases self.titles@.len() - i,
        {
            if bytes_eq(self.titles[i].as_slice(), t) {
                proof {
                    assert(self@[i as int] == t@);
                    old(self)@.index_of_first_ensures(t@);
                    let found = old(self)@.index_of_first(t@)->Some_0;
                    assert(0 <= found < old(self)@.len() && old(self)@[found] == t@);
                    assert(found == i as int);
                }
                self.titles.remove(i);
                proof {
                    assert(self@ =~= old(self)@.remove(i as int));
                }
                return ;
            }
            i += 1;
        }
        proof {
            old(self)@.index_of_first_ensures(t@);
        }
    }

    /// Writes the record's text: one title per line.
    pub fn render(&self) -> (r: Vec<u8>)
        ensures
            r@ == render_spec(self@),
    {
        let mut out: Vec<u8> = Vec::new();
        let mut i: usize = 0;
        proof {
            assert(self@.subrange(0, 0) =~= Seq::<Seq<u8>>::empty());
        }
        while i < self.titles.len()
            invariant
                0 <= i <= self.titles@.len(),
                self@.len() == self.titles@.len(),
                out@ == render_spec(self@.subrange(0, i as int)),
            decreases self.titles@.len() - i,
        {
            let t = &self.titles[i];
            let mut j: usize = 0;
            while j < t.len()
                invariant
                    0 <= j <= t@.len(),
                    t@ == self.titles@[i as int]@,
                    i < self.titles@.len(),
                    self@.len() == self.titles@.len(),
                    out@ == render_spec(self@.subrange(0, i as int)) + t@.subrange(0, j as int),
                decreases t@.len() - j,
            {
                out.push(t[j]);
                proof {
                    assert(out@ =~= render_spec(self@.subrange(0, i as int)) + t@.subrange(
                        0,
                        j as int + 1,
                    ));
                }
                j += 1;
            }
            out.push(NEWLINE);
            proof {
                let pre = self@.subrange(0, i as int + 1);
                assert(pre.drop_last() =~= self@.subrange(0, i as int));
                assert(pre.last() == self@[i as int]);
                assert(t@.subrange(0, t@.len() as int) =~= self@[i as int]);
                assert(out@ =~= render_spec(pre));
            }
            i += 1;
        }
        proof {
            assert(self@.subrange(0, self@.len() as int) =~= self@);
        }
        out
    }

    /// Reads an index back from its record's text.
    pub fn parse(data: &[u8]) -> (r: Self)
        ensures
            r@ == parse_spec(data@),
    {
        let mut titles: Vec<Vec<u8>> = Vec::new();
        let mut cur: Vec<u8> = Vec::new();
        let mut i: usize = 0;
        proof {
            assert(data@.skip(0) =~= data@);
            assert(seqs_of(titles@) + parse_rec(data@, cur@) =~= parse_spec(data@));
        }
        while i < data.len()
            invariant
                0 <= i <= data@.len(),
                seqs_of(titles@) + parse_rec(data@.skip(i as int), cur@) == parse_spec(data@),
            decreases data@.len() - i,
        {
            let b = data[i];
            proof {
                let rest = data@.skip(i as int);
                assert(rest[0] == b);
                assert(rest.drop_first() =~= data@.skip(i as int + 1));
            }
            if b == NEWLINE {
                let done = cur;
                cur = Vec::new();
                let ghost t_old = seqs_of(titles@);
                let ghost d = done@;
                titles.push(done);
                proof {
                    assert(seqs_of(titles@) =~= t_old.push(d));
                    assert(t_old.push(d) + parse_rec(data@.skip(i as int + 1), cur@) =~= t_old + (
                    seq![d] + parse_rec(data@.skip(i as int + 1), cur@)));
                }
            } else {
                cur.push(b);
            }
            proof {
                assert(seqs_of(titles@) + parse_rec(data@.skip(i as int + 1), cur@)
                    =~= parse_spec(data@));
            }
            i += 1;
        }
        proof {
            assert(data@.skip(data@.len() as int) =~= Seq::<u8>::empty());
        }
        if cur.len() > 0 {
            let ghost t_old = seqs_of(titles@);
            let ghost d = cur@;
            titles.push(cur);
            proof {
                assert(seqs_of(titles@) =~= t_old.push(d));
                assert(t_old.push(d) =~= t_old + seq![d]);
            }
        }
        proof {
            assert(seqs_of(titles@) =~= parse_spec(data@));
        }
        ContentIndex { titles }
    }
}

/// A chunk without newlines only lengthens the line being read.
proof fn lemma_parse_chunk(t: Seq<u8>, rest: Seq<u8>, cur: Seq<u8>)
    requires
        !t.contains(NEWLINE),
    ensures
        parse_rec(t + rest, cur) == parse_rec(rest, cur + t),
    decreases t.len(),
{
    if t.len() == 0 {
        assert(t + rest =~= rest);
        assert(cur + t =~= cur);
    } else {
        assert(t[0] != NEWLINE) by {
            if t[0] == NEWLINE {
                assert(t.contains(NEWLINE));
            }
        }
        assert((t + rest)[0] == t[0]);
        assert((t + rest).drop_first() =~= t.drop_first() + rest);
        assert(!t.drop_first().contains(NEWLINE)) by {
            if t.drop_first().contains(NEWLINE) {
                let i = choose|i: int| 0 <= i < t.drop_first().len() && t.drop_first()[i]
                    == NEWLINE;
                assert(t[i + 1] == NEWLINE);
            }
        }
        lemma_parse_chunk(t.drop_first(), rest, cur.push(t[0]));
        assert(cur.push(t[0]) + t.drop_first() =~= cur + t);
    }
}

/// The record's text begins with the first title and its newline.
proof fn lemma_render_first(titles: Seq<Seq<u8>>)
    requires
        titles.len() > 0,
    ensures
        render_spec(titles) == titles[0] + seq![NEWLINE] + render_spec(titles.drop_first()),
    decreases titles.len(),
{
    if titles.len() == 1 {
        assert(titles.drop_last() =~= Seq::<Seq<u8>>::empty());
        assert(titles.drop_first() =~= Seq::<Seq<u8>>::empty());
        assert(render_spec(titles) =~= titles[0] + seq![NEWLINE] + render_spec(
            titles.drop_first(),
        ));
    } else {
        let dl = titles.drop_last();
        lemma_render_first(dl);
        assert(titles.drop_first().drop_last() =~= dl.drop_first());
        assert(titles.drop_first().last() == titles.last());
        assert(titles.drop_first().len() > 0);
        assert(render_spec(titles.drop_first()) == render_spec(titles.drop_first().drop_last())
            + titles.drop_first().last() + seq![NEWLINE]);
        assert(dl[0] == titles[0]);
        assert(render_spec(titles) =~= titles[0] + seq![NEWLINE] + render_spec(
            titles.drop_first(),
        ));
    }
}

/// The index survives a round trip through its on-disk text: parsing the
/// rendered record yields back exactly the recorded titles, provided no
/// title holds a newline.
pub proof fn lemma_parse_render_roundtrip(titles: Seq<Seq<u8>>)
    requires
        line_free(titles),
    ensures
        parse_spec(render_spec(titles)) == titles,
    decreases titles.len(),
{
    if titles.len() == 0 {
        assert(parse_spec(render_spec(titles)) =~= titles);
    } else {
        lemma_render_first(titles);
        let mid = seq![NEWLINE] + render_spec(titles.drop_first());
        assert(render_spec(titles) =~= titles[0] + mid);
        assert(!titles[0].contains(NEWLINE));
        lemma_parse_chunk(titles[0], mid, Seq::empty());
        assert(Seq::<u8>::empty() + titles[0] =~= titles[0]);
        assert(mid[0] == NEWLINE);
        assert(mid.drop_first() =~= render_spec(titles.drop_first()));
        assert(line_free(titles.drop_first())) by {
            assert forall|i: int| 0 <= i < titles.drop_first().len() implies !(
            #[trigger] titles.drop_first()[i]).contains(NEWLINE) by {
                assert(titles.drop_first()[i] == titles[i + 1]);
            }
        }
        lemma_parse_render_roundtrip(titles.drop_first());
        assert(parse_spec(render_spec(titles)) =~= titles);
    }
}

} // verus!
