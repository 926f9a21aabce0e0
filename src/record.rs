use vstd::prelude::*;

verus! {

/// One line of a BED file: a half-open interval `[start, end)` on a named
/// sequence.
#[derive(Debug, Clone, PartialEq)]
pub struct BEDRecord {
    pub seqname: String,
    pub start: usize,
    pub end: usize,
}

impl View for BEDRecord {
    type V = (Seq<char>, usize, usize);

    open spec fn view(&self) -> (Seq<char>, usize, usize) {
        (self.seqname@, self.start, self.end)
    }
}

impl BEDRecord {
    pub fn new(seqname: String, start: usize, end: usize) -> (r: BEDRecord)
        ensures
            r@ == (seqname@, start, end),
    {
        BEDRecord { seqname, start, end }
    }

    pub fn set(&mut self, seqname: &str, start: &usize, end: &usize)
        ensures
            final(self)@ == (seqname@, *start, *end),
    {
        self.set_seqname(seqname);
        self.set_start(start);
        self.set_end(end);
    }

    pub fn set_seqname(&mut self, seqname: &str)
        ensures
            final(self)@ == (seqname@, old(self).start, old(self).end),
    {
        self.seqname = seqname.to_owned();
    }

    pub fn set_start(&mut self, start: &usize)
        ensures
            final(self)@ == (old(self).seqname@, *start, old(self).end),
    {
        self.start = *start;
    }

    pub fn set_end(&mut self, end: &usize)
        ensures
            final(self)@ == (old(self).seqname@, old(self).start, *end),
    {
        self.end = *end;
    }
}

/// A scored interval: one line of a bedGraph file.
#[derive(Debug, Clone, PartialEq)]
pub struct BEDGraphRecord<S> {
    pub seqname: String,
    pub start: usize,
    pub end: usize,
    pub score: S,
}

impl<S> View for BEDGraphRecord<S> {
    type V = (Seq<char>, usize, usize, S);

    open spec fn view(&self) -> (Seq<char>, usize, usize, S) {
        (self.seqname@, self.start, self.end, self.score)
    }
}

impl<S> BEDGraphRecord<S> {
    pub fn new(seqname: String, start: usize, end: usize, score: S) -> (r: BEDGraphRecord<S>)
        ensures
            r@ == (seqname@, start, end, score),
    {
        BEDGraphRecord { seqname, start, end, score }
    }

    pub fn set_score(&mut self, new_score: S)
        ensures
            final(self)@ == (old(self).seqname@, old(self).start, old(self).end, new_score),
    {
        self.score = new_score;
    }
}

} // verus!
