use vstd::prelude::*;

use crate::record::BEDRecord;

verus! {

/// The mathematical view of an interval: name, start, end.
pub type Interval = (Seq<char>, usize, usize);

/// One step of the merge on the open region `open` and an incoming interval
/// `r`: the region that `r` closes, if any, and the region open after `r`.
pub open spec fn merge_step(open: Option<Interval>, r: Interval) -> (Option<Interval>, Interval) {
    match open {
        None => (None, r),
        Some(o) => if r.0 != o.0 {
            (Some(o), r)
        } else if r.1 == o.2 {
            (None, (o.0, o.1, r.2))
        } else {
            (Some(o), (o.0, r.1, r.2))
        },
    }
}

/// An optional region as a sequence of zero or one regions.
pub open spec fn emitted(e: Option<Interval>) -> Seq<Interval> {
    match e {
        None => Seq::empty(),
        Some(x) => seq![x],
    }
}

/// The regions emitted while the stream `s` is consumed starting from the
/// open region `open`, the last open region included.
pub open spec fn merged_from(open: Option<Interval>, s: Seq<Interval>) -> Seq<Interval>
    decreases s.len(),
{
    if s.len() == 0 {
        emitted(open)
    } else {
        let st = merge_step(open, s[0]);
        emitted(st.0) + merged_from(Some(st.1), s.drop_first())
    }
}

/// The contiguous regions of the interval stream `s`.
pub open spec fn merged(s: Seq<Interval>) -> Seq<Interval> {
    merged_from(None, s)
}

/// The view of an optional record.
pub open spec fn opt_view(o: Option<BEDRecord>) -> Option<Interval> {
    match o {
        None => None,
        Some(r) => Some(r@),
    }
}

/// Single-pass merge of touching intervals: holds at most one open region
/// and hands back each region as soon as it is closed.
pub struct RegionMerger {
    open: Option<BEDRecord>,
}

impl View for RegionMerger {
    type V = Option<Interval>;

    closed spec fn view(&self) -> Option<Interval> {
        opt_view(self.open)
    }
}

impl RegionMerger {
    /// A merger with no open region.
    pub fn new() -> (r: RegionMerger)
        ensures
            r@ == None::<Interval>,
    {
        RegionMerger { open: None }
    }

    /// Consumes one interval; returns the region it closes, if any.
    pub fn push(&mut self, record: BEDRecord) -> (r: Option<BEDRecord>)
        ensures
            opt_view(r) == merge_step(old(self)@, record@).0,
            final(self)@ == Some(merge_step(old(self)@, record@).1),
    {
        match self.open.take() {
            None => {
                self.open = Some(record);
                None
            },
            Some(mut o) => {
                if o.seqname != record.seqname {
                    self.open = Some(record);
                    Some(o)
                } else if o.end == record.start {
                    o.set_end(&record.end);
                    self.open = Some(o);
                    None
                } else {
                    let closed = BEDRecord { seqname: o.seqname.clone(), start: o.start, end: o.end };
                    o.set_start(&record.start);
                    o.set_end(&record.end);
                    self.open = Some(o);
                    Some(closed)
                }
            },
        }
    }

    /// Ends the stream; returns the region still open, if any.
    pub fn finish(&mut self) -> (r: Option<BEDRecord>)
        ensures
            opt_view(r) == old(self)@,
            final(self)@ == None::<Interval>,
    {
        self.open.take()
    }
}

/// Holds the intervals of a BED file, in file order.
pub struct BEDData {
    pub data: Vec<BEDRecord>,
}

impl View for BEDData {
    type V = Seq<Interval>;

    open spec fn view(&self) -> Seq<Interval> {
        self.data@.map_values(|r: BEDRecord| r@)
    }
}

impl BEDData {
    pub fn new(data: Vec<BEDRecord>) -> (r: BEDData)
        ensures
            r@ == data@.map_values(|x: BEDRecord| x@),
    {
        BEDData { data }
    }

    /// Returns number of intervals in self
    pub fn len(&self) -> (r: usize)
        ensures
            r == self@.len(),
    {
        self.data.len()
    }

    /// The contiguous regions: touching intervals of one contig, in stream
    /// order, joined into one.
    pub fn merge_contiguous(&self) -> (r: BEDData)
        ensures
            r@ == merged(self@),
    {
        let mut merger = RegionMerger::new();
        let mut out: Vec<BEDRecord> = Vec::new();
        let mut i: usize = 0;
        proof {
            assert(self@.skip(0) =~= self@);
            assert(out@.map_values(|x: BEDRecord| x@) =~= Seq::empty());
        }
        while i < self.data.len()
            invariant
                i <= self@.len(),
                out@.map_values(|x: BEDRecord| x@) + merged_from(merger@, self@.skip(i as int))
                    == merged(self@),
            decreases self@.len() - i,
        {
            let r = &self.data[i];
            let item = BEDRecord { seqname: r.seqname.clone(), start: r.start, end: r.end };
            let ghost before = merger@;
            let ghost outv = out@.map_values(|x: BEDRecord| x@);
            let closed = merger.push(item);
            proof {
                let s = self@.skip(i as int);
                assert(s[0] == self@[i as int]);
                assert(self@[i as int] == self.data@[i as int]@);
                assert(s.drop_first() =~= self@.skip(i + 1));
            }
            match closed {
                Some(c) => {
                    out.push(c);
                    proof {
                        assert(out@.map_values(|x: BEDRecord| x@) =~= outv.push(c@));
                        assert(outv.push(c@) + merged_from(merger@, self@.skip(i + 1)) =~= outv
                            + (seq![c@] + merged_from(merger@, self@.skip(i + 1))));
                    }
                },
                None => {
                    proof {
                        assert(emitted(None) + merged_from(merger@, self@.skip(i + 1))
                            =~= merged_from(merger@, self@.skip(i + 1)));
                    }
                },
            }
            i = i + 1;
        }
        let ghost outv = out@.map_values(|x: BEDRecord| x@);
        proof {
            assert(self@.skip(i as int).len() == 0);
        }
        match merger.finish() {
            Some(c) => {
                out.push(c);
                proof {
                    assert(out@.map_values(|x: BEDRecord| x@) =~= outv + seq![c@]);
                }
            },
            None => {
                proof {
                    assert(outv + emitted(None) =~= outv);
                }
            },
        }
        BEDData { data: out }
    }
}

} // verus!
