use itertools::Itertools;
use vstd::prelude::*;

use crate::error::BedError;
use crate::record::BEDGraphRecord;

verus! {

/// The mathematical view of one scored record: name, start, end, score.
pub type GraphRec<S> = (Seq<char>, usize, usize, S);

/// Whether a record lies on contig `name` inside `[lo, hi]`.
pub open spec fn in_range<S>(r: GraphRec<S>, name: Seq<char>, lo: usize, hi: usize) -> bool {
    r.0 == name && lo <= r.1 && r.2 <= hi
}

/// The records of `s` that lie on `name` inside `[lo, hi]`, in their order.
pub open spec fn filtered<S>(s: Seq<GraphRec<S>>, name: Seq<char>, lo: usize, hi: usize) -> Seq<
    GraphRec<S>,
>
    decreases s.len(),
{
    if s.len() == 0 {
        Seq::empty()
    } else {
        let p = filtered(s.drop_last(), name, lo, hi);
        if in_range(s.last(), name, lo, hi) {
            p.push(s.last())
        } else {
            p
        }
    }
}

/// The scores of a record sequence, in order.
pub open spec fn scores_of<S>(s: Seq<GraphRec<S>>) -> Seq<S> {
    s.map_values(|r: GraphRec<S>| r.3)
}

/// `m` is the greatest end coordinate among the records of `s`.
pub open spec fn is_max_end<S>(s: Seq<GraphRec<S>>, m: usize) -> bool {
    &&& forall|i: int| 0 <= i < s.len() ==> #[trigger] s[i].2 <= m
    &&& exists|i: int| 0 <= i < s.len() && #[trigger] s[i].2 == m
}

/// `m` is the greatest end coordinate among the records of `s` on contig `name`.
pub open spec fn is_contig_max_end<S>(s: Seq<GraphRec<S>>, name: Seq<char>, m: usize) -> bool {
    &&& forall|i: int| 0 <= i < s.len() && #[trigger] s[i].0 == name ==> s[i].2 <= m
    &&& exists|i: int| 0 <= i < s.len() && #[trigger] s[i].0 == name && s[i].2 == m
}

/// Whether some record of `s` lies on contig `name`.
pub open spec fn has_contig<S>(s: Seq<GraphRec<S>>, name: Seq<char>) -> bool {
    exists|i: int| 0 <= i < s.len() && #[trigger] s[i].0 == name
}

/// A membership characterisation of `filtered`: it holds exactly the records
/// of `s` that are in range, each at a position of `s`.
pub proof fn lemma_filtered_members<S>(s: Seq<GraphRec<S>>, name: Seq<char>, lo: usize, hi: usize)
    ensures
        forall|j: int|
            0 <= j < filtered(s, name, lo, hi).len() ==> in_range(
                #[trigger] filtered(s, name, lo, hi)[j],
                name,
                lo,
                hi,
            ) && s.contains(filtered(s, name, lo, hi)[j]),
        forall|i: int|
            0 <= i < s.len() && in_range(#[trigger] s[i], name, lo, hi) ==> filtered(
                s,
                name,
                lo,
                hi,
            ).contains(s[i]),
    decreases s.len(),
{
    if s.len() > 0 {
        let d = s.drop_last();
        lemma_filtered_members(d, name, lo, hi);
        let p = filtered(d, name, lo, hi);
        let f = filtered(s, name, lo, hi);
        assert forall|j: int| 0 <= j < f.len() implies in_range(#[trigger] f[j], name, lo, hi)
            && s.contains(f[j]) by {
            if j < p.len() {
                assert(f[j] == p[j]);
                let k = choose|k: int| 0 <= k < d.len() && d[k] == p[j];
                assert(s[k] == d[k]);
            } else {
                assert(s[s.len() - 1] == s.last());
            }
        }
        assert forall|i: int| 0 <= i < s.len() && in_range(#[trigger] s[i], name, lo, hi) implies f.contains(s[i]) by {
            if i < s.len() - 1 {
                assert(d[i] == s[i]);
                let k = choose|k: int| 0 <= k < p.len() && p[k] == d[i];
                assert(f[k] == p[k]);
            } else {
                assert(f[f.len() - 1] == s.last());
            }
        }
    }
}

/// The records of contig `name`, whatever their coordinates.
pub open spec fn contig_block<S>(s: Seq<GraphRec<S>>, name: Seq<char>) -> Seq<GraphRec<S>> {
    filtered(s, name, 0, usize::MAX)
}

/// Distinct values of `s`, each kept at its first occurrence, in order.
pub open spec fn first_occurrences(s: Seq<Seq<char>>) -> Seq<Seq<char>>
    decreases s.len(),
{
    if s.len() == 0 {
        Seq::empty()
    } else {
        let p = first_occurrences(s.drop_last());
        if s.drop_last().contains(s.last()) {
            p
        } else {
            p.push(s.last())
        }
    }
}

/// The views of a sequence of strings.
pub open spec fn names_of(v: Seq<String>) -> Seq<Seq<char>> {
    v.map_values(|x: String| x@)
}

/// The contig names of a track, in order of first occurrence.
pub open spec fn contig_names<S>(s: Seq<GraphRec<S>>) -> Seq<Seq<char>> {
    first_occurrences(s.map_values(|r: GraphRec<S>| r.0))
}

/// Whether `pad` values can be added on each side of `sc`: circular padding
/// wraps at most the whole sequence, edge padding needs a value to copy.
pub open spec fn pad_fits<S>(sc: Seq<S>, pad: int, circular: bool) -> bool {
    if circular {
        pad <= sc.len()
    } else {
        pad == 0 || sc.len() > 0
    }
}

/// `sc` extended by `pad` values on each side: wrapped around when
/// `circular`, else copies of the first and last value.
pub open spec fn padded<S>(sc: Seq<S>, pad: int, circular: bool) -> Seq<S> {
    let n = sc.len() as int;
    if circular {
        sc.subrange(n - pad, n) + sc + sc.subrange(0, pad)
    } else {
        Seq::new(pad as nat, |i: int| sc[0]) + sc + Seq::new(pad as nat, |i: int| sc[n - 1])
    }
}

/// The records of `recs` with their scores replaced, one for one, by `sc`.
pub open spec fn rescored<S>(recs: Seq<GraphRec<S>>, sc: Seq<S>) -> Seq<GraphRec<S>> {
    Seq::new(recs.len(), |i: int| (recs[i].0, recs[i].1, recs[i].2, sc[i]))
}

/// Filtering a track to one contig over the whole coordinate range and
/// taking the greatest end of what remains gives the greatest end among all
/// the records of that contig.
pub proof fn lemma_contig_max_end<S>(s: Seq<GraphRec<S>>, name: Seq<char>, m: usize)
    requires
        is_max_end(contig_block(s, name), m),
    ensures
        is_contig_max_end(s, name, m),
{
    let f = contig_block(s, name);
    lemma_filtered_members(s, name, 0, usize::MAX);
    assert forall|i: int| 0 <= i < s.len() && #[trigger] s[i].0 == name implies s[i].2 <= m by {
        assert(in_range(s[i], name, 0, usize::MAX));
        assert(f.contains(s[i]));
        let k = choose|k: int| 0 <= k < f.len() && f[k] == s[i];
        assert(f[k].2 <= m);
    }
    let k = choose|k: int| 0 <= k < f.len() && #[trigger] f[k].2 == m;
    assert(in_range(f[k], name, 0, usize::MAX));
    assert(s.contains(f[k]));
    let i = choose|i: int| 0 <= i < s.len() && s[i] == f[k];
    assert(s[i].0 == name && s[i].2 == m);
}

/// Relies on `itertools::Itertools::unique`: documented as stable, it keeps
/// the first of each set of equal items and yields them in input order.
#[verifier::external_body]
fn unique_names(names: Vec<String>) -> (r: Vec<String>)
    ensures
        names_of(r@) == first_occurrences(names_of(names@)),
{
    names.into_iter().unique().collect()
}

/// Appends `src[from..to]` to `out`.
fn push_range<S: Copy>(out: &mut Vec<S>, src: &Vec<S>, from: usize, to: usize)
    requires
        from <= to <= src@.len(),
    ensures
        final(out)@ == old(out)@ + src@.subrange(from as int, to as int),
{
    let mut i: usize = from;
    while i < to
        invariant
            from <= i <= to <= src@.len(),
            out@ == old(out)@ + src@.subrange(from as int, i as int),
        decreases to - i,
    {
        out.push(src[i]);
        i = i + 1;
        proof {
            assert(out@ =~= old(out)@ + src@.subrange(from as int, i as int));
        }
    }
}

/// Appends `k` copies of `v` to `out`.
fn push_copies<S: Copy>(out: &mut Vec<S>, v: S, k: usize)
    ensures
        final(out)@ == old(out)@ + Seq::new(k as nat, |i: int| v),
{
    let mut i: usize = 0;
    while i < k
        invariant
            i <= k,
            out@ == old(out)@ + Seq::new(i as nat, |j: int| v),
        decreases k - i,
    {
        out.push(v);
        i = i + 1;
        proof {
            assert(out@ =~= old(out)@ + Seq::new(i as nat, |j: int| v));
        }
    }
}

/// The statistic taken over each window of a rolling computation.
#[derive(Debug, Clone, Copy, PartialEq, Eq, Structural)]
pub enum RollFn {
    Median,
    Mean,
}

/// An ordered track of scored intervals, grouped by contig in file order.
pub struct BEDGraphData<S> {
    pub data: Vec<BEDGraphRecord<S>>,
}

impl<S> View for BEDGraphData<S> {
    type V = Seq<GraphRec<S>>;

    open spec fn view(&self) -> Seq<GraphRec<S>> {
        self.data@.map_values(|r: BEDGraphRecord<S>| r@)
    }
}

impl<S: Copy> BEDGraphData<S> {
    pub fn new(data: Vec<BEDGraphRecord<S>>) -> (r: BEDGraphData<S>)
        ensures
            r@ == data@.map_values(|x: BEDGraphRecord<S>| x@),
    {
        BEDGraphData { data }
    }

    /// Returns number of records in self
    pub fn len(&self) -> (r: usize)
        ensures
            r == self@.len(),
    {
        self.data.len()
    }

    /// The record at position `i`.
    pub fn get(&self, i: usize) -> (r: &BEDGraphRecord<S>)
        requires
            i < self@.len(),
        ensures
            r@ == self@[i as int],
    {
        &self.data[i]
    }

    /// The records on contig `seqname` with `start >= lo` and `end <= hi`, in
    /// their original order.
    pub fn filter(&self, seqname: &str, start: &usize, end: &usize) -> (r: BEDGraphData<S>)
        ensures
            r@ == filtered(self@, seqname@, *start, *end),
    {
        let name: String = seqname.to_owned();
        let mut out: Vec<BEDGraphRecord<S>> = Vec::new();
        let mut i: usize = 0;
        while i < self.data.len()
            invariant
                i <= self@.len(),
                name@ == seqname@,
                out@.map_values(|x: BEDGraphRecord<S>| x@) == filtered(
                    self@.take(i as int),
                    seqname@,
                    *start,
                    *end,
                ),
            decreases self@.len() - i,
        {
            let r = &self.data[i];
            proof {
                assert(self@.take(i + 1).drop_last() =~= self@.take(i as int));
                assert(self@.take(i + 1).last() == r@);
            }
            if r.seqname == name && r.start >= *start && r.end <= *end {
                let copy = BEDGraphRecord {
                    seqname: r.seqname.clone(),
                    start: r.start,
                    end: r.end,
                    score: r.score,
                };
                out.push(copy);
                proof {
                    assert(out@.map_values(|x: BEDGraphRecord<S>| x@) =~= filtered(
                        self@.take(i + 1),
                        seqname@,
                        *start,
                        *end,
                    ));
                }
            } else {
                proof {
                    assert(out@.map_values(|x: BEDGraphRecord<S>| x@) =~= filtered(
                        self@.take(i + 1),
                        seqname@,
                        *start,
                        *end,
                    ));
                }
            }
            i = i + 1;
        }
        proof {
            assert(self@.take(i as int) =~= self@);
        }
        BEDGraphData { data: out }
    }

    /// The score column, in record order.
    pub fn fetch_scores(&self) -> (r: Vec<S>)
        ensures
            r@ == scores_of(self@),
    {
        let mut out: Vec<S> = Vec::new();
        let mut i: usize = 0;
        while i < self.data.len()
            invariant
                i <= self@.len(),
                out@ == scores_of(self@).take(i as int),
            decreases self@.len() - i,
        {
            out.push(self.data[i].score);
            i = i + 1;
            proof {
                assert(out@ =~= scores_of(self@).take(i as int));
            }
        }
        proof {
            assert(scores_of(self@).take(i as int) =~= scores_of(self@));
        }
        out
    }

    /// The greatest end coordinate in the track.
    pub fn get_max_end(&self) -> (r: usize)
        requires
            self@.len() > 0,
        ensures
            is_max_end(self@, r),
    {
        let mut m: usize = self.data[0].end;
        let mut i: usize = 1;
        proof {
            assert(self@[0].2 == m);
        }
        while i < self.data.len()
            invariant
                1 <= i <= self@.len(),
                forall|j: int| 0 <= j < i ==> #[trigger] self@[j].2 <= m,
                exists|j: int| 0 <= j < i && #[trigger] self@[j].2 == m,
            decreases self@.len() - i,
        {
            if self.data[i].end > m {
                m = self.data[i].end;
                proof {
                    assert(self@[i as int].2 == m);
                }
            }
            proof {
                assert(self@[i as int].2 <= m);
            }
            i = i + 1;
        }
        m
    }

    /// The greatest end coordinate of contig `seqname`.
    pub fn get_contig_length(&self, seqname: &str) -> (r: Result<usize, BedError>)
        ensures
            match r {
                Ok(m) => is_contig_max_end(self@, seqname@, m),
                Err(e) => e == BedError::EmptyContig && !has_contig(self@, seqname@),
            },
    {
        let ctg = self.filter(seqname, &0, &usize::MAX);
        if ctg.len() == 0 {
            proof {
                lemma_filtered_members(self@, seqname@, 0, usize::MAX);
                assert forall|i: int| 0 <= i < self@.len() implies #[trigger] self@[i].0
                    != seqname@ by {
                    if self@[i].0 == seqname@ {
                        assert(in_range(self@[i], seqname@, 0, usize::MAX));
                        assert(ctg@.contains(self@[i]));
                    }
                }
            }
            Err(BedError::EmptyContig)
        } else {
            let m = ctg.get_max_end();
            proof {
                lemma_contig_max_end(self@, seqname@, m);
            }
            Ok(m)
        }
    }

    /// The bin width: the distance between the first two starts.
    pub fn get_resolution(&self) -> (r: usize)
        requires
            self@.len() >= 2,
            self@[0].1 <= self@[1].1,
        ensures
            r == self@[1].1 - self@[0].1,
    {
        self.data[1].start - self.data[0].start
    }

    /// The contig names in order of first occurrence.
    pub fn get_contigs(&self) -> (r: Vec<String>)
        ensures
            names_of(r@) == contig_names(self@),
    {
        let mut names: Vec<String> = Vec::new();
        let mut i: usize = 0;
        while i < self.data.len()
            invariant
                i <= self@.len(),
                names_of(names@) == self@.map_values(|r: GraphRec<S>| r.0).take(i as int),
            decreases self@.len() - i,
        {
            let c = self.data[i].seqname.clone();
            proof {
                assert(self@[i as int].0 == self.data@[i as int].seqname@);
                assert(names_of(names@).len() == i);
            }
            names.push(c);
            proof {
                assert(names@[i as int] == c);
                assert(names_of(names@)[i as int] == c@);
            }
            i = i + 1;
            proof {
                assert(names_of(names@) =~= self@.map_values(|r: GraphRec<S>| r.0).take(
                    i as int,
                ));
            }
        }
        proof {
            assert(self@.map_values(|r: GraphRec<S>| r.0).take(i as int) =~= self@.map_values(
                |r: GraphRec<S>| r.0,
            ));
        }
        unique_names(names)
    }

    /// The scores extended by `pad_size` values on each side, wrapped around
    /// when `circular`, else copies of the first and the last score.
    pub fn get_padded_scores(&self, pad_size: usize, circular: bool) -> (r: Result<Vec<S>, BedError>)
        ensures
            match r {
                Ok(p) => {
                    &&& pad_fits(scores_of(self@), pad_size as int, circular)
                    &&& p@ == padded(scores_of(self@), pad_size as int, circular)
                },
                Err(e) => {
                    &&& !pad_fits(scores_of(self@), pad_size as int, circular)
                    &&& e == if circular {
                        BedError::PadExceedsContig { pad: pad_size, len: self@.len() as usize }
                    } else {
                        BedError::EmptyStore
                    }
                },
            },
            r is Ok ==> r->Ok_0@.len() == self@.len() + 2 * pad_size,
            r is Ok && circular ==> forall|i: int|
                0 <= i < pad_size ==> #[trigger] r->Ok_0@[i] == self@[self@.len() - pad_size + i].3,
            r is Ok && circular ==> forall|j: int|
                self@.len() + pad_size <= j < self@.len() + 2 * pad_size ==> #[trigger] r->Ok_0@[j]
                    == self@[j - self@.len() - pad_size].3,
            r is Ok && !circular ==> forall|i: int|
                0 <= i < pad_size ==> #[trigger] r->Ok_0@[i] == self@[0].3,
            r is Ok && !circular ==> forall|j: int|
                self@.len() + pad_size <= j < self@.len() + 2 * pad_size ==> #[trigger] r->Ok_0@[j]
                    == self@[self@.len() - 1].3,
    {
        let scores = self.fetch_scores();
        let n = scores.len();
        let mut out: Vec<S> = Vec::new();
        if circular {
            if pad_size > n {
                return Err(BedError::PadExceedsContig { pad: pad_size, len: n });
            }
            push_range(&mut out, &scores, n - pad_size, n);
            push_range(&mut out, &scores, 0, n);
            push_range(&mut out, &scores, 0, pad_size);
            proof {
                assert(scores@.subrange(0, n as int) =~= scores@);
            }
        } else {
            if n == 0 && pad_size > 0 {
                return Err(BedError::EmptyStore);
            }
            if n == 0 {
                proof {
                    assert(out@ =~= padded(scores@, 0, false));
                }
            } else {
                push_copies(&mut out, scores[0], pad_size);
                push_range(&mut out, &scores, 0, n);
                push_copies(&mut out, scores[n - 1], pad_size);
                proof {
                    assert(scores@.subrange(0, n as int) =~= scores@);
                    assert(out@ =~= padded(scores@, pad_size as int, false));
                }
            }
        }
        Ok(out)
    }

    /// Appends the records of `block` with their scores replaced by `scores`.
    pub fn extend_rescored(&mut self, block: &BEDGraphData<S>, scores: &Vec<S>)
        requires
            scores@.len() == block@.len(),
        ensures
            final(self)@ == old(self)@ + rescored(block@, scores@),
    {
        let mut i: usize = 0;
        while i < block.data.len()
            invariant
                i <= block@.len() == scores@.len(),
                self@ == old(self)@ + rescored(block@, scores@).take(i as int),
            decreases block@.len() - i,
        {
            let r = &block.data[i];
            let rec = BEDGraphRecord {
                seqname: r.seqname.clone(),
                start: r.start,
                end: r.end,
                score: scores[i],
            };
            let ghost prev = self.data@;
            proof {
                assert(block@[i as int] == block.data@[i as int]@);
                assert(rec@ == rescored(block@, scores@)[i as int]);
            }
            self.data.push(rec);
            proof {
                assert(self.data@ == prev.push(rec));
                assert(self@ =~= prev.map_values(|x: BEDGraphRecord<S>| x@).push(rec@));
            }
            i = i + 1;
            proof {
                assert(self@ =~= old(self)@ + rescored(block@, scores@).take(i as int));
            }
        }
        proof {
            assert(rescored(block@, scores@).take(i as int) =~= rescored(block@, scores@));
        }
    }

    /// A copy of the track with its scores replaced, one for one, by `scores`.
    pub fn with_scores(&self, scores: &Vec<S>) -> (r: BEDGraphData<S>)
        requires
            scores@.len() == self@.len(),
        ensures
            r@ == rescored(self@, scores@),
    {
        let mut r = BEDGraphData { data: Vec::new() };
        proof {
            assert(r@ =~= Seq::empty());
        }
        r.extend_rescored(self, scores);
        proof {
            assert(r@ =~= rescored(self@, scores@));
        }
        r
    }

    /// Replaces the scores in place, one for one, by `scores`.
    pub fn set_scores(&mut self, scores: &Vec<S>)
        requires
            scores@.len() == old(self)@.len(),
        ensures
            final(self)@ == rescored(old(self)@, scores@),
    {
        let r = self.with_scores(scores);
        self.data = r.data;
    }

    /// The input of a rolling statistic of odd width `window_size`: for each
    /// contig, in order of first occurrence, its records and its scores
    /// padded by `(window_size - 1) / 2` values on each side.
    pub fn padded_contigs(&self, window_size: usize, circular: bool) -> (r: Result<
        Vec<(BEDGraphData<S>, Vec<S>)>,
        BedError,
    >)
        ensures
            window_size % 2 == 0 ==> (r matches Err(e) && e == BedError::InvalidWindow {
                window_size,
            }),
            r is Ok <==> window_size % 2 == 1 && forall|k: int|
                0 <= k < contig_names(self@).len() ==> pad_fits(
                    scores_of(contig_block(self@, #[trigger] contig_names(self@)[k])),
                    (window_size - 1) / 2,
                    circular,
                ),
            r matches Ok(v) ==> {
                &&& v@.len() == contig_names(self@).len()
                &&& forall|k: int|
                    0 <= k < v@.len() ==> (#[trigger] v@[k]).0@ == contig_block(
                        self@,
                        contig_names(self@)[k],
                    ) && v@[k].1@ == padded(scores_of(v@[k].0@), (window_size - 1) / 2, circular)
            },
            window_size % 2 == 1 ==> (r matches Err(e) ==> e is PadExceedsContig || e is EmptyStore),
    {
        if window_size % 2 == 0 {
            return Err(BedError::InvalidWindow { window_size });
        }
        let pad = (window_size - 1) / 2;
        let contigs = self.get_contigs();
        let ghost names = contig_names(self@);
        let mut out: Vec<(BEDGraphData<S>, Vec<S>)> = Vec::new();
        let mut k: usize = 0;
        while k < contigs.len()
            invariant
                pad == (window_size - 1) / 2,
                window_size % 2 == 1,
                names == contig_names(self@),
                names_of(contigs@) == names,
                k <= contigs@.len(),
                out@.len() == k,
                forall|j: int|
                    0 <= j < k ==> pad_fits(
                        scores_of(contig_block(self@, #[trigger] names[j])),
                        pad as int,
                        circular,
                    ),
                forall|j: int|
                    0 <= j < k ==> (#[trigger] out@[j]).0@ == contig_block(self@, names[j])
                        && out@[j].1@ == padded(scores_of(out@[j].0@), pad as int, circular),
            decreases contigs@.len() - k,
        {
            proof {
                assert(names[k as int] == contigs@[k as int]@);
            }
            let block = self.filter(contigs[k].as_str(), &0, &usize::MAX);
            match block.get_padded_scores(pad, circular) {
                Ok(p) => {
                    out.push((block, p));
                },
                Err(e) => {
                    return Err(e);
                },
            }
            k = k + 1;
        }
        Ok(out)
    }
}

} // verus!
