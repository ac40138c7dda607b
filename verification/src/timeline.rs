//! The haplotype timeline of one chromosome: the intervals between
//! consecutive crossovers, each with the haplotype that either parent
//! transmits in it.

use vstd::prelude::*;
use crate::order::{ascending, lemma_sorted_by_position_sorts, lemma_sorted_same_members,
    sort_by_position, sorted_by_position, stably_sorted, Positioned};
use crate::recombination::{ParentId, TaggedCrossover};

verus! {

/// A stretch `[from, to)` of a chromosome over which the offspring carries
/// haplotype `hap1` of the first parent and `hap2` of the second.
#[derive(Clone, Debug)]
pub struct HaplotypeInterval {
    pub seqname: String,
    pub hap1: usize,
    pub hap2: usize,
    pub from: u64,
    pub to: u64,
}

/// What a [`HaplotypeInterval`] stands for.
pub struct IntervalModel {
    pub seqname: Seq<char>,
    pub hap1: usize,
    pub hap2: usize,
    pub from: u64,
    pub to: u64,
}

impl View for HaplotypeInterval {
    type V = IntervalModel;

    open spec fn view(&self) -> IntervalModel {
        IntervalModel {
            seqname: self.seqname@,
            hap1: self.hap1,
            hap2: self.hap2,
            from: self.from,
            to: self.to,
        }
    }
}

/// The models of a sequence of intervals.
pub open spec fn interval_models(intervals: Seq<HaplotypeInterval>) -> Seq<IntervalModel> {
    Seq::new(intervals.len(), |i: int| intervals[i]@)
}

/// A crossover was found before the boundary that precedes it.
#[derive(Clone, Copy, Debug, PartialEq, Eq, Structural)]
pub struct UnsortedCrossoverError {
    /// Index, among the events, of the first crossover out of order.
    pub index: usize,
    /// Its position.
    pub position: u64,
    /// The boundary before it, which lies after `position`.
    pub boundary: u64,
}

/// The other haplotype of a diploid pair.
pub open spec fn flipped(hap: usize) -> usize {
    if hap == 0 {
        1
    } else {
        0
    }
}

/// The haplotype that `parent` transmits after the first `n` events, having
/// started with `initial`: it flips at each event of that parent and at
/// no other.
pub open spec fn active_haplotype(
    events: Seq<TaggedCrossover>,
    parent: ParentId,
    initial: usize,
    n: int,
) -> usize
    decreases n,
{
    if n <= 0 {
        initial
    } else {
        let before = active_haplotype(events, parent, initial, n - 1);
        if events[n - 1].parent == parent {
            flipped(before)
        } else {
            before
        }
    }
}

/// The `i`-th boundary of the timeline: the chromosome's start, then the
/// crossovers in turn, then the chromosome's end.
pub open spec fn boundary(events: Seq<TaggedCrossover>, length: u64, i: int) -> u64 {
    if i <= 0 {
        0
    } else if i <= events.len() {
        events[i - 1].crossover.position
    } else {
        length
    }
}

/// The `i`-th interval of the timeline.
pub open spec fn interval_at(
    seqname: Seq<char>,
    events: Seq<TaggedCrossover>,
    hap1: usize,
    hap2: usize,
    length: u64,
    i: int,
) -> IntervalModel {
    IntervalModel {
        seqname,
        hap1: active_haplotype(events, ParentId::Parent1, hap1, i),
        hap2: active_haplotype(events, ParentId::Parent2, hap2, i),
        from: boundary(events, length, i),
        to: boundary(events, length, i + 1),
    }
}

/// The timeline of a chromosome of `length` bases on which the crossovers
/// `events` fall: one interval up to each crossover and one from the last
/// crossover to the end.
pub open spec fn timeline(
    seqname: Seq<char>,
    events: Seq<TaggedCrossover>,
    hap1: usize,
    hap2: usize,
    length: u64,
) -> Seq<IntervalModel> {
    Seq::new(
        (events.len() + 1) as nat,
        |i: int| interval_at(seqname, events, hap1, hap2, length, i),
    )
}

/// The first event that lies before its predecessor, if there is one.
pub open spec fn first_descent(events: Seq<TaggedCrossover>, k: int) -> bool {
    &&& 0 < k < events.len()
    &&& events[k].crossover.position < events[k - 1].crossover.position
    &&& ascending(events.take(k))
}

/// A timeline tiles the chromosome: it starts at 0, ends at `length`, and
/// each interval starts where the one before it ends.
pub proof fn lemma_timeline_tiles(
    seqname: Seq<char>,
    events: Seq<TaggedCrossover>,
    hap1: usize,
    hap2: usize,
    length: u64,
)
    ensures
        ({
            let t = timeline(seqname, events, hap1, hap2, length);
            &&& t.len() == events.len() + 1
            &&& t.first().from == 0
            &&& t.last().to == length
            &&& forall|i: int| 0 <= i < t.len() - 1 ==> (#[trigger] t[i]).to == t[i + 1].from
        }),
{
}

/// Where the crossovers are in ascending order and none lies beyond the
/// chromosome's end, no interval of the timeline ends before it starts.
pub proof fn lemma_timeline_intervals_ordered(
    seqname: Seq<char>,
    events: Seq<TaggedCrossover>,
    hap1: usize,
    hap2: usize,
    length: u64,
)
    requires
        ascending(events),
        forall|k: int| 0 <= k < events.len() ==> events[k].crossover.position <= length,
    ensures
        forall|i: int|
            0 <= i <= events.len() ==> (#[trigger] timeline(
                seqname,
                events,
                hap1,
                hap2,
                length,
            )[i]).from <= timeline(seqname, events, hap1, hap2, length)[i].to,
{
}

/// Whatever crossovers the two parents have on a chromosome, if none lies
/// beyond the chromosome's end, the timeline made of them tiles the
/// chromosome: it has one interval more than there are crossovers, starts
/// at 0, ends at `length`, each interval starts where the one before it
/// ends, and none ends before it starts.
pub proof fn lemma_merged_timeline_tiles(
    seqname: Seq<char>,
    first: Seq<TaggedCrossover>,
    second: Seq<TaggedCrossover>,
    hap1: usize,
    hap2: usize,
    length: u64,
)
    requires
        forall|k: int| 0 <= k < first.len() ==> (#[trigger] first[k]).crossover.position <= length,
        forall|k: int|
            0 <= k < second.len() ==> (#[trigger] second[k]).crossover.position <= length,
    ensures
        ({
            let t = timeline(seqname, sorted_by_position(first + second), hap1, hap2, length);
            &&& t.len() == first.len() + second.len() + 1
            &&& t.first().from == 0
            &&& t.last().to == length
            &&& forall|i: int| 0 <= i < t.len() - 1 ==> (#[trigger] t[i]).to == t[i + 1].from
            &&& forall|i: int| 0 <= i < t.len() ==> (#[trigger] t[i]).from <= t[i].to
        }),
{
    let all = first + second;
    let merged = sorted_by_position(all);
    lemma_sorted_by_position_sorts(all);
    lemma_sorted_same_members(merged, all);
}

/// Where either parent starts on one of its two haplotypes, 0 or 1, every
/// interval of the timeline carries one of the two.
pub proof fn lemma_haplotypes_stay_diploid(
    seqname: Seq<char>,
    events: Seq<TaggedCrossover>,
    hap1: usize,
    hap2: usize,
    length: u64,
)
    requires
        hap1 < 2,
        hap2 < 2,
    ensures
        forall|i: int|
            0 <= i <= events.len() ==> (#[trigger] timeline(
                seqname,
                events,
                hap1,
                hap2,
                length,
            )[i]).hap1 < 2 && timeline(seqname, events, hap1, hap2, length)[i].hap2 < 2,
{
    let t = timeline(seqname, events, hap1, hap2, length);
    assert forall|i: int| 0 <= i <= events.len() implies (#[trigger] t[i]).hap1 < 2 && t[i].hap2
        < 2 by {
        lemma_active_haplotype_diploid(events, ParentId::Parent1, hap1, i);
        lemma_active_haplotype_diploid(events, ParentId::Parent2, hap2, i);
    }
}

/// A haplotype that starts as 0 or 1 stays 0 or 1.
proof fn lemma_active_haplotype_diploid(
    events: Seq<TaggedCrossover>,
    parent: ParentId,
    initial: usize,
    n: int,
)
    requires
        initial < 2,
    ensures
        active_haplotype(events, parent, initial, n) < 2,
    decreases n,
{
    if n > 0 {
        lemma_active_haplotype_diploid(events, parent, initial, n - 1);
    }
}

/// Along a timeline the first parent's haplotype changes at the crossovers
/// of the first parent and nowhere else, and the second parent's at those
/// of the second and nowhere else.
pub proof fn lemma_haplotypes_alternate(
    seqname: Seq<char>,
    events: Seq<TaggedCrossover>,
    hap1: usize,
    hap2: usize,
    length: u64,
)
    ensures
        forall|i: int|
            #![trigger events[i]]
            0 <= i < events.len() ==> {
                let t = timeline(seqname, events, hap1, hap2, length);
                &&& t[i + 1].hap1 != t[i].hap1 <==> events[i].parent == ParentId::Parent1
                &&& t[i + 1].hap2 != t[i].hap2 <==> events[i].parent == ParentId::Parent2
            },
{
}

/// Walks the crossovers `events` of one chromosome and cuts the chromosome
/// into the intervals between them. `hap1` and `hap2` are the haplotypes
/// that the parents transmit at the chromosome's start.
///
/// Fails if a crossover lies before the one that precedes it.
pub fn haplotype_intervals(
    seqname: &String,
    events: &Vec<TaggedCrossover>,
    hap1: usize,
    hap2: usize,
    length: u64,
) -> (r: Result<Vec<HaplotypeInterval>, UnsortedCrossoverError>)
    ensures
        r is Ok <==> ascending(events@),
        r matches Ok(intervals) ==> interval_models(intervals@) == timeline(
            seqname@,
            events@,
            hap1,
            hap2,
            length,
        ),
        r matches Err(e) ==> {
            &&& first_descent(events@, e.index as int)
            &&& e.position == events@[e.index as int].crossover.position
            &&& e.boundary == events@[e.index - 1].crossover.position
        },
{
    let mut intervals: Vec<HaplotypeInterval> = Vec::new();
    let mut last_position: u64 = 0;
    let mut current_hap1: usize = hap1;
    let mut current_hap2: usize = hap2;
    let mut i: usize = 0;
    while i < events.len()
        invariant
            i <= events.len(),
            ascending(events@.take(i as int)),
            last_position == boundary(events@, length, i as int),
            current_hap1 == active_haplotype(events@, ParentId::Parent1, hap1, i as int),
            current_hap2 == active_haplotype(events@, ParentId::Parent2, hap2, i as int),
            intervals.len() == i,
            forall|k: int|
                0 <= k < i ==> (#[trigger] intervals@[k])@ == interval_at(
                    seqname@,
                    events@,
                    hap1,
                    hap2,
                    length,
                    k,
                ),
        decreases events.len() - i,
    {
        let position = events[i].crossover.position;
        if last_position > position {
            return Err(UnsortedCrossoverError { index: i, position, boundary: last_position });
        }
        intervals.push(
            HaplotypeInterval {
                seqname: seqname.clone(),
                hap1: current_hap1,
                hap2: current_hap2,
                from: last_position,
                to: position,
            },
        );
        match events[i].parent {
            ParentId::Parent1 => {
                current_hap1 = if current_hap1 == 0 {
                    1
                } else {
                    0
                };
            },
            ParentId::Parent2 => {
                current_hap2 = if current_hap2 == 0 {
                    1
                } else {
                    0
                };
            },
        }
        proof {
            let grown = events@.take(i + 1);
            assert forall|a: int, b: int| 0 <= a <= b < grown.len() implies grown[a].place()
                <= grown[b].place() by {
                if b < i {
                    assert(events@.take(i as int)[a] == grown[a]);
                } else if a < i {
                    assert(events@.take(i as int)[i - 1] == events@[i - 1]);
                }
            }
        }
        last_position = position;
        i += 1;
    }
    intervals.push(
        HaplotypeInterval {
            seqname: seqname.clone(),
            hap1: current_hap1,
            hap2: current_hap2,
            from: last_position,
            to: length,
        },
    );
    proof {
        assert(events@.take(i as int) =~= events@);
    }
    Ok(intervals)
}

/// Brings the crossovers of both parents on one chromosome into one
/// sequence, ascending by position. Crossovers at one position keep their
/// order, those of the first parent before those of the second.
pub fn merge_crossovers(first: &Vec<TaggedCrossover>, second: &Vec<TaggedCrossover>) -> (merged:
    Vec<TaggedCrossover>)
    ensures
        stably_sorted(merged@, first@ + second@),
        merged@ == sorted_by_position(first@ + second@),
{
    let mut all: Vec<TaggedCrossover> = Vec::new();
    let mut i: usize = 0;
    while i < first.len()
        invariant
            i <= first.len(),
            all@ == first@.take(i as int),
        decreases first.len() - i,
    {
        all.push(first[i].duplicate());
        i += 1;
    }
    let mut j: usize = 0;
    while j < second.len()
        invariant
            i == first.len(),
            j <= second.len(),
            all@ == first@ + second@.take(j as int),
        decreases second.len() - j,
    {
        all.push(second[j].duplicate());
        j += 1;
    }
    assert(all@ =~= first@ + second@);
    sort_by_position(&all)
}

/// The timeline of one chromosome from the crossovers of both parents:
/// they are merged into one ascending sequence, and the chromosome is cut
/// at each of them.
pub fn build_timeline(
    seqname: &String,
    first: &Vec<TaggedCrossover>,
    second: &Vec<TaggedCrossover>,
    hap1: usize,
    hap2: usize,
    length: u64,
) -> (intervals: Vec<HaplotypeInterval>)
    ensures
        interval_models(intervals@) == timeline(
            seqname@,
            sorted_by_position(first@ + second@),
            hap1,
            hap2,
            length,
        ),
        intervals@.len() == first@.len() + second@.len() + 1,
        hap1 < 2 && hap2 < 2 ==> forall|k: int|
            0 <= k < intervals@.len() ==> (#[trigger] intervals@[k]).hap1 < 2 && intervals@[k].hap2
                < 2,
{
    let merged = merge_crossovers(first, second);
    match haplotype_intervals(seqname, &merged, hap1, hap2, length) {
        Ok(intervals) => {
            proof {
                assert(interval_models(intervals@).len() == merged@.len() + 1);
                if hap1 < 2 && hap2 < 2 {
                    lemma_haplotypes_stay_diploid(seqname@, merged@, hap1, hap2, length);
                    assert forall|k: int| 0 <= k < intervals@.len() implies (
                    #[trigger] intervals@[k]).hap1 < 2 && intervals@[k].hap2 < 2 by {
                        assert(interval_models(intervals@)[k] == intervals@[k]@);
                    }
                }
            }
            intervals
        },
        Err(_) => {
            proof {
                assert(false);
            }
            Vec::new()
        },
    }
}

} // verus!
