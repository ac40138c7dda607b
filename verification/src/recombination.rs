//! Crossovers and the genetic map along which they are placed.

use vstd::prelude::*;
use vstd::std_specs::cmp::PartialEqSpecImpl;
use rand::rngs::StdRng;
use crate::mapfile::{one_chromosome, row_models, MalformedMapError, MalformedMapKind, MapRow};
use crate::table::{holds_latest, ChromosomeTable, Entry, Named};
use crate::order::{ascending, lemma_sorted_same_members, sort_by_position, sorted_by_position,
    Positioned};
use crate::rng::draw_u64;

verus! {

/// A crossover: a point on a chromosome at which the transmitted copy
/// switches from one parental haplotype to the other.
#[derive(Clone, Debug, Default, Hash)]
pub struct Crossover {
    pub seqname: String,
    pub position: u64,
}

impl PartialEq for Crossover {
    fn eq(&self, other: &Crossover) -> (r: bool) {
        self.position == other.position && self.seqname == other.seqname
    }
}

impl PartialEqSpecImpl for Crossover {
    open spec fn obeys_eq_spec() -> bool {
        true
    }

    open spec fn eq_spec(&self, other: &Crossover) -> bool {
        self.position == other.position && self.seqname@ == other.seqname@
    }
}

impl Eq for Crossover {}

impl Positioned for Crossover {
    open spec fn place(&self) -> u64 {
        self.position
    }

    fn position_of(&self) -> (p: u64) {
        self.position
    }

    fn duplicate(&self) -> (r: Self) {
        Crossover { seqname: self.seqname.clone(), position: self.position }
    }
}

/// The parent in whose meiosis a crossover happened.
#[derive(Clone, Copy, Debug, PartialEq, Eq, Structural)]
pub enum ParentId {
    Parent1,
    Parent2,
}

/// A crossover together with the parent it belongs to.
#[derive(Clone, Debug)]
pub struct TaggedCrossover {
    pub parent: ParentId,
    pub crossover: Crossover,
}

impl Positioned for TaggedCrossover {
    open spec fn place(&self) -> u64 {
        self.crossover.position
    }

    fn position_of(&self) -> (p: u64) {
        self.crossover.position
    }

    fn duplicate(&self) -> (r: Self) {
        TaggedCrossover { parent: self.parent, crossover: self.crossover.duplicate() }
    }
}

/// A point of the genetic map: a position on a chromosome and the genetic
/// distance from the chromosome's start to it.
///
/// The distance, in centimorgans, is held as the bit pattern of an IEEE 754
/// double. Nothing here computes with it; two distances are only ever
/// tested for equality.
#[derive(Clone, Debug, Default)]
pub struct RecombinationSegment {
    pub seqname: String,
    pub position: u64,
    pub centimorgan: u64,
}

/// The genetic map of one chromosome: its points in the order of the
/// file they were read from.
#[derive(Clone, Debug)]
pub struct RecombinationMap {
    pub seqname: String,
    pub segments: Vec<RecombinationSegment>,
}

/// The genetic maps of all chromosomes, by chromosome.
#[derive(Debug)]
pub struct RecombinationMapGenome {
    pub recombination_maps: ChromosomeTable<RecombinationMap>,
}

/// Whether a bit pattern is that of a double that is not a number.
pub open spec fn is_nan_bits(bits: u64) -> bool {
    bits % 0x8000_0000_0000_0000 > 0x7ff0_0000_0000_0000
}

/// Whether a bit pattern is that of a zero, of either sign.
pub open spec fn is_zero_bits(bits: u64) -> bool {
    bits % 0x8000_0000_0000_0000 == 0
}

/// Whether the doubles with the bit patterns `a` and `b` are equal as
/// numbers: neither is not-a-number, and they are the same pattern or both
/// a zero.
pub open spec fn equal_distances(a: u64, b: u64) -> bool {
    &&& !is_nan_bits(a)
    &&& !is_nan_bits(b)
    &&& (a == b || (is_zero_bits(a) && is_zero_bits(b)))
}

/// The segment positions of a map do not decrease.
pub open spec fn positions_ascending(segments: Seq<RecombinationSegment>) -> bool {
    forall|i: int, j: int|
        0 <= i <= j < segments.len() ==> segments[i].position <= segments[j].position
}

/// The crossover `c` lies between the `k`-th point of the map and the
/// next, on the chromosome of the `k`-th.
pub open spec fn lies_in_pair(segments: Seq<RecombinationSegment>, k: int, c: Crossover) -> bool {
    &&& 0 <= k
    &&& k + 1 < segments.len()
    &&& segments[k].position <= c.position < segments[k + 1].position
    &&& c.seqname@ == segments[k].seqname@
}

/// The crossover `c` lies in one of the first `done` pairs of the map.
pub open spec fn lies_in_pairs_before(
    segments: Seq<RecombinationSegment>,
    done: int,
    c: Crossover,
) -> bool {
    exists|k: int| k < done && #[trigger] lies_in_pair(segments, k, c)
}

/// The number of pairs of neighbouring points of a map.
pub open spec fn pair_count(segments: Seq<RecombinationSegment>) -> int {
    if segments.len() == 0 {
        0
    } else {
        segments.len() - 1
    }
}

/// The two points of a pair lie at one position or in the wrong order, so
/// that no crossover can be placed between them.
#[derive(Clone, Copy, Debug, PartialEq, Eq, Structural)]
pub struct EmptyRangeError {
    /// Index of the pair's first point.
    pub pair: usize,
    pub from: u64,
    pub to: u64,
}

impl RecombinationSegment {
    pub fn new(seqname: String, position: u64, centimorgan: u64) -> (r: Self)
        ensures
            r.seqname == seqname,
            r.position == position,
            r.centimorgan == centimorgan,
    {
        Self { seqname, position, centimorgan }
    }

    /// The point at the start of a chromosome, at genetic distance zero.
    pub fn _create_initial_segment(seqname: String) -> (r: Self)
        ensures
            r.seqname == seqname,
            r.position == 0,
            r.centimorgan == 0,
    {
        Self { seqname, position: 0, centimorgan: 0 }
    }

    /// Whether this point and `next_segment` lie at the same genetic
    /// distance. Between two such points no crossover happens, and none
    /// is drawn.
    pub fn same_distance(&self, next_segment: &RecombinationSegment) -> (r: bool)
        ensures
            r == equal_distances(self.centimorgan, next_segment.centimorgan),
    {
        let a = self.centimorgan % 0x8000_0000_0000_0000;
        let b = next_segment.centimorgan % 0x8000_0000_0000_0000;
        a <= 0x7ff0_0000_0000_0000 && b <= 0x7ff0_0000_0000_0000 && (self.centimorgan
            == next_segment.centimorgan || (a == 0 && b == 0))
    }

    /// The number of crossovers between this point and `next_segment`
    /// where it is known without a draw: none, where both lie at the same
    /// genetic distance. Elsewhere the number has to be drawn, from a
    /// Poisson distribution whose mean is a hundredth of the difference of
    /// the genetic distances.
    pub fn sample_from_segment(&self, next_segment: &RecombinationSegment) -> (r: Option<u8>)
        ensures
            equal_distances(self.centimorgan, next_segment.centimorgan) ==> r == Some(0u8),
            !equal_distances(self.centimorgan, next_segment.centimorgan) ==> r is None,
    {
        if self.same_distance(next_segment) {
            Some(0)
        } else {
            None
        }
    }

    /// Draws the positions of `recombination_count` crossovers between
    /// this point and `next_segment`, each uniformly and independently of
    /// the others, and returns them in ascending order.
    pub fn get_cx_position(
        &self,
        next_segment: &RecombinationSegment,
        recombination_count: u8,
        rnd: &mut StdRng,
    ) -> (positions: Vec<u64>)
        requires
            recombination_count > 0 ==> self.position < next_segment.position,
        ensures
            positions@.len() == recombination_count,
            ascending(positions@),
            forall|i: int|
                0 <= i < positions@.len() ==> self.position <= #[trigger] positions@[i]
                    < next_segment.position,
    {
        let mut draws: Vec<u64> = Vec::new();
        let mut n: u8 = 0;
        while n < recombination_count
            invariant
                n <= recombination_count,
                n < recombination_count ==> self.position < next_segment.position,
                draws@.len() == n,
                forall|i: int|
                    0 <= i < draws@.len() ==> self.position <= #[trigger] draws@[i]
                        < next_segment.position,
            decreases recombination_count - n,
        {
            let position = draw_u64(rnd, self.position, next_segment.position);
            draws.push(position);
            n += 1;
        }
        let positions = sort_by_position(&draws);
        proof {
            lemma_sorted_same_members(positions@, draws@);
        }
        positions
    }
}

impl RecombinationMap {
    /// All points of the map lie on the chromosome that the map is named
    /// after.
    pub open spec fn single_chromosome(&self) -> bool {
        forall|i: int|
            0 <= i < self.segments@.len() ==> (#[trigger] self.segments@[i]).seqname@
                == self.seqname@
    }

    pub fn new(seqname: String, segments: Vec<RecombinationSegment>) -> (r: Self)
        ensures
            r.seqname == seqname,
            r.segments == segments,
    {
        Self { seqname, segments }
    }

    /// Makes the genetic map of a chromosome from the rows of its map
    /// file and the genetic distance of each row, as the bit pattern of
    /// the double that the row's text writes. The map is named after the
    /// chromosome of the rows; a map without rows has the empty name.
    ///
    /// Fails if there is not one distance for each row.
    pub fn parse_to_recombination_map(rows: Vec<MapRow>, distances: Vec<u64>) -> (r: Result<
        Self,
        MalformedMapError,
    >)
        ensures
            r is Ok <==> rows@.len() == distances@.len(),
            r matches Ok(map) ==> {
                &&& map.seqname@ == (if rows@.len() > 0 {
                    rows@.last().seqname@
                } else {
                    Seq::<char>::empty()
                })
                &&& map.segments@.len() == rows@.len()
                &&& forall|i: int|
                    0 <= i < rows@.len() ==> {
                        &&& (#[trigger] map.segments@[i]).seqname@ == rows@[i].seqname@
                        &&& map.segments@[i].position == rows@[i].position
                        &&& map.segments@[i].centimorgan == distances@[i]
                    }
                &&& one_chromosome(row_models(rows@)) ==> map.single_chromosome()
            },
            r matches Err(e) ==> e.kind == MalformedMapKind::DistanceCount && e.line == (
            if rows@.len() < distances@.len() {
                rows@.len()
            } else {
                distances@.len()
            }),
    {
        if rows.len() != distances.len() {
            let line = if rows.len() < distances.len() {
                rows.len()
            } else {
                distances.len()
            };
            return Err(MalformedMapError { line, kind: MalformedMapKind::DistanceCount });
        }
        let mut seqname = String::new();
        let mut segments: Vec<RecombinationSegment> = Vec::new();
        let mut i: usize = 0;
        while i < rows.len()
            invariant
                i <= rows.len(),
                rows@.len() == distances@.len(),
                seqname@ == (if i > 0 {
                    rows@[i - 1].seqname@
                } else {
                    Seq::<char>::empty()
                }),
                segments@.len() == i,
                forall|k: int|
                    0 <= k < i ==> {
                        &&& (#[trigger] segments@[k]).seqname@ == rows@[k].seqname@
                        &&& segments@[k].position == rows@[k].position
                        &&& segments@[k].centimorgan == distances@[k]
                    },
            decreases rows.len() - i,
        {
            seqname = rows[i].seqname.clone();
            segments.push(
                RecombinationSegment::new(rows[i].seqname.clone(), rows[i].position, distances[i]),
            );
            i += 1;
        }
        let map = RecombinationMap { seqname, segments };
        proof {
            if one_chromosome(row_models(rows@)) {
                assert forall|k: int| 0 <= k < map.segments@.len() implies (
                #[trigger] map.segments@[k]).seqname@ == map.seqname@ by {
                    assert(row_models(rows@)[k].seqname == row_models(rows@)[rows@.len()
                        - 1].seqname);
                }
            }
        }
        Ok(map)
    }
}

/// How far the laying of crossovers along a genetic map has come: the
/// pairs of neighbouring points before `pair` are done, and `crossovers`
/// holds what fell between them.
///
/// How many crossovers fall between two points at different genetic
/// distances is for the caller to draw. The walk asks for that number with
/// [`CrossoverWalk::pending`] and takes it with [`CrossoverWalk::supply`].
#[derive(Debug)]
pub struct CrossoverWalk {
    pub pair: usize,
    pub crossovers: Vec<Crossover>,
}

impl CrossoverWalk {
    /// The walk is at a pair of the map or at its end, each crossover lies
    /// in a pair that is done, and, where the positions of the map do not
    /// decrease, neither do those of the crossovers.
    pub open spec fn wf(&self, map: &RecombinationMap) -> bool {
        &&& self.pair <= pair_count(map.segments@)
        &&& forall|i: int|
            0 <= i < self.crossovers@.len() ==> lies_in_pairs_before(
                map.segments@,
                self.pair as int,
                #[trigger] self.crossovers@[i],
            )
        &&& positions_ascending(map.segments@) ==> ascending(self.crossovers@)
    }

    /// The walk has passed the last pair of the map.
    pub open spec fn finished(&self, map: &RecombinationMap) -> bool {
        self.pair == pair_count(map.segments@)
    }

    /// A walk at the first pair of a map, with no crossover yet.
    pub fn start(map: &RecombinationMap) -> (walk: Self)
        ensures
            walk.wf(map),
            walk.pair == 0,
            walk.crossovers@.len() == 0,
    {
        CrossoverWalk { pair: 0, crossovers: Vec::new() }
    }

    /// Moves past the pairs whose two points lie at the same genetic
    /// distance: between them there are no crossovers, and nothing is
    /// drawn. Returns the genetic distances of the pair at which the walk
    /// then stands, for which the number of crossovers is to be drawn, or
    /// `None` at the end of the map.
    pub fn pending(&mut self, map: &RecombinationMap) -> (r: Option<(u64, u64)>)
        requires
            old(self).wf(map),
        ensures
            final(self).wf(map),
            final(self).crossovers == old(self).crossovers,
            old(self).pair <= final(self).pair,
            forall|k: int|
                old(self).pair <= k < final(self).pair ==> equal_distances(
                    (#[trigger] map.segments@[k]).centimorgan,
                    map.segments@[k + 1].centimorgan,
                ),
            r is None <==> final(self).finished(map),
            r matches Some(distances) ==> {
                &&& distances.0 == map.segments@[final(self).pair as int].centimorgan
                &&& distances.1 == map.segments@[final(self).pair + 1].centimorgan
                &&& !equal_distances(distances.0, distances.1)
            },
    {
        let total = map.segments.len();
        while self.pair + 1 < total
            invariant
                total == map.segments@.len(),
                self.wf(map),
                self.crossovers == old(self).crossovers,
                old(self).pair <= self.pair,
                forall|k: int|
                    old(self).pair <= k < self.pair ==> equal_distances(
                        (#[trigger] map.segments@[k]).centimorgan,
                        map.segments@[k + 1].centimorgan,
                    ),
            decreases total - self.pair,
        {
            let here = &map.segments[self.pair];
            let next = &map.segments[self.pair + 1];
            if here.sample_from_segment(next).is_none() {
                return Some((here.centimorgan, next.centimorgan));
            }
            self.pair += 1;
        }
        None
    }

    /// Adds crossovers at `positions` to the walk, on the chromosome of the
    /// pair at which it stands, and moves to the next pair. The positions
    /// are in ascending order and lie in the pair.
    pub fn place(&mut self, map: &RecombinationMap, positions: &Vec<u64>)
        requires
            old(self).wf(map),
            !old(self).finished(map),
            ascending(positions@),
            forall|i: int|
                0 <= i < positions@.len() ==> map.segments@[old(self).pair as int].position
                    <= #[trigger] positions@[i] < map.segments@[old(self).pair + 1].position,
        ensures
            final(self).wf(map),
            final(self).pair == old(self).pair + 1,
            final(self).crossovers@.len() == old(self).crossovers@.len() + positions@.len(),
            final(self).crossovers@.take(old(self).crossovers@.len() as int) == old(
                self,
            ).crossovers@,
            forall|i: int|
                0 <= i < positions@.len() ==> {
                    &&& (#[trigger] final(self).crossovers@[old(self).crossovers@.len()
                        + i]).position == positions@[i]
                    &&& final(self).crossovers@[old(self).crossovers@.len() + i].seqname@
                        == map.segments@[old(self).pair as int].seqname@
                },
    {
        assert(map.segments@.len() == map.segments.len());
        let here = &map.segments[self.pair];
        let ghost before = self.crossovers@;
        let ghost pair = self.pair as int;
        let mut n: usize = 0;
        while n < positions.len()
            invariant
                n <= positions.len(),
                self.pair == pair,
                pair + 1 < map.segments@.len(),
                *here == map.segments@[pair],
                self.crossovers@.len() == before.len() + n,
                self.crossovers@.take(before.len() as int) == before,
                forall|i: int|
                    0 <= i < n ==> {
                        &&& (#[trigger] self.crossovers@[before.len() + i]).position
                            == positions@[i]
                        &&& self.crossovers@[before.len() + i].seqname@ == here.seqname@
                    },
            decreases positions.len() - n,
        {
            self.crossovers.push(Crossover { seqname: here.seqname.clone(), position: positions[n] });
            n += 1;
        }
        self.pair += 1;
        proof {
            let after = self.crossovers@;
            assert forall|i: int| 0 <= i < after.len() implies lies_in_pairs_before(
                map.segments@,
                self.pair as int,
                #[trigger] after[i],
            ) by {
                if i < before.len() {
                    let k = choose|k: int| k < pair && lies_in_pair(map.segments@, k, before[i]);
                } else {
                    assert(after[before.len() + (i - before.len())].position == positions@[i
                        - before.len()]);
                    assert(lies_in_pair(map.segments@, pair, after[i]));
                }
            }
            if positions_ascending(map.segments@) {
                assert forall|a: int, b: int| 0 <= a <= b < after.len() implies after[a].place()
                    <= after[b].place() by {
                    if b < before.len() {
                        assert(after[a] == before[a] && after[b] == before[b]);
                    } else if a < before.len() {
                        let k = choose|k: int|
                            k < pair && lies_in_pair(map.segments@, k, before[a]);
                        assert(after[before.len() + (b - before.len())].position == positions@[b
                            - before.len()]);
                    } else {
                        assert(after[before.len() + (a - before.len())].position == positions@[a
                            - before.len()]);
                    }
                }
            }
        }
    }

    /// Takes the number of crossovers that fall in the pair at which the
    /// walk stands, draws a position for each, adds them to the walk in
    /// ascending order, and moves to the next pair.
    ///
    /// Fails, and leaves the walk as it is, if crossovers are due and the
    /// second point of the pair does not lie after the first.
    pub fn supply(&mut self, map: &RecombinationMap, count: u8, rng: &mut StdRng) -> (r: Result<
        (),
        EmptyRangeError,
    >)
        requires
            old(self).wf(map),
            !old(self).finished(map),
        ensures
            final(self).wf(map),
            r is Err <==> count > 0 && map.segments@[old(self).pair as int].position
                >= map.segments@[old(self).pair + 1].position,
            r matches Err(e) ==> {
                &&& *final(self) == *old(self)
                &&& e.pair == old(self).pair
                &&& e.from == map.segments@[old(self).pair as int].position
                &&& e.to == map.segments@[old(self).pair + 1].position
            },
            r is Ok ==> {
                &&& final(self).pair == old(self).pair + 1
                &&& final(self).crossovers@.len() == old(self).crossovers@.len() + count
                &&& final(self).crossovers@.take(old(self).crossovers@.len() as int) == old(
                    self,
                ).crossovers@
                &&& forall|i: int|
                    old(self).crossovers@.len() <= i < final(self).crossovers@.len()
                        ==> lies_in_pair(
                        map.segments@,
                        old(self).pair as int,
                        #[trigger] final(self).crossovers@[i],
                    )
                &&& ascending(final(self).crossovers@.skip(old(self).crossovers@.len() as int))
            },
    {
        assert(map.segments@.len() == map.segments.len());
        let here = &map.segments[self.pair];
        let next = &map.segments[self.pair + 1];
        if count > 0 && here.position >= next.position {
            return Err(EmptyRangeError { pair: self.pair, from: here.position, to: next.position });
        }
        let positions = here.get_cx_position(next, count, rng);
        let ghost before = self.crossovers@;
        let ghost pair = self.pair as int;
        self.place(map, &positions);
        proof {
            let after = self.crossovers@;
            assert forall|i: int| before.len() <= i < after.len() implies lies_in_pair(
                map.segments@,
                pair,
                #[trigger] after[i],
            ) by {
                assert(after[before.len() + (i - before.len())].position == positions@[i
                    - before.len()]);
            }
            let tail = after.skip(before.len() as int);
            assert forall|a: int, b: int| 0 <= a <= b < tail.len() implies tail[a].place()
                <= tail[b].place() by {
                assert(after[before.len() + a].position == positions@[a]);
                assert(after[before.len() + b].position == positions@[b]);
            }
        }
        Ok(())
    }

    /// Ends the walk and hands out the crossovers.
    pub fn finish(self, map: &RecombinationMap) -> (crossovers: Vec<Crossover>)
        requires
            self.wf(map),
        ensures
            crossovers == self.crossovers,
            forall|i: int|
                0 <= i < crossovers@.len() ==> lies_in_pairs_before(
                    map.segments@,
                    self.pair as int,
                    #[trigger] crossovers@[i],
                ),
            positions_ascending(map.segments@) ==> ascending(crossovers@),
    {
        self.crossovers
    }
}

impl Named for RecombinationMap {
    open spec fn chromosome(&self) -> Seq<char> {
        self.seqname@
    }

    fn chromosome_name(&self) -> (name: &String) {
        &self.seqname
    }
}

/// A crossover with the parent it belongs to.
pub open spec fn tagged(parent: ParentId, crossover: Crossover) -> TaggedCrossover {
    TaggedCrossover { parent, crossover }
}

/// Each of the crossovers with the parent they belong to.
pub open spec fn all_tagged(parent: ParentId, crossovers: Seq<Crossover>) -> Seq<TaggedCrossover> {
    Seq::new(crossovers.len(), |i: int| tagged(parent, crossovers[i]))
}

/// Brings the crossovers of one meiosis on one chromosome into ascending
/// order of position, crossovers at one position keeping their order, and
/// marks each as belonging to `parent`.
pub fn tag_crossovers(parent: ParentId, crossovers: &Vec<Crossover>) -> (r: Vec<TaggedCrossover>)
    ensures
        r@ == all_tagged(parent, sorted_by_position(crossovers@)),
        ascending(r@),
{
    let sorted = sort_by_position(crossovers);
    let mut r: Vec<TaggedCrossover> = Vec::new();
    let mut i: usize = 0;
    while i < sorted.len()
        invariant
            i <= sorted.len(),
            r@.len() == i,
            forall|k: int| 0 <= k < i ==> #[trigger] r@[k] == tagged(parent, sorted@[k]),
        decreases sorted.len() - i,
    {
        r.push(TaggedCrossover { parent, crossover: sorted[i].duplicate() });
        i += 1;
    }
    r
}

impl RecombinationMapGenome {
    /// Files each map under its chromosome. Where two maps are of one
    /// chromosome, the later stays.
    pub fn from_path(maps: Vec<RecombinationMap>) -> (genome: Self)
        ensures
            genome.recombination_maps.wf(),
            holds_latest(genome.recombination_maps@, maps@),
    {
        RecombinationMapGenome { recombination_maps: ChromosomeTable::from_values(maps) }
    }

    /// Files the crossovers of one meiosis by chromosome: `crossovers`
    /// holds, for each map in the order of the chromosomes, what fell on
    /// it. They are brought into ascending order and marked as belonging
    /// to `parentid`.
    pub fn generate_genome_cx(&self, parentid: ParentId, crossovers: &Vec<Vec<Crossover>>) -> (r:
        ChromosomeTable<Vec<TaggedCrossover>>)
        requires
            self.recombination_maps.wf(),
            crossovers@.len() == self.recombination_maps.entries@.len(),
        ensures
            r.wf(),
            r@.dom() == self.recombination_maps@.dom(),
            forall|i: int|
                0 <= i < crossovers@.len() ==> r@[(
                #[trigger] self.recombination_maps.entries@[i]).name@]@ == all_tagged(
                    parentid,
                    sorted_by_position(crossovers@[i]@),
                ),
    {
        let mut r: ChromosomeTable<Vec<TaggedCrossover>> = ChromosomeTable::new();
        let mut i: usize = 0;
        while i < self.recombination_maps.len()
            invariant
                i <= self.recombination_maps.entries@.len(),
                self.recombination_maps.wf(),
                crossovers@.len() == self.recombination_maps.entries@.len(),
                r.wf(),
                forall|name: Seq<char>|
                    #[trigger] r@.contains_key(name) <==> exists|k: int|
                        0 <= k < i && (#[trigger] self.recombination_maps.entries@[k]).name@
                            == name,
                forall|k: int|
                    0 <= k < i ==> r@[(#[trigger] self.recombination_maps.entries@[k]).name@]@
                        == all_tagged(parentid, sorted_by_position(crossovers@[k]@)),
            decreases self.recombination_maps.entries@.len() - i,
        {
            let name = self.recombination_maps.name_at(i).clone();
            let list = tag_crossovers(parentid, &crossovers[i]);
            r.insert(name, list);
            i += 1;
        }
        r
    }
}

/// Draws, for each chromosome of `csize`, `cxcount` crossovers at
/// positions from 1 up to but not including the chromosome's size, each
/// uniformly and independently of the others, and files them by
/// chromosome in ascending order, marked as belonging to `parentid`.
///
/// Fails at the first chromosome, in the order of the names, that is too
/// short to hold a crossover, if any is to be drawn.
pub fn generate_simple_recombination(
    csize: &ChromosomeTable<u64>,
    parentid: ParentId,
    rng_cx: &mut StdRng,
    cxcount: u8,
) -> (r: Result<ChromosomeTable<Vec<TaggedCrossover>>, EmptyRangeError>)
    requires
        csize.wf(),
    ensures
        r is Err <==> cxcount > 0 && exists|i: int|
            0 <= i < csize.entries@.len() && (#[trigger] csize.entries@[i]).value <= 1,
        r matches Err(e) ==> {
            &&& e.pair < csize.entries@.len()
            &&& e.from == 1
            &&& e.to == csize.entries@[e.pair as int].value
            &&& e.to <= 1
            &&& forall|i: int| 0 <= i < e.pair ==> (#[trigger] csize.entries@[i]).value > 1
        },
        r matches Ok(table) ==> {
            &&& table.wf()
            &&& table.entries@.len() == csize.entries@.len()
            &&& forall|i: int|
                0 <= i < csize.entries@.len() ==> simple_crossovers(
                    (#[trigger] table.entries@[i]),
                    csize.entries@[i].name@,
                    csize.entries@[i].value,
                    parentid,
                    cxcount,
                )
        },
{
    let mut entries: Vec<Entry<Vec<TaggedCrossover>>> = Vec::new();
    let mut i: usize = 0;
    while i < csize.len()
        invariant
            i <= csize.entries@.len(),
            csize.wf(),
            entries@.len() == i,
            forall|k: int| 0 <= k < i ==> (#[trigger] csize.entries@[k]).value > 1 || cxcount == 0,
            forall|k: int|
                0 <= k < i ==> simple_crossovers(
                    (#[trigger] entries@[k]),
                    csize.entries@[k].name@,
                    csize.entries@[k].value,
                    parentid,
                    cxcount,
                ),
        decreases csize.entries@.len() - i,
    {
        let name = csize.name_at(i);
        let size = *csize.value_at(i);
        if cxcount > 0 && size <= 1 {
            return Err(EmptyRangeError { pair: i, from: 1, to: size });
        }
        let segment1 = RecombinationSegment::new(name.clone(), 1, 0);
        let segment2 = RecombinationSegment::new(name.clone(), size, 0);
        let positions = segment1.get_cx_position(&segment2, cxcount, rng_cx);
        let mut list: Vec<TaggedCrossover> = Vec::new();
        let mut n: usize = 0;
        while n < positions.len()
            invariant
                n <= positions.len(),
                list@.len() == n,
                forall|k: int|
                    0 <= k < n ==> {
                        &&& (#[trigger] list@[k]).parent == parentid
                        &&& list@[k].crossover.seqname@ == name@
                        &&& list@[k].crossover.position == positions@[k]
                    },
            decreases positions.len() - n,
        {
            list.push(
                TaggedCrossover {
                    parent: parentid,
                    crossover: Crossover { seqname: name.clone(), position: positions[n] },
                },
            );
            n += 1;
        }
        entries.push(Entry { name: name.clone(), value: list });
        i += 1;
    }
    Ok(ChromosomeTable { entries })
}

/// The entry holds, under the name of a chromosome of `size` bases,
/// `count` crossovers of `parent` on that chromosome in ascending order,
/// each at a position from 1 up to but not including `size`.
pub open spec fn simple_crossovers(
    entry: Entry<Vec<TaggedCrossover>>,
    name: Seq<char>,
    size: u64,
    parent: ParentId,
    count: u8,
) -> bool {
    &&& entry.name@ == name
    &&& entry.value@.len() == count
    &&& ascending(entry.value@)
    &&& forall|k: int|
        0 <= k < entry.value@.len() ==> {
            &&& (#[trigger] entry.value@[k]).parent == parent
            &&& entry.value@[k].crossover.seqname@ == name
            &&& 1 <= entry.value@[k].crossover.position < size
        }
}

} // verus!
