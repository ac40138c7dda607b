//! The simulation of one offspring: which haplotype of either parent it
//! carries where.

use vstd::prelude::*;
use rand::rngs::StdRng;
use crate::io::SampleOut;
use crate::table::ChromosomeTable;
use crate::order::sorted_by_position;
use crate::recombination::{ParentId, TaggedCrossover};
use crate::rng::draw_usize;
use crate::timeline::{build_timeline, interval_models, timeline, HaplotypeInterval};
use crate::variants::VCFCollection;

verus! {

/// The haplotype intervals of one chromosome of an offspring.
#[derive(Debug)]
pub struct ChromosomeHaplotypes {
    pub seqname: String,
    pub intervals: Vec<HaplotypeInterval>,
}

/// What a chromosome lacks for the simulation.
#[derive(Clone, Copy, Debug, PartialEq, Eq, Structural)]
pub enum Missing {
    /// The genome size file does not have its size.
    Size,
    /// Its variant file has no genotypes for this parent.
    Sample(ParentId),
    /// There are no crossovers of this parent for it.
    Crossovers(ParentId),
}

/// The chromosome with this index, in the order of the names of the
/// variant files, cannot be simulated.
#[derive(Clone, Copy, Debug, PartialEq, Eq, Structural)]
pub struct OffspringError {
    pub index: usize,
    pub missing: Missing,
}

/// What the `i`-th chromosome lacks for the simulation of `sample`, if
/// anything: the first of its size, the first parent's genotypes, the
/// second's, the first parent's crossovers, the second's.
pub open spec fn missing_for(
    sample: SampleOut,
    cx_parent1: ChromosomeTable<Vec<TaggedCrossover>>,
    cx_parent2: ChromosomeTable<Vec<TaggedCrossover>>,
    popvars: VCFCollection,
    contig_size: ChromosomeTable<u64>,
    i: int,
) -> Option<Missing> {
    let name = popvars.vcfs.entries@[i].name@;
    let vcf = popvars.vcfs.entries@[i].value;
    if !contig_size@.contains_key(name) {
        Some(Missing::Size)
    } else if !vcf.holds_sample(sample.parent1@) {
        Some(Missing::Sample(ParentId::Parent1))
    } else if !vcf.holds_sample(sample.parent2@) {
        Some(Missing::Sample(ParentId::Parent2))
    } else if !cx_parent1@.contains_key(name) {
        Some(Missing::Crossovers(ParentId::Parent1))
    } else if !cx_parent2@.contains_key(name) {
        Some(Missing::Crossovers(ParentId::Parent2))
    } else {
        None
    }
}

/// `haplotypes` is the timeline of the chromosome `name` of `length`
/// bases on which the crossovers `first` of the first parent and `second`
/// of the second fall, for some choice of the haplotype that either parent
/// passes on at the chromosome's start.
pub open spec fn is_timeline_of(
    haplotypes: ChromosomeHaplotypes,
    name: Seq<char>,
    first: Seq<TaggedCrossover>,
    second: Seq<TaggedCrossover>,
    length: u64,
) -> bool {
    &&& haplotypes.seqname@ == name
    &&& exists|hap1: usize, hap2: usize|
        hap1 < 2 && hap2 < 2 && interval_models(haplotypes.intervals@) == #[trigger] timeline(
            name,
            sorted_by_position(first + second),
            hap1,
            hap2,
            length,
        )
}

/// Every interval carries haplotype 0 or 1 of either parent.
pub open spec fn diploid(haplotypes: ChromosomeHaplotypes) -> bool {
    forall|k: int|
        0 <= k < haplotypes.intervals@.len() ==> (#[trigger] haplotypes.intervals@[k]).hap1 < 2
            && haplotypes.intervals@[k].hap2 < 2
}

/// Lays out the genome of the offspring `sample`: for each chromosome that
/// has a variant file, in the order of the names, the haplotype that
/// either parent passes on at the chromosome's start is drawn, and the
/// chromosome is cut at the crossovers of both parents.
///
/// Fails at the first chromosome that lacks its size, the genotypes of
/// a parent, or the crossovers of a parent.
pub fn wrk_generate_offspring(
    sample: &SampleOut,
    cx_parent1: &ChromosomeTable<Vec<TaggedCrossover>>,
    cx_parent2: &ChromosomeTable<Vec<TaggedCrossover>>,
    popvars: &VCFCollection,
    contig_size: &ChromosomeTable<u64>,
    seeded_rng: &mut StdRng,
) -> (r: Result<Vec<ChromosomeHaplotypes>, OffspringError>)
    requires
        cx_parent1.wf(),
        cx_parent2.wf(),
        popvars.vcfs.wf(),
        contig_size.wf(),
    ensures
        r is Ok <==> forall|i: int|
            0 <= i < popvars.vcfs.entries@.len() ==> #[trigger] missing_for(
                *sample,
                *cx_parent1,
                *cx_parent2,
                *popvars,
                *contig_size,
                i,
            ) is None,
        r matches Ok(genome) ==> {
            &&& genome@.len() == popvars.vcfs.entries@.len()
            &&& forall|i: int|
                0 <= i < genome@.len() ==> is_timeline_of(
                    #[trigger] genome@[i],
                    popvars.vcfs.entries@[i].name@,
                    cx_parent1@[popvars.vcfs.entries@[i].name@]@,
                    cx_parent2@[popvars.vcfs.entries@[i].name@]@,
                    contig_size@[popvars.vcfs.entries@[i].name@],
                )
            &&& forall|i: int| 0 <= i < genome@.len() ==> diploid(#[trigger] genome@[i])
        },
        r matches Err(e) ==> {
            &&& e.index < popvars.vcfs.entries@.len()
            &&& missing_for(
                *sample,
                *cx_parent1,
                *cx_parent2,
                *popvars,
                *contig_size,
                e.index as int,
            ) == Some(e.missing)
            &&& forall|i: int|
                0 <= i < e.index ==> #[trigger] missing_for(
                    *sample,
                    *cx_parent1,
                    *cx_parent2,
                    *popvars,
                    *contig_size,
                    i,
                ) is None
        },
{
    let mut genome: Vec<ChromosomeHaplotypes> = Vec::new();
    let mut i: usize = 0;
    while i < popvars.vcfs.len()
        invariant
            i <= popvars.vcfs.entries@.len(),
            cx_parent1.wf(),
            cx_parent2.wf(),
            popvars.vcfs.wf(),
            contig_size.wf(),
            genome@.len() == i,
            forall|k: int|
                0 <= k < i ==> #[trigger] missing_for(
                    *sample,
                    *cx_parent1,
                    *cx_parent2,
                    *popvars,
                    *contig_size,
                    k,
                ) is None,
            forall|k: int|
                0 <= k < i ==> is_timeline_of(
                    #[trigger] genome@[k],
                    popvars.vcfs.entries@[k].name@,
                    cx_parent1@[popvars.vcfs.entries@[k].name@]@,
                    cx_parent2@[popvars.vcfs.entries@[k].name@]@,
                    contig_size@[popvars.vcfs.entries@[k].name@],
                ),
            forall|k: int| 0 <= k < i ==> diploid(#[trigger] genome@[k]),
        decreases popvars.vcfs.entries@.len() - i,
    {
        let chr = popvars.vcfs.name_at(i);
        let vcf = popvars.vcfs.value_at(i);
        let length = match contig_size.get(chr) {
            Some(length) => *length,
            None => {
                return Err(OffspringError { index: i, missing: Missing::Size });
            },
        };
        if !vcf.has_sample(&sample.parent1) {
            return Err(OffspringError { index: i, missing: Missing::Sample(ParentId::Parent1) });
        }
        if !vcf.has_sample(&sample.parent2) {
            return Err(OffspringError { index: i, missing: Missing::Sample(ParentId::Parent2) });
        }
        let first = match cx_parent1.get(chr) {
            Some(first) => first,
            None => {
                return Err(
                    OffspringError { index: i, missing: Missing::Crossovers(ParentId::Parent1) },
                );
            },
        };
        let second = match cx_parent2.get(chr) {
            Some(second) => second,
            None => {
                return Err(
                    OffspringError { index: i, missing: Missing::Crossovers(ParentId::Parent2) },
                );
            },
        };
        let initial_haplotype_parent1 = draw_usize(seeded_rng, 0, 2);
        let initial_haplotype_parent2 = draw_usize(seeded_rng, 0, 2);
        let intervals = build_timeline(
            chr,
            first,
            second,
            initial_haplotype_parent1,
            initial_haplotype_parent2,
            length,
        );
        let haplotypes = ChromosomeHaplotypes { seqname: chr.clone(), intervals };
        genome.push(haplotypes);
        i += 1;
    }
    Ok(genome)
}

} // verus!
