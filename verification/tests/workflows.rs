use meiosim::io::SampleOut;
use meiosim::table::ChromosomeTable;
use meiosim::recombination::{Crossover, ParentId, TaggedCrossover};
use meiosim::utils::read_genome_file;
use meiosim::variants::{VCFCollection, VcfFile};
use meiosim::workflows::{wrk_generate_offspring, ChromosomeHaplotypes, Missing, OffspringError};
use rand::rngs::StdRng;
use rand::SeedableRng;

fn sample() -> SampleOut {
    SampleOut::new(&"out".to_string(), &"mum".to_string(), &"dad".to_string(), &"sib0".to_string())
}

fn collection(names: &[&str], samples: &[&str]) -> VCFCollection {
    let files: Vec<VcfFile> = names
        .iter()
        .map(|n| VcfFile { path: format!("pop/{}.vcf.gz", n), samples: samples.iter().map(|s| s.to_string()).collect() })
        .collect();
    VCFCollection::from_path(&files).unwrap()
}

fn crossovers(parent: ParentId, lists: &[(&str, Vec<u64>)]) -> ChromosomeTable<Vec<TaggedCrossover>> {
    let mut table = ChromosomeTable::new();
    for (name, positions) in lists {
        let list = positions
            .iter()
            .map(|p| TaggedCrossover { parent, crossover: Crossover { seqname: name.to_string(), position: *p } })
            .collect();
        table.insert(name.to_string(), list);
    }
    table
}

fn layout(genome: &[ChromosomeHaplotypes]) -> Vec<(String, Vec<(usize, usize, u64, u64)>)> {
    genome
        .iter()
        .map(|c| (c.seqname.clone(), c.intervals.iter().map(|i| (i.hap1, i.hap2, i.from, i.to)).collect()))
        .collect()
}

#[test]
fn offspring_is_laid_out_chromosome_by_chromosome() {
    let popvars = collection(&["chr2", "chr1"], &["mum", "dad", "aunt"]);
    let sizes = read_genome_file(b"chr1 1000\nchr2 500\nchr3 100\n").unwrap();
    let cx1 = crossovers(ParentId::Parent1, &[("chr1", vec![100, 600]), ("chr2", vec![])]);
    let cx2 = crossovers(ParentId::Parent2, &[("chr1", vec![300]), ("chr2", vec![250])]);
    let mut rng: StdRng = StdRng::seed_from_u64(9);
    let genome = wrk_generate_offspring(&sample(), &cx1, &cx2, &popvars, &sizes, &mut rng).unwrap();
    assert_eq!(genome.len(), 2);
    assert_eq!(genome[0].seqname, "chr1");
    assert_eq!(genome[1].seqname, "chr2");
    let chr1 = &genome[0].intervals;
    assert_eq!(chr1.iter().map(|i| (i.from, i.to)).collect::<Vec<_>>(), vec![(0, 100), (100, 300), (300, 600), (600, 1000)]);
    let (h1, h2) = (chr1[0].hap1, chr1[0].hap2);
    assert!(h1 < 2 && h2 < 2);
    assert_eq!(
        chr1.iter().map(|i| (i.hap1, i.hap2)).collect::<Vec<_>>(),
        vec![(h1, h2), (1 - h1, h2), (1 - h1, 1 - h2), (h1, 1 - h2)]
    );
    let chr2 = &genome[1].intervals;
    assert_eq!(chr2.iter().map(|i| (i.from, i.to)).collect::<Vec<_>>(), vec![(0, 250), (250, 500)]);
    assert_eq!(chr2[0].hap1, chr2[1].hap1);
    assert_ne!(chr2[0].hap2, chr2[1].hap2);
    assert!(chr2.iter().all(|i| i.seqname == "chr2"));
}

#[test]
fn same_seed_same_offspring() {
    let popvars = collection(&["chr1", "chr2", "chr3", "chr4", "chr5", "chr6", "chr7", "chr8"], &["mum", "dad"]);
    let sizes = read_genome_file(b"chr1 10\nchr2 10\nchr3 10\nchr4 10\nchr5 10\nchr6 10\nchr7 10\nchr8 10\n").unwrap();
    let lists: Vec<(&str, Vec<u64>)> =
        ["chr1", "chr2", "chr3", "chr4", "chr5", "chr6", "chr7", "chr8"].iter().map(|n| (*n, vec![5])).collect();
    let cx1 = crossovers(ParentId::Parent1, &lists);
    let cx2 = crossovers(ParentId::Parent2, &lists);
    let mut rng: StdRng = StdRng::seed_from_u64(123);
    let first = wrk_generate_offspring(&sample(), &cx1, &cx2, &popvars, &sizes, &mut rng).unwrap();
    let mut rng: StdRng = StdRng::seed_from_u64(123);
    let second = wrk_generate_offspring(&sample(), &cx1, &cx2, &popvars, &sizes, &mut rng).unwrap();
    assert_eq!(layout(&first), layout(&second));
    // a draw that handed back its lower bound would start every chromosome on haplotype 0
    assert!(first.iter().any(|c| c.intervals[0].hap1 == 1 || c.intervals[0].hap2 == 1));
    assert!(first.iter().all(|c| c.intervals[0].hap1 < 2 && c.intervals[0].hap2 < 2));
}

#[test]
fn chromosome_that_lacks_something_stops_the_simulation() {
    let sizes = read_genome_file(b"chr1 1000\nchr2 500\n").unwrap();
    let cx1 = crossovers(ParentId::Parent1, &[("chr1", vec![]), ("chr2", vec![])]);
    let cx2 = crossovers(ParentId::Parent2, &[("chr1", vec![]), ("chr2", vec![])]);
    let run = |popvars: &VCFCollection,
               sizes: &ChromosomeTable<u64>,
               cx1: &ChromosomeTable<Vec<TaggedCrossover>>,
               cx2: &ChromosomeTable<Vec<TaggedCrossover>>| {
        let mut rng: StdRng = StdRng::seed_from_u64(1);
        wrk_generate_offspring(&sample(), cx1, cx2, popvars, sizes, &mut rng).err()
    };
    let popvars = collection(&["chr1", "chr2"], &["mum", "dad"]);
    assert_eq!(run(&popvars, &sizes, &cx1, &cx2), None);

    let short = read_genome_file(b"chr1 1000\n").unwrap();
    assert_eq!(run(&popvars, &short, &cx1, &cx2), Some(OffspringError { index: 1, missing: Missing::Size }));

    let no_mum = collection(&["chr1", "chr2"], &["dad"]);
    assert_eq!(
        run(&no_mum, &sizes, &cx1, &cx2),
        Some(OffspringError { index: 0, missing: Missing::Sample(ParentId::Parent1) })
    );
    let no_dad = collection(&["chr1", "chr2"], &["mum"]);
    assert_eq!(
        run(&no_dad, &sizes, &cx1, &cx2),
        Some(OffspringError { index: 0, missing: Missing::Sample(ParentId::Parent2) })
    );
    let only_chr1 = crossovers(ParentId::Parent1, &[("chr1", vec![])]);
    assert_eq!(
        run(&popvars, &sizes, &only_chr1, &cx2),
        Some(OffspringError { index: 1, missing: Missing::Crossovers(ParentId::Parent1) })
    );
    let only_chr2 = crossovers(ParentId::Parent2, &[("chr2", vec![])]);
    assert_eq!(
        run(&popvars, &sizes, &cx1, &only_chr2),
        Some(OffspringError { index: 0, missing: Missing::Crossovers(ParentId::Parent2) })
    );
}
