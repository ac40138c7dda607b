use meiosim::order::sort_by_position;
use meiosim::recombination::{Crossover, ParentId, TaggedCrossover};
use meiosim::timeline::{
    build_timeline, haplotype_intervals, merge_crossovers, HaplotypeInterval,
    UnsortedCrossoverError,
};

fn event(parent: ParentId, position: u64) -> TaggedCrossover {
    TaggedCrossover { parent, crossover: Crossover { seqname: "chr1".to_string(), position } }
}

fn shape(intervals: &[HaplotypeInterval]) -> Vec<(usize, usize, u64, u64)> {
    intervals.iter().map(|i| (i.hap1, i.hap2, i.from, i.to)).collect()
}

#[test]
fn chromosome_without_crossovers_is_one_interval() {
    let name = "chr1".to_string();
    let intervals = haplotype_intervals(&name, &vec![], 1, 0, 200000).unwrap();
    assert_eq!(shape(&intervals), vec![(1, 0, 0, 200000)]);
    assert_eq!(intervals[0].seqname, "chr1");
    let built = build_timeline(&name, &vec![], &vec![], 0, 1, 200000);
    assert_eq!(shape(&built), vec![(0, 1, 0, 200000)]);
}

#[test]
fn each_crossover_flips_the_haplotype_of_its_parent() {
    let name = "chr1".to_string();
    let events = vec![
        event(ParentId::Parent1, 100),
        event(ParentId::Parent2, 250),
        event(ParentId::Parent2, 250),
        event(ParentId::Parent1, 900),
    ];
    let intervals = haplotype_intervals(&name, &events, 0, 1, 1000).unwrap();
    assert_eq!(
        shape(&intervals),
        vec![(0, 1, 0, 100), (1, 1, 100, 250), (1, 0, 250, 250), (1, 1, 250, 900), (0, 1, 900, 1000)]
    );
}

#[test]
fn intervals_tile_the_chromosome() {
    let name = "chr1".to_string();
    let first = vec![event(ParentId::Parent1, 40), event(ParentId::Parent1, 700)];
    let second = vec![event(ParentId::Parent2, 5), event(ParentId::Parent2, 40), event(ParentId::Parent2, 999)];
    let intervals = build_timeline(&name, &first, &second, 1, 1, 1000);
    assert_eq!(intervals.len(), 6);
    assert_eq!(intervals.first().unwrap().from, 0);
    assert_eq!(intervals.last().unwrap().to, 1000);
    for pair in intervals.windows(2) {
        assert_eq!(pair[0].to, pair[1].from);
        assert!(pair[0].from <= pair[0].to);
    }
    assert_eq!(
        shape(&intervals),
        vec![(1, 1, 0, 5), (1, 0, 5, 40), (0, 0, 40, 40), (0, 1, 40, 700), (1, 1, 700, 999), (1, 0, 999, 1000)]
    );
}

#[test]
fn hap1_changes_only_at_crossovers_of_the_first_parent() {
    let name = "chr9".to_string();
    let first = vec![event(ParentId::Parent1, 300), event(ParentId::Parent1, 100)];
    let second = vec![event(ParentId::Parent2, 200), event(ParentId::Parent2, 50)];
    let merged = merge_crossovers(&first, &second);
    let intervals = build_timeline(&name, &first, &second, 0, 0, 400);
    assert_eq!(intervals.len(), merged.len() + 1);
    for (i, crossover) in merged.iter().enumerate() {
        let hap1_changed = intervals[i].hap1 != intervals[i + 1].hap1;
        let hap2_changed = intervals[i].hap2 != intervals[i + 1].hap2;
        assert_eq!(hap1_changed, crossover.parent == ParentId::Parent1);
        assert_eq!(hap2_changed, crossover.parent == ParentId::Parent2);
        assert_eq!(intervals[i].to, crossover.crossover.position);
    }
}

#[test]
fn crossover_before_its_predecessor_is_an_error() {
    let name = "chr1".to_string();
    let events = vec![event(ParentId::Parent1, 100), event(ParentId::Parent2, 300), event(ParentId::Parent1, 200)];
    assert_eq!(
        haplotype_intervals(&name, &events, 0, 0, 1000).err(),
        Some(UnsortedCrossoverError { index: 2, position: 200, boundary: 300 })
    );
}

#[test]
fn merging_keeps_the_first_parent_first_at_one_position() {
    let first = vec![event(ParentId::Parent1, 10), event(ParentId::Parent1, 30)];
    let second = vec![event(ParentId::Parent2, 10), event(ParentId::Parent2, 20), event(ParentId::Parent2, 30)];
    let merged = merge_crossovers(&first, &second);
    let seen: Vec<(ParentId, u64)> = merged.iter().map(|t| (t.parent, t.crossover.position)).collect();
    assert_eq!(
        seen,
        vec![
            (ParentId::Parent1, 10),
            (ParentId::Parent2, 10),
            (ParentId::Parent2, 20),
            (ParentId::Parent1, 30),
            (ParentId::Parent2, 30),
        ]
    );
}

#[test]
fn sorting_positions_is_what_the_standard_sort_does() {
    let positions: Vec<u64> = vec![5, 3, 9, 3, 0, 18446744073709551615, 7];
    let mut expected = positions.clone();
    expected.sort();
    assert_eq!(sort_by_position(&positions), expected);
    assert!(sort_by_position(&Vec::<u64>::new()).is_empty());
}
