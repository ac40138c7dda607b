use meiosim::mapfile::{parse_map_rows, MalformedMapError, MalformedMapKind, MapRow};
use meiosim::recombination::{
    generate_simple_recombination, tag_crossovers, Crossover, CrossoverWalk, EmptyRangeError,
    ParentId, RecombinationMap, RecombinationMapGenome, RecombinationSegment,
};
use meiosim::utils::read_genome_file;
use rand::rngs::StdRng;
use rand::Rng;
use rand::SeedableRng;
use rand_distr::{Distribution, Poisson};

fn segment(name: &str, position: u64, centimorgan: f64) -> RecombinationSegment {
    RecombinationSegment::new(name.to_string(), position, centimorgan.to_bits())
}

fn draw_count(from: u64, to: u64, rng: &mut StdRng) -> u8 {
    let lambda = (f64::from_bits(to) - f64::from_bits(from)) * 0.01;
    let poisson = Poisson::new(lambda).unwrap();
    let count: f64 = poisson.sample(rng);
    count as u8
}

fn walk_map(map: &RecombinationMap, rng: &mut StdRng) -> Vec<Crossover> {
    let mut walk = CrossoverWalk::start(map);
    while let Some((from, to)) = walk.pending(map) {
        let count = draw_count(from, to, rng);
        walk.supply(map, count, rng).unwrap();
    }
    walk.finish(map)
}

#[test]
fn test_get_cx_position() {
    let mut rng: StdRng = StdRng::seed_from_u64(42);
    let seg1: RecombinationSegment = segment("chr1", 0, 0.0);
    let seg2 = segment("chr1", 100000, 10.0);
    let positions = seg1.get_cx_position(&seg2, 5, &mut rng);
    println!("{:?}", positions);

    assert!(!positions.is_empty(), "Positions vector is empty");

    let mut last_position = positions[0];
    for &position in positions.iter().skip(1) {
        assert!(position >= last_position, "Positions are not ordered");
        last_position = position;
    }
}

#[test]
fn test_crossover_order() {
    let mut rng: StdRng = StdRng::seed_from_u64(44);
    let seg1 = segment("chr1", 0, 0.0);
    let seg2 = segment("chr1", 100000, 500.0);
    let seg3 = segment("chr1", 200000, 1000.0);

    let recom_map = RecombinationMap::new("chr1".to_string(), vec![seg1, seg2, seg3]);
    let crossovers = walk_map(&recom_map, &mut rng);
    assert!(!crossovers.is_empty(), "Crossovers vector is empty");
    assert!(!crossovers.len() > 1, "Crossovers vector is equal to 1");
    println!("{:?}", crossovers);
    let mut last_position = crossovers[0].position;
    for crossover in crossovers.iter().skip(1) {
        assert!(crossover.position > last_position, "Crossovers are not in ascending order");
        last_position = crossover.position;
    }
}

#[test]
fn test_rng_0() {
    let mut rng: StdRng = StdRng::seed_from_u64(44);
    let pos1 = &rng.gen_range(0..1);
    let pos1prime = &rng.gen_range(0..1);
    let pos2 = &rng.gen_range(1..2);
    let pos3 = &rng.gen_range(2..3);
    assert!(*pos1 == 0, "pos1 is not 1");
    assert!(*pos2 == 1, "pos1 is not 2");
    assert!(*pos3 == 2, "pos1 is not 3");
    assert!(*pos1prime == 0, "pos1prime is not 0");
}

#[test]
fn positions_are_five_in_range_and_reproducible() {
    let seg1 = segment("chr1", 0, 0.0);
    let seg2 = segment("chr1", 100000, 10.0);
    let mut rng: StdRng = StdRng::seed_from_u64(42);
    let first = seg1.get_cx_position(&seg2, 5, &mut rng);
    let mut rng: StdRng = StdRng::seed_from_u64(42);
    let second = seg1.get_cx_position(&seg2, 5, &mut rng);
    assert_eq!(first.len(), 5);
    assert_eq!(first, second);
    let mut rng: StdRng = StdRng::seed_from_u64(42);
    let mut expected: Vec<u64> = (0..5).map(|_| rng.gen_range(0u64..100000u64)).collect();
    expected.sort();
    assert_eq!(first, expected);
    assert!(first.iter().all(|p| *p < 100000));
    assert!(first.windows(2).all(|w| w[0] <= w[1]));
    // a draw that handed back the lower bound would give nothing but zeros
    assert!(first.iter().any(|p| *p != 0));
}

#[test]
fn positions_match_the_draws_of_the_generator() {
    let seg1 = segment("chr7", 1000, 0.0);
    let seg2 = segment("chr7", 2000, 1.0);
    let mut rng: StdRng = StdRng::seed_from_u64(7);
    let positions = seg1.get_cx_position(&seg2, 8, &mut rng);
    let mut rng: StdRng = StdRng::seed_from_u64(7);
    let mut expected: Vec<u64> = (0..8).map(|_| rng.gen_range(1000u64..2000u64)).collect();
    expected.sort();
    assert_eq!(positions, expected);
}

#[test]
fn no_positions_for_count_zero_even_on_an_empty_range() {
    let seg1 = segment("chr1", 10, 0.0);
    let seg2 = segment("chr1", 10, 1.0);
    let mut rng: StdRng = StdRng::seed_from_u64(1);
    assert!(seg1.get_cx_position(&seg2, 0, &mut rng).is_empty());
}

#[test]
fn one_base_range_gives_that_base() {
    let seg1 = segment("chr1", 10, 0.0);
    let seg2 = segment("chr1", 11, 1.0);
    let mut rng: StdRng = StdRng::seed_from_u64(1);
    assert_eq!(seg1.get_cx_position(&seg2, 3, &mut rng), vec![10, 10, 10]);
}

#[test]
fn equal_distances_compare_as_numbers() {
    let a = segment("chr1", 0, 1.5);
    let b = segment("chr1", 10, 1.5);
    let c = segment("chr1", 20, 2.5);
    assert!(a.same_distance(&b));
    assert!(!a.same_distance(&c));
    let zero = segment("chr1", 0, 0.0);
    let minus_zero = segment("chr1", 0, -0.0);
    assert!(zero.same_distance(&minus_zero));
    let nan = segment("chr1", 0, f64::NAN);
    assert!(!nan.same_distance(&nan));
    let inf = segment("chr1", 0, f64::INFINITY);
    assert!(inf.same_distance(&inf));
    let initial = RecombinationSegment::_create_initial_segment("chr1".to_string());
    assert_eq!(initial.position, 0);
    assert!(initial.same_distance(&zero));
}

#[test]
fn no_crossover_between_points_at_one_distance() {
    let a = segment("chr1", 0, 12.5);
    let b = segment("chr1", 500, 12.5);
    let c = segment("chr1", 900, 12.75);
    assert_eq!(a.sample_from_segment(&b), Some(0));
    assert_eq!(b.sample_from_segment(&a), Some(0));
    assert_eq!(a.sample_from_segment(&a), Some(0));
    assert_eq!(b.sample_from_segment(&c), None);
    assert_eq!(c.sample_from_segment(&b), None);
}

#[test]
fn walk_passes_pairs_at_one_distance_without_a_draw() {
    let map = RecombinationMap::new(
        "chr1".to_string(),
        vec![
            segment("chr1", 0, 0.0),
            segment("chr1", 100, 0.0),
            segment("chr1", 200, 0.0),
            segment("chr1", 300, 2.0),
            segment("chr1", 400, 2.0),
        ],
    );
    let mut walk = CrossoverWalk::start(&map);
    let pending = walk.pending(&map);
    assert_eq!(pending, Some((0.0f64.to_bits(), 2.0f64.to_bits())));
    assert_eq!(walk.pair, 2);
    let mut rng: StdRng = StdRng::seed_from_u64(3);
    walk.supply(&map, 4, &mut rng).unwrap();
    assert_eq!(walk.pair, 3);
    assert_eq!(walk.pending(&map), None);
    let crossovers = walk.finish(&map);
    assert_eq!(crossovers.len(), 4);
    for crossover in &crossovers {
        assert_eq!(crossover.seqname, "chr1");
        assert!(200 <= crossover.position && crossover.position < 300);
    }
}

#[test]
fn crossovers_are_placed_where_they_are_told() {
    let map = RecombinationMap::new(
        "chr5".to_string(),
        vec![segment("chr5", 10, 0.0), segment("chr5", 20, 1.0), segment("chr5", 30, 2.0)],
    );
    let mut walk = CrossoverWalk::start(&map);
    walk.place(&map, &vec![10, 15, 15, 19]);
    walk.place(&map, &vec![]);
    assert_eq!(walk.pair, 2);
    let crossovers = walk.finish(&map);
    let expected: Vec<Crossover> =
        [10, 15, 15, 19].iter().map(|p| Crossover { seqname: "chr5".to_string(), position: *p }).collect();
    assert_eq!(crossovers, expected);
}

#[test]
fn walk_over_a_flat_map_gives_nothing() {
    let map = RecombinationMap::new(
        "chr1".to_string(),
        vec![segment("chr1", 0, 1.0), segment("chr1", 100, 1.0)],
    );
    let mut walk = CrossoverWalk::start(&map);
    assert_eq!(walk.pending(&map), None);
    assert!(walk.finish(&map).is_empty());
    let empty = RecombinationMap::new(String::new(), vec![]);
    let mut walk = CrossoverWalk::start(&empty);
    assert_eq!(walk.pending(&empty), None);
}

#[test]
fn walk_refuses_crossovers_in_an_empty_range() {
    let map = RecombinationMap::new(
        "chr1".to_string(),
        vec![segment("chr1", 50, 0.0), segment("chr1", 50, 1.0)],
    );
    let mut walk = CrossoverWalk::start(&map);
    assert!(walk.pending(&map).is_some());
    let mut rng: StdRng = StdRng::seed_from_u64(3);
    assert_eq!(
        walk.supply(&map, 2, &mut rng),
        Err(EmptyRangeError { pair: 0, from: 50, to: 50 })
    );
    assert_eq!(walk.pair, 0);
    assert_eq!(walk.supply(&map, 0, &mut rng), Ok(()));
    assert_eq!(walk.pair, 1);
}

#[test]
fn every_sampled_crossover_is_kept() {
    let map = RecombinationMap::new(
        "chr2".to_string(),
        vec![segment("chr2", 0, 0.0), segment("chr2", 1000, 3.0), segment("chr2", 5000, 9.0)],
    );
    let mut walk = CrossoverWalk::start(&map);
    let mut rng: StdRng = StdRng::seed_from_u64(11);
    assert!(walk.pending(&map).is_some());
    walk.supply(&map, 3, &mut rng).unwrap();
    assert!(walk.pending(&map).is_some());
    walk.supply(&map, 2, &mut rng).unwrap();
    let crossovers = walk.finish(&map);
    assert_eq!(crossovers.len(), 5);
    assert!(crossovers[..3].iter().all(|c| c.position < 1000));
    assert!(crossovers[3..].iter().all(|c| 1000 <= c.position && c.position < 5000));
    assert!(crossovers.windows(2).all(|w| w[0].position <= w[1].position));
}

#[test]
fn same_seed_same_crossovers() {
    let map = RecombinationMap::new(
        "chr1".to_string(),
        vec![segment("chr1", 0, 0.0), segment("chr1", 100000, 500.0), segment("chr1", 200000, 1000.0)],
    );
    let mut rng: StdRng = StdRng::seed_from_u64(2024);
    let first = walk_map(&map, &mut rng);
    let mut rng: StdRng = StdRng::seed_from_u64(2024);
    let second = walk_map(&map, &mut rng);
    assert_eq!(first, second);
}

#[test]
fn crossover_equality_looks_at_name_and_position() {
    let a = Crossover { seqname: "chr1".to_string(), position: 5 };
    let b = Crossover { seqname: "chr1".to_string(), position: 5 };
    let c = Crossover { seqname: "chr2".to_string(), position: 5 };
    let d = Crossover { seqname: "chr1".to_string(), position: 6 };
    assert_eq!(a, b);
    assert_ne!(a, c);
    assert_ne!(a, d);
}

#[test]
fn map_rows_are_read() {
    let content = b"chr1 rs1 0.0 100\nchr1 rs2 0.25 2000\r\nchr1 rs3 1e-1 +30000";
    let rows = parse_map_rows(content, false).unwrap();
    assert_eq!(rows.len(), 3);
    assert_eq!(rows[0].seqname, "chr1");
    assert_eq!(rows[0].genetic_distance, "0.0");
    assert_eq!(rows[0].position, 100);
    assert_eq!(rows[1].genetic_distance, "0.25");
    assert_eq!(rows[1].position, 2000);
    assert_eq!(rows[2].genetic_distance, "1e-1");
    assert_eq!(rows[2].position, 30000);
}

#[test]
fn map_header_is_passed_over() {
    let content = b"Chromosome ID cM position\nchr1 rs1 0.0 100\n";
    let rows = parse_map_rows(content, true).unwrap();
    assert_eq!(rows.len(), 1);
    assert_eq!(rows[0].position, 100);
    assert_eq!(
        parse_map_rows(content, false).err(),
        Some(MalformedMapError { line: 0, kind: MalformedMapKind::Position })
    );
    assert!(parse_map_rows(b"", true).unwrap().is_empty());
    assert!(parse_map_rows(b"", false).unwrap().is_empty());
}

#[test]
fn map_lines_need_four_fields() {
    assert_eq!(
        parse_map_rows(b"chr1 rs1 0.0 100\nchr1 rs2 0.5\n", false).err(),
        Some(MalformedMapError { line: 1, kind: MalformedMapKind::FieldCount })
    );
    assert_eq!(
        parse_map_rows(b"chr1 rs1  0.0 100\n", false).err(),
        Some(MalformedMapError { line: 0, kind: MalformedMapKind::FieldCount })
    );
    assert_eq!(
        parse_map_rows(b"chr1 rs1 0.0 100\n\nchr1 rs2 0.5 200\n", false).err(),
        Some(MalformedMapError { line: 1, kind: MalformedMapKind::FieldCount })
    );
    assert_eq!(
        parse_map_rows(b"h\nchr1\trs1\t0.0\t100\n", true).err(),
        Some(MalformedMapError { line: 1, kind: MalformedMapKind::FieldCount })
    );
}

#[test]
fn map_of_two_chromosomes_is_refused() {
    assert_eq!(
        parse_map_rows(b"chr1 rs1 0.0 100\nchr2 rs2 0.5 200\n", false).err(),
        Some(MalformedMapError { line: 1, kind: MalformedMapKind::Chromosome })
    );
}

#[test]
fn map_position_must_be_a_number() {
    for bad in ["abc", "", "-5", "1.5", "+", "18446744073709551616", "12a"] {
        let content = format!("chr1 rs1 0.0 {}\n", bad);
        if bad.is_empty() {
            // four fields, the last of them empty
            assert_eq!(
                parse_map_rows(b"chr1 rs1 0.0 \n", false).err(),
                Some(MalformedMapError { line: 0, kind: MalformedMapKind::Position })
            );
        } else {
            assert_eq!(
                parse_map_rows(content.as_bytes(), false).err(),
                Some(MalformedMapError { line: 0, kind: MalformedMapKind::Position })
            );
        }
    }
    let rows = parse_map_rows(b"chr1 rs1 0.0 18446744073709551615\n", false).unwrap();
    assert_eq!(rows[0].position, u64::MAX);
    let rows = parse_map_rows(b"chr1 rs1 0.0 007\n", false).unwrap();
    assert_eq!(rows[0].position, 7);
}

#[test]
fn map_distance_must_be_a_number() {
    for good in ["0", "0.0", "1.", ".5", "+1.5e3", "-2E-7", "1e+05", "inf", "-Infinity", "NaN", "+nan", "007.250"] {
        let content = format!("chr1 rs1 {} 5\n", good);
        let rows = parse_map_rows(content.as_bytes(), false).unwrap();
        assert_eq!(rows[0].genetic_distance, good);
        assert!(good.parse::<f64>().is_ok());
    }
    for bad in ["", ".", "+", "e5", "1e", "1e+", "1.5.2", "0x10", "1,5", "1_0", "in", "infinit", "nane", "--1", "1e5.0", "cM"] {
        let content = format!("chr1 rs1 {} 5\n", bad);
        assert_eq!(
            parse_map_rows(content.as_bytes(), false).err(),
            Some(MalformedMapError { line: 0, kind: MalformedMapKind::Distance })
        );
        assert!(bad.parse::<f64>().is_err());
    }
}

#[test]
fn map_line_that_is_not_text_is_passed_over() {
    let content: Vec<u8> = [&b"chr1 rs1 0.0 100\n"[..], &[0xff, 0xfe, b'\n'][..], &b"chr1 rs2 0.5 200\n"[..]].concat();
    let rows = parse_map_rows(&content, false).unwrap();
    assert_eq!(rows.len(), 2);
    assert_eq!(rows[1].position, 200);
}

fn rows_of(content: &[u8]) -> Vec<MapRow> {
    parse_map_rows(content, false).unwrap()
}

#[test]
fn map_is_made_of_rows_and_distances() {
    let rows = rows_of(b"chr3 a 0.0 10\nchr3 b 0.5 20\n");
    let distances = vec![0.0f64.to_bits(), 0.5f64.to_bits()];
    let map = RecombinationMap::parse_to_recombination_map(rows, distances).unwrap();
    assert_eq!(map.seqname, "chr3");
    assert_eq!(map.segments.len(), 2);
    assert_eq!(map.segments[1].seqname, "chr3");
    assert_eq!(map.segments[1].position, 20);
    assert_eq!(map.segments[1].centimorgan, 0.5f64.to_bits());
    let empty = RecombinationMap::parse_to_recombination_map(vec![], vec![]).unwrap();
    assert_eq!(empty.seqname, "");
    assert!(empty.segments.is_empty());
    let rows = rows_of(b"chr3 a 0.0 10\nchr3 b 0.5 20\n");
    assert_eq!(
        RecombinationMap::parse_to_recombination_map(rows, vec![0]).err(),
        Some(MalformedMapError { line: 1, kind: MalformedMapKind::DistanceCount })
    );
}

#[test]
fn crossovers_are_sorted_and_tagged() {
    let crossovers = vec![
        Crossover { seqname: "b".to_string(), position: 30 },
        Crossover { seqname: "a".to_string(), position: 10 },
        Crossover { seqname: "c".to_string(), position: 30 },
        Crossover { seqname: "d".to_string(), position: 20 },
    ];
    let tagged = tag_crossovers(ParentId::Parent2, &crossovers);
    let names: Vec<&str> = tagged.iter().map(|t| t.crossover.seqname.as_str()).collect();
    assert_eq!(names, vec!["a", "d", "b", "c"]);
    assert!(tagged.iter().all(|t| t.parent == ParentId::Parent2));
}

fn map_named(name: &str, position: u64) -> RecombinationMap {
    RecombinationMap::new(name.to_string(), vec![segment(name, position, 0.0)])
}

#[test]
fn genome_files_maps_in_the_order_of_the_names() {
    let genome = RecombinationMapGenome::from_path(vec![
        map_named("chr2", 1),
        map_named("chr10", 2),
        map_named("chr1", 3),
        map_named("chr2", 4),
    ]);
    let table = &genome.recombination_maps;
    assert_eq!(table.len(), 3);
    assert_eq!(table.name_at(0), "chr1");
    assert_eq!(table.name_at(1), "chr10");
    assert_eq!(table.name_at(2), "chr2");
    assert_eq!(table.value_at(2).segments[0].position, 4);

    let lists = vec![
        vec![Crossover { seqname: "chr1".to_string(), position: 9 }, Crossover { seqname: "chr1".to_string(), position: 3 }],
        vec![],
        vec![Crossover { seqname: "chr2".to_string(), position: 5 }],
    ];
    let filed = genome.generate_genome_cx(ParentId::Parent1, &lists);
    assert_eq!(filed.len(), 3);
    let chr1 = filed.get(&"chr1".to_string()).unwrap();
    assert_eq!(chr1.len(), 2);
    assert_eq!(chr1[0].crossover.position, 3);
    assert_eq!(chr1[1].crossover.position, 9);
    assert!(filed.get(&"chr10".to_string()).unwrap().is_empty());
    assert_eq!(filed.get(&"chr2".to_string()).unwrap()[0].parent, ParentId::Parent1);
    assert!(filed.get(&"chr3".to_string()).is_none());
}

#[test]
fn simple_recombination_draws_on_every_chromosome() {
    let sizes = read_genome_file(b"chr2 5000\nchr1 100\n").unwrap();
    let mut rng: StdRng = StdRng::seed_from_u64(5);
    let table = generate_simple_recombination(&sizes, ParentId::Parent1, &mut rng, 3).unwrap();
    assert_eq!(table.len(), 2);
    assert_eq!(table.name_at(0), "chr1");
    let chr1 = table.value_at(0);
    assert_eq!(chr1.len(), 3);
    assert!(chr1.iter().all(|t| 1 <= t.crossover.position && t.crossover.position < 100));
    assert!(chr1.iter().all(|t| t.crossover.seqname == "chr1" && t.parent == ParentId::Parent1));
    assert!(chr1.windows(2).all(|w| w[0].crossover.position <= w[1].crossover.position));
    let chr2 = table.value_at(1);
    assert!(chr2.iter().all(|t| 1 <= t.crossover.position && t.crossover.position < 5000));

    let short = read_genome_file(b"chr1 100\nchr2 1\n").unwrap();
    let mut rng: StdRng = StdRng::seed_from_u64(5);
    assert_eq!(
        generate_simple_recombination(&short, ParentId::Parent1, &mut rng, 3).err(),
        Some(EmptyRangeError { pair: 1, from: 1, to: 1 })
    );
    let mut rng: StdRng = StdRng::seed_from_u64(5);
    let none = generate_simple_recombination(&short, ParentId::Parent1, &mut rng, 0).unwrap();
    assert!(none.value_at(1).is_empty());
}
