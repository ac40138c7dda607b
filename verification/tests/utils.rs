use meiosim::bytes::{split_bytes, split_lines, split_words};
use meiosim::numbers::{number_text, parse_unsigned};
use meiosim::names::{order_of_names, NameOrder};
use meiosim::table::ChromosomeTable;
use meiosim::text::{push_decimal, push_signed_decimal};
use meiosim::utils::{
    capture_chromosome_from_file_name, from_vu8_to_string, push_haps_to_bed, read_genome_file,
    GenomeFileError, GenomeFileKind,
};

#[test]
fn chromosome_is_found_in_a_file_name() {
    assert_eq!(capture_chromosome_from_file_name("maps/genetic_map_chr12.map"), Some("chr12".to_string()));
    assert_eq!(capture_chromosome_from_file_name("chrX.vcf.gz"), Some("chrX".to_string()));
    assert_eq!(capture_chromosome_from_file_name("a.chrY.b"), Some("chrY".to_string()));
    assert_eq!(capture_chromosome_from_file_name("chr3_chr4"), Some("chr3".to_string()));
    assert_eq!(capture_chromosome_from_file_name("chr007x"), Some("chr007".to_string()));
    assert_eq!(capture_chromosome_from_file_name("chrM.vcf"), None);
    assert_eq!(capture_chromosome_from_file_name("scaffold_12"), None);
    assert_eq!(capture_chromosome_from_file_name(""), None);
}

#[test]
fn byte_strings_are_decoded() {
    let names: Vec<&[u8]> = vec![b"NA12878", b"", &[0xff, 0x41], "é".as_bytes()];
    assert_eq!(
        from_vu8_to_string(names),
        vec!["NA12878".to_string(), "".to_string(), "Invalid UTF-8".to_string(), "é".to_string()]
    );
    assert!(from_vu8_to_string(vec![]).is_empty());
}

#[test]
fn haplotype_line() {
    let mut bed = String::from("x");
    push_haps_to_bed(&0, &1, &"chr1".to_string(), &0, &200000, &mut bed);
    push_haps_to_bed(&1, &0, &"chr1".to_string(), &200000, &18446744073709551615, &mut bed);
    assert_eq!(bed, "xchr1\t0\t200000\t0\t1\nchr1\t200000\t18446744073709551615\t1\t0\n");
}

#[test]
fn genome_sizes_are_read() {
    let table = read_genome_file(b"chr2\t242193529\nchr1  248956422 extra\r\n chr10 133797422").unwrap();
    assert_eq!(table.len(), 3);
    assert_eq!(table.name_at(0), "chr1");
    assert_eq!(*table.value_at(0), 248956422);
    assert_eq!(table.get(&"chr10".to_string()), Some(&133797422));
    assert_eq!(table.get(&"chr2".to_string()), Some(&242193529));
    assert_eq!(table.get(&"chr3".to_string()), None);
    let twice = read_genome_file(b"chr1 5\nchr1 7\n").unwrap();
    assert_eq!(twice.len(), 1);
    assert_eq!(twice.get(&"chr1".to_string()), Some(&7));
    assert_eq!(read_genome_file(b"").unwrap().len(), 0);
}

#[test]
fn genome_sizes_that_cannot_be_read() {
    assert_eq!(
        read_genome_file(b"chr1 5\nchr2\n").err(),
        Some(GenomeFileError { line: 1, kind: GenomeFileKind::FieldCount })
    );
    assert_eq!(
        read_genome_file(b"chr1 5\n\nchr2 7\n").err(),
        Some(GenomeFileError { line: 1, kind: GenomeFileKind::FieldCount })
    );
    assert_eq!(
        read_genome_file(b"chr1 five\n").err(),
        Some(GenomeFileError { line: 0, kind: GenomeFileKind::Size })
    );
    assert_eq!(
        read_genome_file(&[b'c', 0xff, b' ', b'5', b'\n']).err(),
        Some(GenomeFileError { line: 0, kind: GenomeFileKind::Text })
    );
}

#[test]
fn decimal_numerals() {
    let mut text = String::new();
    push_decimal(&mut text, 0);
    text.push(' ');
    push_decimal(&mut text, 7);
    text.push(' ');
    push_decimal(&mut text, 10);
    text.push(' ');
    push_decimal(&mut text, 18446744073709551615);
    text.push(' ');
    push_signed_decimal(&mut text, -1);
    text.push(' ');
    push_signed_decimal(&mut text, 0);
    text.push(' ');
    push_signed_decimal(&mut text, -9223372036854775808);
    assert_eq!(text, "0 7 10 18446744073709551615 -1 0 -9223372036854775808");
}

fn texts(pieces: Vec<Vec<u8>>) -> Vec<String> {
    pieces.into_iter().map(|p| String::from_utf8(p).unwrap()).collect()
}

#[test]
fn splitting_on_a_separator() {
    assert_eq!(texts(split_bytes(b"a b  c", b' ')), vec!["a", "b", "", "c"]);
    assert_eq!(texts(split_bytes(b"", b' ')), vec![""]);
    assert_eq!(texts(split_bytes(b" ", b' ')), vec!["", ""]);
    assert_eq!(texts(split_bytes(b"abc", b' ')), vec!["abc"]);
}

#[test]
fn splitting_into_lines() {
    assert_eq!(texts(split_lines(b"a\nb\r\n\nc")), vec!["a", "b", "", "c"]);
    assert_eq!(texts(split_lines(b"a\n")), vec!["a"]);
    assert_eq!(texts(split_lines(b"a\r")), vec!["a\r"]);
    assert_eq!(texts(split_lines(b"a\r\r\n")), vec!["a\r"]);
    assert_eq!(texts(split_lines(b"\n")), vec![""]);
    assert!(split_lines(b"").is_empty());
}

#[test]
fn splitting_into_words() {
    assert_eq!(texts(split_words(b"  chr1 \t 12\r")), vec!["chr1", "12"]);
    assert_eq!(texts(split_words(b"chr1")), vec!["chr1"]);
    assert!(split_words(b" \t ").is_empty());
    assert!(split_words(b"").is_empty());
}

#[test]
fn unsigned_numbers() {
    assert_eq!(parse_unsigned(b"0"), Some(0));
    assert_eq!(parse_unsigned(b"+42"), Some(42));
    assert_eq!(parse_unsigned(b"000123"), Some(123));
    assert_eq!(parse_unsigned(b"18446744073709551615"), Some(u64::MAX));
    assert_eq!(parse_unsigned(b"18446744073709551616"), None);
    assert_eq!(parse_unsigned(b"99999999999999999999999"), None);
    assert_eq!(parse_unsigned(b""), None);
    assert_eq!(parse_unsigned(b"+"), None);
    assert_eq!(parse_unsigned(b"++1"), None);
    assert_eq!(parse_unsigned(b"-1"), None);
    assert_eq!(parse_unsigned(b"1 "), None);
    assert_eq!(parse_unsigned(b"1_000"), None);
}

#[test]
fn number_texts_are_those_that_parse_as_doubles() {
    let texts = [
        "", "0", "-0", "+0", "1", "12", "1.", ".1", ".", "1.2", "1.2.3", "..", "1e1", "1E1", "1e", "e1", "1e+1",
        "1e-1", "1e+-1", "1e++1", "+", "-", "+-1", "1+", "1e1e1", "1.e1", ".e1", ".1e1", "inf", "INF", "iNf",
        "infinity", "INFINITY", "infinit", "infinityy", "nan", "NAN", "-nan", "na", " 1", "1 ", "1f", "0x1", "١",
        "1e999", "123456789012345678901234567890", "-.5E-10", "+inf", "-inf", "+infinity", "i", "n", "e", "E5",
    ];
    for text in texts {
        assert_eq!(number_text(text.as_bytes()), text.parse::<f64>().is_ok(), "{:?}", text);
    }
}

#[test]
fn names_are_ordered_as_text() {
    let name = |s: &str| s.to_string();
    assert_eq!(order_of_names(&name("chr1"), &name("chr10")), NameOrder::Before);
    assert_eq!(order_of_names(&name("chr10"), &name("chr2")), NameOrder::Before);
    assert_eq!(order_of_names(&name("chr2"), &name("chr10")), NameOrder::After);
    assert_eq!(order_of_names(&name("chrX"), &name("chrX")), NameOrder::Same);
    assert_eq!(order_of_names(&name(""), &name("")), NameOrder::Same);
    assert_eq!(order_of_names(&name(""), &name("a")), NameOrder::Before);
    assert_eq!(order_of_names(&name("é"), &name("z")), NameOrder::After);
    for (a, b) in [("chr1", "chr10"), ("b", "a"), ("same", "same"), ("Z", "a")] {
        let expected = match a.cmp(b) {
            std::cmp::Ordering::Less => NameOrder::Before,
            std::cmp::Ordering::Equal => NameOrder::Same,
            std::cmp::Ordering::Greater => NameOrder::After,
        };
        assert_eq!(order_of_names(&name(a), &name(b)), expected);
    }
}

#[test]
fn table_files_by_name() {
    let mut table: ChromosomeTable<u32> = ChromosomeTable::new();
    assert_eq!(table.len(), 0);
    table.insert("chr2".to_string(), 2);
    table.insert("chr1".to_string(), 1);
    table.insert("chr3".to_string(), 3);
    table.insert("chr2".to_string(), 22);
    assert_eq!(table.len(), 3);
    assert_eq!(table.name_at(0), "chr1");
    assert_eq!(table.name_at(1), "chr2");
    assert_eq!(table.name_at(2), "chr3");
    assert_eq!(*table.value_at(1), 22);
    assert_eq!(table.get(&"chr3".to_string()), Some(&3));
    assert_eq!(table.get(&"chr4".to_string()), None);
}
