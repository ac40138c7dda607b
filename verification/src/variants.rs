//! Variant sites and their encoding as lines of a mutation file.

use vstd::prelude::*;
use vstd::string::*;
use vstd::utf8::{encode_utf8, is_ascii_chars_encode_utf8};
use rand::rngs::StdRng;
use crate::names::{agree_before, name_before};
use crate::table::{holds_latest, latest_of, lemma_latest_of, ChromosomeTable, Named};
use crate::recombination::ParentId;
use crate::rng::draw_i32;
use crate::utils::{capture_chromosome_from_file_name, captured_chromosome, chromosome_pattern,
    regex_search};
use crate::text::{decimal, push_decimal, push_signed_decimal, signed_decimal};

verus! {

/// Two alleles that have no IUPAC ambiguity code.
#[derive(Debug)]
pub struct UnsupportedIupacPairError {
    pub first: String,
    pub second: String,
}

/// The IUPAC ambiguity code of two bases given in alphabetical order.
pub open spec fn iupac_of_bases(x: char, y: char) -> Option<char> {
    if x == 'A' && y == 'G' {
        Some('R')
    } else if x == 'C' && y == 'T' {
        Some('Y')
    } else if x == 'C' && y == 'G' {
        Some('S')
    } else if x == 'A' && y == 'T' {
        Some('W')
    } else if x == 'G' && y == 'T' {
        Some('K')
    } else if x == 'A' && y == 'C' {
        Some('M')
    } else {
        None
    }
}

/// The IUPAC ambiguity code of two alleles given in alphabetical order:
/// both must be a single base.
pub open spec fn iupac_code(x: Seq<char>, y: Seq<char>) -> Option<char> {
    if x.len() == 1 && y.len() == 1 {
        iupac_of_bases(x[0], y[0])
    } else {
        None
    }
}

/// The IUPAC ambiguity code of two alleles in either order.
pub open spec fn iupac_code_of_pair(x: Seq<char>, y: Seq<char>) -> Option<char> {
    match iupac_code(x, y) {
        Some(code) => Some(code),
        None => iupac_code(y, x),
    }
}

/// The ambiguity code of a pair does not depend on the order in which
/// the two alleles are given.
pub proof fn lemma_iupac_pair_unordered(x: Seq<char>, y: Seq<char>)
    ensures
        iupac_code_of_pair(x, y) == iupac_code_of_pair(y, x),
{
}

/// The ambiguity code of a pair is the code, in the table, of the two
/// alleles brought into alphabetical order.
pub proof fn lemma_iupac_pair_sorted(x: Seq<char>, y: Seq<char>)
    ensures
        iupac_code_of_pair(x, y) == (if name_before(y, x) {
            iupac_code(y, x)
        } else {
            iupac_code(x, y)
        }),
{
    if iupac_code(x, y) is Some {
        lemma_table_is_alphabetical(x, y);
    } else if iupac_code(y, x) is Some {
        lemma_table_is_alphabetical(y, x);
    }
}

/// Two alleles that the table has a code for stand in alphabetical order.
proof fn lemma_table_is_alphabetical(x: Seq<char>, y: Seq<char>)
    requires
        iupac_code(x, y) is Some,
    ensures
        name_before(x, y),
{
    is_ascii_chars_encode_utf8(x);
    is_ascii_chars_encode_utf8(y);
    let a = encode_utf8(x);
    let b = encode_utf8(y);
    assert(agree_before(a, b, 0));
}

/// The only character of a text of one character.
fn single_char(s: &str) -> (r: Option<char>)
    ensures
        r == (if s@.len() == 1 {
            Some(s@[0])
        } else {
            None
        }),
{
    if s.unicode_len() == 1 {
        Some(s.get_char(0))
    } else {
        None
    }
}

fn iupac_text(x: char, y: char) -> (r: Option<&'static str>)
    ensures
        r is Some <==> iupac_of_bases(x, y) is Some,
        r matches Some(t) ==> t@ == seq![iupac_of_bases(x, y)->0],
{
    proof {
        reveal_strlit("R");
        reveal_strlit("Y");
        reveal_strlit("S");
        reveal_strlit("W");
        reveal_strlit("K");
        reveal_strlit("M");
    }
    let r = if x == 'A' && y == 'G' {
        Some("R")
    } else if x == 'C' && y == 'T' {
        Some("Y")
    } else if x == 'C' && y == 'G' {
        Some("S")
    } else if x == 'A' && y == 'T' {
        Some("W")
    } else if x == 'G' && y == 'T' {
        Some("K")
    } else if x == 'A' && y == 'C' {
        Some("M")
    } else {
        None
    };
    r
}

fn iupac_lookup(x: &str, y: &str) -> (r: Option<&'static str>)
    ensures
        r is Some <==> iupac_code(x@, y@) is Some,
        r matches Some(t) ==> t@ == seq![iupac_code(x@, y@)->0],
{
    match (single_char(x), single_char(y)) {
        (Some(a), Some(b)) => iupac_text(a, b),
        _ => None,
    }
}

/// The IUPAC ambiguity code of the heterozygous pair `x`, `y`, given in
/// alphabetical order: R for A and G, Y for C and T, S for C and G, W for
/// A and T, K for G and T, M for A and C. Any other pair is an error.
pub fn get_iupac_representation(x: &str, y: &str) -> (r: Result<String, UnsupportedIupacPairError>)
    ensures
        r is Ok <==> iupac_code(x@, y@) is Some,
        r matches Ok(code) ==> code@ == seq![iupac_code(x@, y@)->0],
        r matches Err(e) ==> e.first@ == x@ && e.second@ == y@,
{
    match iupac_lookup(x, y) {
        Some(code) => Ok(String::from_str(code)),
        None => Err(
            UnsupportedIupacPairError { first: String::from_str(x), second: String::from_str(y) },
        ),
    }
}

/// Whether an allele is a single base: one character, of those that are
/// encoded in one byte.
pub open spec fn is_base(allele: Seq<char>) -> bool {
    allele.len() == 1 && allele[0] as u32 <= 0x7f
}

/// Whether the alleles of a site are those of a substitution of one base
/// by one other: two alleles, each a single base.
pub open spec fn is_snp(alleles: Seq<String>) -> bool {
    &&& alleles.len() == 2
    &&& forall|i: int| 0 <= i < alleles.len() ==> is_base((#[trigger] alleles[i])@)
}

/// A text has at least as many bytes as characters.
proof fn lemma_bytes_of_text(text: Seq<char>)
    ensures
        encode_utf8(text).len() >= text.len(),
    decreases text.len(),
{
    if text.len() > 0 {
        lemma_bytes_of_text(text.drop_first());
    }
}

/// A text is encoded in one byte where it is a single base and nowhere
/// else.
proof fn lemma_one_byte_is_base(text: Seq<char>)
    ensures
        encode_utf8(text).len() == 1 <==> is_base(text),
{
    if text.len() > 0 {
        lemma_bytes_of_text(text.drop_first());
    }
}

/// Tells whether a site is a substitution of a single base.
pub fn from_alleles_to_issnp(alleles: &Vec<String>) -> (r: bool)
    ensures
        r == is_snp(alleles@),
{
    if alleles.len() != 2 {
        return false;
    }
    let mut i: usize = 0;
    while i < alleles.len()
        invariant
            i <= alleles.len(),
            forall|k: int| 0 <= k < i ==> is_base((#[trigger] alleles@[k])@),
        decreases alleles.len() - i,
    {
        proof {
            lemma_one_byte_is_base(alleles@[i as int]@);
        }
        if alleles[i].as_str().as_bytes().len() != 1 {
            return false;
        }
        i += 1;
    }
    true
}

/// The zygosity code of a site from the allele that each parent passes
/// on, 0 for the reference and 1 for the alternate allele: 1 where only
/// the first parent passes on the alternate allele, 2 where only the
/// second does, 3 where both do. A site at which neither does, or with
/// another allele, has no code.
pub open spec fn zygosity_code(first: i32, second: i32) -> Option<nat> {
    if first == 1 && second == 0 {
        Some(1)
    } else if first == 0 && second == 1 {
        Some(2)
    } else if first == 1 && second == 1 {
        Some(3)
    } else {
        None
    }
}

/// A line of the mutation file: chromosome, position counted from 1,
/// reference allele, called allele or ambiguity code, and zygosity code,
/// separated by tabs and ended by a line feed.
pub open spec fn dwgsim_line(
    chromosome: Seq<char>,
    pos1based: int,
    reference: Seq<char>,
    called: Seq<char>,
    zygosity: nat,
) -> Seq<char> {
    chromosome + seq!['\t'] + signed_decimal(pos1based) + seq!['\t'] + reference + seq!['\t']
        + called + seq!['\t'] + decimal(zygosity) + seq!['\n']
}

/// What a site with the alleles `reference` and `alternate` is encoded
/// as: nothing where it has no zygosity code; the reference and alternate
/// allele where it is homozygous for the alternate allele; the reference
/// allele and the ambiguity code of the pair where it is heterozygous,
/// which fails if the pair has no code.
pub open spec fn encoded_site(
    chromosome: Seq<char>,
    pos1based: int,
    reference: Seq<char>,
    alternate: Seq<char>,
    first: i32,
    second: i32,
) -> Option<Seq<char>> {
    match zygosity_code(first, second) {
        None => Some(Seq::empty()),
        Some(zygosity) => if zygosity == 3 {
            Some(dwgsim_line(chromosome, pos1based, reference, alternate, 3))
        } else {
            match iupac_code_of_pair(reference, alternate) {
                Some(code) => Some(
                    dwgsim_line(chromosome, pos1based, reference, seq![code], zygosity),
                ),
                None => None,
            }
        },
    }
}

fn push_line(
    out: &mut String,
    chromosome: &str,
    pos1based: i64,
    reference: &str,
    called: &str,
    zygosity: u64,
)
    ensures
        final(out)@ == old(out)@ + dwgsim_line(
            chromosome@,
            pos1based as int,
            reference@,
            called@,
            zygosity as nat,
        ),
{
    proof {
        reveal_strlit("\t");
        reveal_strlit("\n");
    }
    out.append(chromosome);
    out.append("\t");
    push_signed_decimal(out, pos1based);
    out.append("\t");
    out.append(reference);
    out.append("\t");
    out.append(called);
    out.append("\t");
    push_decimal(out, zygosity);
    out.append("\n");
}

/// Encodes a biallelic site as a line of the mutation file, from the
/// allele (0 reference, 1 alternate) that each parent passes on. The
/// result is empty where no line is due.
pub fn compose_dwgsim_format(
    chromosome: &String,
    pos1based: i64,
    alleles: Vec<String>,
    parent1_gt_hapl: &i32,
    parent2_gt_hapl: &i32,
) -> (r: Result<String, UnsupportedIupacPairError>)
    requires
        alleles@.len() == 2,
    ensures
        r is Ok <==> encoded_site(
            chromosome@,
            pos1based as int,
            alleles@[0]@,
            alleles@[1]@,
            *parent1_gt_hapl,
            *parent2_gt_hapl,
        ) is Some,
        r matches Ok(line) ==> Some(line@) == encoded_site(
            chromosome@,
            pos1based as int,
            alleles@[0]@,
            alleles@[1]@,
            *parent1_gt_hapl,
            *parent2_gt_hapl,
        ),
        r matches Err(e) ==> e.first@ == alleles@[0]@ && e.second@ == alleles@[1]@,
{
    let first = *parent1_gt_hapl;
    let second = *parent2_gt_hapl;
    let mut line = String::new();
    let reference = alleles[0].as_str();
    let alternate = alleles[1].as_str();
    if first == 1 && second == 1 {
        push_line(&mut line, chromosome.as_str(), pos1based, reference, alternate, 3);
    } else if (first == 1 && second == 0) || (first == 0 && second == 1) {
        let zygosity: u64 = if first == 1 {
            1
        } else {
            2
        };
        let code = match iupac_lookup(reference, alternate) {
            Some(code) => code,
            None => match iupac_lookup(alternate, reference) {
                Some(code) => code,
                None => {
                    return Err(
                        UnsupportedIupacPairError {
                            first: String::from_str(reference),
                            second: String::from_str(alternate),
                        },
                    );
                },
            },
        };
        push_line(&mut line, chromosome.as_str(), pos1based, reference, code, zygosity);
    }
    Ok(line)
}

/// One allele of a genotype as a variant file gives it: the number of the
/// allele, phased or not, or the mark that it is missing.
#[derive(Clone, Copy, Debug, PartialEq, Eq, Structural)]
pub enum GenotypeAllele {
    Unphased(i32),
    Phased(i32),
    UnphasedMissing,
    PhasedMissing,
}

/// The number of an allele, unless it is missing.
pub open spec fn allele_number(allele: GenotypeAllele) -> Option<i32> {
    match allele {
        GenotypeAllele::Unphased(value) => Some(value),
        GenotypeAllele::Phased(value) => Some(value),
        GenotypeAllele::UnphasedMissing => None,
        GenotypeAllele::PhasedMissing => None,
    }
}

/// The number of an allele, unless it is missing.
pub fn extract_value(allele: &GenotypeAllele) -> (r: Option<i32>)
    ensures
        r == allele_number(*allele),
{
    match allele {
        GenotypeAllele::Unphased(value) => Some(*value),
        GenotypeAllele::Phased(value) => Some(*value),
        GenotypeAllele::UnphasedMissing => None,
        GenotypeAllele::PhasedMissing => None,
    }
}

/// The allele that a genotype has on haplotype `hap`. It is missing where
/// the genotype marks it so and where the genotype has no such haplotype.
pub open spec fn allele_on(genotype: Seq<GenotypeAllele>, hap: int) -> Option<i32> {
    if 0 <= hap < genotype.len() {
        allele_number(genotype[hap])
    } else {
        None
    }
}

fn allele_on_haplotype(genotype: &Vec<GenotypeAllele>, hap: usize) -> (r: Option<i32>)
    ensures
        r == allele_on(genotype@, hap as int),
{
    if hap < genotype.len() {
        extract_value(&genotype[hap])
    } else {
        None
    }
}

/// A variant site: where it lies, counted from 0, and its alleles, the
/// reference allele first.
#[derive(Clone, Debug)]
pub struct Site {
    pub seqname: String,
    pub position: i64,
    pub alleles: Vec<String>,
}

/// A site with the genotypes of the two parents.
#[derive(Clone, Debug)]
pub struct ParentalRecord {
    pub site: Site,
    pub parent1: Vec<GenotypeAllele>,
    pub parent2: Vec<GenotypeAllele>,
}

/// A site with the genotype of one sample.
#[derive(Clone, Debug)]
pub struct SampleRecord {
    pub site: Site,
    pub genotype: Vec<GenotypeAllele>,
}

/// What became of a record.
#[derive(Clone, Copy, Debug, PartialEq, Eq, Structural)]
pub enum SiteOutcome {
    /// It lies on another chromosome or outside the interval.
    OutsideInterval,
    /// It is not a substitution of one base by one other.
    NotSnp,
    /// The genotype of a parent is missing on the haplotype asked for.
    MissingGenotype,
    /// Both parents pass on the reference allele.
    BothReference,
    /// It was handed to the encoder.
    Encoded,
}

/// Whether a site lies on `chromosome` at a position from `pos_from` up to
/// but not including `pos_to`.
pub open spec fn in_interval(site: Site, chromosome: Seq<char>, pos_from: u64, pos_to: u64) -> bool {
    &&& site.seqname@ == chromosome
    &&& pos_from <= site.position < pos_to
}

/// What becomes of a record of the two parents, of which the first passes
/// on haplotype `hap1` and the second haplotype `hap2`.
pub open spec fn parental_outcome(
    record: ParentalRecord,
    hap1: int,
    hap2: int,
    chromosome: Seq<char>,
    pos_from: u64,
    pos_to: u64,
) -> SiteOutcome {
    if !in_interval(record.site, chromosome, pos_from, pos_to) {
        SiteOutcome::OutsideInterval
    } else if !is_snp(record.site.alleles@) {
        SiteOutcome::NotSnp
    } else if allele_on(record.parent1@, hap1) is None || allele_on(record.parent2@, hap2) is None {
        SiteOutcome::MissingGenotype
    } else if allele_on(record.parent1@, hap1) == Some(0i32) && allele_on(record.parent2@, hap2)
        == Some(0i32) {
        SiteOutcome::BothReference
    } else {
        SiteOutcome::Encoded
    }
}

/// The text that a record of the two parents adds to the mutation file:
/// nothing unless it is handed to the encoder. `None` where the encoder
/// fails.
pub open spec fn parental_text(
    record: ParentalRecord,
    hap1: int,
    hap2: int,
    chromosome: Seq<char>,
    pos_from: u64,
    pos_to: u64,
) -> Option<Seq<char>> {
    if parental_outcome(record, hap1, hap2, chromosome, pos_from, pos_to) == SiteOutcome::Encoded {
        encoded_site(
            chromosome,
            record.site.position + 1,
            record.site.alleles@[0]@,
            record.site.alleles@[1]@,
            allele_on(record.parent1@, hap1)->0,
            allele_on(record.parent2@, hap2)->0,
        )
    } else {
        Some(Seq::empty())
    }
}

/// The text that records of the two parents add to the mutation file, one
/// after the other. `None` where the encoder fails on one of them.
pub open spec fn parental_texts(
    records: Seq<ParentalRecord>,
    hap1: int,
    hap2: int,
    chromosome: Seq<char>,
    pos_from: u64,
    pos_to: u64,
) -> Option<Seq<char>>
    decreases records.len(),
{
    if records.len() == 0 {
        Some(Seq::empty())
    } else {
        match (
            parental_texts(records.drop_last(), hap1, hap2, chromosome, pos_from, pos_to),
            parental_text(records.last(), hap1, hap2, chromosome, pos_from, pos_to),
        ) {
            (Some(before), Some(text)) => Some(before + text),
            _ => None,
        }
    }
}

/// Where the encoder fails among the first records, it fails among all.
proof fn lemma_parental_texts_fail_later(
    records: Seq<ParentalRecord>,
    n: int,
    hap1: int,
    hap2: int,
    chromosome: Seq<char>,
    pos_from: u64,
    pos_to: u64,
)
    requires
        0 <= n <= records.len(),
        parental_texts(records.take(n), hap1, hap2, chromosome, pos_from, pos_to) is None,
    ensures
        parental_texts(records, hap1, hap2, chromosome, pos_from, pos_to) is None,
    decreases records.len() - n,
{
    if n < records.len() {
        assert(records.take(n + 1).drop_last() =~= records.take(n));
        lemma_parental_texts_fail_later(records, n + 1, hap1, hap2, chromosome, pos_from, pos_to);
    } else {
        assert(records.take(n) =~= records);
    }
}

/// The alleles of a site as they were, for use after the site itself.
fn alleles_of(site: &Site) -> (r: Vec<String>)
    ensures
        r@.len() == site.alleles@.len(),
        forall|i: int| 0 <= i < r@.len() ==> (#[trigger] r@[i])@ == site.alleles@[i]@,
{
    let mut r: Vec<String> = Vec::new();
    let mut i: usize = 0;
    while i < site.alleles.len()
        invariant
            i <= site.alleles.len(),
            r@.len() == i,
            forall|k: int| 0 <= k < i ==> (#[trigger] r@[k])@ == site.alleles@[k]@,
        decreases site.alleles.len() - i,
    {
        r.push(site.alleles[i].clone());
        i += 1;
    }
    r
}

/// Goes through `records`, records of the two parents, and adds to
/// `output` a line of the mutation file for each site of the interval from
/// `pos_from` up to but not including `pos_to` of `chromosome` at which
/// the offspring, who gets haplotype `hap1` of the first parent and `hap2`
/// of the second, differs from the reference. Returns what became of each
/// record.
///
/// Fails at the first site that the encoder cannot encode; `output`
/// then holds the lines of the records before it.
pub fn resolve_records(
    records: &Vec<ParentalRecord>,
    hap1: usize,
    hap2: usize,
    chromosome: &String,
    pos_from: u64,
    pos_to: u64,
    output: &mut String,
) -> (r: Result<Vec<SiteOutcome>, UnsupportedIupacPairError>)
    requires
        forall|i: int| 0 <= i < records@.len() ==> (#[trigger] records@[i]).site.position < i64::MAX,
    ensures
        r is Ok <==> parental_texts(
            records@,
            hap1 as int,
            hap2 as int,
            chromosome@,
            pos_from,
            pos_to,
        ) is Some,
        r matches Ok(outcomes) ==> {
            &&& final(output)@ == old(output)@ + parental_texts(
                records@,
                hap1 as int,
                hap2 as int,
                chromosome@,
                pos_from,
                pos_to,
            )->0
            &&& outcomes@.len() == records@.len()
            &&& forall|i: int|
                0 <= i < records@.len() ==> #[trigger] outcomes@[i] == parental_outcome(
                    records@[i],
                    hap1 as int,
                    hap2 as int,
                    chromosome@,
                    pos_from,
                    pos_to,
                )
        },
        r matches Err(e) ==> exists|k: int|
            {
                &&& 0 <= k < records@.len()
                &&& #[trigger] parental_texts(
                    records@.take(k),
                    hap1 as int,
                    hap2 as int,
                    chromosome@,
                    pos_from,
                    pos_to,
                ) is Some
                &&& final(output)@ == old(output)@ + parental_texts(
                    records@.take(k),
                    hap1 as int,
                    hap2 as int,
                    chromosome@,
                    pos_from,
                    pos_to,
                )->0
                &&& parental_text(
                    records@[k],
                    hap1 as int,
                    hap2 as int,
                    chromosome@,
                    pos_from,
                    pos_to,
                ) is None
                &&& e.first@ == records@[k].site.alleles@[0]@
                &&& e.second@ == records@[k].site.alleles@[1]@
            },
{
    let mut outcomes: Vec<SiteOutcome> = Vec::new();
    let mut i: usize = 0;
    while i < records.len()
        invariant
            i <= records.len(),
            forall|k: int|
                0 <= k < records@.len() ==> (#[trigger] records@[k]).site.position < i64::MAX,
            parental_texts(
                records@.take(i as int),
                hap1 as int,
                hap2 as int,
                chromosome@,
                pos_from,
                pos_to,
            ) is Some,
            output@ == old(output)@ + parental_texts(
                records@.take(i as int),
                hap1 as int,
                hap2 as int,
                chromosome@,
                pos_from,
                pos_to,
            )->0,
            outcomes@.len() == i,
            forall|k: int|
                0 <= k < i ==> #[trigger] outcomes@[k] == parental_outcome(
                    records@[k],
                    hap1 as int,
                    hap2 as int,
                    chromosome@,
                    pos_from,
                    pos_to,
                ),
        decreases records.len() - i,
    {
        let record = &records[i];
        proof {
            assert(records@.take(i + 1).drop_last() =~= records@.take(i as int));
        }
        let outcome = if !(record.site.seqname == *chromosome && record.site.position >= 0
            && record.site.position as u64 >= pos_from && (record.site.position as u64)
            < pos_to) {
            SiteOutcome::OutsideInterval
        } else if !from_alleles_to_issnp(&record.site.alleles) {
            SiteOutcome::NotSnp
        } else {
            match (
                allele_on_haplotype(&record.parent1, hap1),
                allele_on_haplotype(&record.parent2, hap2),
            ) {
                (Some(first), Some(second)) => {
                    if first == 0 && second == 0 {
                        SiteOutcome::BothReference
                    } else {
                        let line = match compose_dwgsim_format(
                            chromosome,
                            record.site.position + 1,
                            alleles_of(&record.site),
                            &first,
                            &second,
                        ) {
                            Ok(line) => line,
                            Err(e) => {
                                proof {
                                    lemma_parental_texts_fail_later(
                                        records@,
                                        i + 1,
                                        hap1 as int,
                                        hap2 as int,
                                        chromosome@,
                                        pos_from,
                                        pos_to,
                                    );
                                }
                                return Err(e);
                            },
                        };
                        output.append(line.as_str());
                        SiteOutcome::Encoded
                    }
                },
                _ => SiteOutcome::MissingGenotype,
            }
        };
        outcomes.push(outcome);
        i += 1;
    }
    proof {
        assert(records@.take(i as int) =~= records@);
    }
    Ok(outcomes)
}

/// Why the records of an interval could not be resolved.
#[derive(Debug)]
pub enum ResolveError {
    /// The variant file has no genotypes for this parent.
    MissingSample(ParentId),
    /// The alleles of a heterozygous site have no ambiguity code.
    Unsupported(UnsupportedIupacPairError),
}

/// The variant file of one chromosome: where it is, which chromosome it
/// is of, and the samples it has genotypes for.
#[derive(Clone, Debug)]
pub struct VCF {
    pub file_path: String,
    pub seqname: String,
    pub samples: Vec<String>,
}

impl VCF {
    pub fn new(file_path: String, seqname: String, samples: Vec<String>) -> (r: VCF)
        ensures
            r.file_path == file_path,
            r.seqname == seqname,
            r.samples == samples,
    {
        VCF { file_path, seqname, samples }
    }

    /// Whether the file has genotypes for the sample `name`.
    pub open spec fn holds_sample(&self, name: Seq<char>) -> bool {
        exists|i: int| 0 <= i < self.samples@.len() && (#[trigger] self.samples@[i])@ == name
    }

    /// Tells whether the file has genotypes for the sample `name`.
    pub fn has_sample(&self, name: &String) -> (r: bool)
        ensures
            r == self.holds_sample(name@),
    {
        let mut i: usize = 0;
        while i < self.samples.len()
            invariant
                i <= self.samples.len(),
                forall|k: int| 0 <= k < i ==> (#[trigger] self.samples@[k])@ != name@,
            decreases self.samples.len() - i,
        {
            if self.samples[i] == *name {
                return true;
            }
            i += 1;
        }
        false
    }

    /// Goes through `records`, the records of `parent1` and `parent2` that
    /// the file has for an interval, and adds to `output` a line of the
    /// mutation file for each site of the interval at which the offspring,
    /// who gets haplotype `hap1` of the first parent and `hap2` of the
    /// second, differs from the reference. Returns what became of each
    /// record.
    ///
    /// Fails, with nothing added, if the file has no genotypes for one of
    /// the parents. Fails at the first site that the encoder cannot
    /// encode; `output` then holds the lines of the records before it.
    pub fn get_records_two_parents_from_to(
        &self,
        parent1: &String,
        parent2: &String,
        records: &Vec<ParentalRecord>,
        hap1: usize,
        hap2: usize,
        chromosome: &String,
        pos_from: u64,
        pos_to: u64,
        output: &mut String,
    ) -> (r: Result<Vec<SiteOutcome>, ResolveError>)
        requires
            forall|i: int| 0 <= i < records@.len() ==> (#[trigger] records@[i]).site.position < i64::MAX,
        ensures
            r matches Err(ResolveError::MissingSample(parent)) ==> {
                &&& final(output)@ == old(output)@
                &&& parent == ParentId::Parent1 ==> !self.holds_sample(parent1@)
                &&& parent == ParentId::Parent2 ==> self.holds_sample(parent1@)
                    && !self.holds_sample(parent2@)
            },
            !self.holds_sample(parent1@) || !self.holds_sample(parent2@) ==> r matches Err(
                ResolveError::MissingSample(_),
            ),
            self.holds_sample(parent1@) && self.holds_sample(parent2@) ==> (r is Ok
                <==> parental_texts(
                records@,
                hap1 as int,
                hap2 as int,
                chromosome@,
                pos_from,
                pos_to,
            ) is Some),
            r matches Ok(outcomes) ==> {
                &&& final(output)@ == old(output)@ + parental_texts(
                    records@,
                    hap1 as int,
                    hap2 as int,
                    chromosome@,
                    pos_from,
                    pos_to,
                )->0
                &&& outcomes@.len() == records@.len()
                &&& forall|i: int|
                    0 <= i < records@.len() ==> #[trigger] outcomes@[i] == parental_outcome(
                        records@[i],
                        hap1 as int,
                        hap2 as int,
                        chromosome@,
                        pos_from,
                        pos_to,
                    )
            },
            r matches Err(ResolveError::Unsupported(e)) ==> exists|k: int|
                {
                    &&& 0 <= k < records@.len()
                    &&& #[trigger] parental_texts(
                        records@.take(k),
                        hap1 as int,
                        hap2 as int,
                        chromosome@,
                        pos_from,
                        pos_to,
                    ) is Some
                    &&& final(output)@ == old(output)@ + parental_texts(
                        records@.take(k),
                        hap1 as int,
                        hap2 as int,
                        chromosome@,
                        pos_from,
                        pos_to,
                    )->0
                    &&& parental_text(
                        records@[k],
                        hap1 as int,
                        hap2 as int,
                        chromosome@,
                        pos_from,
                        pos_to,
                    ) is None
                    &&& e.first@ == records@[k].site.alleles@[0]@
                    &&& e.second@ == records@[k].site.alleles@[1]@
                },
    {
        if !self.has_sample(parent1) {
            return Err(ResolveError::MissingSample(ParentId::Parent1));
        }
        if !self.has_sample(parent2) {
            return Err(ResolveError::MissingSample(ParentId::Parent2));
        }
        match resolve_records(records, hap1, hap2, chromosome, pos_from, pos_to, output) {
            Ok(outcomes) => Ok(outcomes),
            Err(e) => Err(ResolveError::Unsupported(e)),
        }
    }
}

/// The variant files of all chromosomes, by chromosome.
#[derive(Debug)]
pub struct VCFCollection {
    pub vcfs: ChromosomeTable<VCF>,
}

/// A variant file as it is found in a folder: its path and the samples
/// that its header names.
#[derive(Clone, Debug)]
pub struct VcfFile {
    pub path: String,
    pub samples: Vec<String>,
}

/// Why a set of variant files makes no collection.
#[derive(Clone, Copy, Debug, PartialEq, Eq, Structural)]
pub enum CollectionError {
    /// There is no file.
    NoFiles,
    /// The path of the file with this index names no chromosome.
    NoChromosome { index: usize },
}

/// The chromosome that the path of a variant file names.
pub open spec fn chromosome_of_path(path: Seq<char>) -> Option<Seq<char>> {
    captured_chromosome(regex_search(chromosome_pattern(), path))
}

/// The index of the last of the files whose path names `chromosome`.
pub open spec fn latest_file(files: Seq<VcfFile>, chromosome: Seq<char>) -> Option<int>
    decreases files.len(),
{
    if files.len() == 0 {
        None
    } else if chromosome_of_path(files.last().path@) == Some(chromosome) {
        Some(files.len() - 1)
    } else {
        latest_file(files.drop_last(), chromosome)
    }
}

/// Two sequences of texts read the same.
pub open spec fn same_texts(a: Seq<String>, b: Seq<String>) -> bool {
    &&& a.len() == b.len()
    &&& forall|i: int| 0 <= i < a.len() ==> (#[trigger] a[i])@ == b[i]@
}

/// The table holds, for each chromosome that a path names, the last file
/// that names it, and nothing else.
pub open spec fn files_by_chromosome(table: Map<Seq<char>, VCF>, files: Seq<VcfFile>) -> bool {
    forall|chromosome: Seq<char>|
        {
            &&& #[trigger] table.contains_key(chromosome) <==> latest_file(files, chromosome) is Some
            &&& table.contains_key(chromosome) ==> {
                let file = files[latest_file(files, chromosome)->0];
                &&& table[chromosome].seqname@ == chromosome
                &&& table[chromosome].file_path@ == file.path@
                &&& same_texts(table[chromosome].samples@, file.samples@)
            }
        }
}

fn texts_of(texts: &Vec<String>) -> (r: Vec<String>)
    ensures
        same_texts(r@, texts@),
{
    let mut r: Vec<String> = Vec::new();
    let mut i: usize = 0;
    while i < texts.len()
        invariant
            i <= texts.len(),
            r@.len() == i,
            forall|k: int| 0 <= k < i ==> (#[trigger] r@[k])@ == texts@[k]@,
        decreases texts.len() - i,
    {
        r.push(texts[i].clone());
        i += 1;
    }
    r
}

/// `vcfs` are the variant files `files`, each with the chromosome that
/// its path names.
pub open spec fn built_from(vcfs: Seq<VCF>, files: Seq<VcfFile>) -> bool {
    &&& vcfs.len() == files.len()
    &&& forall|i: int|
        0 <= i < vcfs.len() ==> {
            &&& Some((#[trigger] vcfs[i]).seqname@) == chromosome_of_path(files[i].path@)
            &&& vcfs[i].file_path@ == files[i].path@
            &&& same_texts(vcfs[i].samples@, files[i].samples@)
        }
}

/// The last file whose path names a chromosome has the index of the last
/// variant file of that chromosome.
proof fn lemma_latest_file_is_latest_vcf(vcfs: Seq<VCF>, files: Seq<VcfFile>, chromosome: Seq<char>)
    requires
        built_from(vcfs, files),
    ensures
        latest_of(vcfs, chromosome) == latest_file(files, chromosome),
    decreases vcfs.len(),
{
    if vcfs.len() > 0 {
        lemma_latest_file_is_latest_vcf(vcfs.drop_last(), files.drop_last(), chromosome);
    }
}

impl Named for VCF {
    open spec fn chromosome(&self) -> Seq<char> {
        self.seqname@
    }

    fn chromosome_name(&self) -> (name: &String) {
        &self.seqname
    }
}

impl VCFCollection {
    /// Files each variant file under its chromosome. Where two are of one
    /// chromosome, the later stays.
    ///
    /// Fails if there is no file.
    pub fn from_vcfs(vcfs: Vec<VCF>) -> (r: Result<VCFCollection, CollectionError>)
        ensures
            r is Ok <==> vcfs@.len() > 0,
            r matches Ok(collection) ==> {
                &&& collection.vcfs.wf()
                &&& collection.vcfs.entries@.len() > 0
                &&& holds_latest(collection.vcfs@, vcfs@)
            },
            r matches Err(e) ==> e == CollectionError::NoFiles,
    {
        if vcfs.len() == 0 {
            return Err(CollectionError::NoFiles);
        }
        Ok(VCFCollection { vcfs: ChromosomeTable::from_values(vcfs) })
    }

    /// Files each variant file under the chromosome that its path names.
    /// Where two paths name one chromosome, the later file stays.
    ///
    /// Fails if there is no file, or at the first path that names no
    /// chromosome.
    pub fn from_path(files: &Vec<VcfFile>) -> (r: Result<VCFCollection, CollectionError>)
        ensures
            r is Ok <==> files@.len() > 0 && forall|i: int|
                0 <= i < files@.len() ==> chromosome_of_path((#[trigger] files@[i]).path@) is Some,
            r matches Ok(collection) ==> {
                &&& collection.vcfs.wf()
                &&& collection.vcfs.entries@.len() > 0
                &&& files_by_chromosome(collection.vcfs@, files@)
            },
            r matches Err(e) ==> match e {
                CollectionError::NoFiles => files@.len() == 0,
                CollectionError::NoChromosome { index } => {
                    &&& index < files@.len()
                    &&& chromosome_of_path(files@[index as int].path@) is None
                    &&& forall|i: int|
                        0 <= i < index ==> chromosome_of_path((#[trigger] files@[i]).path@) is Some
                },
            },
    {
        let mut vcfs: Vec<VCF> = Vec::new();
        let mut i: usize = 0;
        while i < files.len()
            invariant
                i <= files.len(),
                built_from(vcfs@, files@.take(i as int)),
            decreases files.len() - i,
        {
            let file = &files[i];
            let seqname = match capture_chromosome_from_file_name(file.path.as_str()) {
                Some(seqname) => seqname,
                None => {
                    proof {
                        assert forall|k: int| 0 <= k < i implies chromosome_of_path(
                            (#[trigger] files@[k]).path@,
                        ) is Some by {
                            assert(Some(vcfs@[k].seqname@) == chromosome_of_path(
                                files@.take(i as int)[k].path@,
                            ));
                        }
                    }
                    return Err(CollectionError::NoChromosome { index: i });
                },
            };
            vcfs.push(VCF::new(file.path.clone(), seqname, texts_of(&file.samples)));
            proof {
                let grown = files@.take(i + 1);
                assert forall|k: int| 0 <= k < vcfs@.len() implies {
                    &&& Some((#[trigger] vcfs@[k]).seqname@) == chromosome_of_path(grown[k].path@)
                    &&& vcfs@[k].file_path@ == grown[k].path@
                    &&& same_texts(vcfs@[k].samples@, grown[k].samples@)
                } by {
                    if k < i {
                        assert(files@.take(i as int)[k] == grown[k]);
                    }
                }
            }
            i += 1;
        }
        proof {
            assert forall|k: int| 0 <= k < files@.len() implies chromosome_of_path(
                (#[trigger] files@[k]).path@,
            ) is Some by {
                assert(Some(vcfs@[k].seqname@) == chromosome_of_path(files@[k].path@));
            }
        }
        let ghost built = vcfs@;
        let r = VCFCollection::from_vcfs(vcfs);
        proof {
            if r is Ok {
                let table = r->Ok_0.vcfs@;
                assert forall|chromosome: Seq<char>|
                    {
                        &&& #[trigger] table.contains_key(chromosome) <==> latest_file(
                            files@,
                            chromosome,
                        ) is Some
                        &&& table.contains_key(chromosome) ==> {
                            let file = files@[latest_file(files@, chromosome)->0];
                            &&& table[chromosome].seqname@ == chromosome
                            &&& table[chromosome].file_path@ == file.path@
                            &&& same_texts(table[chromosome].samples@, file.samples@)
                        }
                    } by {
                    lemma_latest_file_is_latest_vcf(built, files@, chromosome);
                    lemma_latest_of(built, chromosome);
                }
            }
        }
        r
    }
}

/// What is wrong with the genotype of a record of a single sample.
#[derive(Clone, Copy, Debug, PartialEq, Eq, Structural)]
pub enum FormatFailure {
    /// The genotype has fewer than two alleles.
    Ploidy,
    /// The first allele is phased or the second is not.
    Phasing,
    /// An allele is missing.
    Missing,
    /// The alleles of the site have no ambiguity code.
    Iupac,
}

/// A record of a variant file that cannot be turned into a line of a
/// mutation file, by its index among the records.
#[derive(Clone, Copy, Debug, PartialEq, Eq, Structural)]
pub struct FormatError {
    pub index: usize,
    pub failure: FormatFailure,
}

/// The two alleles of the genotype of a single sample: the first has to
/// be given unphased and the second phased.
pub open spec fn sample_alleles(genotype: Seq<GenotypeAllele>) -> Result<(i32, i32), FormatFailure> {
    if genotype.len() < 2 {
        Err(FormatFailure::Ploidy)
    } else {
        match genotype[0] {
            GenotypeAllele::Unphased(first) => match genotype[1] {
                GenotypeAllele::Phased(second) => Ok((first, second)),
                GenotypeAllele::Unphased(_) => Err(FormatFailure::Phasing),
                _ => Err(FormatFailure::Missing),
            },
            GenotypeAllele::Phased(_) => Err(FormatFailure::Phasing),
            _ => Err(FormatFailure::Missing),
        }
    }
}

/// The text that a record of a single sample adds to the mutation file:
/// nothing unless the site is a substitution of a single base, else what
/// the encoder makes of the two alleles of the genotype.
pub open spec fn sample_text(record: SampleRecord) -> Result<Seq<char>, FormatFailure> {
    if !is_snp(record.site.alleles@) {
        Ok(Seq::empty())
    } else {
        match sample_alleles(record.genotype@) {
            Err(failure) => Err(failure),
            Ok(alleles) => match encoded_site(
                record.site.seqname@,
                record.site.position + 1,
                record.site.alleles@[0]@,
                record.site.alleles@[1]@,
                alleles.0,
                alleles.1,
            ) {
                Some(text) => Ok(text),
                None => Err(FormatFailure::Iupac),
            },
        }
    }
}

/// The text that the records of a single sample add to the mutation
/// file, one after the other, or the first failure with the index of its
/// record.
pub open spec fn sample_texts(records: Seq<SampleRecord>) -> Result<Seq<char>, FormatError>
    decreases records.len(),
{
    if records.len() == 0 {
        Ok(Seq::empty())
    } else {
        match sample_texts(records.drop_last()) {
            Err(e) => Err(e),
            Ok(before) => match sample_text(records.last()) {
                Ok(text) => Ok(before + text),
                Err(failure) => Err(
                    FormatError { index: (records.len() - 1) as usize, failure },
                ),
            },
        }
    }
}

/// Where the first records fail, all of them fail in the same way.
proof fn lemma_sample_texts_fail_later(records: Seq<SampleRecord>, n: int)
    requires
        0 <= n <= records.len(),
        sample_texts(records.take(n)) is Err,
    ensures
        sample_texts(records) == sample_texts(records.take(n)),
    decreases records.len() - n,
{
    if n < records.len() {
        assert(records.take(n + 1).drop_last() =~= records.take(n));
        lemma_sample_texts_fail_later(records, n + 1);
    } else {
        assert(records.take(n) =~= records);
    }
}

fn alleles_of_sample(genotype: &Vec<GenotypeAllele>) -> (r: Result<(i32, i32), FormatFailure>)
    ensures
        r == sample_alleles(genotype@),
{
    if genotype.len() < 2 {
        return Err(FormatFailure::Ploidy);
    }
    match genotype[0] {
        GenotypeAllele::Unphased(first) => match genotype[1] {
            GenotypeAllele::Phased(second) => Ok((first, second)),
            GenotypeAllele::Unphased(_) => Err(FormatFailure::Phasing),
            _ => Err(FormatFailure::Missing),
        },
        GenotypeAllele::Phased(_) => Err(FormatFailure::Phasing),
        _ => Err(FormatFailure::Missing),
    }
}

/// Adds to `output` a line of the mutation file for each record of a
/// variant file of a single sample that is a substitution of a single
/// base.
///
/// Fails at the first record whose genotype is not an unphased allele
/// followed by a phased one, or whose alleles the encoder cannot encode;
/// `output` then holds the lines of the records before it.
pub fn flush_vcf_to_file(output: &mut String, records: &Vec<SampleRecord>) -> (r: Result<
    (),
    FormatError,
>)
    requires
        forall|i: int| 0 <= i < records@.len() ==> (#[trigger] records@[i]).site.position < i64::MAX,
    ensures
        r is Ok <==> sample_texts(records@) is Ok,
        r is Ok ==> final(output)@ == old(output)@ + sample_texts(records@)->Ok_0,
        r matches Err(e) ==> {
            &&& sample_texts(records@) == Err::<Seq<char>, FormatError>(e)
            &&& e.index < records@.len()
            &&& sample_texts(records@.take(e.index as int)) is Ok
            &&& final(output)@ == old(output)@ + sample_texts(records@.take(e.index as int))->Ok_0
        },
{
    let mut i: usize = 0;
    while i < records.len()
        invariant
            i <= records.len(),
            forall|k: int|
                0 <= k < records@.len() ==> (#[trigger] records@[k]).site.position < i64::MAX,
            sample_texts(records@.take(i as int)) is Ok,
            output@ == old(output)@ + sample_texts(records@.take(i as int))->Ok_0,
        decreases records.len() - i,
    {
        let record = &records[i];
        proof {
            assert(records@.take(i + 1).drop_last() =~= records@.take(i as int));
        }
        if from_alleles_to_issnp(&record.site.alleles) {
            let failure = match alleles_of_sample(&record.genotype) {
                Err(failure) => Some(failure),
                Ok((first, second)) => match compose_dwgsim_format(
                    &record.site.seqname,
                    record.site.position + 1,
                    alleles_of(&record.site),
                    &first,
                    &second,
                ) {
                    Ok(line) => {
                        output.append(line.as_str());
                        None
                    },
                    Err(_) => Some(FormatFailure::Iupac),
                },
            };
            match failure {
                Some(failure) => {
                    proof {
                        lemma_sample_texts_fail_later(records@, i + 1);
                    }
                    return Err(FormatError { index: i, failure });
                },
                None => {},
            }
        }
        i += 1;
    }
    proof {
        assert(records@.take(i as int) =~= records@);
    }
    Ok(())
}

/// The alleles that the parents pass on at a site of a new mutation:
/// with `coin` 0 the second parent passes on the mutation, else the first.
pub open spec fn denovo_alleles(coin: i32) -> (i32, i32) {
    if coin == 0 {
        (0i32, 1i32)
    } else {
        (1i32, 0i32)
    }
}

/// A line of the file of the true positions of new mutations: chromosome
/// and position counted from 1, separated by a tab.
pub open spec fn position_line(chromosome: Seq<char>, pos1based: int) -> Seq<char> {
    chromosome + seq!['\t'] + signed_decimal(pos1based) + seq!['\n']
}

/// What new mutations add to the mutation file and to the file of their
/// true positions.
pub struct DenovoText {
    pub mutations: Seq<char>,
    pub positions: Seq<char>,
}

/// What a site of a new mutation adds to the mutation file and to the
/// file of true positions: nothing unless it is a substitution of a single
/// base, else its line as a heterozygous site, the parent being chosen by
/// `coin`, and its position. `None` where the encoder fails.
pub open spec fn denovo_text(site: Site, coin: i32) -> Option<DenovoText> {
    if !is_snp(site.alleles@) {
        Some(DenovoText { mutations: Seq::empty(), positions: Seq::empty() })
    } else {
        match encoded_site(
            site.seqname@,
            site.position + 1,
            site.alleles@[0]@,
            site.alleles@[1]@,
            denovo_alleles(coin).0,
            denovo_alleles(coin).1,
        ) {
            Some(line) => Some(
                DenovoText {
                    mutations: line,
                    positions: position_line(site.seqname@, site.position + 1),
                },
            ),
            None => None,
        }
    }
}

/// What the sites of new mutations add to the two files, one after the
/// other, the `i`-th site with the `i`-th coin.
pub open spec fn denovo_texts(sites: Seq<Site>, coins: Seq<i32>) -> Option<DenovoText>
    decreases sites.len(),
{
    if sites.len() == 0 {
        Some(DenovoText { mutations: Seq::empty(), positions: Seq::empty() })
    } else {
        match (
            denovo_texts(sites.drop_last(), coins.drop_last()),
            denovo_text(sites.last(), coins[sites.len() - 1]),
        ) {
            (Some(before), Some(text)) => Some(
                DenovoText {
                    mutations: before.mutations + text.mutations,
                    positions: before.positions + text.positions,
                },
            ),
            _ => None,
        }
    }
}

/// Adds the site of a new mutation to the mutation file `output` and its
/// position to `truepos`, unless it is not a substitution of a single
/// base. The mutation is heterozygous; `coin` says which parent it is
/// ascribed to.
pub fn push_denovo_site(output: &mut String, truepos: &mut String, site: &Site, coin: i32) -> (r:
    Result<(), UnsupportedIupacPairError>)
    requires
        site.position < i64::MAX,
    ensures
        r is Ok <==> denovo_text(*site, coin) is Some,
        r is Ok ==> {
            &&& final(output)@ == old(output)@ + denovo_text(*site, coin)->0.mutations
            &&& final(truepos)@ == old(truepos)@ + denovo_text(*site, coin)->0.positions
        },
        r matches Err(e) ==> {
            &&& final(output)@ == old(output)@
            &&& final(truepos)@ == old(truepos)@
            &&& e.first@ == site.alleles@[0]@
            &&& e.second@ == site.alleles@[1]@
        },
{
    if !from_alleles_to_issnp(&site.alleles) {
        return Ok(());
    }
    let gts: (i32, i32) = if coin == 0 {
        (0, 1)
    } else {
        (1, 0)
    };
    let line = compose_dwgsim_format(
        &site.seqname,
        site.position + 1,
        alleles_of(site),
        &gts.0,
        &gts.1,
    )?;
    output.append(line.as_str());
    proof {
        reveal_strlit("\t");
        reveal_strlit("\n");
    }
    truepos.append(site.seqname.as_str());
    truepos.append("\t");
    push_signed_decimal(truepos, site.position + 1);
    truepos.append("\n");
    Ok(())
}

/// Every coin is 0 or 1, and there is one for each site.
pub open spec fn fair_coins(coins: Seq<i32>, n: nat) -> bool {
    &&& coins.len() == n
    &&& forall|i: int| 0 <= i < coins.len() ==> 0 <= #[trigger] coins[i] < 2
}

/// Adds the new mutations at `sites` to the mutation file `output` and
/// their positions to `truepos`. Each is heterozygous and ascribed to one
/// parent by a coin drawn from `rng_dnm`, one draw for each site that is a
/// substitution of a single base.
///
/// Fails at the first site that the encoder cannot encode; the two texts
/// then hold what the sites before it gave.
pub fn flush_dnm_to_file(
    output: &mut String,
    truepos: &mut String,
    sites: &Vec<Site>,
    rng_dnm: &mut StdRng,
) -> (r: Result<(), UnsupportedIupacPairError>)
    requires
        forall|i: int| 0 <= i < sites@.len() ==> (#[trigger] sites@[i]).position < i64::MAX,
    ensures
        exists|coins: Seq<i32>, n: int|
            {
                &&& fair_coins(coins, sites@.len())
                &&& 0 <= n <= sites@.len()
                &&& #[trigger] denovo_texts(sites@.take(n), coins.take(n)) is Some
                &&& final(output)@ == old(output)@ + denovo_texts(
                    sites@.take(n),
                    coins.take(n),
                )->0.mutations
                &&& final(truepos)@ == old(truepos)@ + denovo_texts(
                    sites@.take(n),
                    coins.take(n),
                )->0.positions
                &&& r is Ok ==> n == sites@.len()
                &&& r is Err ==> n < sites@.len() && denovo_text(sites@[n], coins[n]) is None
            },
{
    let ghost mut coins: Seq<i32> = Seq::empty();
    let mut i: usize = 0;
    while i < sites.len()
        invariant
            i <= sites.len(),
            forall|k: int| 0 <= k < sites@.len() ==> (#[trigger] sites@[k]).position < i64::MAX,
            fair_coins(coins, i as nat),
            denovo_texts(sites@.take(i as int), coins) is Some,
            output@ == old(output)@ + denovo_texts(sites@.take(i as int), coins)->0.mutations,
            truepos@ == old(truepos)@ + denovo_texts(sites@.take(i as int), coins)->0.positions,
        decreases sites.len() - i,
    {
        let site = &sites[i];
        let coin: i32 = if from_alleles_to_issnp(&site.alleles) {
            draw_i32(rng_dnm, 0, 2)
        } else {
            0
        };
        let ghost earlier = coins;
        let ghost grown = coins.push(coin);
        proof {
            assert(sites@.take(i + 1).drop_last() =~= sites@.take(i as int));
            assert(grown.drop_last() =~= earlier);
        }
        match push_denovo_site(output, truepos, site, coin) {
            Ok(()) => {},
            Err(e) => {
                proof {
                    let padded = grown + Seq::new((sites@.len() - i - 1) as nat, |k: int| 0i32);
                    assert(padded.take(i as int) =~= earlier);
                }
                return Err(e);
            },
        }
        proof {
            coins = grown;
        }
        i += 1;
    }
    proof {
        assert(coins.take(i as int) =~= coins);
    }
    Ok(())
}

} // verus!
