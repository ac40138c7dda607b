//! Names of chromosomes, the table of chromosome sizes, and the lines of
//! the haplotype file.

use vstd::prelude::*;
use vstd::slice::slice_to_vec;
use vstd::string::*;
use vstd::utf8::{decode_utf8, valid_utf8};
use crate::bytes::{contents, lemma_words_valid, lines_of, split_lines, split_words,
    text_of_bytes, words_of};
use crate::numbers::{parse_unsigned, unsigned_of};
use crate::table::ChromosomeTable;
use crate::text::{decimal, push_decimal};

verus! {

/// The error of the regex crate for a pattern that it cannot compile.
#[verifier::external_type_specification]
#[verifier::external_body]
pub struct ExRegexError(regex::Error);

/// What the regex crate finds when it searches `text` for `pattern`: `None`
/// where the pattern does not compile, else the first match, if there is
/// one.
pub uninterp spec fn regex_search(pattern: Seq<char>, text: Seq<char>) -> Option<Option<Seq<char>>>;

/// Compiles `pattern` with `Regex::new` of the regex crate and searches
/// `text` with `Regex::find`, which gives the first match. The contract
/// names what comes back and says no more of it.
#[verifier::external_body]
fn search(pattern: &str, text: &str) -> (r: Result<Option<String>, regex::Error>)
    ensures
        r matches Ok(Some(found)) ==> regex_search(pattern@, text@) == Some(Some(found@)),
        r matches Ok(None) ==> regex_search(pattern@, text@) == Some(None::<Seq<char>>),
        r is Err ==> regex_search(pattern@, text@) is None,
{
    let re = regex::Regex::new(pattern)?;
    Ok(re.find(text).map(|found| found.as_str().to_string()))
}

/// The pattern of a chromosome's name: `chr` and a number, or `chrX`, or
/// `chrY`.
pub open spec fn chromosome_pattern() -> Seq<char> {
    "chr\\d+|chrX|chrY"@
}

/// The name of a chromosome that stands in `found`, the outcome of a
/// search for [`chromosome_pattern`].
pub open spec fn captured_chromosome(found: Option<Option<Seq<char>>>) -> Option<Seq<char>> {
    match found {
        Some(Some(name)) => Some(name),
        _ => None,
    }
}

/// Finds the name of a chromosome in the name of a file: the first place
/// in `text` that reads `chr` and a number, `chrX` or `chrY`.
pub fn capture_chromosome_from_file_name(text: &str) -> (r: Option<String>)
    ensures
        r is Some <==> captured_chromosome(regex_search(chromosome_pattern(), text@)) is Some,
        r matches Some(name) ==> Some(name@) == captured_chromosome(
            regex_search(chromosome_pattern(), text@),
        ),
{
    match search("chr\\d+|chrX|chrY", text) {
        Ok(Some(name)) => Some(name),
        _ => None,
    }
}

/// The text that stands for bytes that are not valid UTF-8.
pub open spec fn invalid_text() -> Seq<char> {
    "Invalid UTF-8"@
}

/// The text that bytes encode, or [`invalid_text`].
pub open spec fn text_or_invalid(bytes: Seq<u8>) -> Seq<char> {
    if valid_utf8(bytes) {
        decode_utf8(bytes)
    } else {
        invalid_text()
    }
}

/// Decodes each of the byte strings. One that is not valid UTF-8 becomes
/// the text `Invalid UTF-8`.
pub fn from_vu8_to_string(x: Vec<&[u8]>) -> (r: Vec<String>)
    ensures
        r@.len() == x@.len(),
        forall|i: int| 0 <= i < x@.len() ==> (#[trigger] r@[i])@ == text_or_invalid(x@[i]@),
{
    let mut r: Vec<String> = Vec::new();
    let mut i: usize = 0;
    while i < x.len()
        invariant
            i <= x.len(),
            r@.len() == i,
            forall|k: int| 0 <= k < i ==> (#[trigger] r@[k])@ == text_or_invalid(x@[k]@),
        decreases x.len() - i,
    {
        let text = match text_of_bytes(slice_to_vec(x[i])) {
            Some(text) => text,
            None => String::from_str("Invalid UTF-8"),
        };
        r.push(text);
        i += 1;
    }
    r
}

/// The line of the haplotype file for one interval: chromosome, start,
/// end, and the haplotype of either parent, separated by tabs.
pub open spec fn bed_line(chr: Seq<char>, pos_from: u64, pos_to: u64, hap1: usize, hap2: usize) -> Seq<
    char,
> {
    chr + seq!['\t'] + decimal(pos_from as nat) + seq!['\t'] + decimal(pos_to as nat) + seq!['\t']
        + decimal(hap1 as nat) + seq!['\t'] + decimal(hap2 as nat) + seq!['\n']
}

/// Adds the line of one interval to the text of the haplotype file.
pub fn push_haps_to_bed(
    hap1: &usize,
    hap2: &usize,
    chr: &String,
    pos_from: &u64,
    pos_to: &u64,
    outputfile_bed: &mut String,
)
    ensures
        final(outputfile_bed)@ == old(outputfile_bed)@ + bed_line(
            chr@,
            *pos_from,
            *pos_to,
            *hap1,
            *hap2,
        ),
{
    proof {
        reveal_strlit("\t");
        reveal_strlit("\n");
    }
    outputfile_bed.append(chr.as_str());
    outputfile_bed.append("\t");
    push_decimal(outputfile_bed, *pos_from);
    outputfile_bed.append("\t");
    push_decimal(outputfile_bed, *pos_to);
    outputfile_bed.append("\t");
    push_decimal(outputfile_bed, *hap1 as u64);
    outputfile_bed.append("\t");
    push_decimal(outputfile_bed, *hap2 as u64);
    outputfile_bed.append("\n");
}

/// What is wrong with a line of a genome size file.
#[derive(Clone, Copy, Debug, PartialEq, Eq, Structural)]
pub enum GenomeFileKind {
    /// The line is not valid UTF-8.
    Text,
    /// The line has fewer than two words.
    FieldCount,
    /// The size is not an unsigned number of 64 bits.
    Size,
}

/// A genome size file that cannot be read, with the number of the
/// offending line, counted from 0.
#[derive(Clone, Copy, Debug, PartialEq, Eq, Structural)]
pub struct GenomeFileError {
    pub line: usize,
    pub kind: GenomeFileKind,
}

/// The name and the size of a chromosome.
pub struct ContigSize {
    pub name: Seq<char>,
    pub size: u64,
}

/// The chromosome and size that a line of a genome size file gives: its
/// first two words. Further words are not read.
pub open spec fn size_of_line(line: Seq<u8>) -> Result<ContigSize, GenomeFileKind> {
    let words = words_of(line);
    if !valid_utf8(line) {
        Err(GenomeFileKind::Text)
    } else if words.len() < 2 {
        Err(GenomeFileKind::FieldCount)
    } else if unsigned_of(words[1]) is None {
        Err(GenomeFileKind::Size)
    } else {
        Ok(ContigSize { name: decode_utf8(words[0]), size: unsigned_of(words[1])->0 })
    }
}

/// The sizes that the lines of a genome size file give, by chromosome. A
/// later line for a chromosome replaces an earlier one. The first line
/// that gives no size makes the file unreadable.
pub open spec fn sizes_of_lines(lines: Seq<Seq<u8>>) -> Result<
    Map<Seq<char>, u64>,
    GenomeFileError,
>
    decreases lines.len(),
{
    if lines.len() == 0 {
        Ok(Map::empty())
    } else {
        match sizes_of_lines(lines.drop_last()) {
            Err(e) => Err(e),
            Ok(sizes) => match size_of_line(lines.last()) {
                Err(kind) => Err(GenomeFileError { line: (lines.len() - 1) as usize, kind }),
                Ok(contig) => Ok(sizes.insert(contig.name, contig.size)),
            },
        }
    }
}

/// Once the first lines make a genome size file unreadable, so it stays.
proof fn lemma_sizes_fail_later(lines: Seq<Seq<u8>>, n: int)
    requires
        0 <= n <= lines.len(),
        sizes_of_lines(lines.take(n)) is Err,
    ensures
        sizes_of_lines(lines) == sizes_of_lines(lines.take(n)),
    decreases lines.len() - n,
{
    if n < lines.len() {
        assert(lines.take(n + 1).drop_last() =~= lines.take(n));
        lemma_sizes_fail_later(lines, n + 1);
    } else {
        assert(lines.take(n) =~= lines);
    }
}

fn read_size(line: &Vec<u8>) -> (r: Result<(String, u64), GenomeFileKind>)
    ensures
        r is Ok <==> size_of_line(line@) is Ok,
        r matches Ok(pair) ==> pair.0@ == size_of_line(line@)->Ok_0.name && pair.1
            == size_of_line(line@)->Ok_0.size,
        r matches Err(kind) ==> Err::<ContigSize, GenomeFileKind>(kind) == size_of_line(line@),
{
    if text_of_bytes(slice_to_vec(line.as_slice())).is_none() {
        return Err(GenomeFileKind::Text);
    }
    let words = split_words(line.as_slice());
    if words.len() < 2 {
        return Err(GenomeFileKind::FieldCount);
    }
    proof {
        lemma_words_valid(line@);
    }
    let name = match text_of_bytes(slice_to_vec(words[0].as_slice())) {
        Some(name) => name,
        None => {
            proof {
                assert(false);
            }
            String::new()
        },
    };
    match parse_unsigned(words[1].as_slice()) {
        Some(size) => Ok((name, size)),
        None => Err(GenomeFileKind::Size),
    }
}

/// Reads a genome size file: on each line the name of a chromosome and
/// its size, separated by blanks.
pub fn read_genome_file(content: &[u8]) -> (r: Result<ChromosomeTable<u64>, GenomeFileError>)
    ensures
        r is Ok <==> sizes_of_lines(lines_of(content@)) is Ok,
        r matches Ok(table) ==> table.wf() && Ok::<Map<Seq<char>, u64>, GenomeFileError>(table@)
            == sizes_of_lines(lines_of(content@)),
        r matches Err(e) ==> Err::<Map<Seq<char>, u64>, GenomeFileError>(e) == sizes_of_lines(
            lines_of(content@),
        ),
{
    let lines = split_lines(content);
    let mut table: ChromosomeTable<u64> = ChromosomeTable::new();
    let mut i: usize = 0;
    while i < lines.len()
        invariant
            i <= lines.len(),
            contents(lines@) == lines_of(content@),
            table.wf(),
            sizes_of_lines(contents(lines@).take(i as int)) == Ok::<
                Map<Seq<char>, u64>,
                GenomeFileError,
            >(table@),
        decreases lines.len() - i,
    {
        proof {
            assert(contents(lines@).take(i + 1).drop_last() =~= contents(lines@).take(i as int));
        }
        match read_size(&lines[i]) {
            Ok((name, size)) => {
                table.insert(name, size);
            },
            Err(kind) => {
                proof {
                    lemma_sizes_fail_later(contents(lines@), i + 1);
                }
                return Err(GenomeFileError { line: i, kind });
            },
        }
        i += 1;
    }
    proof {
        assert(contents(lines@).take(i as int) =~= contents(lines@));
    }
    Ok(table)
}

} // verus!
