//! The file that holds the genetic map of one chromosome.

use vstd::prelude::*;
use vstd::slice::slice_to_vec;
use vstd::utf8::{decode_utf8, valid_utf8};
use crate::bytes::{contents, lemma_fields_valid, lines_of, split_bytes, split_lines, split_on,
    text_of_bytes};
use crate::numbers::{is_number_text, number_text, parse_unsigned, unsigned_of};

verus! {

/// The space, which separates the fields of a line of a map file.
pub const FIELD_SEPARATOR: u8 = 32;

/// A line of a map file: the chromosome, the genetic distance as the file
/// writes it, and the position.
#[derive(Clone, Debug)]
pub struct MapRow {
    pub seqname: String,
    pub genetic_distance: String,
    pub position: u64,
}

/// What a [`MapRow`] stands for.
pub struct MapRowModel {
    pub seqname: Seq<char>,
    pub genetic_distance: Seq<char>,
    pub position: u64,
}

impl View for MapRow {
    type V = MapRowModel;

    open spec fn view(&self) -> MapRowModel {
        MapRowModel {
            seqname: self.seqname@,
            genetic_distance: self.genetic_distance@,
            position: self.position,
        }
    }
}

/// The models of a sequence of rows.
pub open spec fn row_models(rows: Seq<MapRow>) -> Seq<MapRowModel> {
    Seq::new(rows.len(), |i: int| rows[i]@)
}

/// What is wrong with a line of a map file.
#[derive(Clone, Copy, Debug, PartialEq, Eq, Structural)]
pub enum MalformedMapKind {
    /// The line does not have four fields.
    FieldCount,
    /// The line names another chromosome than the lines before it.
    Chromosome,
    /// The position is not an unsigned number of 64 bits.
    Position,
    /// The genetic distance is not a number.
    Distance,
    /// There is not one genetic distance for each line.
    DistanceCount,
}

/// A map file that cannot be read, with the number of the offending line,
/// counted from 0.
#[derive(Clone, Copy, Debug, PartialEq, Eq, Structural)]
pub struct MalformedMapError {
    pub line: usize,
    pub kind: MalformedMapKind,
}

/// The row that a line of a map file gives: four fields separated by
/// single spaces, which are the chromosome, a field that is not used, the
/// genetic distance, which must be written as a number, and the position.
/// `chromosome` is that of the lines before, if there were any: this line
/// must name the same.
pub open spec fn row_of_line(line: Seq<u8>, chromosome: Option<Seq<char>>) -> Result<
    MapRowModel,
    MalformedMapKind,
> {
    let fields = split_on(line, FIELD_SEPARATOR);
    if fields.len() != 4 {
        Err(MalformedMapKind::FieldCount)
    } else if chromosome is Some && chromosome != Some(decode_utf8(fields[0])) {
        Err(MalformedMapKind::Chromosome)
    } else if unsigned_of(fields[3]) is None {
        Err(MalformedMapKind::Position)
    } else if !is_number_text(fields[2]) {
        Err(MalformedMapKind::Distance)
    } else {
        Ok(
            MapRowModel {
                seqname: decode_utf8(fields[0]),
                genetic_distance: decode_utf8(fields[2]),
                position: unsigned_of(fields[3])->0,
            },
        )
    }
}

/// The chromosome that rows read so far belong to.
pub open spec fn chromosome_of(rows: Seq<MapRowModel>) -> Option<Seq<char>> {
    if rows.len() > 0 {
        Some(rows.last().seqname)
    } else {
        None
    }
}

/// The rows that the lines of a map file give, `first` being the number
/// of the first of these lines in the file. A line that is not valid UTF-8
/// is passed over. The first line that gives no row makes the file
/// malformed.
pub open spec fn rows_of_lines(lines: Seq<Seq<u8>>, first: int) -> Result<
    Seq<MapRowModel>,
    MalformedMapError,
>
    decreases lines.len(),
{
    if lines.len() == 0 {
        Ok(Seq::empty())
    } else {
        match rows_of_lines(lines.drop_last(), first) {
            Err(e) => Err(e),
            Ok(rows) => if !valid_utf8(lines.last()) {
                Ok(rows)
            } else {
                match row_of_line(lines.last(), chromosome_of(rows)) {
                    Err(kind) => Err(
                        MalformedMapError { line: (first + lines.len() - 1) as usize, kind },
                    ),
                    Ok(row) => Ok(rows.push(row)),
                }
            },
        }
    }
}

/// The rows of a map file. With `has_header` its first line is not read.
pub open spec fn map_rows(content: Seq<u8>, has_header: bool) -> Result<
    Seq<MapRowModel>,
    MalformedMapError,
> {
    let lines = lines_of(content);
    if has_header && lines.len() > 0 {
        rows_of_lines(lines.skip(1), 1)
    } else {
        rows_of_lines(lines, 0)
    }
}

/// All rows belong to one chromosome.
pub open spec fn one_chromosome(rows: Seq<MapRowModel>) -> bool {
    forall|i: int, j: int|
        0 <= i < rows.len() && 0 <= j < rows.len() ==> (#[trigger] rows[i]).seqname == (
        #[trigger] rows[j]).seqname
}

/// All rows of a map file belong to one chromosome.
pub proof fn lemma_rows_share_chromosome(lines: Seq<Seq<u8>>, first: int)
    ensures
        rows_of_lines(lines, first) matches Ok(rows) ==> one_chromosome(rows),
    decreases lines.len(),
{
    if lines.len() > 0 {
        lemma_rows_share_chromosome(lines.drop_last(), first);
    }
}

fn read_row(line: &Vec<u8>, chromosome: Option<&String>) -> (r: Result<MapRow, MalformedMapKind>)
    requires
        valid_utf8(line@),
    ensures
        r is Ok <==> row_of_line(
            line@,
            match chromosome {
                Some(name) => Some(name@),
                None => None,
            },
        ) is Ok,
        r matches Ok(row) ==> Ok::<MapRowModel, MalformedMapKind>(row@) == row_of_line(
            line@,
            match chromosome {
                Some(name) => Some(name@),
                None => None,
            },
        ),
        r matches Err(kind) ==> Err::<MapRowModel, MalformedMapKind>(kind) == row_of_line(
            line@,
            match chromosome {
                Some(name) => Some(name@),
                None => None,
            },
        ),
{
    let fields = split_bytes(line.as_slice(), FIELD_SEPARATOR);
    if fields.len() != 4 {
        return Err(MalformedMapKind::FieldCount);
    }
    proof {
        lemma_fields_valid(line@, FIELD_SEPARATOR);
    }
    let seqname = match text_of_bytes(slice_to_vec(fields[0].as_slice())) {
        Some(seqname) => seqname,
        None => {
            proof {
                assert(false);
            }
            String::new()
        },
    };
    match chromosome {
        Some(name) => {
            if *name != seqname {
                return Err(MalformedMapKind::Chromosome);
            }
        },
        None => {},
    }
    let position = match parse_unsigned(fields[3].as_slice()) {
        Some(position) => position,
        None => {
            return Err(MalformedMapKind::Position);
        },
    };
    if !number_text(fields[2].as_slice()) {
        return Err(MalformedMapKind::Distance);
    }
    let genetic_distance = match text_of_bytes(slice_to_vec(fields[2].as_slice())) {
        Some(text) => text,
        None => {
            proof {
                assert(false);
            }
            String::new()
        },
    };
    Ok(MapRow { seqname, genetic_distance, position })
}

/// Reads the rows of a map file: one line for each point of the map, with
/// four fields separated by single spaces, which are the chromosome, a
/// field that is not used, the genetic distance and the position. With
/// `has_header` the first line is not read. All lines must name the same
/// chromosome.
pub fn parse_map_rows(content: &[u8], has_header: bool) -> (r: Result<
    Vec<MapRow>,
    MalformedMapError,
>)
    ensures
        r is Ok <==> map_rows(content@, has_header) is Ok,
        r matches Ok(rows) ==> Ok::<Seq<MapRowModel>, MalformedMapError>(row_models(rows@))
            == map_rows(content@, has_header),
        r matches Ok(rows) ==> one_chromosome(row_models(rows@)),
        r matches Err(e) ==> Err::<Seq<MapRowModel>, MalformedMapError>(e) == map_rows(
            content@,
            has_header,
        ),
{
    let lines = split_lines(content);
    let start: usize = if has_header && lines.len() > 0 {
        1
    } else {
        0
    };
    let ghost data = contents(lines@).skip(start as int);
    let mut rows: Vec<MapRow> = Vec::new();
    let mut i: usize = start;
    proof {
        if start == 0 {
            assert(data =~= contents(lines@));
        }
        assert(row_models(rows@) =~= Seq::<MapRowModel>::empty());
    }
    while i < lines.len()
        invariant
            start <= i <= lines.len(),
            data == contents(lines@).skip(start as int),
            map_rows(content@, has_header) == rows_of_lines(data, start as int),
            rows_of_lines(data.take(i - start), start as int) == Ok::<
                Seq<MapRowModel>,
                MalformedMapError,
            >(row_models(rows@)),
        decreases lines.len() - i,
    {
        let line = &lines[i];
        proof {
            assert(data.take(i - start + 1).drop_last() =~= data.take(i - start));
        }
        if text_of_bytes(slice_to_vec(line.as_slice())).is_some() {
            let known = if rows.len() > 0 {
                Some(&rows[rows.len() - 1].seqname)
            } else {
                None
            };
            match read_row(line, known) {
                Ok(row) => {
                    let ghost before = row_models(rows@);
                    rows.push(row);
                    proof {
                        assert(row_models(rows@) =~= before.push(row@));
                    }
                },
                Err(kind) => {
                    proof {
                        lemma_rows_fail_later(data, i - start + 1, start as int);
                    }
                    return Err(MalformedMapError { line: i, kind });
                },
            }
        }
        i += 1;
    }
    proof {
        assert(data.take(i - start) =~= data);
        lemma_rows_share_chromosome(data, start as int);
    }
    Ok(rows)
}

/// Once the first lines of a file make it malformed, so does the file.
proof fn lemma_rows_fail_later(lines: Seq<Seq<u8>>, n: int, first: int)
    requires
        0 <= n <= lines.len(),
        rows_of_lines(lines.take(n), first) is Err,
    ensures
        rows_of_lines(lines, first) == rows_of_lines(lines.take(n), first),
    decreases lines.len() - n,
{
    if n < lines.len() {
        assert(lines.take(n + 1).drop_last() =~= lines.take(n));
        lemma_rows_fail_later(lines, n + 1, first);
    } else {
        assert(lines.take(n) =~= lines);
    }
}

} // verus!
