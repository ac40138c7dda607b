//! Text as bytes: splitting into lines, fields and words, and decoding.

use vstd::prelude::*;
use vstd::utf8::{decode_utf8, is_char_boundary_iff_not_is_continuation_byte, pop_first_scalar,
    valid_utf8, valid_utf8_split};

verus! {

/// The line feed, which ends a line.
pub const LINE_FEED: u8 = 10;

/// The carriage return, which may precede a line feed.
pub const CARRIAGE_RETURN: u8 = 13;

/// The pieces into which the separator `sep` cuts `s`: what stands before
/// its first occurrence, between each occurrence and the next, and after
/// the last. There is always at least one piece; a piece may be empty.
pub open spec fn split_on(s: Seq<u8>, sep: u8) -> Seq<Seq<u8>>
    decreases s.len(),
{
    if s.len() == 0 {
        seq![Seq::empty()]
    } else {
        let before = split_on(s.drop_last(), sep);
        if s.last() == sep {
            before.push(Seq::empty())
        } else {
            before.update(before.len() - 1, before.last().push(s.last()))
        }
    }
}

/// The pieces joined again, with the separator between each and the next.
pub open spec fn join_with(pieces: Seq<Seq<u8>>, sep: u8) -> Seq<u8>
    decreases pieces.len(),
{
    if pieces.len() == 0 {
        Seq::empty()
    } else if pieces.len() == 1 {
        pieces[0]
    } else {
        join_with(pieces.drop_last(), sep).push(sep) + pieces.last()
    }
}

/// No piece holds the separator, and the pieces joined by the separator
/// give back what was split.
pub proof fn lemma_split_join(s: Seq<u8>, sep: u8)
    ensures
        join_with(split_on(s, sep), sep) == s,
        forall|i: int, j: int|
            0 <= i < split_on(s, sep).len() && 0 <= j < split_on(s, sep)[i].len() ==> (
            #[trigger] split_on(s, sep)[i][j]) != sep,
    decreases s.len(),
{
    if s.len() == 0 {
        assert(join_with(split_on(s, sep), sep) =~= s);
    } else {
        let short = s.drop_last();
        let before = split_on(short, sep);
        lemma_split_join(short, sep);
        let pieces = split_on(s, sep);
        if s.last() == sep {
            assert(pieces.drop_last() =~= before);
        } else {
            if before.len() == 1 {
                assert(before[0] == short);
            } else {
                assert(pieces.drop_last() =~= before.drop_last());
                assert(join_with(pieces, sep) =~= join_with(before, sep).push(s.last()));
            }
        }
    }
}

/// What each vector of a sequence of vectors holds.
pub open spec fn contents(pieces: Seq<Vec<u8>>) -> Seq<Seq<u8>> {
    Seq::new(pieces.len(), |i: int| pieces[i]@)
}

/// Cuts `s` at each occurrence of `sep`. No piece holds `sep`, and the
/// pieces joined by `sep` are `s`.
pub fn split_bytes(s: &[u8], sep: u8) -> (pieces: Vec<Vec<u8>>)
    ensures
        contents(pieces@) == split_on(s@, sep),
        pieces@.len() >= 1,
        join_with(contents(pieces@), sep) == s@,
        forall|i: int, j: int|
            0 <= i < pieces@.len() && 0 <= j < pieces@[i]@.len() ==> (#[trigger] pieces@[i]@[j])
                != sep,
{
    let mut pieces: Vec<Vec<u8>> = Vec::new();
    let mut current: Vec<u8> = Vec::new();
    let mut i: usize = 0;
    while i < s.len()
        invariant
            i <= s.len(),
            contents(pieces@).push(current@) == split_on(s@.take(i as int), sep),
        decreases s.len() - i,
    {
        proof {
            assert(s@.take(i + 1).drop_last() =~= s@.take(i as int));
        }
        if s[i] == sep {
            pieces.push(current);
            current = Vec::new();
        } else {
            current.push(s[i]);
        }
        i += 1;
    }
    let ghost done = contents(pieces@);
    pieces.push(current);
    proof {
        assert(s@.take(i as int) =~= s@);
        assert(contents(pieces@) =~= done.push(pieces@.last()@));
        lemma_split_join(s@, sep);
        assert forall|i: int, j: int|
            0 <= i < pieces@.len() && 0 <= j < pieces@[i]@.len() implies (
        #[trigger] pieces@[i]@[j]) != sep by {
            assert(split_on(s@, sep)[i] == pieces@[i]@);
        }
    }
    pieces
}

/// A line without the carriage return at its end, if it has one.
pub open spec fn without_carriage_return(line: Seq<u8>) -> Seq<u8> {
    if line.len() > 0 && line.last() == CARRIAGE_RETURN {
        line.drop_last()
    } else {
        line
    }
}

/// The lines of a text. A line ends at a line feed; a carriage return
/// before the line feed is not part of the line. What follows the last
/// line feed is a line too, unless it is empty.
pub open spec fn lines_of(content: Seq<u8>) -> Seq<Seq<u8>> {
    let pieces = split_on(content, LINE_FEED);
    let ended = Seq::new(
        (pieces.len() - 1) as nat,
        |i: int| without_carriage_return(pieces[i]),
    );
    if pieces.last().len() == 0 {
        ended
    } else {
        ended.push(pieces.last())
    }
}

/// Cuts a text into its lines.
pub fn split_lines(content: &[u8]) -> (lines: Vec<Vec<u8>>)
    ensures
        contents(lines@) == lines_of(content@),
{
    let mut pieces = split_bytes(content, LINE_FEED);
    let ghost whole = contents(pieces@);
    let last = pieces.pop().unwrap();
    let mut lines: Vec<Vec<u8>> = Vec::new();
    let mut i: usize = 0;
    while i < pieces.len()
        invariant
            i <= pieces.len(),
            pieces@.len() == whole.len() - 1,
            forall|k: int| 0 <= k < pieces@.len() ==> (#[trigger] pieces@[k])@ == whole[k],
            lines@.len() == i,
            forall|k: int|
                0 <= k < i ==> (#[trigger] lines@[k])@ == without_carriage_return(whole[k]),
        decreases pieces.len() - i,
    {
        let piece = &pieces[i];
        let mut line: Vec<u8> = Vec::new();
        let keep = if piece.len() > 0 && piece[piece.len() - 1] == CARRIAGE_RETURN {
            piece.len() - 1
        } else {
            piece.len()
        };
        let mut j: usize = 0;
        while j < keep
            invariant
                j <= keep <= piece@.len(),
                line@ == piece@.take(j as int),
            decreases keep - j,
        {
            line.push(piece[j]);
            j += 1;
        }
        lines.push(line);
        i += 1;
    }
    if last.len() > 0 {
        lines.push(last);
    }
    lines
}

/// Whether a byte is blank: a space, a tab, a carriage return, a line
/// feed, a vertical tab or a form feed.
pub open spec fn is_blank(b: u8) -> bool {
    b == 32 || (9 <= b <= 13)
}

/// The word that `s` ends in: the bytes after its last blank.
pub open spec fn last_word(s: Seq<u8>) -> Seq<u8>
    decreases s.len(),
{
    if s.len() == 0 || is_blank(s.last()) {
        Seq::empty()
    } else {
        last_word(s.drop_last()).push(s.last())
    }
}

/// The words of `s` that a blank has ended: the runs of bytes that are
/// not blank, each followed by a blank.
pub open spec fn ended_words(s: Seq<u8>) -> Seq<Seq<u8>>
    decreases s.len(),
{
    if s.len() == 0 {
        Seq::empty()
    } else if is_blank(s.last()) && last_word(s.drop_last()).len() > 0 {
        ended_words(s.drop_last()).push(last_word(s.drop_last()))
    } else {
        ended_words(s.drop_last())
    }
}

/// The words of `s`: its runs of bytes that are not blank.
pub open spec fn words_of(s: Seq<u8>) -> Seq<Seq<u8>> {
    if last_word(s).len() > 0 {
        ended_words(s).push(last_word(s))
    } else {
        ended_words(s)
    }
}

/// No word is empty and no word holds a blank.
pub proof fn lemma_words_have_no_blank(s: Seq<u8>)
    ensures
        forall|j: int| 0 <= j < last_word(s).len() ==> !is_blank(#[trigger] last_word(s)[j]),
        forall|i: int| 0 <= i < ended_words(s).len() ==> (#[trigger] ended_words(s)[i]).len() > 0,
        forall|i: int, j: int|
            0 <= i < ended_words(s).len() && 0 <= j < ended_words(s)[i].len() ==> !is_blank(
                #[trigger] ended_words(s)[i][j],
            ),
    decreases s.len(),
{
    if s.len() > 0 {
        let short = s.drop_last();
        lemma_words_have_no_blank(short);
        assert forall|i: int| 0 <= i < ended_words(s).len() implies (#[trigger] ended_words(
            s,
        )[i]).len() > 0 && forall|j: int|
            0 <= j < ended_words(s)[i].len() ==> !is_blank(#[trigger] ended_words(s)[i][j]) by {
            if i < ended_words(short).len() {
                assert(ended_words(s)[i] == ended_words(short)[i]);
            } else {
                assert(ended_words(s)[i] == last_word(short));
            }
        }
    }
}

/// Cuts `s` into its words. No word is empty and none holds a blank.
pub fn split_words(s: &[u8]) -> (words: Vec<Vec<u8>>)
    ensures
        contents(words@) == words_of(s@),
        forall|i: int| 0 <= i < words@.len() ==> (#[trigger] words@[i])@.len() > 0,
        forall|i: int, j: int|
            0 <= i < words@.len() && 0 <= j < words@[i]@.len() ==> !is_blank(
                #[trigger] words@[i]@[j],
            ),
{
    let mut words: Vec<Vec<u8>> = Vec::new();
    let mut current: Vec<u8> = Vec::new();
    let mut i: usize = 0;
    while i < s.len()
        invariant
            i <= s.len(),
            contents(words@) == ended_words(s@.take(i as int)),
            current@ == last_word(s@.take(i as int)),
        decreases s.len() - i,
    {
        proof {
            assert(s@.take(i + 1).drop_last() =~= s@.take(i as int));
        }
        let b = s[i];
        if b == 32 || (9 <= b && b <= 13) {
            if current.len() > 0 {
                words.push(current);
                current = Vec::new();
            }
        } else {
            current.push(b);
        }
        i += 1;
    }
    proof {
        assert(s@.take(i as int) =~= s@);
    }
    if current.len() > 0 {
        let ghost done = contents(words@);
        words.push(current);
        proof {
            assert(contents(words@) =~= done.push(words@.last()@));
        }
    }
    proof {
        lemma_words_have_no_blank(s@);
        assert forall|i: int| 0 <= i < words@.len() implies (#[trigger] words@[i])@.len() > 0
            && forall|j: int| 0 <= j < words@[i]@.len() ==> !is_blank(#[trigger] words@[i]@[j]) by {
            assert(contents(words@)[i] == words@[i]@);
        }
    }
    words
}

/// Whether a byte is the whole encoding of a character.
pub open spec fn is_single(b: u8) -> bool {
    b < 0x80
}

/// What stands in a valid text before a byte that is a character by
/// itself, or before the end, is a valid text.
proof fn lemma_valid_before(s: Seq<u8>, b: int)
    requires
        valid_utf8(s),
        0 <= b <= s.len(),
        b < s.len() ==> is_single(s[b]),
    ensures
        valid_utf8(s.subrange(0, b)),
{
    if b == s.len() {
        assert(s.subrange(0, b) =~= s);
    } else {
        is_char_boundary_iff_not_is_continuation_byte(s, b);
        valid_utf8_split(s, b);
    }
}

/// What stands in a valid text behind a byte that is a character by
/// itself, or behind the start, is a valid text.
proof fn lemma_valid_behind(s: Seq<u8>, a: int)
    requires
        valid_utf8(s),
        0 <= a <= s.len(),
        a > 0 ==> is_single(s[a - 1]),
    ensures
        valid_utf8(s.subrange(a, s.len() as int)),
{
    if a == 0 {
        assert(s.subrange(a, s.len() as int) =~= s);
    } else {
        is_char_boundary_iff_not_is_continuation_byte(s, a - 1);
        valid_utf8_split(s, a - 1);
        let t = s.subrange(a - 1, s.len() as int);
        assert(pop_first_scalar(t) =~= s.subrange(a, s.len() as int));
    }
}

/// What stands in a valid text between two bytes that are characters by
/// themselves, the start or the end taking the place of either, is a
/// valid text.
pub proof fn lemma_valid_between(s: Seq<u8>, a: int, b: int)
    requires
        valid_utf8(s),
        0 <= a <= b <= s.len(),
        a > 0 ==> is_single(s[a - 1]),
        b < s.len() ==> is_single(s[b]),
    ensures
        valid_utf8(s.subrange(a, b)),
{
    lemma_valid_before(s, b);
    let head = s.subrange(0, b);
    lemma_valid_behind(head, a);
    assert(head.subrange(a, head.len() as int) =~= s.subrange(a, b));
}

/// Where pieces joined by a separator that is a character by itself make
/// a valid text, each piece is a valid text.
pub proof fn lemma_joined_pieces_valid(pieces: Seq<Seq<u8>>, sep: u8)
    requires
        is_single(sep),
        valid_utf8(join_with(pieces, sep)),
    ensures
        forall|i: int| 0 <= i < pieces.len() ==> valid_utf8(#[trigger] pieces[i]),
    decreases pieces.len(),
{
    if pieces.len() > 1 {
        let before = join_with(pieces.drop_last(), sep);
        let whole = join_with(pieces, sep);
        lemma_valid_between(whole, 0, before.len() as int);
        assert(whole.subrange(0, before.len() as int) =~= before);
        lemma_valid_between(whole, before.len() as int + 1, whole.len() as int);
        assert(whole.subrange(before.len() as int + 1, whole.len() as int) =~= pieces.last());
        lemma_joined_pieces_valid(pieces.drop_last(), sep);
        assert forall|i: int| 0 <= i < pieces.len() implies valid_utf8(#[trigger] pieces[i]) by {
            if i < pieces.len() - 1 {
                assert(pieces.drop_last()[i] == pieces[i]);
            }
        }
    }
}

/// The fields of a valid line are valid texts.
pub proof fn lemma_fields_valid(line: Seq<u8>, sep: u8)
    requires
        is_single(sep),
        valid_utf8(line),
    ensures
        forall|i: int|
            0 <= i < split_on(line, sep).len() ==> valid_utf8(#[trigger] split_on(line, sep)[i]),
{
    lemma_split_join(line, sep);
    lemma_joined_pieces_valid(split_on(line, sep), sep);
}

/// The word that a text ends in is its end, and stands behind a blank or
/// at the start.
proof fn lemma_last_word_is_end(s: Seq<u8>)
    ensures
        last_word(s).len() <= s.len(),
        last_word(s) == s.subrange(s.len() - last_word(s).len(), s.len() as int),
        last_word(s).len() < s.len() ==> is_blank(s[s.len() - last_word(s).len() - 1]),
    decreases s.len(),
{
    if s.len() == 0 || is_blank(s.last()) {
        assert(last_word(s) =~= s.subrange(s.len() as int, s.len() as int));
    } else {
        let short = s.drop_last();
        lemma_last_word_is_end(short);
    }
}

/// `word` stands in `s` from `a` up to `b`, where a blank follows it, and
/// behind a blank or at the start.
pub open spec fn is_ended_at(s: Seq<u8>, word: Seq<u8>, a: int, b: int) -> bool {
    &&& 0 <= a <= b < s.len()
    &&& word == s.subrange(a, b)
    &&& is_blank(s[b])
    &&& a > 0 ==> is_blank(s[a - 1])
}

/// `word` stands somewhere in `s` before a blank, and behind a blank or
/// at the start.
pub open spec fn stands_ended(s: Seq<u8>, word: Seq<u8>) -> bool {
    exists|a: int, b: int| is_ended_at(s, word, a, b)
}

/// Each word that a blank has ended stands in the text between blanks.
proof fn lemma_ended_words_stand(s: Seq<u8>)
    ensures
        forall|i: int| 0 <= i < ended_words(s).len() ==> stands_ended(s, #[trigger] ended_words(s)[i]),
    decreases s.len(),
{
    if s.len() > 0 {
        let short = s.drop_last();
        lemma_ended_words_stand(short);
        lemma_last_word_is_end(short);
        assert forall|i: int| 0 <= i < ended_words(s).len() implies stands_ended(
            s,
            #[trigger] ended_words(s)[i],
        ) by {
            if i < ended_words(short).len() {
                let (a, b) = choose|a: int, b: int|
                    is_ended_at(short, ended_words(short)[i], a, b);
                assert(short.subrange(a, b) =~= s.subrange(a, b));
                assert(is_ended_at(s, ended_words(s)[i], a, b));
            } else {
                let n = last_word(short).len();
                let a = short.len() - n;
                let b = short.len() as int;
                assert(short.subrange(a, b) =~= s.subrange(a, b));
                assert(is_ended_at(s, ended_words(s)[i], a, b));
            }
        }
    }
}

/// The words of a valid text are valid texts.
pub proof fn lemma_words_valid(s: Seq<u8>)
    requires
        valid_utf8(s),
    ensures
        forall|i: int| 0 <= i < words_of(s).len() ==> valid_utf8(#[trigger] words_of(s)[i]),
{
    lemma_ended_words_stand(s);
    lemma_last_word_is_end(s);
    assert forall|i: int| 0 <= i < words_of(s).len() implies valid_utf8(
        #[trigger] words_of(s)[i],
    ) by {
        if i < ended_words(s).len() {
            let (a, b) = choose|a: int, b: int| is_ended_at(s, ended_words(s)[i], a, b);
            lemma_valid_between(s, a, b);
        } else {
            let n = last_word(s).len();
            lemma_valid_between(s, s.len() - n, s.len() as int);
        }
    }
}

/// Calls `String::from_utf8` of std, which gives the text that the bytes
/// encode, or nothing if they are not valid UTF-8.
#[verifier::external_body]
pub(crate) fn text_of_bytes(bytes: Vec<u8>) -> (r: Option<String>)
    ensures
        r is Some <==> valid_utf8(bytes@),
        r matches Some(text) ==> text@ == decode_utf8(bytes@),
{
    String::from_utf8(bytes).ok()
}

} // verus!
