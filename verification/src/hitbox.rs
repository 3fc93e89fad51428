//! Framing of hitbox geometry: the lines of a Wavefront OBJ text.
//!
//! A hitbox file lists the vertices of a mesh, one per line (`v x y z`), and
//! its triangles (`f a b c`, each corner an index into the vertices, counted
//! from one, with an optional `/...` tail). This module cuts the text into
//! lines and fields and reads the corners. The coordinates of a vertex are
//! handed on as text: what number a field spells is for the caller to say.

use vstd::prelude::*;

verus! {

pub const NEWLINE: u8 = 0x0a;

pub const RETURN: u8 = 0x0d;

pub const SPACE: u8 = 0x20;

pub const PLUS: u8 = 0x2b;

pub const SLASH: u8 = 0x2f;

pub const DIGIT_ZERO: u8 = 0x30;

pub const DIGIT_NINE: u8 = 0x39;

pub const LETTER_F: u8 = 0x66;

pub const LETTER_V: u8 = 0x76;

/// The fields of `bytes`: what stands between its separators, in order. A
/// text with `n` separators has `n + 1` fields, empty ones among them where
/// a separator stands first, last or next to another.
pub open spec fn fields(bytes: Seq<u8>, sep: u8) -> Seq<Seq<u8>>
    decreases bytes.len(),
{
    if bytes.len() == 0 {
        seq![Seq::empty()]
    } else {
        let before = fields(bytes.drop_last(), sep);
        if bytes.last() == sep {
            before.push(Seq::empty())
        } else {
            before.drop_last().push(before.last().push(bytes.last()))
        }
    }
}

/// What a list of byte strings holds.
pub open spec fn texts(list: Seq<Vec<u8>>) -> Seq<Seq<u8>> {
    list.map_values(|text: Vec<u8>| text@)
}

/// The parts in order, with one separator between each two neighbours.
pub open spec fn joined(parts: Seq<Seq<u8>>, sep: u8) -> Seq<u8>
    decreases parts.len(),
{
    if parts.len() == 0 {
        Seq::empty()
    } else if parts.len() == 1 {
        parts[0]
    } else {
        joined(parts.drop_last(), sep).push(sep) + parts.last()
    }
}

/// There is always a first field.
pub proof fn lemma_fields_nonempty(bytes: Seq<u8>, sep: u8)
    ensures
        fields(bytes, sep).len() >= 1,
    decreases bytes.len(),
{
    if bytes.len() > 0 {
        lemma_fields_nonempty(bytes.drop_last(), sep);
    }
}

/// The fields are cut at every separator and nowhere else: no field holds a
/// separator, and the fields joined by separators are the text again.
pub proof fn lemma_fields_rejoin(bytes: Seq<u8>, sep: u8)
    ensures
        joined(fields(bytes, sep), sep) == bytes,
        forall|i: int, j: int|
            0 <= i < fields(bytes, sep).len() && 0 <= j < fields(bytes, sep)[i].len()
                ==> #[trigger] fields(bytes, sep)[i][j] != sep,
    decreases bytes.len(),
{
    if bytes.len() > 0 {
        let before = fields(bytes.drop_last(), sep);
        let after = fields(bytes, sep);
        lemma_fields_nonempty(bytes.drop_last(), sep);
        lemma_fields_rejoin(bytes.drop_last(), sep);
        assert(joined(before, sep).push(bytes.last()) =~= bytes);
        if bytes.last() == sep {
            assert(after.drop_last() =~= before);
            assert(joined(after, sep) =~= joined(before, sep).push(sep));
        } else {
            let grown = before.last().push(bytes.last());
            assert(after.last() == grown);
            if before.len() == 1 {
                assert(joined(after, sep) =~= joined(before, sep).push(bytes.last()));
            } else {
                assert(after.drop_last() =~= before.drop_last());
                assert(joined(after, sep) =~= joined(before, sep).push(bytes.last()));
            }
        }
        assert forall|i: int, j: int|
            0 <= i < after.len() && 0 <= j < after[i].len() implies #[trigger] after[i][j]
            != sep by {
            if i < before.len() && j < before[i].len() {
                assert(after[i][j] == before[i][j]);
            }
        }
    }
}

/// Cuts `bytes` at every `sep`.
pub fn split(bytes: &[u8], sep: u8) -> (r: Vec<Vec<u8>>)
    ensures
        texts(r@) == fields(bytes@, sep),
{
    let mut done: Vec<Vec<u8>> = Vec::new();
    let mut current: Vec<u8> = Vec::new();
    let mut i: usize = 0;
    assert(bytes@.take(0) =~= Seq::<u8>::empty());
    assert(texts(done@).push(current@) =~= seq![Seq::<u8>::empty()]);
    while i < bytes.len()
        invariant
            i <= bytes.len(),
            texts(done@).push(current@) == fields(bytes@.take(i as int), sep),
        decreases bytes.len() - i,
    {
        let ghost before = fields(bytes@.take(i as int), sep);
        proof {
            assert(bytes@.take(i + 1).drop_last() == bytes@.take(i as int));
            assert(before.drop_last() =~= texts(done@));
            assert(before.last() == current@);
        }
        let byte = bytes[i];
        if byte == sep {
            done.push(current);
            current = Vec::new();
            assert(texts(done@).push(current@) =~= before.push(Seq::empty()));
        } else {
            current.push(byte);
        }
        i = i + 1;
    }
    let ghost last_done = done@;
    let ghost last = current@;
    done.push(current);
    proof {
        assert(bytes@.take(i as int) == bytes@);
        assert(texts(done@) =~= texts(last_done).push(last));
    }
    done
}

/// `line` without the carriage return at its end, if it has one.
pub open spec fn without_return(line: Seq<u8>) -> Seq<u8> {
    if line.len() > 0 && line.last() == RETURN {
        line.drop_last()
    } else {
        line
    }
}

/// The lines of a text. A line ends at a newline, or at a carriage return
/// and a newline; neither belongs to the line. What follows the last
/// newline is a line of its own unless it is empty, and keeps a carriage
/// return at its end.
pub open spec fn lines(text: Seq<u8>) -> Seq<Seq<u8>> {
    let pieces = fields(text, NEWLINE);
    let ended = pieces.drop_last().map_values(|piece: Seq<u8>| without_return(piece));
    if pieces.last().len() == 0 {
        ended
    } else {
        ended.push(pieces.last())
    }
}

/// Copies `bytes[..end]`.
fn prefix(bytes: &Vec<u8>, end: usize) -> (r: Vec<u8>)
    requires
        end <= bytes@.len(),
    ensures
        r@ == bytes@.take(end as int),
{
    let mut r: Vec<u8> = Vec::new();
    let mut i: usize = 0;
    while i < end
        invariant
            i <= end <= bytes@.len(),
            r@ == bytes@.take(i as int),
        decreases end - i,
    {
        r.push(bytes[i]);
        assert(bytes@.take(i + 1) =~= bytes@.take(i as int).push(bytes@[i as int]));
        i = i + 1;
    }
    r
}

/// Cuts a text into its lines.
pub fn split_lines(text: &[u8]) -> (r: Vec<Vec<u8>>)
    ensures
        texts(r@) == lines(text@),
{
    let pieces = split(text, NEWLINE);
    proof {
        lemma_fields_nonempty(text@, NEWLINE);
    }
    let ghost model = fields(text@, NEWLINE);
    let ghost ended = model.drop_last().map_values(|piece: Seq<u8>| without_return(piece));
    let count = pieces.len() - 1;
    let mut r: Vec<Vec<u8>> = Vec::new();
    let mut i: usize = 0;
    while i < count
        invariant
            i <= count,
            count + 1 == pieces@.len(),
            texts(pieces@) == model,
            ended == model.drop_last().map_values(|piece: Seq<u8>| without_return(piece)),
            texts(r@) == ended.take(i as int),
        decreases count - i,
    {
        let piece = &pieces[i];
        assert(piece@ == model[i as int]);
        let length = piece.len();
        let line = if length > 0 && piece[length - 1] == RETURN {
            prefix(piece, length - 1)
        } else {
            prefix(piece, length)
        };
        assert(line@ =~= without_return(piece@));
        let ghost before = r@;
        r.push(line);
        assert(texts(r@) =~= ended.take(i + 1)) by {
            assert(texts(r@) =~= texts(before).push(line@));
            assert(ended.take(i + 1) =~= ended.take(i as int).push(ended[i as int]));
        }
        i = i + 1;
    }
    assert(ended.take(count as int) =~= ended);
    let last = &pieces[count];
    assert(last@ == model.last());
    if last.len() > 0 {
        let line = prefix(last, last.len());
        assert(line@ =~= last@);
        let ghost before = r@;
        r.push(line);
        assert(texts(r@) =~= texts(before).push(line@));
    }
    r
}

/// `byte` is a decimal digit.
pub open spec fn is_digit(byte: u8) -> bool {
    DIGIT_ZERO <= byte <= DIGIT_NINE
}

/// Every byte of `digits` is a decimal digit.
pub open spec fn all_digits(digits: Seq<u8>) -> bool {
    forall|i: int| 0 <= i < digits.len() ==> is_digit(#[trigger] digits[i])
}

/// The number that a run of decimal digits spells.
pub open spec fn value(digits: Seq<u8>) -> nat
    decreases digits.len(),
{
    if digits.len() == 0 {
        0
    } else {
        (value(digits.drop_last()) * 10 + (digits.last() - DIGIT_ZERO)) as nat
    }
}

/// `token` without the plus sign at its front, if it has one.
pub open spec fn unsigned(token: Seq<u8>) -> Seq<u8> {
    if token.len() > 0 && token[0] == PLUS {
        token.skip(1)
    } else {
        token
    }
}

/// The number that `token` spells: one decimal digit or more, after at most
/// one plus sign, with a value that 32 bits hold. Anything else spells none.
pub open spec fn number(token: Seq<u8>) -> Option<u32> {
    let digits = unsigned(token);
    if digits.len() > 0 && all_digits(digits) && value(digits) <= u32::MAX {
        Some(value(digits) as u32)
    } else {
        None
    }
}

/// A run of digits spells at least what any of its prefixes spells.
proof fn lemma_value_grows(digits: Seq<u8>, n: int)
    requires
        all_digits(digits),
        0 <= n <= digits.len(),
    ensures
        value(digits.take(n)) <= value(digits),
    decreases digits.len() - n,
{
    if n < digits.len() {
        lemma_value_grows(digits, n + 1);
        assert(digits.take(n + 1).drop_last() =~= digits.take(n));
        assert(is_digit(digits[n]));
        assert(digits.take(n + 1).last() == digits[n]);
    } else {
        assert(digits.take(n) =~= digits);
    }
}

/// Reads a number.
pub fn parse_number(token: &[u8]) -> (r: Option<u32>)
    ensures
        r == number(token@),
{
    let start: usize = if token.len() > 0 && token[0] == PLUS {
        1
    } else {
        0
    };
    let ghost digits = unsigned(token@);
    assert(digits =~= token@.skip(start as int));
    if start == token.len() {
        return None;
    }
    let mut total: u64 = 0;
    let mut i: usize = start;
    assert(digits.take(0) =~= Seq::<u8>::empty());
    while i < token.len()
        invariant
            start <= i <= token.len(),
            digits == unsigned(token@),
            digits == token@.skip(start as int),
            all_digits(digits.take(i - start)),
            total == value(digits.take(i - start)),
            total <= u32::MAX,
        decreases token.len() - i,
    {
        let byte = token[i];
        let ghost seen = digits.take(i - start);
        let ghost more = digits.take(i + 1 - start);
        proof {
            assert(digits[i - start] == byte);
            assert(more.drop_last() =~= seen);
            assert(more.last() == byte);
        }
        if byte < DIGIT_ZERO || byte > DIGIT_NINE {
            assert(!is_digit(digits[i - start]));
            return None;
        }
        assert(all_digits(more)) by {
            assert forall|k: int| 0 <= k < more.len() implies is_digit(#[trigger] more[k]) by {
                if k < seen.len() {
                    assert(more[k] == seen[k]);
                }
            }
        }
        let next: u64 = total * 10 + (byte - DIGIT_ZERO) as u64;
        assert(next == value(more));
        if next > 0xffff_ffff {
            proof {
                if all_digits(digits) {
                    lemma_value_grows(digits, i + 1 - start);
                }
            }
            return None;
        }
        total = next;
        i = i + 1;
    }
    assert(digits.take(i - start) =~= digits);
    Some(total as u32)
}

/// A triangle of the mesh, by the places of its corners in the list of
/// vertices, counted from zero.
#[derive(Clone, Copy, Debug, PartialEq, Eq, Structural)]
pub struct Triangle {
    pub a: u32,
    pub b: u32,
    pub c: u32,
}

/// The vertex index that a corner names: the number before its first slash.
pub open spec fn corner(token: Seq<u8>) -> Option<u32> {
    number(fields(token, SLASH)[0])
}

/// Every token names a vertex index.
pub open spec fn all_corners(tokens: Seq<Seq<u8>>) -> bool {
    forall|i: int| 0 <= i < tokens.len() ==> corner(#[trigger] tokens[i]) is Some
}

/// The line is a vertex line: it starts with `v` and a space.
pub open spec fn is_vertex(line: Seq<u8>) -> bool {
    line.len() >= 2 && line[0] == LETTER_V && line[1] == SPACE
}

/// The line is a face line: it starts with `f`.
pub open spec fn is_face(line: Seq<u8>) -> bool {
    line.len() >= 1 && line[0] == LETTER_F
}

/// The fields of a vertex or face line: what follows its first two bytes,
/// cut at every space.
pub open spec fn tokens(line: Seq<u8>) -> Seq<Seq<u8>> {
    fields(line.skip(2), SPACE)
}

/// The coordinate fields of a vertex line, where it has at least three.
pub open spec fn coordinates(line: Seq<u8>) -> Option<Seq<Seq<u8>>> {
    if line.len() >= 2 && tokens(line).len() >= 3 {
        Some(tokens(line))
    } else {
        None
    }
}

/// The triangle of a face line. Every field must name a vertex index, there
/// must be three of them or more, and the first three must be at least one:
/// the file counts vertices from one, the triangle from zero.
pub open spec fn triangle(line: Seq<u8>) -> Option<Triangle> {
    let fields = tokens(line);
    if line.len() >= 2 && all_corners(fields) && fields.len() >= 3 && corner(fields[0])->0 >= 1
        && corner(fields[1])->0 >= 1 && corner(fields[2])->0 >= 1 {
        Some(
            Triangle {
                a: (corner(fields[0])->0 - 1) as u32,
                b: (corner(fields[1])->0 - 1) as u32,
                c: (corner(fields[2])->0 - 1) as u32,
            },
        )
    } else {
        None
    }
}

/// A line of a hitbox file, as far as this module reads it.
#[derive(Debug, PartialEq, Eq)]
pub enum Framed {
    /// A vertex: its coordinate fields, three or more, as they are spelled.
    Vertex(Vec<Vec<u8>>),
    /// A triangle.
    Face(Triangle),
    /// A line of any other kind, which the hitbox does not need.
    Other,
}

/// What a framed line holds.
pub enum FramedModel {
    Vertex(Seq<Seq<u8>>),
    Face(Triangle),
    Other,
}

impl View for Framed {
    type V = FramedModel;

    open spec fn view(&self) -> FramedModel {
        match *self {
            Framed::Vertex(fields) => FramedModel::Vertex(texts(fields@)),
            Framed::Face(triangle) => FramedModel::Face(triangle),
            Framed::Other => FramedModel::Other,
        }
    }
}

/// What a line frames to; none where a vertex or face line is malformed.
pub open spec fn framed(line: Seq<u8>) -> Option<FramedModel> {
    if is_vertex(line) {
        match coordinates(line) {
            Some(fields) => Some(FramedModel::Vertex(fields)),
            None => None,
        }
    } else if is_face(line) {
        match triangle(line) {
            Some(found) => Some(FramedModel::Face(found)),
            None => None,
        }
    } else {
        Some(FramedModel::Other)
    }
}

/// The place of the first malformed line of a hitbox file, counted from zero.
#[derive(Clone, Copy, Debug, PartialEq, Eq, Structural)]
pub struct Malformed {
    pub line: usize,
}

/// Reads the vertex index of one corner.
pub fn parse_corner(token: &[u8]) -> (r: Option<u32>)
    ensures
        r == corner(token@),
{
    proof {
        lemma_fields_nonempty(token@, SLASH);
    }
    let parts = split(token, SLASH);
    parse_number(parts[0].as_slice())
}

/// Cuts a vertex or face line into its fields.
fn split_tokens(line: &[u8]) -> (r: Vec<Vec<u8>>)
    requires
        line@.len() >= 2,
    ensures
        texts(r@) == tokens(line@),
{
    let rest = vstd::slice::slice_subrange(line, 2, line.len());
    assert(rest@ =~= line@.skip(2));
    split(rest, SPACE)
}

/// Reads the coordinate fields of a vertex line.
pub fn parse_vertex(line: &[u8]) -> (r: Option<Vec<Vec<u8>>>)
    ensures
        match r {
            Some(fields) => coordinates(line@) == Some(texts(fields@)),
            None => coordinates(line@) is None,
        },
{
    if line.len() < 2 {
        return None;
    }
    let fields = split_tokens(line);
    if fields.len() >= 3 {
        Some(fields)
    } else {
        None
    }
}

/// Reads the triangle of a face line.
pub fn parse_triangle(line: &[u8]) -> (r: Option<Triangle>)
    ensures
        r == triangle(line@),
{
    if line.len() < 2 {
        return None;
    }
    let fields = split_tokens(line);
    let ghost model = tokens(line@);
    let mut found: Vec<u32> = Vec::new();
    let mut i: usize = 0;
    while i < fields.len()
        invariant
            i <= fields.len(),
            model == tokens(line@),
            texts(fields@) == model,
            found@.len() == i,
            forall|k: int| 0 <= k < i ==> corner(#[trigger] model[k]) == Some(found@[k]),
        decreases fields.len() - i,
    {
        assert(fields@[i as int]@ == model[i as int]);
        match parse_corner(fields[i].as_slice()) {
            Some(index) => {
                found.push(index);
            },
            None => {
                assert(corner(model[i as int]) is None);
                return None;
            },
        }
        i = i + 1;
    }
    assert(all_corners(model));
    if found.len() < 3 {
        return None;
    }
    let (a, b, c) = (found[0], found[1], found[2]);
    assert(corner(model[0]) == Some(a) && corner(model[1]) == Some(b) && corner(model[2]) == Some(
        c,
    ));
    if a < 1 || b < 1 || c < 1 {
        return None;
    }
    Some(Triangle { a: a - 1, b: b - 1, c: c - 1 })
}

/// Frames one line.
pub fn frame_line(line: &[u8]) -> (r: Option<Framed>)
    ensures
        match r {
            Some(found) => framed(line@) == Some(found@),
            None => framed(line@) is None,
        },
{
    if line.len() >= 2 && line[0] == LETTER_V && line[1] == SPACE {
        match parse_vertex(line) {
            Some(fields) => Some(Framed::Vertex(fields)),
            None => None,
        }
    } else if line.len() >= 1 && line[0] == LETTER_F {
        match parse_triangle(line) {
            Some(found) => Some(Framed::Face(found)),
            None => None,
        }
    } else {
        Some(Framed::Other)
    }
}

/// Frames a hitbox file: every line in order, or the place of the first
/// line that is malformed.
pub fn frame(text: &[u8]) -> (r: Result<Vec<Framed>, Malformed>)
    ensures
        match r {
            Ok(list) => {
                &&& list@.len() == lines(text@).len()
                &&& forall|i: int|
                    0 <= i < list@.len() ==> framed(#[trigger] lines(text@)[i]) == Some(list@[i]@)
            },
            Err(error) => {
                &&& error.line < lines(text@).len()
                &&& framed(lines(text@)[error.line as int]) is None
                &&& forall|i: int| 0 <= i < error.line ==> framed(#[trigger] lines(text@)[i]) is Some
            },
        },
{
    let all = split_lines(text);
    let ghost model = lines(text@);
    let mut list: Vec<Framed> = Vec::new();
    let mut i: usize = 0;
    while i < all.len()
        invariant
            i <= all.len(),
            model == lines(text@),
            texts(all@) == model,
            list@.len() == i,
            forall|k: int| 0 <= k < i ==> framed(#[trigger] model[k]) == Some(list@[k]@),
        decreases all.len() - i,
    {
        assert(all@[i as int]@ == model[i as int]);
        match frame_line(all[i].as_slice()) {
            Some(found) => {
                list.push(found);
            },
            None => {
                return Err(Malformed { line: i });
            },
        }
        i = i + 1;
    }
    Ok(list)
}

} // verus!
