//! Reading a triangle mesh from the text of a Wavefront OBJ file.
//!
//! Only two kinds of line count.  A line that begins with `v` and a space
//! lists coordinates; a line that begins with `f` and a space lists the
//! corners of faces, each a vertex number counted from 1, optionally followed
//! by a slash and more that is not read.  Words are separated by ASCII white
//! space.  All coordinates of the file form one list, all corners another.
//! If the file names no corner, every nine coordinates in a row are a
//! triangle; otherwise every three corners are one.
//!
//! Turning the text of a coordinate into a number is left to a function
//! that the caller supplies.

use crate::scalar::Scalar;
use crate::triangle::Triangle;
use crate::vec3::Vec3;
use vstd::prelude::*;

verus! {

/// The byte that ends a line.
pub const NEWLINE: u8 = 0x0A;

/// A blank.
pub const SPACE: u8 = 0x20;

/// The letter that opens a line of coordinates.
pub const LETTER_V: u8 = 0x76;

/// The letter that opens a line of faces.
pub const LETTER_F: u8 = 0x66;

/// The slash behind a corner's vertex number.
pub const SLASH: u8 = 0x2F;

/// The plus sign that may stand before a number.
pub const PLUS: u8 = 0x2B;

/// The digit zero.
pub const DIGIT_ZERO: u8 = 0x30;

/// Why a file is no mesh.
#[derive(Clone, Copy, Debug, PartialEq, Eq, Structural)]
pub enum LoadError {
    /// A word on a line of coordinates is no number.
    BadVertex,
    /// A corner is no vertex number: not a positive integer that fits the
    /// machine.
    BadFace,
    /// The lists do not divide into triangles, or a corner names a vertex
    /// that the file does not have.
    BadMesh,
}

/// Which list a line adds to.
#[derive(Clone, Copy, Debug, PartialEq, Eq, Structural)]
pub enum LineKind {
    Vertex,
    Face,
    Other,
}

/// The vertex whose three coordinates start at `base` in the list.
pub open spec fn vertex_at(vertices: Seq<Scalar>, base: int) -> Vec3 {
    Vec3 { x: vertices[base], y: vertices[base + 1], z: vertices[base + 2] }
}

/// The lists divide into triangles: without corners, the coordinates come
/// in nines; with corners, the corners come in threes and each names three
/// coordinates of the list.
pub open spec fn is_mesh(vertices: Seq<Scalar>, indexes: Seq<usize>) -> bool {
    if indexes.len() == 0 {
        vertices.len() % 9 == 0
    } else {
        &&& indexes.len() % 3 == 0
        &&& forall|j: int| 0 <= j < indexes.len() ==> (#[trigger] indexes[j]) * 3 + 3 <= vertices.len()
    }
}

/// The number of triangles of a mesh.
pub open spec fn mesh_len(vertices: Seq<Scalar>, indexes: Seq<usize>) -> int {
    if indexes.len() == 0 {
        vertices.len() as int / 9
    } else {
        indexes.len() as int / 3
    }
}

/// Corner `k` of triangle `i` of a mesh.
pub open spec fn mesh_corner(vertices: Seq<Scalar>, indexes: Seq<usize>, i: int, k: int) -> Vec3 {
    if indexes.len() == 0 {
        vertex_at(vertices, 9 * i + 3 * k)
    } else {
        vertex_at(vertices, indexes[3 * i + k] * 3)
    }
}

/// `triangles` are the triangles of the mesh, in order.
pub open spec fn is_mesh_of(
    triangles: Seq<Triangle>,
    vertices: Seq<Scalar>,
    indexes: Seq<usize>,
) -> bool {
    &&& triangles.len() == mesh_len(vertices, indexes)
    &&& forall|i: int, k: int|
        0 <= i < triangles.len() && 0 <= k < 3 ==> (#[trigger] triangles[i].vertices[k])
            == mesh_corner(vertices, indexes, i, k)
}

/// The vertex whose coordinates start at `base`.
fn vertex_from(vertices: &Vec<Scalar>, base: usize) -> (r: Vec3)
    requires
        base + 3 <= vertices@.len(),
    ensures
        r == vertex_at(vertices@, base as int),
{
    let len = vertices.len();
    assert(base + 3 <= len);
    Vec3::new(vertices[base], vertices[base + 1], vertices[base + 2])
}

/// Makes the triangles of the two lists, or says that the lists are no
/// mesh.
pub fn assemble(vertices: &Vec<Scalar>, indexes: &Vec<usize>) -> (r: Result<
    Vec<Triangle>,
    LoadError,
>)
    ensures
        match r {
            Ok(triangles) => is_mesh(vertices@, indexes@) && is_mesh_of(
                triangles@,
                vertices@,
                indexes@,
            ),
            Err(e) => !is_mesh(vertices@, indexes@) && e == LoadError::BadMesh,
        },
{
    let mut triangles_list: Vec<Triangle> = Vec::new();
    if indexes.len() == 0 {
        if vertices.len() % 9 != 0 {
            return Err(LoadError::BadMesh);
        }
        let len = vertices.len();
        let count = len / 9;
        let mut i: usize = 0;
        while i < count
            invariant
                i <= count,
                len == vertices@.len(),
                count == vertices@.len() / 9,
                vertices@.len() % 9 == 0,
                indexes@.len() == 0,
                triangles_list@.len() == i,
                forall|j: int, k: int|
                    0 <= j < i && 0 <= k < 3 ==> (#[trigger] triangles_list@[j].vertices[k])
                        == mesh_corner(vertices@, indexes@, j, k),
            decreases count - i,
        {
            let base = 9 * i;
            let tri = Triangle::new(
                vertex_from(vertices, base),
                vertex_from(vertices, base + 3),
                vertex_from(vertices, base + 6),
            );
            triangles_list.push(tri);
            i += 1;
        }
    } else {
        if indexes.len() % 3 != 0 {
            return Err(LoadError::BadMesh);
        }
        let limit = vertices.len() / 3;
        let mut j: usize = 0;
        while j < indexes.len()
            invariant
                j <= indexes@.len(),
                limit == vertices@.len() / 3,
                forall|m: int| 0 <= m < j ==> (#[trigger] indexes@[m]) * 3 + 3 <= vertices@.len(),
            decreases indexes@.len() - j,
        {
            if indexes[j] >= limit {
                return Err(LoadError::BadMesh);
            }
            j += 1;
        }
        let len = vertices.len();
        let corners = indexes.len();
        let count = corners / 3;
        let mut i: usize = 0;
        while i < count
            invariant
                i <= count,
                len == vertices@.len(),
                corners == indexes@.len(),
                count == indexes@.len() / 3,
                indexes@.len() % 3 == 0,
                indexes@.len() > 0,
                is_mesh(vertices@, indexes@),
                triangles_list@.len() == i,
                forall|j: int, k: int|
                    0 <= j < i && 0 <= k < 3 ==> (#[trigger] triangles_list@[j].vertices[k])
                        == mesh_corner(vertices@, indexes@, j, k),
            decreases count - i,
        {
            let tri = Triangle::new(
                vertex_from(vertices, indexes[3 * i] * 3),
                vertex_from(vertices, indexes[3 * i + 1] * 3),
                vertex_from(vertices, indexes[3 * i + 2] * 3),
            );
            triangles_list.push(tri);
            i += 1;
        }
    }
    Ok(triangles_list)
}

/// ASCII white space: the blank, and the controls from tab to carriage
/// return.
pub open spec fn is_space(b: u8) -> bool {
    b == SPACE || (0x09 <= b && b <= 0x0D)
}

/// The words of a line: its longest runs of bytes that are no white space,
/// in order.
pub open spec fn split(line: Seq<u8>) -> Seq<Seq<u8>>
    decreases line.len(),
{
    if line.len() == 0 {
        Seq::empty()
    } else {
        let before = split(line.drop_last());
        if is_space(line.last()) {
            before
        } else if line.len() >= 2 && !is_space(line[line.len() - 2]) && before.len() > 0 {
            before.drop_last().push(before.last().push(line.last()))
        } else {
            before.push(seq![line.last()])
        }
    }
}

/// The lines of a text: what stands between its newlines.  There is always
/// a last line, which is empty if the text ends in a newline.
pub open spec fn lines_of(bytes: Seq<u8>) -> Seq<Seq<u8>>
    decreases bytes.len(),
{
    if bytes.len() == 0 {
        seq![Seq::empty()]
    } else {
        let before = lines_of(bytes.drop_last());
        if bytes.last() == NEWLINE {
            before.push(Seq::empty())
        } else if before.len() > 0 {
            before.drop_last().push(before.last().push(bytes.last()))
        } else {
            before
        }
    }
}

/// Which list a line adds to, by its first two bytes.
pub open spec fn line_kind_spec(line: Seq<u8>) -> LineKind {
    if line.len() >= 2 && line[0] == LETTER_V && line[1] == SPACE {
        LineKind::Vertex
    } else if line.len() >= 2 && line[0] == LETTER_F && line[1] == SPACE {
        LineKind::Face
    } else {
        LineKind::Other
    }
}

/// Where the first slash at or after `from` stands, or the word's length if
/// there is none.
pub open spec fn slash_at(word: Seq<u8>, from: int) -> int
    decreases word.len() - from,
{
    if from < 0 || from >= word.len() || word[from] == SLASH {
        from
    } else {
        slash_at(word, from + 1)
    }
}

/// Every byte is a decimal digit.
pub open spec fn all_digits(s: Seq<u8>) -> bool {
    forall|i: int| 0 <= i < s.len() ==> DIGIT_ZERO <= #[trigger] s[i] <= DIGIT_ZERO + 9
}

/// The number that a run of decimal digits writes.
pub open spec fn digits_value(s: Seq<u8>) -> int
    decreases s.len(),
{
    if s.len() == 0 {
        0
    } else {
        digits_value(s.drop_last()) * 10 + (s.last() - DIGIT_ZERO)
    }
}

/// The digits of a corner: what stands before its first slash, without a
/// leading plus sign.
pub open spec fn corner_digits(word: Seq<u8>) -> Seq<u8> {
    let head = word.subrange(0, slash_at(word, 0));
    if head.len() > 0 && head[0] == PLUS {
        head.skip(1)
    } else {
        head
    }
}

/// The place in the list of coordinates triples that a corner names: its
/// vertex number less one.  `None` if the corner's digits are none, are not
/// all digits, write zero, or write more than the machine can hold.
pub open spec fn face_index_spec(word: Seq<u8>) -> Option<usize> {
    let digits = corner_digits(word);
    if digits.len() > 0 && all_digits(digits) && 1 <= digits_value(digits) <= usize::MAX {
        Some((digits_value(digits) - 1) as usize)
    } else {
        None
    }
}

/// What the number function answers for a word.
pub open spec fn number_outcome<P: Fn(&Vec<u8>) -> Option<Scalar>>(
    parse_number: P,
    word: Seq<u8>,
) -> Option<Scalar> {
    let (v, r) = choose|v: Vec<u8>, r: Option<Scalar>|
        v@ == word && #[trigger] call_ensures(parse_number, (&v,), r);
    r
}

/// The number function answers for every word, and for the same bytes
/// always the same.
pub open spec fn number_fn_ok<P: Fn(&Vec<u8>) -> Option<Scalar>>(parse_number: P) -> bool {
    &&& forall|v: Vec<u8>| call_requires(parse_number, (&v,))
    &&& forall|v: Vec<u8>, w: Vec<u8>, a: Option<Scalar>, b: Option<Scalar>|
        v@ == w@ && #[trigger] call_ensures(parse_number, (&v,), a) && #[trigger] call_ensures(
            parse_number,
            (&w,),
            b,
        ) ==> a == b
}

/// What has been read of a file so far: the coordinates, the corners, and
/// the first fault found.
pub struct Lists {
    pub vertices: Seq<Scalar>,
    pub indexes: Seq<usize>,
    pub failure: Option<LoadError>,
}

/// The lists after one more word of a line of the given kind.  After a
/// fault nothing is added.
pub open spec fn after_word<P: Fn(&Vec<u8>) -> Option<Scalar>>(
    lists: Lists,
    kind: LineKind,
    word: Seq<u8>,
    parse_number: P,
) -> Lists {
    if lists.failure.is_some() {
        lists
    } else {
        match kind {
            LineKind::Vertex => match number_outcome(parse_number, word) {
                Some(x) => Lists { vertices: lists.vertices.push(x), ..lists },
                None => Lists { failure: Some(LoadError::BadVertex), ..lists },
            },
            LineKind::Face => match face_index_spec(word) {
                Some(i) => Lists { indexes: lists.indexes.push(i), ..lists },
                None => Lists { failure: Some(LoadError::BadFace), ..lists },
            },
            LineKind::Other => lists,
        }
    }
}

/// The lists after the words of a line, of which the first, the line's
/// letter, is passed over.
pub open spec fn after_words<P: Fn(&Vec<u8>) -> Option<Scalar>>(
    lists: Lists,
    kind: LineKind,
    words: Seq<Seq<u8>>,
    parse_number: P,
) -> Lists
    decreases words.len(),
{
    if words.len() <= 1 {
        lists
    } else {
        after_word(
            after_words(lists, kind, words.drop_last(), parse_number),
            kind,
            words.last(),
            parse_number,
        )
    }
}

/// The lists after one more line.
pub open spec fn after_line<P: Fn(&Vec<u8>) -> Option<Scalar>>(
    lists: Lists,
    line: Seq<u8>,
    parse_number: P,
) -> Lists {
    after_words(lists, line_kind_spec(line), split(line), parse_number)
}

/// The lists after the given lines, read from empty lists.
pub open spec fn after_lines<P: Fn(&Vec<u8>) -> Option<Scalar>>(
    lines: Seq<Seq<u8>>,
    parse_number: P,
) -> Lists
    decreases lines.len(),
{
    if lines.len() == 0 {
        Lists { vertices: Seq::empty(), indexes: Seq::empty(), failure: None }
    } else {
        after_line(after_lines(lines.drop_last(), parse_number), lines.last(), parse_number)
    }
}

/// The number function's answer for a vector is its answer for the
/// vector's bytes.
proof fn lemma_number_outcome<P: Fn(&Vec<u8>) -> Option<Scalar>>(
    parse_number: P,
    word: Vec<u8>,
    r: Option<Scalar>,
)
    requires
        number_fn_ok(parse_number),
        call_ensures(parse_number, (&word,), r),
    ensures
        number_outcome(parse_number, word@) == r,
{
    let (v, chosen) = choose|v: Vec<u8>, a: Option<Scalar>|
        v@ == word@ && #[trigger] call_ensures(parse_number, (&v,), a);
    assert(v@ == word@ && call_ensures(parse_number, (&v,), chosen));
}

/// Whether a byte is ASCII white space.
pub fn is_space_byte(b: u8) -> (r: bool)
    ensures
        r == is_space(b),
{
    b == SPACE || (0x09 <= b && b <= 0x0D)
}

/// Which list a line adds to.
pub fn line_kind(line: &Vec<u8>) -> (r: LineKind)
    ensures
        r == line_kind_spec(line@),
{
    if line.len() >= 2 && line[0] == LETTER_V && line[1] == SPACE {
        LineKind::Vertex
    } else if line.len() >= 2 && line[0] == LETTER_F && line[1] == SPACE {
        LineKind::Face
    } else {
        LineKind::Other
    }
}

/// Reads a corner's vertex number and returns the place it names.
pub fn parse_face_index(word: &Vec<u8>) -> (r: Option<usize>)
    ensures
        r == face_index_spec(word@),
{
    let len = word.len();
    let start: usize = if len > 0 && word[0] == PLUS {
        1
    } else {
        0
    };
    let mut i: usize = start;
    let mut value: usize = 0;
    let mut valid = true;
    let mut too_large = false;
    proof {
        reveal_with_fuel(slash_at, 2);
        assert(word@.subrange(start as int, start as int) =~= Seq::<u8>::empty());
    }
    while i < len && word[i] != SLASH
        invariant
            start <= i <= len,
            len == word@.len(),
            start == 0 || start == 1,
            start == 1 <==> len > 0 && word@[0] == PLUS,
            slash_at(word@, 0) == slash_at(word@, i as int),
            valid == all_digits(word@.subrange(start as int, i as int)),
            valid && !too_large ==> value == digits_value(word@.subrange(start as int, i as int)),
            valid && too_large ==> digits_value(word@.subrange(start as int, i as int))
                > usize::MAX,
        decreases len - i,
    {
        let b = word[i];
        let ghost before = word@.subrange(start as int, i as int);
        let ghost after = word@.subrange(start as int, i + 1);
        proof {
            assert(after.drop_last() =~= before);
            assert(after.last() == b);
            assert(forall|k: int| 0 <= k < before.len() ==> before[k] == after[k]);
        }
        if b < DIGIT_ZERO || b > DIGIT_ZERO + 9 {
            valid = false;
        } else if valid && !too_large {
            let digit: usize = (b - DIGIT_ZERO) as usize;
            if value > (usize::MAX - digit) / 10 {
                too_large = true;
                assert(digits_value(after) > usize::MAX) by (nonlinear_arith)
                    requires
                        digits_value(after) == value * 10 + digit,
                        value > (usize::MAX - digit) / 10,
                        0 <= digit <= 9,
                ;
            } else {
                assert(value * 10 + digit <= usize::MAX) by (nonlinear_arith)
                    requires
                        value <= (usize::MAX - digit) / 10,
                        0 <= digit <= 9,
                ;
                value = value * 10 + digit;
            }
        }
        assert(valid == all_digits(after)) by {
            if all_digits(after) {
                assert(DIGIT_ZERO <= after[i - start] <= DIGIT_ZERO + 9);
            }
        }
        i += 1;
    }
    proof {
        assert(slash_at(word@, 0) == i);
        let head = word@.subrange(0, i as int);
        assert(corner_digits(word@) =~= word@.subrange(start as int, i as int));
    }
    if i > start && valid && !too_large && value >= 1 {
        Some(value - 1)
    } else {
        None
    }
}

/// Reads one word of a line into the lists.
fn read_word<P: Fn(&Vec<u8>) -> Option<Scalar>>(
    kind: LineKind,
    word: &Vec<u8>,
    vertices: &mut Vec<Scalar>,
    indexes: &mut Vec<usize>,
    failure: &mut Option<LoadError>,
    parse_number: &P,
)
    requires
        number_fn_ok(*parse_number),
    ensures
        (Lists {
            vertices: final(vertices)@,
            indexes: final(indexes)@,
            failure: *final(failure),
        }) == after_word(
            (Lists { vertices: old(vertices)@, indexes: old(indexes)@, failure: *old(failure) }),
            kind,
            word@,
            *parse_number,
        ),
{
    if failure.is_some() {
        return ;
    }
    match kind {
        LineKind::Vertex => {
            let parsed = parse_number(word);
            proof {
                lemma_number_outcome(*parse_number, *word, parsed);
            }
            match parsed {
                Some(x) => {
                    vertices.push(x);
                },
                None => {
                    *failure = Some(LoadError::BadVertex);
                },
            }
        },
        LineKind::Face => {
            match parse_face_index(word) {
                Some(i) => {
                    indexes.push(i);
                },
                None => {
                    *failure = Some(LoadError::BadFace);
                },
            }
        },
        LineKind::Other => {},
    }
}

/// A line that is neither of coordinates nor of faces leaves the lists as
/// they are.
proof fn lemma_other_line_adds_nothing<P: Fn(&Vec<u8>) -> Option<Scalar>>(
    lists: Lists,
    words: Seq<Seq<u8>>,
    parse_number: P,
)
    ensures
        after_words(lists, LineKind::Other, words, parse_number) == lists,
    decreases words.len(),
{
    if words.len() > 1 {
        lemma_other_line_adds_nothing(lists, words.drop_last(), parse_number);
    }
}

/// Reads one line into the lists.
fn read_line<P: Fn(&Vec<u8>) -> Option<Scalar>>(
    line: &Vec<u8>,
    vertices: &mut Vec<Scalar>,
    indexes: &mut Vec<usize>,
    failure: &mut Option<LoadError>,
    parse_number: &P,
)
    requires
        number_fn_ok(*parse_number),
    ensures
        (Lists {
            vertices: final(vertices)@,
            indexes: final(indexes)@,
            failure: *final(failure),
        }) == after_line(
            (Lists { vertices: old(vertices)@, indexes: old(indexes)@, failure: *old(failure) }),
            line@,
            *parse_number,
        ),
{
    let ghost start = Lists { vertices: vertices@, indexes: indexes@, failure: *failure };
    let kind = line_kind(line);
    if kind == LineKind::Other {
        proof {
            lemma_other_line_adds_nothing(start, split(line@), *parse_number);
        }
        return ;
    }
    let len = line.len();
    let mut word: Vec<u8> = Vec::new();
    let mut seen: usize = 0;
    let mut i: usize = 0;
    while i < len
        invariant
            i <= len,
            len == line@.len(),
            seen <= i,
            number_fn_ok(*parse_number),
            kind == line_kind_spec(line@),
            word@.len() > 0 <==> i > 0 && !is_space(line@[i - 1]),
            word@.len() > 0 ==> {
                let words = split(line@.take(i as int));
                &&& words.len() == seen + 1
                &&& words.last() == word@
                &&& (Lists { vertices: vertices@, indexes: indexes@, failure: *failure })
                    == after_words(start, kind, words.drop_last(), *parse_number)
            },
            word@.len() == 0 ==> {
                let words = split(line@.take(i as int));
                &&& words.len() == seen
                &&& (Lists { vertices: vertices@, indexes: indexes@, failure: *failure })
                    == after_words(start, kind, words, *parse_number)
            },
        decreases len - i,
    {
        let b = line[i];
        proof {
            let longer = line@.take(i + 1);
            assert(longer.drop_last() =~= line@.take(i as int));
            assert(longer.last() == b);
            if i > 0 {
                assert(longer[longer.len() - 2] == line@[i - 1]);
            }
        }
        if is_space_byte(b) {
            if word.len() > 0 {
                if seen >= 1 {
                    read_word(kind, &word, vertices, indexes, failure, parse_number);
                }
                seen += 1;
                word = Vec::new();
            }
        } else {
            let ghost earlier = word@;
            word.push(b);
            proof {
                let words = split(line@.take(i + 1));
                let before = split(line@.take(i as int));
                if earlier.len() > 0 {
                    assert(words.drop_last() =~= before.drop_last());
                } else {
                    assert(words.drop_last() =~= before);
                    assert(word@ =~= seq![b]);
                }
            }
        }
        i += 1;
    }
    proof {
        assert(line@.take(len as int) =~= line@);
    }
    if word.len() > 0 {
        if seen >= 1 {
            read_word(kind, &word, vertices, indexes, failure, parse_number);
        }
    }
}

/// What reading a text comes to: the fault found first, or the fault that
/// the lists are no mesh, or none.
pub open spec fn load_fault(lists: Lists) -> Option<LoadError> {
    match lists.failure {
        Some(e) => Some(e),
        None => if is_mesh(lists.vertices, lists.indexes) {
            None
        } else {
            Some(LoadError::BadMesh)
        },
    }
}

/// Reads the triangles of a mesh from the text of a file.  `parse_number`
/// turns the text of a coordinate into a number, or says that it is none.
/// The fault that stands first in the file is the one reported.
pub fn load_scene<P: Fn(&Vec<u8>) -> Option<Scalar>>(contents: &Vec<u8>, parse_number: &P) -> (r:
    Result<Vec<Triangle>, LoadError>)
    requires
        number_fn_ok(*parse_number),
    ensures
        match r {
            Ok(triangles) => {
                let lists = after_lines(lines_of(contents@), *parse_number);
                load_fault(lists).is_none() && is_mesh_of(
                    triangles@,
                    lists.vertices,
                    lists.indexes,
                )
            },
            Err(e) => load_fault(after_lines(lines_of(contents@), *parse_number)) == Some(e),
        },
{
    let mut vertices: Vec<Scalar> = Vec::new();
    let mut indexes: Vec<usize> = Vec::new();
    let mut failure: Option<LoadError> = None;
    let mut line: Vec<u8> = Vec::new();
    let len = contents.len();
    let mut i: usize = 0;
    proof {
        assert(lines_of(contents@.take(0)) =~= seq![Seq::<u8>::empty()]);
        assert(seq![Seq::<u8>::empty()].drop_last() =~= Seq::<Seq<u8>>::empty());
    }
    while i < len
        invariant
            i <= len,
            len == contents@.len(),
            number_fn_ok(*parse_number),
            lines_of(contents@.take(i as int)).len() > 0,
            line@ == lines_of(contents@.take(i as int)).last(),
            (Lists { vertices: vertices@, indexes: indexes@, failure }) == after_lines(
                lines_of(contents@.take(i as int)).drop_last(),
                *parse_number,
            ),
        decreases len - i,
    {
        let b = contents[i];
        proof {
            let longer = contents@.take(i + 1);
            assert(longer.drop_last() =~= contents@.take(i as int));
            assert(longer.last() == b);
        }
        let ghost before = lines_of(contents@.take(i as int));
        if b == NEWLINE {
            read_line(&line, &mut vertices, &mut indexes, &mut failure, parse_number);
            line = Vec::new();
            proof {
                assert(before.push(Seq::<u8>::empty()).drop_last() =~= before);
            }
        } else {
            line.push(b);
            proof {
                let grown = before.drop_last().push(before.last().push(b));
                assert(grown.drop_last() =~= before.drop_last());
            }
        }
        i += 1;
    }
    proof {
        assert(contents@.take(len as int) =~= contents@);
    }
    read_line(&line, &mut vertices, &mut indexes, &mut failure, parse_number);
    match failure {
        Some(e) => Err(e),
        None => assemble(&vertices, &indexes),
    }
}

} // verus!
