//! Reading a mesh from text in a subset of the Wavefront OBJ format.
//!
//! The text is read line by line. A line `v x y z` gives a vertex, a line
//! `f a b c ...` a face over vertices counted from one; every other line is
//! passed over. Coordinates are handed, as the bytes found, to a reader that
//! the caller supplies, so that the mesh can be loaded over any number type.

use crate::facet::facet_of;
use crate::facet::parse_facet_obj;
use crate::facet::Field;
use crate::geometry::Vec3D;
use crate::token::arguments;
use crate::token::find;
use crate::token::in_line;
use crate::token::keyword;
use crate::token::next_sep;
use crate::token::split_arguments;
use crate::token::token_bytes;
use vstd::prelude::*;
use vstd::slice::slice_subrange;

verus! {

/// A polygon mesh: vertices, and faces that name their corners by position
/// in `verts`, counted from zero.
#[derive(Debug)]
pub struct Model<T> {
    pub verts: Vec<Vec3D<T>>,
    pub faces: Vec<Vec<usize>>,
}

/// Why a text could not be read as a mesh.
#[derive(Debug)]
pub struct ParseError {
    /// Position of the offending line in the text, counted from zero.
    pub line_index: usize,
    /// The offending line.
    pub line: Vec<u8>,
    /// What the part that could not be read should have been.
    pub expected: Field,
}

/// A mesh as read, with the faces that had to be left out.
#[derive(Debug)]
pub struct Loaded<T> {
    pub model: Model<T>,
    /// Positions, counted from zero, of the face lines that were rejected
    /// because one of their tokens names no vertex.
    pub rejected: Vec<usize>,
}

/// What one line of the text contributes to the mesh.
pub enum Entry {
    /// A vertex, with the bytes of its three coordinates.
    Vertex { x: Seq<u8>, y: Seq<u8>, z: Seq<u8> },
    /// A face over the given vertices, counted from zero.
    Face { corners: Seq<usize> },
    /// A face line with a token that names no vertex: one that is malformed,
    /// or one whose vertex number is zero.
    Rejected,
    /// A face line with a part that should be a number and is none.
    Broken { expected: Field },
    /// Any other line.
    Ignored,
}

/// The lines of `text` from the one that starts at `from` onwards.
pub open spec fn lines_from(text: Seq<u8>, from: int) -> Seq<Seq<u8>>
    decreases text.len() - from,
{
    let end = next_sep(text, 10, from);
    let rest = if from <= end < text.len() {
        lines_from(text, end + 1)
    } else {
        Seq::empty()
    };
    seq![text.subrange(from, end)] + rest
}

/// The lines of `text`: what stands between its line feeds.
pub open spec fn lines(text: Seq<u8>) -> Seq<Seq<u8>> {
    lines_from(text, 0)
}

/// What the tokens of a face line read as, taken from the left: the corners
/// they name, counted from zero; nothing where one of them names no vertex;
/// or the first part that should be a number and is none.
pub open spec fn corners_of(line: Seq<u8>, tokens: Seq<(usize, usize)>) -> Result<
    Option<Seq<usize>>,
    Field,
>
    decreases tokens.len(),
{
    if tokens.len() == 0 {
        Ok(Some(Seq::empty()))
    } else {
        match corners_of(line, tokens.drop_last()) {
            Err(field) => Err(field),
            Ok(before) => match facet_of(token_bytes(line, tokens.last())) {
                Err(field) => Err(field),
                Ok(facet) => match before {
                    Some(corners) if facet.v > 0 => Ok(Some(corners.push((facet.v - 1) as usize))),
                    _ => Ok(None),
                },
            },
        }
    }
}

/// What `line` contributes: a vertex if it starts with the field `v` and has
/// three tokens or more after it, of which the first three are its
/// coordinates; a face if it starts with the field `f` and has two tokens or
/// more after it; nothing otherwise.
pub open spec fn entry_of(line: Seq<u8>) -> Entry {
    let tokens = arguments(line);
    if keyword(line) == seq![118u8] && tokens.len() >= 3 {
        Entry::Vertex {
            x: token_bytes(line, tokens[0]),
            y: token_bytes(line, tokens[1]),
            z: token_bytes(line, tokens[2]),
        }
    } else if keyword(line) == seq![102u8] && tokens.len() >= 2 {
        match corners_of(line, tokens) {
            Err(expected) => Entry::Broken { expected },
            Ok(None) => Entry::Rejected,
            Ok(Some(corners)) => Entry::Face { corners },
        }
    } else {
        Entry::Ignored
    }
}

/// Reads the tokens of a face line.
pub fn read_corners(line: &[u8], tokens: &Vec<(usize, usize)>) -> (r: Result<
    Option<Vec<usize>>,
    Field,
>)
    requires
        forall|i: int| 0 <= i < tokens.len() ==> in_line(line@, #[trigger] tokens[i]),
    ensures
        match r {
            Ok(Some(corners)) => corners_of(line@, tokens@) == Ok::<Option<Seq<usize>>, Field>(
                Some(corners@),
            ),
            Ok(None) => corners_of(line@, tokens@) == Ok::<Option<Seq<usize>>, Field>(None),
            Err(field) => corners_of(line@, tokens@) == Err::<Option<Seq<usize>>, Field>(field),
        },
{
    let mut corners: Vec<usize> = Vec::new();
    let mut named = true;
    let mut i: usize = 0;
    proof {
        assert(tokens@.take(0) =~= Seq::<(usize, usize)>::empty());
    }
    while i < tokens.len()
        invariant
            i <= tokens.len(),
            forall|j: int| 0 <= j < tokens.len() ==> in_line(line@, #[trigger] tokens[j]),
            named ==> corners_of(line@, tokens@.take(i as int)) == Ok::<
                Option<Seq<usize>>,
                Field,
            >(Some(corners@)),
            !named ==> corners_of(line@, tokens@.take(i as int)) == Ok::<Option<Seq<usize>>, Field>(
                None,
            ),
        decreases tokens.len() - i,
    {
        let (a, b) = tokens[i];
        let token = slice_subrange(line, a, b);
        proof {
            let next = tokens@.take(i + 1);
            assert(next.drop_last() =~= tokens@.take(i as int));
            assert(next.last() == tokens@[i as int]);
            assert(token@ == token_bytes(line@, tokens@[i as int]));
            if i + 1 == tokens.len() {
                assert(next =~= tokens@);
            }
        }
        match parse_facet_obj(token) {
            Err(field) => {
                proof {
                    lemma_broken_stays_broken(line@, tokens@, i + 1);
                }
                return Err(field);
            },
            Ok(facet) => {
                if facet.v == 0 {
                    named = false;
                } else if named {
                    corners.push(facet.v - 1);
                }
            },
        }
        i = i + 1;
    }
    proof {
        assert(tokens@.take(tokens.len() as int) =~= tokens@);
    }
    if named {
        Ok(Some(corners))
    } else {
        Ok(None)
    }
}

/// Once a part of a face line is found to be no number, further tokens do
/// not change that.
proof fn lemma_broken_stays_broken(line: Seq<u8>, tokens: Seq<(usize, usize)>, k: int)
    requires
        0 <= k <= tokens.len(),
        corners_of(line, tokens.take(k)) is Err,
    ensures
        corners_of(line, tokens) == corners_of(line, tokens.take(k)),
    decreases tokens.len() - k,
{
    if k < tokens.len() {
        assert(tokens.take(k + 1).drop_last() =~= tokens.take(k));
        lemma_broken_stays_broken(line, tokens, k + 1);
    } else {
        assert(tokens.take(k) =~= tokens);
    }
}

/// The faces that `lines` give, in their order.
pub open spec fn faces_of(lines: Seq<Seq<u8>>) -> Seq<Seq<usize>>
    decreases lines.len(),
{
    if lines.len() == 0 {
        Seq::empty()
    } else {
        let before = faces_of(lines.drop_last());
        match entry_of(lines.last()) {
            Entry::Face { corners } => before.push(corners),
            _ => before,
        }
    }
}

/// The positions in `lines` of the face lines that are rejected.
pub open spec fn rejected_of(lines: Seq<Seq<u8>>) -> Seq<usize>
    decreases lines.len(),
{
    if lines.len() == 0 {
        Seq::empty()
    } else {
        let before = rejected_of(lines.drop_last());
        match entry_of(lines.last()) {
            Entry::Rejected => before.push((lines.len() - 1) as usize),
            _ => before,
        }
    }
}

/// The positions in `lines` of the vertex lines.
pub open spec fn vertex_lines(lines: Seq<Seq<u8>>) -> Seq<int>
    decreases lines.len(),
{
    if lines.len() == 0 {
        Seq::empty()
    } else {
        let before = vertex_lines(lines.drop_last());
        match entry_of(lines.last()) {
            Entry::Vertex { .. } => before.push(lines.len() - 1),
            _ => before,
        }
    }
}

/// The corner lists of `faces`.
pub open spec fn face_views(faces: Seq<Vec<usize>>) -> Seq<Seq<usize>> {
    faces.map_values(|face: Vec<usize>| face@)
}

/// Whether `read` may answer `out` when it is handed the bytes `token`.
pub open spec fn reads_as<T, F: Fn(&[u8]) -> Option<T>>(
    read: F,
    token: Seq<u8>,
    out: Option<T>,
) -> bool {
    exists|bytes: &[u8]| bytes@ == token && #[trigger] call_ensures(read, (bytes,), out)
}

/// Whether `vertex` is what `read` made of the three coordinates of a
/// vertex line.
pub open spec fn vertex_read<T, F: Fn(&[u8]) -> Option<T>>(
    read: F,
    entry: Entry,
    vertex: Vec3D<T>,
) -> bool {
    match entry {
        Entry::Vertex { x, y, z } => {
            &&& reads_as(read, x, Some(vertex.x))
            &&& reads_as(read, y, Some(vertex.y))
            &&& reads_as(read, z, Some(vertex.z))
        },
        _ => false,
    }
}

/// Whether `read` found one of the three coordinates of a vertex line to be
/// no number.
pub open spec fn vertex_refused<T, F: Fn(&[u8]) -> Option<T>>(read: F, entry: Entry) -> bool {
    match entry {
        Entry::Vertex { x, y, z } => {
            ||| reads_as(read, x, None::<T>)
            ||| reads_as(read, y, None::<T>)
            ||| reads_as(read, z, None::<T>)
        },
        _ => false,
    }
}

/// Whether `verts`, `faces` and `rejected` are what `lines` give, none of
/// them with a part that is no number: the faces and the rejected lines in
/// their order, and one vertex for each vertex line, as `read` made it.
pub open spec fn gathered<T, F: Fn(&[u8]) -> Option<T>>(
    lines: Seq<Seq<u8>>,
    read: F,
    verts: Seq<Vec3D<T>>,
    faces: Seq<Vec<usize>>,
    rejected: Seq<usize>,
) -> bool {
    &&& (forall|k: int| 0 <= k < lines.len() ==> !(entry_of(#[trigger] lines[k]) is Broken))
    &&& face_views(faces) == faces_of(lines)
    &&& rejected == rejected_of(lines)
    &&& verts.len() == vertex_lines(lines).len()
    &&& (forall|i: int|
        0 <= i < verts.len() ==> vertex_read(
            read,
            entry_of(lines[vertex_lines(lines)[i]]),
            #[trigger] verts[i],
        ))
}

/// Whether `error` names the first line of `lines` that cannot be read: a
/// face line with a part that is no number, or a vertex line of which
/// `read` refused a coordinate. Every vertex line before it was read.
pub open spec fn failed_at<T, F: Fn(&[u8]) -> Option<T>>(
    lines: Seq<Seq<u8>>,
    read: F,
    error: ParseError,
) -> bool {
    let k = error.line_index as int;
    &&& k < lines.len()
    &&& error.line@ == lines[k]
    &&& (forall|j: int| 0 <= j < k ==> !(entry_of(#[trigger] lines[j]) is Broken))
    &&& (forall|j: int|
        0 <= j < k && entry_of(#[trigger] lines[j]) is Vertex ==> exists|vertex: Vec3D<T>|
            vertex_read(read, entry_of(lines[j]), vertex))
    &&& match entry_of(lines[k]) {
        Entry::Broken { expected } => error.expected == expected,
        Entry::Vertex { .. } => error.expected == Field::Coordinate && vertex_refused::<T, F>(
            read,
            entry_of(lines[k]),
        ),
        _ => false,
    }
}

/// One more line in the text that was read so far.
proof fn lemma_gather_line<T, F: Fn(&[u8]) -> Option<T>>(
    done: Seq<Seq<u8>>,
    line: Seq<u8>,
    read: F,
    verts: Seq<Vec3D<T>>,
    faces: Seq<Vec<usize>>,
    rejected: Seq<usize>,
    verts_after: Seq<Vec3D<T>>,
    faces_after: Seq<Vec<usize>>,
    rejected_after: Seq<usize>,
)
    requires
        gathered(done, read, verts, faces, rejected),
        match entry_of(line) {
            Entry::Vertex { .. } => {
                &&& verts_after.len() == verts.len() + 1
                &&& verts_after.drop_last() == verts
                &&& vertex_read(read, entry_of(line), verts_after.last())
                &&& faces_after == faces
                &&& rejected_after == rejected
            },
            Entry::Face { corners } => {
                &&& verts_after == verts
                &&& faces_after.len() == faces.len() + 1
                &&& faces_after.drop_last() == faces
                &&& faces_after.last()@ == corners
                &&& rejected_after == rejected
            },
            Entry::Rejected => {
                &&& verts_after == verts
                &&& faces_after == faces
                &&& rejected_after == rejected.push(done.len() as usize)
            },
            Entry::Broken { .. } => false,
            Entry::Ignored => {
                &&& verts_after == verts
                &&& faces_after == faces
                &&& rejected_after == rejected
            },
        },
    ensures
        gathered(done.push(line), read, verts_after, faces_after, rejected_after),
{
    let after = done.push(line);
    assert(after.drop_last() =~= done);
    assert(after.last() == line);
    assert forall|k: int| 0 <= k < after.len() implies !(entry_of(#[trigger] after[k]) is Broken) by {
        if k < done.len() {
            assert(after[k] == done[k]);
        }
    }
    assert(face_views(faces_after) =~= faces_of(after)) by {
        if entry_of(line) is Face {
            assert(face_views(faces_after).drop_last() =~= face_views(faces));
        }
    }
    lemma_vertex_lines_in_range(done);
    assert forall|i: int| 0 <= i < verts_after.len() implies vertex_read(
        read,
        entry_of(after[vertex_lines(after)[i]]),
        #[trigger] verts_after[i],
    ) by {
        if i < verts.len() {
            assert(vertex_read(read, entry_of(done[vertex_lines(done)[i]]), verts[i]));
            assert(vertex_lines(after)[i] == vertex_lines(done)[i]);
            assert(after[vertex_lines(done)[i]] == done[vertex_lines(done)[i]]);
            assert(verts_after[i] == verts[i]) by {
                if entry_of(line) is Vertex {
                    assert(verts_after.drop_last()[i] == verts_after[i]);
                }
            }
        }
    }
}

/// The positions listed as vertex lines are positions of lines.
pub proof fn lemma_vertex_lines_in_range(lines: Seq<Seq<u8>>)
    ensures
        forall|i: int|
            0 <= i < vertex_lines(lines).len() ==> 0 <= #[trigger] vertex_lines(lines)[i]
                < lines.len(),
    decreases lines.len(),
{
    if lines.len() > 0 {
        lemma_vertex_lines_in_range(lines.drop_last());
        let before = vertex_lines(lines.drop_last());
        assert forall|i: int| 0 <= i < vertex_lines(lines).len() implies 0 <= #[trigger] vertex_lines(
            lines,
        )[i] < lines.len() by {
            if i < before.len() {
                assert(vertex_lines(lines)[i] == before[i]);
            }
        }
    }
}

/// Reads a mesh from `text`. Each coordinate of a vertex line is handed to
/// `read`, which answers with the number that the bytes write, or with
/// nothing where they write none.
///
/// The first line that cannot be read ends the reading with an error: a
/// vertex line of which `read` refuses one of the three coordinates, or a
/// face line with a part that should be a number and is none. A face line
/// with a token that names no vertex is left out of the mesh and listed in
/// `rejected`.
pub fn parse_model_obj<T, F: Fn(&[u8]) -> Option<T>>(text: &[u8], read: F) -> (r: Result<
    Loaded<T>,
    ParseError,
>)
    requires
        forall|t: &[u8]| call_requires(read, (t,)),
    ensures
        match r {
            Ok(loaded) => gathered(
                lines(text@),
                read,
                loaded.model.verts@,
                loaded.model.faces@,
                loaded.rejected@,
            ),
            Err(error) => failed_at(lines(text@), read, error),
        },
{
    let mut verts: Vec<Vec3D<T>> = Vec::new();
    let mut faces: Vec<Vec<usize>> = Vec::new();
    let mut rejected: Vec<usize> = Vec::new();
    let mut from: usize = 0;
    let mut index: usize = 0;
    let mut finished = false;
    let ghost mut done: Seq<Seq<u8>> = Seq::empty();
    proof {
        assert(done + lines_from(text@, 0) =~= lines(text@));
        assert(face_views(faces@) =~= faces_of(done));
    }
    while !finished
        invariant
            from <= text.len(),
            index <= from,
            forall|t: &[u8]| call_requires(read, (t,)),
            !finished ==> done.len() == index,
            !finished ==> done + lines_from(text@, from as int) == lines(text@),
            finished ==> done == lines(text@),
            gathered(done, read, verts@, faces@, rejected@),
        decreases text.len() - from + if finished { 0int } else { 1int },
    {
        let end = find(text, 10, from);
        let line = slice_subrange(text, from, end);
        let tokens = split_arguments(line);
        let key = find(line, 32, 0);
        let ghost verts_before = verts@;
        let ghost faces_before = faces@;
        let ghost rejected_before = rejected@;
        let ghost rest = if end < text.len() {
            lines_from(text@, end + 1)
        } else {
            Seq::empty()
        };
        proof {
            assert(lines_from(text@, from as int) == seq![line@] + rest);
            assert(done + (seq![line@] + rest) =~= done.push(line@) + rest);
            assert(lines(text@)[index as int] == line@);
            assert forall|j: int| 0 <= j < index implies lines(text@)[j] == done[j] by {}
            assert(keyword(line@) == seq![118u8] <==> (key == 1 && line[0] == 118u8)) by {
                if key == 1 {
                    assert(keyword(line@) =~= seq![line[0]]);
                    assert(seq![line[0]][0] == line[0]);
                }
                if keyword(line@) == seq![118u8] {
                    assert(keyword(line@).len() == 1);
                }
            }
            assert(keyword(line@) == seq![102u8] <==> (key == 1 && line[0] == 102u8)) by {
                if key == 1 {
                    assert(keyword(line@) =~= seq![line[0]]);
                    assert(seq![line[0]][0] == line[0]);
                }
                if keyword(line@) == seq![102u8] {
                    assert(keyword(line@).len() == 1);
                }
            }
        }
        if key == 1 && line[0] == 118u8 && tokens.len() >= 3 {
            let x_bytes = slice_subrange(line, tokens[0].0, tokens[0].1);
            let y_bytes = slice_subrange(line, tokens[1].0, tokens[1].1);
            let z_bytes = slice_subrange(line, tokens[2].0, tokens[2].1);
            let x = read(x_bytes);
            let y = if x.is_some() {
                read(y_bytes)
            } else {
                None
            };
            let z = if y.is_some() {
                read(z_bytes)
            } else {
                None
            };
            match (x, y, z) {
                (Some(x), Some(y), Some(z)) => {
                    verts.push(Vec3D { x, y, z });
                    proof {
                        assert(verts@.drop_last() =~= verts_before);
                    }
                },
                _ => {
                    proof {
                        lemma_failure_found::<T, F>(
                            done,
                            lines(text@),
                            read,
                            verts@,
                            faces@,
                            rejected@,
                        );
                    }
                    return Err(
                        ParseError {
                            line_index: index,
                            line: vstd::slice::slice_to_vec(line),
                            expected: Field::Coordinate,
                        },
                    );
                },
            }
        } else if key == 1 && line[0] == 102u8 && tokens.len() >= 2 {
            match read_corners(line, &tokens) {
                Err(expected) => {
                    proof {
                        lemma_failure_found::<T, F>(
                            done,
                            lines(text@),
                            read,
                            verts@,
                            faces@,
                            rejected@,
                        );
                    }
                    return Err(
                        ParseError {
                            line_index: index,
                            line: vstd::slice::slice_to_vec(line),
                            expected,
                        },
                    );
                },
                Ok(None) => {
                    rejected.push(index);
                },
                Ok(Some(corners)) => {
                    faces.push(corners);
                    proof {
                        assert(faces@.drop_last() =~= faces_before);
                    }
                },
            }
        }
        proof {
            lemma_gather_line(
                done,
                line@,
                read,
                verts_before,
                faces_before,
                rejected_before,
                verts@,
                faces@,
                rejected@,
            );
            done = done.push(line@);
        }
        if end >= text.len() {
            finished = true;
            proof {
                assert(done + rest =~= done);
            }
        } else {
            from = end + 1;
            index = index + 1;
        }
    }
    Ok(Loaded { model: Model { verts, faces }, rejected })
}

/// What was gathered from the lines before a failure shows that every line
/// before it could be read.
proof fn lemma_failure_found<T, F: Fn(&[u8]) -> Option<T>>(
    done: Seq<Seq<u8>>,
    lines: Seq<Seq<u8>>,
    read: F,
    verts: Seq<Vec3D<T>>,
    faces: Seq<Vec<usize>>,
    rejected: Seq<usize>,
)
    requires
        gathered(done, read, verts, faces, rejected),
        done.len() <= lines.len(),
        forall|j: int| 0 <= j < done.len() ==> lines[j] == done[j],
    ensures
        forall|j: int| 0 <= j < done.len() ==> !(entry_of(#[trigger] lines[j]) is Broken),
        forall|j: int|
            0 <= j < done.len() && entry_of(#[trigger] lines[j]) is Vertex ==> exists|
                vertex: Vec3D<T>,
            |
                vertex_read(read, entry_of(lines[j]), vertex),
{
    assert forall|j: int| 0 <= j < done.len() && entry_of(#[trigger] lines[j]) is Vertex implies exists|
        vertex: Vec3D<T>,
    |
        vertex_read(read, entry_of(lines[j]), vertex) by {
        lemma_vertex_line_listed(done, j);
        let i = choose|i: int| 0 <= i < vertex_lines(done).len() && vertex_lines(done)[i] == j;
        assert(vertex_read(read, entry_of(done[vertex_lines(done)[i]]), verts[i]));
        assert(done[j] == lines[j]);
    }
}

/// Every vertex line is listed among the vertex lines.
proof fn lemma_vertex_line_listed(lines: Seq<Seq<u8>>, j: int)
    requires
        0 <= j < lines.len(),
        entry_of(lines[j]) is Vertex,
    ensures
        exists|i: int| 0 <= i < vertex_lines(lines).len() && vertex_lines(lines)[i] == j,
    decreases lines.len(),
{
    let before = vertex_lines(lines.drop_last());
    if j == lines.len() - 1 {
        assert(vertex_lines(lines)[before.len() as int] == j);
    } else {
        lemma_vertex_line_listed(lines.drop_last(), j);
        let i = choose|i: int| 0 <= i < before.len() && before[i] == j;
        assert(vertex_lines(lines)[i] == j);
    }
}

/// A line that starts with the field `v` and has fewer than three tokens
/// after it gives no vertex: it is passed over.
pub proof fn lemma_short_vertex_line_is_ignored(line: Seq<u8>)
    requires
        keyword(line) == seq![118u8],
        arguments(line).len() < 3,
    ensures
        entry_of(line) == Entry::Ignored,
{
    assert(seq![118u8][0] != seq![102u8][0]);
}

/// Lines that are passed over leave no trace: a text gives the same faces
/// and the same vertex lines with or without an ignored line at its end.
pub proof fn lemma_ignored_line_adds_nothing(lines: Seq<Seq<u8>>, line: Seq<u8>)
    requires
        entry_of(line) == Entry::Ignored,
    ensures
        faces_of(lines.push(line)) == faces_of(lines),
        vertex_lines(lines.push(line)) == vertex_lines(lines),
        rejected_of(lines.push(line)) == rejected_of(lines),
{
    assert(lines.push(line).drop_last() =~= lines);
}

/// A text in which every line can be read is loaded: reading fails only on
/// a text with a face line that has a part which is no number, or with a
/// vertex line of which `read` refuses a coordinate.
pub proof fn lemma_readable_text_is_loaded<T, F: Fn(&[u8]) -> Option<T>>(
    lines: Seq<Seq<u8>>,
    read: F,
    error: ParseError,
)
    requires
        forall|k: int| 0 <= k < lines.len() ==> !(entry_of(#[trigger] lines[k]) is Broken),
        forall|k: int|
            0 <= k < lines.len() ==> !vertex_refused::<T, F>(read, entry_of(#[trigger] lines[k])),
    ensures
        !failed_at::<T, F>(lines, read, error),
{
    let k = error.line_index as int;
    if k < lines.len() {
        assert(!(entry_of(lines[k]) is Broken));
        assert(!vertex_refused::<T, F>(read, entry_of(lines[k])));
    }
}

} // verus!
