//! The cube: eight corners and six square faces.
//!
//! ```text
//! 4    +------+ 6
//!     /|     /|
//! 5  +------+ |7
//!    | |    | |
//! 0  | +----|-+ 2
//!    |/     |/
//! 1  +------+ 3
//! ```

use vstd::prelude::*;

verus! {

/// The corners of the cube in object space as homogeneous coordinates
/// `[x, y, z, w]`.
pub const VERTICES: [[i8; 4]; 8] = [
    [-1, -1, -1, 1],
    [-1, -1, 1, 1],
    [1, -1, -1, 1],
    [1, -1, 1, 1],
    [-1, 1, -1, 1],
    [-1, 1, 1, 1],
    [1, 1, -1, 1],
    [1, 1, 1, 1],
];

/// The faces of the cube, each a closed loop of four corner numbers. A
/// corner and the next one in the loop, the last and the first included,
/// bound the face.
pub const FACES: [[u8; 4]; 6] = [
    [1, 5, 7, 3],
    [3, 7, 6, 2],
    [0, 4, 5, 1],
    [2, 6, 4, 0],
    [0, 1, 3, 2],
    [5, 4, 6, 7],
];

/// Number of corners.
pub const VERTEX_COUNT: usize = 8;

/// Number of faces.
pub const FACE_COUNT: usize = 6;

/// Number of edges around one face.
pub const FACE_EDGES: usize = 4;

/// Coordinate number `axis` of corner `corner`.
pub open spec fn coordinate(corner: int, axis: int) -> int {
    VERTICES[corner][axis] as int
}

/// The corner in slot `slot` of the loop of face `face`.
pub open spec fn face_corner(face: int, slot: int) -> int {
    FACES[face][slot] as int
}

/// The two corners joined by edge `slot` of face `face`: the corner in that
/// slot of the loop and the one after it, wrapping round at the end.
pub open spec fn face_edge(face: int, slot: int) -> (int, int) {
    (face_corner(face, slot), face_corner(face, (slot + 1) % 4))
}

/// In how many of the three space coordinates two corners differ.
pub open spec fn corner_distance(a: int, b: int) -> int {
    (if coordinate(a, 0) != coordinate(b, 0) {
        1int
    } else {
        0int
    }) + (if coordinate(a, 1) != coordinate(b, 1) {
        1int
    } else {
        0int
    }) + (if coordinate(a, 2) != coordinate(b, 2) {
        1int
    } else {
        0int
    })
}

/// Whether the four corners of face `face` agree in coordinate `axis`, so
/// that the face lies in a plane across that axis.
pub open spec fn lies_across(face: int, axis: int) -> bool {
    forall|slot: int|
        0 <= slot < FACE_EDGES ==> #[trigger] coordinate(face_corner(face, slot), axis)
            == coordinate(face_corner(face, 0), axis)
}

/// Returns the homogeneous coordinates of corner `corner`.
pub fn vertex(corner: usize) -> (v: [i8; 4])
    requires
        corner < VERTEX_COUNT,
    ensures
        v == VERTICES[corner as int],
        forall|k: int| 0 <= k < 3 ==> v[k] == 1 || v[k] == -1,
        v[3] == 1,
{
    VERTICES[corner]
}

/// Returns the two corners joined by edge `slot` of face `face`, in the
/// order in which the face's loop visits them.
pub fn edge(face: usize, slot: usize) -> (ends: (usize, usize))
    requires
        face < FACE_COUNT,
        slot < FACE_EDGES,
    ensures
        (ends.0 as int, ends.1 as int) == face_edge(face as int, slot as int),
        ends.0 < VERTEX_COUNT,
        ends.1 < VERTEX_COUNT,
{
    let next: usize = if slot + 1 == FACE_EDGES {
        0
    } else {
        slot + 1
    };
    (FACES[face][slot] as usize, FACES[face][next] as usize)
}

/// Every edge of every face joins two valid corners that are neighbours on
/// the cube: they differ in exactly one coordinate.
pub proof fn lemma_edges_join_neighbours(face: int, slot: int)
    requires
        0 <= face < FACE_COUNT,
        0 <= slot < FACE_EDGES,
    ensures
        0 <= face_edge(face, slot).0 < VERTEX_COUNT,
        0 <= face_edge(face, slot).1 < VERTEX_COUNT,
        corner_distance(face_edge(face, slot).0, face_edge(face, slot).1) == 1,
{
}

/// Each face lies in a plane across one axis: its four corners agree in
/// one coordinate.
pub proof fn lemma_faces_are_flat(face: int)
    requires
        0 <= face < FACE_COUNT,
    ensures
        exists|axis: int| 0 <= axis < 3 && #[trigger] lies_across(face, axis),
{
    if face == 0 || face == 3 {
        assert(lies_across(face, 2));
    } else if face == 1 || face == 2 {
        assert(lies_across(face, 0));
    } else {
        assert(lies_across(face, 1));
    }
}

/// The face on the other side of edge `slot` of face `face`, and the slot
/// that the edge has in the loop of that face.
pub open spec fn across(face: int, slot: int) -> (int, int) {
    seq![
        seq![(2int, 2int), (5, 3), (1, 0), (4, 1)],
        seq![(0, 2), (5, 2), (3, 0), (4, 2)],
        seq![(3, 2), (5, 0), (0, 0), (4, 0)],
        seq![(1, 2), (5, 1), (2, 0), (4, 3)],
        seq![(2, 3), (0, 3), (1, 3), (3, 3)],
        seq![(2, 1), (3, 1), (1, 1), (0, 1)],
    ][face][slot]
}

/// Each edge is shared by two faces that walk it in opposite directions:
/// the face across an edge joins the same two corners the other way round,
/// and no second face edge joins them the same way round.
pub proof fn lemma_edges_are_shared(face: int, slot: int)
    requires
        0 <= face < FACE_COUNT,
        0 <= slot < FACE_EDGES,
    ensures
        0 <= across(face, slot).0 < FACE_COUNT,
        0 <= across(face, slot).1 < FACE_EDGES,
        across(face, slot).0 != face,
        face_edge(across(face, slot).0, across(face, slot).1) == (
            face_edge(face, slot).1,
            face_edge(face, slot).0,
        ),
        across(across(face, slot).0, across(face, slot).1) == (face, slot),
        forall|other: int, same: int|
            0 <= other < FACE_COUNT && 0 <= same < FACE_EDGES && #[trigger] face_edge(other, same)
                == face_edge(face, slot) ==> other == face && same == slot,
{
}

} // verus!
