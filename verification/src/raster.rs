//! Drawing the projected cube into a frame buffer.
//!
//! A frame is drawn in a fixed order: first a marker at every projected
//! corner, then the edges of the faces, face by face and, within a face, in
//! the order of its loop. A corner whose projection is undefined is handed
//! in as `None`; it gets no marker and no edge that ends at it is drawn.

use vstd::prelude::*;
use crate::buffer::{
    lemma_paint_cells, lemma_paint_nothing, lemma_paint_union, lemma_union_step, paint, union_of,
    FrameBuffer, Glyph,
};
use crate::line::{draw_line, lemma_segment_symmetric, segment, Pixel};
use crate::scene::{
    across, edge, face_edge, lemma_edges_are_shared, FACE_COUNT, FACE_EDGES, VERTEX_COUNT,
};

verus! {

/// Where corner `corner` leaves its marker: its own position, or nowhere if
/// it has none.
pub open spec fn marker_cell(points: Seq<Option<Pixel>>, corner: int) -> Set<(int, int)> {
    match points[corner] {
        Some(at) => set![at@],
        None => Set::empty(),
    }
}

/// The markers corner by corner.
pub open spec fn markers_of(points: Seq<Option<Pixel>>) -> spec_fn(int) -> Set<(int, int)> {
    |corner: int| marker_cell(points, corner)
}

/// The markers of the first `count` corners.
pub open spec fn marker_cells_upto(points: Seq<Option<Pixel>>, count: int) -> Set<(int, int)> {
    union_of(markers_of(points), 0, count)
}

/// The markers of all corners.
pub open spec fn marker_cells(points: Seq<Option<Pixel>>) -> Set<(int, int)> {
    marker_cells_upto(points, VERTEX_COUNT as int)
}

/// The cells of edge `slot` of face `face`: the segment between its two
/// corners, or nothing if either corner has no position.
pub open spec fn edge_cells(points: Seq<Option<Pixel>>, face: int, slot: int) -> Set<(int, int)> {
    let ends = face_edge(face, slot);
    match (points[ends.0], points[ends.1]) {
        (Some(from), Some(to)) => segment(from@, to@),
        _ => Set::empty(),
    }
}

/// The cells of face `face` edge by edge.
pub open spec fn edges_of(points: Seq<Option<Pixel>>, face: int) -> spec_fn(int) -> Set<
    (int, int),
> {
    |slot: int| edge_cells(points, face, slot)
}

/// The cells of the first `count` edges of face `face`.
pub open spec fn face_cells_upto(points: Seq<Option<Pixel>>, face: int, count: int) -> Set<
    (int, int),
> {
    union_of(edges_of(points, face), 0, count)
}

/// The cells of the four edges of face `face`.
pub open spec fn face_cells(points: Seq<Option<Pixel>>, face: int) -> Set<(int, int)> {
    face_cells_upto(points, face, FACE_EDGES as int)
}

/// The cells of the wireframe face by face.
pub open spec fn faces_of(points: Seq<Option<Pixel>>) -> spec_fn(int) -> Set<(int, int)> {
    |face: int| face_cells(points, face)
}

/// The cells of the edges of the first `count` faces.
pub open spec fn wireframe_cells_upto(points: Seq<Option<Pixel>>, count: int) -> Set<(int, int)> {
    union_of(faces_of(points), 0, count)
}

/// The cells of all edges of all six faces.
pub open spec fn wireframe_cells(points: Seq<Option<Pixel>>) -> Set<(int, int)> {
    wireframe_cells_upto(points, FACE_COUNT as int)
}

/// A frame: `grid` with the markers painted first and the edges over them.
pub open spec fn rasterized(grid: Seq<Seq<Glyph>>, points: Seq<Option<Pixel>>) -> Seq<Seq<Glyph>> {
    paint(
        paint(grid, marker_cells(points), Glyph::Marker),
        wireframe_cells(points),
        Glyph::Line,
    )
}

/// Drawing a frame never reaches outside the grid: the result has the
/// shape of the grid it was drawn over, and each of its cells shows a line
/// where an edge passes, else a marker where a corner lies, else what was
/// there before.
pub proof fn lemma_rasterized_cells(grid: Seq<Seq<Glyph>>, points: Seq<Option<Pixel>>)
    ensures
        rasterized(grid, points).len() == grid.len(),
        forall|y: int|
            0 <= y < grid.len() ==> (#[trigger] rasterized(grid, points)[y]).len() == grid[y].len(),
        forall|x: int, y: int|
            0 <= y < grid.len() && 0 <= x < grid[y].len() ==> #[trigger] rasterized(
                grid,
                points,
            )[y][x] == if wireframe_cells(points).contains((x, y)) {
                Glyph::Line
            } else if marker_cells(points).contains((x, y)) {
                Glyph::Marker
            } else {
                grid[y][x]
            },
{
    let marked = paint(grid, marker_cells(points), Glyph::Marker);
    lemma_paint_cells(grid, marker_cells(points), Glyph::Marker);
    lemma_paint_cells(marked, wireframe_cells(points), Glyph::Line);
}

/// The edges of a face form a closed loop: the face is drawn as exactly
/// its four edges, each edge starts at the corner where the one before it
/// ended, and the last edge ends at the corner where the first started.
pub proof fn lemma_face_loop(points: Seq<Option<Pixel>>, face: int)
    requires
        0 <= face < FACE_COUNT,
    ensures
        face_cells(points, face) == edge_cells(points, face, 0).union(
            edge_cells(points, face, 1),
        ).union(edge_cells(points, face, 2)).union(edge_cells(points, face, 3)),
        forall|slot: int|
            0 <= slot < FACE_EDGES ==> (#[trigger] face_edge(face, slot)).1 == face_edge(
                face,
                (slot + 1) % 4,
            ).0,
{
    lemma_union_step(edges_of(points, face), 0, 0);
    lemma_union_step(edges_of(points, face), 0, 1);
    lemma_union_step(edges_of(points, face), 0, 2);
    lemma_union_step(edges_of(points, face), 0, 3);
    assert(Set::<(int, int)>::empty().union(edge_cells(points, face, 0)) =~= edge_cells(
        points,
        face,
        0,
    ));
}

/// An edge that two faces share covers the same cells from either face,
/// so drawing it a second time changes nothing.
pub proof fn lemma_shared_edge(points: Seq<Option<Pixel>>, face: int, slot: int)
    requires
        0 <= face < FACE_COUNT,
        0 <= slot < FACE_EDGES,
    ensures
        edge_cells(points, across(face, slot).0, across(face, slot).1) == edge_cells(
            points,
            face,
            slot,
        ),
{
    lemma_edges_are_shared(face, slot);
    let ends = face_edge(face, slot);
    match (points[ends.0], points[ends.1]) {
        (Some(from), Some(to)) => {
            lemma_segment_symmetric(from@, to@);
        },
        _ => {},
    }
}

/// Writes a marker at the position of every corner that has one and that
/// lies inside the grid.
pub fn plot_markers(buf: &mut FrameBuffer, points: &[Option<Pixel>; 8])
    requires
        old(buf).wf(),
    ensures
        final(buf).wf(),
        final(buf).cols() == old(buf).cols(),
        final(buf).rows() == old(buf).rows(),
        final(buf)@ == paint(old(buf)@, marker_cells(points@), Glyph::Marker),
{
    proof {
        lemma_union_step(markers_of(points@), 0, 0);
        lemma_paint_nothing(buf@, Glyph::Marker);
    }
    let mut corner: usize = 0;
    while corner < VERTEX_COUNT
        invariant
            corner <= VERTEX_COUNT,
            buf.wf(),
            buf.cols() == old(buf).cols(),
            buf.rows() == old(buf).rows(),
            buf@ == paint(old(buf)@, marker_cells_upto(points@, corner as int), Glyph::Marker),
        decreases VERTEX_COUNT - corner,
    {
        proof {
            lemma_union_step(markers_of(points@), 0, corner as int);
            lemma_paint_union(
                old(buf)@,
                marker_cells_upto(points@, corner as int),
                marker_cell(points@, corner as int),
                Glyph::Marker,
            );
            lemma_paint_nothing(buf@, Glyph::Marker);
        }
        match points[corner] {
            Some(at) => {
                buf.plot(at.x, at.y, Glyph::Marker);
            },
            None => {},
        }
        corner += 1;
    }
}

/// Draws edge `slot` of face `face` as a line between the positions of its
/// two corners. Nothing is drawn if either corner has no position.
pub fn draw_edge(buf: &mut FrameBuffer, points: &[Option<Pixel>; 8], face: usize, slot: usize)
    requires
        old(buf).wf(),
        face < FACE_COUNT,
        slot < FACE_EDGES,
    ensures
        final(buf).wf(),
        final(buf).cols() == old(buf).cols(),
        final(buf).rows() == old(buf).rows(),
        final(buf)@ == paint(old(buf)@, edge_cells(points@, face as int, slot as int), Glyph::Line),
{
    let ends = edge(face, slot);
    match (points[ends.0], points[ends.1]) {
        (Some(from), Some(to)) => {
            draw_line(buf, from, to, Glyph::Line);
        },
        _ => {
            proof {
                lemma_paint_nothing(buf@, Glyph::Line);
            }
        },
    }
}

/// Draws the four edges of face `face` in the order of its loop, the last
/// one closing the loop back to the first corner.
pub fn draw_face(buf: &mut FrameBuffer, points: &[Option<Pixel>; 8], face: usize)
    requires
        old(buf).wf(),
        face < FACE_COUNT,
    ensures
        final(buf).wf(),
        final(buf).cols() == old(buf).cols(),
        final(buf).rows() == old(buf).rows(),
        final(buf)@ == paint(old(buf)@, face_cells(points@, face as int), Glyph::Line),
{
    proof {
        lemma_union_step(edges_of(points@, face as int), 0, 0);
        lemma_paint_nothing(buf@, Glyph::Line);
    }
    let mut slot: usize = 0;
    while slot < FACE_EDGES
        invariant
            face < FACE_COUNT,
            slot <= FACE_EDGES,
            buf.wf(),
            buf.cols() == old(buf).cols(),
            buf.rows() == old(buf).rows(),
            buf@ == paint(
                old(buf)@,
                face_cells_upto(points@, face as int, slot as int),
                Glyph::Line,
            ),
        decreases FACE_EDGES - slot,
    {
        proof {
            lemma_union_step(edges_of(points@, face as int), 0, slot as int);
            lemma_paint_union(
                old(buf)@,
                face_cells_upto(points@, face as int, slot as int),
                edge_cells(points@, face as int, slot as int),
                Glyph::Line,
            );
        }
        draw_edge(buf, points, face, slot);
        slot += 1;
    }
}

/// Draws all twenty-four face edges, face by face. An edge shared by two
/// faces is drawn twice.
pub fn draw_wireframe(buf: &mut FrameBuffer, points: &[Option<Pixel>; 8])
    requires
        old(buf).wf(),
    ensures
        final(buf).wf(),
        final(buf).cols() == old(buf).cols(),
        final(buf).rows() == old(buf).rows(),
        final(buf)@ == paint(old(buf)@, wireframe_cells(points@), Glyph::Line),
{
    proof {
        lemma_union_step(faces_of(points@), 0, 0);
        lemma_paint_nothing(buf@, Glyph::Line);
    }
    let mut face: usize = 0;
    while face < FACE_COUNT
        invariant
            face <= FACE_COUNT,
            buf.wf(),
            buf.cols() == old(buf).cols(),
            buf.rows() == old(buf).rows(),
            buf@ == paint(old(buf)@, wireframe_cells_upto(points@, face as int), Glyph::Line),
        decreases FACE_COUNT - face,
    {
        proof {
            lemma_union_step(faces_of(points@), 0, face as int);
            lemma_paint_union(
                old(buf)@,
                wireframe_cells_upto(points@, face as int),
                face_cells(points@, face as int),
                Glyph::Line,
            );
        }
        draw_face(buf, points, face);
        face += 1;
    }
}

/// Draws one frame over what the buffer holds: the corner markers, then
/// the wireframe on top of them.
pub fn rasterize(buf: &mut FrameBuffer, points: &[Option<Pixel>; 8])
    requires
        old(buf).wf(),
    ensures
        final(buf).wf(),
        final(buf).cols() == old(buf).cols(),
        final(buf).rows() == old(buf).rows(),
        final(buf)@ == rasterized(old(buf)@, points@),
{
    plot_markers(buf, points);
    draw_wireframe(buf, points);
}

} // verus!
