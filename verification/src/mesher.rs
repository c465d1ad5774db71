//! The greedy surface mesher: turns a chunk and a partial map of its six
//! neighbours into the minimal set of axis-aligned rectangular faces.
//!
//! The algorithm sweeps the chunk once per axis and direction (six passes).
//! Each pass visits local coordinates in a fixed nested order (x outermost,
//! then y, then z); an unvisited voxel whose face is visible grows a
//! rectangle greedily — first along the first in-plane axis, then row by row
//! along the second — emits one quad, and marks the covered cells visited.
//! The whole pass is mirrored by spec functions below, so the executable
//! mesher is proved to return exactly the sequence those functions denote;
//! determinism is a consequence.

use vstd::prelude::*;

use crate::chunk::{Chunk, ChunkView};
use crate::coords::{coord_to_index, flat_index, in_bounds, lemma_flat_index_in_range, lemma_flat_index_injective, volume, UVec2, UVec3};
use crate::mesh::{Axis, Direction, Mesh, Quad};
use crate::voxel::Voxel;

verus! {

/// Which of the two complementary surface families a meshing pass builds.
///
/// `Opaque` meshes solid voxels, a face being visible when the cell behind it
/// is not solid; `Transparent` meshes liquid voxels, a face being visible
/// only against air.
#[derive(Clone, Copy, Debug, PartialEq, Eq, Structural)]
pub enum MeshKind {
    Opaque,
    Transparent,
}

impl MeshKind {
    pub open spec fn spec_should_mesh(self, v: Voxel) -> bool {
        match self {
            MeshKind::Opaque => v.spec_is_solid(),
            MeshKind::Transparent => v.spec_is_liquid(),
        }
    }

    /// Whether a voxel's faces are candidate surfaces for this pass.
    #[verifier::when_used_as_spec(spec_should_mesh)]
    pub fn should_mesh(self, v: Voxel) -> (r: bool)
        ensures
            r == self.spec_should_mesh(v),
    {
        match self {
            MeshKind::Opaque => v.is_solid(),
            MeshKind::Transparent => v.is_liquid(),
        }
    }

    pub open spec fn spec_is_open(self, v: Voxel) -> bool {
        match self {
            MeshKind::Opaque => !v.spec_is_solid(),
            MeshKind::Transparent => v.spec_is_air(),
        }
    }

    /// Whether the voxel on the far side of a candidate face leaves it visible.
    #[verifier::when_used_as_spec(spec_is_open)]
    pub fn is_open(self, v: Voxel) -> (r: bool)
        ensures
            r == self.spec_is_open(v),
    {
        match self {
            MeshKind::Opaque => !v.is_solid(),
            MeshKind::Transparent => v.is_air(),
        }
    }
}

/// The mathematical value of a neighbour map: for each of the six unit
/// directions, the adjacent chunk if it is known.
pub ghost struct NeighboursView {
    pub pos_x: Option<ChunkView>,
    pub neg_x: Option<ChunkView>,
    pub pos_y: Option<ChunkView>,
    pub neg_y: Option<ChunkView>,
    pub pos_z: Option<ChunkView>,
    pub neg_z: Option<ChunkView>,
}

pub open spec fn neighbour_entry_wf(entry: Option<ChunkView>, size: UVec3) -> bool {
    match entry {
        Some(c) => c.wf() && c.size == size,
        None => true,
    }
}

impl NeighboursView {
    /// The entry for the given unit direction.
    pub open spec fn entry(self, axis: Axis, direction: Direction) -> Option<ChunkView> {
        match (axis, direction) {
            (Axis::X, Direction::Positive) => self.pos_x,
            (Axis::X, Direction::Negative) => self.neg_x,
            (Axis::Y, Direction::Positive) => self.pos_y,
            (Axis::Y, Direction::Negative) => self.neg_y,
            (Axis::Z, Direction::Positive) => self.pos_z,
            (Axis::Z, Direction::Negative) => self.neg_z,
        }
    }

    /// Every present neighbour is well formed and has the world's uniform
    /// chunk size.
    pub open spec fn wf(self, size: UVec3) -> bool {
        &&& neighbour_entry_wf(self.pos_x, size)
        &&& neighbour_entry_wf(self.neg_x, size)
        &&& neighbour_entry_wf(self.pos_y, size)
        &&& neighbour_entry_wf(self.neg_y, size)
        &&& neighbour_entry_wf(self.pos_z, size)
        &&& neighbour_entry_wf(self.neg_z, size)
    }
}

/// A partial map from the six unit directions to the adjacent chunks, as a
/// meshing worker receives it: owned read-only snapshots, not live references.
pub struct ChunkNeighbours {
    pos_x: Option<Chunk>,
    neg_x: Option<Chunk>,
    pos_y: Option<Chunk>,
    neg_y: Option<Chunk>,
    pos_z: Option<Chunk>,
    neg_z: Option<Chunk>,
}

pub open spec fn option_chunk_view(o: &Option<Chunk>) -> Option<ChunkView> {
    match o {
        Some(c) => Some(c@),
        None => None,
    }
}

impl View for ChunkNeighbours {
    type V = NeighboursView;

    closed spec fn view(&self) -> NeighboursView {
        NeighboursView {
            pos_x: option_chunk_view(&self.pos_x),
            neg_x: option_chunk_view(&self.neg_x),
            pos_y: option_chunk_view(&self.pos_y),
            neg_y: option_chunk_view(&self.neg_y),
            pos_z: option_chunk_view(&self.pos_z),
            neg_z: option_chunk_view(&self.neg_z),
        }
    }
}

impl ChunkNeighbours {
    /// An empty neighbour map: no neighbour known in any direction.
    pub fn new() -> (r: ChunkNeighbours)
        ensures
            forall|a: Axis, d: Direction| #[trigger] r@.entry(a, d) is None,
    {
        ChunkNeighbours {
            pos_x: None,
            neg_x: None,
            pos_y: None,
            neg_y: None,
            pos_z: None,
            neg_z: None,
        }
    }

    /// A neighbour map from its six entries.
    pub fn from_parts(
        pos_x: Option<Chunk>,
        neg_x: Option<Chunk>,
        pos_y: Option<Chunk>,
        neg_y: Option<Chunk>,
        pos_z: Option<Chunk>,
        neg_z: Option<Chunk>,
    ) -> (r: ChunkNeighbours)
        ensures
            r@ == (NeighboursView {
                pos_x: option_chunk_view(&pos_x),
                neg_x: option_chunk_view(&neg_x),
                pos_y: option_chunk_view(&pos_y),
                neg_y: option_chunk_view(&neg_y),
                pos_z: option_chunk_view(&pos_z),
                neg_z: option_chunk_view(&neg_z),
            }),
    {
        ChunkNeighbours { pos_x, neg_x, pos_y, neg_y, pos_z, neg_z }
    }

    /// Records the chunk adjacent in the given unit direction.
    pub fn set(&mut self, axis: Axis, direction: Direction, chunk: Chunk)
        ensures
            final(self)@.entry(axis, direction) == Some(chunk@),
            forall|a: Axis, d: Direction|
                (a, d) != (axis, direction) ==> #[trigger] final(self)@.entry(a, d)
                    == old(self)@.entry(a, d),
    {
        match (axis, direction) {
            (Axis::X, Direction::Positive) => self.pos_x = Some(chunk),
            (Axis::X, Direction::Negative) => self.neg_x = Some(chunk),
            (Axis::Y, Direction::Positive) => self.pos_y = Some(chunk),
            (Axis::Y, Direction::Negative) => self.neg_y = Some(chunk),
            (Axis::Z, Direction::Positive) => self.pos_z = Some(chunk),
            (Axis::Z, Direction::Negative) => self.neg_z = Some(chunk),
        }
    }

    /// The chunk adjacent in the given unit direction, if known.
    pub fn get(&self, axis: Axis, direction: Direction) -> (r: Option<&Chunk>)
        ensures
            (match r {
                Some(c) => self@.entry(axis, direction) == Some(c@),
                None => self@.entry(axis, direction) is None,
            }),
    {
        match (axis, direction) {
            (Axis::X, Direction::Positive) => self.pos_x.as_ref(),
            (Axis::X, Direction::Negative) => self.neg_x.as_ref(),
            (Axis::Y, Direction::Positive) => self.pos_y.as_ref(),
            (Axis::Y, Direction::Negative) => self.neg_y.as_ref(),
            (Axis::Z, Direction::Positive) => self.pos_z.as_ref(),
            (Axis::Z, Direction::Negative) => self.neg_z.as_ref(),
        }
    }
}

// ------------------------------------------------------------------
// The specification of one greedy pass.
// ------------------------------------------------------------------

/// Length of the first in-plane axis of a pass (the axis rectangles grow
/// along first).
pub open spec fn u_len(axis: Axis, size: UVec3) -> int {
    match axis {
        Axis::X => size.y as int,
        Axis::Y => size.x as int,
        Axis::Z => size.x as int,
    }
}

/// Length of the second in-plane axis of a pass.
pub open spec fn v_len(axis: Axis, size: UVec3) -> int {
    match axis {
        Axis::X => size.z as int,
        Axis::Y => size.z as int,
        Axis::Z => size.y as int,
    }
}

/// The first in-plane coordinate of a cell.
pub open spec fn u_of(axis: Axis, x: int, y: int, z: int) -> int {
    match axis {
        Axis::X => y,
        Axis::Y => x,
        Axis::Z => x,
    }
}

/// The second in-plane coordinate of a cell.
pub open spec fn v_of(axis: Axis, x: int, y: int, z: int) -> int {
    match axis {
        Axis::X => z,
        Axis::Y => z,
        Axis::Z => y,
    }
}

/// The cell reached from `(x, y, z)` by moving `du` along the first in-plane
/// axis and `dv` along the second.
pub open spec fn cell_plus(axis: Axis, x: int, y: int, z: int, du: int, dv: int) -> (int, int, int) {
    match axis {
        Axis::X => (x, y + du, z + dv),
        Axis::Y => (x + du, y, z + dv),
        Axis::Z => (x + du, y + dv, z),
    }
}

/// The coordinate in the adjacent chunk that continues `(x, y, z)` across the
/// chunk boundary: the out-of-range axis maps to the opposite edge of the
/// neighbour.
pub open spec fn wrapped_cell(size: UVec3, x: int, y: int, z: int, axis: Axis, direction: Direction)
    -> (int, int, int) {
    match (axis, direction) {
        (Axis::X, Direction::Positive) => (0, y, z),
        (Axis::X, Direction::Negative) => (size.x - 1, y, z),
        (Axis::Y, Direction::Positive) => (x, 0, z),
        (Axis::Y, Direction::Negative) => (x, size.y - 1, z),
        (Axis::Z, Direction::Positive) => (x, y, 0),
        (Axis::Z, Direction::Negative) => (x, y, size.z - 1),
    }
}

/// Whether a face on the chunk boundary is visible: only if the neighbour in
/// that direction is known and its adjoining voxel is open. An absent
/// neighbour covers the face — a deliberate policy, corrected by a re-mesh
/// once the neighbour exists.
pub open spec fn boundary_visible(
    c: ChunkView,
    n: NeighboursView,
    k: MeshKind,
    x: int, y: int, z: int,
    axis: Axis,
    direction: Direction,
) -> bool {
    match n.entry(axis, direction) {
        None => false,
        Some(nc) => {
            let (wx, wy, wz) = wrapped_cell(c.size, x, y, z, axis, direction);
            match nc.get(wx, wy, wz) {
                Some(v) => k.spec_is_open(v),
                None => false,
            }
        },
    }
}

/// Whether the face of the voxel at `(x, y, z)` facing `(axis, direction)` is
/// visible: tested against the cell behind it, inside the chunk or in the
/// neighbour across the boundary.
pub open spec fn face_visible(
    c: ChunkView,
    n: NeighboursView,
    k: MeshKind,
    x: int, y: int, z: int,
    axis: Axis,
    direction: Direction,
) -> bool {
    let normal = axis.spec_normal(direction);
    let nx = x + normal.x;
    let ny = y + normal.y;
    let nz = z + normal.z;
    if in_bounds(nx, ny, nz, c.size) {
        k.spec_is_open(c.vox(nx, ny, nz))
    } else {
        boundary_visible(c, n, k, x, y, z, axis, direction)
    }
}

/// Whether the rectangle rooted at `(x, y, z)` may take in the cell at offset
/// `(du, dv)`: that cell is unvisited in this pass and holds the same voxel
/// value as the root.
pub open spec fn extend_ok(
    c: ChunkView,
    visited: Seq<bool>,
    x: int, y: int, z: int,
    axis: Axis,
    du: int, dv: int,
) -> bool {
    let (cx, cy, cz) = cell_plus(axis, x, y, z, du, dv);
    &&& !visited[flat_index(cx, cy, cz, c.size)]
    &&& c.vox(cx, cy, cz) == c.vox(x, y, z)
}

/// The width the rectangle reaches along the first in-plane axis, growing
/// from a current width of `w`.
pub open spec fn width_from(
    c: ChunkView,
    visited: Seq<bool>,
    x: int, y: int, z: int,
    axis: Axis,
    w: int,
) -> int
    decreases u_len(axis, c.size) - u_of(axis, x, y, z) - w,
{
    if u_of(axis, x, y, z) + w < u_len(axis, c.size) && extend_ok(c, visited, x, y, z, axis, w, 0) {
        width_from(c, visited, x, y, z, axis, w + 1)
    } else {
        w
    }
}

/// The width of the greedily grown rectangle rooted at `(x, y, z)`.
pub open spec fn grown_width(c: ChunkView, visited: Seq<bool>, x: int, y: int, z: int, axis: Axis)
    -> int {
    width_from(c, visited, x, y, z, axis, 1)
}

/// Whether the entire row at second-axis offset `dv` matches the rectangle's
/// root over its full width `w`.
pub open spec fn row_ok(
    c: ChunkView,
    visited: Seq<bool>,
    x: int, y: int, z: int,
    axis: Axis,
    w: int,
    dv: int,
) -> bool {
    forall|du: int| 0 <= du < w ==> extend_ok(c, visited, x, y, z, axis, du, dv)
}

/// The height the rectangle reaches along the second in-plane axis, growing
/// row by row from a current height of `h`; a row is taken only when it
/// matches over the whole width.
pub open spec fn height_from(
    c: ChunkView,
    visited: Seq<bool>,
    x: int, y: int, z: int,
    axis: Axis,
    w: int,
    h: int,
) -> int
    decreases v_len(axis, c.size) - v_of(axis, x, y, z) - h,
{
    if v_of(axis, x, y, z) + h < v_len(axis, c.size) && row_ok(c, visited, x, y, z, axis, w, h) {
        height_from(c, visited, x, y, z, axis, w, h + 1)
    } else {
        h
    }
}

/// The height of the greedily grown rectangle of width `w`.
pub open spec fn grown_height(
    c: ChunkView,
    visited: Seq<bool>,
    x: int, y: int, z: int,
    axis: Axis,
    w: int,
) -> int {
    height_from(c, visited, x, y, z, axis, w, 1)
}

/// The visited set after marking the first `m` cells of the `w` by `h`
/// rectangle rooted at `(x, y, z)`, in the order the pass marks them: the
/// first in-plane offset outermost, the second innermost.
pub open spec fn mark_cells(
    size: UVec3,
    visited: Seq<bool>,
    x: int, y: int, z: int,
    axis: Axis,
    h: int,
    m: int,
) -> Seq<bool>
    decreases m,
{
    if m <= 0 {
        visited
    } else {
        let prev = mark_cells(size, visited, x, y, z, axis, h, m - 1);
        let (cx, cy, cz) = cell_plus(axis, x, y, z, (m - 1) / h, (m - 1) % h);
        prev.update(flat_index(cx, cy, cz, size), true)
    }
}

/// The state a pass threads through its sweep: the quads emitted so far and
/// the per-pass visited set, indexed by flattened local coordinate.
pub ghost struct PassState {
    pub quads: Seq<Quad>,
    pub visited: Seq<bool>,
}

/// The state a pass starts from: no quads, nothing visited.
pub open spec fn pass_init(size: UVec3) -> PassState {
    PassState { quads: Seq::empty(), visited: Seq::new(volume(size) as nat, |i: int| false) }
}

/// The quad emitted for the rectangle rooted at `(x, y, z)`: on the far face
/// for a positive direction, at the root for a negative one, coloured by the
/// root voxel.
pub open spec fn face_quad(
    c: ChunkView,
    x: int, y: int, z: int,
    axis: Axis,
    direction: Direction,
    w: int,
    h: int,
) -> Quad {
    let position = match direction {
        Direction::Positive => {
            let normal = axis.spec_normal(direction);
            UVec3 { x: (x + normal.x) as u32, y: (y + normal.y) as u32, z: (z + normal.z) as u32 }
        },
        Direction::Negative => UVec3 { x: x as u32, y: y as u32, z: z as u32 },
    };
    Quad {
        position,
        size: UVec2 { x: w as u32, y: h as u32 },
        axis,
        direction,
        color: c.vox(x, y, z).spec_color(),
    }
}

/// One step of the sweep: processing the cell `(x, y, z)`. A visited cell, a
/// voxel that is no candidate, and an invisible face are all skipped; a
/// visible face grows its rectangle, emits one quad and marks what it covers.
pub open spec fn pass_step(
    c: ChunkView,
    n: NeighboursView,
    k: MeshKind,
    axis: Axis,
    direction: Direction,
    st: PassState,
    x: int, y: int, z: int,
) -> PassState {
    if st.visited[flat_index(x, y, z, c.size)] {
        st
    } else if !k.spec_should_mesh(c.vox(x, y, z)) {
        st
    } else if !face_visible(c, n, k, x, y, z, axis, direction) {
        st
    } else {
        let w = grown_width(c, st.visited, x, y, z, axis);
        let h = grown_height(c, st.visited, x, y, z, axis, w);
        PassState {
            quads: st.quads.push(face_quad(c, x, y, z, axis, direction, w, h)),
            visited: mark_cells(c.size, st.visited, x, y, z, axis, h, w * h),
        }
    }
}

/// The sweep over the first `nz` cells of the row `(x, y, _)`.
pub open spec fn sweep_z(
    c: ChunkView,
    n: NeighboursView,
    k: MeshKind,
    axis: Axis,
    direction: Direction,
    st: PassState,
    x: int, y: int,
    nz: int,
) -> PassState
    decreases nz,
{
    if nz <= 0 {
        st
    } else {
        pass_step(
            c, n, k, axis, direction,
            sweep_z(c, n, k, axis, direction, st, x, y, nz - 1),
            x, y, nz - 1,
        )
    }
}

/// The sweep over the first `ny` rows of the layer at `x`.
pub open spec fn sweep_y(
    c: ChunkView,
    n: NeighboursView,
    k: MeshKind,
    axis: Axis,
    direction: Direction,
    st: PassState,
    x: int,
    ny: int,
) -> PassState
    decreases ny,
{
    if ny <= 0 {
        st
    } else {
        sweep_z(
            c, n, k, axis, direction,
            sweep_y(c, n, k, axis, direction, st, x, ny - 1),
            x, ny - 1,
            c.size.z as int,
        )
    }
}

/// The sweep over the first `nx` layers of the chunk.
pub open spec fn sweep_x(
    c: ChunkView,
    n: NeighboursView,
    k: MeshKind,
    axis: Axis,
    direction: Direction,
    st: PassState,
    nx: int,
) -> PassState
    decreases nx,
{
    if nx <= 0 {
        st
    } else {
        sweep_y(
            c, n, k, axis, direction,
            sweep_x(c, n, k, axis, direction, st, nx - 1),
            nx - 1,
            c.size.y as int,
        )
    }
}

/// The quads one pass over the whole chunk emits, in emission order.
pub open spec fn pass_quads(
    c: ChunkView,
    n: NeighboursView,
    k: MeshKind,
    axis: Axis,
    direction: Direction,
) -> Seq<Quad> {
    sweep_x(c, n, k, axis, direction, pass_init(c.size), c.size.x as int).quads
}

/// The full greedy mesh for one predicate pair: the quads of the six passes,
/// axes in the order X, Y, Z, the positive direction before the negative.
pub open spec fn greedy_mesh_quads(c: ChunkView, n: NeighboursView, k: MeshKind) -> Seq<Quad> {
    pass_quads(c, n, k, Axis::X, Direction::Positive)
        + pass_quads(c, n, k, Axis::X, Direction::Negative)
        + pass_quads(c, n, k, Axis::Y, Direction::Positive)
        + pass_quads(c, n, k, Axis::Y, Direction::Negative)
        + pass_quads(c, n, k, Axis::Z, Direction::Positive)
        + pass_quads(c, n, k, Axis::Z, Direction::Negative)
}

// ------------------------------------------------------------------
// The executable mesher.
// ------------------------------------------------------------------

proof fn lemma_cell_plus_in_bounds(size: UVec3, x: int, y: int, z: int, axis: Axis, du: int, dv: int)
    requires
        in_bounds(x, y, z, size),
        0 <= du,
        u_of(axis, x, y, z) + du < u_len(axis, size),
        0 <= dv,
        v_of(axis, x, y, z) + dv < v_len(axis, size),
    ensures
        ({
            let (cx, cy, cz) = cell_plus(axis, x, y, z, du, dv);
            in_bounds(cx, cy, cz, size)
        }),
{
}

/// The cell reached from `position` by the given in-plane offsets.
fn cell_at(position: UVec3, axis: Axis, du: u32, dv: u32) -> (r: UVec3)
    requires
        ({
            let (cx, cy, cz) = cell_plus(
                axis,
                position.x as int,
                position.y as int,
                position.z as int,
                du as int,
                dv as int,
            );
            cx <= u32::MAX && cy <= u32::MAX && cz <= u32::MAX
        }),
    ensures
        (r.x as int, r.y as int, r.z as int) == cell_plus(
            axis,
            position.x as int,
            position.y as int,
            position.z as int,
            du as int,
            dv as int,
        ),
{
    match axis {
        Axis::X => UVec3::new(position.x, position.y + du, position.z + dv),
        Axis::Y => UVec3::new(position.x + du, position.y, position.z + dv),
        Axis::Z => UVec3::new(position.x + du, position.y + dv, position.z),
    }
}

/// Whether the face of the voxel at `position`, which lies on the chunk
/// boundary in the given direction, is visible against the neighbouring
/// chunk; an absent neighbour covers the face.
fn voxel_has_neighbour(
    chunk: &Chunk,
    neighbours: &ChunkNeighbours,
    position: UVec3,
    axis: Axis,
    direction: Direction,
    kind: MeshKind,
) -> (r: bool)
    requires
        chunk@.wf(),
        neighbours@.wf(chunk@.size),
        in_bounds(position.x as int, position.y as int, position.z as int, chunk@.size),
    ensures
        r == boundary_visible(
            chunk@,
            neighbours@,
            kind,
            position.x as int,
            position.y as int,
            position.z as int,
            axis,
            direction,
        ),
{
    let size = chunk.size();
    match neighbours.get(axis, direction) {
        None => false,
        Some(neighbour) => {
            let wrapped = match (axis, direction) {
                (Axis::X, Direction::Positive) => UVec3::new(0, position.y, position.z),
                (Axis::X, Direction::Negative) => UVec3::new(size.x - 1, position.y, position.z),
                (Axis::Y, Direction::Positive) => UVec3::new(position.x, 0, position.z),
                (Axis::Y, Direction::Negative) => UVec3::new(position.x, size.y - 1, position.z),
                (Axis::Z, Direction::Positive) => UVec3::new(position.x, position.y, 0),
                (Axis::Z, Direction::Negative) => UVec3::new(position.x, position.y, size.z - 1),
            };
            match neighbour.get_voxel(wrapped) {
                Some(v) => kind.is_open(v),
                None => false,
            }
        },
    }
}

/// Whether the face of the voxel at `position` facing `(axis, direction)` is
/// visible, resolving the cell behind it inside the chunk or across the
/// boundary.
fn face_visible_exec(
    chunk: &Chunk,
    neighbours: &ChunkNeighbours,
    position: UVec3,
    axis: Axis,
    direction: Direction,
    kind: MeshKind,
) -> (r: bool)
    requires
        chunk@.wf(),
        neighbours@.wf(chunk@.size),
        in_bounds(position.x as int, position.y as int, position.z as int, chunk@.size),
    ensures
        r == face_visible(
            chunk@,
            neighbours@,
            kind,
            position.x as int,
            position.y as int,
            position.z as int,
            axis,
            direction,
        ),
{
    let size = chunk.size();
    let normal = axis.get_normal(direction);
    let nx: i64 = position.x as i64 + normal.x as i64;
    let ny: i64 = position.y as i64 + normal.y as i64;
    let nz: i64 = position.z as i64 + normal.z as i64;
    if 0 <= nx && nx < size.x as i64 && 0 <= ny && ny < size.y as i64 && 0 <= nz
        && nz < size.z as i64 {
        match chunk.get_voxel(UVec3::new(nx as u32, ny as u32, nz as u32)) {
            Some(v) => kind.is_open(v),
            None => {
                proof {
                    assert(false);
                }
                false
            },
        }
    } else {
        voxel_has_neighbour(chunk, neighbours, position, axis, direction, kind)
    }
}

/// Grows the rectangle rooted at `position` along the first in-plane axis:
/// extends while the next cell is in bounds, unvisited, and holds the same
/// voxel value.
#[verifier::loop_isolation(false)]
fn grow_width(chunk: &Chunk, marks: &Vec<bool>, position: UVec3, axis: Axis) -> (w: u32)
    requires
        chunk@.wf(),
        marks@.len() == volume(chunk@.size),
        in_bounds(position.x as int, position.y as int, position.z as int, chunk@.size),
    ensures
        w == grown_width(
            chunk@,
            marks@,
            position.x as int,
            position.y as int,
            position.z as int,
            axis,
        ),
        1 <= w,
        u_of(axis, position.x as int, position.y as int, position.z as int) + w <= u_len(
            axis,
            chunk@.size,
        ),
{
    let ghost c = chunk@;
    let ghost xi = position.x as int;
    let ghost yi = position.y as int;
    let ghost zi = position.z as int;
    let size = chunk.size();
    let base_voxel = match chunk.get_voxel(position) {
        Some(v) => v,
        None => Voxel::Air,
    };
    let u0: u32 = match axis {
        Axis::X => position.y,
        Axis::Y => position.x,
        Axis::Z => position.x,
    };
    let ul: u32 = match axis {
        Axis::X => size.y,
        Axis::Y => size.x,
        Axis::Z => size.x,
    };
    let mut w: u32 = 1;
    while (u0 as u64) + (w as u64) < (ul as u64)
        invariant
            c == chunk@,
            c.wf(),
            marks@.len() == volume(c.size),
            in_bounds(xi, yi, zi, c.size),
            base_voxel == c.vox(xi, yi, zi),
            u0 == u_of(axis, xi, yi, zi),
            ul == u_len(axis, c.size),
            1 <= w,
            u0 + w <= ul,
            width_from(c, marks@, xi, yi, zi, axis, w as int) == grown_width(
                c,
                marks@,
                xi,
                yi,
                zi,
                axis,
            ),
        decreases ul - u0 - w,
    {
        proof {
            lemma_cell_plus_in_bounds(c.size, xi, yi, zi, axis, w as int, 0);
        }
        let cell = cell_at(position, axis, w, 0);
        proof {
            lemma_flat_index_in_range(cell.x as int, cell.y as int, cell.z as int, c.size);
        }
        let idx = crate::coords::coord_to_index(cell, size);
        if marks[idx] {
            proof {
                assert(!extend_ok(c, marks@, xi, yi, zi, axis, w as int, 0));
            }
            return w;
        }
        let same = match chunk.get_voxel(cell) {
            Some(v) => v == base_voxel,
            None => false,
        };
        if !same {
            proof {
                assert(!extend_ok(c, marks@, xi, yi, zi, axis, w as int, 0));
            }
            return w;
        }
        proof {
            assert(extend_ok(c, marks@, xi, yi, zi, axis, w as int, 0));
            assert(width_from(c, marks@, xi, yi, zi, axis, w as int) == width_from(
                c,
                marks@,
                xi,
                yi,
                zi,
                axis,
                w as int + 1,
            ));
        }
        w = w + 1;
    }
    w
}

/// Whether the whole row at second-axis offset `dv` can join a rectangle of
/// width `w`: every cell of it is unvisited and matches the root voxel.
#[verifier::loop_isolation(false)]
fn row_matches(
    chunk: &Chunk,
    marks: &Vec<bool>,
    position: UVec3,
    axis: Axis,
    w: u32,
    dv: u32,
) -> (r: bool)
    requires
        chunk@.wf(),
        marks@.len() == volume(chunk@.size),
        in_bounds(position.x as int, position.y as int, position.z as int, chunk@.size),
        1 <= w,
        u_of(axis, position.x as int, position.y as int, position.z as int) + w <= u_len(
            axis,
            chunk@.size,
        ),
        v_of(axis, position.x as int, position.y as int, position.z as int) + dv < v_len(
            axis,
            chunk@.size,
        ),
    ensures
        r == row_ok(
            chunk@,
            marks@,
            position.x as int,
            position.y as int,
            position.z as int,
            axis,
            w as int,
            dv as int,
        ),
{
    let ghost c = chunk@;
    let ghost xi = position.x as int;
    let ghost yi = position.y as int;
    let ghost zi = position.z as int;
    let size = chunk.size();
    let base_voxel = match chunk.get_voxel(position) {
        Some(v) => v,
        None => Voxel::Air,
    };
    let mut du: u32 = 0;
    while du < w
        invariant
            c == chunk@,
            c.wf(),
            marks@.len() == volume(c.size),
            in_bounds(xi, yi, zi, c.size),
            base_voxel == c.vox(xi, yi, zi),
            du <= w,
            u_of(axis, xi, yi, zi) + w <= u_len(axis, c.size),
            v_of(axis, xi, yi, zi) + dv < v_len(axis, c.size),
            forall|j: int| 0 <= j < du ==> extend_ok(c, marks@, xi, yi, zi, axis, j, dv as int),
        decreases w - du,
    {
        proof {
            lemma_cell_plus_in_bounds(c.size, xi, yi, zi, axis, du as int, dv as int);
        }
        let cell = cell_at(position, axis, du, dv);
        proof {
            lemma_flat_index_in_range(cell.x as int, cell.y as int, cell.z as int, c.size);
        }
        let idx = crate::coords::coord_to_index(cell, size);
        if marks[idx] {
            proof {
                assert(!extend_ok(c, marks@, xi, yi, zi, axis, du as int, dv as int));
            }
            return false;
        }
        let same = match chunk.get_voxel(cell) {
            Some(v) => v == base_voxel,
            None => false,
        };
        if !same {
            proof {
                assert(!extend_ok(c, marks@, xi, yi, zi, axis, du as int, dv as int));
            }
            return false;
        }
        du = du + 1;
    }
    true
}

/// Grows the rectangle along the second in-plane axis: takes whole rows while
/// each matches the root over the full width, stopping at the first mismatch.
#[verifier::loop_isolation(false)]
fn grow_height(chunk: &Chunk, marks: &Vec<bool>, position: UVec3, axis: Axis, w: u32) -> (h: u32)
    requires
        chunk@.wf(),
        marks@.len() == volume(chunk@.size),
        in_bounds(position.x as int, position.y as int, position.z as int, chunk@.size),
        1 <= w,
        u_of(axis, position.x as int, position.y as int, position.z as int) + w <= u_len(
            axis,
            chunk@.size,
        ),
    ensures
        h == grown_height(
            chunk@,
            marks@,
            position.x as int,
            position.y as int,
            position.z as int,
            axis,
            w as int,
        ),
        1 <= h,
        v_of(axis, position.x as int, position.y as int, position.z as int) + h <= v_len(
            axis,
            chunk@.size,
        ),
{
    let ghost c = chunk@;
    let ghost xi = position.x as int;
    let ghost yi = position.y as int;
    let ghost zi = position.z as int;
    let size = chunk.size();
    let v0: u32 = match axis {
        Axis::X => position.z,
        Axis::Y => position.z,
        Axis::Z => position.y,
    };
    let vl: u32 = match axis {
        Axis::X => size.z,
        Axis::Y => size.z,
        Axis::Z => size.y,
    };
    let mut h: u32 = 1;
    while (v0 as u64) + (h as u64) < (vl as u64)
        invariant
            c == chunk@,
            c.wf(),
            marks@.len() == volume(c.size),
            in_bounds(xi, yi, zi, c.size),
            v0 == v_of(axis, xi, yi, zi),
            vl == v_len(axis, c.size),
            1 <= w,
            u_of(axis, xi, yi, zi) + w <= u_len(axis, c.size),
            1 <= h,
            v0 + h <= vl,
            height_from(c, marks@, xi, yi, zi, axis, w as int, h as int) == grown_height(
                c,
                marks@,
                xi,
                yi,
                zi,
                axis,
                w as int,
            ),
        decreases vl - v0 - h,
    {
        let row = row_matches(chunk, marks, position, axis, w, h);
        if !row {
            return h;
        }
        proof {
            assert(height_from(c, marks@, xi, yi, zi, axis, w as int, h as int) == height_from(
                c,
                marks@,
                xi,
                yi,
                zi,
                axis,
                w as int,
                h as int + 1,
            ));
        }
        h = h + 1;
    }
    h
}

/// Marks every cell of the grown rectangle visited, so later sweeps skip the
/// merged cells.
#[verifier::loop_isolation(false)]
fn mark_visited(
    marks: &mut Vec<bool>,
    size: UVec3,
    position: UVec3,
    axis: Axis,
    w: u32,
    h: u32,
)
    requires
        old(marks)@.len() == volume(size),
        volume(size) <= usize::MAX,
        in_bounds(position.x as int, position.y as int, position.z as int, size),
        1 <= w,
        1 <= h,
        u_of(axis, position.x as int, position.y as int, position.z as int) + w <= u_len(
            axis,
            size,
        ),
        v_of(axis, position.x as int, position.y as int, position.z as int) + h <= v_len(
            axis,
            size,
        ),
    ensures
        final(marks)@ == mark_cells(
            size,
            old(marks)@,
            position.x as int,
            position.y as int,
            position.z as int,
            axis,
            h as int,
            w as int * h as int,
        ),
        final(marks)@.len() == old(marks)@.len(),
{
    let ghost xi = position.x as int;
    let ghost yi = position.y as int;
    let ghost zi = position.z as int;
    let mut du: u32 = 0;
    while du < w
        invariant
            marks@.len() == volume(size),
            in_bounds(xi, yi, zi, size),
            1 <= w,
            1 <= h,
            u_of(axis, xi, yi, zi) + w <= u_len(axis, size),
            v_of(axis, xi, yi, zi) + h <= v_len(axis, size),
            du <= w,
            marks@ == mark_cells(size, old(marks)@, xi, yi, zi, axis, h as int, du as int * h as int),
        decreases w - du,
    {
        let mut dv: u32 = 0;
        while dv < h
            invariant
                marks@.len() == volume(size),
                in_bounds(xi, yi, zi, size),
                1 <= w,
                1 <= h,
                u_of(axis, xi, yi, zi) + w <= u_len(axis, size),
                v_of(axis, xi, yi, zi) + h <= v_len(axis, size),
                du < w,
                dv <= h,
                marks@ == mark_cells(
                    size,
                    old(marks)@,
                    xi,
                    yi,
                    zi,
                    axis,
                    h as int,
                    du as int * h as int + dv as int,
                ),
            decreases h - dv,
        {
            proof {
                lemma_cell_plus_in_bounds(size, xi, yi, zi, axis, du as int, dv as int);
            }
            let cell = cell_at(position, axis, du, dv);
            proof {
                lemma_flat_index_in_range(cell.x as int, cell.y as int, cell.z as int, size);
            }
            let idx = crate::coords::coord_to_index(cell, size);
            marks[idx] = true;
            proof {
                let m: int = du as int * h as int + dv as int;
                vstd::arithmetic::div_mod::lemma_fundamental_div_mod_converse_div(
                    m,
                    h as int,
                    du as int,
                    dv as int,
                );
                vstd::arithmetic::div_mod::lemma_fundamental_div_mod_converse_mod(
                    m,
                    h as int,
                    du as int,
                    dv as int,
                );
                assert(marks@ == mark_cells(
                    size,
                    old(marks)@,
                    xi,
                    yi,
                    zi,
                    axis,
                    h as int,
                    m + 1,
                ));
            }
            dv = dv + 1;
        }
        proof {
            assert(du as int * h as int + h as int == (du as int + 1) * h as int)
                by (nonlinear_arith);
        }
        du = du + 1;
    }
}

} // verus!

verus! {

/// One of the six passes: sweeps the whole chunk in the fixed nested order
/// for faces oriented along `(axis, direction)` and appends the emitted quads
/// to `mesh`.
#[verifier::loop_isolation(false)]
fn greedy_pass(
    chunk: &Chunk,
    neighbours: &ChunkNeighbours,
    kind: MeshKind,
    axis: Axis,
    direction: Direction,
    mesh: &mut Mesh,
)
    requires
        chunk@.wf(),
        neighbours@.wf(chunk@.size),
    ensures
        final(mesh)@ == old(mesh)@ + pass_quads(chunk@, neighbours@, kind, axis, direction),
{
    let ghost c = chunk@;
    let ghost n = neighbours@;
    let size = chunk.size();
    let count = chunk.voxel_count();
    let mut marks: Vec<bool> = Vec::new();
    while marks.len() < count
        invariant
            marks@.len() <= count,
            forall|i: int| 0 <= i < marks@.len() ==> marks@[i] == false,
        decreases count - marks@.len(),
    {
        marks.push(false);
    }
    proof {
        assert(marks@ =~= pass_init(c.size).visited);
        assert(old(mesh)@ + pass_init(c.size).quads =~= mesh@);
    }
    let mut x: u32 = 0;
    while x < size.x
        invariant
            x <= size.x,
            marks@.len() == volume(c.size),
            mesh@ == old(mesh)@ + sweep_x(
                c, n, kind, axis, direction, pass_init(c.size), x as int,
            ).quads,
            marks@ == sweep_x(c, n, kind, axis, direction, pass_init(c.size), x as int).visited,
        decreases size.x - x,
    {
        let ghost st_x = sweep_x(c, n, kind, axis, direction, pass_init(c.size), x as int);
        let mut y: u32 = 0;
        while y < size.y
            invariant
                y <= size.y,
                marks@.len() == volume(c.size),
                mesh@ == old(mesh)@ + sweep_y(
                    c, n, kind, axis, direction, st_x, x as int, y as int,
                ).quads,
                marks@ == sweep_y(c, n, kind, axis, direction, st_x, x as int, y as int).visited,
            decreases size.y - y,
        {
            let ghost st_y = sweep_y(c, n, kind, axis, direction, st_x, x as int, y as int);
            let mut z: u32 = 0;
            while z < size.z
                invariant
                    z <= size.z,
                    marks@.len() == volume(c.size),
                    mesh@ == old(mesh)@ + sweep_z(
                        c, n, kind, axis, direction, st_y, x as int, y as int, z as int,
                    ).quads,
                    marks@ == sweep_z(
                        c, n, kind, axis, direction, st_y, x as int, y as int, z as int,
                    ).visited,
                decreases size.z - z,
            {
                let ghost st = sweep_z(
                    c, n, kind, axis, direction, st_y, x as int, y as int, z as int,
                );
                let position = UVec3::new(x, y, z);
                proof {
                    lemma_flat_index_in_range(x as int, y as int, z as int, c.size);
                }
                let idx = coord_to_index(position, size);
                if !marks[idx] {
                    let voxel = match chunk.get_voxel(position) {
                        Some(v) => v,
                        None => Voxel::Air,
                    };
                    if kind.should_mesh(voxel) {
                        if face_visible_exec(chunk, neighbours, position, axis, direction, kind) {
                            let w = grow_width(chunk, &marks, position, axis);
                            let h = grow_height(chunk, &marks, position, axis, w);
                            let quad_position = match direction {
                                Direction::Positive => match axis {
                                    Axis::X => UVec3::new(x + 1, y, z),
                                    Axis::Y => UVec3::new(x, y + 1, z),
                                    Axis::Z => UVec3::new(x, y, z + 1),
                                },
                                Direction::Negative => position,
                            };
                            mesh.add_face(
                                quad_position,
                                UVec2::new(w, h),
                                axis,
                                direction,
                                voxel.to_color(),
                            );
                            mark_visited(&mut marks, size, position, axis, w, h);
                            proof {
                                assert(mesh@.last() == face_quad(
                                    c, x as int, y as int, z as int, axis, direction,
                                    w as int, h as int,
                                ));
                            }
                        }
                    }
                }
                proof {
                    assert(sweep_z(
                        c, n, kind, axis, direction, st_y, x as int, y as int, z as int + 1,
                    ) == pass_step(c, n, kind, axis, direction, st, x as int, y as int, z as int));
                }
                z = z + 1;
            }
            proof {
                assert(sweep_y(c, n, kind, axis, direction, st_x, x as int, y as int + 1)
                    == sweep_z(
                        c, n, kind, axis, direction, st_y, x as int, y as int, c.size.z as int,
                    ));
            }
            y = y + 1;
        }
        proof {
            assert(sweep_x(c, n, kind, axis, direction, pass_init(c.size), x as int + 1)
                == sweep_y(c, n, kind, axis, direction, st_x, x as int, c.size.y as int));
        }
        x = x + 1;
    }
}

impl Chunk {
    /// Produces the greedy surface mesh of this chunk for one predicate pair,
    /// given whichever of its six neighbours are known. The result is exactly
    /// the quad sequence `greedy_mesh_quads` denotes, a pure function of the
    /// chunk and the neighbour map, so meshing is deterministic.
    pub fn greedy_mesh(&self, neighbours: &ChunkNeighbours, kind: MeshKind) -> (m: Mesh)
        requires
            self@.wf(),
            neighbours@.wf(self@.size),
        ensures
            m@ == greedy_mesh_quads(self@, neighbours@, kind),
    {
        let mut mesh = Mesh::new();
        greedy_pass(self, neighbours, kind, Axis::X, Direction::Positive, &mut mesh);
        greedy_pass(self, neighbours, kind, Axis::X, Direction::Negative, &mut mesh);
        greedy_pass(self, neighbours, kind, Axis::Y, Direction::Positive, &mut mesh);
        greedy_pass(self, neighbours, kind, Axis::Y, Direction::Negative, &mut mesh);
        greedy_pass(self, neighbours, kind, Axis::Z, Direction::Positive, &mut mesh);
        greedy_pass(self, neighbours, kind, Axis::Z, Direction::Negative, &mut mesh);
        proof {
            assert(mesh@ =~= greedy_mesh_quads(self@, neighbours@, kind));
        }
        mesh
    }

    /// Creates the meshes of the chunk: the opaque mesh built from its solid
    /// voxels and the transparent mesh built from its liquid voxels. Either
    /// component is `None` exactly when its mesh would be empty.
    pub fn mesh(&self, neighbours: &ChunkNeighbours) -> (r: (Option<Mesh>, Option<Mesh>))
        requires
            self@.wf(),
            neighbours@.wf(self@.size),
        ensures
            (match r.0 {
                Some(m) => m@ == greedy_mesh_quads(self@, neighbours@, MeshKind::Opaque)
                    && m@.len() > 0,
                None => greedy_mesh_quads(self@, neighbours@, MeshKind::Opaque).len() == 0,
            }),
            (match r.1 {
                Some(m) => m@ == greedy_mesh_quads(self@, neighbours@, MeshKind::Transparent)
                    && m@.len() > 0,
                None => greedy_mesh_quads(self@, neighbours@, MeshKind::Transparent).len() == 0,
            }),
    {
        let solid_mesh = self.greedy_mesh(neighbours, MeshKind::Opaque);
        let solid = if solid_mesh.is_empty() {
            None
        } else {
            Some(solid_mesh)
        };
        let transparent_mesh = self.greedy_mesh(neighbours, MeshKind::Transparent);
        let transparent = if transparent_mesh.is_empty() {
            None
        } else {
            Some(transparent_mesh)
        };
        (solid, transparent)
    }
}

} // verus!

verus! {

/// A step that finds no candidate voxel with a visible face changes nothing.
proof fn lemma_step_skip(
    c: ChunkView,
    n: NeighboursView,
    k: MeshKind,
    axis: Axis,
    direction: Direction,
    st: PassState,
    x: int, y: int, z: int,
)
    requires
        !(k.spec_should_mesh(c.vox(x, y, z)) && face_visible(c, n, k, x, y, z, axis, direction)),
    ensures
        pass_step(c, n, k, axis, direction, st, x, y, z) == st,
{
}

/// Whether no cell of the chunk has a visible candidate face for this pass.
pub open spec fn pass_faces_all_hidden(
    c: ChunkView,
    n: NeighboursView,
    k: MeshKind,
    axis: Axis,
    direction: Direction,
) -> bool {
    forall|x: int, y: int, z: int|
        in_bounds(x, y, z, c.size) ==> !(k.spec_should_mesh(#[trigger] c.vox(x, y, z))
            && face_visible(c, n, k, x, y, z, axis, direction))
}

proof fn lemma_sweep_z_skip(
    c: ChunkView,
    n: NeighboursView,
    k: MeshKind,
    axis: Axis,
    direction: Direction,
    st: PassState,
    x: int, y: int,
    nz: int,
)
    requires
        forall|z: int|
            0 <= z < nz ==> !(k.spec_should_mesh(#[trigger] c.vox(x, y, z)) && face_visible(
                c, n, k, x, y, z, axis, direction,
            )),
    ensures
        sweep_z(c, n, k, axis, direction, st, x, y, nz) == st,
    decreases nz,
{
    if nz > 0 {
        lemma_sweep_z_skip(c, n, k, axis, direction, st, x, y, nz - 1);
        lemma_step_skip(c, n, k, axis, direction, st, x, y, nz - 1);
    }
}

proof fn lemma_sweep_y_skip(
    c: ChunkView,
    n: NeighboursView,
    k: MeshKind,
    axis: Axis,
    direction: Direction,
    st: PassState,
    x: int,
    ny: int,
)
    requires
        forall|y: int, z: int|
            0 <= y < ny && 0 <= z < c.size.z ==> !(k.spec_should_mesh(
                #[trigger] c.vox(x, y, z),
            ) && face_visible(c, n, k, x, y, z, axis, direction)),
    ensures
        sweep_y(c, n, k, axis, direction, st, x, ny) == st,
    decreases ny,
{
    if ny > 0 {
        lemma_sweep_y_skip(c, n, k, axis, direction, st, x, ny - 1);
        lemma_sweep_z_skip(c, n, k, axis, direction, st, x, ny - 1, c.size.z as int);
    }
}

proof fn lemma_sweep_x_skip(
    c: ChunkView,
    n: NeighboursView,
    k: MeshKind,
    axis: Axis,
    direction: Direction,
    st: PassState,
    nx: int,
)
    requires
        forall|x: int, y: int, z: int|
            0 <= x < nx && 0 <= y < c.size.y && 0 <= z < c.size.z ==> !(k.spec_should_mesh(
                #[trigger] c.vox(x, y, z),
            ) && face_visible(c, n, k, x, y, z, axis, direction)),
    ensures
        sweep_x(c, n, k, axis, direction, st, nx) == st,
    decreases nx,
{
    if nx > 0 {
        lemma_sweep_x_skip(c, n, k, axis, direction, st, nx - 1);
        lemma_sweep_y_skip(c, n, k, axis, direction, st, nx - 1, c.size.y as int);
    }
}

/// A pass in which no cell has a visible candidate face emits no quads.
pub proof fn lemma_pass_all_hidden_empty(
    c: ChunkView,
    n: NeighboursView,
    k: MeshKind,
    axis: Axis,
    direction: Direction,
)
    requires
        pass_faces_all_hidden(c, n, k, axis, direction),
    ensures
        pass_quads(c, n, k, axis, direction) == Seq::<Quad>::empty(),
{
    lemma_sweep_x_skip(c, n, k, axis, direction, pass_init(c.size), c.size.x as int);
}

/// Meshing is deterministic: the mesh is a pure function of the chunk and the
/// neighbour map, so two runs on the same input yield identical quad
/// sequences. (`Chunk::greedy_mesh` ensures its result equals
/// `greedy_mesh_quads`, so this covers the executable mesher.)
pub proof fn lemma_mesh_deterministic(
    c: ChunkView,
    n: NeighboursView,
    k: MeshKind,
    first: Seq<Quad>,
    second: Seq<Quad>,
)
    requires
        first == greedy_mesh_quads(c, n, k),
        second == greedy_mesh_quads(c, n, k),
    ensures
        first == second,
{
}

/// An all-air chunk produces an empty mesh, for both predicate pairs and for
/// any neighbour map: air is never a candidate surface.
pub proof fn lemma_empty_chunk_meshes_empty(c: ChunkView, n: NeighboursView, k: MeshKind)
    requires
        c.wf(),
        c.is_empty(),
    ensures
        greedy_mesh_quads(c, n, k).len() == 0,
{
    assert forall|x: int, y: int, z: int| in_bounds(x, y, z, c.size) implies #[trigger] c.vox(
        x, y, z,
    ) == Voxel::Air by {
        lemma_flat_index_in_range(x, y, z, c.size);
    }
    lemma_pass_all_hidden_empty(c, n, k, Axis::X, Direction::Positive);
    lemma_pass_all_hidden_empty(c, n, k, Axis::X, Direction::Negative);
    lemma_pass_all_hidden_empty(c, n, k, Axis::Y, Direction::Positive);
    lemma_pass_all_hidden_empty(c, n, k, Axis::Y, Direction::Negative);
    lemma_pass_all_hidden_empty(c, n, k, Axis::Z, Direction::Positive);
    lemma_pass_all_hidden_empty(c, n, k, Axis::Z, Direction::Negative);
}

/// Every voxel of the chunk holds the same value.
pub open spec fn chunk_uniform(c: ChunkView, v: Voxel) -> bool {
    forall|i: int| 0 <= i < c.voxels.len() ==> c.voxels[i] == v
}

/// Boundary coverage against an unknown neighbour: a chunk of nothing but
/// stone whose neighbour map has no entry in a direction emits no quads in
/// that direction's opaque pass — every interior face is closed by stone, and
/// the boundary is treated as covered until the neighbour exists.
pub proof fn lemma_unknown_neighbour_covers(
    c: ChunkView,
    n: NeighboursView,
    axis: Axis,
    direction: Direction,
)
    requires
        c.wf(),
        chunk_uniform(c, Voxel::Stone),
        n.entry(axis, direction) is None,
    ensures
        pass_quads(c, n, MeshKind::Opaque, axis, direction) == Seq::<Quad>::empty(),
{
    assert forall|x: int, y: int, z: int|
        in_bounds(x, y, z, c.size) implies !(MeshKind::Opaque.spec_should_mesh(
        #[trigger] c.vox(x, y, z),
    ) && face_visible(c, n, MeshKind::Opaque, x, y, z, axis, direction)) by {
        let normal = axis.spec_normal(direction);
        let nx = x + normal.x;
        let ny = y + normal.y;
        let nz = z + normal.z;
        if in_bounds(nx, ny, nz, c.size) {
            lemma_flat_index_in_range(nx, ny, nz, c.size);
        }
    }
    lemma_pass_all_hidden_empty(c, n, MeshKind::Opaque, axis, direction);
}

/// Boundary coverage against a closed neighbour: a chunk of nothing but stone
/// adjacent to another all-stone chunk emits no quads in that direction's
/// opaque pass — the neighbour hides the whole shared face.
pub proof fn lemma_closed_neighbour_covers(
    c: ChunkView,
    n: NeighboursView,
    nc: ChunkView,
    axis: Axis,
    direction: Direction,
)
    requires
        c.wf(),
        chunk_uniform(c, Voxel::Stone),
        n.entry(axis, direction) == Some(nc),
        nc.wf(),
        nc.size == c.size,
        chunk_uniform(nc, Voxel::Stone),
    ensures
        pass_quads(c, n, MeshKind::Opaque, axis, direction) == Seq::<Quad>::empty(),
{
    assert forall|x: int, y: int, z: int|
        in_bounds(x, y, z, c.size) implies !(MeshKind::Opaque.spec_should_mesh(
        #[trigger] c.vox(x, y, z),
    ) && face_visible(c, n, MeshKind::Opaque, x, y, z, axis, direction)) by {
        let normal = axis.spec_normal(direction);
        let nx = x + normal.x;
        let ny = y + normal.y;
        let nz = z + normal.z;
        if in_bounds(nx, ny, nz, c.size) {
            lemma_flat_index_in_range(nx, ny, nz, c.size);
        } else {
            let (wx, wy, wz) = wrapped_cell(c.size, x, y, z, axis, direction);
            if in_bounds(wx, wy, wz, nc.size) {
                lemma_flat_index_in_range(wx, wy, wz, nc.size);
            }
        }
    }
    lemma_pass_all_hidden_empty(c, n, MeshKind::Opaque, axis, direction);
}

} // verus!

verus! {

/// If every further cell along the first in-plane axis can join the
/// rectangle, growth runs to the edge of the chunk.
proof fn lemma_width_all_extendable(
    c: ChunkView,
    visited: Seq<bool>,
    x: int, y: int, z: int,
    axis: Axis,
    w: int,
)
    requires
        1 <= w <= u_len(axis, c.size) - u_of(axis, x, y, z),
        forall|du: int|
            w <= du < u_len(axis, c.size) - u_of(axis, x, y, z) ==> extend_ok(
                c, visited, x, y, z, axis, du, 0,
            ),
    ensures
        width_from(c, visited, x, y, z, axis, w) == u_len(axis, c.size) - u_of(axis, x, y, z),
    decreases u_len(axis, c.size) - u_of(axis, x, y, z) - w,
{
    if u_of(axis, x, y, z) + w < u_len(axis, c.size) {
        lemma_width_all_extendable(c, visited, x, y, z, axis, w + 1);
    }
}

/// If every further row matches over the full width, growth takes every row
/// to the edge of the chunk.
proof fn lemma_height_all_rows_ok(
    c: ChunkView,
    visited: Seq<bool>,
    x: int, y: int, z: int,
    axis: Axis,
    w: int,
    h: int,
)
    requires
        1 <= h <= v_len(axis, c.size) - v_of(axis, x, y, z),
        forall|dv: int|
            h <= dv < v_len(axis, c.size) - v_of(axis, x, y, z) ==> row_ok(
                c, visited, x, y, z, axis, w, dv,
            ),
    ensures
        height_from(c, visited, x, y, z, axis, w, h) == v_len(axis, c.size) - v_of(
            axis, x, y, z,
        ),
    decreases v_len(axis, c.size) - v_of(axis, x, y, z) - h,
{
    if v_of(axis, x, y, z) + h < v_len(axis, c.size) {
        lemma_height_all_rows_ok(c, visited, x, y, z, axis, w, h + 1);
    }
}

/// What marking does to the visited set: a position is visited afterwards iff
/// it was visited before or lies among the first `m` cells of the rectangle.
proof fn lemma_mark_cells_props(
    size: UVec3,
    vis: Seq<bool>,
    bx: int, by: int, bz: int,
    axis: Axis,
    w: int,
    h: int,
    m: int,
)
    requires
        vis.len() == volume(size),
        in_bounds(bx, by, bz, size),
        1 <= w,
        1 <= h,
        0 <= m <= w * h,
        u_of(axis, bx, by, bz) + w <= u_len(axis, size),
        v_of(axis, bx, by, bz) + h <= v_len(axis, size),
    ensures
        mark_cells(size, vis, bx, by, bz, axis, h, m).len() == vis.len(),
        forall|x2: int, y2: int, z2: int|
            in_bounds(x2, y2, z2, size) ==> mark_cells(size, vis, bx, by, bz, axis, h, m)[
                flat_index(x2, y2, z2, size)
            ] == (vis[flat_index(x2, y2, z2, size)] || exists|du: int, dv: int|
                0 <= du && 0 <= dv < h && du * h + dv < m && (x2, y2, z2) == #[trigger] cell_plus(
                    axis, bx, by, bz, du, dv,
                )),
    decreases m,
{
    if m <= 0 {
        assert forall|x2: int, y2: int, z2: int| in_bounds(x2, y2, z2, size) implies mark_cells(
            size, vis, bx, by, bz, axis, h, m,
        )[flat_index(x2, y2, z2, size)] == (vis[flat_index(x2, y2, z2, size)]
            || exists|du: int, dv: int|
            0 <= du && 0 <= dv < h && du * h + dv < m && (x2, y2, z2) == #[trigger] cell_plus(
                axis, bx, by, bz, du, dv,
            )) by {
            if exists|du: int, dv: int|
                0 <= du && 0 <= dv < h && du * h + dv < m && (x2, y2, z2) == #[trigger] cell_plus(
                    axis, bx, by, bz, du, dv,
                ) {
                let (du, dv) = choose|du: int, dv: int|
                    0 <= du && 0 <= dv < h && du * h + dv < m && (x2, y2, z2)
                        == #[trigger] cell_plus(axis, bx, by, bz, du, dv);
                assert(du * h >= 0) by (nonlinear_arith)
                    requires
                        du >= 0,
                        h >= 1,
                ;
            }
        }
    } else {
        lemma_mark_cells_props(size, vis, bx, by, bz, axis, w, h, m - 1);
        let du0 = (m - 1) / h;
        let dv0 = (m - 1) % h;
        vstd::arithmetic::div_mod::lemma_fundamental_div_mod(m - 1, h);
        vstd::arithmetic::div_mod::lemma_mod_bound(m - 1, h);
        assert(m - 1 == du0 * h + dv0) by (nonlinear_arith)
            requires
                m - 1 == h * du0 + dv0,
        ;
        assert(du0 * h == m - 1 - dv0);
        assert(du0 < w) by (nonlinear_arith)
            requires
                du0 * h < w * h,
                1 <= h,
        ;
        assert(du0 >= 0) by (nonlinear_arith)
            requires
                du0 * h > -h,
                1 <= h,
        ;
        let (cx, cy, cz) = cell_plus(axis, bx, by, bz, du0, dv0);
        lemma_cell_plus_in_bounds(size, bx, by, bz, axis, du0, dv0);
        lemma_flat_index_in_range(cx, cy, cz, size);
        let prev = mark_cells(size, vis, bx, by, bz, axis, h, m - 1);
        assert forall|x2: int, y2: int, z2: int| in_bounds(x2, y2, z2, size) implies mark_cells(
            size, vis, bx, by, bz, axis, h, m,
        )[flat_index(x2, y2, z2, size)] == (vis[flat_index(x2, y2, z2, size)]
            || exists|du: int, dv: int|
            0 <= du && 0 <= dv < h && du * h + dv < m && (x2, y2, z2) == #[trigger] cell_plus(
                axis, bx, by, bz, du, dv,
            )) by {
            lemma_flat_index_in_range(x2, y2, z2, size);
            if flat_index(x2, y2, z2, size) == flat_index(cx, cy, cz, size) {
                lemma_flat_index_injective(x2, y2, z2, cx, cy, cz, size);
                assert((x2, y2, z2) == cell_plus(axis, bx, by, bz, du0, dv0));
                assert(du0 * h + dv0 < m);
            } else {
                assert(mark_cells(size, vis, bx, by, bz, axis, h, m)[flat_index(x2, y2, z2, size)]
                    == prev[flat_index(x2, y2, z2, size)]);
                if exists|du: int, dv: int|
                    0 <= du && 0 <= dv < h && du * h + dv < m && (x2, y2, z2)
                        == #[trigger] cell_plus(axis, bx, by, bz, du, dv) {
                    let (du, dv) = choose|du: int, dv: int|
                        0 <= du && 0 <= dv < h && du * h + dv < m && (x2, y2, z2)
                            == #[trigger] cell_plus(axis, bx, by, bz, du, dv);
                    if du * h + dv == m - 1 {
                        vstd::arithmetic::div_mod::lemma_fundamental_div_mod_converse_div(
                            m - 1, h, du, dv,
                        );
                        vstd::arithmetic::div_mod::lemma_fundamental_div_mod_converse_mod(
                            m - 1, h, du, dv,
                        );
                        lemma_cell_plus_in_bounds(size, bx, by, bz, axis, du, dv);
                        assert(false);
                    }
                }
            }
        }
    }
}

} // verus!

verus! {

/// A sweep over cells that are all already visited changes nothing.
proof fn lemma_sweep_z_all_visited(
    c: ChunkView,
    n: NeighboursView,
    k: MeshKind,
    axis: Axis,
    direction: Direction,
    st: PassState,
    x: int, y: int,
    nz: int,
)
    requires
        forall|z: int| 0 <= z < nz ==> st.visited[#[trigger] flat_index(x, y, z, c.size)],
    ensures
        sweep_z(c, n, k, axis, direction, st, x, y, nz) == st,
    decreases nz,
{
    if nz > 0 {
        lemma_sweep_z_all_visited(c, n, k, axis, direction, st, x, y, nz - 1);
    }
}

/// Once the first cell of a row has been processed, a row whose remaining
/// cells are all visited in the resulting state ends in exactly that state.
proof fn lemma_sweep_z_from_first(
    c: ChunkView,
    n: NeighboursView,
    k: MeshKind,
    axis: Axis,
    direction: Direction,
    st0: PassState,
    st1: PassState,
    x: int, y: int,
    nz: int,
)
    requires
        1 <= nz,
        pass_step(c, n, k, axis, direction, st0, x, y, 0) == st1,
        forall|z: int| 1 <= z < nz ==> st1.visited[#[trigger] flat_index(x, y, z, c.size)],
    ensures
        sweep_z(c, n, k, axis, direction, st0, x, y, nz) == st1,
    decreases nz,
{
    if nz == 1 {
        assert(sweep_z(c, n, k, axis, direction, st0, x, y, 0) == st0);
    } else {
        lemma_sweep_z_from_first(c, n, k, axis, direction, st0, st1, x, y, nz - 1);
    }
}

/// Once the first row of a layer has been processed, a layer whose remaining
/// rows are all visited in the resulting state ends in exactly that state.
proof fn lemma_sweep_y_from_first(
    c: ChunkView,
    n: NeighboursView,
    k: MeshKind,
    axis: Axis,
    direction: Direction,
    st0: PassState,
    st1: PassState,
    x: int,
    ny: int,
)
    requires
        1 <= ny,
        sweep_z(c, n, k, axis, direction, st0, x, 0, c.size.z as int) == st1,
        forall|y: int, z: int|
            1 <= y < ny && 0 <= z < c.size.z ==> st1.visited[
                #[trigger] flat_index(x, y, z, c.size)
            ],
    ensures
        sweep_y(c, n, k, axis, direction, st0, x, ny) == st1,
    decreases ny,
{
    if ny == 1 {
        assert(sweep_y(c, n, k, axis, direction, st0, x, 0) == st0);
    } else {
        lemma_sweep_y_from_first(c, n, k, axis, direction, st0, st1, x, ny - 1);
        lemma_sweep_z_all_visited(c, n, k, axis, direction, st1, x, ny - 1, c.size.z as int);
    }
}

/// Boundary coverage against an open neighbour, in full: a chunk of nothing
/// but stone whose only known neighbour is an all-air chunk on +X meshes to
/// exactly one opaque quad — on the +X face, covering its whole y-by-z
/// extent, merged greedily out of the boundary cells.
pub proof fn lemma_open_neighbour_exposes_full_face(c: ChunkView, n: NeighboursView, nc: ChunkView)
    requires
        c.wf(),
        1 <= c.size.x,
        1 <= c.size.y,
        1 <= c.size.z,
        chunk_uniform(c, Voxel::Stone),
        n.pos_x == Some(nc),
        nc.wf(),
        nc.size == c.size,
        chunk_uniform(nc, Voxel::Air),
        n.neg_x is None,
        n.pos_y is None,
        n.neg_y is None,
        n.pos_z is None,
        n.neg_z is None,
    ensures
        greedy_mesh_quads(c, n, MeshKind::Opaque) == seq![
            (Quad {
                position: UVec3 { x: c.size.x, y: 0, z: 0 },
                size: UVec2 { x: c.size.y, y: c.size.z },
                axis: Axis::X,
                direction: Direction::Positive,
                color: Voxel::Stone.spec_color(),
            }),
        ],
{
    let k = MeshKind::Opaque;
    let sx = c.size.x as int;
    let sy = c.size.y as int;
    let sz = c.size.z as int;
    assert forall|x: int, y: int, z: int| in_bounds(x, y, z, c.size) implies #[trigger] c.vox(
        x, y, z,
    ) == Voxel::Stone by {
        lemma_flat_index_in_range(x, y, z, c.size);
    }
    assert forall|x: int, y: int, z: int| in_bounds(x, y, z, nc.size) implies #[trigger] nc.vox(
        x, y, z,
    ) == Voxel::Air by {
        lemma_flat_index_in_range(x, y, z, nc.size);
    }
    // The five other passes emit nothing: their boundaries have no known
    // neighbour and every interior face is closed by stone.
    lemma_unknown_neighbour_covers(c, n, Axis::X, Direction::Negative);
    lemma_unknown_neighbour_covers(c, n, Axis::Y, Direction::Positive);
    lemma_unknown_neighbour_covers(c, n, Axis::Y, Direction::Negative);
    lemma_unknown_neighbour_covers(c, n, Axis::Z, Direction::Positive);
    lemma_unknown_neighbour_covers(c, n, Axis::Z, Direction::Negative);
    // In the +X pass, every layer but the last is hidden behind stone.
    let st0 = pass_init(c.size);
    assert forall|x: int, y: int, z: int|
        0 <= x < sx - 1 && 0 <= y < sy && 0 <= z < sz implies !(k.spec_should_mesh(
        #[trigger] c.vox(x, y, z),
    ) && face_visible(c, n, k, x, y, z, Axis::X, Direction::Positive)) by {
        assert(in_bounds(x + 1, y, z, c.size));
        assert(c.vox(x + 1, y, z) == Voxel::Stone);
    }
    lemma_sweep_x_skip(c, n, k, Axis::X, Direction::Positive, st0, sx - 1);
    // The cell at the low corner of the last layer grows over the whole face.
    let bx = sx - 1;
    assert(in_bounds(bx, 0, 0, c.size));
    lemma_flat_index_in_range(bx, 0, 0, c.size);
    assert(!st0.visited[flat_index(bx, 0, 0, c.size)]);
    assert(face_visible(c, n, k, bx, 0, 0, Axis::X, Direction::Positive)) by {
        assert(!in_bounds(bx + 1, 0, 0, c.size));
        assert(wrapped_cell(c.size, bx, 0, 0, Axis::X, Direction::Positive) == (0int, 0int, 0int));
        assert(in_bounds(0, 0, 0, nc.size));
        assert(nc.vox(0, 0, 0) == Voxel::Air);
    }
    assert forall|du: int, dv: int| 0 <= du < sy && 0 <= dv < sz implies extend_ok(
        c, st0.visited, bx, 0, 0, Axis::X, du, dv,
    ) by {
        let (cx, cy, cz) = cell_plus(Axis::X, bx, 0, 0, du, dv);
        assert((cx, cy, cz) == (bx, du, dv));
        assert(in_bounds(cx, cy, cz, c.size));
        lemma_flat_index_in_range(cx, cy, cz, c.size);
        assert(!st0.visited[flat_index(cx, cy, cz, c.size)]);
        assert(c.vox(cx, cy, cz) == Voxel::Stone);
    }
    lemma_width_all_extendable(c, st0.visited, bx, 0, 0, Axis::X, 1);
    assert(grown_width(c, st0.visited, bx, 0, 0, Axis::X) == sy);
    assert forall|dv: int| 1 <= dv < sz implies row_ok(
        c, st0.visited, bx, 0, 0, Axis::X, sy, dv,
    ) by {}
    lemma_height_all_rows_ok(c, st0.visited, bx, 0, 0, Axis::X, sy, 1);
    assert(grown_height(c, st0.visited, bx, 0, 0, Axis::X, sy) == sz);
    let st1 = pass_step(c, n, k, Axis::X, Direction::Positive, st0, bx, 0, 0);
    let quad = face_quad(c, bx, 0, 0, Axis::X, Direction::Positive, sy, sz);
    assert(st1.quads == st0.quads.push(quad));
    assert(st1.visited == mark_cells(c.size, st0.visited, bx, 0, 0, Axis::X, sz, sy * sz));
    assert(0 <= sy * sz) by (nonlinear_arith)
        requires
            0 <= sy,
            0 <= sz,
    ;
    lemma_mark_cells_props(c.size, st0.visited, bx, 0, 0, Axis::X, sy, sz, sy * sz);
    // Afterwards the whole boundary layer is visited and nothing else is.
    assert forall|x2: int, y2: int, z2: int|
        in_bounds(x2, y2, z2, c.size) implies st1.visited[
        #[trigger] flat_index(x2, y2, z2, c.size)
    ] == (x2 == bx) by {
        lemma_flat_index_in_range(x2, y2, z2, c.size);
        if x2 == bx {
            assert((x2, y2, z2) == cell_plus(Axis::X, bx, 0, 0, y2, z2));
            assert(y2 * sz + z2 < sy * sz) by (nonlinear_arith)
                requires
                    0 <= y2 < sy,
                    0 <= z2 < sz,
            ;
        } else {
            if exists|du: int, dv: int|
                0 <= du && 0 <= dv < sz && du * sz + dv < sy * sz && (x2, y2, z2)
                    == #[trigger] cell_plus(Axis::X, bx, 0, 0, du, dv) {
                let (du, dv) = choose|du: int, dv: int|
                    0 <= du && 0 <= dv < sz && du * sz + dv < sy * sz && (x2, y2, z2)
                        == #[trigger] cell_plus(Axis::X, bx, 0, 0, du, dv);
                assert(x2 == bx);
            }
        }
    }
    // The rest of the pass only meets visited cells.
    lemma_sweep_z_from_first(c, n, k, Axis::X, Direction::Positive, st0, st1, bx, 0, sz);
    lemma_sweep_y_from_first(c, n, k, Axis::X, Direction::Positive, st0, st1, bx, sy);
    assert(sweep_x(c, n, k, Axis::X, Direction::Positive, st0, sx) == st1);
    assert(pass_quads(c, n, k, Axis::X, Direction::Positive) =~= seq![quad]);
    assert(quad == (Quad {
        position: UVec3 { x: c.size.x, y: 0, z: 0 },
        size: UVec2 { x: c.size.y, y: c.size.z },
        axis: Axis::X,
        direction: Direction::Positive,
        color: Voxel::Stone.spec_color(),
    }));
    assert(greedy_mesh_quads(c, n, k) =~= seq![quad]);
}

} // verus!
