//! The streaming pipeline's consumer-side state machine: which chunks are
//! resident, which coordinates have generation or meshing work in flight, and
//! what to dispatch next.
//!
//! The world is owned by a single consumer thread. Once per tick that thread
//! calls [`World::tick`] with the focus chunk coordinate and dispatches one
//! generation job per returned coordinate; it drains at most one generated
//! chunk per tick into [`World::on_chunk_generated`], dispatching the
//! returned meshing jobs to workers (each worker runs `Chunk::mesh` on its
//! snapshot); and it drains at most one meshing result per tick into
//! [`World::on_mesh_result`], handing the returned update to the renderer.
//! Workers never touch the world itself — a meshing job carries owned
//! snapshots of the target chunk and its resident neighbours.

use vstd::prelude::*;

use crate::chunk::{Chunk, ChunkView, WorldPosition};
use crate::coords::IVec3;
use crate::mesh::{Axis, Direction, Mesh};
use crate::mesher::{ChunkNeighbours, NeighboursView};
use crate::store::{ChunkStore, CoordSet};

verus! {

/// The grid coordinate adjacent to `g` in the given unit direction.
pub open spec fn neighbour_coord(g: IVec3, axis: Axis, direction: Direction) -> IVec3 {
    let n = axis.spec_normal(direction);
    IVec3 { x: (g.x + n.x) as i32, y: (g.y + n.y) as i32, z: (g.z + n.z) as i32 }
}

/// Whether every component of `g` keeps the distance `margin` from the ends
/// of the machine's coordinate range, so that offset coordinates still exist.
pub open spec fn coord_in_margin(g: IVec3, margin: int) -> bool {
    &&& i32::MIN + margin <= g.x <= i32::MAX - margin
    &&& i32::MIN + margin <= g.y <= i32::MAX - margin
    &&& i32::MIN + margin <= g.z <= i32::MAX - margin
}

/// The neighbour-map entry a coordinate resolves to in a chunk map.
pub open spec fn entry_of(m: Map<IVec3, ChunkView>, g: IVec3) -> Option<ChunkView> {
    if m.contains_key(g) {
        Some(m[g])
    } else {
        None
    }
}

/// The neighbour map a meshing job for `g` snapshots out of the chunk map:
/// whichever of the six adjacent chunks are resident.
pub open spec fn neighbours_of(m: Map<IVec3, ChunkView>, g: IVec3) -> NeighboursView {
    NeighboursView {
        pos_x: entry_of(m, neighbour_coord(g, Axis::X, Direction::Positive)),
        neg_x: entry_of(m, neighbour_coord(g, Axis::X, Direction::Negative)),
        pos_y: entry_of(m, neighbour_coord(g, Axis::Y, Direction::Positive)),
        neg_y: entry_of(m, neighbour_coord(g, Axis::Y, Direction::Negative)),
        pos_z: entry_of(m, neighbour_coord(g, Axis::Z, Direction::Positive)),
        neg_z: entry_of(m, neighbour_coord(g, Axis::Z, Direction::Negative)),
    }
}

/// Whether `g` lies in the cube of coordinates within the render distance of
/// the centre chunk coordinate.
pub open spec fn within_render_distance(center: IVec3, rd: int, g: IVec3) -> bool {
    &&& center.x - rd <= g.x <= center.x + rd
    &&& center.y - rd <= g.y <= center.y + rd
    &&& center.z - rd <= g.z <= center.z + rd
}

/// Whether `g` has already been visited by the tick sweep when the offsets
/// from the cube's low corner have reached `(ox, oy, oz)` (x outermost, then
/// y, then z).
spec fn cube_before(center: IVec3, rd: int, g: IVec3, ox: int, oy: int, oz: int) -> bool {
    let dx = g.x - (center.x - rd);
    let dy = g.y - (center.y - rd);
    let dz = g.z - (center.z - rd);
    &&& 0 <= dx < 2 * rd + 1
    &&& 0 <= dy < 2 * rd + 1
    &&& 0 <= dz < 2 * rd + 1
    &&& (dx < ox || (dx == ox && (dy < oy || (dy == oy && dz < oz))))
}

/// The singleton of the neighbour coordinate when its chunk is resident and
/// not already being meshed, else empty.
pub open spec fn maybe_neighbour_job(
    m: Map<IVec3, ChunkView>,
    already: Set<IVec3>,
    g: IVec3,
    axis: Axis,
    direction: Direction,
) -> Seq<IVec3> {
    let ng = neighbour_coord(g, axis, direction);
    if m.contains_key(ng) && !already.contains(ng) {
        seq![ng]
    } else {
        Seq::empty()
    }
}

/// The coordinates scheduled for (re-)meshing when the chunk at `g` arrives:
/// `g` itself unless its chunk is empty, then every resident neighbour —
/// whose earlier "absent neighbour means covered face" decisions may have to
/// flip — each skipped when its meshing is already in flight.
pub open spec fn scheduled_meshes(m: Map<IVec3, ChunkView>, already: Set<IVec3>, g: IVec3)
    -> Seq<IVec3> {
    let own: Seq<IVec3> = if !m[g].is_empty() && !already.contains(g) {
        seq![g]
    } else {
        Seq::empty()
    };
    own + maybe_neighbour_job(m, already, g, Axis::X, Direction::Positive)
        + maybe_neighbour_job(m, already, g, Axis::X, Direction::Negative)
        + maybe_neighbour_job(m, already, g, Axis::Y, Direction::Positive)
        + maybe_neighbour_job(m, already, g, Axis::Y, Direction::Negative)
        + maybe_neighbour_job(m, already, g, Axis::Z, Direction::Positive)
        + maybe_neighbour_job(m, already, g, Axis::Z, Direction::Negative)
}

/// A meshing job: owned snapshots of the target chunk and of whichever of its
/// six neighbours were resident when the job was made.
pub struct MeshJob {
    pub chunk: Chunk,
    pub neighbours: ChunkNeighbours,
}

proof fn lemma_singleton_contains(s: Seq<IVec3>, x: IVec3, h: IVec3)
    requires
        s == seq![x],
    ensures
        s.contains(h) <==> h == x,
{
    assert(s[0] == x);
    if h == x {
        assert(s.contains(h));
    }
    if s.contains(h) {
        let i = choose|i: int| 0 <= i < s.len() && s[i] == h;
        assert(i == 0);
    }
}

proof fn lemma_empty_contains(h: IVec3)
    ensures
        !Seq::<IVec3>::empty().contains(h),
{
    if Seq::<IVec3>::empty().contains(h) {
        let i = choose|i: int| 0 <= i < Seq::<IVec3>::empty().len() && Seq::<IVec3>::empty()[i] == h;
    }
}

proof fn lemma_concat_contains(a: Seq<IVec3>, b: Seq<IVec3>, h: IVec3)
    ensures
        (a + b).contains(h) <==> a.contains(h) || b.contains(h),
{
    if (a + b).contains(h) {
        let i = choose|i: int| 0 <= i < (a + b).len() && (a + b)[i] == h;
        if i < a.len() {
            assert(a[i] == h);
        } else {
            assert(b[i - a.len()] == h);
        }
    }
    if a.contains(h) {
        let i = choose|i: int| 0 <= i < a.len() && a[i] == h;
        assert((a + b)[i] == h);
    }
    if b.contains(h) {
        let i = choose|i: int| 0 <= i < b.len() && b[i] == h;
        assert((a + b)[a.len() + i] == h);
    }
}

/// A meshing job is valid for coordinate `g` against the chunk map `m`: it
/// snapshots the resident chunk at `g` and the neighbour map `m` induces at
/// `g`, and it meets the mesher's preconditions.
pub open spec fn valid_mesh_job(job: MeshJob, m: Map<IVec3, ChunkView>, g: IVec3) -> bool {
    &&& m.contains_key(g)
    &&& job.chunk@ == m[g]
    &&& job.chunk@.grid_position == g
    &&& job.chunk@.wf()
    &&& job.neighbours@ == neighbours_of(m, g)
    &&& job.neighbours@.wf(job.chunk@.size)
}

/// The grid coordinate adjacent to `g` in the given unit direction.
fn neighbour_coord_exec(g: IVec3, axis: Axis, direction: Direction) -> (r: IVec3)
    requires
        coord_in_margin(g, 1),
    ensures
        r == neighbour_coord(g, axis, direction),
{
    let n = axis.get_normal(direction);
    IVec3::new(g.x + n.x, g.y + n.y, g.z + n.z)
}

/// What the consumer hands to the renderer when a meshing result arrives: the
/// chunk's identity, its world transform (translation; rotation identity,
/// scale one), and the finished meshes, replacing prior ones for that
/// coordinate.
pub struct RenderUpdate {
    pub grid_position: IVec3,
    pub world_position: WorldPosition,
    pub solid: Option<Mesh>,
    pub transparent: Option<Mesh>,
}

/// The world: the resident chunks and the pipeline bookkeeping around them.
pub struct World {
    render_distance: u8,
    /// Chunks in the world that have been generated.
    chunks: ChunkStore,
    /// Coordinates dispatched for generation and not yet received back.
    generation_in_flight: CoordSet,
    /// Coordinates dispatched for meshing and not yet received back.
    meshing_in_flight: CoordSet,
}

impl World {
    /// The resident chunks, as the map they form.
    pub closed spec fn resident(self) -> Map<IVec3, ChunkView> {
        self.chunks@
    }

    /// The coordinates whose generation is in flight.
    pub closed spec fn gen_set(self) -> Set<IVec3> {
        self.generation_in_flight@
    }

    /// The coordinates whose meshing is in flight.
    pub closed spec fn mesh_set(self) -> Set<IVec3> {
        self.meshing_in_flight@
    }

    pub closed spec fn spec_render_distance(self) -> u8 {
        self.render_distance
    }

    /// The component invariants, plus the pipeline's own: a coordinate in
    /// flight for generation is never resident, a coordinate in flight for
    /// meshing always is, every stored chunk sits under its own coordinate
    /// and is well formed, and all resident chunks share one size.
    pub closed spec fn wf(self) -> bool {
        &&& self.chunks.wf()
        &&& self.generation_in_flight.wf()
        &&& self.meshing_in_flight.wf()
        &&& forall|g: IVec3|
            #[trigger] self.gen_set().contains(g) ==> !self.resident().contains_key(g)
        &&& forall|g: IVec3|
            #[trigger] self.mesh_set().contains(g) ==> self.resident().contains_key(g)
        &&& forall|g: IVec3|
            #[trigger] self.resident().contains_key(g) ==> self.resident()[g].wf()
                && self.resident()[g].grid_position == g
        &&& forall|g1: IVec3, g2: IVec3|
            self.resident().contains_key(g1) && self.resident().contains_key(g2)
                ==> #[trigger] self.resident()[g1].size == #[trigger] self.resident()[g2].size
    }

    /// Creates a new empty world.
    pub fn new(render_distance: u8) -> (r: World)
        ensures
            r.wf(),
            r.spec_render_distance() == render_distance,
            r.resident() == Map::<IVec3, ChunkView>::empty(),
            r.gen_set() == Set::<IVec3>::empty(),
            r.mesh_set() == Set::<IVec3>::empty(),
    {
        World {
            render_distance,
            chunks: ChunkStore::new(),
            generation_in_flight: CoordSet::new(),
            meshing_in_flight: CoordSet::new(),
        }
    }

    /// The configured render distance, in chunk units.
    pub fn render_distance(&self) -> (r: u8)
        ensures
            r == self.spec_render_distance(),
    {
        self.render_distance
    }

    /// Clears the world: every resident chunk and all in-flight bookkeeping
    /// are dropped. A result that arrives for work dispatched before the
    /// clear is treated as stale when it is drained.
    pub fn clear(&mut self)
        ensures
            final(self).wf(),
            final(self).spec_render_distance() == old(self).spec_render_distance(),
            final(self).resident() == Map::<IVec3, ChunkView>::empty(),
            final(self).gen_set() == Set::<IVec3>::empty(),
            final(self).mesh_set() == Set::<IVec3>::empty(),
    {
        self.chunks.clear();
        self.generation_in_flight.clear();
        self.meshing_in_flight.clear();
    }

    /// The resident chunk at a coordinate, if any.
    pub fn get_chunk(&self, grid_position: IVec3) -> (r: Option<&Chunk>)
        requires
            self.wf(),
        ensures
            (match r {
                Some(c) => self.resident().contains_key(grid_position)
                    && self.resident()[grid_position] == c@,
                None => !self.resident().contains_key(grid_position),
            }),
    {
        self.chunks.get(grid_position)
    }

    /// One tick of the streaming policy: every coordinate within render
    /// distance of the focus chunk coordinate that is neither resident nor
    /// already being generated is added to the generation in-flight set and
    /// returned — one dispatch per missing coordinate, never a second one
    /// while the first is in flight.
    #[verifier::loop_isolation(false)]
    pub fn tick(&mut self, center: IVec3) -> (jobs: Vec<IVec3>)
        requires
            old(self).wf(),
            coord_in_margin(center, old(self).spec_render_distance() as int),
        ensures
            final(self).wf(),
            final(self).spec_render_distance() == old(self).spec_render_distance(),
            final(self).resident() == old(self).resident(),
            final(self).mesh_set() == old(self).mesh_set(),
            forall|g: IVec3|
                #[trigger] final(self).gen_set().contains(g) <==> old(self).gen_set().contains(g)
                    || (within_render_distance(
                    center,
                    old(self).spec_render_distance() as int,
                    g,
                ) && !old(self).resident().contains_key(g)),
            forall|g: IVec3|
                #[trigger] jobs@.contains(g) <==> within_render_distance(
                    center,
                    old(self).spec_render_distance() as int,
                    g,
                ) && !old(self).resident().contains_key(g) && !old(self).gen_set().contains(g),
            jobs@.no_duplicates(),
    {
        broadcast use vstd::seq_lib::lemma_seq_contains_after_push;

        let ghost rdi = self.render_distance as int;
        let ghost orig_gen = self.generation_in_flight@;
        let ghost orig_res = self.chunks@;
        let ghost orig_chunks = self.chunks;
        let ghost orig_mesh = self.meshing_in_flight;
        let ghost orig_rd = self.render_distance;
        let rd_i32: i32 = self.render_distance as i32;
        let count: u32 = 2 * (self.render_distance as u32) + 1;
        let base_x: i32 = center.x - rd_i32;
        let base_y: i32 = center.y - rd_i32;
        let base_z: i32 = center.z - rd_i32;
        let mut jobs: Vec<IVec3> = Vec::new();
        let mut ox: u32 = 0;
        while ox < count
            invariant
                ox <= count,
                self.render_distance == orig_rd,
                self.chunks == orig_chunks,
                self.meshing_in_flight == orig_mesh,
                self.generation_in_flight.wf(),
                forall|g: IVec3|
                    #[trigger] self.gen_set().contains(g) <==> orig_gen.contains(g)
                        || (cube_before(center, rdi, g, ox as int, 0, 0)
                        && !orig_res.contains_key(g)),
                forall|g: IVec3|
                    #[trigger] jobs@.contains(g) <==> cube_before(center, rdi, g, ox as int, 0, 0)
                        && !orig_res.contains_key(g) && !orig_gen.contains(g),
                jobs@.no_duplicates(),
            decreases count - ox,
        {
            let mut oy: u32 = 0;
            while oy < count
                invariant
                    oy <= count,
                    self.render_distance == orig_rd,
                    self.chunks == orig_chunks,
                    self.meshing_in_flight == orig_mesh,
                    self.generation_in_flight.wf(),
                    forall|g: IVec3|
                        #[trigger] self.gen_set().contains(g) <==> orig_gen.contains(g)
                            || (cube_before(center, rdi, g, ox as int, oy as int, 0)
                            && !orig_res.contains_key(g)),
                    forall|g: IVec3|
                        #[trigger] jobs@.contains(g) <==> cube_before(
                            center,
                            rdi,
                            g,
                            ox as int,
                            oy as int,
                            0,
                        ) && !orig_res.contains_key(g) && !orig_gen.contains(g),
                    jobs@.no_duplicates(),
                decreases count - oy,
            {
                let mut oz: u32 = 0;
                while oz < count
                    invariant
                        oz <= count,
                        self.render_distance == orig_rd,
                        self.chunks == orig_chunks,
                        self.meshing_in_flight == orig_mesh,
                        self.generation_in_flight.wf(),
                        forall|g: IVec3|
                            #[trigger] self.gen_set().contains(g) <==> orig_gen.contains(g)
                                || (cube_before(center, rdi, g, ox as int, oy as int, oz as int)
                                && !orig_res.contains_key(g)),
                        forall|g: IVec3|
                            #[trigger] jobs@.contains(g) <==> cube_before(
                                center,
                                rdi,
                                g,
                                ox as int,
                                oy as int,
                                oz as int,
                            ) && !orig_res.contains_key(g) && !orig_gen.contains(g),
                        jobs@.no_duplicates(),
                    decreases count - oz,
                {
                    let g = IVec3::new(
                        base_x + ox as i32,
                        base_y + oy as i32,
                        base_z + oz as i32,
                    );
                    let ghost gen0 = self.generation_in_flight@;
                    let ghost jobs0 = jobs@;
                    proof {
                        assert(gen0 == self.gen_set());
                        assert(jobs0 == jobs@);
                        assert forall|h: IVec3|
                            cube_before(center, rdi, h, ox as int, oy as int, oz as int + 1)
                                <==> cube_before(center, rdi, h, ox as int, oy as int, oz as int)
                                || h == g by {}
                        assert(!cube_before(center, rdi, g, ox as int, oy as int, oz as int));
                    }
                    if !self.chunks.contains(g) && !self.generation_in_flight.contains(g) {
                        self.generation_in_flight.insert(g);
                        jobs.push(g);
                        proof {
                            assert(!jobs0.contains(g));
                            assert forall|a: int, b: int|
                                0 <= a < b < jobs@.len() implies jobs@[a] != jobs@[b] by {
                                if b == jobs@.len() - 1 {
                                    assert(jobs0.contains(jobs0[a]));
                                }
                            }
                            assert(self.generation_in_flight@ == gen0.insert(g));
                            assert(jobs@ == jobs0.push(g));
                        }
                    }
                    proof {
                        assert forall|h: IVec3|
                            #[trigger] self.gen_set().contains(h) <==> orig_gen.contains(h) || (
                        cube_before(center, rdi, h, ox as int, oy as int, oz as int + 1)
                            && !orig_res.contains_key(h)) by {
                            assert(gen0.contains(h) <==> orig_gen.contains(h) || (cube_before(
                                center,
                                rdi,
                                h,
                                ox as int,
                                oy as int,
                                oz as int,
                            ) && !orig_res.contains_key(h)));
                        }
                        assert forall|h: IVec3|
                            #[trigger] jobs@.contains(h) <==> (cube_before(
                            center,
                            rdi,
                            h,
                            ox as int,
                            oy as int,
                            oz as int + 1,
                        ) && !orig_res.contains_key(h) && !orig_gen.contains(h)) by {
                            assert(jobs0.contains(h) <==> (cube_before(
                                center,
                                rdi,
                                h,
                                ox as int,
                                oy as int,
                                oz as int,
                            ) && !orig_res.contains_key(h) && !orig_gen.contains(h)));
                        }
                    }
                    oz = oz + 1;
                }
                proof {
                    assert forall|h: IVec3|
                        cube_before(center, rdi, h, ox as int, oy as int, count as int)
                            <==> cube_before(center, rdi, h, ox as int, oy as int + 1, 0) by {}
                }
                oy = oy + 1;
            }
            proof {
                assert forall|h: IVec3|
                    cube_before(center, rdi, h, ox as int, count as int, 0) <==> cube_before(
                        center,
                        rdi,
                        h,
                        ox as int + 1,
                        0,
                        0,
                    ) by {}
            }
            ox = ox + 1;
        }
        proof {
            assert forall|h: IVec3|
                cube_before(center, rdi, h, count as int, 0, 0) <==> within_render_distance(
                    center,
                    rdi,
                    h,
                ) by {}
            assert(orig_gen == old(self).gen_set());
            assert(orig_res == old(self).resident());
            assert(self.resident() == old(self).resident());
            assert(self.mesh_set() == old(self).mesh_set());
            assert forall|h: IVec3|
                #[trigger] self.gen_set().contains(h) implies !self.resident().contains_key(
                h,
            ) by {
                if orig_gen.contains(h) {
                    assert(old(self).gen_set().contains(h));
                }
            }
            assert forall|h: IVec3|
                #[trigger] self.mesh_set().contains(h) implies self.resident().contains_key(
                h,
            ) by {
                assert(old(self).mesh_set().contains(h));
            }
            assert(self.wf());
        }
        jobs
    }

    /// An owned snapshot of the resident chunk at `g`, if any.
    fn snapshot_at(&self, g: IVec3) -> (r: Option<Chunk>)
        requires
            self.wf(),
        ensures
            crate::mesher::option_chunk_view(&r) == entry_of(self.resident(), g),
    {
        match self.chunks.get(g) {
            Some(c) => Some(c.snapshot()),
            None => None,
        }
    }

    /// Builds the meshing job for the resident chunk at `target`: owned
    /// snapshots of that chunk and of its resident neighbours.
    fn make_mesh_job(&self, target: IVec3) -> (job: MeshJob)
        requires
            self.wf(),
            self.resident().contains_key(target),
            coord_in_margin(target, 1),
        ensures
            valid_mesh_job(job, self.resident(), target),
    {
        let target_chunk = match self.chunks.get(target) {
            Some(c) => c.snapshot(),
            None => Chunk::new(target, crate::coords::UVec3 { x: 0, y: 0, z: 0 }),
        };
        let pos_x = self.snapshot_at(neighbour_coord_exec(target, Axis::X, Direction::Positive));
        let neg_x = self.snapshot_at(neighbour_coord_exec(target, Axis::X, Direction::Negative));
        let pos_y = self.snapshot_at(neighbour_coord_exec(target, Axis::Y, Direction::Positive));
        let neg_y = self.snapshot_at(neighbour_coord_exec(target, Axis::Y, Direction::Negative));
        let pos_z = self.snapshot_at(neighbour_coord_exec(target, Axis::Z, Direction::Positive));
        let neg_z = self.snapshot_at(neighbour_coord_exec(target, Axis::Z, Direction::Negative));
        let neighbours = ChunkNeighbours::from_parts(pos_x, neg_x, pos_y, neg_y, pos_z, neg_z);
        let job = MeshJob { chunk: target_chunk, neighbours };
        proof {
            assert(job.neighbours@ == neighbours_of(self.resident(), target));
        }
        job
    }

    /// Schedules a re-mesh of the chunk adjacent to `g` in the given
    /// direction, if one is resident and its meshing is not already in
    /// flight: the job joins `jobs` and the coordinate the meshing in-flight
    /// set.
    fn schedule_neighbour_mesh(
        &mut self,
        jobs: &mut Vec<MeshJob>,
        g: IVec3,
        axis: Axis,
        direction: Direction,
    )
        requires
            old(self).wf(),
            coord_in_margin(g, 2),
        ensures
            final(self).wf(),
            final(self).spec_render_distance() == old(self).spec_render_distance(),
            final(self).resident() == old(self).resident(),
            final(self).gen_set() == old(self).gen_set(),
            ({
                let ng = neighbour_coord(g, axis, direction);
                if old(self).resident().contains_key(ng) && !old(self).mesh_set().contains(ng) {
                    &&& final(self).mesh_set() == old(self).mesh_set().insert(ng)
                    &&& final(jobs)@.len() == old(jobs)@.len() + 1
                    &&& final(jobs)@ == old(jobs)@.push(final(jobs)@.last())
                    &&& valid_mesh_job(final(jobs)@.last(), old(self).resident(), ng)
                } else {
                    &&& final(self).mesh_set() == old(self).mesh_set()
                    &&& final(jobs)@ == old(jobs)@
                }
            }),
    {
        let ng = neighbour_coord_exec(g, axis, direction);
        if self.chunks.contains(ng) && !self.meshing_in_flight.contains(ng) {
            let job = self.make_mesh_job(ng);
            self.meshing_in_flight.insert(ng);
            jobs.push(job);
            proof {
                assert forall|h: IVec3| #[trigger] self.mesh_set().contains(h)
                    implies self.resident().contains_key(h) by {
                    if h != ng {
                        assert(old(self).mesh_set().contains(h));
                    }
                }
                assert forall|h: IVec3| #[trigger] self.gen_set().contains(h)
                    implies !self.resident().contains_key(h) by {
                    assert(old(self).gen_set().contains(h));
                }
                assert(self.wf());
            }
        }
    }

    /// Drains one generated chunk into the world, as the consumer does at
    /// most once per tick: the coordinate leaves the generation in-flight
    /// set; the chunk becomes resident even when it is empty, so neighbours
    /// can resolve boundary visibility against it; and meshing jobs are
    /// returned for the chunk itself (unless empty) and for every resident
    /// neighbour, deduplicated against the meshing in-flight set.
    #[verifier::rlimit(100)]
    pub fn on_chunk_generated(&mut self, chunk: Chunk) -> (jobs: Vec<MeshJob>)
        requires
            old(self).wf(),
            chunk@.wf(),
            coord_in_margin(chunk@.grid_position, 2),
            forall|g: IVec3|
                #[trigger] old(self).resident().contains_key(g) ==> old(self).resident()[g].size
                    == chunk@.size,
        ensures
            final(self).wf(),
            final(self).spec_render_distance() == old(self).spec_render_distance(),
            final(self).resident() == old(self).resident().insert(chunk@.grid_position, chunk@),
            final(self).gen_set() == old(self).gen_set().remove(chunk@.grid_position),
            ({
                let scheduled = scheduled_meshes(
                    final(self).resident(),
                    old(self).mesh_set(),
                    chunk@.grid_position,
                );
                &&& jobs@.len() == scheduled.len()
                &&& forall|i: int|
                    0 <= i < jobs@.len() ==> valid_mesh_job(
                        #[trigger] jobs@[i],
                        final(self).resident(),
                        scheduled[i],
                    )
                &&& forall|h: IVec3|
                    #[trigger] final(self).mesh_set().contains(h) <==> old(
                        self,
                    ).mesh_set().contains(h) || scheduled.contains(h)
            }),
    {
        let ghost cv = chunk@;
        let ghost orig_mesh = self.meshing_in_flight@;
        let ghost gc = chunk@.grid_position;
        let g = chunk.grid_position();
        self.generation_in_flight.remove(g);
        self.chunks.insert(chunk);
        let ghost m = self.chunks@;
        proof {
            assert(m == old(self).resident().insert(gc, cv));
            assert forall|h: IVec3| #[trigger] m.contains_key(h) implies m[h].wf()
                && m[h].grid_position == h by {
                if h != gc {
                    assert(old(self).resident().contains_key(h));
                }
            }
            assert forall|h1: IVec3, h2: IVec3|
                m.contains_key(h1) && m.contains_key(h2) implies #[trigger] m[h1].size
                == #[trigger] m[h2].size by {
                if h1 != gc {
                    assert(old(self).resident().contains_key(h1));
                }
                if h2 != gc {
                    assert(old(self).resident().contains_key(h2));
                }
            }
            assert forall|h: IVec3| #[trigger] self.gen_set().contains(h) implies !m.contains_key(
                h,
            ) by {
                assert(old(self).gen_set().contains(h));
            }
            assert forall|h: IVec3| #[trigger] self.mesh_set().contains(h) implies m.contains_key(
                h,
            ) by {
                assert(old(self).mesh_set().contains(h));
                assert(old(self).resident().contains_key(h));
            }
            assert(self.wf());
        }
        let mut jobs: Vec<MeshJob> = Vec::new();
        let own_needed = match self.chunks.get(g) {
            Some(c) => !c.is_empty(),
            None => false,
        };
        let ghost p0: Seq<IVec3> = if !m[gc].is_empty() && !orig_mesh.contains(gc) {
            seq![gc]
        } else {
            Seq::<IVec3>::empty()
        };
        proof {
            assert(orig_mesh == self.mesh_set());
        }
        if own_needed && !self.meshing_in_flight.contains(g) {
            let job = self.make_mesh_job(g);
            self.meshing_in_flight.insert(g);
            jobs.push(job);
        }
        proof {
            assert(self.resident() == m);
            assert(self.gen_set() == old(self).gen_set().remove(gc));
            assert forall|h: IVec3|
                #[trigger] self.mesh_set().contains(h) <==> orig_mesh.contains(h)
                    || p0.contains(h) by {
                if p0.len() == 0 {
                    lemma_empty_contains(h);
                    assert(p0 == Seq::<IVec3>::empty());
                } else {
                    lemma_singleton_contains(p0, gc, h);
                }
            }
            assert(jobs@.len() == p0.len());
            assert forall|i: int| 0 <= i < jobs@.len() implies valid_mesh_job(
                #[trigger] jobs@[i],
                m,
                p0[i],
            ) by {}
            assert forall|h: IVec3| #[trigger] self.gen_set().contains(h) implies !m.contains_key(
                h,
            ) by {
                assert(old(self).gen_set().contains(h));
            }
            assert forall|h: IVec3| #[trigger] self.mesh_set().contains(h)
                implies self.resident().contains_key(h) by {
                if orig_mesh.contains(h) {
                    assert(old(self).mesh_set().contains(h));
                    assert(old(self).resident().contains_key(h));
                }
            }
            assert(self.wf());
        }
        let ghost ng1 = neighbour_coord(gc, Axis::X, Direction::Positive);
        let ghost p1 = p0 + maybe_neighbour_job(m, orig_mesh, gc, Axis::X, Direction::Positive);
        let ghost mq1 = self.meshing_in_flight@;
        let ghost jq1 = jobs@;
        proof {
            assert(mq1 == self.mesh_set());
            assert(jq1 == jobs@);
            assert(!p0.contains(ng1)) by {
                if p0.contains(ng1) {
                    let i = choose|i: int| 0 <= i < p0.len() && p0[i] == ng1;
                }
            }
        }
        self.schedule_neighbour_mesh(&mut jobs, g, Axis::X, Direction::Positive);
        proof {
            assert(self.resident() == m);
            assert(self.gen_set() == old(self).gen_set().remove(gc));
            assert forall|h: IVec3|
                #[trigger] self.mesh_set().contains(h) <==> orig_mesh.contains(h)
                    || p1.contains(h) by {
                assert(mq1.contains(h) == (orig_mesh.contains(h) || p0.contains(h)));
                lemma_concat_contains(
                    p0,
                    maybe_neighbour_job(m, orig_mesh, gc, Axis::X, Direction::Positive),
                    h,
                );
                lemma_empty_contains(h);
                lemma_singleton_contains(seq![ng1], ng1, h);
            }
            assert(jobs@.len() == p1.len());
            assert forall|i: int| 0 <= i < jobs@.len() implies valid_mesh_job(
                #[trigger] jobs@[i],
                m,
                p1[i],
            ) by {
                if i < jq1.len() {
                    assert(valid_mesh_job(jq1[i], m, p0[i]));
                }
            }
        }
        let ghost ng2 = neighbour_coord(gc, Axis::X, Direction::Negative);
        let ghost p2 = p1 + maybe_neighbour_job(m, orig_mesh, gc, Axis::X, Direction::Negative);
        let ghost mq2 = self.meshing_in_flight@;
        let ghost jq2 = jobs@;
        proof {
            assert(mq2 == self.mesh_set());
            assert(jq2 == jobs@);
            assert(!p1.contains(ng2)) by {
                if p1.contains(ng2) {
                    let i = choose|i: int| 0 <= i < p1.len() && p1[i] == ng2;
                }
            }
        }
        self.schedule_neighbour_mesh(&mut jobs, g, Axis::X, Direction::Negative);
        proof {
            assert(self.resident() == m);
            assert(self.gen_set() == old(self).gen_set().remove(gc));
            assert forall|h: IVec3|
                #[trigger] self.mesh_set().contains(h) <==> orig_mesh.contains(h)
                    || p2.contains(h) by {
                assert(mq2.contains(h) == (orig_mesh.contains(h) || p1.contains(h)));
                lemma_concat_contains(
                    p1,
                    maybe_neighbour_job(m, orig_mesh, gc, Axis::X, Direction::Negative),
                    h,
                );
                lemma_empty_contains(h);
                lemma_singleton_contains(seq![ng2], ng2, h);
            }
            assert(jobs@.len() == p2.len());
            assert forall|i: int| 0 <= i < jobs@.len() implies valid_mesh_job(
                #[trigger] jobs@[i],
                m,
                p2[i],
            ) by {
                if i < jq2.len() {
                    assert(valid_mesh_job(jq2[i], m, p1[i]));
                }
            }
        }
        let ghost ng3 = neighbour_coord(gc, Axis::Y, Direction::Positive);
        let ghost p3 = p2 + maybe_neighbour_job(m, orig_mesh, gc, Axis::Y, Direction::Positive);
        let ghost mq3 = self.meshing_in_flight@;
        let ghost jq3 = jobs@;
        proof {
            assert(mq3 == self.mesh_set());
            assert(jq3 == jobs@);
            assert(!p2.contains(ng3)) by {
                if p2.contains(ng3) {
                    let i = choose|i: int| 0 <= i < p2.len() && p2[i] == ng3;
                }
            }
        }
        self.schedule_neighbour_mesh(&mut jobs, g, Axis::Y, Direction::Positive);
        proof {
            assert(self.resident() == m);
            assert(self.gen_set() == old(self).gen_set().remove(gc));
            assert forall|h: IVec3|
                #[trigger] self.mesh_set().contains(h) <==> orig_mesh.contains(h)
                    || p3.contains(h) by {
                assert(mq3.contains(h) == (orig_mesh.contains(h) || p2.contains(h)));
                lemma_concat_contains(
                    p2,
                    maybe_neighbour_job(m, orig_mesh, gc, Axis::Y, Direction::Positive),
                    h,
                );
                lemma_empty_contains(h);
                lemma_singleton_contains(seq![ng3], ng3, h);
            }
            assert(jobs@.len() == p3.len());
            assert forall|i: int| 0 <= i < jobs@.len() implies valid_mesh_job(
                #[trigger] jobs@[i],
                m,
                p3[i],
            ) by {
                if i < jq3.len() {
                    assert(valid_mesh_job(jq3[i], m, p2[i]));
                }
            }
        }
        let ghost ng4 = neighbour_coord(gc, Axis::Y, Direction::Negative);
        let ghost p4 = p3 + maybe_neighbour_job(m, orig_mesh, gc, Axis::Y, Direction::Negative);
        let ghost mq4 = self.meshing_in_flight@;
        let ghost jq4 = jobs@;
        proof {
            assert(mq4 == self.mesh_set());
            assert(jq4 == jobs@);
            assert(!p3.contains(ng4)) by {
                if p3.contains(ng4) {
                    let i = choose|i: int| 0 <= i < p3.len() && p3[i] == ng4;
                }
            }
        }
        self.schedule_neighbour_mesh(&mut jobs, g, Axis::Y, Direction::Negative);
        proof {
            assert(self.resident() == m);
            assert(self.gen_set() == old(self).gen_set().remove(gc));
            assert forall|h: IVec3|
                #[trigger] self.mesh_set().contains(h) <==> orig_mesh.contains(h)
                    || p4.contains(h) by {
                assert(mq4.contains(h) == (orig_mesh.contains(h) || p3.contains(h)));
                lemma_concat_contains(
                    p3,
                    maybe_neighbour_job(m, orig_mesh, gc, Axis::Y, Direction::Negative),
                    h,
                );
                lemma_empty_contains(h);
                lemma_singleton_contains(seq![ng4], ng4, h);
            }
            assert(jobs@.len() == p4.len());
            assert forall|i: int| 0 <= i < jobs@.len() implies valid_mesh_job(
                #[trigger] jobs@[i],
                m,
                p4[i],
            ) by {
                if i < jq4.len() {
                    assert(valid_mesh_job(jq4[i], m, p3[i]));
                }
            }
        }
        let ghost ng5 = neighbour_coord(gc, Axis::Z, Direction::Positive);
        let ghost p5 = p4 + maybe_neighbour_job(m, orig_mesh, gc, Axis::Z, Direction::Positive);
        let ghost mq5 = self.meshing_in_flight@;
        let ghost jq5 = jobs@;
        proof {
            assert(mq5 == self.mesh_set());
            assert(jq5 == jobs@);
            assert(!p4.contains(ng5)) by {
                if p4.contains(ng5) {
                    let i = choose|i: int| 0 <= i < p4.len() && p4[i] == ng5;
                }
            }
        }
        self.schedule_neighbour_mesh(&mut jobs, g, Axis::Z, Direction::Positive);
        proof {
            assert(self.resident() == m);
            assert(self.gen_set() == old(self).gen_set().remove(gc));
            assert forall|h: IVec3|
                #[trigger] self.mesh_set().contains(h) <==> orig_mesh.contains(h)
                    || p5.contains(h) by {
                assert(mq5.contains(h) == (orig_mesh.contains(h) || p4.contains(h)));
                lemma_concat_contains(
                    p4,
                    maybe_neighbour_job(m, orig_mesh, gc, Axis::Z, Direction::Positive),
                    h,
                );
                lemma_empty_contains(h);
                lemma_singleton_contains(seq![ng5], ng5, h);
            }
            assert(jobs@.len() == p5.len());
            assert forall|i: int| 0 <= i < jobs@.len() implies valid_mesh_job(
                #[trigger] jobs@[i],
                m,
                p5[i],
            ) by {
                if i < jq5.len() {
                    assert(valid_mesh_job(jq5[i], m, p4[i]));
                }
            }
        }
        let ghost ng6 = neighbour_coord(gc, Axis::Z, Direction::Negative);
        let ghost p6 = p5 + maybe_neighbour_job(m, orig_mesh, gc, Axis::Z, Direction::Negative);
        let ghost mq6 = self.meshing_in_flight@;
        let ghost jq6 = jobs@;
        proof {
            assert(mq6 == self.mesh_set());
            assert(jq6 == jobs@);
            assert(!p5.contains(ng6)) by {
                if p5.contains(ng6) {
                    let i = choose|i: int| 0 <= i < p5.len() && p5[i] == ng6;
                }
            }
        }
        self.schedule_neighbour_mesh(&mut jobs, g, Axis::Z, Direction::Negative);
        proof {
            assert(self.resident() == m);
            assert(self.gen_set() == old(self).gen_set().remove(gc));
            assert forall|h: IVec3|
                #[trigger] self.mesh_set().contains(h) <==> orig_mesh.contains(h)
                    || p6.contains(h) by {
                assert(mq6.contains(h) == (orig_mesh.contains(h) || p5.contains(h)));
                lemma_concat_contains(
                    p5,
                    maybe_neighbour_job(m, orig_mesh, gc, Axis::Z, Direction::Negative),
                    h,
                );
                lemma_empty_contains(h);
                lemma_singleton_contains(seq![ng6], ng6, h);
            }
            assert(jobs@.len() == p6.len());
            assert forall|i: int| 0 <= i < jobs@.len() implies valid_mesh_job(
                #[trigger] jobs@[i],
                m,
                p6[i],
            ) by {
                if i < jq6.len() {
                    assert(valid_mesh_job(jq6[i], m, p5[i]));
                }
            }
        }
        proof {
            let scheduled = scheduled_meshes(m, orig_mesh, gc);
            assert(scheduled == p6);
        }
        jobs
    }

    /// Drains one meshing result into the world, as the consumer does at most
    /// once per tick: the coordinate's meshing in-flight marker is cleared,
    /// and the finished meshes are handed back with the chunk's world
    /// transform so the renderer can replace what it holds for that
    /// coordinate. A result for a chunk that is no longer resident is
    /// discarded as stale.
    pub fn on_mesh_result(
        &mut self,
        grid_position: IVec3,
        solid: Option<Mesh>,
        transparent: Option<Mesh>,
    ) -> (r: Option<RenderUpdate>)
        requires
            old(self).wf(),
        ensures
            final(self).wf(),
            final(self).spec_render_distance() == old(self).spec_render_distance(),
            final(self).resident() == old(self).resident(),
            final(self).gen_set() == old(self).gen_set(),
            final(self).mesh_set() == old(self).mesh_set().remove(grid_position),
            (match r {
                Some(u) => {
                    &&& old(self).resident().contains_key(grid_position)
                    &&& u.grid_position == grid_position
                    &&& ({
                        let c = old(self).resident()[grid_position];
                        &&& u.world_position.x == grid_position.x as int * c.size.x
                        &&& u.world_position.y == grid_position.y as int * c.size.y
                        &&& u.world_position.z == grid_position.z as int * c.size.z
                    })
                    &&& u.solid == solid
                    &&& u.transparent == transparent
                },
                None => !old(self).resident().contains_key(grid_position),
            }),
    {
        self.meshing_in_flight.remove(grid_position);
        proof {
            assert(self.gen_set() == old(self).gen_set());
            assert(self.resident() == old(self).resident());
            assert forall|h: IVec3| #[trigger] self.gen_set().contains(h)
                implies !self.resident().contains_key(h) by {
                assert(old(self).gen_set().contains(h));
            }
            assert forall|h: IVec3| #[trigger] self.mesh_set().contains(h)
                implies self.resident().contains_key(h) by {
                assert(old(self).mesh_set().contains(h));
            }
            assert(self.wf());
        }
        match self.chunks.get(grid_position) {
            Some(chunk) => {
                let world_position = chunk.world_position();
                Some(
                    RenderUpdate {
                        grid_position,
                        world_position,
                        solid,
                        transparent,
                    },
                )
            },
            None => None,
        }
    }

    /// At any instant, no coordinate is dispatched in both pipeline stages at
    /// once: the generation and meshing in-flight sets are disjoint.
    pub proof fn lemma_stage_dedup(self, g: IVec3)
        requires
            self.wf(),
        ensures
            !(self.gen_set().contains(g) && self.mesh_set().contains(g)),
    {
    }
}

} // verus!
