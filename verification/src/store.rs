//! The authoritative mapping from grid coordinate to resident chunk, and the
//! sets of coordinates whose work is in flight. Both are owned by the single
//! consumer thread of the pipeline; workers only ever receive snapshots.

use vstd::prelude::*;

use crate::chunk::{Chunk, ChunkView};
use crate::coords::IVec3;

verus! {

/// The mathematical value of a chunk store: the finite map it represents.
pub open spec fn map_of_chunks(s: Seq<Chunk>) -> Map<IVec3, ChunkView>
    decreases s.len(),
{
    if s.len() == 0 {
        Map::empty()
    } else {
        map_of_chunks(s.drop_last()).insert(s.last()@.grid_position, s.last()@)
    }
}

/// No two entries claim the same grid coordinate.
pub open spec fn chunks_distinct(s: Seq<Chunk>) -> bool {
    forall|i: int, j: int|
        0 <= i < s.len() && 0 <= j < s.len() && i != j ==> s[i]@.grid_position
            != s[j]@.grid_position
}

proof fn lemma_map_of_chunks_properties(s: Seq<Chunk>)
    requires
        chunks_distinct(s),
    ensures
        forall|g: IVec3|
            #[trigger] map_of_chunks(s).contains_key(g) <==> exists|i: int|
                0 <= i < s.len() && s[i]@.grid_position == g,
        forall|i: int|
            0 <= i < s.len() ==> map_of_chunks(s).contains_key(#[trigger] s[i]@.grid_position)
                && map_of_chunks(s)[s[i]@.grid_position] == s[i]@,
    decreases s.len(),
{
    if s.len() > 0 {
        let d = s.drop_last();
        let last = s.last();
        assert(forall|i: int| 0 <= i < d.len() ==> #[trigger] d[i] == s[i]);
        assert(chunks_distinct(d));
        lemma_map_of_chunks_properties(d);
        assert(map_of_chunks(s) == map_of_chunks(d).insert(last@.grid_position, last@));
        assert forall|g: IVec3| #[trigger] map_of_chunks(s).contains_key(g) implies exists|i: int|
            0 <= i < s.len() && s[i]@.grid_position == g by {
            if g == last@.grid_position {
                assert(0 <= s.len() - 1 < s.len() && s[s.len() - 1]@.grid_position == g);
            } else {
                assert(map_of_chunks(d).contains_key(g));
                let i = choose|i: int| 0 <= i < d.len() && d[i]@.grid_position == g;
                assert(0 <= i < s.len() && s[i]@.grid_position == g);
            }
        }
        assert forall|i: int| 0 <= i < s.len() implies map_of_chunks(s).contains_key(
            #[trigger] s[i]@.grid_position,
        ) && map_of_chunks(s)[s[i]@.grid_position] == s[i]@ by {
            if i == s.len() - 1 {
                assert(s[i] == last);
            } else {
                assert(d[i] == s[i]);
                assert(map_of_chunks(d).contains_key(s[i]@.grid_position));
                assert(map_of_chunks(d)[s[i]@.grid_position] == s[i]@);
                assert(s[i]@.grid_position != last@.grid_position);
            }
        }
        assert forall|g: IVec3|
            (exists|i: int| 0 <= i < s.len() && s[i]@.grid_position == g) implies #[trigger]
        map_of_chunks(s).contains_key(g) by {
            let i = choose|i: int| 0 <= i < s.len() && s[i]@.grid_position == g;
            assert(map_of_chunks(s).contains_key(s[i]@.grid_position));
        }
    }
}

proof fn lemma_map_of_chunks_update(s: Seq<Chunk>, i: int, c: Chunk)
    requires
        chunks_distinct(s),
        0 <= i < s.len(),
        s[i]@.grid_position == c@.grid_position,
    ensures
        map_of_chunks(s.update(i, c)) == map_of_chunks(s).insert(c@.grid_position, c@),
    decreases s.len(),
{
    let g = c@.grid_position;
    if i == s.len() - 1 {
        assert(s.update(i, c).drop_last() =~= s.drop_last());
        assert(s.update(i, c).last() == c);
    } else {
        let d = s.drop_last();
        assert(forall|j: int| 0 <= j < d.len() ==> #[trigger] d[j] == s[j]);
        assert(chunks_distinct(d));
        assert(s.update(i, c).drop_last() =~= d.update(i, c));
        assert(s.update(i, c).last() == s.last());
        lemma_map_of_chunks_update(d, i, c);
        assert(s.last()@.grid_position != g);
        assert(map_of_chunks(d).insert(g, c@).insert(
            s.last()@.grid_position,
            s.last()@,
        ) =~= map_of_chunks(d).insert(s.last()@.grid_position, s.last()@).insert(g, c@));
    }
}

/// The store of resident chunks, keyed by grid coordinate.
pub struct ChunkStore {
    entries: Vec<Chunk>,
}

impl View for ChunkStore {
    type V = Map<IVec3, ChunkView>;

    closed spec fn view(&self) -> Map<IVec3, ChunkView> {
        map_of_chunks(self.entries@)
    }
}

impl ChunkStore {
    /// Internal invariant: entries have pairwise distinct grid coordinates.
    pub closed spec fn wf(self) -> bool {
        chunks_distinct(self.entries@)
    }

    /// An empty store.
    pub fn new() -> (r: ChunkStore)
        ensures
            r@ == Map::<IVec3, ChunkView>::empty(),
            r.wf(),
    {
        ChunkStore { entries: Vec::new() }
    }

    /// Removes every chunk from the store.
    pub fn clear(&mut self)
        ensures
            final(self)@ == Map::<IVec3, ChunkView>::empty(),
            final(self).wf(),
    {
        self.entries.clear();
    }

    /// The resident chunk at the given coordinate, if any.
    #[verifier::loop_isolation(false)]
    pub fn get(&self, grid_position: IVec3) -> (r: Option<&Chunk>)
        requires
            self.wf(),
        ensures
            (match r {
                Some(c) => self@.contains_key(grid_position) && self@[grid_position] == c@
                    && c@.grid_position == grid_position,
                None => !self@.contains_key(grid_position),
            }),
    {
        proof {
            lemma_map_of_chunks_properties(self.entries@);
        }
        let mut i: usize = 0;
        while i < self.entries.len()
            invariant
                i <= self.entries@.len(),
                forall|j: int| 0 <= j < i ==> self.entries@[j]@.grid_position != grid_position,
            decreases self.entries@.len() - i,
        {
            if self.entries[i].grid_position() == grid_position {
                return Some(&self.entries[i]);
            }
            i = i + 1;
        }
        None
    }

    /// Whether a chunk is resident at the given coordinate.
    pub fn contains(&self, grid_position: IVec3) -> (r: bool)
        requires
            self.wf(),
        ensures
            r == self@.contains_key(grid_position),
    {
        match self.get(grid_position) {
            Some(_) => true,
            None => false,
        }
    }

    /// Inserts a chunk, replacing any chunk resident at the same coordinate.
    #[verifier::loop_isolation(false)]
    pub fn insert(&mut self, chunk: Chunk)
        requires
            old(self).wf(),
        ensures
            final(self).wf(),
            final(self)@ == old(self)@.insert(chunk@.grid_position, chunk@),
    {
        proof {
            lemma_map_of_chunks_properties(self.entries@);
        }
        let ghost s0 = self.entries@;
        let mut i: usize = 0;
        while i < self.entries.len()
            invariant
                i <= self.entries@.len(),
                self.entries@ == s0,
                forall|j: int|
                    0 <= j < i ==> self.entries@[j]@.grid_position != chunk@.grid_position,
            decreases self.entries@.len() - i,
        {
            if self.entries[i].grid_position() == chunk.grid_position() {
                proof {
                    lemma_map_of_chunks_update(self.entries@, i as int, chunk);
                }
                self.entries[i] = chunk;
                proof {
                    assert(chunks_distinct(self.entries@));
                }
                return;
            }
            i = i + 1;
        }
        self.entries.push(chunk);
        proof {
            assert(self.entries@.drop_last() =~= s0);
            assert(self.entries@.last() == chunk);
            assert(chunks_distinct(self.entries@));
        }
    }
}

/// A set of grid coordinates: the bookkeeping of work in flight for one
/// pipeline stage.
pub struct CoordSet {
    entries: Vec<IVec3>,
}

impl View for CoordSet {
    type V = Set<IVec3>;

    closed spec fn view(&self) -> Set<IVec3> {
        Set::new(|g: IVec3| self.entries@.contains(g))
    }
}

impl CoordSet {
    /// Internal invariant: no coordinate is listed twice.
    pub closed spec fn wf(self) -> bool {
        forall|i: int, j: int|
            0 <= i < self.entries@.len() && 0 <= j < self.entries@.len() && i != j
                ==> self.entries@[i] != self.entries@[j]
    }

    /// An empty set.
    pub fn new() -> (r: CoordSet)
        ensures
            r@ == Set::<IVec3>::empty(),
            r.wf(),
    {
        let r = CoordSet { entries: Vec::new() };
        proof {
            assert(r@ =~= Set::<IVec3>::empty());
        }
        r
    }

    /// Removes every coordinate.
    pub fn clear(&mut self)
        ensures
            final(self)@ == Set::<IVec3>::empty(),
            final(self).wf(),
    {
        self.entries.clear();
        proof {
            assert(self@ =~= Set::<IVec3>::empty());
        }
    }

    /// Whether the set holds the given coordinate.
    #[verifier::loop_isolation(false)]
    pub fn contains(&self, g: IVec3) -> (r: bool)
        ensures
            r == self@.contains(g),
    {
        let mut i: usize = 0;
        while i < self.entries.len()
            invariant
                i <= self.entries@.len(),
                forall|j: int| 0 <= j < i ==> self.entries@[j] != g,
            decreases self.entries@.len() - i,
        {
            if self.entries[i] == g {
                return true;
            }
            i = i + 1;
        }
        proof {
            assert(!self.entries@.contains(g));
        }
        false
    }

    /// Adds a coordinate; adding one already present changes nothing.
    pub fn insert(&mut self, g: IVec3)
        requires
            old(self).wf(),
        ensures
            final(self).wf(),
            final(self)@ == old(self)@.insert(g),
    {
        if !self.contains(g) {
            let ghost s0 = self.entries@;
            self.entries.push(g);
            proof {
                broadcast use vstd::seq_lib::lemma_seq_contains_after_push;

                assert(self@ =~= old(self)@.insert(g));
            }
        } else {
            proof {
                assert(self@ =~= old(self)@.insert(g));
            }
        }
    }

    /// Removes a coordinate; removing an absent one changes nothing.
    #[verifier::loop_isolation(false)]
    pub fn remove(&mut self, g: IVec3)
        requires
            old(self).wf(),
        ensures
            final(self).wf(),
            final(self)@ == old(self)@.remove(g),
    {
        let ghost s0 = self.entries@;
        let mut i: usize = 0;
        while i < self.entries.len()
            invariant
                i <= self.entries@.len(),
                self.entries@ == s0,
                forall|j: int| 0 <= j < i ==> self.entries@[j] != g,
            decreases self.entries@.len() - i,
        {
            if self.entries[i] == g {
                self.entries.swap_remove(i);
                proof {
                    let s1 = self.entries@;
                    assert forall|h: IVec3| s1.contains(h) implies s0.contains(h) && h != g by {
                        let k = choose|k: int| 0 <= k < s1.len() && s1[k] == h;
                        if k == i {
                            assert(s0[s0.len() - 1] == h);
                        } else {
                            assert(s0[k] == h);
                        }
                    }
                    assert forall|h: IVec3| s0.contains(h) && h != g implies s1.contains(h) by {
                        let k = choose|k: int| 0 <= k < s0.len() && s0[k] == h;
                        if k == s0.len() - 1 {
                            if i < s0.len() - 1 {
                                assert(s1[i as int] == h);
                            } else {
                                assert(s0[i as int] == g);
                            }
                        } else {
                            assert(s1[k] == h);
                        }
                    }
                    assert(self@ =~= old(self)@.remove(g));
                    assert forall|a: int, b: int|
                        0 <= a < s1.len() && 0 <= b < s1.len() && a != b implies s1[a]
                        != s1[b] by {
                        assert(s1.len() == s0.len() - 1);
                    }
                }
                return;
            }
            i = i + 1;
        }
        proof {
            assert(!s0.contains(g));
            assert(self@ =~= old(self)@.remove(g));
        }
    }
}

} // verus!
