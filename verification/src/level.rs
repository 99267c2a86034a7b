//! One playable level: the eight record sequences read from a level's
//! fixed-offset lump block, cross-reference accessors over them, the
//! derived sector-to-things membership map, and the lazy sector adjacency
//! queries with their light and height folds.

use vstd::prelude::*;

use multimap::MultiMap;
use std::collections::HashMap;

use crate::archive::{lump_bytes, lump_in_bounds, Archive};
use crate::error::WadError;
use crate::records::{records_of, Record};
use crate::records::{WadLinedef, WadNode, WadSector, WadSeg, WadSidedef, WadSubsector, WadThing,
    WadVertex};

verus! {

broadcast use vstd::std_specs::hash::group_hash_axioms;

// ---------------------------------------------------------------------------
// Trusted boundary: the vertex-to-vertex edge multimap used by the sector
// boundary walk comes from the multimap crate; the point-in-polygon test
// used for thing assignment comes from geo. Their results are named by
// `multi_map_of` and `point_in_polygon`, and the operations carry the
// contracts that the crates' sources show.
// ---------------------------------------------------------------------------

#[verifier::external_type_specification]
#[verifier::external_body]
#[verifier::reject_recursive_types(K)]
#[verifier::reject_recursive_types(V)]
#[verifier::reject_recursive_types(S)]
pub struct ExMultiMap<K, V, S>(MultiMap<K, V, S>);

/// The edge multimap's concrete shape: vertex id to adjacent vertex ids.
pub type VertexEdgeMap = MultiMap<u16, u16>;

/// What a vertex edge multimap holds: each stored key's vector of values,
/// in insertion order.
pub uninterp spec fn multi_map_of(m: VertexEdgeMap) -> Map<u16, Seq<u16>>;

/// The empty edge multimap contents.
pub open spec fn empty_edge_map() -> Map<u16, Seq<u16>> {
    Map::empty()
}

/// What multimap's `insert` does to the contents: push onto an existing
/// key's vector, or bind the key to a one-element vector.
pub open spec fn edge_map_insert(m: Map<u16, Seq<u16>>, k: u16, v: u16) -> Map<u16, Seq<u16>> {
    if m.contains_key(k) {
        m.insert(k, m[k].push(v))
    } else {
        m.insert(k, seq![v])
    }
}

/// Relies on multimap's `MultiMap::new`; nothing is assumed of the result,
/// which is emptied through `mm_clear` before use.
#[verifier::external_body]
fn mm_new() -> VertexEdgeMap {
    MultiMap::new()
}

/// Relies on multimap's `MultiMap::clear`: removes every key.
#[verifier::external_body]
fn mm_clear(m: &mut VertexEdgeMap)
    ensures
        multi_map_of(*final(m)) == empty_edge_map(),
{
    m.clear();
}

/// Relies on multimap's `MultiMap::insert`: pushes the value onto the
/// key's vector, creating the vector when the key is new.
#[verifier::external_body]
fn mm_insert(m: &mut VertexEdgeMap, k: u16, v: u16)
    ensures
        multi_map_of(*final(m)) == edge_map_insert(multi_map_of(*old(m)), k, v),
{
    m.insert(k, v);
}

/// Relies on multimap's `MultiMap::remove`: removes a key entirely,
/// returning its whole value vector if the key was present.
#[verifier::external_body]
fn mm_remove(m: &mut VertexEdgeMap, k: u16) -> (r: Option<Vec<u16>>)
    ensures
        multi_map_of(*old(m)).contains_key(k) ==> (r matches Some(vs) && vs@ == multi_map_of(
            *old(m),
        )[k] && multi_map_of(*final(m)) == multi_map_of(*old(m)).remove(k)),
        !multi_map_of(*old(m)).contains_key(k) ==> r is None && multi_map_of(*final(m))
            == multi_map_of(*old(m)),
{
    m.remove(&k)
}

/// Relies on multimap's `MultiMap::is_empty`: true exactly when no key is
/// stored.
#[verifier::external_body]
fn mm_is_empty(m: &VertexEdgeMap) -> (r: bool)
    ensures
        r == (multi_map_of(*m).dom() == Set::<u16>::empty()),
{
    m.is_empty()
}

/// Relies on multimap's `MultiMap::keys`: hands out some stored key if any
/// exists. The iteration order is arbitrary, so nothing more is assumed of
/// which key comes back.
#[verifier::external_body]
fn mm_first_key(m: &VertexEdgeMap) -> (r: Option<u16>)
    ensures
        r matches Some(k) ==> multi_map_of(*m).dom().contains(k),
        r is None ==> multi_map_of(*m).dom() == Set::<u16>::empty(),
{
    m.keys().next().copied()
}

/// A polygon vertex or query point as a pair of mathematical integers.
pub open spec fn poly_points(poly: Seq<(i64, i64)>) -> Seq<(int, int)> {
    poly.map_values(|p: (i64, i64)| (p.0 as int, p.1 as int))
}

/// Whether a point lies inside the simple polygon with the given vertex
/// ring; the answer depends on the vertices and the point alone.
pub uninterp spec fn point_in_polygon(poly: Seq<(int, int)>, x: int, y: int) -> bool;

/// A coordinate pair within the 16-bit range the map format stores.
pub open spec fn in_coord_range(p: (i64, i64)) -> bool {
    -0x8000 <= p.0 <= 0x7fff && -0x8000 <= p.1 <= 0x7fff
}

/// Relies on geo's `Polygon` construction (`LineString::from` closes the
/// exterior ring) and its point-in-polygon `Contains` implementation for
/// integer coordinates. The coordinate bound keeps the predicate kernel's
/// arithmetic far from overflow.
#[verifier::external_body]
fn geo_polygon_contains(poly: &Vec<(i64, i64)>, x: i64, y: i64) -> (r: bool)
    requires
        forall|j: int| 0 <= j < poly@.len() ==> in_coord_range(#[trigger] poly@[j]),
        -0x8000 <= x <= 0x7fff,
        -0x8000 <= y <= 0x7fff,
    ensures
        r == point_in_polygon(poly_points(poly@), x as int, y as int),
{
    let ring: geo::LineString<i64> = geo::LineString::from(poly.clone());
    let polygon: geo::Polygon<i64> = geo::Polygon::new(ring, vec![]);
    geo::Contains::contains(&polygon, &geo::Point::new(x, y))
}

// ---------------------------------------------------------------------------
// The level and its cross-reference accessors.
// ---------------------------------------------------------------------------

/// Indices into a `things` sequence of the given length.
pub open spec fn indices_below(entry: Seq<usize>, n: int) -> bool {
    forall|j: int| 0 <= j < entry.len() ==> entry[j] < n
}

/// A loaded level: the eight record sequences of its lump block plus the
/// derived sector-to-things membership map. Immutable once loaded.
pub struct Level {
    pub things: Vec<WadThing>,
    pub linedefs: Vec<WadLinedef>,
    pub sidedefs: Vec<WadSidedef>,
    pub vertices: Vec<WadVertex>,
    pub segs: Vec<WadSeg>,
    pub subsectors: Vec<WadSubsector>,
    pub nodes: Vec<WadNode>,
    pub sectors: Vec<WadSector>,
    pub things_by_sector: HashMap<usize, Vec<usize>>,
}

impl Level {
    /// Every stored thing index points into `things`.
    pub open spec fn wf(&self) -> bool {
        forall|s: usize|
            #[trigger] self.things_by_sector@.contains_key(s) ==> indices_below(
                self.things_by_sector@[s]@,
                self.things@.len() as int,
            )
    }

    /// The planar coordinate of a vertex id, or `None` when out of range.
    pub open spec fn spec_vertex(&self, id: u16) -> Option<WadVertex> {
        if (id as int) < self.vertices@.len() {
            Some(self.vertices@[id as int])
        } else {
            None
        }
    }

    pub fn vertex(&self, id: u16) -> (r: Option<WadVertex>)
        ensures
            r == self.spec_vertex(id),
    {
        if (id as usize) < self.vertices.len() {
            Some(self.vertices[id as usize])
        } else {
            None
        }
    }

    /// The linedef a seg belongs to, or `None` for an out-of-range id.
    pub open spec fn spec_seg_linedef(&self, seg: WadSeg) -> Option<WadLinedef> {
        if (seg.linedef as int) < self.linedefs@.len() {
            Some(self.linedefs@[seg.linedef as int])
        } else {
            None
        }
    }

    pub fn seg_linedef(&self, seg: &WadSeg) -> (r: Option<WadLinedef>)
        ensures
            r == self.spec_seg_linedef(*seg),
    {
        if (seg.linedef as usize) < self.linedefs.len() {
            Some(self.linedefs[seg.linedef as usize])
        } else {
            None
        }
    }

    /// A seg's two endpoint coordinates, when both vertex ids resolve.
    pub open spec fn spec_seg_vertices(&self, seg: WadSeg) -> Option<(WadVertex, WadVertex)> {
        match (self.spec_vertex(seg.start_vertex), self.spec_vertex(seg.end_vertex)) {
            (Some(v1), Some(v2)) => Some((v1, v2)),
            _ => None,
        }
    }

    pub fn seg_vertices(&self, seg: &WadSeg) -> (r: Option<(WadVertex, WadVertex)>)
        ensures
            r == self.spec_seg_vertices(*seg),
    {
        match (self.vertex(seg.start_vertex), self.vertex(seg.end_vertex)) {
            (Some(v1), Some(v2)) => Some((v1, v2)),
            _ => None,
        }
    }

    /// A linedef's left sidedef; the id -1 means "none", and any other
    /// unresolvable id is also absent.
    pub open spec fn spec_left_sidedef(&self, linedef: WadLinedef) -> Option<WadSidedef> {
        if linedef.left_side >= 0 && (linedef.left_side as int) < self.sidedefs@.len() {
            Some(self.sidedefs@[linedef.left_side as int])
        } else {
            None
        }
    }

    pub fn left_sidedef(&self, linedef: &WadLinedef) -> (r: Option<WadSidedef>)
        ensures
            r == self.spec_left_sidedef(*linedef),
    {
        if linedef.left_side >= 0 && (linedef.left_side as usize) < self.sidedefs.len() {
            Some(self.sidedefs[linedef.left_side as usize])
        } else {
            None
        }
    }

    /// A linedef's right sidedef; same absence rules as the left one.
    pub open spec fn spec_right_sidedef(&self, linedef: WadLinedef) -> Option<WadSidedef> {
        if linedef.right_side >= 0 && (linedef.right_side as int) < self.sidedefs@.len() {
            Some(self.sidedefs@[linedef.right_side as int])
        } else {
            None
        }
    }

    pub fn right_sidedef(&self, linedef: &WadLinedef) -> (r: Option<WadSidedef>)
        ensures
            r == self.spec_right_sidedef(*linedef),
    {
        if linedef.right_side >= 0 && (linedef.right_side as usize) < self.sidedefs.len() {
            Some(self.sidedefs[linedef.right_side as usize])
        } else {
            None
        }
    }

    /// The sidedef a seg faces, selected by its direction flag: direction
    /// 0 faces the linedef's right side, anything else the left.
    pub open spec fn spec_seg_sidedef(&self, seg: WadSeg) -> Option<WadSidedef> {
        match self.spec_seg_linedef(seg) {
            Some(line) => if seg.direction == 0 {
                self.spec_right_sidedef(line)
            } else {
                self.spec_left_sidedef(line)
            },
            None => None,
        }
    }

    pub fn seg_sidedef(&self, seg: &WadSeg) -> (r: Option<WadSidedef>)
        ensures
            r == self.spec_seg_sidedef(*seg),
    {
        match self.seg_linedef(seg) {
            Some(line) => if seg.direction == 0 {
                self.right_sidedef(&line)
            } else {
                self.left_sidedef(&line)
            },
            None => None,
        }
    }

    /// The sidedef on the side a seg faces away from.
    pub open spec fn spec_seg_back_sidedef(&self, seg: WadSeg) -> Option<WadSidedef> {
        match self.spec_seg_linedef(seg) {
            Some(line) => if seg.direction == 1 {
                self.spec_right_sidedef(line)
            } else {
                self.spec_left_sidedef(line)
            },
            None => None,
        }
    }

    pub fn seg_back_sidedef(&self, seg: &WadSeg) -> (r: Option<WadSidedef>)
        ensures
            r == self.spec_seg_back_sidedef(*seg),
    {
        match self.seg_linedef(seg) {
            Some(line) => if seg.direction == 1 {
                self.right_sidedef(&line)
            } else {
                self.left_sidedef(&line)
            },
            None => None,
        }
    }

    /// The sector a sidedef binds to, or `None` for an out-of-range id.
    pub open spec fn spec_sidedef_sector(&self, sidedef: WadSidedef) -> Option<WadSector> {
        if (sidedef.sector as int) < self.sectors@.len() {
            Some(self.sectors@[sidedef.sector as int])
        } else {
            None
        }
    }

    pub fn sidedef_sector(&self, sidedef: &WadSidedef) -> (r: Option<WadSector>)
        ensures
            r == self.spec_sidedef_sector(*sidedef),
    {
        if (sidedef.sector as usize) < self.sectors.len() {
            Some(self.sectors[sidedef.sector as usize])
        } else {
            None
        }
    }

    /// The sector in front of a seg.
    pub open spec fn spec_seg_sector(&self, seg: WadSeg) -> Option<WadSector> {
        match self.spec_seg_sidedef(seg) {
            Some(side) => self.spec_sidedef_sector(side),
            None => None,
        }
    }

    pub fn seg_sector(&self, seg: &WadSeg) -> (r: Option<WadSector>)
        ensures
            r == self.spec_seg_sector(*seg),
    {
        match self.seg_sidedef(seg) {
            Some(side) => self.sidedef_sector(&side),
            None => None,
        }
    }

    /// The sector behind a seg.
    pub open spec fn spec_seg_back_sector(&self, seg: WadSeg) -> Option<WadSector> {
        match self.spec_seg_back_sidedef(seg) {
            Some(side) => self.spec_sidedef_sector(side),
            None => None,
        }
    }

    pub fn seg_back_sector(&self, seg: &WadSeg) -> (r: Option<WadSector>)
        ensures
            r == self.spec_seg_back_sector(*seg),
    {
        match self.seg_back_sidedef(seg) {
            Some(side) => self.sidedef_sector(&side),
            None => None,
        }
    }

    /// The subsector at an index.
    pub open spec fn spec_ssector(&self, index: usize) -> Option<WadSubsector> {
        if (index as int) < self.subsectors@.len() {
            Some(self.subsectors@[index as int])
        } else {
            None
        }
    }

    pub fn ssector(&self, index: usize) -> (r: Option<WadSubsector>)
        ensures
            r == self.spec_ssector(index),
    {
        if index < self.subsectors.len() {
            Some(self.subsectors[index])
        } else {
            None
        }
    }

    /// A subsector's contiguous run of segs, or `None` when the run would
    /// exceed the seg sequence.
    pub open spec fn spec_ssector_segs(&self, ssector: WadSubsector) -> Option<Seq<WadSeg>> {
        let start = ssector.first_seg as int;
        let end = start + ssector.num_segs as int;
        if end <= self.segs@.len() {
            Some(self.segs@.subrange(start, end))
        } else {
            None
        }
    }

    pub fn ssector_segs(&self, ssector: WadSubsector) -> (r: Option<Vec<WadSeg>>)
        ensures
            match r {
                Some(v) => self.spec_ssector_segs(ssector) == Some(v@),
                None => self.spec_ssector_segs(ssector) is None,
            },
    {
        let start: usize = ssector.first_seg as usize;
        let count: usize = ssector.num_segs as usize;
        let total: usize = self.segs.len();
        if count <= total && start <= total - count {
            let mut v: Vec<WadSeg> = Vec::new();
            for t in 0..count
                invariant
                    start + count <= total,
                    total == self.segs@.len(),
                    v@.len() == t,
                    forall|u: int| 0 <= u < t ==> v@[u] == self.segs@[start + u],
            {
                v.push(self.segs[start + t]);
            }
            proof {
                assert(v@ =~= self.segs@.subrange(
                    start as int,
                    start as int + ssector.num_segs as int,
                ));
            }
            Some(v)
        } else {
            None
        }
    }

    /// A sector's stable identity: its position in the sector sequence,
    /// reduced to the 16-bit id space the sidedefs use.
    pub open spec fn spec_sector_id(&self, sector_index: usize) -> u16 {
        ((sector_index as int) % 0x10000) as u16
    }

    pub fn sector_id(&self, sector_index: usize) -> (r: u16)
        requires
            sector_index < self.sectors@.len(),
        ensures
            r == self.spec_sector_id(sector_index),
    {
        (sector_index % 0x10000) as u16
    }

    /// A sidedef's stable identity: its position in the sidedef sequence,
    /// reduced to the 16-bit id space the linedefs use.
    pub fn sidedef_id(&self, sidedef_index: usize) -> (r: u16)
        requires
            sidedef_index < self.sidedefs@.len(),
        ensures
            r as int == (sidedef_index as int) % 0x10000,
    {
        (sidedef_index % 0x10000) as u16
    }

    /// What scanning linedef `i` contributes to the adjacency of sector
    /// `sid`: when both sidedefs resolve and exactly one of their sectors
    /// is `sid`, the other side's sector id — provided it resolves;
    /// a dangling opposite id is skipped as a data error.
    pub open spec fn spec_adjacent_at(&self, sid: u16, i: int) -> Option<u16> {
        let line = self.linedefs@[i];
        match (self.spec_left_sidedef(line), self.spec_right_sidedef(line)) {
            (Some(ls), Some(rs)) => if ls.sector == sid && rs.sector != sid {
                if (rs.sector as int) < self.sectors@.len() {
                    Some(rs.sector)
                } else {
                    None
                }
            } else if rs.sector == sid && ls.sector != sid {
                if (ls.sector as int) < self.sectors@.len() {
                    Some(ls.sector)
                } else {
                    None
                }
            } else {
                None
            },
            _ => None,
        }
    }

    /// The next adjacency yield at or after linedef position `from`:
    /// the position just past it and the adjacent sector id.
    pub open spec fn spec_next_adjacent(&self, sid: u16, from: int) -> Option<(int, u16)>
        decreases self.linedefs@.len() - from,
    {
        if from < 0 || from >= self.linedefs@.len() {
            None
        } else {
            match self.spec_adjacent_at(sid, from) {
                Some(id) => Some((from + 1, id)),
                None => self.spec_next_adjacent(sid, from + 1),
            }
        }
    }

    /// Some linedef among the first `n` yields `other` as adjacent.
    pub open spec fn spec_is_adjacent_upto(&self, sid: u16, other: u16, n: int) -> bool {
        exists|i: int| 0 <= i < n && #[trigger] self.spec_adjacent_at(sid, i) == Some(other)
    }

    /// A sector is adjacent to `sid` when some linedef yields it.
    pub open spec fn spec_is_adjacent(&self, sid: u16, other: u16) -> bool {
        self.spec_is_adjacent_upto(sid, other, self.linedefs@.len() as int)
    }

    /// What `spec_next_adjacent` finds: the first yield at or after
    /// `from`, with nothing yielded in between.
    proof fn lemma_next_adjacent_props(&self, sid: u16, from: int)
        requires
            0 <= from,
        ensures
            match self.spec_next_adjacent(sid, from) {
                Some(pi) => from < pi.0 <= self.linedefs@.len() && self.spec_adjacent_at(
                    sid,
                    pi.0 - 1,
                ) == Some(pi.1) && (forall|j: int|
                    from <= j < pi.0 - 1 ==> #[trigger] self.spec_adjacent_at(sid, j) is None),
                None => forall|j: int|
                    from <= j < self.linedefs@.len() ==> #[trigger] self.spec_adjacent_at(
                        sid,
                        j,
                    ) is None,
            },
        decreases self.linedefs@.len() - from,
    {
        if from < self.linedefs@.len() {
            if self.spec_adjacent_at(sid, from) is None {
                self.lemma_next_adjacent_props(sid, from + 1);
            }
        }
    }

    /// A restartable, non-caching iteration over the sectors adjacent to a
    /// sector: a linear scan of the linedefs, one full scan per query.
    pub fn adjacent_sectors<'a>(&'a self, sector_index: usize) -> (r: AdjacentSectorsIter<'a>)
        requires
            sector_index < self.sectors@.len(),
        ensures
            r.level_spec() == *self,
            r.sector_spec() == self.spec_sector_id(sector_index),
            r.pos_spec() == 0,
            r.wf(),
    {
        let sid: u16 = self.sector_id(sector_index);
        AdjacentSectorsIter { level: self, sector: sid, pos: 0 }
    }

    /// The minimum light level over the sector itself and the adjacency
    /// yields of the first `n` linedefs.
    pub open spec fn spec_min_light_upto(&self, sid: u16, seed: u16, n: int) -> u16
        decreases n,
    {
        if n <= 0 {
            seed
        } else {
            let prev = self.spec_min_light_upto(sid, seed, n - 1);
            match self.spec_adjacent_at(sid, n - 1) {
                Some(id) => if self.sectors@[id as int].light < prev {
                    self.sectors@[id as int].light
                } else {
                    prev
                },
                None => prev,
            }
        }
    }

    /// The minimum light level over a sector and all its neighbours.
    pub open spec fn spec_min_light(&self, sector_index: usize) -> u16 {
        self.spec_min_light_upto(
            self.spec_sector_id(sector_index),
            self.sectors@[sector_index as int].light,
            self.linedefs@.len() as int,
        )
    }

    /// Fold the minimum light level over a sector and its neighbours; it
    /// never exceeds the sector's own light level.
    pub fn sector_min_light(&self, sector_index: usize) -> (r: u16)
        requires
            sector_index < self.sectors@.len(),
        ensures
            r == self.spec_min_light(sector_index),
            r <= self.sectors@[sector_index as int].light,
    {
        let seed: u16 = self.sectors[sector_index].light;
        let sid: u16 = self.sector_id(sector_index);
        let mut it = self.adjacent_sectors(sector_index);
        let mut acc: u16 = seed;
        loop
            invariant
                it.wf(),
                it.level_spec() == *self,
                it.sector_spec() == sid,
                sector_index < self.sectors@.len(),
                sid == self.spec_sector_id(sector_index),
                seed == self.sectors@[sector_index as int].light,
                acc == self.spec_min_light_upto(sid, seed, it.pos_spec() as int),
            ensures
                acc == self.spec_min_light_upto(sid, seed, self.linedefs@.len() as int),
            decreases self.linedefs@.len() - it.pos_spec(),
        {
            let ghost pos0 = it.pos_spec() as int;
            proof {
                self.lemma_next_adjacent_props(sid, pos0);
            }
            match it.next() {
                Some(id) => {
                    proof {
                        self.lemma_min_light_stable(sid, seed, pos0, it.pos_spec() as int - 1);
                    }
                    let light: u16 = self.sectors[id as usize].light;
                    if light < acc {
                        acc = light;
                    }
                },
                None => {
                    proof {
                        self.lemma_min_light_stable(
                            sid,
                            seed,
                            pos0,
                            self.linedefs@.len() as int,
                        );
                    }
                    break ;
                },
            }
        }
        proof {
            self.lemma_min_light_le_seed(sid, seed, self.linedefs@.len() as int);
        }
        acc
    }

    /// Positions that yield nothing leave the light fold unchanged.
    proof fn lemma_min_light_stable(&self, sid: u16, seed: u16, a: int, b: int)
        requires
            0 <= a <= b,
            forall|j: int| a <= j < b ==> #[trigger] self.spec_adjacent_at(sid, j) is None,
        ensures
            self.spec_min_light_upto(sid, seed, b) == self.spec_min_light_upto(sid, seed, a),
        decreases b - a,
    {
        if b > a {
            self.lemma_min_light_stable(sid, seed, a, b - 1);
        }
    }

    /// The light fold never exceeds its seed.
    proof fn lemma_min_light_le_seed(&self, sid: u16, seed: u16, n: int)
        ensures
            self.spec_min_light_upto(sid, seed, n) <= seed,
        decreases n,
    {
        if n > 0 {
            self.lemma_min_light_le_seed(sid, seed, n - 1);
        }
    }

    /// One step of the neighbour-heights fold.
    pub open spec fn spec_nh_step(
        acc: Option<NeighbourHeights>,
        of_floor: i16,
        s: WadSector,
    ) -> Option<NeighbourHeights> {
        match acc {
            Some(h) => Some(
                NeighbourHeights {
                    lowest_floor: min_coord(h.lowest_floor, s.floor_height),
                    next_floor: if s.floor_height <= of_floor {
                        h.next_floor
                    } else {
                        match h.next_floor {
                            Some(nf) => Some(min_coord(nf, s.floor_height)),
                            None => Some(s.floor_height),
                        }
                    },
                    highest_floor: max_coord(h.highest_floor, s.floor_height),
                    lowest_ceiling: min_coord(h.lowest_ceiling, s.ceiling_height),
                    highest_ceiling: max_coord(h.highest_ceiling, s.ceiling_height),
                },
            ),
            None => Some(
                NeighbourHeights {
                    lowest_floor: s.floor_height,
                    next_floor: if s.floor_height > of_floor {
                        Some(s.floor_height)
                    } else {
                        None
                    },
                    highest_floor: s.floor_height,
                    lowest_ceiling: s.ceiling_height,
                    highest_ceiling: s.ceiling_height,
                },
            ),
        }
    }

    /// The neighbour-heights fold over the adjacency yields of the first
    /// `n` linedefs; `None` until a first neighbour is seen.
    pub open spec fn spec_nh_upto(&self, sid: u16, of_floor: i16, n: int) -> Option<
        NeighbourHeights,
    >
        decreases n,
    {
        if n <= 0 {
            None
        } else {
            let prev = self.spec_nh_upto(sid, of_floor, n - 1);
            match self.spec_adjacent_at(sid, n - 1) {
                Some(id) => Self::spec_nh_step(prev, of_floor, self.sectors@[id as int]),
                None => prev,
            }
        }
    }

    /// The neighbour heights of a sector over all its neighbours.
    pub open spec fn spec_neighbour_heights(&self, sector_index: usize) -> Option<
        NeighbourHeights,
    > {
        self.spec_nh_upto(
            self.spec_sector_id(sector_index),
            self.sectors@[sector_index as int].floor_height,
            self.linedefs@.len() as int,
        )
    }

    /// Fold the neighbours' floor and ceiling heights: lowest and highest
    /// of each, plus the lowest neighbour floor strictly above the
    /// sector's own floor. `None` exactly when no neighbour resolves; when
    /// present, each lowest bound is at most its highest bound.
    pub fn neighbour_heights(&self, sector_index: usize) -> (r: Option<NeighbourHeights>)
        requires
            sector_index < self.sectors@.len(),
        ensures
            r == self.spec_neighbour_heights(sector_index),
            (r is Some) <==> (exists|other: u16|
                #[trigger] self.spec_is_adjacent(self.spec_sector_id(sector_index), other)),
            r matches Some(h) ==> h.lowest_floor <= h.highest_floor && h.lowest_ceiling
                <= h.highest_ceiling,
    {
        let of_floor: i16 = self.sectors[sector_index].floor_height;
        let sid: u16 = self.sector_id(sector_index);
        let mut it = self.adjacent_sectors(sector_index);
        let mut acc: Option<NeighbourHeights> = None;
        loop
            invariant
                it.wf(),
                it.level_spec() == *self,
                it.sector_spec() == sid,
                sector_index < self.sectors@.len(),
                sid == self.spec_sector_id(sector_index),
                of_floor == self.sectors@[sector_index as int].floor_height,
                acc == self.spec_nh_upto(sid, of_floor, it.pos_spec() as int),
                acc matches Some(h) ==> h.lowest_floor <= h.highest_floor && h.lowest_ceiling
                    <= h.highest_ceiling,
                acc is Some ==> (exists|other: u16|
                    #[trigger] self.spec_is_adjacent(sid, other)),
            ensures
                acc == self.spec_nh_upto(sid, of_floor, self.linedefs@.len() as int),
                acc matches Some(h) ==> h.lowest_floor <= h.highest_floor && h.lowest_ceiling
                    <= h.highest_ceiling,
                acc is Some ==> (exists|other: u16|
                    #[trigger] self.spec_is_adjacent(sid, other)),
            decreases self.linedefs@.len() - it.pos_spec(),
        {
            let ghost pos0 = it.pos_spec() as int;
            proof {
                self.lemma_next_adjacent_props(sid, pos0);
            }
            match it.next() {
                Some(id) => {
                    proof {
                        self.lemma_nh_stable(sid, of_floor, pos0, it.pos_spec() as int - 1);
                        assert(self.spec_adjacent_at(sid, it.pos_spec() as int - 1) == Some(id));
                        assert(self.spec_is_adjacent(sid, id));
                    }
                    let s: WadSector = self.sectors[id as usize];
                    let floor: i16 = s.floor_height;
                    let ceiling: i16 = s.ceiling_height;
                    acc = match acc {
                        Some(h) => Some(
                            NeighbourHeights {
                                lowest_floor: if floor < h.lowest_floor {
                                    floor
                                } else {
                                    h.lowest_floor
                                },
                                next_floor: if floor <= of_floor {
                                    h.next_floor
                                } else {
                                    match h.next_floor {
                                        Some(nf) => Some(
                                            if floor < nf {
                                                floor
                                            } else {
                                                nf
                                            },
                                        ),
                                        None => Some(floor),
                                    }
                                },
                                highest_floor: if floor > h.highest_floor {
                                    floor
                                } else {
                                    h.highest_floor
                                },
                                lowest_ceiling: if ceiling < h.lowest_ceiling {
                                    ceiling
                                } else {
                                    h.lowest_ceiling
                                },
                                highest_ceiling: if ceiling > h.highest_ceiling {
                                    ceiling
                                } else {
                                    h.highest_ceiling
                                },
                            },
                        ),
                        None => Some(
                            NeighbourHeights {
                                lowest_floor: floor,
                                next_floor: if floor > of_floor {
                                    Some(floor)
                                } else {
                                    None
                                },
                                highest_floor: floor,
                                lowest_ceiling: ceiling,
                                highest_ceiling: ceiling,
                            },
                        ),
                    };
                },
                None => {
                    proof {
                        self.lemma_nh_stable(sid, of_floor, pos0, self.linedefs@.len() as int);
                    }
                    break ;
                },
            }
        }
        proof {
            if acc is None {
                self.lemma_nh_none(sid, of_floor, self.linedefs@.len() as int);
            }
        }
        acc
    }

    /// Positions that yield nothing leave the heights fold unchanged.
    proof fn lemma_nh_stable(&self, sid: u16, of_floor: i16, a: int, b: int)
        requires
            0 <= a <= b,
            forall|j: int| a <= j < b ==> #[trigger] self.spec_adjacent_at(sid, j) is None,
        ensures
            self.spec_nh_upto(sid, of_floor, b) == self.spec_nh_upto(sid, of_floor, a),
        decreases b - a,
    {
        if b > a {
            self.lemma_nh_stable(sid, of_floor, a, b - 1);
        }
    }

    /// An empty heights fold means no linedef yields a neighbour.
    proof fn lemma_nh_none(&self, sid: u16, of_floor: i16, n: int)
        requires
            self.spec_nh_upto(sid, of_floor, n) is None,
        ensures
            forall|j: int| 0 <= j < n ==> #[trigger] self.spec_adjacent_at(sid, j) is None,
        decreases n,
    {
        if n > 0 {
            if self.spec_adjacent_at(sid, n - 1) is Some {
                assert(self.spec_nh_upto(sid, of_floor, n) is Some);
            }
            self.lemma_nh_none(sid, of_floor, n - 1);
        }
    }

}

/// The symmetry of adjacency: when a linedef makes `b` adjacent to `a`,
/// the same linedef makes `a` adjacent to `b`, provided `a`'s own id
/// resolves (both sidedefs already do).
pub proof fn lemma_adjacency_symmetric(level: Level, a: u16, b: u16)
    requires
        level.spec_is_adjacent(a, b),
        (a as int) < level.sectors@.len(),
    ensures
        level.spec_is_adjacent(b, a),
{
    let i = choose|i: int|
        0 <= i < level.linedefs@.len() && #[trigger] level.spec_adjacent_at(a, i) == Some(b);
    assert(level.spec_adjacent_at(b, i) == Some(a));
}

/// The smaller of two coordinates.
pub open spec fn min_coord(a: i16, b: i16) -> i16 {
    if a < b {
        a
    } else {
        b
    }
}

/// The larger of two coordinates.
pub open spec fn max_coord(a: i16, b: i16) -> i16 {
    if a > b {
        a
    } else {
        b
    }
}

/// The neighbour height summary of a sector: lowest and highest floor and
/// ceiling among its neighbours, and the lowest neighbour floor strictly
/// above the sector's own floor.
#[derive(Clone, Copy, PartialEq, Eq, Debug)]
pub struct NeighbourHeights {
    pub lowest_floor: i16,
    pub next_floor: Option<i16>,
    pub highest_floor: i16,
    pub lowest_ceiling: i16,
    pub highest_ceiling: i16,
}

/// A lazy, restartable iteration over the sectors adjacent to one sector:
/// each call to `next` scans linedefs forward from its cursor and yields
/// the next resolvable opposite sector's index.
pub struct AdjacentSectorsIter<'a> {
    level: &'a Level,
    sector: u16,
    pos: usize,
}

impl<'a> AdjacentSectorsIter<'a> {
    /// The level being scanned.
    pub closed spec fn level_spec(&self) -> Level {
        *self.level
    }

    /// The queried sector's id.
    pub closed spec fn sector_spec(&self) -> u16 {
        self.sector
    }

    /// The scan cursor: the next linedef position to inspect.
    pub closed spec fn pos_spec(&self) -> usize {
        self.pos
    }

    /// The cursor stays within the linedef sequence.
    pub open spec fn wf(&self) -> bool {
        self.pos_spec() <= self.level_spec().linedefs@.len()
    }

    /// The next adjacent sector's index, or `None` when the scan is done;
    /// linedefs with an unresolvable side are skipped.
    pub fn next(&mut self) -> (r: Option<u16>)
        requires
            old(self).wf(),
        ensures
            final(self).wf(),
            final(self).level_spec() == old(self).level_spec(),
            final(self).sector_spec() == old(self).sector_spec(),
            ({
                let lv = old(self).level_spec();
                let sid = old(self).sector_spec();
                match lv.spec_next_adjacent(sid, old(self).pos_spec() as int) {
                    Some(pi) => r == Some(pi.1) && final(self).pos_spec() as int == pi.0,
                    None => r is None && final(self).pos_spec() as int == lv.linedefs@.len()
                        as int,
                }
            }),
            r matches Some(id) ==> (id as int) < old(self).level_spec().sectors@.len(),
    {
        let total: usize = self.level.linedefs.len();
        while self.pos < total
            invariant
                total == self.level.linedefs@.len(),
                self.pos <= total,
                self.level == old(self).level,
                self.sector == old(self).sector,
                self.level_spec().spec_next_adjacent(self.sector, old(self).pos_spec() as int)
                    == self.level_spec().spec_next_adjacent(self.sector, self.pos as int),
            decreases total - self.pos,
        {
            let line: WadLinedef = self.level.linedefs[self.pos];
            self.pos = self.pos + 1;
            let left: Option<WadSidedef> = self.level.left_sidedef(&line);
            let right: Option<WadSidedef> = self.level.right_sidedef(&line);
            match (left, right) {
                (Some(ls), Some(rs)) => {
                    if ls.sector == self.sector && rs.sector != self.sector {
                        if (rs.sector as usize) < self.level.sectors.len() {
                            return Some(rs.sector);
                        }
                    } else if rs.sector == self.sector && ls.sector != self.sector {
                        if (ls.sector as usize) < self.level.sectors.len() {
                            return Some(ls.sector);
                        }
                    }
                },
                _ => {},
            }
        }
        None
    }
}

// ---------------------------------------------------------------------------
// Sector polygon reconstruction and thing assignment.
// ---------------------------------------------------------------------------

/// No vertex id occurs twice.
pub open spec fn distinct_seq(s: Seq<u16>) -> bool {
    forall|i: int, j: int| 0 <= i < j < s.len() ==> s[i] != s[j]
}

/// Every id in the sequence lies below `n`.
pub open spec fn seq_below(s: Seq<u16>, n: int) -> bool {
    forall|j: int| 0 <= j < s.len() ==> s[j] < n
}

/// Every key and every stored value of the edge map lies below `n`.
pub open spec fn map_vertices_valid(m: Map<u16, Seq<u16>>, n: int) -> bool {
    forall|k: u16| #[trigger] m.contains_key(k) ==> k < n && seq_below(m[k], n)
}

/// Both components of every pair lie below `n`.
pub open spec fn pairs_below(pairs: Seq<(u16, u16)>, n: int) -> bool {
    forall|j: int| 0 <= j < pairs.len() ==> (#[trigger] pairs[j]).0 < n && pairs[j].1 < n
}

/// A linedef references the sector `sid` on either of its sides.
pub open spec fn line_refs_sector(line: WadLinedef, sidedefs: Seq<WadSidedef>, sid: u16) -> bool {
    ||| (line.left_side >= 0 && (line.left_side as int) < sidedefs.len() && sidedefs[
        line.left_side as int
    ].sector == sid)
    ||| (line.right_side >= 0 && (line.right_side as int) < sidedefs.len() && sidedefs[
        line.right_side as int
    ].sector == sid)
}

/// The vertex pairs of the first `n` linedefs that reference sector `sid`;
/// a linedef with a dangling vertex id is skipped as a data error.
pub open spec fn boundary_pairs_upto(
    linedefs: Seq<WadLinedef>,
    sidedefs: Seq<WadSidedef>,
    vlen: int,
    sid: u16,
    n: int,
) -> Seq<(u16, u16)>
    decreases n,
{
    if n <= 0 {
        Seq::empty()
    } else {
        let prev = boundary_pairs_upto(linedefs, sidedefs, vlen, sid, n - 1);
        let line = linedefs[n - 1];
        if line_refs_sector(line, sidedefs, sid) && (line.start_vertex as int) < vlen && (
        line.end_vertex as int) < vlen {
            prev.push((line.start_vertex, line.end_vertex))
        } else {
            prev
        }
    }
}

/// The boundary pairs of a whole linedef sequence.
pub open spec fn boundary_pairs(
    linedefs: Seq<WadLinedef>,
    sidedefs: Seq<WadSidedef>,
    vlen: int,
    sid: u16,
) -> Seq<(u16, u16)> {
    boundary_pairs_upto(linedefs, sidedefs, vlen, sid, linedefs.len() as int)
}

/// The edge multimap built from the first `n` pairs, both directions of
/// each pair inserted in order.
pub open spec fn edge_map_upto(pairs: Seq<(u16, u16)>, n: int) -> Map<u16, Seq<u16>>
    decreases n,
{
    if n <= 0 {
        Map::empty()
    } else {
        let m = edge_map_upto(pairs, n - 1);
        edge_map_insert(
            edge_map_insert(m, pairs[n - 1].0, pairs[n - 1].1),
            pairs[n - 1].1,
            pairs[n - 1].0,
        )
    }
}

/// The edge multimap of a whole pair sequence.
pub open spec fn edge_map(pairs: Seq<(u16, u16)>) -> Map<u16, Seq<u16>> {
    edge_map_upto(pairs, pairs.len() as int)
}

/// The first value not yet visited, in stored order.
pub open spec fn first_not_visited(vals: Seq<u16>, seen: Seq<u16>) -> Option<u16>
    decreases vals.len(),
{
    if vals.len() == 0 {
        None
    } else if !seen.contains(vals[0]) {
        Some(vals[0])
    } else {
        first_not_visited(vals.drop_first(), seen)
    }
}

/// The boundary walk: starting from the accumulated path's last vertex,
/// remove the current vertex's edge entry, step to its first unvisited
/// neighbour, and repeat until the map is exhausted, the current vertex
/// has no entry, or every neighbour was visited.
pub open spec fn spec_walk(m: Map<u16, Seq<u16>>, cur: u16, acc: Seq<u16>) -> Seq<u16>
    decreases m.dom().len(),
{
    if m.dom().finite() && m.dom().contains(cur) {
        match first_not_visited(m[cur], acc) {
            Some(v) => spec_walk(m.remove(cur), v, acc.push(v)),
            None => acc,
        }
    } else {
        acc
    }
}

proof fn lemma_first_not_visited_props(vals: Seq<u16>, seen: Seq<u16>)
    ensures
        match first_not_visited(vals, seen) {
            Some(v) => vals.contains(v) && !seen.contains(v),
            None => true,
        },
    decreases vals.len(),
{
    if vals.len() > 0 && seen.contains(vals[0]) {
        lemma_first_not_visited_props(vals.drop_first(), seen);
        match first_not_visited(vals.drop_first(), seen) {
            Some(v) => {
                let i = choose|i: int|
                    0 <= i < vals.drop_first().len() && vals.drop_first()[i] == v;
                assert(vals[i + 1] == v);
            },
            None => {},
        }
    }
}

proof fn lemma_spec_walk_distinct(m: Map<u16, Seq<u16>>, cur: u16, acc: Seq<u16>)
    requires
        m.dom().finite(),
        distinct_seq(acc),
    ensures
        distinct_seq(spec_walk(m, cur, acc)),
    decreases m.dom().len(),
{
    if m.dom().contains(cur) {
        match first_not_visited(m[cur], acc) {
            Some(v) => {
                lemma_first_not_visited_props(m[cur], acc);
                assert forall|i: int| 0 <= i < acc.len() implies acc[i] != v by {
                    if acc[i] == v {
                        assert(acc.contains(v));
                    }
                }
                assert(distinct_seq(acc.push(v)));
                lemma_spec_walk_distinct(m.remove(cur), v, acc.push(v));
            },
            None => {},
        }
    }
}

/// The reconstructed boundary never repeats a vertex: the polygon's vertex
/// count equals the number of distinct vertices the traversal visited.
pub proof fn lemma_walk_no_duplicates(m: Map<u16, Seq<u16>>, start: u16)
    requires
        m.dom().finite(),
    ensures
        distinct_seq(spec_walk(m, start, seq![start])),
{
    lemma_spec_walk_distinct(m, start, seq![start]);
}

proof fn lemma_spec_walk_bounded(m: Map<u16, Seq<u16>>, cur: u16, acc: Seq<u16>, n: int)
    requires
        m.dom().finite(),
        map_vertices_valid(m, n),
        seq_below(acc, n),
    ensures
        seq_below(spec_walk(m, cur, acc), n),
    decreases m.dom().len(),
{
    if m.dom().contains(cur) {
        match first_not_visited(m[cur], acc) {
            Some(v) => {
                lemma_first_not_visited_props(m[cur], acc);
                assert(v < n) by {
                    let j = choose|j: int| 0 <= j < m[cur].len() && m[cur][j] == v;
                }
                assert(seq_below(acc.push(v), n));
                assert(map_vertices_valid(m.remove(cur), n));
                lemma_spec_walk_bounded(m.remove(cur), v, acc.push(v), n);
            },
            None => {},
        }
    }
}

// A closed simple cycle and the walk's behaviour on it.

/// The cycle position after `i`, wrapping at the end.
pub open spec fn cyc_succ(n: int, i: int) -> int {
    if i == n - 1 {
        0
    } else {
        i + 1
    }
}

/// The cycle position before `i`, wrapping at the start.
pub open spec fn cyc_pred(n: int, i: int) -> int {
    if i == 0 {
        n - 1
    } else {
        i - 1
    }
}

/// The edge map is one closed simple cycle over the distinct vertices of
/// `c`: its keys are exactly the cycle's vertices, and each vertex's
/// stored neighbours are its two cycle neighbours, in either order.
pub open spec fn cycle_map(m: Map<u16, Seq<u16>>, c: Seq<u16>) -> bool {
    &&& c.len() >= 3
    &&& distinct_seq(c)
    &&& m.dom() == c.to_set()
    &&& forall|i: int|
        0 <= i < c.len() ==> (#[trigger] m[c[i]]) == seq![
            c[cyc_pred(c.len() as int, i)],
            c[cyc_succ(c.len() as int, i)],
        ] || m[c[i]] == seq![c[cyc_succ(c.len() as int, i)], c[cyc_pred(c.len() as int, i)]]
}

/// Fold an offset position back into the cycle's index range.
spec fn wrap_pos(n: int, p: int) -> int {
    if p < 0 {
        p + n
    } else if p >= n {
        p - n
    } else {
        p
    }
}

/// The cycle position reached from `s` after `i` steps in direction `d`.
spec fn arc_pos(n: int, s: int, d: int, i: int) -> int
    decreases i,
{
    if i <= 0 {
        s
    } else {
        wrap_pos(n, arc_pos(n, s, d, i - 1) + d)
    }
}

/// Where `i` steps land: within one wrap of `s + i * d`, so positions of
/// fewer than `n` steps are pairwise distinct.
proof fn lemma_arc_pos_char(n: int, s: int, d: int, i: int)
    requires
        n >= 1,
        0 <= s < n,
        d == 1 || d == -1,
        0 <= i <= n,
    ensures
        0 <= arc_pos(n, s, d, i) < n,
        d == 1 ==> arc_pos(n, s, d, i) == (if s + i < n {
            s + i
        } else {
            s + i - n
        }),
        d == -1 ==> arc_pos(n, s, d, i) == (if s - i >= 0 {
            s - i
        } else {
            s - i + n
        }),
    decreases i,
{
    if i > 0 {
        lemma_arc_pos_char(n, s, d, i - 1);
    }
}

/// The first `k` vertices an arc of the cycle passes through.
spec fn cycle_arc(c: Seq<u16>, s: int, d: int, k: int) -> Seq<u16>
    decreases k,
{
    if k <= 0 {
        Seq::empty()
    } else {
        cycle_arc(c, s, d, k - 1).push(c[arc_pos(c.len() as int, s, d, k - 1)])
    }
}

proof fn lemma_cycle_arc_props(c: Seq<u16>, s: int, d: int, k: int)
    ensures
        cycle_arc(c, s, d, k).len() == if k <= 0 {
            0
        } else {
            k
        },
        forall|i: int|
            0 <= i < k ==> cycle_arc(c, s, d, k)[i] == c[arc_pos(c.len() as int, s, d, i)],
    decreases k,
{
    if k > 0 {
        lemma_cycle_arc_props(c, s, d, k - 1);
    }
}

/// The arc of `k < n` steps does not yet contain the vertex `k` steps out.
proof fn lemma_arc_excludes_next(c: Seq<u16>, s: int, d: int, k: int, t: int)
    requires
        c.len() >= 3,
        distinct_seq(c),
        0 <= s < c.len(),
        d == 1 || d == -1,
        0 <= k <= c.len(),
        0 <= t <= c.len(),
        forall|i: int| 0 <= i < k ==> arc_pos(c.len() as int, s, d, i) != arc_pos(
            c.len() as int,
            s,
            d,
            t,
        ),
    ensures
        !cycle_arc(c, s, d, k).contains(c[arc_pos(c.len() as int, s, d, t)]),
{
    let n = c.len() as int;
    lemma_cycle_arc_props(c, s, d, k);
    lemma_arc_pos_char(n, s, d, t);
    if cycle_arc(c, s, d, k).contains(c[arc_pos(n, s, d, t)]) {
        let i = choose|i: int|
            0 <= i < cycle_arc(c, s, d, k).len() && cycle_arc(c, s, d, k)[i] == c[arc_pos(
                n,
                s,
                d,
                t,
            )];
        lemma_arc_pos_char(n, s, d, i);
        let a = arc_pos(n, s, d, i);
        let b = arc_pos(n, s, d, t);
        if a < b {
            assert(c[a] != c[b]);
        } else {
            assert(c[b] != c[a]);
        }
    }
}

/// Mid-walk along a cycle: the current vertex is the arc's last, every
/// earlier arc vertex's key was removed, and the walk goes on to visit
/// the whole cycle.
proof fn lemma_walk_arc(
    m: Map<u16, Seq<u16>>,
    m_rem: Map<u16, Seq<u16>>,
    c: Seq<u16>,
    s: int,
    d: int,
    k: int,
)
    requires
        cycle_map(m, c),
        0 <= s < c.len(),
        d == 1 || d == -1,
        2 <= k <= c.len(),
        m_rem.dom().finite(),
        forall|x: u16| #[trigger]
            m_rem.dom().contains(x) <==> (m.dom().contains(x) && !cycle_arc(
                c,
                s,
                d,
                k - 1,
            ).contains(x)),
        forall|x: u16| #[trigger] m_rem.dom().contains(x) ==> m_rem[x] == m[x],
    ensures
        spec_walk(m_rem, c[arc_pos(c.len() as int, s, d, k - 1)], cycle_arc(c, s, d, k)).len()
            == c.len(),
    decreases c.len() - k,
{
    let n = c.len() as int;
    let p_cur = arc_pos(n, s, d, k - 1);
    let cur = c[p_cur];
    let acc = cycle_arc(c, s, d, k);
    lemma_cycle_arc_props(c, s, d, k);
    lemma_cycle_arc_props(c, s, d, k - 1);
    lemma_arc_pos_char(n, s, d, k - 2);
    lemma_arc_pos_char(n, s, d, k - 1);
    lemma_arc_pos_char(n, s, d, k);
    // The current vertex's key is still present.
    assert(c.contains(cur)) by {
        assert(c[p_cur] == cur);
    }
    assert(m.dom().contains(cur));
    assert forall|i: int| 0 <= i < k - 1 implies arc_pos(n, s, d, i) != p_cur by {
        lemma_arc_pos_char(n, s, d, i);
    }
    lemma_arc_excludes_next(c, s, d, k - 1, k - 1);
    assert(m_rem.dom().contains(cur));
    // Its neighbour list is the cycle's, with the previous arc vertex on
    // one side and the next on the other.
    assert(m_rem[cur] == m[cur]);
    let p_prev = arc_pos(n, s, d, k - 2);
    let p_next = arc_pos(n, s, d, k);
    assert(p_cur == wrap_pos(n, p_prev + d));
    assert(p_next == wrap_pos(n, p_cur + d));
    if d == 1 {
        assert(p_next == cyc_succ(n, p_cur));
        assert(p_prev == cyc_pred(n, p_cur));
    } else {
        assert(p_next == cyc_pred(n, p_cur));
        assert(p_prev == cyc_succ(n, p_cur));
    }
    let vals = m[cur];
    assert(vals == seq![c[cyc_pred(n, p_cur)], c[cyc_succ(n, p_cur)]] || vals == seq![
        c[cyc_succ(n, p_cur)],
        c[cyc_pred(n, p_cur)],
    ]);
    assert(vals == seq![c[p_prev], c[p_next]] || vals == seq![c[p_next], c[p_prev]]);
    // The previous arc vertex was visited.
    assert(acc.contains(c[p_prev])) by {
        assert(acc[k - 2] == c[p_prev]);
    }
    if k < n {
        // The next cycle vertex was not visited yet, so the walk steps to
        // it.
        assert forall|i: int| 0 <= i < k implies arc_pos(n, s, d, i) != p_next by {
            lemma_arc_pos_char(n, s, d, i);
        }
        lemma_arc_excludes_next(c, s, d, k, k);
        assert(!acc.contains(c[p_next]));
        assert(c[p_prev] != c[p_next]) by {
            if p_prev < p_next {
                assert(c[p_prev] != c[p_next]);
            } else {
                assert(c[p_next] != c[p_prev]);
            }
        }
        assert(first_not_visited(vals, acc) == Some(c[p_next])) by {
            reveal_with_fuel(first_not_visited, 3);
            if vals == seq![c[p_prev], c[p_next]] {
                assert(vals.drop_first() =~= seq![c[p_next]]);
                assert(first_not_visited(seq![c[p_next]], acc) == Some(c[p_next]));
            }
        }
        assert(spec_walk(m_rem, cur, acc) == spec_walk(
            m_rem.remove(cur),
            c[p_next],
            acc.push(c[p_next]),
        ));
        assert(acc.push(c[p_next]) == cycle_arc(c, s, d, k + 1));
        let m_rem2 = m_rem.remove(cur);
        assert forall|x: u16| #[trigger]
            m_rem2.dom().contains(x) <==> (m.dom().contains(x) && !cycle_arc(
                c,
                s,
                d,
                k,
            ).contains(x)) by {
            assert(cycle_arc(c, s, d, k).contains(x) <==> (cycle_arc(c, s, d, k - 1).contains(x)
                || x == cur)) by {
                if cycle_arc(c, s, d, k).contains(x) {
                    let i = choose|i: int|
                        0 <= i < cycle_arc(c, s, d, k).len() && #[trigger] cycle_arc(
                            c,
                            s,
                            d,
                            k,
                        )[i] == x;
                    if i < k - 1 {
                        assert(cycle_arc(c, s, d, k - 1)[i] == x);
                    }
                }
                if cycle_arc(c, s, d, k - 1).contains(x) {
                    let i = choose|i: int|
                        0 <= i < cycle_arc(c, s, d, k - 1).len() && #[trigger] cycle_arc(
                            c,
                            s,
                            d,
                            k - 1,
                        )[i] == x;
                    assert(cycle_arc(c, s, d, k)[i] == x);
                }
                if x == cur {
                    assert(cycle_arc(c, s, d, k)[k - 1] == x);
                }
            }
        }
        lemma_walk_arc(m, m_rem2, c, s, d, k + 1);
    } else {
        // Every cycle vertex was visited: both neighbours are in the
        // path, so the walk stops with all `n` vertices collected.
        assert(p_next == s) by {
            lemma_arc_pos_char(n, s, d, 0);
        }
        assert(acc.contains(c[p_next])) by {
            assert(acc[0] == c[arc_pos(n, s, d, 0)]);
        }
        assert(first_not_visited(vals, acc) is None) by {
            reveal_with_fuel(first_not_visited, 3);
            assert(acc.contains(vals[0]) && acc.contains(vals[1]));
            assert(vals.drop_first() =~= seq![vals[1]]);
            assert(first_not_visited(seq![vals[1]], acc) is None);
        }
        assert(spec_walk(m_rem, cur, acc) == acc);
    }
}

/// On a closed simple cycle, the boundary walk from any cycle vertex
/// visits every cycle vertex, each exactly once (no vertex repeats, by
/// [`lemma_walk_no_duplicates`]): the reconstructed polygon's vertex
/// count equals the cycle's.
pub proof fn lemma_walk_covers_cycle(m: Map<u16, Seq<u16>>, c: Seq<u16>, start: u16)
    requires
        cycle_map(m, c),
        m.dom().contains(start),
    ensures
        spec_walk(m, start, seq![start]).len() == c.len(),
{
    let n = c.len() as int;
    vstd::seq_lib::seq_to_set_is_finite::<u16>(c);
    assert(m.dom().finite());
    assert(c.contains(start));
    let s = choose|s: int| 0 <= s < n && c[s] == start;
    lemma_arc_pos_char(n, s, 1, 1);
    lemma_arc_pos_char(n, s, -1, 1);
    let vals = m[c[s]];
    assert(vals == seq![c[cyc_pred(n, s)], c[cyc_succ(n, s)]] || vals == seq![
        c[cyc_succ(n, s)],
        c[cyc_pred(n, s)],
    ]);
    // Neither cycle neighbour is the start itself.
    assert(cyc_succ(n, s) != s && cyc_pred(n, s) != s);
    assert(c[cyc_succ(n, s)] != c[s]) by {
        if cyc_succ(n, s) < s {
            assert(c[cyc_succ(n, s)] != c[s]);
        }
    }
    assert(c[cyc_pred(n, s)] != c[s]) by {
        if cyc_pred(n, s) < s {
            assert(c[cyc_pred(n, s)] != c[s]);
        }
    }
    let d: int = if vals[0] == c[cyc_succ(n, s)] {
        1
    } else {
        -1
    };
    let v1 = c[arc_pos(n, s, d, 1)];
    assert(arc_pos(n, s, d, 1) == if d == 1 {
        cyc_succ(n, s)
    } else {
        cyc_pred(n, s)
    });
    assert(vals[0] == v1);
    // The first step picks that neighbour.
    assert(!seq![start].contains(v1)) by {
        if seq![start].contains(v1) {
            let i = choose|i: int| 0 <= i < 1 && seq![start][i] == v1;
        }
    }
    assert(first_not_visited(vals, seq![start]) == Some(v1));
    assert(spec_walk(m, start, seq![start]) == spec_walk(
        m.remove(start),
        v1,
        seq![start].push(v1),
    ));
    assert(seq![start].push(v1) =~= cycle_arc(c, s, d, 2)) by {
        lemma_cycle_arc_props(c, s, d, 2);
        lemma_arc_pos_char(n, s, d, 0);
    }
    let m1 = m.remove(start);
    assert forall|x: u16| #[trigger]
        m1.dom().contains(x) <==> (m.dom().contains(x) && !cycle_arc(c, s, d, 1).contains(
            x,
        )) by {
        lemma_cycle_arc_props(c, s, d, 1);
        assert(cycle_arc(c, s, d, 1).contains(x) <==> x == start) by {
            if cycle_arc(c, s, d, 1).contains(x) {
                let i = choose|i: int|
                    0 <= i < cycle_arc(c, s, d, 1).len() && cycle_arc(c, s, d, 1)[i] == x;
            }
            if x == start {
                assert(cycle_arc(c, s, d, 1)[0] == x);
            }
        }
    }
    lemma_walk_arc(m, m1, c, s, d, 2);
    assert(spec_walk(m1, c[arc_pos(n, s, d, 1)], cycle_arc(c, s, d, 2)).len() == n);
}

proof fn lemma_boundary_pairs_below(
    linedefs: Seq<WadLinedef>,
    sidedefs: Seq<WadSidedef>,
    vlen: int,
    sid: u16,
    n: int,
)
    ensures
        pairs_below(boundary_pairs_upto(linedefs, sidedefs, vlen, sid, n), vlen),
    decreases n,
{
    if n > 0 {
        lemma_boundary_pairs_below(linedefs, sidedefs, vlen, sid, n - 1);
    }
}

proof fn lemma_edge_map_finite(pairs: Seq<(u16, u16)>, n: int)
    ensures
        edge_map_upto(pairs, n).dom().finite(),
    decreases n,
{
    if n > 0 {
        lemma_edge_map_finite(pairs, n - 1);
    }
}

proof fn lemma_edge_map_has_last(pairs: Seq<(u16, u16)>, n: int)
    requires
        n > 0,
    ensures
        edge_map_upto(pairs, n).dom().contains(pairs[n - 1].0),
        edge_map_upto(pairs, n).dom().contains(pairs[n - 1].1),
{
}

proof fn lemma_edge_map_valid(pairs: Seq<(u16, u16)>, n: int, vlen: int)
    requires
        pairs_below(pairs, vlen),
        n <= pairs.len(),
    ensures
        map_vertices_valid(edge_map_upto(pairs, n), vlen),
    decreases n,
{
    if n > 0 {
        lemma_edge_map_valid(pairs, n - 1, vlen);
        let m = edge_map_upto(pairs, n - 1);
        let a = pairs[n - 1].0;
        let b = pairs[n - 1].1;
        let m1 = edge_map_insert(m, a, b);
        let m2 = edge_map_insert(m1, b, a);
        assert forall|k: u16| #[trigger] m1.contains_key(k) implies k < vlen && seq_below(
            m1[k],
            vlen,
        ) by {
            if k == a {
                if m.contains_key(a) {
                    assert(m1[k] == m[a].push(b));
                } else {
                    assert(m1[k] == seq![b]);
                }
            }
        }
        assert forall|k: u16| #[trigger] m2.contains_key(k) implies k < vlen && seq_below(
            m2[k],
            vlen,
        ) by {
            if k == b {
                if m1.contains_key(b) {
                    assert(m2[k] == m1[b].push(a));
                } else {
                    assert(m2[k] == seq![a]);
                }
            }
        }
    }
}

/// The polygon coordinates a vertex id path denotes.
pub open spec fn path_points(path: Seq<u16>, vertices: Seq<WadVertex>) -> Seq<(int, int)> {
    Seq::new(
        path.len(),
        |i: int|
            (vertices[path[i] as int].x as int, vertices[path[i] as int].y as int),
    )
}

/// The thing indices among the first `n` things whose position lies inside
/// the polygon, in increasing order.
pub open spec fn inside_upto(things: Seq<WadThing>, poly: Seq<(int, int)>, n: int) -> Seq<usize>
    decreases n,
{
    if n <= 0 {
        Seq::empty()
    } else {
        let prev = inside_upto(things, poly, n - 1);
        if point_in_polygon(poly, things[n - 1].x as int, things[n - 1].y as int) {
            prev.push((n - 1) as usize)
        } else {
            prev
        }
    }
}

proof fn lemma_inside_upto_below(things: Seq<WadThing>, poly: Seq<(int, int)>, n: int)
    ensures
        indices_below(inside_upto(things, poly, n), n),
    decreases n,
{
    if n > 0 {
        lemma_inside_upto_below(things, poly, n - 1);
        assert forall|j: int|
            0 <= j < inside_upto(things, poly, n).len() implies inside_upto(things, poly, n)[j]
            < n by {
            if j < inside_upto(things, poly, n - 1).len() {
                assert(inside_upto(things, poly, n - 1)[j] < n - 1);
            }
        }
    }
}

/// A thing's index is in the classification of the first `n` things
/// exactly when its position lies inside the polygon: a thing strictly
/// inside is included, a thing strictly outside is excluded.
pub proof fn lemma_inside_upto_membership(
    things: Seq<WadThing>,
    poly: Seq<(int, int)>,
    n: int,
    t: usize,
)
    requires
        0 <= t < n <= usize::MAX,
    ensures
        inside_upto(things, poly, n).contains(t) <==> point_in_polygon(
            poly,
            things[t as int].x as int,
            things[t as int].y as int,
        ),
    decreases n,
{
    let prev = inside_upto(things, poly, n - 1);
    let whole = inside_upto(things, poly, n);
    if (t as int) == n - 1 {
        lemma_inside_upto_below(things, poly, n - 1);
        assert(!prev.contains(t)) by {
            if prev.contains(t) {
                let j = choose|j: int| 0 <= j < prev.len() && prev[j] == t;
            }
        }
        if point_in_polygon(poly, things[n - 1].x as int, things[n - 1].y as int) {
            assert(whole[whole.len() - 1] == t);
            assert(whole.contains(t));
        } else {
            assert(whole == prev);
        }
    } else {
        lemma_inside_upto_membership(things, poly, n - 1, t);
        if point_in_polygon(poly, things[n - 1].x as int, things[n - 1].y as int) {
            assert(whole == prev.push((n - 1) as usize));
            assert(prev.contains(t) ==> whole.contains(t)) by {
                if prev.contains(t) {
                    let j = choose|j: int| 0 <= j < prev.len() && prev[j] == t;
                    assert(whole[j] == t);
                }
            }
            assert(whole.contains(t) ==> prev.contains(t)) by {
                if whole.contains(t) {
                    let j = choose|j: int| 0 <= j < whole.len() && whole[j] == t;
                    assert(j < prev.len());
                }
            }
        } else {
            assert(whole == prev);
        }
    }
}

/// The sector id a sector index denotes in the 16-bit id space.
pub open spec fn sid16(s: usize) -> u16 {
    ((s as int) % 0x10000) as u16
}

/// The boundary pairs of sector index `s`.
pub open spec fn sector_pairs(
    linedefs: Seq<WadLinedef>,
    sidedefs: Seq<WadSidedef>,
    vlen: int,
    s: usize,
) -> Seq<(u16, u16)> {
    boundary_pairs(linedefs, sidedefs, vlen, sid16(s))
}

/// A stored entry is the thing classification of the boundary walk that
/// starts at `start`: the walk of the sector's edge map, its polygon, and
/// the indices of the things inside it.
pub open spec fn walk_entry_ok(
    things: Seq<WadThing>,
    linedefs: Seq<WadLinedef>,
    sidedefs: Seq<WadSidedef>,
    vertices: Seq<WadVertex>,
    s: usize,
    start: u16,
    entry: Seq<usize>,
) -> bool {
    let m = edge_map(sector_pairs(linedefs, sidedefs, vertices.len() as int, s));
    let path = spec_walk(m, start, seq![start]);
    &&& m.dom().contains(start)
    &&& entry == inside_upto(things, path_points(path, vertices), things.len() as int)
}

/// A stored entry comes from the boundary walk of some start vertex; which
/// vertex the multimap hands out first is arbitrary, so only existence is
/// promised.
pub open spec fn sector_entry_ok(
    things: Seq<WadThing>,
    linedefs: Seq<WadLinedef>,
    sidedefs: Seq<WadSidedef>,
    vertices: Seq<WadVertex>,
    s: usize,
    entry: Seq<usize>,
) -> bool {
    exists|start: u16| #[trigger] walk_entry_ok(things, linedefs, sidedefs, vertices, s, start, entry)
}

/// The derived sector-to-things map: exactly the sectors with a nonzero
/// tag and a nonempty boundary have an entry, and each entry classifies
/// every thing against the sector's reconstructed polygon. A tagged sector
/// without boundary linedefs degrades to "no entry" rather than failing
/// the whole computation.
pub open spec fn things_by_sector_ok(
    things: Seq<WadThing>,
    linedefs: Seq<WadLinedef>,
    sidedefs: Seq<WadSidedef>,
    sectors: Seq<WadSector>,
    vertices: Seq<WadVertex>,
    m: Map<usize, Vec<usize>>,
) -> bool {
    &&& forall|s: usize|
        #[trigger] m.contains_key(s) ==> s < sectors.len() && sectors[s as int].tag != 0
            && sector_pairs(linedefs, sidedefs, vertices.len() as int, s).len() > 0
    &&& forall|s: usize|
        s < sectors.len() && sectors[s as int].tag != 0 && (#[trigger] sector_pairs(
            linedefs,
            sidedefs,
            vertices.len() as int,
            s,
        )).len() > 0 ==> m.contains_key(s)
    &&& forall|s: usize|
        #[trigger] m.contains_key(s) ==> indices_below(m[s]@, things.len() as int)
            && sector_entry_ok(things, linedefs, sidedefs, vertices, s, m[s]@)
}

fn vec_contains(v: &Vec<u16>, x: u16) -> (r: bool)
    ensures
        r == v@.contains(x),
{
    let n: usize = v.len();
    for i in 0..n
        invariant
            n == v@.len(),
            forall|j: int| 0 <= j < i ==> v@[j] != x,
    {
        if v[i] == x {
            proof {
                assert(v@[i as int] == x);
            }
            return true;
        }
    }
    false
}

fn pick_unvisited(vals: &Vec<u16>, seen: &Vec<u16>) -> (r: Option<u16>)
    ensures
        r == first_not_visited(vals@, seen@),
{
    let n: usize = vals.len();
    proof {
        assert(vals@.skip(0) =~= vals@);
    }
    for i in 0..n
        invariant
            n == vals@.len(),
            first_not_visited(vals@, seen@) == first_not_visited(vals@.skip(i as int), seen@),
    {
        let v: u16 = vals[i];
        proof {
            assert(vals@.skip(i as int)[0] == v);
        }
        if !vec_contains(seen, v) {
            return Some(v);
        }
        proof {
            assert(vals@.skip(i as int).drop_first() =~= vals@.skip(i as int + 1));
        }
    }
    None
}

fn collect_boundary_pairs(
    linedefs: &Vec<WadLinedef>,
    sidedefs: &Vec<WadSidedef>,
    vertices_len: usize,
    sid: u16,
) -> (r: Vec<(u16, u16)>)
    ensures
        r@ == boundary_pairs(linedefs@, sidedefs@, vertices_len as int, sid),
{
    let n: usize = linedefs.len();
    let mut r: Vec<(u16, u16)> = Vec::new();
    for i in 0..n
        invariant
            n == linedefs@.len(),
            r@ == boundary_pairs_upto(linedefs@, sidedefs@, vertices_len as int, sid, i as int),
    {
        let line: WadLinedef = linedefs[i];
        let refs: bool = (line.left_side >= 0 && (line.left_side as usize) < sidedefs.len()
            && sidedefs[line.left_side as usize].sector == sid) || (line.right_side >= 0 && (
        line.right_side as usize) < sidedefs.len() && sidedefs[line.right_side as usize].sector
            == sid);
        if refs && (line.start_vertex as usize) < vertices_len && (line.end_vertex as usize)
            < vertices_len {
            r.push((line.start_vertex, line.end_vertex));
        }
    }
    r
}

fn build_edge_map(pairs: &Vec<(u16, u16)>) -> (m: VertexEdgeMap)
    ensures
        multi_map_of(m) == edge_map(pairs@),
{
    let mut m: VertexEdgeMap = mm_new();
    mm_clear(&mut m);
    let n: usize = pairs.len();
    for i in 0..n
        invariant
            n == pairs@.len(),
            multi_map_of(m) == edge_map_upto(pairs@, i as int),
    {
        let p: (u16, u16) = pairs[i];
        mm_insert(&mut m, p.0, p.1);
        mm_insert(&mut m, p.1, p.0);
    }
    m
}

fn walk_boundary(lines: &mut VertexEdgeMap, start: u16) -> (path: Vec<u16>)
    requires
        multi_map_of(*old(lines)).dom().finite(),
    ensures
        path@ == spec_walk(multi_map_of(*old(lines)), start, seq![start]),
{
    let ghost m0 = multi_map_of(*lines);
    let mut path: Vec<u16> = Vec::new();
    path.push(start);
    let mut current: u16 = start;
    while !mm_is_empty(lines)
        invariant
            m0 == multi_map_of(*old(lines)),
            multi_map_of(*lines).dom().finite(),
            spec_walk(m0, start, seq![start]) == spec_walk(multi_map_of(*lines), current, path@),
        decreases multi_map_of(*lines).dom().len(),
    {
        let ghost m_pre = multi_map_of(*lines);
        match mm_remove(lines, current) {
            None => {
                proof {
                    assert(!m_pre.dom().contains(current));
                    assert(spec_walk(m_pre, current, path@) == path@);
                }
                return path;
            },
            Some(vals) => {
                match pick_unvisited(&vals, &path) {
                    None => {
                        proof {
                            assert(m_pre.dom().contains(current));
                            assert(vals@ == m_pre[current]);
                            assert(first_not_visited(m_pre[current], path@) is None);
                            assert(spec_walk(m_pre, current, path@) == path@);
                        }
                        return path;
                    },
                    Some(v) => {
                        path.push(v);
                        current = v;
                    },
                }
            },
        }
    }
    path
}

fn path_to_points(path: &Vec<u16>, vertices: &Vec<WadVertex>) -> (r: Vec<(i64, i64)>)
    requires
        seq_below(path@, vertices@.len() as int),
    ensures
        poly_points(r@) == path_points(path@, vertices@),
        forall|j: int| 0 <= j < r@.len() ==> in_coord_range(#[trigger] r@[j]),
{
    let n: usize = path.len();
    let mut r: Vec<(i64, i64)> = Vec::new();
    for i in 0..n
        invariant
            n == path@.len(),
            seq_below(path@, vertices@.len() as int),
            r@.len() == i,
            forall|j: int|
                0 <= j < i ==> #[trigger] r@[j] == (
                    vertices@[path@[j] as int].x as i64,
                    vertices@[path@[j] as int].y as i64,
                ),
    {
        proof {
            assert(path@[i as int] < vertices@.len());
        }
        let id: usize = path[i] as usize;
        let v: WadVertex = vertices[id];
        r.push((v.x as i64, v.y as i64));
    }
    proof {
        assert(poly_points(r@) =~= path_points(path@, vertices@));
    }
    r
}

fn things_inside(things: &Vec<WadThing>, poly: &Vec<(i64, i64)>) -> (r: Vec<usize>)
    requires
        forall|j: int| 0 <= j < poly@.len() ==> in_coord_range(#[trigger] poly@[j]),
    ensures
        r@ == inside_upto(things@, poly_points(poly@), things@.len() as int),
        indices_below(r@, things@.len() as int),
{
    let n: usize = things.len();
    let mut r: Vec<usize> = Vec::new();
    for t in 0..n
        invariant
            n == things@.len(),
            forall|j: int| 0 <= j < poly@.len() ==> in_coord_range(#[trigger] poly@[j]),
            r@ == inside_upto(things@, poly_points(poly@), t as int),
            indices_below(r@, n as int),
    {
        let th: WadThing = things[t];
        if geo_polygon_contains(poly, th.x as i64, th.y as i64) {
            r.push(t);
        }
    }
    r
}

// ---------------------------------------------------------------------------
// Loading a level.
// ---------------------------------------------------------------------------

/// A lump decodes as a nonempty sequence of `T` records: the directory
/// index exists, the size is a nonzero multiple of the record size, and
/// the byte range lies in the container.
pub open spec fn lump_decodable<T: Record>(a: Archive, i: int) -> bool {
    &&& 0 <= i < a.lump_seq().len()
    &&& a.lump_seq()[i].size > 0
    &&& a.lump_seq()[i].size as int % (T::size_spec() as int) == 0
    &&& lump_in_bounds(a.contents(), a.lump_seq()[i])
}

/// The records a lump holds.
pub open spec fn lump_records<T: Record>(a: Archive, i: int) -> Seq<T> {
    records_of::<T>(lump_bytes(a.contents(), a.lump_seq()[i]))
}

/// Why a lump fails to decode as `T` records: a missing directory entry,
/// a size that is zero or not a multiple of the record size, or a byte
/// range outside the container.
pub open spec fn lump_decode_err<T: Record>(a: Archive, i: int) -> WadError {
    if !(0 <= i < a.lump_seq().len()) {
        WadError::MissingLump
    } else {
        let info = a.lump_seq()[i];
        let k = T::size_spec() as int;
        if info.size == 0 || info.size as int % k != 0 {
            WadError::SizeMismatch {
                total: info.size as usize,
                element: k as usize,
                quotient: (info.size as int / k) as usize,
                remainder: (info.size as int % k) as usize,
            }
        } else {
            WadError::Io { index: i as usize }
        }
    }
}

/// The error of the first data lump that fails to decode, in the order
/// the loader reads them; meaningful when some lump fails.
pub open spec fn first_level_load_err(a: Archive, start: int) -> WadError {
    if !lump_decodable::<WadThing>(a, start + 1) {
        lump_decode_err::<WadThing>(a, start + 1)
    } else if !lump_decodable::<WadLinedef>(a, start + 2) {
        lump_decode_err::<WadLinedef>(a, start + 2)
    } else if !lump_decodable::<WadVertex>(a, start + 4) {
        lump_decode_err::<WadVertex>(a, start + 4)
    } else if !lump_decodable::<WadSeg>(a, start + 5) {
        lump_decode_err::<WadSeg>(a, start + 5)
    } else if !lump_decodable::<WadSubsector>(a, start + 6) {
        lump_decode_err::<WadSubsector>(a, start + 6)
    } else if !lump_decodable::<WadNode>(a, start + 7) {
        lump_decode_err::<WadNode>(a, start + 7)
    } else if !lump_decodable::<WadSidedef>(a, start + 3) {
        lump_decode_err::<WadSidedef>(a, start + 3)
    } else {
        lump_decode_err::<WadSector>(a, start + 8)
    }
}

/// All eight data lumps of the level starting at directory index `start`
/// decode, at their fixed offsets from the marker.
pub open spec fn level_lumps_ok(a: Archive, start: int) -> bool {
    &&& lump_decodable::<WadThing>(a, start + 1)
    &&& lump_decodable::<WadLinedef>(a, start + 2)
    &&& lump_decodable::<WadSidedef>(a, start + 3)
    &&& lump_decodable::<WadVertex>(a, start + 4)
    &&& lump_decodable::<WadSeg>(a, start + 5)
    &&& lump_decodable::<WadSubsector>(a, start + 6)
    &&& lump_decodable::<WadNode>(a, start + 7)
    &&& lump_decodable::<WadSector>(a, start + 8)
}

impl Level {
    /// Load the level at a boundary-list position: read the eight data
    /// lumps at their fixed offsets from the level marker, then derive the
    /// sector-to-things map. Succeeds exactly when all eight lumps decode;
    /// the first failing lump's error is propagated.
    pub fn from_archive(wad: &Archive, index: usize) -> (r: Result<Level, WadError>)
        requires
            wad.wf(),
            index < wad.level_starts().len(),
        ensures
            ({
                let start = wad.level_starts()[index as int] as int;
                &&& (r is Ok <==> level_lumps_ok(*wad, start))
                &&& (r matches Err(e) ==> e == first_level_load_err(*wad, start))
                &&& (r matches Ok(l) ==> l.things@ == lump_records::<WadThing>(*wad, start + 1)
                    && l.linedefs@ == lump_records::<WadLinedef>(*wad, start + 2)
                    && l.sidedefs@ == lump_records::<WadSidedef>(*wad, start + 3)
                    && l.vertices@ == lump_records::<WadVertex>(*wad, start + 4)
                    && l.segs@ == lump_records::<WadSeg>(*wad, start + 5)
                    && l.subsectors@ == lump_records::<WadSubsector>(*wad, start + 6)
                    && l.nodes@ == lump_records::<WadNode>(*wad, start + 7)
                    && l.sectors@ == lump_records::<WadSector>(*wad, start + 8)
                    && things_by_sector_ok(
                    l.things@,
                    l.linedefs@,
                    l.sidedefs@,
                    l.sectors@,
                    l.vertices@,
                    l.things_by_sector@,
                ) && l.wf())
            }),
    {
        let total: usize = wad.container_len();
        let lump = match wad.level_lump(index) {
            Ok(l) => l,
            Err(e) => {
                return Err(e);
            },
        };
        let start: usize = lump.index();
        let things_reader = match wad.lump_by_index(start + 1) {
            Ok(l) => l,
            Err(e) => {
                return Err(e);
            },
        };
        let things: Vec<WadThing> = match things_reader.decode_vec::<WadThing>() {
            Ok(v) => v,
            Err(e) => {
                return Err(e);
            },
        };
        let linedefs_reader = match wad.lump_by_index(start + 2) {
            Ok(l) => l,
            Err(e) => {
                return Err(e);
            },
        };
        let linedefs: Vec<WadLinedef> = match linedefs_reader.decode_vec::<WadLinedef>() {
            Ok(v) => v,
            Err(e) => {
                return Err(e);
            },
        };
        let vertices_reader = match wad.lump_by_index(start + 4) {
            Ok(l) => l,
            Err(e) => {
                return Err(e);
            },
        };
        let vertices: Vec<WadVertex> = match vertices_reader.decode_vec::<WadVertex>() {
            Ok(v) => v,
            Err(e) => {
                return Err(e);
            },
        };
        let segs_reader = match wad.lump_by_index(start + 5) {
            Ok(l) => l,
            Err(e) => {
                return Err(e);
            },
        };
        let segs: Vec<WadSeg> = match segs_reader.decode_vec::<WadSeg>() {
            Ok(v) => v,
            Err(e) => {
                return Err(e);
            },
        };
        let subsectors_reader = match wad.lump_by_index(start + 6) {
            Ok(l) => l,
            Err(e) => {
                return Err(e);
            },
        };
        let subsectors: Vec<WadSubsector> = match subsectors_reader.decode_vec::<WadSubsector>() {
            Ok(v) => v,
            Err(e) => {
                return Err(e);
            },
        };
        let nodes_reader = match wad.lump_by_index(start + 7) {
            Ok(l) => l,
            Err(e) => {
                return Err(e);
            },
        };
        let nodes: Vec<WadNode> = match nodes_reader.decode_vec::<WadNode>() {
            Ok(v) => v,
            Err(e) => {
                return Err(e);
            },
        };
        let sidedefs_reader = match wad.lump_by_index(start + 3) {
            Ok(l) => l,
            Err(e) => {
                return Err(e);
            },
        };
        let sidedefs: Vec<WadSidedef> = match sidedefs_reader.decode_vec::<WadSidedef>() {
            Ok(v) => v,
            Err(e) => {
                return Err(e);
            },
        };
        let sectors_reader = match wad.lump_by_index(start + 8) {
            Ok(l) => l,
            Err(e) => {
                return Err(e);
            },
        };
        let sectors: Vec<WadSector> = match sectors_reader.decode_vec::<WadSector>() {
            Ok(v) => v,
            Err(e) => {
                return Err(e);
            },
        };
        let things_by_sector = Self::compute_things_by_sector(
            &things,
            &linedefs,
            &sidedefs,
            &sectors,
            &vertices,
        );
        Ok(
            Level {
                things,
                linedefs,
                sidedefs,
                vertices,
                segs,
                subsectors,
                nodes,
                sectors,
                things_by_sector,
            },
        )
    }

    /// Reconstruct each tagged sector's boundary polygon and classify
    /// every thing against it. A tagged sector without boundary linedefs,
    /// and a sector whose tag is zero, get no entry.
    fn compute_things_by_sector(
        things: &Vec<WadThing>,
        linedefs: &Vec<WadLinedef>,
        sidedefs: &Vec<WadSidedef>,
        sectors: &Vec<WadSector>,
        vertices: &Vec<WadVertex>,
    ) -> (r: HashMap<usize, Vec<usize>>)
        ensures
            things_by_sector_ok(things@, linedefs@, sidedefs@, sectors@, vertices@, r@),
    {
        let mut result: HashMap<usize, Vec<usize>> = HashMap::new();
        let nsec: usize = sectors.len();
        let vlen: usize = vertices.len();
        for s in 0..nsec
            invariant
                nsec == sectors@.len(),
                vlen == vertices@.len(),
                forall|s2: usize|
                    #[trigger] result@.contains_key(s2) ==> s2 < s && s2 < sectors@.len()
                        && sectors@[s2 as int].tag != 0 && sector_pairs(
                        linedefs@,
                        sidedefs@,
                        vertices@.len() as int,
                        s2,
                    ).len() > 0,
                forall|s2: usize|
                    s2 < s && sectors@[s2 as int].tag != 0 && (#[trigger] sector_pairs(
                        linedefs@,
                        sidedefs@,
                        vertices@.len() as int,
                        s2,
                    )).len() > 0 ==> result@.contains_key(s2),
                forall|s2: usize|
                    #[trigger] result@.contains_key(s2) ==> indices_below(
                        result@[s2]@,
                        things@.len() as int,
                    ) && sector_entry_ok(
                        things@,
                        linedefs@,
                        sidedefs@,
                        vertices@,
                        s2,
                        result@[s2]@,
                    ),
        {
            let tag: u16 = sectors[s].tag;
            if tag != 0 {
                let s16: u16 = (s % 0x10000) as u16;
                let pairs: Vec<(u16, u16)> = collect_boundary_pairs(linedefs, sidedefs, vlen, s16);
                if pairs.len() > 0 {
                    let lines: VertexEdgeMap = build_edge_map(&pairs);
                    proof {
                        lemma_edge_map_finite(pairs@, pairs@.len() as int);
                        lemma_edge_map_has_last(pairs@, pairs@.len() as int);
                    }
                    match mm_first_key(&lines) {
                        Some(start) => {
                            let mut lines = lines;
                            let path: Vec<u16> = walk_boundary(&mut lines, start);
                            proof {
                                lemma_boundary_pairs_below(
                                    linedefs@,
                                    sidedefs@,
                                    vlen as int,
                                    s16,
                                    linedefs@.len() as int,
                                );
                                lemma_edge_map_valid(pairs@, pairs@.len() as int, vlen as int);
                                lemma_spec_walk_bounded(
                                    edge_map(pairs@),
                                    start,
                                    seq![start],
                                    vlen as int,
                                );
                            }
                            let poly: Vec<(i64, i64)> = path_to_points(&path, vertices);
                            let inside: Vec<usize> = things_inside(things, &poly);
                            proof {
                                assert(walk_entry_ok(
                                    things@,
                                    linedefs@,
                                    sidedefs@,
                                    vertices@,
                                    s,
                                    start,
                                    inside@,
                                ));
                            }
                            result.insert(s, inside);
                        },
                        None => {
                            proof {
                                assert(false);
                            }
                        },
                    }
                }
            }
        }
        result
    }

    /// The things assigned to a sector, in their stored order; empty for a
    /// sector without an entry.
    pub fn things_in_sector(&self, sector_index: usize) -> (r: Vec<WadThing>)
        requires
            self.wf(),
        ensures
            self.things_by_sector@.contains_key(sector_index) ==> r@
                == self.things_by_sector@[sector_index]@.map_values(
                |i: usize| self.things@[i as int],
            ),
            !self.things_by_sector@.contains_key(sector_index) ==> r@ == Seq::<WadThing>::empty(),
    {
        let mut r: Vec<WadThing> = Vec::new();
        match self.things_by_sector.get(&sector_index) {
            Some(indices) => {
                let n: usize = indices.len();
                for j in 0..n
                    invariant
                        self.wf(),
                        self.things_by_sector@.contains_key(sector_index),
                        indices@ == self.things_by_sector@[sector_index]@,
                        n == indices@.len(),
                        r@.len() == j,
                        forall|u: int|
                            0 <= u < j ==> #[trigger] r@[u] == self.things@[indices@[u] as int],
                {
                    proof {
                        assert(indices_below(
                            self.things_by_sector@[sector_index]@,
                            self.things@.len() as int,
                        ));
                    }
                    let idx: usize = indices[j];
                    r.push(self.things[idx]);
                }
                proof {
                    assert(r@ =~= self.things_by_sector@[sector_index]@.map_values(
                        |i: usize| self.things@[i as int],
                    ));
                }
            },
            None => {},
        }
        r
    }
}

} // verus!
