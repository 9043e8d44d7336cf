//! The spatial store: node and way tables keyed by stable identifiers, a
//! type index from feature kind to way ids, and the bounding box of every
//! node seen. Built once during ingestion and read-only afterwards; the
//! tile-membership query `ways_in_tile_by_type` runs against it.
use vstd::prelude::*;

use crate::coord::{point_max, point_min, Point};
use crate::geometry::{tile_accepts, tile_accepts_exec, Tile};

verus! {

/// A projected feature point, uniquely keyed by id within a store.
#[derive(Clone, Copy, Debug, PartialEq, Eq, Structural)]
pub struct Node {
    pub id: i64,
    pub point: Point,
}

/// An ordered polyline or polygon boundary. The node ids are weak
/// references: one that resolves to no node is skipped, never an error.
#[derive(Clone, Debug)]
pub struct Way {
    pub id: i64,
    pub node_ids: Vec<i64>,
}

/// A relation of outer and inner way boundaries, kept for completeness;
/// the source data model never populates it.
#[derive(Clone, Debug)]
pub struct MultiPolygon {
    pub id: i64,
    pub outer_ways: Vec<i64>,
    pub inner_ways: Vec<i64>,
}

/// The feature-type tags the ingestion recognizes.
#[derive(Clone, Copy, Debug, PartialEq, Eq, Structural)]
pub enum WayKind {
    Building,
    Highway,
    Water,
}

/// Mapping from feature kind to the ids of the ways carrying that tag.
#[derive(Clone, Debug)]
pub struct TypeIndex {
    pub building: Vec<i64>,
    pub highway: Vec<i64>,
    pub water: Vec<i64>,
}

impl TypeIndex {
    pub open spec fn ids_of(self, k: WayKind) -> Seq<i64> {
        match k {
            WayKind::Building => self.building@,
            WayKind::Highway => self.highway@,
            WayKind::Water => self.water@,
        }
    }

    /// The ids tagged with kind `k`.
    pub fn get(&self, k: WayKind) -> (r: &Vec<i64>)
        ensures
            r@ == self.ids_of(k),
    {
        match k {
            WayKind::Building => &self.building,
            WayKind::Highway => &self.highway,
            WayKind::Water => &self.water,
        }
    }
}

/// The in-memory index of all features: node table, way table, type index,
/// and the bounding box of every node point seen during ingestion.
#[derive(Debug)]
pub struct Store {
    pub nodes: Vec<Node>,
    pub ways: Vec<Way>,
    pub multi_polygons: Vec<MultiPolygon>,
    pub ways_by_type: TypeIndex,
    pub min_point: Point,
    pub max_point: Point,
}

impl Store {
    pub open spec fn has_node(self, id: i64) -> bool {
        exists|i: int| 0 <= i < self.nodes@.len() && (#[trigger] self.nodes@[i]).id == id
    }

    pub open spec fn node_index(self, id: i64) -> int {
        choose|i: int| 0 <= i < self.nodes@.len() && (#[trigger] self.nodes@[i]).id == id
    }

    /// The unique node carrying `id` (meaningful when `has_node(id)`).
    pub open spec fn node_at(self, id: i64) -> Node {
        self.nodes@[self.node_index(id)]
    }

    pub open spec fn way_index(self, id: i64) -> int {
        choose|i: int| 0 <= i < self.ways@.len() && (#[trigger] self.ways@[i]).id == id
    }

    /// The unique way carrying `id` (meaningful when `has_way(id)`).
    pub open spec fn way_at(self, id: i64) -> Way {
        self.ways@[self.way_index(id)]
    }

    pub open spec fn has_way(self, id: i64) -> bool {
        exists|i: int| 0 <= i < self.ways@.len() && (#[trigger] self.ways@[i]).id == id
    }

    pub open spec fn nodes_unique(self) -> bool {
        forall|i: int, j: int|
            0 <= i < j < self.nodes@.len() ==> (#[trigger] self.nodes@[i]).id != (
            #[trigger] self.nodes@[j]).id
    }

    pub open spec fn ways_unique(self) -> bool {
        forall|i: int, j: int|
            0 <= i < j < self.ways@.len() ==> (#[trigger] self.ways@[i]).id != (
            #[trigger] self.ways@[j]).id
    }

    pub open spec fn points_in_range(self) -> bool {
        forall|i: int|
            0 <= i < self.nodes@.len() ==> (#[trigger] self.nodes@[i]).point.in_ingest_range()
    }

    /// Every id the type index holds names a way of the way table.
    pub open spec fn index_ids_known(self, ids: Seq<i64>) -> bool {
        forall|i: int| 0 <= i < ids.len() ==> self.has_way(#[trigger] ids[i])
    }

    pub open spec fn index_closed(self) -> bool {
        &&& self.index_ids_known(self.ways_by_type.building@)
        &&& self.index_ids_known(self.ways_by_type.highway@)
        &&& self.index_ids_known(self.ways_by_type.water@)
    }

    /// The bounding box encloses every node of the table and stays ordered
    /// and in range while any node exists.
    pub open spec fn bbox_bounds(self) -> bool {
        self.nodes@.len() > 0 ==> {
            &&& self.min_point.in_ingest_range()
            &&& self.max_point.in_ingest_range()
            &&& self.min_point.x <= self.max_point.x
            &&& self.min_point.y <= self.max_point.y
            &&& forall|i: int|
                0 <= i < self.nodes@.len() ==> {
                    let p = (#[trigger] self.nodes@[i]).point;
                    self.min_point.x <= p.x <= self.max_point.x && self.min_point.y <= p.y
                        <= self.max_point.y
                }
        }
    }

    pub open spec fn wf(self) -> bool {
        &&& self.nodes_unique()
        &&& self.ways_unique()
        &&& self.points_in_range()
        &&& self.index_closed()
        &&& self.bbox_bounds()
    }

    /// The points of `ids` that resolve to a node of the table, in order,
    /// unresolved references skipped.
    pub open spec fn resolved_points(self, ids: Seq<i64>) -> Seq<Point>
        decreases ids.len(),
    {
        if ids.len() == 0 {
            Seq::empty()
        } else {
            let rest = self.resolved_points(ids.drop_last());
            if self.has_node(ids.last()) {
                rest.push(self.node_at(ids.last()).point)
            } else {
                rest
            }
        }
    }

    /// Looks a node up by id; `None` when no node carries it.
    pub fn find_node(&self, id: i64) -> (r: Option<Node>)
        requires
            self.nodes_unique(),
        ensures
            match r {
                Some(n) => self.has_node(id) && n == self.node_at(id),
                None => !self.has_node(id),
            },
    {
        match self.node_position(id) {
            Some(i) => Some(self.nodes[i]),
            None => None,
        }
    }

    /// Resolves a way's node ids to points, skipping dangling references.
    pub fn resolve_points_of(&self, ids: &Vec<i64>) -> (pts: Vec<Point>)
        requires
            self.nodes_unique(),
        ensures
            pts@ == self.resolved_points(ids@),
    {
        let mut pts: Vec<Point> = Vec::new();
        let mut i: usize = 0;
        while i < ids.len()
            invariant
                0 <= i <= ids@.len(),
                self.nodes_unique(),
                pts@ == self.resolved_points(ids@.subrange(0, i as int)),
            decreases ids@.len() - i,
        {
            match self.find_node(ids[i]) {
                Some(n) => pts.push(n.point),
                None => (),
            }
            proof {
                assert(ids@.subrange(0, i + 1).drop_last() =~= ids@.subrange(0, i as int));
                assert(ids@.subrange(0, i + 1).last() == ids@[i as int]);
            }
            i = i + 1;
        }
        proof {
            assert(ids@.subrange(0, ids@.len() as int) =~= ids@);
        }
        pts
    }

    /// Every resolved point of a well-ranged node table is in range.
    pub proof fn lemma_resolved_points_in_range(self, ids: Seq<i64>)
        requires
            self.points_in_range(),
        ensures
            forall|k: int|
                0 <= k < self.resolved_points(ids).len() ==> (#[trigger] self.resolved_points(
                    ids,
                )[k]).in_range(),
        decreases ids.len(),
    {
        if ids.len() > 0 {
            self.lemma_resolved_points_in_range(ids.drop_last());
            let rest = self.resolved_points(ids.drop_last());
            if self.has_node(ids.last()) {
                let n = self.node_at(ids.last());
                assert(0 <= self.node_index(ids.last()) < self.nodes@.len());
                assert(n.point.in_range());
                assert forall|k: int|
                    0 <= k < self.resolved_points(ids).len() implies (
                #[trigger] self.resolved_points(ids)[k]).in_range() by {
                    if k < rest.len() {
                        assert(self.resolved_points(ids)[k] == rest[k]);
                    } else {
                        assert(self.resolved_points(ids)[k] == n.point);
                    }
                }
            }
        }
    }

    /// The type filter admits `id`: always when no filter is given, else
    /// exactly when the filtered kind's index lists it.
    pub open spec fn kind_allows(self, f: Option<WayKind>, id: i64) -> bool {
        match f {
            Option::None => true,
            Option::Some(k) => self.ways_by_type.ids_of(k).contains(id),
        }
    }

    /// The membership heuristic accepts way `w` for tile `t` under filter
    /// `f`: the filter admits its id and a resolved point lies strictly
    /// inside the tile or the resolved polyline meets the tile's border.
    pub open spec fn way_selected(self, t: Tile, f: Option<WayKind>, w: Way) -> bool {
        self.kind_allows(f, w.id) && tile_accepts(t, self.resolved_points(w.node_ids@))
    }

    /// Ids of the selected ways of `ways`, in table order.
    pub open spec fn selected_way_ids(self, t: Tile, f: Option<WayKind>, ways: Seq<Way>) -> Seq<
        i64,
    >
        decreases ways.len(),
    {
        if ways.len() == 0 {
            Seq::empty()
        } else {
            let rest = self.selected_way_ids(t, f, ways.drop_last());
            if self.way_selected(t, f, ways.last()) {
                rest.push(ways.last().id)
            } else {
                rest
            }
        }
    }

    pub open spec fn spec_ways_in_tile(self, t: Tile, f: Option<WayKind>) -> Seq<i64> {
        self.selected_way_ids(t, f, self.ways@)
    }

    /// Which ways touch the tile, by the two-phase membership heuristic:
    /// for each candidate way (all ways, or those of the filtered kind),
    /// accept it if some resolved point lies strictly inside the tile,
    /// else if its polyline intersects the tile's four-edge border.
    /// The result lists ids in way-table order, each selected way once.
    pub fn ways_in_tile_by_type(&self, tile: &Tile, way_type: Option<WayKind>) -> (ids: Vec<i64>)
        requires
            self.wf(),
            tile.wf(),
        ensures
            ids@ == self.spec_ways_in_tile(*tile, way_type),
    {
        let mut ids: Vec<i64> = Vec::new();
        let mut i: usize = 0;
        while i < self.ways.len()
            invariant
                0 <= i <= self.ways@.len(),
                self.wf(),
                tile.wf(),
                ids@ == self.selected_way_ids(*tile, way_type, self.ways@.subrange(0, i as int)),
            decreases self.ways@.len() - i,
        {
            let allowed = match way_type {
                Option::None => true,
                Option::Some(k) => vec_contains_i64(self.ways_by_type.get(k), self.ways[i].id),
            };
            if allowed {
                let pts = self.resolve_points_of(&self.ways[i].node_ids);
                proof {
                    self.lemma_resolved_points_in_range(self.ways@[i as int].node_ids@);
                }
                if tile_accepts_exec(tile, &pts) {
                    ids.push(self.ways[i].id);
                }
            }
            proof {
                assert(self.ways@.subrange(0, i + 1).drop_last() =~= self.ways@.subrange(
                    0,
                    i as int,
                ));
                assert(self.ways@.subrange(0, i + 1).last() == self.ways@[i as int]);
            }
            i = i + 1;
        }
        proof {
            assert(self.ways@.subrange(0, self.ways@.len() as int) =~= self.ways@);
        }
        ids
    }
}

impl Store {
    /// Index of the node carrying `id`, if any.
    fn node_position(&self, id: i64) -> (r: Option<usize>)
        requires
            self.nodes_unique(),
        ensures
            match r {
                Some(i) => i < self.nodes@.len() && self.nodes@[i as int].id == id && i as int
                    == self.node_index(id),
                None => !self.has_node(id),
            },
    {
        let mut i: usize = 0;
        while i < self.nodes.len()
            invariant
                0 <= i <= self.nodes@.len(),
                self.nodes_unique(),
                forall|m: int| 0 <= m < i ==> (#[trigger] self.nodes@[m]).id != id,
            decreases self.nodes@.len() - i,
        {
            if self.nodes[i].id == id {
                proof {
                    assert(self.has_node(id));
                    let j = self.node_index(id);
                    if j < i as int {
                        assert(self.nodes@[j].id != self.nodes@[i as int].id);
                    } else if j > i as int {
                        assert(self.nodes@[i as int].id != self.nodes@[j].id);
                    }
                }
                return Some(i);
            }
            i = i + 1;
        }
        None
    }

    /// Index of the way carrying `id`, if any.
    fn way_position(&self, id: i64) -> (r: Option<usize>)
        requires
            self.ways_unique(),
        ensures
            match r {
                Some(i) => i < self.ways@.len() && self.ways@[i as int].id == id,
                None => !self.has_way(id),
            },
    {
        let mut i: usize = 0;
        while i < self.ways.len()
            invariant
                0 <= i <= self.ways@.len(),
                self.ways_unique(),
                forall|m: int| 0 <= m < i ==> (#[trigger] self.ways@[m]).id != id,
            decreases self.ways@.len() - i,
        {
            if self.ways[i].id == id {
                return Some(i);
            }
            i = i + 1;
        }
        None
    }

    /// Looks a way up by id; `None` when no way carries it.
    pub fn find_way(&self, id: i64) -> (r: Option<&Way>)
        requires
            self.ways_unique(),
        ensures
            match r {
                Some(w) => self.has_way(id) && *w == self.way_at(id),
                None => !self.has_way(id),
            },
    {
        match self.way_position(id) {
            Some(i) => {
                proof {
                    assert(self.has_way(id));
                    let j = self.way_index(id);
                    if j < i as int {
                        assert(self.ways@[j].id != self.ways@[i as int].id);
                    } else if j > i as int {
                        assert(self.ways@[i as int].id != self.ways@[j].id);
                    }
                }
                Some(&self.ways[i])
            },
            None => None,
        }
    }

    /// Records one node seen during ingestion: widens the bounding box to
    /// its point, then stores it, replacing any node already carrying the
    /// same id (the box keeps the replaced point: it covers every node
    /// seen, not only those still stored).
    pub fn insert_node(&mut self, id: i64, point: Point)
        requires
            old(self).wf(),
            point.in_ingest_range(),
        ensures
            final(self).wf(),
            final(self).ways == old(self).ways,
            final(self).multi_polygons == old(self).multi_polygons,
            final(self).ways_by_type == old(self).ways_by_type,
            final(self).has_node(id),
            old(self).has_node(id) ==> final(self).nodes@ == old(self).nodes@.update(
                old(self).node_index(id),
                (Node { id, point }),
            ),
            !old(self).has_node(id) ==> final(self).nodes@ == old(self).nodes@.push(
                (Node { id, point }),
            ),
            final(self).min_point == (if old(self).nodes@.len() == 0 {
                point
            } else {
                point_min(old(self).min_point, point)
            }),
            final(self).max_point == (if old(self).nodes@.len() == 0 {
                point
            } else {
                point_max(old(self).max_point, point)
            }),
    {
        if self.nodes.len() == 0 {
            self.min_point = point;
            self.max_point = point;
        } else {
            self.min_point = self.min_point.min(point);
            self.max_point = self.max_point.max(point);
        }
        let n = Node { id, point };
        match self.node_position(id) {
            Some(i) => {
                proof {
                    let j = old(self).node_index(id);
                    assert(old(self).has_node(id));
                    assert(0 <= j < old(self).nodes@.len() && old(self).nodes@[j].id == id);
                    if j < i as int {
                        assert(old(self).nodes@[j].id != old(self).nodes@[i as int].id);
                    } else if j > i as int {
                        assert(old(self).nodes@[i as int].id != old(self).nodes@[j].id);
                    }
                }
                self.nodes[i] = n;
                proof {
                    assert forall|a: int, b: int|
                        0 <= a < b < self.nodes@.len() implies (#[trigger] self.nodes@[a]).id != (
                    #[trigger] self.nodes@[b]).id by {
                        assert(old(self).nodes@[a].id != old(self).nodes@[b].id);
                        assert(self.nodes@[a].id == old(self).nodes@[a].id);
                        assert(self.nodes@[b].id == old(self).nodes@[b].id);
                    }
                    assert forall|k: int|
                        0 <= k < self.nodes@.len() implies {
                        let p = (#[trigger] self.nodes@[k]).point;
                        self.min_point.x <= p.x <= self.max_point.x && self.min_point.y <= p.y
                            <= self.max_point.y
                    } by {
                        if k != i as int {
                            assert(self.nodes@[k] == old(self).nodes@[k]);
                        }
                    }
                    assert(self.nodes@[i as int].id == id);
                    assert forall|k: int|
                        0 <= k < self.nodes@.len() implies (
                    #[trigger] self.nodes@[k]).point.in_range() by {
                        if k != i as int {
                            assert(self.nodes@[k] == old(self).nodes@[k]);
                        }
                    }
                }
            },
            None => {
                self.nodes.push(n);
                proof {
                    assert forall|k: int|
                        0 <= k < self.nodes@.len() implies {
                        let p = (#[trigger] self.nodes@[k]).point;
                        self.min_point.x <= p.x <= self.max_point.x && self.min_point.y <= p.y
                            <= self.max_point.y
                    } by {
                        if k < old(self).nodes@.len() {
                            assert(self.nodes@[k] == old(self).nodes@[k]);
                        } else {
                            assert(self.nodes@[k] == n);
                        }
                    }
                    assert(self.nodes@[self.nodes@.len() - 1].id == id);
                    assert forall|a: int, b: int|
                        0 <= a < b < self.nodes@.len() implies (#[trigger] self.nodes@[a]).id != (
                    #[trigger] self.nodes@[b]).id by {
                        if b < old(self).nodes@.len() {
                            assert(old(self).nodes@[a].id != old(self).nodes@[b].id);
                        } else {
                            assert(self.nodes@[b] == n);
                            assert(self.nodes@[a] == old(self).nodes@[a]);
                            assert(!(old(self).nodes@[a].id == id));
                        }
                    }
                    assert forall|k: int|
                        0 <= k < self.nodes@.len() implies (
                    #[trigger] self.nodes@[k]).point.in_range() by {
                        if k < old(self).nodes@.len() {
                            assert(self.nodes@[k] == old(self).nodes@[k]);
                        } else {
                            assert(self.nodes@[k] == n);
                        }
                    }
                }
            },
        }
        proof {
            assert forall|x: i64| old(self).has_way(x) implies self.has_way(x) by {
                let k = choose|k: int|
                    0 <= k < old(self).ways@.len() && (#[trigger] old(self).ways@[k]).id == x;
                assert(self.ways@[k].id == x);
            }
            assert forall|i: int|
                0 <= i < self.ways_by_type.building@.len() implies self.has_way(
                #[trigger] self.ways_by_type.building@[i]) by {
                assert(old(self).has_way(old(self).ways_by_type.building@[i]));
            }
            assert forall|i: int|
                0 <= i < self.ways_by_type.highway@.len() implies self.has_way(
                #[trigger] self.ways_by_type.highway@[i]) by {
                assert(old(self).has_way(old(self).ways_by_type.highway@[i]));
            }
            assert forall|i: int|
                0 <= i < self.ways_by_type.water@.len() implies self.has_way(
                #[trigger] self.ways_by_type.water@[i]) by {
                assert(old(self).has_way(old(self).ways_by_type.water@[i]));
            }
        }
    }

    /// Records one way seen during ingestion, replacing any way already
    /// carrying the same id.
    pub fn insert_way(&mut self, way: Way)
        requires
            old(self).wf(),
        ensures
            final(self).wf(),
            final(self).nodes == old(self).nodes,
            final(self).multi_polygons == old(self).multi_polygons,
            final(self).ways_by_type == old(self).ways_by_type,
            final(self).min_point == old(self).min_point,
            final(self).max_point == old(self).max_point,
            final(self).has_way(way.id),
            old(self).has_way(way.id) ==> (exists|i: int|
                0 <= i < old(self).ways@.len() && old(self).ways@[i].id == way.id
                    && final(self).ways@ == old(self).ways@.update(i, way)),
            !old(self).has_way(way.id) ==> final(self).ways@ == old(self).ways@.push(way),
    {
        let wid = way.id;
        match self.way_position(wid) {
            Some(i) => {
                self.ways[i] = way;
                proof {
                    assert forall|a: int, b: int|
                        0 <= a < b < self.ways@.len() implies (#[trigger] self.ways@[a]).id != (
                    #[trigger] self.ways@[b]).id by {
                        assert(old(self).ways@[a].id != old(self).ways@[b].id);
                        assert(self.ways@[a].id == old(self).ways@[a].id);
                        assert(self.ways@[b].id == old(self).ways@[b].id);
                    }
                    assert forall|id2: i64| old(self).has_way(id2) implies self.has_way(id2) by {
                        let w = choose|k: int|
                            0 <= k < old(self).ways@.len() && (#[trigger] old(
                                self,
                            ).ways@[k]).id == id2;
                        assert(self.ways@[w].id == id2);
                    }
                    assert(self.ways@[i as int].id == wid);
                }
            },
            None => {
                self.ways.push(way);
                proof {
                    assert forall|id2: i64| old(self).has_way(id2) implies self.has_way(id2) by {
                        let w = choose|k: int|
                            0 <= k < old(self).ways@.len() && (#[trigger] old(
                                self,
                            ).ways@[k]).id == id2;
                        assert(self.ways@[w].id == id2);
                    }
                    assert(self.ways@[self.ways@.len() - 1].id == wid);
                }
            },
        }
    }

    /// Tags an existing way with a feature kind, appending its id to that
    /// kind's entry of the type index.
    pub fn tag_way(&mut self, id: i64, kind: WayKind)
        requires
            old(self).wf(),
            old(self).has_way(id),
        ensures
            final(self).wf(),
            final(self).nodes == old(self).nodes,
            final(self).ways == old(self).ways,
            final(self).multi_polygons == old(self).multi_polygons,
            final(self).min_point == old(self).min_point,
            final(self).max_point == old(self).max_point,
            final(self).ways_by_type.ids_of(kind) == old(self).ways_by_type.ids_of(kind).push(id),
            forall|k: WayKind|
                k != kind ==> #[trigger] final(self).ways_by_type.ids_of(k) == old(
                    self,
                ).ways_by_type.ids_of(k),
    {
        match kind {
            WayKind::Building => self.ways_by_type.building.push(id),
            WayKind::Highway => self.ways_by_type.highway.push(id),
            WayKind::Water => self.ways_by_type.water.push(id),
        }
        proof {
            assert forall|x: i64| old(self).has_way(x) implies self.has_way(x) by {
                let k = choose|k: int|
                    0 <= k < old(self).ways@.len() && (#[trigger] old(self).ways@[k]).id == x;
                assert(self.ways@[k].id == x);
            }
            assert forall|i: int|
                0 <= i < self.ways_by_type.building@.len() implies self.has_way(
                #[trigger] self.ways_by_type.building@[i]) by {
                if i < old(self).ways_by_type.building@.len() {
                    assert(old(self).has_way(old(self).ways_by_type.building@[i]));
                } else {
                    assert(self.ways_by_type.building@[i] == id);
                }
            }
            assert forall|i: int|
                0 <= i < self.ways_by_type.highway@.len() implies self.has_way(
                #[trigger] self.ways_by_type.highway@[i]) by {
                if i < old(self).ways_by_type.highway@.len() {
                    assert(old(self).has_way(old(self).ways_by_type.highway@[i]));
                } else {
                    assert(self.ways_by_type.highway@[i] == id);
                }
            }
            assert forall|i: int|
                0 <= i < self.ways_by_type.water@.len() implies self.has_way(
                #[trigger] self.ways_by_type.water@[i]) by {
                if i < old(self).ways_by_type.water@.len() {
                    assert(old(self).has_way(old(self).ways_by_type.water@[i]));
                } else {
                    assert(self.ways_by_type.water@[i] == id);
                }
            }
        }
    }
}

impl Default for Store {
    /// An empty store with the bounding box collapsed at the origin.
    fn default() -> (s: Store)
        ensures
            s.nodes@.len() == 0,
            s.ways@.len() == 0,
            s.multi_polygons@.len() == 0,
            s.ways_by_type.building@.len() == 0,
            s.ways_by_type.highway@.len() == 0,
            s.ways_by_type.water@.len() == 0,
            s.min_point == (Point { x: 0, y: 0 }),
            s.max_point == (Point { x: 0, y: 0 }),
            s.wf(),
    {
        Store {
            nodes: Vec::new(),
            ways: Vec::new(),
            multi_polygons: Vec::new(),
            ways_by_type: TypeIndex { building: Vec::new(), highway: Vec::new(), water: Vec::new() },
            min_point: Point { x: 0, y: 0 },
            max_point: Point { x: 0, y: 0 },
        }
    }
}

/// The feature kind a tag key of the source data names, if the ingestion
/// recognizes it.
pub open spec fn spec_way_kind(tag: Seq<char>) -> Option<WayKind> {
    if tag == "building"@ {
        Option::Some(WayKind::Building)
    } else if tag == "highway"@ {
        Option::Some(WayKind::Highway)
    } else if tag == "water"@ {
        Option::Some(WayKind::Water)
    } else {
        Option::None
    }
}

/// Maps a tag key to the feature kind it names.
pub fn way_kind_of_tag(tag: &String) -> (r: Option<WayKind>)
    ensures
        r == spec_way_kind(tag@),
{
    if *tag == "building".to_owned() {
        Some(WayKind::Building)
    } else if *tag == "highway".to_owned() {
        Some(WayKind::Highway)
    } else if *tag == "water".to_owned() {
        Some(WayKind::Water)
    } else {
        None
    }
}

/// For any prefix of the way table, the selected ids hold `id` exactly when
/// some way of that prefix carries `id` and is accepted by the heuristic.
proof fn lemma_selected_way_ids_contains(
    s: Store,
    t: Tile,
    f: Option<WayKind>,
    ways: Seq<Way>,
    id: i64,
)
    ensures
        s.selected_way_ids(t, f, ways).contains(id) <==> (exists|i: int|
            0 <= i < ways.len() && (#[trigger] ways[i]).id == id && s.way_selected(
                t,
                f,
                ways[i],
            )),
    decreases ways.len(),
{
    if ways.len() > 0 {
        lemma_selected_way_ids_contains(s, t, f, ways.drop_last(), id);
        let pre = ways.drop_last();
        let rest = s.selected_way_ids(t, f, pre);
        let full = s.selected_way_ids(t, f, ways);
        assert(forall|i: int| 0 <= i < pre.len() ==> #[trigger] pre[i] == ways[i]);
        if s.way_selected(t, f, ways.last()) {
            assert(full == rest.push(ways.last().id));
            if full.contains(id) {
                let k = choose|k: int| 0 <= k < full.len() && full[k] == id;
                if k < rest.len() {
                    assert(rest[k] == id);
                    let i = choose|i: int|
                        0 <= i < pre.len() && (#[trigger] pre[i]).id == id && s.way_selected(
                            t,
                            f,
                            pre[i],
                        );
                    assert(ways[i].id == id && s.way_selected(t, f, ways[i]));
                } else {
                    assert(ways[ways.len() - 1].id == id && s.way_selected(
                        t,
                        f,
                        ways[ways.len() - 1],
                    ));
                }
            }
            if exists|i: int|
                0 <= i < ways.len() && (#[trigger] ways[i]).id == id && s.way_selected(
                    t,
                    f,
                    ways[i],
                ) {
                let i = choose|i: int|
                    0 <= i < ways.len() && (#[trigger] ways[i]).id == id && s.way_selected(
                        t,
                        f,
                        ways[i],
                    );
                if i < ways.len() - 1 {
                    assert(pre[i].id == id && s.way_selected(t, f, pre[i]));
                    assert(rest.contains(id));
                    let k = choose|k: int| 0 <= k < rest.len() && rest[k] == id;
                    assert(full[k] == id);
                } else {
                    assert(full[full.len() - 1] == id);
                }
            }
        } else {
            assert(full == rest);
            if full.contains(id) {
                let i = choose|i: int|
                    0 <= i < pre.len() && (#[trigger] pre[i]).id == id && s.way_selected(
                        t,
                        f,
                        pre[i],
                    );
                assert(ways[i].id == id && s.way_selected(t, f, ways[i]));
            }
            if exists|i: int|
                0 <= i < ways.len() && (#[trigger] ways[i]).id == id && s.way_selected(
                    t,
                    f,
                    ways[i],
                ) {
                let i = choose|i: int|
                    0 <= i < ways.len() && (#[trigger] ways[i]).id == id && s.way_selected(
                        t,
                        f,
                        ways[i],
                    );
                assert(i < ways.len() - 1);
                assert(pre[i].id == id && s.way_selected(t, f, pre[i]));
            }
        }
    }
}

/// The tile query returns `id` exactly when some way of the table carries
/// it, the type filter admits it, and the way passes the heuristic's
/// inside-or-border test — no hidden filtering beyond those conditions,
/// and none of them waived.
pub proof fn lemma_ways_in_tile_exact(s: Store, t: Tile, f: Option<WayKind>, id: i64)
    ensures
        s.spec_ways_in_tile(t, f).contains(id) <==> (exists|i: int|
            0 <= i < s.ways@.len() && (#[trigger] s.ways@[i]).id == id && s.kind_allows(f, id)
                && tile_accepts(t, s.resolved_points(s.ways@[i].node_ids@))),
{
    lemma_selected_way_ids_contains(s, t, f, s.ways@, id);
    if exists|i: int|
        0 <= i < s.ways@.len() && (#[trigger] s.ways@[i]).id == id && s.way_selected(
            t,
            f,
            s.ways@[i],
        ) {
        let i = choose|i: int|
            0 <= i < s.ways@.len() && (#[trigger] s.ways@[i]).id == id && s.way_selected(
                t,
                f,
                s.ways@[i],
            );
        assert(s.kind_allows(f, id) && tile_accepts(t, s.resolved_points(s.ways@[i].node_ids@)));
    }
    if exists|i: int|
        0 <= i < s.ways@.len() && (#[trigger] s.ways@[i]).id == id && s.kind_allows(f, id)
            && tile_accepts(t, s.resolved_points(s.ways@[i].node_ids@)) {
        let i = choose|i: int|
            0 <= i < s.ways@.len() && (#[trigger] s.ways@[i]).id == id && s.kind_allows(f, id)
                && tile_accepts(t, s.resolved_points(s.ways@[i].node_ids@));
        assert(s.way_selected(t, f, s.ways@[i]));
    }
}

/// The tile query returns an ordered set: no way id appears twice, since
/// way ids are unique within the store and each way is tested once.
pub proof fn lemma_ways_in_tile_distinct(s: Store, t: Tile, f: Option<WayKind>)
    requires
        s.ways_unique(),
    ensures
        forall|a: int, b: int|
            0 <= a < b < s.spec_ways_in_tile(t, f).len() ==> s.spec_ways_in_tile(t, f)[a]
                != s.spec_ways_in_tile(t, f)[b],
{
    lemma_selected_way_ids_distinct(s, t, f, s.ways@);
}

/// Distinctness of the selected ids of any way-table prefix whose ways
/// carry pairwise distinct ids.
proof fn lemma_selected_way_ids_distinct(s: Store, t: Tile, f: Option<WayKind>, ways: Seq<Way>)
    requires
        forall|i: int, j: int|
            0 <= i < j < ways.len() ==> (#[trigger] ways[i]).id != (#[trigger] ways[j]).id,
    ensures
        forall|a: int, b: int|
            0 <= a < b < s.selected_way_ids(t, f, ways).len() ==> s.selected_way_ids(
                t,
                f,
                ways,
            )[a] != s.selected_way_ids(t, f, ways)[b],
    decreases ways.len(),
{
    if ways.len() > 0 {
        let pre = ways.drop_last();
        assert(forall|i: int| 0 <= i < pre.len() ==> #[trigger] pre[i] == ways[i]);
        lemma_selected_way_ids_distinct(s, t, f, pre);
        let rest = s.selected_way_ids(t, f, pre);
        let full = s.selected_way_ids(t, f, ways);
        if s.way_selected(t, f, ways.last()) {
            let last_id = ways.last().id;
            assert(!rest.contains(last_id)) by {
                lemma_selected_way_ids_contains(s, t, f, pre, last_id);
                if rest.contains(last_id) {
                    let i = choose|i: int|
                        0 <= i < pre.len() && (#[trigger] pre[i]).id == last_id
                            && s.way_selected(t, f, pre[i]);
                    assert(ways[i].id != ways[ways.len() - 1].id);
                }
            }
            assert forall|a: int, b: int|
                0 <= a < b < full.len() implies full[a] != full[b] by {
                if b < rest.len() {
                    assert(full[a] == rest[a] && full[b] == rest[b]);
                } else {
                    assert(full[b] == last_id);
                    assert(full[a] == rest[a]);
                    assert(rest.contains(rest[a]));
                }
            }
        } else {
            assert(full == rest);
        }
    }
}

/// Whether `v` holds `id`.
pub fn vec_contains_i64(v: &Vec<i64>, id: i64) -> (r: bool)
    ensures
        r == v@.contains(id),
{
    let mut i: usize = 0;
    while i < v.len()
        invariant
            0 <= i <= v@.len(),
            forall|m: int| 0 <= m < i ==> v@[m] != id,
        decreases v@.len() - i,
    {
        if v[i] == id {
            return true;
        }
        i = i + 1;
    }
    false
}

} // verus!
