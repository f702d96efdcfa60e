//! The spatial index: a resource that knows where every positioned entity
//! is, kept up to date by a hook on the `Position` component.

use vstd::prelude::*;
use crate::base_components::Position;
use crate::codec::{i32_of_bytes, lemma_number_round_trip};
use crate::component::{ComponentInstanceId, ComponentType, ComponentView};
use crate::entity_id::EntityId;
use crate::hook::Hook;
use crate::query::{change_views, Change, ChangeType, ChangeView};
use crate::resource::{
    resource_key_of_name, RequestView, Resource, ResourceKey, ResourceRequest, ResourceState,
};
use crate::resource_writer::ResourceWriter;
use crate::spatial::{
    distance2, point_table_get, point_table_insert, point_table_new, point_table_remove,
    tree_contents, tree_insert, tree_len, tree_nearest, tree_new, tree_remove, PointTable,
};
use crate::store::Store;

verus! {

/// The operation of a request that puts an entity at a point.
pub const POSITION_INSERT: u64 = 0;

/// The operation of a request that moves an entity to a point.
pub const POSITION_UPDATE: u64 = 1;

/// The operation of a request that takes an entity off the map.
pub const POSITION_REMOVE: u64 = 2;

/// The operation of a request that asks for the entities nearest to a point.
pub const POSITION_NEAREST: u64 = 3;

/// The points of the positioned entities, in an R-tree, and the last known
/// point of each entity.
pub struct PositionMap {
    entity_to_position: PointTable,
    map: rtree_rs::RTree<2, i128, u64>,
}

impl View for PositionMap {
    type V = Map<EntityId, (i32, i32)>;

    /// The point of each entity on the map.
    closed spec fn view(&self) -> Map<EntityId, (i32, i32)> {
        Map::new(
            |entity: EntityId| self.entity_to_position@.contains_key(entity.0),
            |entity: EntityId| self.entity_to_position@[entity.0],
        )
    }
}

impl PositionMap {
    /// Whether the table says that `point` is where the entity is.
    spec fn places(&self, point: (u64, i32, i32)) -> bool {
        self.entity_to_position@.contains_key(point.0) && self.entity_to_position@[point.0] == (
            point.1,
            point.2,
        )
    }

    /// The invariant of the map: the tree holds every entity once, at its
    /// last known point, and nothing else.
    pub closed spec fn wf(&self) -> bool {
        &&& self.entity_to_position@.dom().finite()
        &&& tree_contents(self.map).len() == self.entity_to_position@.dom().len()
        &&& forall|point: (u64, i32, i32)| #[trigger]
            tree_contents(self.map).count(point) == if self.places(point) {
                1nat
            } else {
                0nat
            }
    }

    /// A map without entities.
    pub fn new() -> (map: Self)
        ensures
            map.wf(),
            map@ == Map::<EntityId, (i32, i32)>::empty(),
    {
        let map = PositionMap { entity_to_position: point_table_new(), map: tree_new() };
        assert(map@ =~= Map::<EntityId, (i32, i32)>::empty());
        map
    }

    /// Puts the entity at `position`; if it is on the map already, it moves.
    pub fn insert(&mut self, id: EntityId, position: [i32; 2])
        ensures
            old(self).wf() ==> final(self).wf(),
            final(self)@ == old(self)@.insert(id, (position[0], position[1])),
    {
        let x = position[0];
        let y = position[1];
        match point_table_get(&self.entity_to_position, id.0) {
            Some(last) => {
                let removed = tree_remove(&mut self.map, id.0, last.0, last.1);
                proof {
                    if old(self).wf() {
                        assert(old(self).places((id.0, last.0, last.1)));
                        assert(tree_contents(old(self).map).count((id.0, last.0, last.1)) == 1);
                        let point = removed->Some_0;
                        assert(tree_contents(old(self).map).count((id.0, point.0, point.1)) > 0);
                        assert(old(self).places((id.0, point.0, point.1)));
                        assert(point == last);
                    }
                }
            },
            None => {},
        }
        tree_insert(&mut self.map, id.0, x, y);
        point_table_insert(&mut self.entity_to_position, id.0, (x, y));
        proof {
            assert(self@ =~= old(self)@.insert(id, (x, y)));
            if old(self).wf() {
                let before = old(self).entity_to_position@;
                assert(self.entity_to_position@.dom() =~= before.dom().insert(id.0));
                assert forall|point: (u64, i32, i32)| #[trigger]
                    tree_contents(self.map).count(point) == if self.places(point) {
                        1nat
                    } else {
                        0nat
                    } by {
                    assert(tree_contents(old(self).map).count(point) == if old(self).places(point) {
                        1nat
                    } else {
                        0nat
                    });
                }
            }
        }
    }

    /// Moves the entity to `position`; if it is not on the map yet, it is put
    /// there.
    pub fn update(&mut self, id: EntityId, position: [i32; 2])
        ensures
            old(self).wf() ==> final(self).wf(),
            final(self)@ == old(self)@.insert(id, (position[0], position[1])),
    {
        self.insert(id, position);
    }

    /// Takes the entity off the map. For an entity that is not on the map
    /// nothing happens.
    pub fn remove(&mut self, id: EntityId)
        ensures
            old(self).wf() ==> final(self).wf(),
            final(self)@ == old(self)@.remove(id),
    {
        match point_table_remove(&mut self.entity_to_position, id.0) {
            Some(last) => {
                let removed = tree_remove(&mut self.map, id.0, last.0, last.1);
                proof {
                    if old(self).wf() {
                        assert(old(self).places((id.0, last.0, last.1)));
                        assert(tree_contents(old(self).map).count((id.0, last.0, last.1)) == 1);
                        let point = removed->Some_0;
                        assert(tree_contents(old(self).map).count((id.0, point.0, point.1)) > 0);
                        assert(old(self).places((id.0, point.0, point.1)));
                        assert(point == last);
                        assert forall|point: (u64, i32, i32)| #[trigger]
                            tree_contents(self.map).count(point) == if self.places(point) {
                                1nat
                            } else {
                                0nat
                            } by {
                            assert(tree_contents(old(self).map).count(point) == if old(
                                self,
                            ).places(point) {
                                1nat
                            } else {
                                0nat
                            });
                        }
                    }
                }
            },
            None => {},
        }
        proof {
            assert(self@ =~= old(self)@.remove(id));
        }
    }

    /// The number of entities on the map.
    pub fn len(&self) -> (len: usize)
        ensures
            self.wf() ==> len == self@.dom().len(),
    {
        self.count()
    }

    /// The number of points in the tree, which is the number of entities on
    /// the map.
    fn count(&self) -> (len: usize)
        ensures
            len == tree_contents(self.map).len(),
            self.wf() ==> len == self@.dom().len() && self@.dom().finite(),
    {
        proof {
            if self.wf() {
                let numbers = self.entity_to_position@.dom();
                let ids = self@.dom();
                assert(ids =~= numbers.map(|number: u64| EntityId(number))) by {
                    assert forall|id: EntityId| ids.contains(id) implies numbers.map(
                        |number: u64| EntityId(number),
                    ).contains(id) by {
                        assert(numbers.contains(id.0));
                        assert(EntityId(id.0) == id);
                    }
                }
                vstd::set_lib::lemma_map_size(numbers, ids, |number: u64| EntityId(number));
            }
        }
        tree_len(&self.map)
    }
}

/// Whether the point `a` comes before the point `b` in the order of the
/// nearest: by the distance from `(x, y)`, and by the number of the entity
/// where the distances are the same.
pub open spec fn before(x: i32, y: i32, a: (u64, i32, i32), b: (u64, i32, i32)) -> bool {
    distance2(x, y, a.1, a.2) < distance2(x, y, b.1, b.2) || (distance2(x, y, a.1, a.2)
        == distance2(x, y, b.1, b.2) && a.0 < b.0)
}

/// Whether `found` is the answer to a question for the `n` entities nearest
/// to `(x, y)`: entities of the map with their points, in the order of the
/// nearest, and no entity that is left out comes before one that is in.
pub open spec fn is_nearest(
    positions: Map<EntityId, (i32, i32)>,
    x: i32,
    y: i32,
    n: nat,
    found: Seq<(u64, i32, i32)>,
) -> bool {
    &&& found.len() <= n
    &&& forall|i: int|
        0 <= i < found.len() ==> positions.contains_key(EntityId((#[trigger] found[i]).0))
            && positions[EntityId(found[i].0)] == (found[i].1, found[i].2)
    &&& forall|i: int, j: int|
        0 <= i < j < found.len() ==> before(x, y, #[trigger] found[i], #[trigger] found[j])
    &&& forall|entity: EntityId| #[trigger]
        positions.contains_key(entity) ==> (exists|i: int|
            0 <= i < found.len() && (#[trigger] found[i]).0 == entity.0) || (found.len() == n
            && (n == 0 || before(
            x,
            y,
            found[n - 1],
            (entity.0, positions[entity].0, positions[entity].1),
        )))
}

/// Whether `a` comes before `b` in the order of the nearest.
fn comes_before(x: i32, y: i32, a: (u64, i32, i32), b: (u64, i32, i32)) -> (answer: bool)
    ensures
        answer == before(x, y, a, b),
{
    let to_a = crate::spatial::point_to_box(a.1, a.2, a.1, a.2, x, y);
    let to_b = crate::spatial::point_to_box(b.1, b.2, b.1, b.2, x, y);
    to_a < to_b || (to_a == to_b && a.0 < b.0)
}

/// Whether `a` is farther from `(x, y)` than `b`.
fn is_farther(x: i32, y: i32, a: (u64, i32, i32), b: (u64, i32, i32)) -> (answer: bool)
    ensures
        answer == (distance2(x, y, a.1, a.2) > distance2(x, y, b.1, b.2)),
{
    let to_a = crate::spatial::point_to_box(a.1, a.2, a.1, a.2, x, y);
    let to_b = crate::spatial::point_to_box(b.1, b.2, b.1, b.2, x, y);
    to_a > to_b
}

/// Whether the points are in the order of the nearest.
pub open spec fn ordered(x: i32, y: i32, points: Seq<(u64, i32, i32)>) -> bool {
    forall|a: int, b: int|
        0 <= a < b < points.len() ==> before(x, y, #[trigger] points[a], #[trigger] points[b])
}

/// Whether `best` holds the `n` first of `seen` in the order of the nearest.
pub open spec fn keeps_nearest(
    x: i32,
    y: i32,
    n: nat,
    seen: Seq<(u64, i32, i32)>,
    best: Seq<(u64, i32, i32)>,
) -> bool {
    &&& best.len() == if seen.len() < n {
        seen.len()
    } else {
        n
    }
    &&& ordered(x, y, best)
    &&& forall|j: int| 0 <= j < best.len() ==> seen.contains(#[trigger] best[j])
    &&& forall|i: int|
        0 <= i < seen.len() ==> best.contains(#[trigger] seen[i]) || (best.len() == n && before(
            x,
            y,
            best[n - 1],
            seen[i],
        ))
}

/// The points after `item` is put at its place among the `n` nearest.
pub open spec fn with_point(
    n: nat,
    best: Seq<(u64, i32, i32)>,
    place: int,
    item: (u64, i32, i32),
) -> Seq<(u64, i32, i32)> {
    if place >= n {
        best
    } else if best.len() + 1 > n {
        best.insert(place, item).drop_last()
    } else {
        best.insert(place, item)
    }
}

/// Putting one more point at its place keeps the `n` nearest.
proof fn lemma_with_point(
    x: i32,
    y: i32,
    n: nat,
    seen: Seq<(u64, i32, i32)>,
    best: Seq<(u64, i32, i32)>,
    place: int,
    item: (u64, i32, i32),
)
    requires
        n > 0,
        keeps_nearest(x, y, n, seen, best),
        0 <= place <= best.len(),
        forall|a: int| 0 <= a < best.len() ==> (#[trigger] best[a]).0 != item.0,
        forall|a: int| 0 <= a < place ==> before(x, y, #[trigger] best[a], item),
        place < best.len() ==> before(x, y, item, best[place]),
    ensures
        keeps_nearest(x, y, n, seen.push(item), with_point(n, best, place, item)),
        best.len() == n ==> !before(x, y, best[n - 1], with_point(n, best, place, item)[n - 1]),
{
    let seen2 = seen.push(item);
    let kept = with_point(n, best, place, item);
    assert forall|i: int| 0 <= i < seen.len() implies seen2[i] == seen[i] by {}
    assert(seen2[seen.len() as int] == item);
    if place >= n {
        assert(best.len() == n);
        assert forall|j: int| 0 <= j < kept.len() implies seen2.contains(#[trigger] kept[j]) by {
            let at = choose|at: int| 0 <= at < seen.len() && seen[at] == best[j];
            assert(seen2[at] == kept[j]);
        }
        assert forall|i: int| 0 <= i < seen2.len() implies kept.contains(#[trigger] seen2[i]) || (
        kept.len() == n && before(x, y, kept[n - 1], seen2[i])) by {
            if i < seen.len() {
                assert(seen2[i] == seen[i]);
            } else {
                assert(before(x, y, best[n - 1], item));
            }
        }
    } else {
        let grown = best.insert(place, item);
        assert(grown[place] == item);
        assert forall|a: int| 0 <= a < place implies grown[a] == best[a] by {}
        assert forall|a: int| place < a < grown.len() implies grown[a] == best[a - 1] by {}
        assert(ordered(x, y, grown)) by {
            assert forall|a: int, b: int| 0 <= a < b < grown.len() implies before(
                x,
                y,
                #[trigger] grown[a],
                #[trigger] grown[b],
            ) by {
                if b < place {
                } else if b == place {
                } else if a == place {
                    if b - 1 > place {
                        assert(before(x, y, best[place], best[b - 1]));
                    }
                } else if a < place {
                    assert(before(x, y, best[a], best[b - 1]));
                } else {
                    assert(before(x, y, best[a - 1], best[b - 1]));
                }
            }
        }
        assert forall|j: int| 0 <= j < kept.len() implies kept[j] == grown[j] by {}
        assert forall|j: int| 0 <= j < kept.len() implies seen2.contains(#[trigger] kept[j]) by {
            if j == place {
                assert(seen2[seen.len() as int] == kept[j]);
            } else {
                let from = if j < place {
                    j
                } else {
                    j - 1
                };
                assert(kept[j] == best[from]);
                let at = choose|at: int| 0 <= at < seen.len() && seen[at] == best[from];
                assert(seen2[at] == kept[j]);
            }
        }
        assert forall|i: int| 0 <= i < seen2.len() implies kept.contains(#[trigger] seen2[i]) || (
        kept.len() == n && before(x, y, kept[n - 1], seen2[i])) by {
            if i == seen.len() {
                assert(kept[place] == seen2[i]);
            } else if best.contains(seen[i]) {
                let j = choose|j: int| 0 <= j < best.len() && best[j] == seen[i];
                let to = if j < place {
                    j
                } else {
                    j + 1
                };
                assert(grown[to] == seen[i]);
                if to < kept.len() {
                    assert(kept[to] == seen2[i]);
                } else {
                    assert(before(x, y, grown[n - 1], grown[to]));
                }
            } else {
                assert(grown[n as int] == best[n - 1]);
                assert(before(x, y, grown[n - 1], grown[n as int]));
            }
        }
        if best.len() == n {
            assert(grown[n as int] == best[n - 1]);
            assert(before(x, y, grown[n - 1], grown[n as int]));
        }
    }
}

/// Whether the points are in the order of their distance from `(x, y)` and
/// no entity is at two of them.
pub open spec fn by_distance(x: i32, y: i32, points: Seq<(u64, i32, i32)>) -> bool {
    &&& forall|i: int, j: int|
        0 <= i <= j < points.len() ==> distance2(x, y, (#[trigger] points[i]).1, points[i].2)
            <= distance2(x, y, (#[trigger] points[j]).1, points[j].2)
    &&& forall|i: int, j: int|
        0 <= i < points.len() && 0 <= j < points.len() && i != j ==> (#[trigger] points[i]).0 != (
        #[trigger] points[j]).0
}

/// The `n` first of `fetched` in the order of the nearest, given that the
/// points come in the order of their distance.
fn keep_nearest(fetched: &Vec<(u64, i32, i32)>, n: usize, x: i32, y: i32) -> (best: Vec<
    (u64, i32, i32),
>)
    requires
        n > 0,
    ensures
        best.len() <= n,
        by_distance(x, y, fetched@) ==> keeps_nearest(x, y, n as nat, fetched@, best@),
        by_distance(x, y, fetched@) && fetched.len() >= n ==> distance2(
            x,
            y,
            best[n - 1].1,
            best[n - 1].2,
        ) <= distance2(x, y, fetched[n - 1].1, fetched[n - 1].2),
{
    let mut best: Vec<(u64, i32, i32)> = Vec::new();
    let mut k: usize = 0;
    assert(fetched@.subrange(0, 0) =~= Seq::<(u64, i32, i32)>::empty());
    while k < fetched.len()
        invariant
            n > 0,
            k <= fetched.len(),
            best.len() <= n,
            by_distance(x, y, fetched@) ==> keeps_nearest(
                x,
                y,
                n as nat,
                fetched@.subrange(0, k as int),
                best@,
            ),
            by_distance(x, y, fetched@) && k >= n ==> distance2(x, y, best[n - 1].1, best[n - 1].2)
                <= distance2(x, y, fetched[n - 1].1, fetched[n - 1].2),
        decreases fetched.len() - k,
    {
        let item = fetched[k];
        let ghost seen = fetched@.subrange(0, k as int);
        let ghost old_best = best@;
        let ghost fit = by_distance(x, y, fetched@);
        proof {
            if fit {
                assert forall|a: int| 0 <= a < old_best.len() implies (#[trigger] old_best[a]).0
                    != item.0 by {
                    assert(seen.contains(old_best[a]));
                    let i = choose|i: int| 0 <= i < seen.len() && seen[i] == old_best[a];
                    assert(fetched[i].0 != fetched[k as int].0);
                }
            }
        }
        let mut place: usize = 0;
        while place < best.len() && !comes_before(x, y, item, best[place])
            invariant
                place <= best.len(),
                best@ == old_best,
                fit ==> forall|a: int|
                    0 <= a < old_best.len() ==> (#[trigger] old_best[a]).0 != item.0,
                fit ==> forall|a: int| 0 <= a < place ==> before(x, y, #[trigger] best[a], item),
            decreases best.len() - place,
        {
            place += 1;
        }
        proof {
            if fit {
                lemma_with_point(x, y, n as nat, seen, old_best, place as int, item);
                assert(fetched@.subrange(0, k + 1) =~= seen.push(item));
            }
        }
        if place < n {
            best.insert(place, item);
            if best.len() > n {
                best.pop();
            }
        }
        proof {
            if fit {
                assert(best@ =~= with_point(n as nat, old_best, place as int, item));
                if k + 1 == n {
                    let next = fetched@.subrange(0, k + 1);
                    assert(next.contains(best@[n - 1]));
                    let i = choose|i: int| 0 <= i < next.len() && next[i] == best@[n - 1];
                    assert(fetched[i] == best@[n - 1]);
                }
            }
        }
        k += 1;
    }
    proof {
        assert(fetched@.subrange(0, k as int) =~= fetched@);
    }
    best
}

impl PositionMap {
    /// The `n` entities nearest to `position`, nearest first, each with the
    /// point it is at. Of two entities at the same distance the one with the
    /// smaller number comes first.
    pub fn get_nearest(&self, position: [i32; 2], n: usize) -> (found: Vec<(EntityId, [i32; 2])>)
        ensures
            self.wf() ==> found.len() == if self@.dom().len() < n {
                self@.dom().len()
            } else {
                n as nat
            },
            self.wf() ==> is_nearest(
                self@,
                position[0],
                position[1],
                n as nat,
                Seq::new(found@.len(), |i: int| (found@[i].0.0, found@[i].1[0], found@[i].1[1])),
            ),
    {
        let best = self.nearest_points(position[0], position[1], n);
        let mut found: Vec<(EntityId, [i32; 2])> = Vec::new();
        let mut i: usize = 0;
        while i < best.len()
            invariant
                i <= best.len(),
                found.len() == i,
                forall|j: int|
                    0 <= j < i ==> (#[trigger] found[j]).0.0 == best[j].0 && found[j].1[0]
                        == best[j].1 && found[j].1[1] == best[j].2,
            decreases best.len() - i,
        {
            let point = best[i];
            found.push((EntityId(point.0), [point.1, point.2]));
            i += 1;
        }
        proof {
            assert(Seq::new(found@.len(), |i: int| (found@[i].0.0, found@[i].1[0], found@[i].1[1]))
                =~= best@);
        }
        found
    }

    /// The `n` points nearest to `(x, y)`, nearest first, each with the
    /// number of the entity that is there.
    pub fn nearest_points(&self, x: i32, y: i32, n: usize) -> (best: Vec<(u64, i32, i32)>)
        ensures
            self.wf() ==> best.len() == if self@.dom().len() < n {
                self@.dom().len()
            } else {
                n as nat
            },
            self.wf() ==> is_nearest(self@, x, y, n as nat, best@),
    {
        let total = self.count();
        if n == 0 || total == 0 {
            let best: Vec<(u64, i32, i32)> = Vec::new();
            proof {
                if total == 0 && self.wf() {
                    self@.dom().lemma_len0_is_empty();
                }
            }
            return best;
        }
        let ghost fit = self.wf();
        let mut limit: usize = if n < total {
            n
        } else {
            total
        };
        let mut fetched = tree_nearest(&self.map, x, y, limit);
        while limit < total && !is_farther(x, y, fetched[limit - 1], fetched[n - 1])
            invariant
                0 < n,
                0 < limit <= total,
                limit < total ==> n <= limit,
                limit == total || n <= limit,
                total == tree_contents(self.map).len(),
                fetched@.len() == limit,
                fetched@.to_multiset().subset_of(tree_contents(self.map)),
                forall|i: int, j: int|
                    0 <= i <= j < fetched@.len() ==> distance2(
                        x,
                        y,
                        (#[trigger] fetched@[i]).1,
                        fetched@[i].2,
                    ) <= distance2(x, y, (#[trigger] fetched@[j]).1, fetched@[j].2),
                forall|point: (u64, i32, i32), i: int|
                    0 <= i < fetched@.len() && tree_contents(self.map).count(point)
                        > fetched@.to_multiset().count(point) ==> distance2(
                        x,
                        y,
                        (#[trigger] fetched@[i]).1,
                        fetched@[i].2,
                    ) <= #[trigger] distance2(x, y, point.1, point.2),
            decreases total - limit,
        {
            limit = if limit <= total / 2 {
                limit * 2
            } else {
                total
            };
            fetched = tree_nearest(&self.map, x, y, limit);
        }
        proof {
            if fit {
                let contents = tree_contents(self.map);
                let listed = fetched@.to_multiset();
                fetched@.to_multiset_ensures();
                assert forall|point: (u64, i32, i32)| listed.contains(point) implies listed.count(point)
                    == 1 by {
                    assert(listed.count(point) <= contents.count(point));
                }
                fetched@.lemma_multiset_has_no_duplicates_conv();
                assert forall|i: int| 0 <= i < fetched@.len() implies self.places(
                    #[trigger] fetched@[i],
                ) by {
                    assert(fetched@.contains(fetched@[i]));
                    assert(listed.count(fetched@[i]) > 0);
                    assert(listed.count(fetched@[i]) <= contents.count(fetched@[i]));
                }
                assert forall|i: int, j: int|
                    0 <= i < fetched.len() && 0 <= j < fetched.len() && i != j implies (
                #[trigger] fetched[i]).0 != (#[trigger] fetched[j]).0 by {
                    assert(self.places(fetched@[i]) && self.places(fetched@[j]));
                    if fetched@[i].0 == fetched@[j].0 {
                        assert(fetched@[i] == fetched@[j]);
                    }
                }
                assert(by_distance(x, y, fetched@));
            }
        }
        let best = keep_nearest(&fetched, n, x, y);
        proof {
            if fit {
                let contents = tree_contents(self.map);
                let listed = fetched@.to_multiset();
                fetched@.to_multiset_ensures();
                assert forall|i: int| 0 <= i < best@.len() implies self@.contains_key(
                    EntityId((#[trigger] best@[i]).0),
                ) && self@[EntityId(best@[i].0)] == (best@[i].1, best@[i].2) by {
                    assert(fetched@.contains(best@[i]));
                    let at = choose|at: int| 0 <= at < fetched@.len() && fetched@[at] == best@[i];
                    assert(self.places(fetched@[at]));
                }
                assert forall|entity: EntityId| #[trigger] self@.contains_key(entity) implies (exists|
                    i: int,
                |
                    0 <= i < best@.len() && (#[trigger] best@[i]).0 == entity.0) || (best@.len() == n
                    && before(
                    x,
                    y,
                    best@[n - 1],
                    (entity.0, self@[entity].0, self@[entity].1),
                )) by {
                    let point = (entity.0, self@[entity].0, self@[entity].1);
                    assert(self.places(point));
                    assert(contents.count(point) == 1);
                    if listed.count(point) > 0 {
                        assert(fetched@.contains(point));
                        let at = choose|at: int| 0 <= at < fetched@.len() && fetched@[at] == point;
                        if best@.contains(fetched@[at]) {
                            let j = choose|j: int| 0 <= j < best@.len() && best@[j] == fetched@[at];
                            assert(best@[j].0 == entity.0);
                        }
                    } else {
                        if limit == total {
                            assert(contents.sub(listed).len() == contents.len() - listed.len());
                            assert(contents.sub(listed).count(point) == 1);
                            assert(false);
                        }
                        assert(distance2(x, y, fetched@[limit - 1].1, fetched@[limit - 1].2)
                            <= distance2(x, y, point.1, point.2));
                    }
                }
            }
        }
        best
    }
}

/// The key under which the spatial index is registered.
pub open spec fn position_map_key() -> ResourceKey {
    resource_key_of_name("melon::position_map::PositionMap"@)
}

/// Whether a request argument is a coordinate.
pub open spec fn is_coordinate(argument: i64) -> bool {
    i32::MIN <= argument <= i32::MAX
}

/// Whether a request names a point: its first two arguments are coordinates.
pub open spec fn names_point(request: RequestView) -> bool {
    request.arguments.len() >= 2 && is_coordinate(request.arguments[0]) && is_coordinate(
        request.arguments[1],
    )
}

/// The map after a request is written to it. A request to insert or update
/// that names a point puts the entity there; a request to remove takes the
/// entity off the map; any other request changes nothing.
pub open spec fn position_step(positions: Map<EntityId, (i32, i32)>, request: RequestView) -> Map<
    EntityId,
    (i32, i32),
> {
    if (request.operation == POSITION_INSERT || request.operation == POSITION_UPDATE)
        && names_point(request) {
        positions.insert(
            request.entity,
            (request.arguments[0] as i32, request.arguments[1] as i32),
        )
    } else if request.operation == POSITION_REMOVE {
        positions.remove(request.entity)
    } else {
        positions
    }
}

/// The answer to a request for the nearest: for each point three numbers,
/// the entity and the two coordinates.
pub open spec fn nearest_answer(points: Seq<(u64, i32, i32)>) -> Seq<i64> {
    Seq::new(
        3 * points.len(),
        |k: int|
            if k % 3 == 0 {
                #[verifier::truncate] (points[k / 3].0 as i64)
            } else if k % 3 == 1 {
                points[k / 3].1 as i64
            } else {
                points[k / 3].2 as i64
            },
    )
}

/// The number of entities that a request for the nearest asks for: its
/// third argument, or as many as a vector can hold if that is less.
pub open spec fn wanted_count(argument: i64) -> nat {
    if argument > usize::MAX {
        usize::MAX as nat
    } else {
        argument as nat
    }
}

/// The coordinate that a request argument stands for, if it is one.
fn coordinate(argument: i64) -> (value: Option<i32>)
    ensures
        value is Some <==> is_coordinate(argument),
        value matches Some(v) ==> v == argument,
{
    if -0x8000_0000i64 <= argument && argument <= 0x7fff_ffffi64 {
        Some(argument as i32)
    } else {
        None
    }
}

impl PositionMap {
    /// The key under which the spatial index is registered.
    pub fn resource_key() -> (key: ResourceKey)
        ensures
            key == position_map_key(),
    {
        crate::resource::get_resource_id("melon::position_map::PositionMap")
    }
}

/// Whether a request asks for the nearest: it names a point and a number of
/// entities that is not negative.
pub open spec fn asks_for_nearest(request: RequestView) -> bool {
    request.operation == POSITION_NEAREST && names_point(request) && request.arguments.len() >= 3
        && request.arguments[2] >= 0
}

/// Whether `answer` is what a map with the given positions answers to
/// `request`: to a request for the nearest, the nearest; to any other
/// request, nothing.
pub open spec fn position_answers(
    positions: Map<EntityId, (i32, i32)>,
    request: RequestView,
    answer: Seq<i64>,
) -> bool {
    if asks_for_nearest(request) {
        exists|points: Seq<(u64, i32, i32)>|
            #![trigger nearest_answer(points)]
            {
                &&& is_nearest(
                    positions,
                    request.arguments[0] as i32,
                    request.arguments[1] as i32,
                    wanted_count(request.arguments[2]),
                    points,
                )
                &&& answer == nearest_answer(points)
            }
    } else {
        answer.len() == 0
    }
}

/// What a spatial index holds after `request` is written to one that holds
/// `state`.
pub open spec fn position_after(state: ResourceState, request: RequestView) -> ResourceState {
    match state {
        ResourceState::Positions(positions) => ResourceState::Positions(
            position_step(positions, request),
        ),
        _ => state,
    }
}

/// Whether a spatial index that holds `state` may give `answer` to
/// `request`.
pub open spec fn position_answers_in(
    state: ResourceState,
    request: RequestView,
    answer: Seq<i64>,
) -> bool {
    match state {
        ResourceState::Positions(positions) => position_answers(positions, request, answer),
        _ => true,
    }
}

/// The positions after the requests that name the spatial index among
/// `requests` are written, oldest first.
pub open spec fn positions_after(
    positions: Map<EntityId, (i32, i32)>,
    requests: Seq<RequestView>,
) -> Map<EntityId, (i32, i32)>
    decreases requests.len(),
{
    if requests.len() == 0 {
        positions
    } else if requests.last().key == position_map_key() {
        position_step(positions_after(positions, requests.drop_last()), requests.last())
    } else {
        positions_after(positions, requests.drop_last())
    }
}

impl Resource for PositionMap {
    open spec fn registered_key(&self) -> ResourceKey {
        position_map_key()
    }

    open spec fn state(&self) -> ResourceState {
        ResourceState::Positions(self@)
    }

    open spec fn sound(&self) -> bool {
        self.wf()
    }

    open spec fn after(&self, state: ResourceState, request: RequestView) -> ResourceState {
        position_after(state, request)
    }

    open spec fn answers(&self, state: ResourceState, request: RequestView, answer: Seq<i64>) -> bool {
        position_answers_in(state, request, answer)
    }

    fn key(&self) -> (key: ResourceKey) {
        PositionMap::resource_key()
    }

    fn write(&mut self, request: &ResourceRequest)
        ensures
            old(self).wf() ==> final(self).wf(),
            final(self)@ == position_step(old(self)@, request@),
    {
        if request.operation == POSITION_INSERT || request.operation == POSITION_UPDATE {
            if request.arguments.len() >= 2 {
                match (coordinate(request.arguments[0]), coordinate(request.arguments[1])) {
                    (Some(x), Some(y)) => {
                        self.insert(request.entity, [x, y]);
                    },
                    _ => {},
                }
            }
        } else if request.operation == POSITION_REMOVE {
            self.remove(request.entity);
        }
    }

    /// Answers a request for the nearest, whose arguments are the two
    /// coordinates of a point and a number of entities. Any other request is
    /// answered with nothing.
    fn read(&self, request: &ResourceRequest) -> (answer: Vec<i64>)
        ensures
            !asks_for_nearest(request@) ==> answer@.len() == 0,
            self.wf() ==> position_answers(self@, request@, answer@),
    {
        let mut answer: Vec<i64> = Vec::new();
        if request.operation != POSITION_NEAREST || request.arguments.len() < 3 {
            return answer;
        }
        let wanted = request.arguments[2];
        if wanted < 0 {
            return answer;
        }
        let (x, y) = match (coordinate(request.arguments[0]), coordinate(request.arguments[1])) {
            (Some(x), Some(y)) => (x, y),
            _ => {
                return answer;
            },
        };
        let n: usize = if wanted as u64 > usize::MAX as u64 {
            usize::MAX
        } else {
            wanted as usize
        };
        let points = self.nearest_points(x, y, n);
        let mut i: usize = 0;
        while i < points.len()
            invariant
                i <= points.len(),
                answer@ == nearest_answer(points@.subrange(0, i as int)),
            decreases points.len() - i,
        {
            let point = points[i];
            let ghost before_answer = answer@;
            answer.push(#[verifier::truncate] (point.0 as i64));
            answer.push(point.1 as i64);
            answer.push(point.2 as i64);
            proof {
                let front = points@.subrange(0, i as int);
                let next = points@.subrange(0, i + 1);
                assert(answer@.len() == 3 * next.len());
                assert forall|k: int| 0 <= k < answer@.len() implies answer@[k] == nearest_answer(
                    next,
                )[k] by {
                    if k < 3 * i {
                        assert(answer@[k] == before_answer[k]);
                        assert(next[k / 3] == front[k / 3]);
                    } else {
                        assert(k / 3 == i);
                        assert(next[k / 3] == point);
                    }
                }
                assert(answer@ =~= nearest_answer(next));
            }
            i += 1;
        }
        proof {
            assert(points@.subrange(0, i as int) =~= points@);
        }
        answer
    }
}

/// What the position rule queues for a change of a `Position` component:
/// when one is added or updated, the entity is put at its point or moved
/// there; when one is removed or unloaded, the entity is taken off the map.
/// A component that does not decode as a position is passed over.
pub open spec fn position_requests(
    change: ChangeView,
    components: Map<ComponentInstanceId, ComponentView>,
) -> Seq<RequestView> {
    let entity = change.component.id.0;
    let data = change.component.data;
    let point = seq![i32_of_bytes(data.subrange(0, 4)) as i64, i32_of_bytes(data.subrange(4, 8)) as i64];
    match change.kind {
        ChangeType::AddComponent => if change.component.holds::<Position>() {
            seq![
                RequestView {
                    key: position_map_key(),
                    operation: POSITION_INSERT,
                    entity,
                    arguments: point,
                },
            ]
        } else {
            Seq::empty()
        },
        ChangeType::UpdateComponent => if change.component.holds::<Position>() {
            seq![
                RequestView {
                    key: position_map_key(),
                    operation: POSITION_UPDATE,
                    entity,
                    arguments: point,
                },
            ]
        } else {
            Seq::empty()
        },
        ChangeType::RemoveComponent | ChangeType::UnloadComponent => seq![
            RequestView {
                key: position_map_key(),
                operation: POSITION_REMOVE,
                entity,
                arguments: Seq::empty(),
            },
        ],
    }
}

/// Computes the reaction of the position rule to `change`: it emits no
/// change and queues the writes that keep the spatial index up to date.
pub fn position_hook(change: &Change, store: &Store, writer: &mut ResourceWriter) -> (changes: Vec<
    Change,
>)
    ensures
        change_views(changes@) == Seq::<ChangeView>::empty(),
        final(writer)@ == old(writer)@ + position_requests(change@, store@),
{
    let changes: Vec<Change> = Vec::new();
    let entity = change.0.entity_id();
    let key = PositionMap::resource_key();
    proof {
        assert(change_views(changes@) =~= Seq::<ChangeView>::empty());
    }
    let operation = match change.1 {
        ChangeType::AddComponent => POSITION_INSERT,
        ChangeType::UpdateComponent => POSITION_UPDATE,
        ChangeType::RemoveComponent | ChangeType::UnloadComponent => {
            let arguments: Vec<i64> = Vec::new();
            writer.write_resource(
                ResourceRequest { key, operation: POSITION_REMOVE, entity, arguments },
            );
            proof {
                assert(position_requests(change@, store@)[0].arguments =~= arguments@);
                assert(writer@ =~= old(writer)@ + position_requests(change@, store@));
            }
            return changes;
        },
    };
    match change.0.get::<Position>() {
        Some(position) => {
            let mut arguments: Vec<i64> = Vec::new();
            arguments.push(position.x as i64);
            arguments.push(position.y as i64);
            proof {
                lemma_number_round_trip();
                let data = change@.component.data;
                assert(data.len() == 8);
                assert(data =~= data.subrange(0, 4) + data.subrange(4, 8));
                assert(position.encoding() == crate::codec::i32_bytes(position.x)
                    + crate::codec::i32_bytes(position.y));
                assert(crate::codec::i32_bytes(position.x) =~= data.subrange(0, 4));
                assert(crate::codec::i32_bytes(position.y) =~= data.subrange(4, 8));
                assert(arguments@ =~= seq![
                    i32_of_bytes(data.subrange(0, 4)) as i64,
                    i32_of_bytes(data.subrange(4, 8)) as i64,
                ]);
            }
            writer.write_resource(ResourceRequest { key, operation, entity, arguments });
            proof {
                assert(writer@ =~= old(writer)@ + position_requests(change@, store@));
            }
        },
        None => {
            proof {
                assert(writer@ =~= old(writer)@ + position_requests(change@, store@));
            }
        },
    }
    changes
}

/// The position rule as a hook, to be registered for `Position`.
pub struct PositionHook {}

impl Hook for PositionHook {
    open spec fn reaction(
        &self,
        change: ChangeView,
        components: Map<ComponentInstanceId, ComponentView>,
    ) -> Seq<ChangeView> {
        Seq::empty()
    }

    open spec fn requests(
        &self,
        change: ChangeView,
        components: Map<ComponentInstanceId, ComponentView>,
    ) -> Seq<RequestView> {
        position_requests(change, components)
    }

    fn execute(&self, change: &Change, store: &Store, writer: &mut ResourceWriter) -> (changes: Vec<
        Change,
    >) {
        position_hook(change, store, writer)
    }
}

impl Default for PositionMap {
    fn default() -> (map: Self)
        ensures
            map.wf(),
            map@ == Map::<EntityId, (i32, i32)>::empty(),
    {
        Self::new()
    }
}

} // verus!
