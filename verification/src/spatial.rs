//! The tables behind the spatial index: an R-tree of points and a map from
//! entities to points.
//!
//! The tree is an `rtree_rs::RTree` in two dimensions. Its coordinates are
//! `i128`, so that no area or distance that the tree computes from 32-bit
//! points can overflow. Nothing in this file but `point_to_box` is proved:
//! the contracts restate what the sources of `rtree_rs` and `hashbrown` show.

use vstd::prelude::*;
use vstd::multiset::Multiset;

verus! {

#[verifier::external_type_specification]
#[verifier::external_body]
#[verifier::reject_recursive_types(C)]
#[verifier::reject_recursive_types(T)]
pub struct ExRTree<const D: usize, C: PartialOrd + Copy + Default, T: PartialEq>(
    rtree_rs::RTree<D, C, T>,
);

/// The points a tree holds, each with the number of the entity that is there.
pub uninterp spec fn tree_contents(tree: rtree_rs::RTree<2, i128, u64>) -> Multiset<(u64, i32, i32)>;

/// `RTree::new`: a tree without points.
#[verifier::external_body]
pub(crate) fn tree_new() -> (tree: rtree_rs::RTree<2, i128, u64>)
    ensures
        tree_contents(tree) == Multiset::<(u64, i32, i32)>::empty(),
{
    rtree_rs::RTree::new()
}

/// `RTree::len`: the number of points in the tree.
#[verifier::external_body]
pub(crate) fn tree_len(tree: &rtree_rs::RTree<2, i128, u64>) -> (len: usize)
    ensures
        len == tree_contents(*tree).len(),
{
    tree.len()
}

/// `RTree::insert` with `Rect::new_point`: the tree gains the point, with
/// the entity that is there.
#[verifier::external_body]
pub(crate) fn tree_insert(tree: &mut rtree_rs::RTree<2, i128, u64>, entity: u64, x: i32, y: i32)
    ensures
        tree_contents(*final(tree)) == tree_contents(*old(tree)).insert((entity, x, y)),
{
    tree.insert(rtree_rs::Rect::new_point([x as i128, y as i128]), entity);
}

/// `RTree::remove` with `Rect::new_point`: the tree loses at most one point,
/// and only one of `entity`. The search looks where `(x, y)` lies, so it
/// finds `entity` if it is there; where the tree holds the entity at several
/// points, it is not said which of them goes.
#[verifier::external_body]
pub(crate) fn tree_remove(tree: &mut rtree_rs::RTree<2, i128, u64>, entity: u64, x: i32, y: i32) -> (removed:
    Option<(i32, i32)>)
    ensures
        removed is None ==> tree_contents(*final(tree)) == tree_contents(*old(tree)),
        removed matches Some(point) ==> tree_contents(*old(tree)).count((entity, point.0, point.1))
            > 0 && tree_contents(*final(tree)) == tree_contents(*old(tree)).remove(
            (entity, point.0, point.1),
        ),
        tree_contents(*old(tree)).count((entity, x, y)) > 0 ==> removed is Some,
{
    match tree.remove(rtree_rs::Rect::new_point([x as i128, y as i128]), &entity) {
        Some((rect, _)) => Some((rect.min[0] as i32, rect.min[1] as i32)),
        None => None,
    }
}

/// The square of the distance between two points.
pub open spec fn distance2(x: i32, y: i32, to_x: i32, to_y: i32) -> int {
    (to_x - x) * (to_x - x) + (to_y - y) * (to_y - y)
}

/// How far `x` lies outside the interval from `low` to `high`.
pub open spec fn gap(low: i32, high: i32, x: i32) -> int {
    if x < low {
        low - x
    } else if x > high {
        x - high
    } else {
        0
    }
}

/// The square of the distance from the point `(x, y)` to a box: zero inside
/// the box, and the square of the distance to the point where the box is a
/// point.
pub fn point_to_box(low_x: i32, low_y: i32, high_x: i32, high_y: i32, x: i32, y: i32) -> (distance:
    i128)
    ensures
        distance == gap(low_x, high_x, x) * gap(low_x, high_x, x) + gap(low_y, high_y, y) * gap(
            low_y,
            high_y,
            y,
        ),
        low_x == high_x && low_y == high_y ==> distance == distance2(x, y, low_x, low_y),
{
    let gap_x: i128 = if x < low_x {
        (low_x as i128) - (x as i128)
    } else if x > high_x {
        (x as i128) - (high_x as i128)
    } else {
        0
    };
    let gap_y: i128 = if y < low_y {
        (low_y as i128) - (y as i128)
    } else if y > high_y {
        (y as i128) - (high_y as i128)
    } else {
        0
    };
    assert(0 <= gap_x <= 0x1_0000_0000 && 0 <= gap_y <= 0x1_0000_0000);
    assert(gap_x * gap_x <= 0x1_0000_0000 * 0x1_0000_0000) by (nonlinear_arith)
        requires
            0 <= gap_x <= 0x1_0000_0000,
    ;
    assert(gap_y * gap_y <= 0x1_0000_0000 * 0x1_0000_0000) by (nonlinear_arith)
        requires
            0 <= gap_y <= 0x1_0000_0000,
    ;
    assert(0 <= gap_x * gap_x) by (nonlinear_arith);
    assert(0 <= gap_y * gap_y) by (nonlinear_arith);
    proof {
        if low_x == high_x && low_y == high_y {
            assert(gap_x * gap_x == (low_x - x) * (low_x - x)) by (nonlinear_arith)
                requires
                    gap_x == low_x - x || gap_x == x - low_x,
            ;
            assert(gap_y * gap_y == (low_y - y) * (low_y - y)) by (nonlinear_arith)
                requires
                    gap_y == low_y - y || gap_y == y - low_y,
            ;
        }
    }
    gap_x * gap_x + gap_y * gap_y
}

/// `RTree::nearby` with `point_to_box` as the distance, then `take`: the
/// first `limit` points of a best-first search from `(x, y)`.
///
/// The search hands the points out in the order of their distance, nearest
/// first, each point of the tree once. Which of two points at the same
/// distance comes first is not said.
#[verifier::external_body]
pub(crate) fn tree_nearest(tree: &rtree_rs::RTree<2, i128, u64>, x: i32, y: i32, limit: usize) -> (found:
    Vec<(u64, i32, i32)>)
    ensures
        found@.len() == if limit <= tree_contents(*tree).len() {
            limit as nat
        } else {
            tree_contents(*tree).len()
        },
        found@.to_multiset().subset_of(tree_contents(*tree)),
        forall|i: int, j: int|
            0 <= i <= j < found@.len() ==> distance2(x, y, (#[trigger] found@[i]).1, found@[i].2)
                <= distance2(x, y, (#[trigger] found@[j]).1, found@[j].2),
        forall|point: (u64, i32, i32), i: int|
            0 <= i < found@.len() && tree_contents(*tree).count(point)
                > found@.to_multiset().count(point) ==> distance2(
                x,
                y,
                (#[trigger] found@[i]).1,
                found@[i].2,
            ) <= #[trigger] distance2(x, y, point.1, point.2),
{
    tree.nearby(
        |rect, _| point_to_box(
            rect.min[0] as i32,
            rect.min[1] as i32,
            rect.max[0] as i32,
            rect.max[1] as i32,
            x,
            y,
        ),
    ).take(limit).map(|item| (*item.data, item.rect.min[0] as i32, item.rect.min[1] as i32)).collect()
}

/// The last known point of each entity, held in a
/// `hashbrown::HashMap<u64, (i32, i32)>`.
#[verifier::external_body]
pub struct PointTable {
    inner: hashbrown::HashMap<u64, (i32, i32)>,
}

/// The points a `PointTable` holds.
pub uninterp spec fn point_table_contents(table: PointTable) -> Map<u64, (i32, i32)>;

impl View for PointTable {
    type V = Map<u64, (i32, i32)>;

    open spec fn view(&self) -> Map<u64, (i32, i32)> {
        point_table_contents(*self)
    }
}

/// `HashMap::new`: a table without points.
#[verifier::external_body]
pub(crate) fn point_table_new() -> (table: PointTable)
    ensures
        point_table_contents(table) =~= Map::empty(),
{
    PointTable { inner: hashbrown::HashMap::new() }
}

/// `HashMap::get`: the point stored for `entity`, if there is one.
#[verifier::external_body]
pub(crate) fn point_table_get(table: &PointTable, entity: u64) -> (found: Option<(i32, i32)>)
    ensures
        found is Some <==> point_table_contents(*table).contains_key(entity),
        found matches Some(point) ==> point == point_table_contents(*table)[entity],
{
    table.inner.get(&entity).copied()
}

/// `HashMap::insert`: `point` is stored for `entity`, in place of what was
/// there.
#[verifier::external_body]
pub(crate) fn point_table_insert(table: &mut PointTable, entity: u64, point: (i32, i32))
    ensures
        point_table_contents(*final(table)) == point_table_contents(*old(table)).insert(
            entity,
            point,
        ),
{
    table.inner.insert(entity, point);
}

/// `HashMap::remove`: the point of `entity` leaves the table and is returned.
#[verifier::external_body]
pub(crate) fn point_table_remove(table: &mut PointTable, entity: u64) -> (removed: Option<
    (i32, i32),
>)
    ensures
        point_table_contents(*final(table)) == point_table_contents(*old(table)).remove(entity),
        removed is Some <==> point_table_contents(*old(table)).contains_key(entity),
        removed matches Some(point) ==> point == point_table_contents(*old(table))[entity],
{
    table.inner.remove(&entity)
}

} // verus!
