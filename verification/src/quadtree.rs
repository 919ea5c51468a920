//! The tree a unit searches for targets in: the build's `FightQuadtree`, whose
//! order of visiting is the order candidates are scored in.
//!
//! Every candidate with a range is held in exactly one node, and a query
//! visits each node's own list before its four children, in order; so the
//! search order is a permutation of the candidates, whatever insertions,
//! splits and moves led to it.

use vstd::prelude::*;
use vstd::multiset::Multiset;

use crate::fixed::{clamp_i64, div_trunc, max_int, saturating_add, saturating_sub, space_to_q32, space_to_q32_spec};

verus! {

broadcast use {vstd::multiset::group_multiset_axioms, vstd::seq_lib::group_to_multiset_ensures};

/// A node splits once it would hold this many elements.
pub const TARGET_QUADTREE_MAX_ELEMENTS: usize = 20usize;

/// A node this deep never splits.
pub const TARGET_QUADTREE_MAX_DEPTH: u8 = 6u8;

/// Half the width of the board the tree covers, in Q32.32.
pub const TARGET_QUADTREE_HALF_WIDTH_Q32: i64 = 1717986918400i64;

/// Half the height of the board the tree covers, in Q32.32.
pub const TARGET_QUADTREE_HALF_HEIGHT_Q32: i64 = 1503238553600i64;

/// What kind of object an identity names.
#[derive(Debug, Clone, Copy, PartialEq, Eq, Structural)]
pub enum ObjectKind {
    Unit,
    Building,
    Projectile,
}

/// Something a unit can target: a unit or a building, by identity.
#[derive(Debug, Clone, Copy, PartialEq, Eq, Structural, PartialOrd, Ord, Hash)]
pub enum FightActorRef {
    Unit(u64),
    Building(u64),
}

impl FightActorRef {
    pub fn id(self) -> (result: u64)
        ensures
            result == match self {
                FightActorRef::Unit(id) => id,
                FightActorRef::Building(id) => id,
            },
    {
        match self {
            FightActorRef::Unit(id) => id,
            FightActorRef::Building(id) => id,
        }
    }

    pub fn kind(self) -> (result: ObjectKind)
        ensures
            result == (match self {
                FightActorRef::Unit(_) => ObjectKind::Unit,
                FightActorRef::Building(_) => ObjectKind::Building,
            }),
    {
        match self {
            FightActorRef::Unit(_) => ObjectKind::Unit,
            FightActorRef::Building(_) => ObjectKind::Building,
        }
    }

    pub fn unit_id(self) -> (result: Option<u64>)
        ensures
            result == (match self {
                FightActorRef::Unit(id) => Some(id),
                FightActorRef::Building(_) => None,
            }),
    {
        match self {
            FightActorRef::Unit(id) => Some(id),
            FightActorRef::Building(_) => None,
        }
    }
}

/// An axis-aligned box in Q32.32.
#[derive(Debug, Clone, Copy, PartialEq, Eq, Structural)]
pub struct TargetActorRect {
    pub min_x: i64,
    pub min_z: i64,
    pub max_x: i64,
    pub max_z: i64,
}

/// Whether `outer` contains `inner`, edges included.
pub open spec fn rect_contains(outer: TargetActorRect, inner: TargetActorRect) -> bool {
    &&& outer.min_x <= inner.min_x
    &&& outer.min_z <= inner.min_z
    &&& outer.max_x >= inner.max_x
    &&& outer.max_z >= inner.max_z
}

/// The four quarters of a box, split at its truncated centre: the lower-x
/// lower-z one first, then along x, then the upper-z pair.
pub open spec fn rect_children(rect: TargetActorRect) -> Seq<TargetActorRect> {
    let center_x = div_trunc(clamp_i64(rect.min_x + rect.max_x), 2) as i64;
    let center_z = div_trunc(clamp_i64(rect.min_z + rect.max_z), 2) as i64;
    seq![
        TargetActorRect { min_x: rect.min_x, min_z: rect.min_z, max_x: center_x, max_z: center_z },
        TargetActorRect { min_x: center_x, min_z: rect.min_z, max_x: rect.max_x, max_z: center_z },
        TargetActorRect { min_x: rect.min_x, min_z: center_z, max_x: center_x, max_z: rect.max_z },
        TargetActorRect { min_x: center_x, min_z: center_z, max_x: rect.max_x, max_z: rect.max_z },
    ]
}

/// The box a body of `radius` space units at `(x, z)` occupies, saturated.
pub open spec fn around_spec(x_q32: i64, z_q32: i64, radius: i64) -> TargetActorRect {
    let radius_q32 = space_to_q32_spec(max_int(radius as int, 0));
    TargetActorRect {
        min_x: clamp_i64(x_q32 - radius_q32) as i64,
        min_z: clamp_i64(z_q32 - radius_q32) as i64,
        max_x: clamp_i64(x_q32 + radius_q32) as i64,
        max_z: clamp_i64(z_q32 + radius_q32) as i64,
    }
}

impl TargetActorRect {
    /// The box a body of `radius` space units at `(x, z)` occupies, saturated.
    pub fn around(x_q32: i64, z_q32: i64, radius: i64) -> (rect: Self)
        ensures
            rect == around_spec(x_q32, z_q32, radius),
    {
        let radius_q32 = space_to_q32(if radius > 0 {
            radius
        } else {
            0
        });
        TargetActorRect {
            min_x: saturating_sub(x_q32, radius_q32),
            min_z: saturating_sub(z_q32, radius_q32),
            max_x: saturating_add(x_q32, radius_q32),
            max_z: saturating_add(z_q32, radius_q32),
        }
    }

    pub fn contains(self, other: Self) -> (result: bool)
        ensures
            result == rect_contains(self, other),
    {
        self.min_x <= other.min_x && self.min_z <= other.min_z && self.max_x >= other.max_x
            && self.max_z >= other.max_z
    }

    pub fn children(self) -> (result: [Self; 4])
        ensures
            result@ == rect_children(self),
    {
        let center_x = saturating_add(self.min_x, self.max_x) / 2;
        let center_z = saturating_add(self.min_z, self.max_z) / 2;
        let result = [
            TargetActorRect {
                min_x: self.min_x,
                min_z: self.min_z,
                max_x: center_x,
                max_z: center_z,
            },
            TargetActorRect {
                min_x: center_x,
                min_z: self.min_z,
                max_x: self.max_x,
                max_z: center_z,
            },
            TargetActorRect {
                min_x: self.min_x,
                min_z: center_z,
                max_x: center_x,
                max_z: self.max_z,
            },
            TargetActorRect {
                min_x: center_x,
                min_z: center_z,
                max_x: self.max_x,
                max_z: self.max_z,
            },
        ];
        assert(result@ =~= rect_children(self));
        result
    }
}

/// One node: its own elements, and either no children or four.
#[derive(Debug)]
pub struct TargetActorQuadtreeNode {
    pub rect: TargetActorRect,
    pub depth: u8,
    pub elements: Vec<FightActorRef>,
    pub children: Vec<TargetActorQuadtreeNode>,
}

/// Every candidate a node holds, in it or below it.
pub open spec fn node_contents(node: TargetActorQuadtreeNode) -> Multiset<FightActorRef>
    decreases node,
{
    if node.children@.len() == 4 {
        node.elements@.to_multiset().add(node_contents(node.children@[0])).add(
            node_contents(node.children@[1]),
        ).add(node_contents(node.children@[2])).add(node_contents(node.children@[3]))
    } else {
        node.elements@.to_multiset()
    }
}

/// The order a query visits a node's candidates in: its own list, then each
/// child's, in turn.
pub open spec fn node_order(node: TargetActorQuadtreeNode) -> Seq<FightActorRef>
    decreases node,
{
    if node.children@.len() == 4 {
        node.elements@ + node_order(node.children@[0]) + node_order(node.children@[1])
            + node_order(node.children@[2]) + node_order(node.children@[3])
    } else {
        node.elements@
    }
}

/// A node is shaped as the tree builds one: no deeper than the limit, and
/// either a leaf or split into four children one level deeper, each shaped
/// the same way.
pub open spec fn node_wf(node: TargetActorQuadtreeNode) -> bool
    decreases node,
{
    &&& node.depth <= TARGET_QUADTREE_MAX_DEPTH
    &&& node.children@.len() == 0 || node.children@.len() == 4
    &&& node.children@.len() == 4 ==> {
        &&& node.depth < TARGET_QUADTREE_MAX_DEPTH
        &&& node_wf(node.children@[0]) && node.children@[0].depth == node.depth + 1
        &&& node_wf(node.children@[1]) && node.children@[1].depth == node.depth + 1
        &&& node_wf(node.children@[2]) && node.children@[2].depth == node.depth + 1
        &&& node_wf(node.children@[3]) && node.children@[3].depth == node.depth + 1
    }
}


/// A node as a value: its box, its depth, its own list, and its children,
/// none or four.
#[verifier::ext_equal]
pub struct QuadNode {
    pub rect: TargetActorRect,
    pub depth: u8,
    pub elements: Seq<FightActorRef>,
    pub children: Seq<QuadNode>,
}

/// A node as a value.
pub open spec fn node_view(node: TargetActorQuadtreeNode) -> QuadNode
    decreases node,
{
    QuadNode {
        rect: node.rect,
        depth: node.depth,
        elements: node.elements@,
        children: if node.children@.len() == 4 {
            seq![
                node_view(node.children@[0]),
                node_view(node.children@[1]),
                node_view(node.children@[2]),
                node_view(node.children@[3]),
            ]
        } else {
            Seq::empty()
        },
    }
}

/// The first of four children whose box contains `range`.
pub open spec fn first_fit(children: Seq<QuadNode>, range: TargetActorRect) -> Option<usize> {
    if children.len() != 4 {
        None
    } else if rect_contains(children[0].rect, range) {
        Some(0usize)
    } else if rect_contains(children[1].rect, range) {
        Some(1usize)
    } else if rect_contains(children[2].rect, range) {
        Some(2usize)
    } else if rect_contains(children[3].rect, range) {
        Some(3usize)
    } else {
        None
    }
}

/// An empty leaf.
pub open spec fn empty_leaf(rect: TargetActorRect, depth: u8) -> QuadNode {
    QuadNode { rect, depth, elements: Seq::empty(), children: Seq::empty() }
}

/// The node with `candidate` inserted, as the tree inserts it: into the
/// first child whose box contains its range; else, into a leaf that would
/// reach its limit above the deepest level, after splitting it into four
/// and handing its elements down (see [`distributed`]), into the first new
/// child that contains the range; else at the end of the node's own list.
pub open spec fn inserted(
    node: QuadNode,
    candidate: FightActorRef,
    ranges: Seq<(FightActorRef, TargetActorRect)>,
) -> QuadNode
    decreases 255 - node.depth as int, 2int, 0int,
{
    let range = range_spec(ranges, candidate);
    match first_fit(node.children, range) {
        Some(k) => if node.children[k as int].depth > node.depth {
            QuadNode {
                children: node.children.update(k as int, inserted(node.children[k as int], candidate, ranges)),
                ..node
            }
        } else {
            node
        },
        None => if node.children.len() == 0 && node.depth < TARGET_QUADTREE_MAX_DEPTH && node.elements.len() + 1
            >= TARGET_QUADTREE_MAX_ELEMENTS {
            let quarters = rect_children(node.rect);
            let split = QuadNode {
                children: seq![
                    empty_leaf(quarters[0], (node.depth + 1) as u8),
                    empty_leaf(quarters[1], (node.depth + 1) as u8),
                    empty_leaf(quarters[2], (node.depth + 1) as u8),
                    empty_leaf(quarters[3], (node.depth + 1) as u8),
                ],
                ..node
            };
            let spread = distributed(split, ranges, node.elements.len() as int);
            match first_fit(spread.children, range) {
                Some(k) => if spread.children[k as int].depth > node.depth {
                    QuadNode {
                        children: spread.children.update(
                            k as int,
                            inserted(spread.children[k as int], candidate, ranges),
                        ),
                        ..spread
                    }
                } else {
                    spread
                },
                None => QuadNode { elements: spread.elements.push(candidate), ..spread },
            }
        } else {
            QuadNode { elements: node.elements.push(candidate), ..node }
        },
    }
}

/// A freshly split node with the first `index` elements of its list still
/// to hand down, scanning backwards: each that fits a child leaves the list
/// and is inserted into the first child that contains its range; each that
/// fits none stays.
pub open spec fn distributed(
    node: QuadNode,
    ranges: Seq<(FightActorRef, TargetActorRect)>,
    index: int,
) -> QuadNode
    decreases 255 - node.depth as int, 1int, index,
{
    if index <= 0 || index > node.elements.len() {
        node
    } else {
        let i = index - 1;
        let element = node.elements[i];
        match first_fit(node.children, range_spec(ranges, element)) {
            Some(k) => if node.children[k as int].depth > node.depth {
                distributed(
                    QuadNode {
                        elements: node.elements.remove(i),
                        children: node.children.update(k as int, inserted(node.children[k as int], element, ranges)),
                        ..node
                    },
                    ranges,
                    i,
                )
            } else {
                distributed(node, ranges, i)
            },
            None => distributed(node, ranges, i),
        }
    }
}

/// The path to the first node, in pre-order, whose own list holds
/// `candidate`: the node itself, else the first of its four children whose
/// subtree has one, in order.
pub open spec fn preorder_path(node: QuadNode, candidate: FightActorRef) -> Option<Seq<usize>>
    decreases node,
{
    if node.elements.contains(candidate) {
        Some(Seq::empty())
    } else if node.children.len() != 4 {
        None
    } else {
        match preorder_path(node.children[0], candidate) {
            Some(p) => Some(seq![0usize] + p),
            None => match preorder_path(node.children[1], candidate) {
                Some(p) => Some(seq![1usize] + p),
                None => match preorder_path(node.children[2], candidate) {
                    Some(p) => Some(seq![2usize] + p),
                    None => match preorder_path(node.children[3], candidate) {
                        Some(p) => Some(seq![3usize] + p),
                        None => None,
                    },
                },
            },
        }
    }
}

/// Where `elements` first lists `candidate`.
pub open spec fn first_index(elements: Seq<FightActorRef>, candidate: FightActorRef) -> int {
    choose|i: int|
        0 <= i < elements.len() && elements[i] == candidate && forall|j: int|
            0 <= j < i ==> #[trigger] elements[j] != candidate
}

/// The node `path` names below `node`, as a value.
pub open spec fn view_at(node: QuadNode, path: Seq<usize>) -> QuadNode
    decreases path.len(),
{
    if path.len() == 0 || node.children.len() != 4 || path[0] >= 4 {
        node
    } else {
        view_at(node.children[path[0] as int], path.skip(1))
    }
}

/// `node` with the first `candidate` taken out of the list of the node
/// `path` names.
pub open spec fn removed_at(node: QuadNode, path: Seq<usize>, candidate: FightActorRef) -> QuadNode
    decreases path.len(),
{
    if path.len() == 0 || node.children.len() != 4 || path[0] >= 4 {
        QuadNode { elements: node.elements.remove(first_index(node.elements, candidate)), ..node }
    } else {
        QuadNode {
            children: node.children.update(
                path[0] as int,
                removed_at(node.children[path[0] as int], path.skip(1), candidate),
            ),
            ..node
        }
    }
}

/// `node` with `candidate` inserted into the node `path` names.
pub open spec fn inserted_at(
    node: QuadNode,
    path: Seq<usize>,
    candidate: FightActorRef,
    ranges: Seq<(FightActorRef, TargetActorRect)>,
) -> QuadNode
    decreases path.len(),
{
    if path.len() == 0 || node.children.len() != 4 || path[0] >= 4 {
        inserted(node, candidate, ranges)
    } else {
        QuadNode {
            children: node.children.update(
                path[0] as int,
                inserted_at(node.children[path[0] as int], path.skip(1), candidate, ranges),
            ),
            ..node
        }
    }
}

/// The nearest node on `path`, from its end up, whose box contains `range`;
/// the root when none below it does.
pub open spec fn climbed(node: QuadNode, path: Seq<usize>, range: TargetActorRect) -> Seq<usize>
    decreases path.len(),
{
    if path.len() > 0 && !rect_contains(view_at(node, path).rect, range) {
        climbed(node, path.drop_last(), range)
    } else {
        path
    }
}

/// The tree's nodes after `candidate`, already held and listed first at
/// `path` in pre-order, moves to `range`: when the box of its node contains
/// the range, it goes down into the first child that does, or stays when
/// none does; otherwise one below the root climbs to the nearest ancestor
/// whose box contains the range, or the root, and is inserted there, and one
/// in the root's own list stays.
pub open spec fn moved(
    root: QuadNode,
    path: Seq<usize>,
    candidate: FightActorRef,
    range: TargetActorRect,
    ranges: Seq<(FightActorRef, TargetActorRect)>,
) -> QuadNode {
    let node = view_at(root, path);
    if rect_contains(node.rect, range) {
        match first_fit(node.children, range) {
            None => root,
            Some(k) => inserted_at(removed_at(root, path, candidate), path.push(k), candidate, ranges),
        }
    } else if path.len() == 0 {
        root
    } else {
        let removed = removed_at(root, path, candidate);
        inserted_at(removed, climbed(removed, path, range), candidate, ranges)
    }
}

/// A valid path names the same node in a tree and in its value.
pub proof fn lemma_view_at(node: TargetActorQuadtreeNode, path: Seq<usize>)
    requires
        path_valid(node, path),
    ensures
        node_view(node_at(node, path)) == view_at(node_view(node), path),
    decreases path.len(),
{
    if path.len() > 0 {
        let k = path[0] as int;
        assert(node_view(node).children[k] == node_view(node.children@[k]));
        lemma_view_at(node.children@[k], path.skip(1));
    }
}

/// The first child a well-formed node finds for a range is the first that
/// fits among its children as values.
pub proof fn lemma_first_fit(node: TargetActorQuadtreeNode, range: TargetActorRect, found: Option<usize>)
    requires
        node_wf(node),
        child_containing_spec(node, range, found),
    ensures
        found == first_fit(node_view(node).children, range),
        node_view(node).children.len() == node.children@.len(),
        node.children@.len() == 4 ==> forall|k: int|
            0 <= k < 4 ==> (#[trigger] node_view(node).children[k]).depth == node.depth + 1 && node_view(node).children[k]
                == node_view(node.children@[k]),
{
    if node.children@.len() == 4 {
        let v = node_view(node).children;
        assert(v[0] == node_view(node.children@[0]));
        assert(v[1] == node_view(node.children@[1]));
        assert(v[2] == node_view(node.children@[2]));
        assert(v[3] == node_view(node.children@[3]));
        if let Some(k) = found {
            assert(!rect_contains(node.children@[0].rect, range) || k == 0);
        }
    }
}

/// Whether `candidate` has a box among `ranges`.
pub open spec fn ranged(ranges: Seq<(FightActorRef, TargetActorRect)>, candidate: FightActorRef) -> bool {
    exists|i: int| 0 <= i < ranges.len() && #[trigger] ranges[i].0 == candidate
}

/// Whether every candidate of `contents` has a box among `ranges`.
pub open spec fn all_ranged(
    ranges: Seq<(FightActorRef, TargetActorRect)>,
    contents: Multiset<FightActorRef>,
) -> bool {
    forall|candidate: FightActorRef| #[trigger] contents.count(candidate) > 0 ==> ranged(ranges, candidate)
}

/// The box `ranges` holds for `candidate`: the first one listed for it.
pub open spec fn range_spec(
    ranges: Seq<(FightActorRef, TargetActorRect)>,
    candidate: FightActorRef,
) -> TargetActorRect {
    ranges[first_range_index(ranges, candidate)].1
}

/// Where `candidate`'s box is first listed.
pub open spec fn first_range_index(
    ranges: Seq<(FightActorRef, TargetActorRect)>,
    candidate: FightActorRef,
) -> int {
    choose|i: int|
        0 <= i < ranges.len() && ranges[i].0 == candidate && forall|j: int|
            0 <= j < i ==> #[trigger] ranges[j].0 != candidate
}

/// The box `ranges` holds for `candidate`.
pub fn range_of(ranges: &Vec<(FightActorRef, TargetActorRect)>, candidate: FightActorRef) -> (result: TargetActorRect)
    requires
        ranged(ranges@, candidate),
    ensures
        result == range_spec(ranges@, candidate),
{
    let mut index: usize = 0;
    while index < ranges.len()
        invariant
            index <= ranges.len(),
            ranged(ranges@, candidate),
            forall|j: int| 0 <= j < index ==> #[trigger] ranges@[j].0 != candidate,
        decreases ranges.len() - index,
    {
        if ranges[index].0 == candidate {
            assert(0 <= index < ranges@.len() && ranges@[index as int].0 == candidate && forall|j: int|
                0 <= j < index ==> #[trigger] ranges@[j].0 != candidate);
            let ghost first = first_range_index(ranges@, candidate);
            assert(first == index as int) by {
                if first < index as int {
                    assert(ranges@[first].0 != candidate);
                } else if first > index as int {
                    assert(ranges@[index as int].0 != candidate);
                }
            }
            return ranges[index].1;
        }
        index = index + 1;
    }
    assert(false);
    ranges[0].1
}

/// Whether `range` fits in one of a node's children, and the first that it
/// fits in.
pub open spec fn child_containing_spec(node: TargetActorQuadtreeNode, range: TargetActorRect, found: Option<usize>) -> bool {
    match found {
        Some(k) => {
            &&& k < node.children@.len()
            &&& rect_contains(node.children@[k as int].rect, range)
            &&& forall|j: int| 0 <= j < k ==> !rect_contains(#[trigger] node.children@[j].rect, range)
        },
        None => forall|j: int|
            0 <= j < node.children@.len() ==> !rect_contains(#[trigger] node.children@[j].rect, range),
    }
}

/// Whether `path` names a node below `node`: each index one of four children.
pub open spec fn path_valid(node: TargetActorQuadtreeNode, path: Seq<usize>) -> bool
    decreases path.len(),
{
    if path.len() == 0 {
        true
    } else {
        &&& node.children@.len() == 4
        &&& path[0] < 4
        &&& path_valid(node.children@[path[0] as int], path.skip(1))
    }
}

/// The node `path` names below `node`.
pub open spec fn node_at(node: TargetActorQuadtreeNode, path: Seq<usize>) -> TargetActorQuadtreeNode
    decreases path.len(),
{
    if path.len() == 0 || node.children@.len() != 4 || path[0] >= 4 {
        node
    } else {
        node_at(node.children@[path[0] as int], path.skip(1))
    }
}

/// Whether `after` is `node` with the node `path` names replaced by `new`.
pub open spec fn replaced_at(
    node: TargetActorQuadtreeNode,
    path: Seq<usize>,
    new: TargetActorQuadtreeNode,
    after: TargetActorQuadtreeNode,
) -> bool
    decreases path.len(),
{
    if path.len() == 0 || node.children@.len() != 4 || path[0] >= 4 {
        after == new
    } else {
        &&& after.rect == node.rect
        &&& after.depth == node.depth
        &&& after.elements@ == node.elements@
        &&& after.children@.len() == 4
        &&& forall|i: int| 0 <= i < 4 && i != path[0] ==> after.children@[i] == node.children@[i]
        &&& replaced_at(node.children@[path[0] as int], path.skip(1), new, after.children@[path[0] as int])
    }
}

/// Two trees with the same boxes, depths and splits, whatever they hold.
pub open spec fn same_shape(a: TargetActorQuadtreeNode, b: TargetActorQuadtreeNode) -> bool
    decreases a,
{
    &&& a.rect == b.rect
    &&& a.depth == b.depth
    &&& a.children@.len() == b.children@.len()
    &&& a.children@.len() == 4 ==> {
        &&& same_shape(a.children@[0], b.children@[0])
        &&& same_shape(a.children@[1], b.children@[1])
        &&& same_shape(a.children@[2], b.children@[2])
        &&& same_shape(a.children@[3], b.children@[3])
    }
}

/// A path through one tree passes through the same boxes in a tree of the
/// same shape.
pub proof fn lemma_same_shape_paths(a: TargetActorQuadtreeNode, b: TargetActorQuadtreeNode, path: Seq<usize>)
    requires
        same_shape(a, b),
        path_valid(a, path),
    ensures
        path_valid(b, path),
        node_at(a, path).rect == node_at(b, path).rect,
        node_at(a, path).depth == node_at(b, path).depth,
        node_at(a, path).children@.len() == node_at(b, path).children@.len(),
    decreases path.len(),
{
    if path.len() > 0 {
        let k = path[0] as int;
        assert(same_shape(a.children@[k], b.children@[k]));
        lemma_same_shape_paths(a.children@[k], b.children@[k], path.skip(1));
    }
}

/// A node's query order holds exactly the candidates it contains.
pub proof fn lemma_order_holds_contents(node: TargetActorQuadtreeNode)
    ensures
        node_order(node).to_multiset() =~= node_contents(node),
    decreases node,
{
    if node.children@.len() == 4 {
        lemma_order_holds_contents(node.children@[0]);
        lemma_order_holds_contents(node.children@[1]);
        lemma_order_holds_contents(node.children@[2]);
        lemma_order_holds_contents(node.children@[3]);
        let e = node.elements@;
        let o0 = node_order(node.children@[0]);
        let o1 = node_order(node.children@[1]);
        let o2 = node_order(node.children@[2]);
        let o3 = node_order(node.children@[3]);
        vstd::seq_lib::lemma_multiset_commutative(e, o0);
        vstd::seq_lib::lemma_multiset_commutative(e + o0, o1);
        vstd::seq_lib::lemma_multiset_commutative(e + o0 + o1, o2);
        vstd::seq_lib::lemma_multiset_commutative(e + o0 + o1 + o2, o3);
    }
}

impl TargetActorQuadtreeNode {
    pub fn new(rect: TargetActorRect, depth: u8) -> (node: Self)
        ensures
            node.rect == rect,
            node.depth == depth,
            node.elements@ == Seq::<FightActorRef>::empty(),
            node.children@.len() == 0,
    {
        TargetActorQuadtreeNode { rect, depth, elements: Vec::new(), children: Vec::new() }
    }

    /// The first child whose box contains `range`, if the node has children.
    pub fn child_containing(&self, range: TargetActorRect) -> (result: Option<usize>)
        ensures
            child_containing_spec(*self, range, result),
    {
        let mut index: usize = 0;
        while index < self.children.len()
            invariant
                index <= self.children.len(),
                forall|j: int| 0 <= j < index ==> !rect_contains(#[trigger] self.children@[j].rect, range),
            decreases self.children.len() - index,
        {
            if self.children[index].rect.contains(range) {
                return Some(index);
            }
            index = index + 1;
        }
        None
    }
    /// Adds `candidate` to the deepest node whose child boxes do not split its
    /// range, splitting a full leaf first.
    ///
    /// A leaf that would reach its limit splits into four children and hands
    /// each of its elements that fits in one down to it, scanning its list
    /// backwards as `FightQuadtreeNode.Distribute` does; an element that fits
    /// in no child stays where it was.
    pub fn insert(&mut self, candidate: FightActorRef, ranges: &Vec<(FightActorRef, TargetActorRect)>)
        requires
            node_wf(*old(self)),
            ranged(ranges@, candidate),
            all_ranged(ranges@, node_contents(*old(self))),
        ensures
            node_wf(*final(self)),
            node_contents(*final(self)) == node_contents(*old(self)).insert(candidate),
            node_view(*final(self)) == inserted(node_view(*old(self)), candidate, ranges@),
            final(self).depth == old(self).depth,
            final(self).rect == old(self).rect,
        decreases TARGET_QUADTREE_MAX_DEPTH - old(self).depth, 1nat,
    {
        let ghost original = node_view(*self);
        let range = range_of(ranges, candidate);
        let found = self.child_containing(range);
        proof {
            lemma_first_fit(*self, range, found);
        }
        if let Some(child_index) = found {
            self.insert_into_child(child_index, candidate, ranges);
            return;
        }
        if self.children.len() == 0 && self.depth < TARGET_QUADTREE_MAX_DEPTH
            && self.elements.len() >= TARGET_QUADTREE_MAX_ELEMENTS - 1 {
            let ghost before = node_contents(*self);
            let rects = self.rect.children();
            let depth = self.depth + 1;
            let mut kids: Vec<TargetActorQuadtreeNode> = Vec::new();
            kids.push(TargetActorQuadtreeNode::new(rects[0], depth));
            kids.push(TargetActorQuadtreeNode::new(rects[1], depth));
            kids.push(TargetActorQuadtreeNode::new(rects[2], depth));
            kids.push(TargetActorQuadtreeNode::new(rects[3], depth));
            assert forall|k: int| 0 <= k < 4 implies node_wf(#[trigger] kids@[k]) && node_contents(
                kids@[k],
            ) =~= Multiset::<FightActorRef>::empty() by {
                assert(kids@[k].children@.len() == 0);
                assert(kids@[k].elements@ =~= Seq::<FightActorRef>::empty());
            }
            assert(node_wf(kids@[0]) && node_wf(kids@[1]) && node_wf(kids@[2]) && node_wf(kids@[3]));
            assert(node_contents(kids@[0]) =~= Multiset::<FightActorRef>::empty());
            assert(node_contents(kids@[1]) =~= Multiset::<FightActorRef>::empty());
            assert(node_contents(kids@[2]) =~= Multiset::<FightActorRef>::empty());
            assert(node_contents(kids@[3]) =~= Multiset::<FightActorRef>::empty());
            self.children = kids;
            assert(node_contents(*self) =~= before);
            let ghost split = node_view(*self);
            proof {
                let quarters = rect_children(original.rect);
                assert(rects@ == quarters);
                assert(split.children[0] == node_view(self.children@[0]));
                assert(split.children[1] == node_view(self.children@[1]));
                assert(split.children[2] == node_view(self.children@[2]));
                assert(split.children[3] == node_view(self.children@[3]));
                assert(node_view(self.children@[0]) =~= empty_leaf(quarters[0], (original.depth + 1) as u8));
                assert(node_view(self.children@[1]) =~= empty_leaf(quarters[1], (original.depth + 1) as u8));
                assert(node_view(self.children@[2]) =~= empty_leaf(quarters[2], (original.depth + 1) as u8));
                assert(node_view(self.children@[3]) =~= empty_leaf(quarters[3], (original.depth + 1) as u8));
                assert(split.children =~= seq![
                    empty_leaf(quarters[0], (original.depth + 1) as u8),
                    empty_leaf(quarters[1], (original.depth + 1) as u8),
                    empty_leaf(quarters[2], (original.depth + 1) as u8),
                    empty_leaf(quarters[3], (original.depth + 1) as u8),
                ]);
                assert(split.elements == original.elements);
            }
            let mut index = self.elements.len();
            while index > 0
                invariant
                    node_wf(*self),
                    self.children@.len() == 4,
                    self.depth == old(self).depth,
                    self.rect == old(self).rect,
                    node_contents(*self) == before,
                    before == node_contents(*old(self)),
                    index <= self.elements.len(),
                    all_ranged(ranges@, before),
                    ranged(ranges@, candidate),
                    distributed(node_view(*self), ranges@, index as int) == distributed(
                        split,
                        ranges@,
                        split.elements.len() as int,
                    ),
                decreases index,
            {
                index = index - 1;
                let element = self.elements[index];
                assert(self.elements@.to_multiset().count(element) > 0);
                assert(before.count(element) > 0);
                let element_range = range_of(ranges, element);
                let ghost at_step = node_view(*self);
                let found_child = self.child_containing(element_range);
                proof {
                    lemma_first_fit(*self, element_range, found_child);
                }
                if let Some(child_index) = found_child {
                    let ghost with_element = *self;
                    self.elements.remove(index);
                    assert(node_contents(*self) =~= before.remove(element));
                    assert forall|c: FightActorRef| #[trigger] node_contents(*self).count(c) > 0 implies ranged(
                        ranges@,
                        c,
                    ) by {
                        assert(before.count(c) > 0);
                    }
                    self.insert_into_child(child_index, element, ranges);
                    assert(node_contents(*self) =~= before);
                    assert(node_view(*self) =~= (QuadNode {
                        elements: at_step.elements.remove(index as int),
                        children: at_step.children.update(
                            child_index as int,
                            inserted(at_step.children[child_index as int], element, ranges@),
                        ),
                        ..at_step
                    }));
                }
            }
            let last = self.child_containing(range);
            proof {
                lemma_first_fit(*self, range, last);
            }
            if let Some(child_index) = last {
                self.insert_into_child(child_index, candidate, ranges);
                return;
            }
        }
        let ghost before = node_contents(*self);
        let ghost pushed_to = node_view(*self);
        self.elements.push(candidate);
        assert(node_contents(*self) =~= before.insert(candidate));
        assert(node_view(*self) =~= (QuadNode { elements: pushed_to.elements.push(candidate), ..pushed_to }));
    }

    /// Hands `candidate` to the child at `child_index`.
    pub fn insert_into_child(
        &mut self,
        child_index: usize,
        candidate: FightActorRef,
        ranges: &Vec<(FightActorRef, TargetActorRect)>,
    )
        requires
            node_wf(*old(self)),
            old(self).children@.len() == 4,
            child_index < 4,
            ranged(ranges@, candidate),
            all_ranged(ranges@, node_contents(*old(self))),
        ensures
            node_wf(*final(self)),
            node_contents(*final(self)) == node_contents(*old(self)).insert(candidate),
            final(self).depth == old(self).depth,
            final(self).rect == old(self).rect,
            final(self).elements@ == old(self).elements@,
            final(self).children@.len() == 4,
            node_view(*final(self)) == (QuadNode {
                children: node_view(*old(self)).children.update(
                    child_index as int,
                    inserted(node_view(*old(self)).children[child_index as int], candidate, ranges@),
                ),
                ..node_view(*old(self))
            }),
        decreases TARGET_QUADTREE_MAX_DEPTH - old(self).depth, 0nat,
    {
        let ghost original = *self;
        let mut kids: Vec<TargetActorQuadtreeNode> = Vec::new();
        std::mem::swap(&mut kids, &mut self.children);
        let mut child = kids.remove(child_index);
        assert(child == original.children@[child_index as int]);
        assert(all_ranged(ranges@, node_contents(child))) by {
            assert forall|c: FightActorRef| #[trigger] node_contents(child).count(c) > 0 implies ranged(
                ranges@,
                c,
            ) by {
                assert(node_contents(original).count(c) > 0);
            }
        }
        child.insert(candidate, ranges);
        kids.insert(child_index, child);
        self.children = kids;
        assert(self.children@ =~= original.children@.update(child_index as int, child));
        assert(node_contents(*self) =~= node_contents(original).insert(candidate));
        assert(node_view(*self).children =~= node_view(original).children.update(
            child_index as int,
            inserted(node_view(original).children[child_index as int], candidate, ranges@),
        ));
        assert(node_view(*self) =~= (QuadNode {
            children: node_view(original).children.update(
                child_index as int,
                inserted(node_view(original).children[child_index as int], candidate, ranges@),
            ),
            ..node_view(original)
        }));
    }

    /// Appends the node's query order to `output`: its own elements, then each
    /// child's, in turn.
    pub fn append_query_order(&self, output: &mut Vec<FightActorRef>)
        ensures
            final(output)@ == old(output)@ + node_order(*self),
        decreases *self,
    {
        let mut index: usize = 0;
        while index < self.elements.len()
            invariant
                index <= self.elements.len(),
                output@ == old(output)@ + self.elements@.take(index as int),
            decreases self.elements.len() - index,
        {
            output.push(self.elements[index]);
            assert(self.elements@.take(index as int + 1) =~= self.elements@.take(index as int).push(
                self.elements@[index as int],
            ));
            index = index + 1;
        }
        assert(self.elements@.take(index as int) =~= self.elements@);
        if self.children.len() == 4 {
            self.children[0].append_query_order(output);
            self.children[1].append_query_order(output);
            self.children[2].append_query_order(output);
            self.children[3].append_query_order(output);
        } else {
            let mut child: usize = 0;
            while child < self.children.len()
                invariant
                    child <= self.children.len(),
                    self.children.len() != 4,
                    output@ == old(output)@ + self.elements@,
                decreases self.children.len() - child,
            {
                child = child + 1;
            }
        }
        assert(output@ =~= old(output)@ + node_order(*self));
    }

    /// Finds the node that lists `candidate`, appending the child indices that
    /// lead to it onto `path`: this node's own list first, then each child's
    /// subtree in order.
    pub fn find_path(&self, candidate: FightActorRef, path: &mut Vec<usize>) -> (found: bool)
        requires
            node_wf(*self),
        ensures
            found == (node_contents(*self).count(candidate) > 0),
            found ==> {
                let suffix = final(path)@.skip(old(path)@.len() as int);
                &&& final(path)@.len() >= old(path)@.len()
                &&& final(path)@.take(old(path)@.len() as int) == old(path)@
                &&& path_valid(*self, suffix)
                &&& node_at(*self, suffix).elements@.contains(candidate)
            },
            !found ==> final(path)@ == old(path)@,
            found == preorder_path(node_view(*self), candidate) is Some,
            found ==> final(path)@ == old(path)@ + preorder_path(node_view(*self), candidate)->0,
        decreases *self,
    {
        let ghost start = path@;
        let ghost view = node_view(*self);
        if contains_element(&self.elements, candidate) {
            assert(path@ =~= start + Seq::<usize>::empty());
            assert(path@.skip(start.len() as int) =~= Seq::<usize>::empty());
            assert(path@.take(start.len() as int) =~= start);
            assert(self.elements@.to_multiset().count(candidate) > 0);
            return true;
        }
        assert(self.elements@.to_multiset().count(candidate) == 0);
        if self.children.len() != 4 {
            return false;
        }
        let mut index: usize = 0;
        while index < 4
            invariant
                index <= 4,
                self.children@.len() == 4,
                node_wf(*self),
                path@ == start,
                start == old(path)@,
                view == node_view(*self),
                !self.elements@.contains(candidate),
                forall|k: int| 0 <= k < index ==> node_contents(#[trigger] self.children@[k]).count(candidate) == 0,
                forall|k: int| 0 <= k < index ==> preorder_path(#[trigger] view.children[k], candidate) is None,
            decreases 4 - index,
        {
            assert(view.children[index as int] == node_view(self.children@[index as int]));
            path.push(index);
            let ghost middle = path@;
            assert(middle =~= start.push(index));
            if self.children[index].find_path(candidate, path) {
                let ghost suffix = path@.skip(start.len() as int);
                let ghost inner = path@.skip(start.len() as int + 1);
                assert(path@.take(middle.len() as int)[start.len() as int] == index);
                assert(path@[start.len() as int] == index);
                assert(suffix[0] == index);
                assert(suffix.skip(1) =~= inner);
                assert(path@.take(start.len() as int) =~= path@.take(middle.len() as int).take(
                    start.len() as int,
                ));
                assert(path@.take(start.len() as int) =~= start);
                assert(path_valid(self.children@[index as int], inner));
                assert(suffix.len() > 0);
                assert(path_valid(*self, suffix));
                assert(node_at(*self, suffix) == node_at(self.children@[index as int], inner));
                proof {
                    let p = preorder_path(view.children[index as int], candidate)->0;
                    assert(path@ =~= start + (seq![index] + p));
                    assert(preorder_path(view, candidate) == Some(seq![index] + p));
                }
                return true;
            }
            path.pop();
            assert(path@ =~= start);
            index = index + 1;
        }
        assert(preorder_path(view, candidate) is None);
        false
    }

    /// The node `path` names, from `path[at]` on.
    pub fn node_at_path(&self, path: &Vec<usize>, at: usize) -> (node: &Self)
        requires
            at <= path@.len(),
            path_valid(*self, path@.skip(at as int)),
        ensures
            *node == node_at(*self, path@.skip(at as int)),
        decreases path@.len() - at,
    {
        if at == path.len() {
            return self;
        }
        let index = path[at];
        assert(path@.skip(at as int).skip(1) =~= path@.skip(at as int + 1));
        self.children[index].node_at_path(path, at + 1)
    }

    /// The node `path` names, from `path[at]` on, to change in place.
    pub fn node_at_path_mut(&mut self, path: &Vec<usize>, at: usize) -> (node: &mut Self)
        requires
            at <= path@.len(),
            path_valid(*old(self), path@.skip(at as int)),
        ensures
            *node == node_at(*old(self), path@.skip(at as int)),
            replaced_at(*old(self), path@.skip(at as int), *final(node), *final(self)),
        decreases path@.len() - at,
    {
        if at == path.len() {
            return self;
        }
        let index = path[at];
        assert(path@.skip(at as int).skip(1) =~= path@.skip(at as int + 1));
        self.children[index].node_at_path_mut(path, at + 1)
    }

    /// The box of the node `path` names, from `path[at]` on.
    pub fn rect_at(&self, path: &Vec<usize>, at: usize) -> (rect: TargetActorRect)
        requires
            at <= path@.len(),
            path_valid(*self, path@.skip(at as int)),
        ensures
            rect == node_at(*self, path@.skip(at as int)).rect,
        decreases path@.len() - at,
    {
        if at == path.len() {
            return self.rect;
        }
        let index = path[at];
        assert(path@.skip(at as int).skip(1) =~= path@.skip(at as int + 1));
        self.children[index].rect_at(path, at + 1)
    }

    /// The first child of the node `path` names whose box contains `range`.
    pub fn child_containing_at(&self, path: &Vec<usize>, at: usize, range: TargetActorRect) -> (result: Option<usize>)
        requires
            at <= path@.len(),
            path_valid(*self, path@.skip(at as int)),
        ensures
            child_containing_spec(node_at(*self, path@.skip(at as int)), range, result),
        decreases path@.len() - at,
    {
        if at == path.len() {
            return self.child_containing(range);
        }
        let index = path[at];
        assert(path@.skip(at as int).skip(1) =~= path@.skip(at as int + 1));
        self.children[index].child_containing_at(path, at + 1, range)
    }

    /// Takes the first `candidate` out of the list of the node `path` names.
    pub fn remove_element_at(&mut self, path: &Vec<usize>, at: usize, candidate: FightActorRef)
        requires
            node_wf(*old(self)),
            at <= path@.len(),
            path_valid(*old(self), path@.skip(at as int)),
            node_at(*old(self), path@.skip(at as int)).elements@.contains(candidate),
        ensures
            node_wf(*final(self)),
            same_shape(*old(self), *final(self)),
            node_contents(*final(self)) == node_contents(*old(self)).remove(candidate),
            node_contents(*old(self)).count(candidate) > 0,
            node_view(*final(self)) == removed_at(node_view(*old(self)), path@.skip(at as int), candidate),
        decreases path@.len() - at,
    {
        let ghost original = *self;
        if at == path.len() {
            let index = match position_of(&self.elements, candidate) {
                Some(index) => index,
                None => {
                    assert(false);
                    return;
                },
            };
            proof {
                let e = original.elements@;
                assert(0 <= index < e.len() && e[index as int] == candidate && forall|j: int|
                    0 <= j < index ==> #[trigger] e[j] != candidate);
                let first = first_index(e, candidate);
                assert(first == index as int) by {
                    if first < index as int {
                        assert(e[first] != candidate);
                    } else if first > index as int {
                        assert(e[index as int] != candidate);
                    }
                }
                assert(path@.skip(at as int).len() == 0);
            }
            self.elements.remove(index);
            assert(node_view(*self) =~= removed_at(node_view(original), path@.skip(at as int), candidate));
            assert(original.elements@.to_multiset().count(candidate) > 0);
            assert(node_contents(*self) =~= node_contents(original).remove(candidate));
            proof {
                lemma_same_shape_reflexive(*self);
            }
            return;
        }
        let child_index = path[at];
        assert(path@.skip(at as int).skip(1) =~= path@.skip(at as int + 1));
        let mut kids: Vec<TargetActorQuadtreeNode> = Vec::new();
        std::mem::swap(&mut kids, &mut self.children);
        let mut child = kids.remove(child_index);
        child.remove_element_at(path, at + 1, candidate);
        kids.insert(child_index, child);
        self.children = kids;
        assert(self.children@ =~= original.children@.update(child_index as int, child));
        proof {
            let rest = path@.skip(at as int);
            assert(rest[0] == child_index);
            assert(node_view(original).children[child_index as int] == node_view(original.children@[child_index as int]));
            assert(node_view(*self).children =~= node_view(original).children.update(
                child_index as int,
                removed_at(node_view(original).children[child_index as int], rest.skip(1), candidate),
            ));
            assert(node_view(*self) =~= removed_at(node_view(original), rest, candidate));
        }
        assert forall|k: int| 0 <= k < 4 && k != child_index implies same_shape(
            #[trigger] original.children@[k],
            self.children@[k],
        ) by {
            lemma_same_shape_reflexive(original.children@[k]);
        }
        assert(node_contents(*self) =~= node_contents(original).remove(candidate));
    }

    /// Adds `candidate` to the node `path` names.
    pub fn insert_at(
        &mut self,
        path: &Vec<usize>,
        at: usize,
        candidate: FightActorRef,
        ranges: &Vec<(FightActorRef, TargetActorRect)>,
    )
        requires
            node_wf(*old(self)),
            at <= path@.len(),
            path_valid(*old(self), path@.skip(at as int)),
            ranged(ranges@, candidate),
            all_ranged(ranges@, node_contents(*old(self))),
        ensures
            node_wf(*final(self)),
            node_contents(*final(self)) == node_contents(*old(self)).insert(candidate),
            node_view(*final(self)) == inserted_at(node_view(*old(self)), path@.skip(at as int), candidate, ranges@),
            final(self).depth == old(self).depth,
            final(self).rect == old(self).rect,
        decreases path@.len() - at,
    {
        let ghost original = *self;
        if at == path.len() {
            assert(path@.skip(at as int).len() == 0);
            self.insert(candidate, ranges);
            return;
        }
        let child_index = path[at];
        assert(path@.skip(at as int).skip(1) =~= path@.skip(at as int + 1));
        let mut kids: Vec<TargetActorQuadtreeNode> = Vec::new();
        std::mem::swap(&mut kids, &mut self.children);
        let mut child = kids.remove(child_index);
        assert(all_ranged(ranges@, node_contents(child))) by {
            assert forall|c: FightActorRef| #[trigger] node_contents(child).count(c) > 0 implies ranged(
                ranges@,
                c,
            ) by {
                assert(node_contents(original).count(c) > 0);
            }
        }
        child.insert_at(path, at + 1, candidate, ranges);
        kids.insert(child_index, child);
        self.children = kids;
        assert(self.children@ =~= original.children@.update(child_index as int, child));
        proof {
            let rest = path@.skip(at as int);
            assert(rest[0] == child_index);
            assert(node_view(original).children[child_index as int] == node_view(original.children@[child_index as int]));
            assert(node_view(*self).children =~= node_view(original).children.update(
                child_index as int,
                inserted_at(node_view(original).children[child_index as int], rest.skip(1), candidate, ranges@),
            ));
            assert(node_view(*self) =~= inserted_at(node_view(original), rest, candidate, ranges@));
        }
        assert(node_contents(*self) =~= node_contents(original).insert(candidate));
    }

}

/// Every tree has its own shape.
pub proof fn lemma_same_shape_reflexive(node: TargetActorQuadtreeNode)
    ensures
        same_shape(node, node),
    decreases node,
{
    if node.children@.len() == 4 {
        lemma_same_shape_reflexive(node.children@[0]);
        lemma_same_shape_reflexive(node.children@[1]);
        lemma_same_shape_reflexive(node.children@[2]);
        lemma_same_shape_reflexive(node.children@[3]);
    }
}

/// Where `elements` first lists `candidate`.
pub fn position_of(elements: &Vec<FightActorRef>, candidate: FightActorRef) -> (result: Option<usize>)
    ensures
        match result {
            Some(index) => index < elements@.len() && elements@[index as int] == candidate && forall|j: int|
                0 <= j < index ==> elements@[j] != candidate,
            None => !elements@.contains(candidate),
        },
{
    let mut index: usize = 0;
    while index < elements.len()
        invariant
            index <= elements.len(),
            forall|j: int| 0 <= j < index ==> elements@[j] != candidate,
        decreases elements.len() - index,
    {
        if elements[index] == candidate {
            return Some(index);
        }
        index = index + 1;
    }
    None
}

/// Whether `elements` lists `candidate`.
pub fn contains_element(elements: &Vec<FightActorRef>, candidate: FightActorRef) -> (result: bool)
    ensures
        result == elements@.contains(candidate),
{
    let mut index: usize = 0;
    while index < elements.len()
        invariant
            index <= elements.len(),
            forall|j: int| 0 <= j < index ==> elements@[j] != candidate,
        decreases elements.len() - index,
    {
        if elements[index] == candidate {
            return true;
        }
        index = index + 1;
    }
    false
}


/// A valid path extends by any of its last node's four children.
pub proof fn lemma_path_extends(node: TargetActorQuadtreeNode, path: Seq<usize>, child: usize)
    requires
        path_valid(node, path),
        node_at(node, path).children@.len() == 4,
        child < 4,
    ensures
        path_valid(node, path.push(child)),
        node_at(node, path.push(child)) == node_at(node, path).children@[child as int],
    decreases path.len(),
{
    let extended = path.push(child);
    if path.len() == 0 {
        assert(extended.skip(1) =~= Seq::<usize>::empty());
        assert(extended[0] == child);
        assert(node_at(node, path) == node);
        assert(path_valid(node.children@[child as int], extended.skip(1)));
        assert(node_at(node.children@[child as int], extended.skip(1)) == node.children@[child as int]);
    } else {
        assert(extended.skip(1) =~= path.skip(1).push(child));
        assert(extended[0] == path[0]);
        lemma_path_extends(node.children@[path[0] as int], path.skip(1), child);
    }
}

/// Every node below a well-formed node is well formed.
pub proof fn lemma_node_at_wf(node: TargetActorQuadtreeNode, path: Seq<usize>)
    requires
        node_wf(node),
        path_valid(node, path),
    ensures
        node_wf(node_at(node, path)),
    decreases path.len(),
{
    if path.len() > 0 {
        lemma_node_at_wf(node.children@[path[0] as int], path.skip(1));
    }
}

/// Every prefix of a valid path is valid.
pub proof fn lemma_path_prefix(node: TargetActorQuadtreeNode, path: Seq<usize>)
    requires
        path_valid(node, path),
        path.len() > 0,
    ensures
        path_valid(node, path.drop_last()),
    decreases path.len(),
{
    if path.len() > 1 {
        assert(path.drop_last().skip(1) =~= path.skip(1).drop_last());
        lemma_path_prefix(node.children@[path[0] as int], path.skip(1));
    }
}

/// The target tree of one team: every candidate's box, and the nodes that
/// hold them.
#[derive(Debug)]
pub struct TargetActorQuadtree {
    pub root: TargetActorQuadtreeNode,
    pub ranges: Vec<(FightActorRef, TargetActorRect)>,
}

impl TargetActorQuadtree {
    /// The tree is shaped as one, each candidate has one box, and the tree
    /// holds each candidate with a box exactly once and nothing else.
    pub open spec fn wf(self) -> bool {
        &&& node_wf(self.root)
        &&& forall|i: int, j: int|
            0 <= i < j < self.ranges@.len() ==> #[trigger] self.ranges@[i].0 != #[trigger] self.ranges@[j].0
        &&& forall|candidate: FightActorRef| #[trigger] node_contents(self.root).count(candidate) == if ranged(
            self.ranges@,
            candidate,
        ) {
            1nat
        } else {
            0nat
        }
    }

    /// An empty tree over the whole board.
    pub fn new() -> (tree: Self)
        ensures
            tree.wf(),
            tree.ranges@.len() == 0,
            tree.root.rect == (TargetActorRect {
                min_x: (-TARGET_QUADTREE_HALF_WIDTH_Q32) as i64,
                min_z: (-TARGET_QUADTREE_HALF_HEIGHT_Q32) as i64,
                max_x: TARGET_QUADTREE_HALF_WIDTH_Q32,
                max_z: TARGET_QUADTREE_HALF_HEIGHT_Q32,
            }),
            tree.root.depth == 0,
            node_contents(tree.root) =~= Multiset::<FightActorRef>::empty(),
    {
        let tree = TargetActorQuadtree {
            root: TargetActorQuadtreeNode::new(
                TargetActorRect {
                    min_x: -TARGET_QUADTREE_HALF_WIDTH_Q32,
                    min_z: -TARGET_QUADTREE_HALF_HEIGHT_Q32,
                    max_x: TARGET_QUADTREE_HALF_WIDTH_Q32,
                    max_z: TARGET_QUADTREE_HALF_HEIGHT_Q32,
                },
                0,
            ),
            ranges: Vec::new(),
        };
        assert(node_contents(tree.root) =~= Multiset::<FightActorRef>::empty());
        tree
    }

    /// Whether `candidate` has a box.
    pub fn has_range(&self, candidate: FightActorRef) -> (result: bool)
        ensures
            result == ranged(self.ranges@, candidate),
    {
        let mut index: usize = 0;
        while index < self.ranges.len()
            invariant
                index <= self.ranges.len(),
                forall|j: int| 0 <= j < index ==> #[trigger] self.ranges@[j].0 != candidate,
            decreases self.ranges.len() - index,
        {
            if self.ranges[index].0 == candidate {
                return true;
            }
            index = index + 1;
        }
        false
    }

    /// Gives `candidate` the box `range`, replacing the one it had.
    pub fn set_range(&mut self, candidate: FightActorRef, range: TargetActorRect)
        requires
            forall|i: int, j: int|
                0 <= i < j < old(self).ranges@.len() ==> #[trigger] old(self).ranges@[i].0
                    != #[trigger] old(self).ranges@[j].0,
        ensures
            final(self).root == old(self).root,
            forall|i: int, j: int|
                0 <= i < j < final(self).ranges@.len() ==> #[trigger] final(self).ranges@[i].0
                    != #[trigger] final(self).ranges@[j].0,
            ranged(final(self).ranges@, candidate),
            range_spec(final(self).ranges@, candidate) == range,
            forall|other: FightActorRef| other != candidate ==> (ranged(final(self).ranges@, other) == ranged(old(self).ranges@, other)),
            forall|other: FightActorRef| other != candidate && ranged(old(self).ranges@, other) ==> range_spec(final(self).ranges@, other) == range_spec(old(self).ranges@, other),
    {
        let ghost before = self.ranges@;
        let mut index: usize = 0;
        while index < self.ranges.len()
            invariant
                index <= self.ranges.len(),
                self.ranges@ == before,
                before == old(self).ranges@,
                self.root == old(self).root,
                forall|i: int, j: int|
                    0 <= i < j < before.len() ==> #[trigger] before[i].0 != #[trigger] before[j].0,
                forall|j: int| 0 <= j < index ==> #[trigger] self.ranges@[j].0 != candidate,
            decreases self.ranges.len() - index,
        {
            if self.ranges[index].0 == candidate {
                self.ranges.set(index, (candidate, range));
                proof {
                    let after = self.ranges@;
                    assert(after =~= before.update(index as int, (candidate, range)));
                    assert(after[index as int].0 == candidate);
                    assert forall|i: int| 0 <= i < after.len() implies #[trigger] after[i].0 == before[i].0 by {}
                    assert forall|other: FightActorRef| other != candidate implies (ranged(after, other) == ranged(before, other)) by {
                        if ranged(before, other) {
                            let i = choose|i: int| 0 <= i < before.len() && #[trigger] before[i].0 == other;
                            assert(after[i].0 == other);
                        }
                        if ranged(after, other) {
                            let i = choose|i: int| 0 <= i < after.len() && #[trigger] after[i].0 == other;
                            assert(before[i].0 == other);
                        }
                    }
                    let first = first_range_index(after, candidate);
                    assert(0 <= index < after.len() && after[index as int].0 == candidate && forall|j: int|
                        0 <= j < index ==> #[trigger] after[j].0 != candidate);
                    assert(first == index as int) by {
                        if first < index as int {
                            assert(after[first].0 != candidate);
                        } else if first > index as int {
                            assert(after[index as int].0 != candidate);
                        }
                    }
                    assert forall|other: FightActorRef| other != candidate && ranged(before, other) implies range_spec(after, other) == range_spec(before, other) by {
                        let i = choose|i: int| 0 <= i < before.len() && #[trigger] before[i].0 == other;
                        lemma_first_range_index(before, other);
                        lemma_first_range_index(after, other);
                        let fb = first_range_index(before, other);
                        let fa = first_range_index(after, other);
                        assert(fa == fb) by {
                            if fa < fb {
                                assert(before[fa].0 == other);
                            } else if fa > fb {
                                assert(after[fb].0 == other);
                            }
                        }
                    }
                }
                return;
            }
            index = index + 1;
        }
        self.ranges.push((candidate, range));
        proof {
            let after = self.ranges@;
            assert(after =~= before.push((candidate, range)));
            let last = before.len() as int;
            assert(after[last].0 == candidate);
            assert forall|i: int| 0 <= i < last implies #[trigger] after[i].0 == before[i].0 && before[i].0 != candidate by {}
            assert forall|other: FightActorRef| other != candidate implies (ranged(after, other) == ranged(before, other)) by {
                if ranged(before, other) {
                    let i = choose|i: int| 0 <= i < before.len() && #[trigger] before[i].0 == other;
                    assert(after[i].0 == other);
                }
                if ranged(after, other) {
                    let i = choose|i: int| 0 <= i < after.len() && #[trigger] after[i].0 == other;
                    assert(i != last);
                    assert(before[i].0 == other);
                }
            }
            let first = first_range_index(after, candidate);
            assert(0 <= last < after.len() && after[last].0 == candidate && forall|j: int|
                0 <= j < last ==> #[trigger] after[j].0 != candidate);
            assert(first == last) by {
                if first < last {
                    assert(after[first].0 != candidate);
                }
            }
            assert forall|other: FightActorRef| other != candidate && ranged(before, other) implies range_spec(after, other) == range_spec(before, other) by {
                lemma_first_range_index(before, other);
                lemma_first_range_index(after, other);
                let fb = first_range_index(before, other);
                let fa = first_range_index(after, other);
                assert(fa == fb) by {
                    if fa < fb {
                        assert(before[fa].0 == other);
                    } else if fa > fb {
                        assert(after[fb].0 == other);
                    }
                }
            }
        }
    }
    /// Gives `candidate` a box around `(x, z)` and adds it to the tree: to the
    /// node its box fits, or to the root's own list when the box leaves the
    /// board.
    pub fn insert(&mut self, candidate: FightActorRef, x_q32: i64, z_q32: i64, radius: i64)
        requires
            old(self).wf(),
        ensures
            node_contents(final(self).root) == node_contents(old(self).root).insert(candidate),
            ranged(final(self).ranges@, candidate),
            range_spec(final(self).ranges@, candidate) == around_spec(x_q32, z_q32, radius),
            forall|other: FightActorRef| other != candidate ==> (ranged(final(self).ranges@, other) == ranged(old(self).ranges@, other)),
            forall|other: FightActorRef| other != candidate && ranged(old(self).ranges@, other) ==> range_spec(final(self).ranges@, other) == range_spec(old(self).ranges@, other),
            !ranged(old(self).ranges@, candidate) ==> final(self).wf(),
            node_view(final(self).root) == if rect_contains(old(self).root.rect, around_spec(x_q32, z_q32, radius)) {
                inserted(node_view(old(self).root), candidate, final(self).ranges@)
            } else {
                QuadNode { elements: node_view(old(self).root).elements.push(candidate), ..node_view(old(self).root) }
            },
    {
        let range = TargetActorRect::around(x_q32, z_q32, radius);
        let ghost before = node_contents(self.root);
        let ghost fresh = !ranged(self.ranges@, candidate);
        self.set_range(candidate, range);
        assert(all_ranged(self.ranges@, before)) by {
            assert forall|c: FightActorRef| #[trigger] before.count(c) > 0 implies ranged(self.ranges@, c) by {
                if c != candidate {
                    assert(ranged(old(self).ranges@, c));
                }
            }
        }
        if self.root.rect.contains(range) {
            self.root.insert(candidate, &self.ranges);
        } else {
            let ghost unchanged = node_view(self.root);
            self.root.elements.push(candidate);
            assert(node_contents(self.root) =~= before.insert(candidate));
            assert(node_view(self.root) =~= (QuadNode { elements: unchanged.elements.push(candidate), ..unchanged }));
        }
        proof {
            if fresh {
                assert forall|c: FightActorRef| #[trigger] node_contents(self.root).count(c) == if ranged(
                    self.ranges@,
                    c,
                ) {
                    1nat
                } else {
                    0nat
                } by {
                    if c != candidate {
                        assert(before.count(c) == if ranged(old(self).ranges@, c) {
                            1nat
                        } else {
                            0nat
                        });
                    } else {
                        assert(before.count(c) == 0);
                    }
                }
            }
        }
    }

    /// Moves `candidate` to `(x, z)`, as `FightQuadtree.PositionChanged` does:
    /// it stays in its node while its box stays inside it and fits no child,
    /// goes down into the child that now holds it, or climbs to the nearest
    /// ancestor that holds it and is inserted there. A candidate without a box
    /// is inserted, and one outside the board keeps its place in the root.
    pub fn position_changed(&mut self, candidate: FightActorRef, x_q32: i64, z_q32: i64, radius: i64)
        requires
            old(self).wf(),
        ensures
            final(self).wf(),
            node_contents(final(self).root) == if ranged(old(self).ranges@, candidate) {
                node_contents(old(self).root)
            } else {
                node_contents(old(self).root).insert(candidate)
            },
            ranged(final(self).ranges@, candidate),
            range_spec(final(self).ranges@, candidate) == around_spec(x_q32, z_q32, radius),
            forall|other: FightActorRef| other != candidate ==> (ranged(final(self).ranges@, other) == ranged(old(self).ranges@, other)),
            forall|other: FightActorRef|
                other != candidate && ranged(old(self).ranges@, other) ==> range_spec(final(self).ranges@, other)
                    == range_spec(old(self).ranges@, other),
            !ranged(old(self).ranges@, candidate) ==> node_view(final(self).root) == if rect_contains(
                old(self).root.rect,
                around_spec(x_q32, z_q32, radius),
            ) {
                inserted(node_view(old(self).root), candidate, final(self).ranges@)
            } else {
                QuadNode { elements: node_view(old(self).root).elements.push(candidate), ..node_view(old(self).root) }
            },
            ranged(old(self).ranges@, candidate) ==> preorder_path(node_view(old(self).root), candidate) is Some
                && node_view(final(self).root) == moved(
                node_view(old(self).root),
                preorder_path(node_view(old(self).root), candidate)->0,
                candidate,
                around_spec(x_q32, z_q32, radius),
                final(self).ranges@,
            ),
    {
        if !self.has_range(candidate) {
            self.insert(candidate, x_q32, z_q32, radius);
            return;
        }
        let ghost root_view = node_view(self.root);
        let mut path: Vec<usize> = Vec::new();
        if !self.root.find_path(candidate, &mut path) {
            assert(node_contents(self.root).count(candidate) == 1);
            assert(false);
            return;
        }
        assert(path@ =~= preorder_path(root_view, candidate)->0);
        assert(path@.skip(0) =~= path@);
        let ghost before = node_contents(self.root);
        let new_range = TargetActorRect::around(x_q32, z_q32, radius);
        self.set_range(candidate, new_range);
        assert(all_ranged(self.ranges@, before)) by {
            assert forall|c: FightActorRef| #[trigger] before.count(c) > 0 implies ranged(self.ranges@, c) by {
                if c != candidate {
                    assert(ranged(old(self).ranges@, c));
                }
            }
        }
        assert(forall|c: FightActorRef| #[trigger] before.count(c) == if ranged(self.ranges@, c) {
            1nat
        } else {
            0nat
        });
        let ghost path0 = path@;
        proof {
            lemma_view_at(self.root, path@);
            lemma_node_at_wf(self.root, path@);
        }
        if self.root.rect_at(&path, 0).contains(new_range) {
            let found = self.root.child_containing_at(&path, 0, new_range);
            proof {
                lemma_first_fit(node_at(self.root, path@), new_range, found);
            }
            let child_index = match found {
                Some(child_index) => child_index,
                None => {
                    return;
                },
            };
            let ghost shaped = self.root;
            self.root.remove_element_at(&path, 0, candidate);
            proof {
                lemma_node_at_wf(shaped, path@);
                lemma_same_shape_paths(shaped, self.root, path@);
                lemma_path_extends(self.root, path@, child_index);
            }
            path.push(child_index);
            assert(path@.skip(0) =~= path@);
            assert(all_ranged(self.ranges@, node_contents(self.root))) by {
                assert forall|c: FightActorRef| #[trigger] node_contents(self.root).count(c) > 0 implies ranged(
                    self.ranges@,
                    c,
                ) by {
                    assert(before.count(c) > 0);
                }
            }
            self.root.insert_at(&path, 0, candidate, &self.ranges);
            assert(node_contents(self.root) =~= before);
            return;
        }
        if path.len() == 0 {
            return;
        }
        let ghost shaped = self.root;
        self.root.remove_element_at(&path, 0, candidate);
        proof {
            lemma_same_shape_paths(shaped, self.root, path@);
        }
        let ghost removed = node_view(self.root);
        while path.len() > 0 && !self.root.rect_at(&path, 0).contains(new_range)
            invariant
                node_wf(self.root),
                path_valid(self.root, path@),
                path@.skip(0) == path@,
                node_view(self.root) == removed,
                climbed(removed, path@, new_range) == climbed(removed, path0, new_range),
            decreases path.len(),
        {
            proof {
                lemma_view_at(self.root, path@);
                lemma_path_prefix(self.root, path@);
            }
            path.pop();
            assert(path@.skip(0) =~= path@);
        }
        proof {
            lemma_view_at(self.root, path@);
        }
        assert(all_ranged(self.ranges@, node_contents(self.root))) by {
            assert forall|c: FightActorRef| #[trigger] node_contents(self.root).count(c) > 0 implies ranged(
                self.ranges@,
                c,
            ) by {
                assert(before.count(c) > 0);
            }
        }
        self.root.insert_at(&path, 0, candidate, &self.ranges);
        assert(node_contents(self.root) =~= before);
    }

    /// Every candidate in the order the build's query visits them.
    pub fn query_order(&self) -> (order: Vec<FightActorRef>)
        ensures
            order@ == node_order(self.root),
            self.wf() ==> forall|candidate: FightActorRef| #[trigger] order@.to_multiset().count(candidate) == if ranged(
                self.ranges@,
                candidate,
            ) {
                1nat
            } else {
                0nat
            },
    {
        let mut output: Vec<FightActorRef> = Vec::new();
        self.root.append_query_order(&mut output);
        assert(output@ =~= node_order(self.root));
        proof {
            lemma_order_holds_contents(self.root);
        }
        output
    }
}

/// Where a candidate's box is first listed is where it is listed first.
pub proof fn lemma_first_range_index(ranges: Seq<(FightActorRef, TargetActorRect)>, candidate: FightActorRef)
    requires
        ranged(ranges, candidate),
    ensures
        ({
            let first = first_range_index(ranges, candidate);
            &&& 0 <= first < ranges.len()
            &&& ranges[first].0 == candidate
            &&& forall|j: int| 0 <= j < first ==> #[trigger] ranges[j].0 != candidate
        }),
{
    let i = choose|i: int| 0 <= i < ranges.len() && #[trigger] ranges[i].0 == candidate;
    lemma_first_index_exists(ranges, candidate, i);
}

proof fn lemma_first_index_exists(ranges: Seq<(FightActorRef, TargetActorRect)>, candidate: FightActorRef, bound: int)
    requires
        0 <= bound < ranges.len(),
        ranges[bound].0 == candidate,
    ensures
        exists|i: int|
            0 <= i < ranges.len() && ranges[i].0 == candidate && forall|j: int|
                0 <= j < i ==> #[trigger] ranges[j].0 != candidate,
    decreases bound,
{
    if exists|j: int| 0 <= j < bound && #[trigger] ranges[j].0 == candidate {
        let j = choose|j: int| 0 <= j < bound && #[trigger] ranges[j].0 == candidate;
        lemma_first_index_exists(ranges, candidate, j);
    } else {
        assert(forall|j: int| 0 <= j < bound ==> #[trigger] ranges[j].0 != candidate);
    }
}

/// The search order of a well-formed tree is a permutation of its candidates:
/// every candidate with a box is visited exactly once, and nothing else is.
pub proof fn lemma_query_order_is_a_permutation(tree: TargetActorQuadtree, candidate: FightActorRef)
    requires
        tree.wf(),
    ensures
        node_order(tree.root).to_multiset().count(candidate) == if ranged(tree.ranges@, candidate) {
            1nat
        } else {
            0nat
        },
{
    lemma_order_holds_contents(tree.root);
    assert(node_contents(tree.root).count(candidate) == if ranged(tree.ranges@, candidate) {
        1nat
    } else {
        0nat
    });
}


/// Whether every element a node holds below the top lies in a node whose box
/// contains its range; the top's own list may hold anything.
pub open spec fn holds_within(node: QuadNode, ranges: Seq<(FightActorRef, TargetActorRect)>, top: bool) -> bool
    decreases node,
{
    &&& !top ==> forall|i: int|
        0 <= i < node.elements.len() ==> rect_contains(node.rect, range_spec(ranges, #[trigger] node.elements[i]))
    &&& node.children.len() == 4 ==> {
        &&& holds_within(node.children[0], ranges, false)
        &&& holds_within(node.children[1], ranges, false)
        &&& holds_within(node.children[2], ranges, false)
        &&& holds_within(node.children[3], ranges, false)
    }
}

/// Handing a split node's elements down keeps its box and depth.
proof fn lemma_distributed_keeps_box(node: QuadNode, ranges: Seq<(FightActorRef, TargetActorRect)>, index: int)
    ensures
        distributed(node, ranges, index).rect == node.rect,
        distributed(node, ranges, index).depth == node.depth,
    decreases index,
{
    if !(index <= 0 || index > node.elements.len()) {
        let i = index - 1;
        let element = node.elements[i];
        match first_fit(node.children, range_spec(ranges, element)) {
            Some(k) => if node.children[k as int].depth > node.depth {
                let next = QuadNode {
                    elements: node.elements.remove(i),
                    children: node.children.update(k as int, inserted(node.children[k as int], element, ranges)),
                    ..node
                };
                lemma_distributed_keeps_box(next, ranges, i);
            } else {
                lemma_distributed_keeps_box(node, ranges, i);
            },
            None => lemma_distributed_keeps_box(node, ranges, i),
        }
    }
}

/// Handing a split node's elements down keeps every element within its
/// node.
proof fn lemma_distributed_within(
    node: QuadNode,
    ranges: Seq<(FightActorRef, TargetActorRect)>,
    index: int,
    top: bool,
)
    requires
        holds_within(node, ranges, top),
    ensures
        holds_within(distributed(node, ranges, index), ranges, top),
    decreases 255 - node.depth as int, 1int, index,
{
    if !(index <= 0 || index > node.elements.len()) {
        let i = index - 1;
        let element = node.elements[i];
        match first_fit(node.children, range_spec(ranges, element)) {
            Some(k) => if node.children[k as int].depth > node.depth {
                let child = node.children[k as int];
                lemma_inserted_within(child, element, ranges, false);
                let next = QuadNode {
                    elements: node.elements.remove(i),
                    children: node.children.update(k as int, inserted(child, element, ranges)),
                    ..node
                };
                assert forall|j: int| 0 <= j < next.elements.len() implies #[trigger] next.elements[j]
                    == node.elements[if j < i { j } else { j + 1 }] by {}
                assert(holds_within(next, ranges, top)) by {
                    if !top {
                        assert forall|j: int| 0 <= j < next.elements.len() implies rect_contains(
                            next.rect,
                            range_spec(ranges, #[trigger] next.elements[j]),
                        ) by {
                            let from = if j < i { j } else { j + 1 };
                            assert(next.elements[j] == node.elements[from]);
                        }
                    }
                    assert(next.children[k as int] == inserted(child, element, ranges));
                }
                lemma_distributed_within(next, ranges, i, top);
            } else {
                lemma_distributed_within(node, ranges, i, top);
            },
            None => lemma_distributed_within(node, ranges, i, top),
        }
    }
}

/// Inserting a candidate keeps every element within its node, where a node
/// below the top receives only a candidate whose range its box contains.
proof fn lemma_inserted_within(
    node: QuadNode,
    candidate: FightActorRef,
    ranges: Seq<(FightActorRef, TargetActorRect)>,
    top: bool,
)
    requires
        holds_within(node, ranges, top),
        !top ==> rect_contains(node.rect, range_spec(ranges, candidate)),
    ensures
        holds_within(inserted(node, candidate, ranges), ranges, top),
    decreases 255 - node.depth as int, 2int, 0int,
{
    let range = range_spec(ranges, candidate);
    match first_fit(node.children, range) {
        Some(k) => if node.children[k as int].depth > node.depth {
            lemma_inserted_within(node.children[k as int], candidate, ranges, false);
            let after = inserted(node, candidate, ranges);
            assert(after.children[k as int] == inserted(node.children[k as int], candidate, ranges));
        },
        None => if node.children.len() == 0 && node.depth < TARGET_QUADTREE_MAX_DEPTH && node.elements.len() + 1
            >= TARGET_QUADTREE_MAX_ELEMENTS {
            let quarters = rect_children(node.rect);
            let split = QuadNode {
                children: seq![
                    empty_leaf(quarters[0], (node.depth + 1) as u8),
                    empty_leaf(quarters[1], (node.depth + 1) as u8),
                    empty_leaf(quarters[2], (node.depth + 1) as u8),
                    empty_leaf(quarters[3], (node.depth + 1) as u8),
                ],
                ..node
            };
            assert(holds_within(split.children[0], ranges, false));
            assert(holds_within(split.children[1], ranges, false));
            assert(holds_within(split.children[2], ranges, false));
            assert(holds_within(split.children[3], ranges, false));
            assert(holds_within(split, ranges, top));
            lemma_distributed_within(split, ranges, node.elements.len() as int, top);
            lemma_distributed_keeps_box(split, ranges, node.elements.len() as int);
            let spread = distributed(split, ranges, node.elements.len() as int);
            match first_fit(spread.children, range) {
                Some(k) => if spread.children[k as int].depth > node.depth {
                    lemma_inserted_within(spread.children[k as int], candidate, ranges, false);
                    let after = inserted(node, candidate, ranges);
                    assert(after.children[k as int] == inserted(spread.children[k as int], candidate, ranges));
                },
                None => {
                    let after = QuadNode { elements: spread.elements.push(candidate), ..spread };
                    assert(after.rect == spread.rect) ;
                    assert(holds_within(after, ranges, top)) by {
                        if !top {
                            assert forall|j: int| 0 <= j < after.elements.len() implies rect_contains(
                                after.rect,
                                range_spec(ranges, #[trigger] after.elements[j]),
                            ) by {
                                if j < spread.elements.len() {
                                    assert(after.elements[j] == spread.elements[j]);
                                }
                            }
                        }
                    }
                },
            }
        } else {
            let after = QuadNode { elements: node.elements.push(candidate), ..node };
            assert(holds_within(after, ranges, top)) by {
                if !top {
                    assert forall|j: int| 0 <= j < after.elements.len() implies rect_contains(
                        after.rect,
                        range_spec(ranges, #[trigger] after.elements[j]),
                    ) by {
                        if j < node.elements.len() {
                            assert(after.elements[j] == node.elements[j]);
                        }
                    }
                }
            }
        },
    }
}

/// An insert keeps every element held below the root inside a node whose
/// box contains its range.
pub proof fn lemma_an_insert_keeps_elements_within_their_nodes(
    root: QuadNode,
    candidate: FightActorRef,
    ranges: Seq<(FightActorRef, TargetActorRect)>,
)
    requires
        holds_within(root, ranges, true),
    ensures
        holds_within(inserted(root, candidate, ranges), ranges, true),
{
    lemma_inserted_within(root, candidate, ranges, true);
}


/// Whether every leaf above the deepest level holds fewer elements than the
/// limit, nineteen at most.
pub open spec fn within_capacity(node: QuadNode) -> bool
    decreases node,
{
    &&& node.children.len() == 0 && node.depth < TARGET_QUADTREE_MAX_DEPTH ==> node.elements.len()
        < TARGET_QUADTREE_MAX_ELEMENTS
    &&& node.children.len() == 4 ==> {
        &&& within_capacity(node.children[0])
        &&& within_capacity(node.children[1])
        &&& within_capacity(node.children[2])
        &&& within_capacity(node.children[3])
    }
}

/// Handing a split node's elements down keeps every leaf within capacity.
proof fn lemma_distributed_capacity(node: QuadNode, ranges: Seq<(FightActorRef, TargetActorRect)>, index: int)
    requires
        within_capacity(node),
        node.children.len() == 4,
    ensures
        within_capacity(distributed(node, ranges, index)),
        distributed(node, ranges, index).children.len() == 4,
    decreases 255 - node.depth as int, 1int, index,
{
    if !(index <= 0 || index > node.elements.len()) {
        let i = index - 1;
        let element = node.elements[i];
        match first_fit(node.children, range_spec(ranges, element)) {
            Some(k) => if node.children[k as int].depth > node.depth {
                let child = node.children[k as int];
                lemma_inserted_capacity(child, element, ranges);
                let next = QuadNode {
                    elements: node.elements.remove(i),
                    children: node.children.update(k as int, inserted(child, element, ranges)),
                    ..node
                };
                assert(next.children[k as int] == inserted(child, element, ranges));
                lemma_distributed_capacity(next, ranges, i);
            } else {
                lemma_distributed_capacity(node, ranges, i);
            },
            None => lemma_distributed_capacity(node, ranges, i),
        }
    }
}

/// Inserting a candidate keeps every leaf within capacity.
proof fn lemma_inserted_capacity(node: QuadNode, candidate: FightActorRef, ranges: Seq<(FightActorRef, TargetActorRect)>)
    requires
        within_capacity(node),
    ensures
        within_capacity(inserted(node, candidate, ranges)),
    decreases 255 - node.depth as int, 2int, 0int,
{
    let range = range_spec(ranges, candidate);
    match first_fit(node.children, range) {
        Some(k) => if node.children[k as int].depth > node.depth {
            lemma_inserted_capacity(node.children[k as int], candidate, ranges);
            let after = inserted(node, candidate, ranges);
            assert(after.children[k as int] == inserted(node.children[k as int], candidate, ranges));
        },
        None => if node.children.len() == 0 && node.depth < TARGET_QUADTREE_MAX_DEPTH && node.elements.len() + 1
            >= TARGET_QUADTREE_MAX_ELEMENTS {
            let quarters = rect_children(node.rect);
            let split = QuadNode {
                children: seq![
                    empty_leaf(quarters[0], (node.depth + 1) as u8),
                    empty_leaf(quarters[1], (node.depth + 1) as u8),
                    empty_leaf(quarters[2], (node.depth + 1) as u8),
                    empty_leaf(quarters[3], (node.depth + 1) as u8),
                ],
                ..node
            };
            assert(within_capacity(split.children[0]));
            assert(within_capacity(split.children[1]));
            assert(within_capacity(split.children[2]));
            assert(within_capacity(split.children[3]));
            lemma_distributed_capacity(split, ranges, node.elements.len() as int);
            let spread = distributed(split, ranges, node.elements.len() as int);
            match first_fit(spread.children, range) {
                Some(k) => if spread.children[k as int].depth > node.depth {
                    lemma_inserted_capacity(spread.children[k as int], candidate, ranges);
                    let after = inserted(node, candidate, ranges);
                    assert(after.children[k as int] == inserted(spread.children[k as int], candidate, ranges));
                },
                None => {},
            }
        } else {
        },
    }
}

/// An insert keeps every leaf above the deepest level holding at most
/// nineteen elements: a leaf that would reach twenty splits.
pub proof fn lemma_an_insert_keeps_leaves_within_capacity(
    root: QuadNode,
    candidate: FightActorRef,
    ranges: Seq<(FightActorRef, TargetActorRect)>,
)
    requires
        within_capacity(root),
    ensures
        within_capacity(inserted(root, candidate, ranges)),
{
    lemma_inserted_capacity(root, candidate, ranges);
}


/// Every candidate a node value holds, in it or below it.
pub open spec fn view_contents(node: QuadNode) -> Multiset<FightActorRef>
    decreases node,
{
    if node.children.len() == 4 {
        node.elements.to_multiset().add(view_contents(node.children[0])).add(view_contents(node.children[1])).add(
            view_contents(node.children[2]),
        ).add(view_contents(node.children[3]))
    } else {
        node.elements.to_multiset()
    }
}

/// A well-formed node holds, as a value, what it holds.
pub proof fn lemma_view_contents(node: TargetActorQuadtreeNode)
    requires
        node_wf(node),
    ensures
        view_contents(node_view(node)) == node_contents(node),
    decreases node,
{
    if node.children@.len() == 4 {
        lemma_view_contents(node.children@[0]);
        lemma_view_contents(node.children@[1]);
        lemma_view_contents(node.children@[2]);
        lemma_view_contents(node.children@[3]);
        let v = node_view(node);
        assert(v.children[0] == node_view(node.children@[0]));
        assert(v.children[1] == node_view(node.children@[1]));
        assert(v.children[2] == node_view(node.children@[2]));
        assert(v.children[3] == node_view(node.children@[3]));
    }
}

/// Whether every index of `path` names one of four children.
pub open spec fn quarter_path(path: Seq<usize>) -> bool {
    forall|i: int| 0 <= i < path.len() ==> #[trigger] path[i] < 4
}

/// Where the pre-order search finds a candidate, that node's list holds it.
proof fn lemma_preorder_path(node: QuadNode, candidate: FightActorRef)
    requires
        preorder_path(node, candidate) is Some,
    ensures
        quarter_path(preorder_path(node, candidate)->0),
        view_at(node, preorder_path(node, candidate)->0).elements.contains(candidate),
    decreases node,
{
    if !node.elements.contains(candidate) {
        let mut k: int = 0;
        if preorder_path(node.children[0], candidate) is Some {
            k = 0;
        } else if preorder_path(node.children[1], candidate) is Some {
            k = 1;
        } else if preorder_path(node.children[2], candidate) is Some {
            k = 2;
        } else {
            k = 3;
        }
        lemma_preorder_path(node.children[k], candidate);
        let inner = preorder_path(node.children[k], candidate)->0;
        let path = preorder_path(node, candidate)->0;
        assert(path =~= seq![k as usize] + inner);
        assert(path.skip(1) =~= inner);
        assert forall|i: int| 0 <= i < path.len() implies #[trigger] path[i] < 4 by {
            if i > 0 {
                assert(path[i] == inner[i - 1]);
            }
        }
    } else {
        assert(preorder_path(node, candidate)->0 =~= Seq::<usize>::empty());
    }
}

/// The first place a list holds a candidate it holds.
proof fn lemma_first_index(elements: Seq<FightActorRef>, candidate: FightActorRef)
    requires
        elements.contains(candidate),
    ensures
        0 <= first_index(elements, candidate) < elements.len(),
        elements[first_index(elements, candidate)] == candidate,
{
    let i = choose|i: int| 0 <= i < elements.len() && elements[i] == candidate;
    lemma_first_element_exists(elements, candidate, i);
}

proof fn lemma_first_element_exists(elements: Seq<FightActorRef>, candidate: FightActorRef, bound: int)
    requires
        0 <= bound < elements.len(),
        elements[bound] == candidate,
    ensures
        exists|i: int|
            0 <= i < elements.len() && elements[i] == candidate && forall|j: int|
                0 <= j < i ==> #[trigger] elements[j] != candidate,
    decreases bound,
{
    if exists|j: int| 0 <= j < bound && #[trigger] elements[j] == candidate {
        let j = choose|j: int| 0 <= j < bound && #[trigger] elements[j] == candidate;
        lemma_first_element_exists(elements, candidate, j);
    }
}

/// Taking a candidate out of the node that lists it leaves one fewer.
proof fn lemma_removed_contents(node: QuadNode, path: Seq<usize>, candidate: FightActorRef)
    requires
        view_at(node, path).elements.contains(candidate),
    ensures
        view_contents(removed_at(node, path, candidate)) == view_contents(node).remove(candidate),
    decreases path.len(),
{
    if path.len() == 0 || node.children.len() != 4 || path[0] >= 4 {
        lemma_first_index(node.elements, candidate);
        let i = first_index(node.elements, candidate);
        vstd::seq_lib::to_multiset_remove(node.elements, i);
        let after = removed_at(node, path, candidate);
        assert(after.elements.to_multiset() =~= node.elements.to_multiset().remove(candidate));
        assert(node.elements.to_multiset().count(candidate) > 0);
        if node.children.len() == 4 {
            assert(view_contents(after) =~= view_contents(node).remove(candidate));
        } else {
            assert(view_contents(after) =~= view_contents(node).remove(candidate));
        }
    } else {
        let k = path[0] as int;
        lemma_removed_contents(node.children[k], path.skip(1), candidate);
        let after = removed_at(node, path, candidate);
        assert(after.children[k] == removed_at(node.children[k], path.skip(1), candidate));
        assert(view_contents(node.children[k]).count(candidate) > 0) by {
            assert(view_contents(removed_at(node.children[k], path.skip(1), candidate)) == view_contents(
                node.children[k],
            ).remove(candidate));
            lemma_view_at_holds(node.children[k], path.skip(1), candidate);
        }
        assert(view_contents(after) =~= view_contents(node).remove(candidate));
    }
}

/// What the node at a path lists, the node holds.
proof fn lemma_view_at_holds(node: QuadNode, path: Seq<usize>, candidate: FightActorRef)
    requires
        view_at(node, path).elements.contains(candidate),
    ensures
        view_contents(node).count(candidate) > 0,
    decreases path.len(),
{
    if path.len() == 0 || node.children.len() != 4 || path[0] >= 4 {
        assert(node.elements.to_multiset().count(candidate) > 0);
    } else {
        lemma_view_at_holds(node.children[path[0] as int], path.skip(1), candidate);
    }
}


/// Taking an element out keeps every element within its node.
proof fn lemma_removed_within(
    node: QuadNode,
    path: Seq<usize>,
    candidate: FightActorRef,
    ranges: Seq<(FightActorRef, TargetActorRect)>,
    top: bool,
)
    requires
        holds_within(node, ranges, top),
        view_at(node, path).elements.contains(candidate),
    ensures
        holds_within(removed_at(node, path, candidate), ranges, top),
    decreases path.len(),
{
    let after = removed_at(node, path, candidate);
    if path.len() == 0 || node.children.len() != 4 || path[0] >= 4 {
        lemma_first_index(node.elements, candidate);
        let i = first_index(node.elements, candidate);
        if !top {
            assert forall|j: int| 0 <= j < after.elements.len() implies rect_contains(
                after.rect,
                range_spec(ranges, #[trigger] after.elements[j]),
            ) by {
                let from = if j < i { j } else { j + 1 };
                assert(after.elements[j] == node.elements[from]);
            }
        }
    } else {
        let k = path[0] as int;
        lemma_removed_within(node.children[k], path.skip(1), candidate, ranges, false);
        assert(after.children[k] == removed_at(node.children[k], path.skip(1), candidate));
    }
}

/// A node whose removal holds every element within its node, and whose
/// listing node's box contains the candidate's range unless it is the top,
/// holds every element within its node.
proof fn lemma_readded_within(
    node: QuadNode,
    path: Seq<usize>,
    candidate: FightActorRef,
    ranges: Seq<(FightActorRef, TargetActorRect)>,
    top: bool,
)
    requires
        holds_within(removed_at(node, path, candidate), ranges, top),
        view_at(node, path).elements.contains(candidate),
        (path.len() > 0 || !top) ==> rect_contains(view_at(node, path).rect, range_spec(ranges, candidate)),
    ensures
        holds_within(node, ranges, top),
    decreases path.len(),
{
    let after = removed_at(node, path, candidate);
    if path.len() == 0 || node.children.len() != 4 || path[0] >= 4 {
        lemma_first_index(node.elements, candidate);
        let i = first_index(node.elements, candidate);
        if !top {
            assert forall|j: int| 0 <= j < node.elements.len() implies rect_contains(
                node.rect,
                range_spec(ranges, #[trigger] node.elements[j]),
            ) by {
                if j < i {
                    assert(after.elements[j] == node.elements[j]);
                } else if j > i {
                    assert(after.elements[j - 1] == node.elements[j]);
                }
            }
        }
        if node.children.len() == 4 {
            assert(after.children == node.children);
        }
    } else {
        let k = path[0] as int;
        assert(after.children[k] == removed_at(node.children[k], path.skip(1), candidate));
        lemma_readded_within(node.children[k], path.skip(1), candidate, ranges, false);
        if !top {
            assert forall|j: int| 0 <= j < node.elements.len() implies rect_contains(
                node.rect,
                range_spec(ranges, #[trigger] node.elements[j]),
            ) by {
                assert(after.elements[j] == node.elements[j]);
            }
        }
        assert(node.children[0] == after.children[0] || k == 0);
        assert(node.children[1] == after.children[1] || k == 1);
        assert(node.children[2] == after.children[2] || k == 2);
        assert(node.children[3] == after.children[3] || k == 3);
    }
}

/// Whether two lists of boxes give every candidate but one the same box.
pub open spec fn agree_except(
    before: Seq<(FightActorRef, TargetActorRect)>,
    after: Seq<(FightActorRef, TargetActorRect)>,
    candidate: FightActorRef,
) -> bool {
    forall|other: FightActorRef|
        other != candidate && ranged(before, other) ==> range_spec(after, other) == range_spec(before, other)
}

/// A node that does not hold the one candidate whose box changed keeps every
/// element within its node.
proof fn lemma_agree_within(
    node: QuadNode,
    candidate: FightActorRef,
    before: Seq<(FightActorRef, TargetActorRect)>,
    after: Seq<(FightActorRef, TargetActorRect)>,
    top: bool,
)
    requires
        holds_within(node, before, top),
        view_contents(node).count(candidate) == 0,
        all_ranged(before, view_contents(node)),
        agree_except(before, after, candidate),
    ensures
        holds_within(node, after, top),
    decreases node,
{
    if !top {
        assert forall|j: int| 0 <= j < node.elements.len() implies rect_contains(
            node.rect,
            range_spec(after, #[trigger] node.elements[j]),
        ) by {
            let e = node.elements[j];
            assert(node.elements.to_multiset().count(e) > 0);
            assert(view_contents(node).count(e) > 0);
            assert(e != candidate);
        }
    }
    if node.children.len() == 4 {
        let m = view_contents(node);
        assert forall|k: int| 0 <= k < 4 implies view_contents(#[trigger] node.children[k]).count(candidate) == 0
            && all_ranged(before, view_contents(node.children[k])) by {
            assert forall|c: FightActorRef| #[trigger] view_contents(node.children[k]).count(c) > 0 implies ranged(
                before,
                c,
            ) by {
                assert(m.count(c) > 0);
            }
        }
        lemma_agree_within(node.children[0], candidate, before, after, false);
        lemma_agree_within(node.children[1], candidate, before, after, false);
        lemma_agree_within(node.children[2], candidate, before, after, false);
        lemma_agree_within(node.children[3], candidate, before, after, false);
    }
}

/// Inserting at a node whose box contains the candidate's range, unless it
/// is the top, keeps every element within its node.
proof fn lemma_inserted_at_within(
    node: QuadNode,
    path: Seq<usize>,
    candidate: FightActorRef,
    ranges: Seq<(FightActorRef, TargetActorRect)>,
    top: bool,
)
    requires
        holds_within(node, ranges, top),
        (path.len() > 0 || !top) ==> rect_contains(view_at(node, path).rect, range_spec(ranges, candidate)),
    ensures
        holds_within(inserted_at(node, path, candidate, ranges), ranges, top),
    decreases path.len(),
{
    if path.len() == 0 || node.children.len() != 4 || path[0] >= 4 {
        lemma_inserted_within(node, candidate, ranges, top);
    } else {
        let k = path[0] as int;
        lemma_inserted_at_within(node.children[k], path.skip(1), candidate, ranges, false);
        let after = inserted_at(node, path, candidate, ranges);
        assert(after.children[k] == inserted_at(node.children[k], path.skip(1), candidate, ranges));
    }
}

/// Taking an element out changes no node's box or children.
proof fn lemma_removed_shape(node: QuadNode, path: Seq<usize>, candidate: FightActorRef, other: Seq<usize>)
    ensures
        view_at(removed_at(node, path, candidate), other).rect == view_at(node, other).rect,
        view_at(removed_at(node, path, candidate), other).children.len() == view_at(node, other).children.len(),
    decreases other.len(),
{
    let after = removed_at(node, path, candidate);
    if other.len() > 0 && node.children.len() == 4 && other[0] < 4 {
        let k = other[0] as int;
        if path.len() > 0 && path[0] < 4 && path[0] as int == k {
            lemma_removed_shape(node.children[k], path.skip(1), candidate, other.skip(1));
        } else {
            assert(after.children[k] == node.children[k]);
        }
    }
}

/// A path one step longer names a child of the node the path names.
proof fn lemma_view_at_push(node: QuadNode, path: Seq<usize>, k: usize)
    requires
        quarter_path(path),
        view_at(node, path).children.len() == 4,
        k < 4,
    ensures
        view_at(node, path.push(k)) == view_at(node, path).children[k as int],
    decreases path.len(),
{
    if path.len() == 0 {
        let longer = path.push(k);
        assert(longer.skip(1) =~= Seq::<usize>::empty());
        assert(longer[0] == k);
        assert(view_at(node, longer) == view_at(node.children[k as int], longer.skip(1)));
    } else {
        assert(path[0] < 4);
        assert(node.children.len() == 4) by {
            if node.children.len() != 4 {
                assert(view_at(node, path) == node);
            }
        }
        assert(path.push(k).skip(1) =~= path.skip(1).push(k));
        assert(quarter_path(path.skip(1))) by {
            assert forall|i: int| 0 <= i < path.skip(1).len() implies #[trigger] path.skip(1)[i] < 4 by {
                assert(path.skip(1)[i] == path[i + 1]);
            }
        }
        lemma_view_at_push(node.children[path[0] as int], path.skip(1), k);
        let longer = path.push(k);
        assert(longer[0] == path[0]);
        assert(view_at(node, longer) == view_at(node.children[path[0] as int], longer.skip(1)));
        assert(view_at(node, path) == view_at(node.children[path[0] as int], path.skip(1)));
    }
}

/// Climbing stops at the root or at a node whose box contains the range.
proof fn lemma_climbed(node: QuadNode, path: Seq<usize>, range: TargetActorRect)
    ensures
        climbed(node, path, range).len() > 0 ==> rect_contains(view_at(node, climbed(node, path, range)).rect, range),
    decreases path.len(),
{
    if path.len() > 0 && !rect_contains(view_at(node, path).rect, range) {
        lemma_climbed(node, path.drop_last(), range);
    }
}

/// A move keeps every element held below the root inside a node whose box
/// contains its range, when the tree held the moved candidate once, every
/// candidate it holds has a box, and only the moved candidate's box changed.
pub proof fn lemma_a_move_keeps_elements_within_their_nodes(
    root: QuadNode,
    candidate: FightActorRef,
    range: TargetActorRect,
    before: Seq<(FightActorRef, TargetActorRect)>,
    after: Seq<(FightActorRef, TargetActorRect)>,
)
    requires
        holds_within(root, before, true),
        view_contents(root).count(candidate) == 1,
        all_ranged(before, view_contents(root)),
        agree_except(before, after, candidate),
        range_spec(after, candidate) == range,
    ensures
        preorder_path(root, candidate) is Some,
        holds_within(moved(root, preorder_path(root, candidate)->0, candidate, range, after), after, true),
{
    assert(preorder_path(root, candidate) is Some) by {
        lemma_preorder_path_found(root, candidate);
    }
    lemma_preorder_path(root, candidate);
    let path = preorder_path(root, candidate)->0;
    let removed = removed_at(root, path, candidate);
    lemma_removed_contents(root, path, candidate);
    lemma_removed_within(root, path, candidate, before, true);
    assert(all_ranged(before, view_contents(removed))) by {
        assert forall|c: FightActorRef| #[trigger] view_contents(removed).count(c) > 0 implies ranged(before, c) by {
            assert(view_contents(root).count(c) > 0);
        }
    }
    lemma_agree_within(removed, candidate, before, after, true);
    let node = view_at(root, path);
    if rect_contains(node.rect, range) {
        match first_fit(node.children, range) {
            None => {
                lemma_readded_within(root, path, candidate, after, true);
            },
            Some(k) => {
                lemma_view_at_push(root, path, k);
                lemma_removed_shape(root, path, candidate, path.push(k));
                lemma_inserted_at_within(removed, path.push(k), candidate, after, true);
            },
        }
    } else if path.len() == 0 {
        lemma_readded_within(root, path, candidate, after, true);
    } else {
        lemma_climbed(removed, path, range);
        lemma_inserted_at_within(removed, climbed(removed, path, range), candidate, after, true);
    }
}

/// A candidate a node holds is found by the pre-order search.
proof fn lemma_preorder_path_found(node: QuadNode, candidate: FightActorRef)
    requires
        view_contents(node).count(candidate) > 0,
    ensures
        preorder_path(node, candidate) is Some,
    decreases node,
{
    if !node.elements.contains(candidate) {
        assert(node.elements.to_multiset().count(candidate) == 0);
        assert(node.children.len() == 4);
        if view_contents(node.children[0]).count(candidate) > 0 {
            lemma_preorder_path_found(node.children[0], candidate);
        } else if view_contents(node.children[1]).count(candidate) > 0 {
            lemma_preorder_path_found(node.children[1], candidate);
        } else if view_contents(node.children[2]).count(candidate) > 0 {
            lemma_preorder_path_found(node.children[2], candidate);
        } else {
            lemma_preorder_path_found(node.children[3], candidate);
        }
    }
}


/// Adding a candidate the tree did not hold, with a box of its own, keeps
/// every element held below the root inside a node whose box contains its
/// range, whether it goes into the tree or, off the board, into the root's
/// own list.
pub proof fn lemma_a_fresh_insert_keeps_elements_within_their_nodes(
    root: QuadNode,
    candidate: FightActorRef,
    range: TargetActorRect,
    before: Seq<(FightActorRef, TargetActorRect)>,
    after: Seq<(FightActorRef, TargetActorRect)>,
)
    requires
        holds_within(root, before, true),
        view_contents(root).count(candidate) == 0,
        all_ranged(before, view_contents(root)),
        agree_except(before, after, candidate),
        range_spec(after, candidate) == range,
    ensures
        holds_within(
            if rect_contains(root.rect, range) {
                inserted(root, candidate, after)
            } else {
                QuadNode { elements: root.elements.push(candidate), ..root }
            },
            after,
            true,
        ),
{
    lemma_agree_within(root, candidate, before, after, true);
    if rect_contains(root.rect, range) {
        lemma_inserted_within(root, candidate, after, true);
    } else {
        let pushed = QuadNode { elements: root.elements.push(candidate), ..root };
        assert(pushed.children == root.children);
    }
}


/// Whether each child lies deeper than its parent, all the way down.
pub open spec fn grows(node: QuadNode) -> bool
    decreases node,
{
    node.children.len() == 4 ==> {
        &&& node.children[0].depth > node.depth && grows(node.children[0])
        &&& node.children[1].depth > node.depth && grows(node.children[1])
        &&& node.children[2].depth > node.depth && grows(node.children[2])
        &&& node.children[3].depth > node.depth && grows(node.children[3])
    }
}

/// Handing a split node's elements down keeps what it holds.
proof fn lemma_distributed_contents(node: QuadNode, ranges: Seq<(FightActorRef, TargetActorRect)>, index: int)
    requires
        node.children.len() == 4,
        grows(node),
    ensures
        view_contents(distributed(node, ranges, index)) == view_contents(node),
        distributed(node, ranges, index).children.len() == 4,
        grows(distributed(node, ranges, index)),
        distributed(node, ranges, index).depth == node.depth,
    decreases 255 - node.depth as int, 1int, index,
{
    if !(index <= 0 || index > node.elements.len()) {
        let i = index - 1;
        let element = node.elements[i];
        match first_fit(node.children, range_spec(ranges, element)) {
            Some(k) => {
                let child = node.children[k as int];
                lemma_inserted_contents(child, element, ranges);
                let next = QuadNode {
                    elements: node.elements.remove(i),
                    children: node.children.update(k as int, inserted(child, element, ranges)),
                    ..node
                };
                vstd::seq_lib::to_multiset_remove(node.elements, i);
                assert(next.elements.to_multiset() =~= node.elements.to_multiset().remove(element));
                assert(node.elements.to_multiset().count(element) > 0);
                assert(next.children[k as int] == inserted(child, element, ranges));
                assert(view_contents(next) =~= view_contents(node));
                assert(grows(next));
                lemma_distributed_contents(next, ranges, i);
            },
            None => lemma_distributed_contents(node, ranges, i),
        }
    }
}

/// Inserting a candidate holds what the node held, and the candidate once
/// more, in a node each of whose children lies deeper than its parent.
pub proof fn lemma_inserted_contents(node: QuadNode, candidate: FightActorRef, ranges: Seq<(FightActorRef, TargetActorRect)>)
    requires
        grows(node),
    ensures
        view_contents(inserted(node, candidate, ranges)) == view_contents(node).insert(candidate),
        grows(inserted(node, candidate, ranges)),
        inserted(node, candidate, ranges).depth == node.depth,
    decreases 255 - node.depth as int, 2int, 0int,
{
    let range = range_spec(ranges, candidate);
    let after = inserted(node, candidate, ranges);
    match first_fit(node.children, range) {
        Some(k) => {
            lemma_inserted_contents(node.children[k as int], candidate, ranges);
            assert(after.children[k as int] == inserted(node.children[k as int], candidate, ranges));
            assert(view_contents(after) =~= view_contents(node).insert(candidate));
        },
        None => if node.children.len() == 0 && node.depth < TARGET_QUADTREE_MAX_DEPTH && node.elements.len() + 1
            >= TARGET_QUADTREE_MAX_ELEMENTS {
            let quarters = rect_children(node.rect);
            let split = QuadNode {
                children: seq![
                    empty_leaf(quarters[0], (node.depth + 1) as u8),
                    empty_leaf(quarters[1], (node.depth + 1) as u8),
                    empty_leaf(quarters[2], (node.depth + 1) as u8),
                    empty_leaf(quarters[3], (node.depth + 1) as u8),
                ],
                ..node
            };
            assert forall|k: int| 0 <= k < 4 implies view_contents(#[trigger] split.children[k]) =~= Multiset::<
                FightActorRef,
            >::empty() && grows(split.children[k]) && split.children[k].depth == node.depth + 1 by {
                assert(split.children[k].elements =~= Seq::<FightActorRef>::empty());
                assert(split.children[k].children.len() == 0);
            }
            assert(view_contents(split.children[0]) =~= Multiset::<FightActorRef>::empty());
            assert(view_contents(split.children[1]) =~= Multiset::<FightActorRef>::empty());
            assert(view_contents(split.children[2]) =~= Multiset::<FightActorRef>::empty());
            assert(view_contents(split.children[3]) =~= Multiset::<FightActorRef>::empty());
            assert(view_contents(split) =~= view_contents(node));
            assert(grows(split));
            lemma_distributed_contents(split, ranges, node.elements.len() as int);
            let spread = distributed(split, ranges, node.elements.len() as int);
            match first_fit(spread.children, range) {
                Some(k) => {
                    lemma_inserted_contents(spread.children[k as int], candidate, ranges);
                    assert(after.children[k as int] == inserted(spread.children[k as int], candidate, ranges));
                    assert(view_contents(after) =~= view_contents(node).insert(candidate));
                },
                None => {
                    assert(view_contents(after) =~= view_contents(node).insert(candidate));
                },
            }
        } else {
            assert(view_contents(after) =~= view_contents(node).insert(candidate));
        },
    }
}

} // verus!
