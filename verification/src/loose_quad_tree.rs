//! A loose quadtree over an arena of nodes.
//!
//! The tree covers the box from the origin to its size. A node's cell is
//! split into four equal quadrants, whose nodes lie side by side in the
//! arena. An item goes down toward the quadrant that holds its centre for as
//! long as it is no larger than that quadrant, and is kept at the node where
//! it stops. It may hang over the edge of the cell it is kept in, but by no
//! more than half the cell's size, so a query looks into a quadrant whenever
//! its box doubled about the centre meets the query.
//!
//! Clearing the tree costs one step: it starts a new generation, and a node
//! of an older generation counts as empty until an insertion passes it.

use vstd::prelude::*;
use vstd::multiset::Multiset;
use vstd::seq_lib::to_multiset_build;
use crate::aabb::{Aabb, Box2};
use crate::vector::{Vec2, Vector2, COORDINATE_LIMIT};

verus! {

struct Node<T> {
    items: Vec<(Aabb, T)>,
    child_offset: Option<usize>,
    seq: u64,
    /// Everything kept at this node or below it.
    below: Ghost<Multiset<(Aabb, T)>>,
    /// The part of the plane that this node stands for.
    cell: Ghost<Box2>,
}

/// A spatial index of boxes, each with a value.
pub struct LooseQuadTree<T> {
    seq: u64,
    nodes: Vec<Node<T>>,
    size: Vector2,
    next_free: usize,
}

/// The quadrant of `cell` with the given number: top left, top right, bottom
/// left, bottom right.
pub open spec fn quadrant_cell(cell: Box2, quadrant: int) -> Box2 {
    cell.quadrant(quadrant == 1 || quadrant == 3, quadrant >= 2)
}

/// A cell can be split where both its sides are even and not zero: then its
/// quadrants tile it.
pub open spec fn splittable(cell: Box2) -> bool {
    &&& cell.size.x >= 2
    &&& cell.size.y >= 2
    &&& cell.size.x % 2 == 0
    &&& cell.size.y % 2 == 0
}

/// The centre of `item` lies in `cell`, its right and bottom sides left out.
pub open spec fn centre_in(cell: Box2, item: Box2) -> bool {
    &&& cell.top_left.x <= item.centre().x < cell.top_left.x + cell.size.x
    &&& cell.top_left.y <= item.centre().y < cell.top_left.y + cell.size.y
}

/// The item belongs in the cell: its centre lies there and it is no larger.
pub open spec fn fits(cell: Box2, item: Box2) -> bool {
    &&& centre_in(cell, item)
    &&& 0 <= item.size.x <= cell.size.x
    &&& 0 <= item.size.y <= cell.size.y
}

/// An item goes no further down than a node where it is too large for a
/// quadrant of the node's cell, where the cell cannot be split, or where the
/// arena has no room for the quadrants.
pub open spec fn stops_at(cell: Box2, item: Box2, has_room: bool) -> bool {
    ||| item.size.x > cell.half_size().x
    ||| item.size.y > cell.half_size().y
    ||| !splittable(cell)
    ||| !has_room
}

/// An item that belongs in a cell lies within the cell doubled about its
/// centre.
pub proof fn lemma_loose_bound(cell: Box2, item: Box2)
    requires
        fits(cell, item),
    ensures
        cell.doubled_about_centre().covers(item),
{
}

/// `after` is `before` and what a query for `query` picks from `stored`:
/// nothing but stored items that meet the query, none more often than it is
/// stored, and every one whose centre lies in `root` as often as it is
/// stored.
pub open spec fn picked<T>(
    before: Multiset<(Aabb, T)>,
    after: Multiset<(Aabb, T)>,
    stored: Multiset<(Aabb, T)>,
    query: Box2,
    root: Box2,
) -> bool {
    forall|p: (Aabb, T)|
        {
            &&& before.count(p) <= #[trigger] after.count(p)
            &&& after.count(p) <= before.count(p) + stored.count(p)
            &&& (!p.0@.intersects(query) ==> after.count(p) == before.count(p))
            &&& (p.0@.intersects(query) && centre_in(root, p.0@) ==> after.count(p)
                == before.count(p) + stored.count(p))
        }
}

impl<T: Copy> LooseQuadTree<T> {
    spec fn live(self, i: int) -> bool {
        0 <= i < self.nodes.len() && self.nodes[i].seq == self.seq
    }

    spec fn below_of(self, i: int) -> Multiset<(Aabb, T)> {
        if self.live(i) {
            self.nodes[i].below@
        } else {
            Multiset::empty()
        }
    }

    spec fn children_below(self, c: int) -> Multiset<(Aabb, T)> {
        self.below_of(c).add(self.below_of(c + 1)).add(self.below_of(c + 2)).add(
            self.below_of(c + 3),
        )
    }

    /// The node has quadrants, or the arena has room for them.
    spec fn has_room(self, i: int) -> bool {
        self.nodes[i].child_offset.is_some() || self.next_free <= usize::MAX - 4
    }

    /// What holds of a live node. The node `pending` has been promised
    /// `item`, which is counted below it but not yet kept anywhere. What is
    /// kept at a node is kept there because it could go no further down.
    spec fn node_wf(self, i: int, pending: int, item: (Aabb, T)) -> bool {
        let node = self.nodes[i];
        let extra = if i == pending {
            Multiset::singleton(item)
        } else {
            Multiset::empty()
        };
        &&& i < self.next_free
        &&& node.cell@.within(COORDINATE_LIMIT as int)
        &&& (i == 0 ==> node.cell@ == self.root())
        &&& match node.child_offset {
            Some(c) => {
                &&& i < c
                &&& c + 4 <= self.next_free
                &&& (c - 1) % 4 == 0
                &&& splittable(node.cell@)
                &&& forall|q: int|
                    0 <= q < 4 && #[trigger] self.live(c + q) ==> self.nodes[c + q].cell@
                        == quadrant_cell(node.cell@, q)
                &&& node.below@ =~= node.items@.to_multiset().add(self.children_below(c as int)).add(
                    extra,
                )
            },
            None => node.below@ =~= node.items@.to_multiset().add(extra),
        }
        &&& forall|p: (Aabb, T)|
            #[trigger] node.below@.count(p) > 0 && i != 0 && centre_in(self.root(), p.0@) ==> fits(
                node.cell@,
                p.0@,
            )
        &&& forall|k: int|
            0 <= k < node.items.len() ==> stops_at(
                node.cell@,
                (#[trigger] node.items@[k]).0@,
                self.has_room(i),
            )
    }

    spec fn wf_pending(self, pending: int, item: (Aabb, T)) -> bool {
        &&& self.seq >= 1
        &&& self.nodes.len() >= 1
        &&& self.next_free >= 1
        &&& (self.next_free - 1) % 4 == 0
        &&& 0 <= self.size.x <= COORDINATE_LIMIT
        &&& 0 <= self.size.y <= COORDINATE_LIMIT
        &&& forall|i: int| 0 <= i < self.nodes.len() ==> (#[trigger] self.nodes[i]).seq <= self.seq
        &&& forall|i: int| #[trigger] self.live(i) ==> self.node_wf(i, pending, item)
        &&& forall|i: int, j: int|
            #![trigger self.live(i), self.live(j)]
            self.live(i) && self.live(j) && i != j && self.nodes[i].child_offset.is_some()
                && self.nodes[j].child_offset.is_some() ==> self.nodes[i].child_offset
                != self.nodes[j].child_offset
    }

    /// The arena is a tree of the current generation, every node counts
    /// what is kept at it and below it, and what is kept at a node is what
    /// could go no further down from there.
    pub closed spec fn wf(self) -> bool {
        self.wf_pending(-1, arbitrary())
    }

    /// The box that the tree covers.
    pub closed spec fn root(self) -> Box2 {
        Box2 { top_left: Vec2 { x: 0, y: 0 }, size: self.size@ }
    }

    /// The items in the tree.
    pub closed spec fn contents(self) -> Multiset<(Aabb, T)> {
        self.below_of(0)
    }

    /// The centre of the box lies in the box that the tree covers. A query
    /// finds every such item that it meets.
    pub open spec fn well_placed(self, aabb: Aabb) -> bool {
        centre_in(self.root(), aabb@)
    }

    /// An empty tree over the box from the origin to `size`.
    pub fn new(size: Vector2) -> (tree: Self)
        requires
            0 <= size.x <= COORDINATE_LIMIT,
            0 <= size.y <= COORDINATE_LIMIT,
        ensures
            tree.wf(),
            tree.contents() =~= Multiset::empty(),
            tree.root() == (Box2 { top_left: Vec2 { x: 0, y: 0 }, size: size@ }),
    {
        let mut nodes: Vec<Node<T>> = Vec::new();
        nodes.push(Self::stale_node());
        Self { seq: 1, nodes, size, next_free: 1 }
    }

    fn stale_node() -> (node: Node<T>)
        ensures
            node.seq == 0,
    {
        Node {
            items: Vec::new(),
            child_offset: None,
            seq: 0,
            below: Ghost(Multiset::empty()),
            cell: Ghost(Box2 { top_left: Vec2 { x: 0, y: 0 }, size: Vec2 { x: 0, y: 0 } }),
        }
    }

    /// Empties the tree in one step. The nodes stay in the arena for the
    /// next generation to use.
    pub fn clear(&mut self)
        requires
            old(self).wf(),
        ensures
            final(self).wf(),
            final(self).contents() =~= Multiset::empty(),
            final(self).root() == old(self).root(),
    {
        if self.seq == u64::MAX {
            // The generations are used up: start over with a fresh arena.
            let mut nodes: Vec<Node<T>> = Vec::new();
            nodes.push(Self::stale_node());
            self.nodes = nodes;
            self.seq = 1;
            self.next_free = 1;
        } else {
            self.seq += 1;
            self.next_free = 1;
            self.nodes[0].items.clear();
            self.nodes[0].child_offset = None;
            self.nodes[0].seq = self.seq;
            self.nodes[0].below = Ghost(Multiset::empty());
            self.nodes[0].cell = Ghost(self.root());
            proof {
                assert(self.nodes[0].items@.to_multiset() =~= Multiset::empty()) by {
                    self.nodes[0].items@.to_multiset_ensures();
                }
                assert forall|i: int| #[trigger] self.live(i) implies i == 0 by {
                    if i != 0 {
                        assert(self.nodes[i] == old(self).nodes[i]);
                        assert(old(self).nodes[i].seq <= old(self).seq);
                    }
                }
            }
        }
    }

    /// Makes sure that the arena reaches `index`.
    fn materialise(&mut self, index: usize)
        ensures
            final(self).nodes.len() > index,
            final(self).nodes.len() >= old(self).nodes.len(),
            final(self).seq == old(self).seq,
            final(self).size == old(self).size,
            final(self).next_free == old(self).next_free,
            forall|j: int|
                0 <= j < old(self).nodes.len() ==> final(self).nodes[j] == old(self).nodes[j],
            forall|j: int|
                old(self).nodes.len() <= j < final(self).nodes.len() ==> (
                #[trigger] final(self).nodes[j]).seq == 0,
    {
        while self.nodes.len() <= index
            invariant
                self.nodes.len() >= old(self).nodes.len(),
                self.seq == old(self).seq,
                self.size == old(self).size,
                self.next_free == old(self).next_free,
                forall|j: int| 0 <= j < old(self).nodes.len() ==> self.nodes[j] == old(self).nodes[j],
                forall|j: int|
                    old(self).nodes.len() <= j < self.nodes.len() ==> (#[trigger] self.nodes[j]).seq
                        == 0,
            decreases index + 1 - self.nodes.len(),
        {
            self.nodes.push(Self::stale_node());
        }
    }

    /// Brings the node at `index` into the current generation, empty unless
    /// it is there already, and counts `item` below it.
    fn promise(&mut self, index: usize, cell: Ghost<Box2>, item: Ghost<(Aabb, T)>)
        requires
            index < old(self).nodes.len(),
        ensures
            final(self).nodes.len() == old(self).nodes.len(),
            final(self).seq == old(self).seq,
            final(self).size == old(self).size,
            final(self).next_free == old(self).next_free,
            forall|j: int|
                0 <= j < old(self).nodes.len() && j != index ==> final(self).nodes[j] == old(
                    self,
                ).nodes[j],
            final(self).nodes[index as int].seq == old(self).seq,
            old(self).live(index as int) ==> {
                &&& final(self).nodes[index as int].items@ == old(self).nodes[index as int].items@
                &&& final(self).nodes[index as int].child_offset == old(
                    self,
                ).nodes[index as int].child_offset
                &&& final(self).nodes[index as int].cell@ == old(self).nodes[index as int].cell@
                &&& final(self).nodes[index as int].below@ == old(
                    self,
                ).nodes[index as int].below@.insert(item@)
            },
            !old(self).live(index as int) ==> {
                &&& final(self).nodes[index as int].items@ == Seq::<(Aabb, T)>::empty()
                &&& final(self).nodes[index as int].child_offset.is_none()
                &&& final(self).nodes[index as int].cell@ == cell@
                &&& final(self).nodes[index as int].below@ == Multiset::<(Aabb, T)>::empty().insert(
                    item@,
                )
            },
    {
        if self.nodes[index].seq != self.seq {
            self.nodes[index].items.clear();
            self.nodes[index].child_offset = None;
            self.nodes[index].seq = self.seq;
            self.nodes[index].below = Ghost(Multiset::empty());
            self.nodes[index].cell = cell;
        }
        let ghost below = self.nodes[index as int].below@.insert(item@);
        self.nodes[index].below = Ghost(below);
    }

    /// Puts `t` into the tree under the box `aabb`.
    ///
    /// The item goes down from the root toward the quadrant that holds its
    /// centre while it is no larger than that quadrant, the cell can be split
    /// evenly, and the arena has room for the quadrants.
    pub fn insert(&mut self, aabb: Aabb, t: T)
        requires
            old(self).wf(),
            aabb.in_range(),
        ensures
            final(self).wf(),
            final(self).contents() =~= old(self).contents().insert((aabb, t)),
            final(self).root() == old(self).root(),
    {
        let ghost item = (aabb, t);
        let ghost root = self.root();
        let size = aabb.size();
        let centre = aabb.centre();
        let mut index: usize = 0;
        let mut cell_origin = Vector2::zero();
        let mut cell_size = self.size;
        proof {
            assert(self.live(0) ==> self.node_wf(0, -1, arbitrary()));
        }
        self.promise(0, Ghost(root), Ghost(item));
        proof {
            assert(Multiset::<(Aabb, T)>::empty().insert(item) =~= Multiset::singleton(item));
            assert(Seq::<(Aabb, T)>::empty().to_multiset() =~= Multiset::empty()) by {
                Seq::<(Aabb, T)>::empty().to_multiset_ensures();
            }
            assert forall|i: int| #[trigger] self.live(i) implies self.node_wf(i, 0, item) by {
                if i != 0 {
                    assert(old(self).live(i));
                    assert(old(self).node_wf(i, -1, arbitrary()));
                    let node = self.nodes[i];
                    if node.child_offset.is_some() {
                        let c = node.child_offset.unwrap() as int;
                        assert(c > 0);
                        assert(self.below_of(c) == old(self).below_of(c));
                        assert(self.below_of(c + 1) == old(self).below_of(c + 1));
                        assert(self.below_of(c + 2) == old(self).below_of(c + 2));
                        assert(self.below_of(c + 3) == old(self).below_of(c + 3));
                        assert forall|q: int| 0 <= q < 4 && #[trigger] self.live(c + q) implies
                            self.nodes[c + q].cell@ == quadrant_cell(node.cell@, q) by {
                            assert(old(self).live(c + q));
                        }
                    }
                } else {
                    let node = self.nodes[0];
                    if old(self).live(0) {
                        assert(old(self).node_wf(0, -1, arbitrary()));
                        if node.child_offset.is_some() {
                            let c = node.child_offset.unwrap() as int;
                            assert(self.below_of(c) == old(self).below_of(c));
                            assert(self.below_of(c + 1) == old(self).below_of(c + 1));
                            assert(self.below_of(c + 2) == old(self).below_of(c + 2));
                            assert(self.below_of(c + 3) == old(self).below_of(c + 3));
                            assert forall|q: int| 0 <= q < 4 && #[trigger] self.live(c + q) implies
                                self.nodes[c + q].cell@ == quadrant_cell(node.cell@, q) by {
                                assert(old(self).live(c + q));
                            }
                        }
                    }
                }
            }
            assert forall|i: int, j: int|
                #![trigger self.live(i), self.live(j)]
                self.live(i) && self.live(j) && i != j && self.nodes[i].child_offset.is_some()
                    && self.nodes[j].child_offset.is_some() implies self.nodes[i].child_offset
                != self.nodes[j].child_offset by {
                assert(old(self).live(i) && old(self).live(j));
            }
        }
        loop
            invariant_except_break
                self.wf_pending(index as int, item),
                self.live(index as int),
                self.nodes[index as int].cell@ == (Box2 { top_left: cell_origin@, size: cell_size@ }),
                index != 0 && centre_in(root, aabb@) ==> fits(self.nodes[index as int].cell@, aabb@),
            invariant
                self.below_of(0) =~= old(self).contents().insert(item),
                self.root() == root,
                root == old(self).root(),
                item == (aabb, t),
                aabb.in_range(),
                size@ == aabb@.size,
                centre@ == aabb@.centre(),
            ensures
                self.wf_pending(-1, item),
            decreases cell_size.x,
        {
            proof {
                assert(self.node_wf(index as int, index as int, item));
            }
            let half = Vector2::new(cell_size.x / 2, cell_size.y / 2);
            let can_split = cell_size.x >= 2 && cell_size.y >= 2 && cell_size.x % 2 == 0
                && cell_size.y % 2 == 0;
            let has_room = self.nodes[index].child_offset.is_some() || (self.next_free
                <= usize::MAX - 4);
            if size.x > half.x || size.y > half.y || !can_split || !has_room {
                let ghost before = *self;
                self.nodes[index].items.push((aabb, t));
                proof {
                    to_multiset_build(before.nodes[index as int].items@, item);
                    Self::lemma_settled(before, *self, index as int, item);
                }
                break ;
            }
            let ghost before = *self;
            let child_offset: usize = match self.nodes[index].child_offset {
                Some(c) => c,
                None => {
                    let free = self.next_free;
                    self.next_free = self.next_free + 4;
                    self.nodes[index].child_offset = Some(free);
                    free
                },
            };
            proof {
                Self::lemma_linked(before, *self, index as int, item);
            }
            let right = centre.x >= cell_origin.x + half.x;
            let bottom = centre.y >= cell_origin.y + half.y;
            let quadrant: usize = if bottom {
                if right {
                    3
                } else {
                    2
                }
            } else {
                if right {
                    1
                } else {
                    0
                }
            };
            let child: usize = child_offset + quadrant;
            let child_origin = Vector2::new(
                if right {
                    cell_origin.x + half.x
                } else {
                    cell_origin.x
                },
                if bottom {
                    cell_origin.y + half.y
                } else {
                    cell_origin.y
                },
            );
            let ghost child_cell = quadrant_cell(self.nodes[index as int].cell@, quadrant as int);
            let ghost linked = *self;
            self.materialise(child);
            let ghost grown = *self;
            self.promise(child, Ghost(child_cell), Ghost(item));
            proof {
                assert(child_cell == (Box2 { top_left: child_origin@, size: half@ }));
                assert(centre_in(root, aabb@) ==> fits(child_cell, aabb@));
                Self::lemma_descended(
                    linked,
                    grown,
                    *self,
                    index as int,
                    child as int,
                    child_cell,
                    item,
                );
            }
            index = child;
            cell_origin = child_origin;
            cell_size = half;
        }
        proof {
            Self::lemma_pending_nowhere(*self, item, arbitrary());
        }
    }

    /// Where nothing is pending it does not matter which item is not.
    proof fn lemma_pending_nowhere(tree: Self, a: (Aabb, T), b: (Aabb, T))
        requires
            tree.wf_pending(-1, a),
        ensures
            tree.wf_pending(-1, b),
    {
        assert forall|i: int| #[trigger] tree.live(i) implies tree.node_wf(i, -1, b) by {
            assert(tree.node_wf(i, -1, a));
        }
    }

    /// Keeping the promised item at the node that it was promised to settles
    /// the account.
    proof fn lemma_settled(before: Self, after: Self, index: int, item: (Aabb, T))
        requires
            before.wf_pending(index, item),
            before.live(index),
            after.seq == before.seq,
            after.size == before.size,
            after.next_free == before.next_free,
            after.nodes.len() == before.nodes.len(),
            forall|j: int|
                0 <= j < before.nodes.len() && j != index ==> after.nodes[j] == before.nodes[j],
            after.nodes[index].seq == before.nodes[index].seq,
            after.nodes[index].child_offset == before.nodes[index].child_offset,
            after.nodes[index].below == before.nodes[index].below,
            after.nodes[index].cell == before.nodes[index].cell,
            after.nodes[index].items@.to_multiset() =~= before.nodes[index].items@.to_multiset().insert(
                item,
            ),
            after.nodes[index].items@ == before.nodes[index].items@.push(item),
            stops_at(before.nodes[index].cell@, item.0@, before.has_room(index)),
        ensures
            after.wf_pending(-1, item),
            after.below_of(0) == before.below_of(0),
            after.root() == before.root(),
    {
        assert forall|i: int| after.live(i) == before.live(i) by {}
        assert forall|i: int| after.below_of(i) == before.below_of(i) by {}
        assert forall|i: int| #[trigger] after.live(i) implies after.node_wf(i, -1, item) by {
            assert(before.live(i));
            assert(before.node_wf(i, index, item));
            let node = after.nodes[i];
            if node.child_offset.is_some() {
                let c = node.child_offset.unwrap() as int;
                assert(after.children_below(c) == before.children_below(c));
                assert forall|q: int| 0 <= q < 4 && #[trigger] after.live(c + q) implies
                    after.nodes[c + q].cell@ == quadrant_cell(node.cell@, q) by {
                    assert(before.live(c + q));
                }
            }
        }
        assert forall|i: int, j: int|
            #![trigger after.live(i), after.live(j)]
            after.live(i) && after.live(j) && i != j && after.nodes[i].child_offset.is_some()
                && after.nodes[j].child_offset.is_some() implies after.nodes[i].child_offset
            != after.nodes[j].child_offset by {
            assert(before.live(i) && before.live(j));
        }
    }

    /// Giving a node a block of quadrants from the end of the arena, where
    /// it had none, changes nothing that is counted.
    proof fn lemma_linked(before: Self, after: Self, index: int, item: (Aabb, T))
        requires
            before.wf_pending(index, item),
            before.live(index),
            splittable(before.nodes[index].cell@),
            after.seq == before.seq,
            after.size == before.size,
            after.nodes.len() == before.nodes.len(),
            forall|j: int|
                0 <= j < before.nodes.len() && j != index ==> after.nodes[j] == before.nodes[j],
            after.nodes[index].seq == before.nodes[index].seq,
            after.nodes[index].items == before.nodes[index].items,
            after.nodes[index].below == before.nodes[index].below,
            after.nodes[index].cell == before.nodes[index].cell,
            before.nodes[index].child_offset.is_some() ==> after.nodes[index].child_offset
                == before.nodes[index].child_offset && after.next_free == before.next_free,
            before.nodes[index].child_offset.is_none() ==> after.nodes[index].child_offset == Some(
                before.next_free,
            ) && after.next_free == before.next_free + 4,
            before.has_room(index),
        ensures
            after.wf_pending(index, item),
            after.live(index),
            after.nodes[index].child_offset.is_some(),
            after.below_of(0) == before.below_of(0),
            after.root() == before.root(),
    {
        assert forall|i: int| after.live(i) == before.live(i) by {}
        assert forall|i: int| after.below_of(i) == before.below_of(i) by {}
        assert forall|i: int| #[trigger] after.live(i) implies after.node_wf(i, index, item) by {
            assert(before.live(i));
            assert(before.node_wf(i, index, item));
            let node = after.nodes[i];
            if node.child_offset.is_some() {
                let c = node.child_offset.unwrap() as int;
                assert(after.children_below(c) == before.children_below(c));
                if i == index && before.nodes[index].child_offset.is_none() {
                    assert(c == before.next_free);
                    assert forall|q: int| 0 <= q < 4 implies !#[trigger] before.live(c + q) by {
                        if before.live(c + q) {
                            assert(before.node_wf(c + q, index, item));
                        }
                    }
                    assert(before.live(c + 0) == before.live(c));
                    assert(!before.live(c));
                    assert(!before.live(c + 1));
                    assert(!before.live(c + 2));
                    assert(!before.live(c + 3));
                    assert(after.children_below(c) =~= Multiset::empty());
                } else {
                    assert forall|q: int| 0 <= q < 4 && #[trigger] after.live(c + q) implies
                        after.nodes[c + q].cell@ == quadrant_cell(node.cell@, q) by {
                        assert(before.live(c + q));
                    }
                }
            }
        }
        assert forall|i: int, j: int|
            #![trigger after.live(i), after.live(j)]
            after.live(i) && after.live(j) && i != j && after.nodes[i].child_offset.is_some()
                && after.nodes[j].child_offset.is_some() implies after.nodes[i].child_offset
            != after.nodes[j].child_offset by {
            assert(before.live(i) && before.live(j));
            assert(before.node_wf(i, index, item));
            assert(before.node_wf(j, index, item));
        }
    }

    /// Passing the promise from a node to one of its quadrants keeps the
    /// account: the node counts the item below its quadrant, and the quadrant
    /// has it pending.
    proof fn lemma_descended(
        linked: Self,
        grown: Self,
        after: Self,
        index: int,
        child: int,
        child_cell: Box2,
        item: (Aabb, T),
    )
        requires
            linked.wf_pending(index, item),
            linked.live(index),
            linked.nodes[index].child_offset.is_some(),
            ({
                let c = linked.nodes[index].child_offset.unwrap() as int;
                c <= child < c + 4 && child_cell == quadrant_cell(linked.nodes[index].cell@, child - c)
            }),
            centre_in(linked.root(), item.0@) ==> fits(child_cell, item.0@),
            // the arena grew by stale nodes
            grown.nodes.len() > child,
            grown.nodes.len() >= linked.nodes.len(),
            grown.seq == linked.seq,
            grown.size == linked.size,
            grown.next_free == linked.next_free,
            forall|j: int| 0 <= j < linked.nodes.len() ==> grown.nodes[j] == linked.nodes[j],
            forall|j: int|
                linked.nodes.len() <= j < grown.nodes.len() ==> (#[trigger] grown.nodes[j]).seq == 0,
            // the quadrant was brought to life and promised the item
            after.nodes.len() == grown.nodes.len(),
            after.seq == grown.seq,
            after.size == grown.size,
            after.next_free == grown.next_free,
            forall|j: int|
                0 <= j < grown.nodes.len() && j != child ==> after.nodes[j] == grown.nodes[j],
            after.nodes[child].seq == grown.seq,
            grown.live(child) ==> {
                &&& after.nodes[child].items@ == grown.nodes[child].items@
                &&& after.nodes[child].child_offset == grown.nodes[child].child_offset
                &&& after.nodes[child].cell@ == grown.nodes[child].cell@
                &&& after.nodes[child].below@ == grown.nodes[child].below@.insert(item)
            },
            !grown.live(child) ==> {
                &&& after.nodes[child].items@ == Seq::<(Aabb, T)>::empty()
                &&& after.nodes[child].child_offset.is_none()
                &&& after.nodes[child].cell@ == child_cell
                &&& after.nodes[child].below@ == Multiset::<(Aabb, T)>::empty().insert(item)
            },
        ensures
            after.wf_pending(child, item),
            after.live(child),
            after.nodes[child].cell@ == child_cell,
            after.below_of(0) == linked.below_of(0),
            after.root() == linked.root(),
            child != 0,
    {
        let c = linked.nodes[index].child_offset.unwrap() as int;
        assert(linked.node_wf(index, index, item));
        assert(child > index && child >= 1);
        assert forall|i: int| grown.live(i) == linked.live(i) by {
            if grown.live(i) && i >= linked.nodes.len() {
                assert(grown.nodes[i].seq == 0);
            }
        }
        assert forall|i: int| i != child implies after.live(i) == linked.live(i) by {}
        assert forall|i: int| i != child implies after.below_of(i) == linked.below_of(i) by {}
        assert(after.live(child));
        assert(after.below_of(child) =~= linked.below_of(child).insert(item));
        assert(Seq::<(Aabb, T)>::empty().to_multiset() =~= Multiset::empty()) by {
            Seq::<(Aabb, T)>::empty().to_multiset_ensures();
        }
        if linked.live(child) {
            assert(linked.node_wf(child, index, item));
            assert(linked.live(c + (child - c)));
        }
        // no other live node has the child in its block
        assert forall|i: int| #[trigger] after.live(i) implies after.node_wf(i, child, item) by {
            if i == child {
                let node = after.nodes[i];
                if linked.live(child) {
                    if node.child_offset.is_some() {
                        let cc = node.child_offset.unwrap() as int;
                        assert(cc > child);
                        assert(after.children_below(cc) == linked.children_below(cc));
                        assert forall|q: int| 0 <= q < 4 && #[trigger] after.live(cc + q) implies
                            after.nodes[cc + q].cell@ == quadrant_cell(node.cell@, q) by {
                            assert(linked.live(cc + q));
                        }
                    }
                    assert forall|p: (Aabb, T)|
                        #[trigger] node.below@.count(p) > 0 && centre_in(after.root(), p.0@) implies
                        fits(node.cell@, p.0@) by {
                        if p != item {
                            assert(linked.nodes[child].below@.count(p) > 0);
                        }
                    }
                } else {
                    assert forall|p: (Aabb, T)|
                        #[trigger] node.below@.count(p) > 0 && centre_in(after.root(), p.0@) implies
                        fits(node.cell@, p.0@) by {
                        assert(p == item);
                    }
                }
            } else {
                assert(linked.live(i));
                assert(linked.node_wf(i, index, item));
                let node = after.nodes[i];
                if node.child_offset.is_some() {
                    let ci = node.child_offset.unwrap() as int;
                    if i == index {
                        assert(ci == c);
                        assert(after.children_below(c) =~= linked.children_below(c).insert(item));
                        assert forall|q: int| 0 <= q < 4 && #[trigger] after.live(c + q) implies
                            after.nodes[c + q].cell@ == quadrant_cell(node.cell@, q) by {
                            if c + q != child {
                                assert(linked.live(c + q));
                            }
                        }
                    } else {
                        assert(ci != c);
                        assert(ci + 4 <= c || c + 4 <= ci);
                        assert(after.children_below(ci) == linked.children_below(ci));
                        assert forall|q: int| 0 <= q < 4 && #[trigger] after.live(ci + q) implies
                            after.nodes[ci + q].cell@ == quadrant_cell(node.cell@, q) by {
                            assert(linked.live(ci + q));
                        }
                    }
                }
            }
        }
        assert forall|i: int, j: int|
            #![trigger after.live(i), after.live(j)]
            after.live(i) && after.live(j) && i != j && after.nodes[i].child_offset.is_some()
                && after.nodes[j].child_offset.is_some() implies after.nodes[i].child_offset
            != after.nodes[j].child_offset by {
            assert(linked.live(i) && linked.live(j));
        }
    }

    /// What is kept at the node `current_index` and below it and meets
    /// `aabb_to_test`, added to `found`.
    fn for_each_intersection_rec(
        &self,
        current_index: usize,
        current_node_aabb: Aabb,
        aabb_to_test: &Aabb,
        found: &mut Vec<(Aabb, T)>,
    )
        requires
            self.wf(),
            current_node_aabb.in_range(),
            self.live(current_index as int) ==> self.nodes[current_index as int].cell@
                == current_node_aabb@,
        ensures
            picked(
                old(found)@.to_multiset(),
                final(found)@.to_multiset(),
                self.below_of(current_index as int),
                aabb_to_test@,
                self.root(),
            ),
        decreases self.next_free - current_index, 0nat,
    {
        if current_index >= self.nodes.len() {
            return ;
        }
        if self.nodes[current_index].seq != self.seq {
            return ;
        }
        proof {
            assert(self.live(current_index as int));
            assert(self.node_wf(current_index as int, -1, arbitrary()));
        }
        let ghost start = found@;
        let count = self.nodes[current_index].items.len();
        let mut k: usize = 0;
        proof {
            let items = self.nodes[current_index as int].items@;
            assert(items.subrange(0, 0) =~= Seq::<(Aabb, T)>::empty());
            assert(Seq::<(Aabb, T)>::empty().to_multiset() =~= Multiset::empty()) by {
                Seq::<(Aabb, T)>::empty().to_multiset_ensures();
            }
        }
        while k < count
            invariant
                k <= count,
                current_index < self.nodes.len(),
                count == self.nodes[current_index as int].items.len(),
                forall|p: (Aabb, T)|
                    #[trigger] found@.to_multiset().count(p) == start.to_multiset().count(p) + (if p.0@.intersects(
                        aabb_to_test@,
                    ) {
                        self.nodes[current_index as int].items@.subrange(0, k as int).to_multiset().count(
                            p,
                        )
                    } else {
                        0
                    }),
            decreases count - k,
        {
            let entry = self.nodes[current_index].items[k];
            let ghost items = self.nodes[current_index as int].items@;
            let ghost before = found@;
            proof {
                assert(items.subrange(0, k + 1) =~= items.subrange(0, k as int).push(entry));
                to_multiset_build(items.subrange(0, k as int), entry);
            }
            if entry.0.is_intersecting(aabb_to_test) {
                found.push(entry);
                proof {
                    to_multiset_build(before, entry);
                }
            }
            k += 1;
        }
        let ghost kept = found@;
        proof {
            let items = self.nodes[current_index as int].items@;
            assert(items.subrange(0, count as int) =~= items);
        }
        match self.nodes[current_index].child_offset {
            None => {},
            Some(child_offset) => {
                let quadrants = current_node_aabb.split_four();
                let ghost cell = current_node_aabb@;
                proof {
                    assert(quadrants.top_left@ == quadrant_cell(cell, 0));
                    assert(quadrants.top_right@ == quadrant_cell(cell, 1));
                    assert(quadrants.bottom_left@ == quadrant_cell(cell, 2));
                    assert(quadrants.bottom_right@ == quadrant_cell(cell, 3));
                    assert(self.live(child_offset + 0) == self.live(child_offset as int));
                }
                self.visit_quadrant(child_offset, quadrants.top_left, aabb_to_test, found);
                let ghost first = found@;
                self.visit_quadrant(child_offset + 1, quadrants.top_right, aabb_to_test, found);
                let ghost second = found@;
                self.visit_quadrant(child_offset + 2, quadrants.bottom_left, aabb_to_test, found);
                let ghost third = found@;
                self.visit_quadrant(child_offset + 3, quadrants.bottom_right, aabb_to_test, found);
                proof {
                    let c = child_offset as int;
                    assert forall|p: (Aabb, T)|
                        {
                            &&& start.to_multiset().count(p) <= #[trigger] found@.to_multiset().count(p)
                            &&& found@.to_multiset().count(p) <= start.to_multiset().count(p)
                                + self.below_of(current_index as int).count(p)
                            &&& (!p.0@.intersects(aabb_to_test@) ==> found@.to_multiset().count(p)
                                == start.to_multiset().count(p))
                            &&& (p.0@.intersects(aabb_to_test@) && centre_in(self.root(), p.0@)
                                ==> found@.to_multiset().count(p) == start.to_multiset().count(p)
                                + self.below_of(current_index as int).count(p))
                        } by {
                        assert(kept.to_multiset().count(p) >= 0);
                        assert(first.to_multiset().count(p) >= 0);
                        assert(second.to_multiset().count(p) >= 0);
                        assert(third.to_multiset().count(p) >= 0);
                        assert(self.children_below(c).count(p) == self.below_of(c).count(p)
                            + self.below_of(c + 1).count(p) + self.below_of(c + 2).count(p)
                            + self.below_of(c + 3).count(p));
                    }
                }
            },
        }
    }

    /// Looks into one quadrant if the query meets its loose bound.
    fn visit_quadrant(
        &self,
        index: usize,
        cell: Aabb,
        aabb_to_test: &Aabb,
        found: &mut Vec<(Aabb, T)>,
    )
        requires
            self.wf(),
            cell.in_range(),
            index >= 1,
            self.live(index as int) ==> self.nodes[index as int].cell@ == cell@,
        ensures
            picked(
                old(found)@.to_multiset(),
                final(found)@.to_multiset(),
                self.below_of(index as int),
                aabb_to_test@,
                self.root(),
            ),
        decreases self.next_free - index, 1nat,
    {
        if cell.double_about_centre().is_intersecting(aabb_to_test) {
            self.for_each_intersection_rec(index, cell, aabb_to_test, found);
        } else {
            proof {
                if self.live(index as int) {
                    assert(self.node_wf(index as int, -1, arbitrary()));
                    assert forall|p: (Aabb, T)|
                        p.0@.intersects(aabb_to_test@) && centre_in(self.root(), p.0@) implies
                        #[trigger] self.below_of(index as int).count(p) == 0 by {
                        if self.nodes[index as int].below@.count(p) > 0 {
                            lemma_loose_bound(cell@, p.0@);
                        }
                    }
                }
            }
        }
    }

    /// The items in the tree whose boxes meet `aabb`: each one whose centre
    /// lies in the box that the tree covers, and no item that does not meet
    /// `aabb`, nor any item more often than it was put in.
    pub fn for_each_intersection(&self, aabb: Aabb) -> (found: Vec<(Aabb, T)>)
        requires
            self.wf(),
        ensures
            picked(
                Multiset::empty(),
                found@.to_multiset(),
                self.contents(),
                aabb@,
                self.root(),
            ),
            forall|i: int|
                0 <= i < found.len() ==> (#[trigger] found[i]).0@.intersects(aabb@)
                    && self.contents().count(found[i]) > 0,
            forall|p: (Aabb, T)|
                self.contents().count(p) > 0 && p.0@.intersects(aabb@) && self.well_placed(p.0)
                    ==> #[trigger] found@.contains(p),
            self.contents().len() == 0 ==> found.len() == 0,
    {
        let mut found: Vec<(Aabb, T)> = Vec::new();
        let root_aabb = Aabb::new(Vector2::zero(), self.size);
        proof {
            assert(found@.to_multiset() =~= Multiset::empty()) by {
                found@.to_multiset_ensures();
            }
            if self.live(0) {
                assert(self.node_wf(0, -1, arbitrary()));
            }
        }
        self.for_each_intersection_rec(0, root_aabb, &aabb, &mut found);
        proof {
            found@.to_multiset_ensures();
            let counted = found@.to_multiset();
            let stored = self.contents();
            assert forall|i: int| 0 <= i < found.len() implies (#[trigger] found[i]).0@.intersects(
                aabb@,
            ) && stored.count(found[i]) > 0 by {
                let p = found[i];
                assert(found@.contains(p));
                assert(counted.count(p) > 0);
                assert(counted.count(p) <= Multiset::<(Aabb, T)>::empty().count(p) + stored.count(p));
            }
            assert forall|p: (Aabb, T)|
                stored.count(p) > 0 && p.0@.intersects(aabb@) && self.well_placed(
                    p.0,
                ) implies #[trigger] found@.contains(p) by {
                assert(counted.count(p) == Multiset::<(Aabb, T)>::empty().count(p) + stored.count(
                    p,
                ));
            }
            if stored.len() == 0 {
                assert(stored =~= Multiset::empty());
                lemma_nothing_found_in_empty_tree(found@, aabb@, self.root());
            }
        }
        found
    }
}

/// An item that was put in is found by every query that meets its box, as
/// long as its centre lies in the box that the tree covers: so also an item
/// that straddles the line between two quadrants, from either side.
pub proof fn lemma_inserted_item_is_found<T>(
    stored: Multiset<(Aabb, T)>,
    found: Multiset<(Aabb, T)>,
    item: (Aabb, T),
    query: Box2,
    root: Box2,
)
    requires
        picked(Multiset::empty(), found, stored.insert(item), query, root),
        item.0@.intersects(query),
        centre_in(root, item.0@),
    ensures
        found.count(item) == stored.count(item) + 1,
{
    assert(found.count(item) == Multiset::<(Aabb, T)>::empty().count(item) + stored.insert(
        item,
    ).count(item));
}

/// A query of an empty tree finds nothing.
pub proof fn lemma_nothing_found_in_empty_tree<T>(found: Seq<(Aabb, T)>, query: Box2, root: Box2)
    requires
        picked(Multiset::empty(), found.to_multiset(), Multiset::empty(), query, root),
    ensures
        found.len() == 0,
{
    found.to_multiset_ensures();
    assert forall|p: (Aabb, T)| found.to_multiset().count(p) == 0 by {
        assert(found.to_multiset().count(p) <= Multiset::<(Aabb, T)>::empty().count(p)
            + Multiset::<(Aabb, T)>::empty().count(p));
    }
    assert(found.to_multiset() =~= Multiset::empty());
}

/// A query finds nothing that does not meet it, and nothing that is not in
/// the tree.
pub proof fn lemma_found_items_are_stored<T>(
    stored: Multiset<(Aabb, T)>,
    found: Multiset<(Aabb, T)>,
    item: (Aabb, T),
    query: Box2,
    root: Box2,
)
    requires
        picked(Multiset::empty(), found, stored, query, root),
        found.count(item) > 0,
    ensures
        item.0@.intersects(query),
        0 < found.count(item) <= stored.count(item),
{
    assert(found.count(item) <= Multiset::<(Aabb, T)>::empty().count(item) + stored.count(item));
}

} // verus!
