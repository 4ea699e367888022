//! What carving leaves behind: walks over carved tiles, the order in which
//! tiles were carved, and what that order says about the corridors.

use vstd::prelude::*;
use vstd::set_lib::{lemma_int_range, lemma_len_subset, set_int_range};
use crate::basics::{adjacent, Position};
use crate::grid::{lemma_index_in_range, lemma_index_injective, GridView, TileState};

verus! {

impl GridView {
    /// The state of a position.
    pub open spec fn state_of(self, p: Position) -> TileState {
        self.state_at(p.x as int, p.y as int)
    }

    /// The tile at the position is carved.
    pub open spec fn is_on(self, p: Position) -> bool {
        self.state_of(p) == TileState::On
    }

    /// The position lies inside the grid and not on its border.
    pub open spec fn is_inland(self, p: Position) -> bool {
        0 < p.x < self.width - 1 && 0 < p.y < self.height - 1
    }

    /// The tile in the middle of the grid, where carving starts.
    pub open spec fn center(self) -> Position {
        Position { x: (self.width / 2) as i32, y: (self.height / 2) as i32 }
    }
}

/// A walk: carved tiles, each a lattice neighbour of the one before.
pub open spec fn is_walk(grid: GridView, walk: Seq<Position>) -> bool {
    &&& walk.len() > 0
    &&& forall|i: int| 0 <= i < walk.len() ==> grid.is_on(#[trigger] walk[i])
    &&& forall|i: int| 0 < i < walk.len() ==> adjacent(walk[i - 1], #[trigger] walk[i])
}

/// Some walk leads from one tile to the other.
pub open spec fn reachable(grid: GridView, from: Position, to: Position) -> bool {
    exists|walk: Seq<Position>| #[trigger]
        is_walk(grid, walk) && walk.first() == from && walk.last() == to
}

/// Every carved tile can be reached from the root over carved tiles.
pub open spec fn connected_from(grid: GridView, root: Position) -> bool {
    forall|p: Position| #[trigger] grid.is_on(p) ==> reachable(grid, root, p)
}

/// The tile at index `i` is a lattice neighbour of one listed before it.
pub open spec fn touches_earlier(order: Seq<Position>, i: int) -> bool {
    exists|j: int| 0 <= j < i && adjacent(#[trigger] order[j], order[i])
}

/// The tile at index `i` is a lattice neighbour of exactly one tile listed
/// before it.
pub open spec fn touches_one_earlier(order: Seq<Position>, i: int) -> bool {
    exists|j: int|
        {
            &&& 0 <= j < i
            &&& adjacent(#[trigger] order[j], order[i])
            &&& forall|k: int| 0 <= k < i && adjacent(#[trigger] order[k], order[i]) ==> k == j
        }
}

/// `order` lists the carved tiles of the grid, each once, in an order in which
/// they can have been carved: every tile after the first touches an earlier one.
pub open spec fn carving_order(grid: GridView, order: Seq<Position>) -> bool {
    &&& order.len() > 0
    &&& order.no_duplicates()
    &&& forall|p: Position| #[trigger] grid.is_on(p) <==> order.contains(p)
    &&& forall|i: int| 0 < i < order.len() ==> #[trigger] touches_earlier(order, i)
}

/// Every tile after the first touched exactly one carved tile when it was
/// carved: the corridors branch but never meet.
pub open spec fn tree_order(order: Seq<Position>) -> bool {
    forall|i: int| 0 < i < order.len() ==> #[trigger] touches_one_earlier(order, i)
}

/// Every tile after the first lies off the border.
pub open spec fn inland_order(grid: GridView, order: Seq<Position>) -> bool {
    forall|i: int| 0 < i < order.len() ==> grid.is_inland(#[trigger] order[i])
}

/// Each tile of a carving order can be reached from the first.
proof fn lemma_order_reaches(grid: GridView, order: Seq<Position>, i: int)
    requires
        carving_order(grid, order),
        0 <= i < order.len(),
    ensures
        reachable(grid, order[0], order[i]),
    decreases i,
{
    if i == 0 {
        let walk = seq![order[0]];
        assert(is_walk(grid, walk));
    } else {
        assert(touches_earlier(order, i));
        let j = choose|j: int| 0 <= j < i && adjacent(#[trigger] order[j], order[i]);
        lemma_order_reaches(grid, order, j);
        let near = choose|walk: Seq<Position>| #[trigger]
            is_walk(grid, walk) && walk.first() == order[0] && walk.last() == order[j];
        let walk = near.push(order[i]);
        assert(is_walk(grid, walk));
    }
}

/// Connectivity: in a grid whose carved tiles have a carving order, every
/// carved tile is reachable from the first tile of the order through carved
/// tiles that are lattice neighbours of one another.
pub proof fn lemma_carving_order_connects(grid: GridView, order: Seq<Position>)
    requires
        carving_order(grid, order),
    ensures
        connected_from(grid, order[0]),
{
    assert forall|p: Position| #[trigger] grid.is_on(p) implies reachable(grid, order[0], p) by {
        let i = choose|i: int| 0 <= i < order.len() && order[i] == p;
        lemma_order_reaches(grid, order, i);
    }
}

/// A carving order is no longer than the grid has tiles.
pub proof fn lemma_carving_order_fits(grid: GridView, order: Seq<Position>)
    requires
        grid.wf(),
        carving_order(grid, order),
    ensures
        order.len() <= grid.width * grid.height,
{
    let width = grid.width;
    let indices = order.map_values(|p: Position| p.y * width + p.x);
    let all = set_int_range(0, width * grid.height);
    assert forall|i: int| 0 <= i < order.len() implies grid.in_bounds(
        (#[trigger] order[i]).x as int,
        order[i].y as int,
    ) by {
        assert(grid.is_on(order[i]));
    }
    assert forall|i: int, j: int|
        0 <= i < indices.len() && 0 <= j < indices.len() && i != j implies indices[i] != indices[j] by {
        let p = order[i];
        let q = order[j];
        if indices[i] == indices[j] {
            lemma_index_injective(p.x as int, p.y as int, q.x as int, q.y as int, width);
        }
    }
    indices.unique_seq_to_set();
    assert(0 <= width * grid.height) by (nonlinear_arith)
        requires
            0 <= width,
            0 <= grid.height,
    ;
    lemma_int_range(0, width * grid.height);
    assert forall|n: int| indices.to_set().contains(n) implies all.contains(n) by {
        let i = choose|i: int| 0 <= i < indices.len() && indices[i] == n;
        lemma_index_in_range(order[i].x as int, order[i].y as int, width, grid.height);
    }
    lemma_len_subset(indices.to_set(), all);
}

/// No meeting corridors: in a tree order, two carved tiles that are lattice
/// neighbours are a tile and the one tile it touched when it was carved, so
/// the later of the two touches no other earlier tile.
pub proof fn lemma_tree_order_neighbours(order: Seq<Position>, i: int, j: int, k: int)
    requires
        tree_order(order),
        0 <= i < j < order.len(),
        0 <= k < j,
        adjacent(order[i], order[j]),
        adjacent(order[k], order[j]),
    ensures
        k == i,
{
    assert(touches_one_earlier(order, j));
}

/// No open square: in a grid carved in a tree order, no four carved tiles
/// form a block of two by two.
pub proof fn lemma_tree_order_has_no_square(grid: GridView, order: Seq<Position>, x: int, y: int)
    requires
        grid.wf(),
        carving_order(grid, order),
        tree_order(order),
    ensures
        !({
            &&& grid.state_at(x, y) == TileState::On
            &&& grid.state_at(x + 1, y) == TileState::On
            &&& grid.state_at(x, y + 1) == TileState::On
            &&& grid.state_at(x + 1, y + 1) == TileState::On
        }),
{
    if grid.state_at(x, y) == TileState::On && grid.state_at(x + 1, y) == TileState::On && grid.state_at(
        x,
        y + 1,
    ) == TileState::On && grid.state_at(x + 1, y + 1) == TileState::On {
        let a = Position { x: x as i32, y: y as i32 };
        let b = Position { x: (x + 1) as i32, y: y as i32 };
        let c = Position { x: (x + 1) as i32, y: (y + 1) as i32 };
        let d = Position { x: x as i32, y: (y + 1) as i32 };
        lemma_found_in_order(grid, order, a);
        lemma_found_in_order(grid, order, b);
        lemma_found_in_order(grid, order, c);
        lemma_found_in_order(grid, order, d);
        let ia = order.index_of(a);
        let ib = order.index_of(b);
        let ic = order.index_of(c);
        let id = order.index_of(d);
        // The tile carved last has two earlier neighbours in the block.
        if ia > ib && ia > id {
            lemma_tree_order_neighbours(order, ib, ia, id);
        } else if ib > ia && ib > ic {
            lemma_tree_order_neighbours(order, ia, ib, ic);
        } else if ic > ib && ic > id {
            lemma_tree_order_neighbours(order, ib, ic, id);
        } else if id > ia && id > ic {
            lemma_tree_order_neighbours(order, ia, id, ic);
        }
    }
}

/// A carved tile has its index in the carving order.
proof fn lemma_found_in_order(grid: GridView, order: Seq<Position>, p: Position)
    requires
        carving_order(grid, order),
        grid.is_on(p),
    ensures
        0 <= order.index_of(p) < order.len(),
        order[order.index_of(p)] == p,
{
}

} // verus!
