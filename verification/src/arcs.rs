//! The arc check: the neighbours that are looked at before a tile is
//! carved, and what a clear arc says about the tiles around it.

use vstd::prelude::*;
use crate::basics::{
    adjacent, arc_x_1, arc_y_1, neighbours_arc_x_1, neighbours_arc_y_1, OrdinalDirections, Position,
};
use crate::grid::{Grid, GridView, TileState};

verus! {

/// The arc that applies to a move: by the axis along which it goes.
pub open spec fn arc_table(direction: OrdinalDirections) -> Seq<Position> {
    if direction.step().x == 0 {
        arc_y_1()
    } else {
        arc_x_1()
    }
}

/// The sign by which an arc is mirrored along one axis: against the axis for
/// a move against it, along it otherwise.
pub open spec fn mirror(step: int) -> int {
    if step == -1 {
        -1
    } else {
        1
    }
}

/// The position of the `i`-th neighbour in the arc of a move that ends on
/// `destination`.
pub open spec fn arc_cell(destination: Position, direction: OrdinalDirections, i: int) -> (int, int) {
    let step = direction.step();
    let relative = arc_table(direction)[i];
    (
        destination.x + mirror(step.x as int) * relative.x,
        destination.y + mirror(step.y as int) * relative.y,
    )
}

/// The state of the `i`-th neighbour in the arc.
pub open spec fn arc_state(
    grid: GridView,
    destination: Position,
    direction: OrdinalDirections,
    i: int,
) -> TileState {
    grid.state_at(arc_cell(destination, direction, i).0, arc_cell(destination, direction, i).1)
}

/// Every neighbour in the arc is inside the grid and not carved.
pub open spec fn arc_clear(grid: GridView, destination: Position, direction: OrdinalDirections) -> bool {
    forall|i: int| 0 <= i < 5 ==> #[trigger] arc_state(grid, destination, direction, i) == TileState::Off
}

/// Some neighbour in the arc lies beyond the grid.
pub open spec fn arc_on_border(
    grid: GridView,
    destination: Position,
    direction: OrdinalDirections,
) -> bool {
    exists|i: int| 0 <= i < 5 && #[trigger] arc_state(grid, destination, direction, i) == TileState::Void
}

/// The position one step from `p` in the direction.
pub open spec fn moved(p: Position, direction: OrdinalDirections) -> Position {
    Position { x: (p.x + direction.step().x) as i32, y: (p.y + direction.step().y) as i32 }
}

/// The rules alone allow a tile to be carved one step from `p` in the
/// direction: the tile there is uncarved and its arc is clear.
pub open spec fn rule_allows(grid: GridView, p: Position, direction: OrdinalDirections) -> bool {
    grid.state_of(moved(p, direction)) == TileState::Off && arc_clear(
        grid,
        moved(p, direction),
        direction,
    )
}

/// The rules allow no tile to be carved from `p`.
pub open spec fn exhausted(grid: GridView, p: Position) -> bool {
    forall|direction: OrdinalDirections| !#[trigger] rule_allows(grid, p, direction)
}

/// The labyrinth is complete: the rules allow no tile to be carved from any
/// carved tile.
pub open spec fn saturated(grid: GridView) -> bool {
    forall|p: Position| grid.is_on(p) ==> #[trigger] exhausted(grid, p)
}

/// What the arc check finds.
#[derive(Clone, Copy, PartialEq, Eq, Structural, Debug)]
pub struct ArcCheck {
    /// No neighbour in the arc is carved or beyond the grid.
    pub pass: bool,
    /// Some neighbour in the arc is beyond the grid.
    pub on_border: bool,
}

/// Checks the five neighbours that lie ahead of and beside `destination` for
/// a move in `direction`: a tile may be carved by the rules only where all
/// of them are inside the grid and uncarved.
pub fn neighbours_check(grid: &Grid, destination: Position, direction: OrdinalDirections) -> (check:
    ArcCheck)
    requires
        grid.wf(),
    ensures
        check.pass == arc_clear(grid@, destination, direction),
        check.on_border == arc_on_border(grid@, destination, direction),
{
    let step = direction.offset();
    let arc = if step.x == 0 {
        neighbours_arc_y_1()
    } else {
        neighbours_arc_x_1()
    };
    let sign_x: i64 = if step.x == -1 {
        -1
    } else {
        1
    };
    let sign_y: i64 = if step.y == -1 {
        -1
    } else {
        1
    };
    let mut pass = true;
    let mut on_border = false;
    let mut i: usize = 0;
    while i < 5
        invariant
            i <= 5,
            grid.wf(),
            arc@ == arc_table(direction),
            sign_x == mirror(direction.step().x as int),
            sign_y == mirror(direction.step().y as int),
            pass == (forall|j: int|
                0 <= j < i ==> #[trigger] arc_state(grid@, destination, direction, j) == TileState::Off),
            on_border == (exists|j: int|
                0 <= j < i && #[trigger] arc_state(grid@, destination, direction, j) == TileState::Void),
        decreases 5 - i,
    {
        let relative = arc[i];
        assert(-1 <= relative.x <= 1 && -1 <= relative.y <= 1);
        assert(-1 <= sign_x * relative.x <= 1 && -1 <= sign_y * relative.y <= 1) by (nonlinear_arith)
            requires
                sign_x == 1 || sign_x == -1,
                sign_y == 1 || sign_y == -1,
                -1 <= relative.x <= 1,
                -1 <= relative.y <= 1,
        ;
        let x: i64 = destination.x as i64 + sign_x * relative.x as i64;
        let y: i64 = destination.y as i64 + sign_y * relative.y as i64;
        // A position that no coordinate reaches lies beyond every grid.
        let state = if x < i32::MIN as i64 || x > i32::MAX as i64 || y < i32::MIN as i64 || y
            > i32::MAX as i64 {
            proof {
                grid.lemma_wf_view();
            }
            TileState::Void
        } else {
            grid.state_tile(x as i32, y as i32)
        };
        assert(state == arc_state(grid@, destination, direction, i as int));
        match state {
            TileState::On => {
                pass = false;
            },
            TileState::Void => {
                pass = false;
                on_border = true;
            },
            TileState::Off => {},
        }
        i += 1;
    }
    ArcCheck { pass, on_border }
}

/// The shape of the arc: around the destination of a move it holds the tile
/// ahead, the two tiles beside the destination, and the two ahead of those.
pub proof fn lemma_arc_shape(destination: Position, direction: OrdinalDirections)
    ensures
        ({
            let ahead = direction.step();
            let x = destination.x as int;
            let y = destination.y as int;
            let first = arc_cell(destination, direction, 0);
            let side = (first.0 - x, first.1 - y);
            &&& (side == (ahead.y as int, ahead.x as int) || side == (-ahead.y, -ahead.x))
            &&& arc_cell(destination, direction, 0) == (x + side.0, y + side.1)
            &&& arc_cell(destination, direction, 1) == (x + side.0 + ahead.x, y + side.1 + ahead.y)
            &&& arc_cell(destination, direction, 2) == (x + ahead.x, y + ahead.y)
            &&& arc_cell(destination, direction, 3) == (x - side.0 + ahead.x, y - side.1 + ahead.y)
            &&& arc_cell(destination, direction, 4) == (x - side.0, y - side.1)
        }),
{
    let table = arc_table(direction);
    let sign_x = mirror(direction.step().x as int);
    let sign_y = mirror(direction.step().y as int);
    assert forall|i: int| 0 <= i < 5 implies #[trigger] arc_cell(destination, direction, i) == (
        destination.x + if sign_x == 1 {
            table[i].x as int
        } else {
            -table[i].x
        },
        destination.y + if sign_y == 1 {
            table[i].y as int
        } else {
            -table[i].y
        },
    ) by {
        assert(sign_x * table[i].x == if sign_x == 1 {
            table[i].x as int
        } else {
            -table[i].x
        }) by (nonlinear_arith)
            requires
                sign_x == 1 || sign_x == -1,
        ;
        assert(sign_y * table[i].y == if sign_y == 1 {
            table[i].y as int
        } else {
            -table[i].y
        }) by (nonlinear_arith)
            requires
                sign_y == 1 || sign_y == -1,
        ;
    }
}

/// With a clear arc, the only lattice neighbour of the destination that can
/// be carved is the tile the move starts from.
pub proof fn lemma_clear_arc_isolates(
    grid: GridView,
    position: Position,
    direction: OrdinalDirections,
    neighbour: Position,
)
    requires
        i32::MIN < position.x + direction.step().x < i32::MAX,
        i32::MIN < position.y + direction.step().y < i32::MAX,
        arc_clear(grid, moved(position, direction), direction),
        adjacent(neighbour, moved(position, direction)),
        neighbour != position,
    ensures
        grid.state_of(neighbour) == TileState::Off,
{
    let destination = moved(position, direction);
    lemma_arc_shape(destination, direction);
    assert(arc_state(grid, destination, direction, 0) == TileState::Off);
    assert(arc_state(grid, destination, direction, 2) == TileState::Off);
    assert(arc_state(grid, destination, direction, 4) == TileState::Off);
}

/// A destination whose arc stays inside the grid, one step from a tile
/// inside the grid, lies off the border.
pub proof fn lemma_arc_inside_is_inland(
    grid: GridView,
    position: Position,
    direction: OrdinalDirections,
)
    requires
        grid.wf(),
        grid.in_bounds(position.x as int, position.y as int),
        !arc_on_border(grid, moved(position, direction), direction),
    ensures
        grid.is_inland(moved(position, direction)),
{
    let destination = moved(position, direction);
    lemma_arc_shape(destination, direction);
    assert(arc_state(grid, destination, direction, 0) != TileState::Void);
    assert(arc_state(grid, destination, direction, 2) != TileState::Void);
    assert(arc_state(grid, destination, direction, 4) != TileState::Void);
}

} // verus!
