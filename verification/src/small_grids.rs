//! What a run carves on small grids. On a grid of one tile: nothing but the
//! entrance. On a grid of four by four: the one labyrinth that the rules
//! leave room for, or its mirror image.

use vstd::prelude::*;
use crate::arcs::{arc_state, exhausted, lemma_arc_shape, moved, rule_allows, saturated};
use crate::basics::{OrdinalDirections, Position};
use crate::generators::GeneratorConfig;
use crate::grid::{GridView, TileState};
use crate::walk::{
    carved_tile, explored, generated, goes_on, is_run, lemma_initial_state,
    lemma_rule_is_not_refused, lemma_saturated_run_keeps_grid, step_outcome, GeneratorView,
};

verus! {

/// On a grid of one tile a run is one iteration, whatever the options and
/// whatever is drawn: every direction leads beyond the grid, so the
/// generator backtracks from the entrance and has nothing left to go back
/// to. The entrance stays as it was carved and tagged.
pub proof fn lemma_explored_on_one_tile(v: GeneratorView, config: GeneratorConfig)
    requires
        explored(v, config),
        config.grid_size == 1,
    ensures
        v == GeneratorView::initial(1).retreated(config.stuck_reaction, 0).ticked(),
        v.grid == GeneratorView::initial(1).grid,
        v.path.len() == 0,
        v.counter == 1,
{
    let start = GeneratorView::initial(1);
    let trace = choose|trace: Seq<GeneratorView>|
        #[trigger] is_run(trace, config) && trace.first() == start && trace.last() == v;
    assert(goes_on(start, config));
    assert(goes_on(trace[0], config) && step_outcome(trace[0], trace[1], config));
    assert forall|direction: OrdinalDirections, islet_word: u32, unsubordination_word: u32|
        !#[trigger] start.carves(direction, config, islet_word, unsubordination_word) by {
        assert(start.grid.state_of(start.destination(direction)) == TileState::Void);
    }
    let pick = choose|pick: int|
        {
            &&& #[trigger] start.valid_pick(config.stuck_reaction, pick)
            &&& trace[1] == start.retreated(config.stuck_reaction, pick).ticked()
        };
    assert(start.remaining_path(config.stuck_reaction).len() == 0) by {
        assert(start.path.remove(0) =~= Seq::empty());
        assert(start.path.drop_last() =~= Seq::empty());
    }
    assert(!goes_on(trace[1], config));
    if trace.len() > 2 {
        assert(goes_on(trace[1], config) && step_outcome(trace[1], trace[2], config));
    }
}

/// On a grid of one tile the entrance is all there is: the generated grid
/// is the fresh grid with its one tile carved and tagged as the entrance,
/// and every other position lies beyond it.
pub proof fn lemma_generated_on_one_tile(grid: GridView, config: GeneratorConfig, x: int, y: int)
    requires
        generated(grid, config),
        config.grid_size == 1,
    ensures
        grid == GeneratorView::initial(1).grid,
        grid.center() == (Position { x: 0, y: 0 }),
        grid.state_at(x, y) == if x == 0 && y == 0 {
            TileState::On
        } else {
            TileState::Void
        },
{
    let v = choose|v: GeneratorView| #[trigger] explored(v, config) && v.grid == grid;
    lemma_explored_on_one_tile(v, config);
}

/// The other of the two directions in which there is room beside the
/// entrance of a grid of four by four: west and south.
pub open spec fn turn(first: OrdinalDirections) -> OrdinalDirections {
    if first == OrdinalDirections::West {
        OrdinalDirections::South
    } else {
        OrdinalDirections::West
    }
}

/// The labyrinth on a grid of four by four whose first corridor leaves the
/// entrance in the given direction: the entrance at (2,2), the tile beside
/// it, and (1,1) around the corner.
pub open spec fn side_four_grid(first: OrdinalDirections) -> GridView {
    let start = GeneratorView::initial(4);
    let beside = moved(start.position, first);
    let corner = moved(beside, turn(first));
    start.grid.with_tile(beside.x as int, beside.y as int, carved_tile()).with_tile(
        corner.x as int,
        corner.y as int,
        carved_tile(),
    )
}

/// The rules allow no tile where the one ahead of it is carved or beyond the
/// grid.
proof fn lemma_blocked_ahead(grid: GridView, p: Position, direction: OrdinalDirections)
    requires
        -8 < p.x < 8,
        -8 < p.y < 8,
        grid.state_at(p.x + 2 * direction.step().x, p.y + 2 * direction.step().y) != TileState::Off,
    ensures
        !rule_allows(grid, p, direction),
{
    let destination = moved(p, direction);
    lemma_arc_shape(destination, direction);
    assert(arc_state(grid, destination, direction, 2) != TileState::Off);
}

/// The rules allow no tile where one beside it is carved or beyond the grid.
proof fn lemma_blocked_beside(grid: GridView, p: Position, direction: OrdinalDirections, side: int)
    requires
        -8 < p.x < 8,
        -8 < p.y < 8,
        side == 1 || side == -1,
        grid.state_at(
            p.x + direction.step().x + side * direction.step().y,
            p.y + direction.step().y + side * direction.step().x,
        ) != TileState::Off,
    ensures
        !rule_allows(grid, p, direction),
{
    let destination = moved(p, direction);
    let ahead = direction.step();
    lemma_arc_shape(destination, direction);
    assert(side * ahead.y == if side == 1 {
        ahead.y as int
    } else {
        -ahead.y
    } && side * ahead.x == if side == 1 {
        ahead.x as int
    } else {
        -ahead.x
    }) by (nonlinear_arith)
        requires
            side == 1 || side == -1,
    ;
    assert(arc_state(grid, destination, direction, 0) != TileState::Off || arc_state(
        grid,
        destination,
        direction,
        4,
    ) != TileState::Off);
}

/// On the fresh grid of four by four the rules allow a first tile to the
/// west and to the south of the entrance, and nowhere else.
proof fn lemma_side_four_first(direction: OrdinalDirections)
    ensures
        rule_allows(GeneratorView::initial(4).grid, GeneratorView::initial(4).position, direction)
            ==> direction == OrdinalDirections::West || direction == OrdinalDirections::South,
{
    let start = GeneratorView::initial(4);
    if direction == OrdinalDirections::North || direction == OrdinalDirections::East {
        lemma_blocked_ahead(start.grid, start.position, direction);
    }
}

/// With the first tile carved, the rules allow a second only around the
/// corner, at (1,1).
proof fn lemma_side_four_second(first: OrdinalDirections, direction: OrdinalDirections)
    requires
        first == OrdinalDirections::West || first == OrdinalDirections::South,
    ensures
        ({
            let start = GeneratorView::initial(4);
            let second = start.advanced(first).ticked();
            &&& rule_allows(second.grid, second.position, turn(first))
            &&& rule_allows(second.grid, second.position, direction) ==> direction == turn(first)
        }),
{
    let start = GeneratorView::initial(4);
    let second = start.advanced(first).ticked();
    let corner = moved(second.position, turn(first));
    lemma_arc_shape(corner, turn(first));
    assert forall|i: int| 0 <= i < 5 implies #[trigger] arc_state(second.grid, corner, turn(first), i)
        == TileState::Off by {}
    if direction != turn(first) {
        if moved(second.position, direction) != start.position {
            lemma_blocked_ahead(second.grid, second.position, direction);
        }
    }
}

/// With both tiles carved, the rules allow no further tile.
proof fn lemma_side_four_saturated(first: OrdinalDirections)
    requires
        first == OrdinalDirections::West || first == OrdinalDirections::South,
    ensures
        saturated(side_four_grid(first)),
{
    let grid = side_four_grid(first);
    let center = Position { x: 2, y: 2 };
    let beside = moved(center, first);
    let corner = Position { x: 1, y: 1 };
    assert forall|p: Position| grid.is_on(p) implies #[trigger] exhausted(grid, p) by {
        assert(p == center || p == beside || p == corner);
        assert forall|direction: OrdinalDirections| !#[trigger] rule_allows(grid, p, direction) by {
            let destination = moved(p, direction);
            if grid.state_of(destination) == TileState::Off {
                if grid.state_at(p.x + 2 * direction.step().x, p.y + 2 * direction.step().y)
                    != TileState::Off {
                    lemma_blocked_ahead(grid, p, direction);
                } else if grid.state_at(
                    p.x + direction.step().x + direction.step().y,
                    p.y + direction.step().y + direction.step().x,
                ) != TileState::Off {
                    lemma_blocked_beside(grid, p, direction, 1);
                } else {
                    lemma_blocked_beside(grid, p, direction, -1);
                }
            }
        }
    }
}

/// On a grid of four by four, a walk without a limit that keeps to the rules
/// and allows no islet carves the entrance, one of the two tiles west and
/// south of it, and the tile around the corner, whatever is drawn and
/// however it backtracks. The other of the two tiles stays uncarved: it
/// would open a corridor beside the carved one.
pub proof fn lemma_generated_on_side_four(grid: GridView, config: GeneratorConfig)
    requires
        generated(grid, config),
        config.grid_size == 4,
        config.iteration_limit == 0,
        config.islet is No,
        config.unsubordination is No,
    ensures
        grid == side_four_grid(OrdinalDirections::West) || grid == side_four_grid(
            OrdinalDirections::South,
        ),
{
    let v = choose|v: GeneratorView| #[trigger] explored(v, config) && v.grid == grid;
    let start = GeneratorView::initial(4);
    let trace = choose|trace: Seq<GeneratorView>|
        #[trigger] is_run(trace, config) && trace.first() == start && trace.last() == v;
    lemma_initial_state(4);
    // The first iteration carves, west or south of the entrance.
    assert(goes_on(start, config));
    assert(trace.len() >= 2);
    assert(goes_on(trace[0], config) && step_outcome(trace[0], trace[1], config));
    lemma_rule_is_not_refused(start, OrdinalDirections::West, config);
    let (first, w1, u1) = choose|direction: OrdinalDirections, islet_word: u32, unsubordination_word: u32|
        {
            &&& #[trigger] start.carves(direction, config, islet_word, unsubordination_word)
            &&& trace[1] == start.advanced(direction).ticked()
        };
    assert(rule_allows(start.grid, start.position, first));
    lemma_side_four_first(first);
    // The second carves around the corner.
    let second = trace[1];
    lemma_side_four_second(first, first);
    assert(goes_on(second, config));
    assert(trace.len() >= 3);
    assert(goes_on(trace[1], config) && step_outcome(trace[1], trace[2], config));
    lemma_rule_is_not_refused(second, turn(first), config);
    let (next, w2, u2) = choose|direction: OrdinalDirections, islet_word: u32, unsubordination_word: u32|
        {
            &&& #[trigger] second.carves(direction, config, islet_word, unsubordination_word)
            &&& trace[2] == second.advanced(direction).ticked()
        };
    assert(rule_allows(second.grid, second.position, next));
    lemma_side_four_second(first, next);
    assert(trace[2].grid == side_four_grid(first));
    // After that the rules allow nothing more.
    lemma_side_four_saturated(first);
    lemma_saturated_run_keeps_grid(trace, config, 2, trace.len() - 1);
}

} // verus!
