//! The walk as a state machine: its states, the two moves of the head, what
//! one iteration and a whole run can lead to, and what they preserve.

use vstd::prelude::*;
use crate::arcs::{
    arc_clear, arc_on_border, arc_state, exhausted, lemma_arc_inside_is_inland, lemma_arc_shape,
    lemma_clear_arc_isolates, moved, rule_allows, saturated, ArcCheck,
};
use crate::basics::{adjacent, OrdinalDirections, Position, StuckReaction};
use crate::carving::{
    carving_order, connected_from, inland_order, lemma_carving_order_connects,
    lemma_tree_order_has_no_square, touches_earlier, touches_one_earlier, tree_order,
};
use crate::generators::{decides_carve, GeneratorConfig};
use crate::grid::{valid_size, GridKind, GridView, TileState, TileView};

verus! {

/// The name of the feature that marks the tile where carving starts.
pub open spec fn entrance_name() -> Seq<char> {
    "Entrance"@
}

/// What a carved tile is: on, with no feature.
pub open spec fn carved_tile() -> TileView {
    TileView { state: TileState::On, features: Set::empty() }
}

/// What a generator is: its grid, its memory, and the carved tiles in the
/// order in which they were carved.
pub struct GeneratorView {
    pub grid: GridView,
    pub position: Position,
    pub path: Seq<Position>,
    pub path_cursor: int,
    pub counter: int,
    pub carved: Seq<Position>,
}

impl GeneratorView {
    /// The generator still has a tile to go on from.
    pub open spec fn active(self) -> bool {
        self.path.len() > 0
    }

    /// Only the starting tile can be tagged, and only as the entrance.
    pub open spec fn tagged(self) -> bool {
        let center = self.grid.center();
        &&& forall|x: int, y: int|
            (x, y) != (center.x as int, center.y as int) ==> #[trigger] self.grid.features_at(x, y)
                == Set::<Seq<char>>::empty()
        &&& self.grid.features_at(center.x as int, center.y as int) == Set::<Seq<char>>::empty()
            || self.grid.features_at(center.x as int, center.y as int) == set![entrance_name()]
    }

    /// The invariant of a run: the carved tiles were carved in an order that
    /// starts at the center, everything remembered is carved, and while any
    /// tile is remembered the cursor points into the path and the head
    /// stands on a carved tile.
    pub open spec fn wf(self) -> bool {
        &&& self.grid.wf()
        &&& carving_order(self.grid, self.carved)
        &&& self.carved[0] == self.grid.center()
        &&& forall|i: int| 0 <= i < self.path.len() ==> self.grid.is_on(#[trigger] self.path[i])
        &&& self.active() ==> 0 <= self.path_cursor < self.path.len() && self.grid.is_on(
            self.position,
        )
        &&& 0 <= self.counter
        &&& self.tagged()
    }

    /// The state before the first iteration on a grid of the given side: the
    /// center carved and tagged as the entrance, and nothing else.
    pub open spec fn initial(size: int) -> GeneratorView {
        let blank = GridView::blank(GridKind::Squares, size);
        let center = blank.center();
        GeneratorView {
            grid: blank.with_tile(
                center.x as int,
                center.y as int,
                TileView { state: TileState::On, features: set![entrance_name()] },
            ),
            position: center,
            path: seq![center],
            path_cursor: 0,
            counter: 0,
            carved: seq![center],
        }
    }

    /// The tile that a move in the direction leads to.
    pub open spec fn destination(self, direction: OrdinalDirections) -> Position {
        moved(self.position, direction)
    }

    /// What the arc check finds for a move in the direction.
    pub open spec fn arc_check(self, direction: OrdinalDirections) -> ArcCheck {
        ArcCheck {
            pass: arc_clear(self.grid, self.destination(direction), direction),
            on_border: arc_on_border(self.grid, self.destination(direction), direction),
        }
    }

    /// Whether a move in the direction carves, given the words drawn.
    pub open spec fn carves(
        self,
        direction: OrdinalDirections,
        config: GeneratorConfig,
        islet_word: u32,
        unsubordination_word: u32,
    ) -> bool {
        decides_carve(
            self.grid.state_of(self.destination(direction)),
            self.arc_check(direction),
            config.islet,
            config.unsubordination,
            islet_word,
            unsubordination_word,
        )
    }

    /// The state after carving the tile in the direction and moving there.
    pub open spec fn advanced(self, direction: OrdinalDirections) -> GeneratorView {
        let destination = self.destination(direction);
        GeneratorView {
            grid: self.grid.with_tile(destination.x as int, destination.y as int, carved_tile()),
            position: destination,
            path: self.path.push(destination),
            path_cursor: self.path_cursor + 1,
            counter: self.counter,
            carved: if self.grid.is_on(destination) {
                self.carved
            } else {
                self.carved.push(destination)
            },
        }
    }

    /// What is left of the path when the generator gives up on a tile: a
    /// random resumption forgets the tile under the cursor, a step back the
    /// last one.
    pub open spec fn remaining_path(self, reaction: StuckReaction) -> Seq<Position> {
        match reaction {
            StuckReaction::RandomPosition => self.path.remove(self.path_cursor),
            StuckReaction::OneStepBack => self.path.drop_last(),
        }
    }

    /// The state after backtracking. While tiles remain the head resumes
    /// from one of them: the one at `pick` for a random resumption, the last
    /// for a step back. With none left the run is over.
    pub open spec fn retreated(self, reaction: StuckReaction, pick: int) -> GeneratorView {
        let rest = self.remaining_path(reaction);
        if rest.len() == 0 {
            GeneratorView { path: rest, position: Position { x: 0, y: 0 }, ..self }
        } else {
            let cursor = match reaction {
                StuckReaction::RandomPosition => pick,
                StuckReaction::OneStepBack => rest.len() - 1,
            };
            GeneratorView { path: rest, path_cursor: cursor, position: rest[cursor], ..self }
        }
    }

    /// The same state, one iteration later.
    pub open spec fn ticked(self) -> GeneratorView {
        GeneratorView { counter: self.counter + 1, ..self }
    }

    /// A move in the direction carves by the rules alone, whatever is drawn:
    /// the destination is uncarved and its arc is clear.
    pub open spec fn carves_by_rule(self, direction: OrdinalDirections) -> bool {
        rule_allows(self.grid, self.position, direction)
    }

    /// Some draw refuses a move in the direction.
    pub open spec fn can_refuse(self, direction: OrdinalDirections, config: GeneratorConfig) -> bool {
        exists|islet_word: u32, unsubordination_word: u32|
            !#[trigger] self.carves(direction, config, islet_word, unsubordination_word)
    }

    /// The walk has only ever stepped back: the head is the last tile of the
    /// path and the cursor points at it, and the rules allow nothing to be
    /// carved from any tile that was carved and is no longer on the path.
    pub open spec fn settled(self) -> bool {
        &&& self.active() ==> self.path_cursor == self.path.len() - 1 && self.position
            == self.path.last()
        &&& forall|i: int|
            0 <= i < self.carved.len() ==> self.path.contains(#[trigger] self.carved[i]) || exhausted(
                self.grid,
                self.carved[i],
            )
    }

    /// `pick` can be resumed from after backtracking: it is an index into
    /// what remains of the path.
    pub open spec fn valid_pick(self, reaction: StuckReaction, pick: int) -> bool {
        reaction == StuckReaction::RandomPosition && self.path.len() > 1 ==> 0 <= pick
            < self.path.len() - 1
    }
}

/// What one iteration can lead to, whatever is drawn.
///
/// Either the generator carved in some direction, which some draw allows. Or
/// it backtracked, and then in every direction some draw refuses the move:
/// no direction could be carved by the rules alone, nor by a chance that is
/// certain.
pub open spec fn step_outcome(before: GeneratorView, after: GeneratorView, config: GeneratorConfig) -> bool {
    ||| exists|direction: OrdinalDirections, islet_word: u32, unsubordination_word: u32|
        {
            &&& #[trigger] before.carves(direction, config, islet_word, unsubordination_word)
            &&& after == before.advanced(direction).ticked()
        }
    ||| {
        &&& forall|direction: OrdinalDirections| #[trigger] before.can_refuse(direction, config)
        &&& exists|pick: int|
            {
                &&& #[trigger] before.valid_pick(config.stuck_reaction, pick)
                &&& after == before.retreated(config.stuck_reaction, pick).ticked()
            }
    }
}

/// What holds between a state and any state that iterations lead to from it.
pub open spec fn follows(before: GeneratorView, after: GeneratorView, config: GeneratorConfig) -> bool {
    let center = before.grid.center();
    &&& after.grid.kind == before.grid.kind
    &&& after.grid.width == before.grid.width
    &&& after.grid.height == before.grid.height
    &&& before.carved.is_prefix_of(after.carved)
    &&& before.counter <= after.counter
    &&& after.counter == before.counter ==> after == before
    &&& after.carved.len() - before.carved.len() <= after.counter - before.counter
    &&& config.stuck_reaction is OneStepBack && before.settled() ==> after.settled()
    &&& config.unsubordination is No ==> {
        &&& after.counter + after.path.len() - 2 * after.carved.len() == before.counter
            + before.path.len() - 2 * before.carved.len()
        &&& after.counter > before.counter && (exists|direction: OrdinalDirections| #[trigger]
            before.carves_by_rule(direction)) ==> after.carved.len() > before.carved.len()
        &&& after.grid.features_at(center.x as int, center.y as int) == before.grid.features_at(
            center.x as int,
            center.y as int,
        )
        &&& inland_order(before.grid, before.carved) ==> inland_order(after.grid, after.carved)
        &&& config.islet is No && tree_order(before.carved) ==> tree_order(after.carved)
    }
}

/// A run goes on from the state: a tile is left to go on from, and neither
/// the iteration limit, if there is one, nor the largest count that fits is
/// reached.
pub open spec fn goes_on(v: GeneratorView, config: GeneratorConfig) -> bool {
    &&& v.active()
    &&& config.iteration_limit == 0 || v.counter < config.iteration_limit
    &&& v.counter < usize::MAX
}

/// The states of a run, one after another: from each state but the last the
/// run goes on, and one iteration leads from it to the next.
pub open spec fn is_run(trace: Seq<GeneratorView>, config: GeneratorConfig) -> bool {
    &&& trace.len() > 0
    &&& forall|i: int|
        0 <= i < trace.len() - 1 ==> goes_on(#[trigger] trace[i], config) && step_outcome(
            trace[i],
            trace[i + 1],
            config,
        )
}

/// Iterations lead from the one state to the other.
pub open spec fn runs_to(before: GeneratorView, after: GeneratorView, config: GeneratorConfig) -> bool {
    exists|trace: Seq<GeneratorView>|
        #[trigger] is_run(trace, config) && trace.first() == before && trace.last() == after
}

/// What a run leads to, whatever is drawn: a state that iterations lead to
/// from the one it started in, and from which the run does not go on. Such a
/// state follows from the first, and a limit is never exceeded by iterating.
pub open spec fn run_outcome(before: GeneratorView, after: GeneratorView, config: GeneratorConfig) -> bool {
    &&& runs_to(before, after, config)
    &&& !goes_on(after, config)
    &&& follows(before, after, config)
    &&& config.iteration_limit > 0 && after.counter > before.counter ==> after.counter
        <= config.iteration_limit
}

/// What a whole run on a fresh grid leads to, whatever is drawn.
pub open spec fn explored(v: GeneratorView, config: GeneratorConfig) -> bool {
    let center = v.grid.center();
    &&& v.wf()
    &&& run_outcome(GeneratorView::initial(config.grid_size as int), v, config)
    // The iteration limit is respected: a run with a limit ends on it or with
    // nothing left to go back to. Each iteration carves at most one tile.
    &&& config.iteration_limit > 0 ==> v.counter <= config.iteration_limit
    &&& config.iteration_limit > 0 && v.active() ==> v.counter == config.iteration_limit
    &&& 1 <= v.counter
    &&& v.carved.len() <= v.counter + 1
    // A walk that only ever steps back leaves nothing undone: once it is
    // over, the rules allow no further tile.
    &&& config.stuck_reaction is OneStepBack && !v.active() ==> saturated(v.grid)
    // Every carved tile is connected to the entrance.
    &&& connected_from(v.grid, center)
    &&& config.unsubordination is No ==> {
        // Every iteration either carves a tile or forgets one, so a run takes
        // fewer than twice as many iterations as the grid has tiles, and
        // without a limit it ends with nothing left to go back to.
        &&& v.counter + v.path.len() == 2 * v.carved.len() - 1
        &&& v.counter < 2 * (config.grid_size * config.grid_size)
        &&& config.iteration_limit == 0 ==> !v.active()
        // Where there is room beside the entrance, a tile is carved there.
        &&& config.grid_size >= 4 ==> v.carved.len() >= 2
        // The entrance stays tagged and no corridor reaches the border.
        &&& v.grid.features_at(center.x as int, center.y as int) == set![entrance_name()]
        &&& inland_order(v.grid, v.carved)
        // Without islets, corridors never meet.
        &&& config.islet is No ==> tree_order(v.carved)
    }
}

/// `order` can be the order in which a run with these options carved the
/// tiles of the grid: one after another from the entrance, at most one with
/// each iteration, and at least one where there is room beside the entrance.
/// Without unsubordination no tile but the entrance lies on the border, and
/// without islets either, no corridor meets another.
pub open spec fn generation_order(grid: GridView, order: Seq<Position>, config: GeneratorConfig) -> bool {
    &&& carving_order(grid, order)
    &&& order[0] == grid.center()
    &&& config.iteration_limit > 0 ==> order.len() <= config.iteration_limit + 1
    &&& config.unsubordination is No ==> {
        &&& config.grid_size >= 4 ==> order.len() >= 2
        &&& inland_order(grid, order)
        &&& config.islet is No ==> tree_order(order)
    }
}

/// What a generated grid is, whatever was drawn.
pub open spec fn generated(grid: GridView, config: GeneratorConfig) -> bool {
    let center = grid.center();
    &&& grid.wf()
    &&& grid.kind == GridKind::Squares
    &&& grid.width == config.grid_size
    &&& grid.height == config.grid_size
    // The entrance is carved, and every carved tile is connected to it.
    &&& grid.is_on(center)
    &&& connected_from(grid, center)
    // No tile but the entrance is tagged.
    &&& forall|x: int, y: int|
        (x, y) != (center.x as int, center.y as int) ==> #[trigger] grid.features_at(x, y)
            == Set::<Seq<char>>::empty()
    &&& grid.features_at(center.x as int, center.y as int) == set![entrance_name()] || (
    config.unsubordination is Yes && grid.features_at(center.x as int, center.y as int)
        == Set::<Seq<char>>::empty())
    // A walk without a limit that only ever steps back, and keeps to the
    // rules, leaves nothing undone: the rules allow no further tile.
    &&& config.stuck_reaction is OneStepBack && config.iteration_limit == 0
        && config.unsubordination is No ==> saturated(grid)
    &&& exists|order: Seq<Position>| #[trigger] generation_order(grid, order, config)
    // It is the grid of a whole run: iterations lead to it from the start.
    &&& exists|v: GeneratorView| #[trigger] explored(v, config) && v.grid == grid
}

/// Carving a tile inside the grid next to the head keeps the invariant.
pub proof fn lemma_advanced_wf(v: GeneratorView, direction: OrdinalDirections)
    requires
        v.wf(),
        v.active(),
        v.grid.state_of(v.destination(direction)) != TileState::Void,
    ensures
        v.advanced(direction).wf(),
        adjacent(v.position, v.destination(direction)),
{
    let w = v.advanced(direction);
    let destination = v.destination(direction);
    assert forall|p: Position| #[trigger] w.grid.is_on(p) <==> (v.grid.is_on(p) || p == destination) by {}
    let head = choose|j: int| 0 <= j < v.carved.len() && v.carved[j] == v.position;
    if !v.grid.is_on(destination) {
        assert forall|p: Position| #[trigger] w.grid.is_on(p) <==> w.carved.contains(p) by {
            if v.carved.contains(p) {
                let i = choose|i: int| 0 <= i < v.carved.len() && v.carved[i] == p;
                assert(w.carved[i] == p);
            }
            if p == destination {
                assert(w.carved[v.carved.len() as int] == p);
            }
        }
        assert forall|i: int| 0 < i < w.carved.len() implies #[trigger] touches_earlier(w.carved, i) by {
            if i < v.carved.len() {
                assert(touches_earlier(v.carved, i));
                let j = choose|j: int| 0 <= j < i && adjacent(#[trigger] v.carved[j], v.carved[i]);
                assert(adjacent(w.carved[j], w.carved[i]));
            } else {
                assert(adjacent(w.carved[head], w.carved[i]));
            }
        }
    }
    assert(w.tagged()) by {
        let center = v.grid.center();
        assert forall|x: int, y: int|
            (x, y) != (center.x as int, center.y as int) implies #[trigger] w.grid.features_at(x, y)
            == Set::<Seq<char>>::empty() by {
            if (x, y) != (destination.x as int, destination.y as int) {
                assert(w.grid.features_at(x, y) == v.grid.features_at(x, y));
            }
        }
    }
}

/// Backtracking keeps the invariant.
pub proof fn lemma_retreated_wf(v: GeneratorView, reaction: StuckReaction, pick: int)
    requires
        v.wf(),
        v.active(),
        v.valid_pick(reaction, pick),
    ensures
        v.retreated(reaction, pick).wf(),
{
    let rest = v.remaining_path(reaction);
    assert forall|i: int| 0 <= i < rest.len() implies v.grid.is_on(#[trigger] rest[i]) by {
        // What remains of the path was on the path.
        assert(v.path.contains(rest[i]));
    }
}

/// Carving never gives the rules more room: a tile from which nothing could
/// be carved stays one.
pub proof fn lemma_exhausted_stays(grid: GridView, x: int, y: int, p: Position)
    requires
        exhausted(grid, p),
    ensures
        exhausted(grid.with_tile(x, y, carved_tile()), p),
{
    let after = grid.with_tile(x, y, carved_tile());
    assert forall|direction: OrdinalDirections| !#[trigger] rule_allows(after, p, direction) by {
        let destination = moved(p, direction);
        if rule_allows(after, p, direction) {
            assert forall|i: int| 0 <= i < 5 implies #[trigger] arc_state(grid, destination, direction, i)
                == TileState::Off by {
                assert(arc_state(after, destination, direction, i) == TileState::Off);
            }
            assert(rule_allows(grid, p, direction));
        }
    }
}

/// Carving by a decision leads to a state that follows.
proof fn lemma_advance_follows(
    before: GeneratorView,
    direction: OrdinalDirections,
    config: GeneratorConfig,
    islet_word: u32,
    unsubordination_word: u32,
)
    requires
        before.wf(),
        before.active(),
        before.carves(direction, config, islet_word, unsubordination_word),
    ensures
        before.advanced(direction).ticked().wf(),
        follows(before, before.advanced(direction).ticked(), config),
{
    let after = before.advanced(direction).ticked();
    let destination = before.destination(direction);
    let check = before.arc_check(direction);
    lemma_advanced_wf(before, direction);
    assert(before.carved.is_prefix_of(after.carved));
    if config.stuck_reaction is OneStepBack && before.settled() {
        // What was on the path stays on it, and what was exhausted stays so.
        assert(after.path.last() == destination);
        assert forall|i: int| 0 <= i < after.carved.len() implies after.path.contains(
            #[trigger] after.carved[i],
        ) || exhausted(after.grid, after.carved[i]) by {
            if i < before.carved.len() {
                let p = before.carved[i];
                if before.path.contains(p) {
                    let k = choose|k: int| 0 <= k < before.path.len() && before.path[k] == p;
                    assert(after.path[k] == p);
                } else {
                    lemma_exhausted_stays(before.grid, destination.x as int, destination.y as int, p);
                }
            }
        }
    }
    if config.unsubordination is No {
        // By the rules only an uncarved tile is carved, away from the border.
        assert(before.grid.state_of(destination) == TileState::Off);
        assert(before.grid.is_on(before.grid.center()));
        assert(!check.on_border) by {
            if check.pass && check.on_border {
                let i = choose|i: int|
                    0 <= i < 5 && #[trigger] arc_state(before.grid, destination, direction, i)
                        == TileState::Void;
            }
        }
        if inland_order(before.grid, before.carved) {
            lemma_arc_inside_is_inland(before.grid, before.position, direction);
        }
        if config.islet is No && tree_order(before.carved) {
            // The new tile touches the head, and with a clear arc nothing else.
            let head = choose|j: int| 0 <= j < before.carved.len() && before.carved[j] == before.position;
            let last = before.carved.len() as int;
            assert forall|i: int| 0 < i < after.carved.len() implies #[trigger] touches_one_earlier(
                after.carved,
                i,
            ) by {
                if i < last {
                    assert(touches_one_earlier(before.carved, i));
                } else {
                    assert forall|k: int|
                        0 <= k < i && adjacent(#[trigger] after.carved[k], after.carved[i]) implies k
                        == head by {
                        let neighbour = before.carved[k];
                        assert(before.grid.is_on(neighbour));
                        if neighbour != before.position {
                            lemma_clear_arc_isolates(before.grid, before.position, direction, neighbour);
                        }
                    }
                }
            }
        }
    }
}

/// What the rules allow, no draw refuses.
pub proof fn lemma_rule_is_not_refused(
    v: GeneratorView,
    direction: OrdinalDirections,
    config: GeneratorConfig,
)
    requires
        v.carves_by_rule(direction),
    ensures
        !v.can_refuse(direction, config),
{
    assert forall|islet_word: u32, unsubordination_word: u32| #[trigger]
        v.carves(direction, config, islet_word, unsubordination_word) by {}
}

/// Backtracking from a head that is stuck leads to a state that follows.
proof fn lemma_retreat_follows(before: GeneratorView, config: GeneratorConfig, pick: int)
    requires
        before.wf(),
        before.active(),
        forall|direction: OrdinalDirections| #[trigger] before.can_refuse(direction, config),
        before.valid_pick(config.stuck_reaction, pick),
    ensures
        before.retreated(config.stuck_reaction, pick).ticked().wf(),
        follows(before, before.retreated(config.stuck_reaction, pick).ticked(), config),
{
    let after = before.retreated(config.stuck_reaction, pick).ticked();
    lemma_retreated_wf(before, config.stuck_reaction, pick);
    assert forall|direction: OrdinalDirections| !#[trigger] before.carves_by_rule(direction) by {
        assert(before.can_refuse(direction, config));
        if before.carves_by_rule(direction) {
            lemma_rule_is_not_refused(before, direction, config);
        }
    }
    if config.stuck_reaction is OneStepBack && before.settled() {
        // The tile that leaves the path is the head, which is stuck.
        let rest = before.path.drop_last();
        assert(exhausted(before.grid, before.position)) by {
            assert forall|direction: OrdinalDirections| !#[trigger] rule_allows(
                before.grid,
                before.position,
                direction,
            ) by {
                assert(!before.carves_by_rule(direction));
            }
        }
        assert forall|i: int| 0 <= i < after.carved.len() implies after.path.contains(
            #[trigger] after.carved[i],
        ) || exhausted(after.grid, after.carved[i]) by {
            let p = before.carved[i];
            if before.path.contains(p) && p != before.position {
                let k = choose|k: int| 0 <= k < before.path.len() && before.path[k] == p;
                assert(rest[k] == p);
            }
        }
    }
}

/// One iteration leads to a state that follows.
pub proof fn lemma_step_follows(before: GeneratorView, after: GeneratorView, config: GeneratorConfig)
    requires
        before.wf(),
        before.active(),
        step_outcome(before, after, config),
    ensures
        after.wf(),
        follows(before, after, config),
{
    if exists|direction: OrdinalDirections, islet_word: u32, unsubordination_word: u32|
        {
            &&& #[trigger] before.carves(direction, config, islet_word, unsubordination_word)
            &&& after == before.advanced(direction).ticked()
        } {
        let (direction, islet_word, unsubordination_word) = choose|
            direction: OrdinalDirections,
            islet_word: u32,
            unsubordination_word: u32,
        |
            {
                &&& #[trigger] before.carves(direction, config, islet_word, unsubordination_word)
                &&& after == before.advanced(direction).ticked()
            };
        lemma_advance_follows(before, direction, config, islet_word, unsubordination_word);
    } else {
        let pick = choose|pick: int|
            {
                &&& #[trigger] before.valid_pick(config.stuck_reaction, pick)
                &&& after == before.retreated(config.stuck_reaction, pick).ticked()
            };
        lemma_retreat_follows(before, config, pick);
    }
}

/// A run that goes on from its last state goes on by one iteration.
pub proof fn lemma_run_extends(trace: Seq<GeneratorView>, next: GeneratorView, config: GeneratorConfig)
    requires
        is_run(trace, config),
        goes_on(trace.last(), config),
        step_outcome(trace.last(), next, config),
    ensures
        is_run(trace.push(next), config),
        trace.push(next).first() == trace.first(),
        trace.push(next).last() == next,
{
    let longer = trace.push(next);
    assert forall|i: int| 0 <= i < longer.len() - 1 implies goes_on(#[trigger] longer[i], config)
        && step_outcome(longer[i], longer[i + 1], config) by {
        if i < trace.len() - 1 {
            assert(goes_on(trace[i], config) && step_outcome(trace[i], trace[i + 1], config));
        }
    }
}

/// Every state of a run that starts in a sound state is sound.
pub proof fn lemma_run_is_sound(trace: Seq<GeneratorView>, config: GeneratorConfig, i: int)
    requires
        is_run(trace, config),
        trace.first().wf(),
        0 <= i < trace.len(),
    ensures
        trace[i].wf(),
    decreases i,
{
    if i > 0 {
        lemma_run_is_sound(trace, config, i - 1);
        assert(goes_on(trace[i - 1], config) && step_outcome(trace[i - 1], trace[i], config));
        lemma_step_follows(trace[i - 1], trace[i], config);
    }
}

/// Once the rules allow no further tile, a walk that keeps to the rules
/// carves none: from a state with a saturated grid on, the grid of a run
/// without islets and unsubordination stays as it is.
pub proof fn lemma_saturated_run_keeps_grid(
    trace: Seq<GeneratorView>,
    config: GeneratorConfig,
    from: int,
    i: int,
)
    requires
        is_run(trace, config),
        trace.first().wf(),
        config.islet is No,
        config.unsubordination is No,
        0 <= from <= i < trace.len(),
        saturated(trace[from].grid),
    ensures
        trace[i].grid == trace[from].grid,
    decreases i,
{
    if i > from {
        let before = trace[i - 1];
        lemma_saturated_run_keeps_grid(trace, config, from, i - 1);
        lemma_run_is_sound(trace, config, i - 1);
        assert(goes_on(before, config) && step_outcome(before, trace[i], config));
        // The head stands on a carved tile, from which nothing can be carved.
        assert(exhausted(before.grid, before.position));
        assert forall|direction: OrdinalDirections, islet_word: u32, unsubordination_word: u32|
            !#[trigger] before.carves(direction, config, islet_word, unsubordination_word) by {
            assert(!rule_allows(before.grid, before.position, direction));
        }
    }
}

/// What follows from what follows, follows.
pub proof fn lemma_follows_transitive(
    first: GeneratorView,
    second: GeneratorView,
    third: GeneratorView,
    config: GeneratorConfig,
)
    requires
        follows(first, second, config),
        follows(second, third, config),
    ensures
        follows(first, third, config),
{
}

/// The state before the first iteration is sound. Its only carved tile is
/// the center.
pub proof fn lemma_initial_state(size: int)
    requires
        valid_size(size),
    ensures
        GeneratorView::initial(size).wf(),
        GeneratorView::initial(size).grid.center() == GridView::blank(GridKind::Squares, size).center(),
        tree_order(GeneratorView::initial(size).carved),
        inland_order(GeneratorView::initial(size).grid, GeneratorView::initial(size).carved),
        GeneratorView::initial(size).settled(),
        size >= 4 ==> GeneratorView::initial(size).carves_by_rule(OrdinalDirections::West),
{
    let v = GeneratorView::initial(size);
    let center = v.grid.center();
    assert(v.path.contains(center)) by {
        assert(v.path[0] == center);
    }
    assert forall|p: Position| #[trigger] v.grid.is_on(p) <==> v.carved.contains(p) by {
        assert(v.carved[0] == center);
    }
    if size >= 4 {
        // West of the center the arc reaches column zero at the farthest.
        let destination = moved(center, OrdinalDirections::West);
        lemma_arc_shape(destination, OrdinalDirections::West);
        assert forall|i: int| 0 <= i < 5 implies #[trigger] arc_state(
            v.grid,
            destination,
            OrdinalDirections::West,
            i,
        ) == TileState::Off by {}
    }
}

/// Connectivity holds all along a run, not only at its end: in every sound
/// state each carved tile can be reached from the entrance over carved tiles.
pub proof fn lemma_sound_state_is_connected(v: GeneratorView)
    requires
        v.wf(),
    ensures
        v.grid.is_on(v.grid.center()),
        connected_from(v.grid, v.grid.center()),
{
    assert(v.carved.contains(v.carved[0]));
    lemma_carving_order_connects(v.grid, v.carved);
}

/// On a grid with no room beside the entrance, a walk that keeps to the
/// rules and to the islets carves nothing but the entrance.
pub proof fn lemma_generated_without_room(grid: GridView, config: GeneratorConfig, p: Position)
    requires
        generated(grid, config),
        config.unsubordination is No,
        config.grid_size <= 3,
    ensures
        grid.is_on(p) <==> p == grid.center(),
{
    let order = choose|order: Seq<Position>| #[trigger] generation_order(grid, order, config);
    if grid.is_on(p) && p != grid.center() {
        // A carved tile other than the entrance lies off the border, where
        // such a grid has no tile but the entrance.
        let i = choose|i: int| 0 <= i < order.len() && order[i] == p;
        assert(grid.is_inland(order[i]));
    }
}

/// Where the walk keeps to the rules and no islet is allowed, no four carved
/// tiles of the generated grid form a block of two by two.
pub proof fn lemma_generated_has_no_square(grid: GridView, config: GeneratorConfig, x: int, y: int)
    requires
        generated(grid, config),
        config.unsubordination is No,
        config.islet is No,
    ensures
        !({
            &&& grid.state_at(x, y) == TileState::On
            &&& grid.state_at(x + 1, y) == TileState::On
            &&& grid.state_at(x, y + 1) == TileState::On
            &&& grid.state_at(x + 1, y + 1) == TileState::On
        }),
{
    let order = choose|order: Seq<Position>| #[trigger] generation_order(grid, order, config);
    lemma_tree_order_has_no_square(grid, order, x, y);
}

} // verus!
