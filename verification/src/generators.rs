//! The generator: a random walk that carves corridors one tile wide,
//! remembers its path, and backtracks through it when it is stuck.

use vstd::prelude::*;
use crate::arcs::{exhausted, neighbours_check, ArcCheck};
use crate::basics::{
    chance_hits, chance_hits_spec, Islet, OrdinalDirections, Position, StuckReaction,
    Unsubordination, DEFAULT_ISLET_CHANCE, DEFAULT_ITERATION_LIMIT, DEFAULT_SIZE, DEFAULT_STATE,
};
use crate::carving::{lemma_carving_order_connects, lemma_carving_order_fits};
use crate::grid::{
    lemma_names_push, names_of, valid_size, Grid, GridError, GridKind, TileFeature, TileState,
};
use crate::random::{choose_direction, random_below, random_word};
use crate::walk::{
    explored, follows, generated, generation_order, goes_on, is_run, lemma_advanced_wf,
    lemma_follows_transitive, lemma_initial_state, lemma_retreated_wf, lemma_run_extends,
    lemma_step_follows, run_outcome, step_outcome, GeneratorView,
};

verus! {

/// The options of one generation run.
#[derive(Clone, Copy, PartialEq, Eq, Structural, Debug)]
pub struct GeneratorConfig {
    /// The side of the grid.
    pub grid_size: usize,
    /// The most iterations a run may take; zero for no limit.
    pub iteration_limit: usize,
    /// What to do when every direction is blocked.
    pub stuck_reaction: StuckReaction,
    /// Whether, and how often, a corridor may touch another.
    pub islet: Islet,
    /// Whether, and how often, the carving rules are ignored.
    pub unsubordination: Unsubordination,
}

impl Default for GeneratorConfig {
    /// A grid of the default size, no iteration limit, a random jump when
    /// stuck, an islet once in a hundred tries and no unsubordination.
    fn default() -> (config: GeneratorConfig)
        ensures
            config == (GeneratorConfig {
                grid_size: DEFAULT_SIZE,
                iteration_limit: DEFAULT_ITERATION_LIMIT,
                stuck_reaction: StuckReaction::RandomPosition,
                islet: Islet::Yes(DEFAULT_ISLET_CHANCE),
                unsubordination: Unsubordination::No,
            }),
    {
        GeneratorConfig {
            grid_size: DEFAULT_SIZE,
            iteration_limit: DEFAULT_ITERATION_LIMIT,
            stuck_reaction: StuckReaction::RandomPosition,
            islet: Islet::Yes(DEFAULT_ISLET_CHANCE),
            unsubordination: Unsubordination::No,
        }
    }
}

impl GeneratorConfig {
    /// The same policies for a run on a grid of the given side with the
    /// given iteration limit.
    pub open spec fn for_run(self, grid_size: usize, iteration_limit: usize) -> GeneratorConfig {
        GeneratorConfig { grid_size, iteration_limit, ..self }
    }

    /// The options of `random_memory_based`: a random jump when stuck, an
    /// islet once in a hundred tries, no unsubordination.
    pub open spec fn memory_based(grid_size: usize, iteration_limit: usize) -> GeneratorConfig {
        GeneratorConfig {
            grid_size,
            iteration_limit,
            stuck_reaction: StuckReaction::RandomPosition,
            islet: Islet::Yes(DEFAULT_ISLET_CHANCE),
            unsubordination: Unsubordination::No,
        }
    }
}

/// Whether a tile is carved, given what was found and what was drawn.
///
/// By the rules the destination must be uncarved and its arc clear. An islet
/// lets a draw stand in for a clear arc, but never next to the border.
/// Unsubordination lets a draw overrule everything but the grid's bounds.
pub open spec fn decides_carve(
    state: TileState,
    check: ArcCheck,
    islet: Islet,
    unsubordination: Unsubordination,
    islet_word: u32,
    unsubordination_word: u32,
) -> bool {
    let bridged = islet matches Islet::Yes(chance) && !check.pass && !check.on_border
        && chance_hits_spec(chance, islet_word);
    let overruled = unsubordination matches Unsubordination::Yes(chance) && chance_hits_spec(
        chance,
        unsubordination_word,
    ) && state != TileState::Void;
    (state == TileState::Off && (check.pass || bridged)) || overruled
}

/// Decides whether to carve the destination of a move.
pub fn carve_decision(
    state: TileState,
    check: ArcCheck,
    islet: Islet,
    unsubordination: Unsubordination,
    islet_word: u32,
    unsubordination_word: u32,
) -> (carve: bool)
    ensures
        carve == decides_carve(state, check, islet, unsubordination, islet_word, unsubordination_word),
{
    let bridged = match islet {
        Islet::Yes(chance) => !check.pass && !check.on_border && chance_hits(chance, islet_word),
        Islet::No => false,
    };
    let overruled = match unsubordination {
        Unsubordination::Yes(chance) => chance_hits(chance, unsubordination_word) && state
            != TileState::Void,
        Unsubordination::No => false,
    };
    (state == TileState::Off && (check.pass || bridged)) || overruled
}

/// The memory of the generator during a run.
#[derive(Debug)]
pub struct GeneratorState {
    /// The head: where the generator stands.
    pub position: Position,
    /// The tiles it can still go back to, in the order in which it found them.
    pub path: Vec<Position>,
    /// The index in `path` from which it resumed after the last backtrack,
    /// moved on by one with every tile carved since.
    pub path_cursor: usize,
    /// The iterations done.
    pub counter: usize,
}

/// What the generator finds when it looks one step ahead.
#[derive(Clone, Copy, PartialEq, Eq, Structural, Debug)]
pub struct Prospect {
    /// The tile one step ahead.
    pub destination: Position,
    /// Its state.
    pub state: TileState,
    /// The arc check for the move.
    pub check: ArcCheck,
}

/// The generator: a grid and the memory of the walk that carves it.
pub struct Generator {
    grid: Grid,
    state: GeneratorState,
    carved: Ghost<Seq<Position>>,
}

impl View for Generator {
    type V = GeneratorView;

    closed spec fn view(&self) -> GeneratorView {
        GeneratorView {
            grid: self.grid@,
            position: self.state.position,
            path: self.state.path@,
            path_cursor: self.state.path_cursor as int,
            counter: self.state.counter as int,
            carved: self.carved@,
        }
    }
}

/// Takes the first occurrence of the direction out of the list.
fn forget_direction(available: &mut Vec<OrdinalDirections>, direction: OrdinalDirections)
    ensures
        forall|d: OrdinalDirections|
            d != direction && old(available)@.contains(d) ==> final(available)@.contains(d),
        forall|d: OrdinalDirections| final(available)@.contains(d) ==> old(available)@.contains(d),
        old(available)@.contains(direction) ==> final(available)@.len() + 1 == old(available)@.len(),
        !old(available)@.contains(direction) ==> final(available)@ == old(available)@,
{
    let mut i: usize = 0;
    while i < available.len()
        invariant
            i <= available.len(),
            available@ == old(available)@,
            forall|j: int| 0 <= j < i ==> available@[j] != direction,
        decreases available.len() - i,
    {
        if available[i] == direction {
            let ghost before = available@;
            available.remove(i);
            proof {
                assert forall|d: OrdinalDirections|
                    d != direction && before.contains(d) implies available@.contains(d) by {
                    let k = choose|k: int| 0 <= k < before.len() && before[k] == d;
                    if k < i {
                        assert(available@[k] == d);
                    } else {
                        assert(available@[k - 1] == d);
                    }
                }
                assert forall|d: OrdinalDirections| available@.contains(d) implies before.contains(d) by {
                    let k = choose|k: int| 0 <= k < available@.len() && available@[k] == d;
                }
            }
            return ;
        }
        i += 1;
    }
}

impl Generator {
    /// The grid is sound and the invariant of a run holds.
    pub closed spec fn wf(&self) -> bool {
        self.grid.wf() && self@.wf()
    }

    /// A sound generator has a well-formed view.
    pub broadcast proof fn lemma_wf_view(&self)
        requires
            #[trigger] self.wf(),
        ensures
            self@.wf(),
    {
    }

    /// A generator at the start of a run on a fresh grid of the given side:
    /// the head on the center, which is carved and tagged as the entrance.
    ///
    /// Fails exactly on a side that is not a valid size.
    pub fn new(grid_size: usize) -> (made: Result<Generator, GridError>)
        ensures
            valid_size(grid_size as int) <==> made is Ok,
            made matches Ok(generator) ==> generator.wf() && generator@ == GeneratorView::initial(
                grid_size as int,
            ),
            made matches Err(e) ==> e == GridError::InvalidSize,
    {
        let mut grid = match Grid::new(GridKind::Squares, grid_size, DEFAULT_STATE) {
            Ok(grid) => grid,
            Err(e) => {
                return Err(e);
            },
        };
        let center = Position { x: (grid_size / 2) as i32, y: (grid_size / 2) as i32 };
        let entrance = TileFeature::Named("Entrance".to_owned());
        let mut features: Vec<TileFeature> = Vec::new();
        features.push(entrance);
        proof {
            lemma_names_push(Seq::empty(), entrance);
            assert(names_of(Seq::empty()) =~= Set::empty());
        }
        grid.update_tile(center.x, center.y, !DEFAULT_STATE, features);
        let mut path: Vec<Position> = Vec::new();
        path.push(center);
        let carved: Ghost<Seq<Position>> = Ghost(Seq::empty().push(center));
        let generator = Generator {
            grid,
            state: GeneratorState { position: center, path, path_cursor: 0, counter: 0 },
            carved,
        };
        proof {
            let v = generator@;
            grid.lemma_wf_view();
            assert forall|p: Position| #[trigger] v.grid.is_on(p) <==> v.carved.contains(p) by {
                if p == center {
                    assert(v.carved[0] == p);
                }
            }
        }
        Ok(generator)
    }

    /// The grid as carved so far.
    pub fn grid(&self) -> (grid: &Grid)
        requires
            self.wf(),
        ensures
            grid.wf(),
            grid@ == self@.grid,
    {
        &self.grid
    }

    /// Gives up the generator for its grid.
    pub fn into_grid(self) -> (grid: Grid)
        requires
            self.wf(),
        ensures
            grid.wf(),
            grid@ == self@.grid,
    {
        self.grid
    }

    /// The memory of the walk.
    pub fn state(&self) -> (state: &GeneratorState)
        ensures
            state.position == self@.position,
            state.path@ == self@.path,
            state.path_cursor == self@.path_cursor,
            state.counter == self@.counter,
    {
        &self.state
    }

    /// Whether the run is over: nothing is left to go back to.
    pub fn is_terminated(&self) -> (done: bool)
        ensures
            done == !self@.active(),
    {
        self.state.path.len() == 0
    }

    /// Looks one step ahead in the direction: the tile there, its state, and
    /// the arc check for the move.
    pub fn survey(&self, direction: OrdinalDirections) -> (prospect: Prospect)
        requires
            self.wf(),
            self@.active(),
        ensures
            prospect.destination == self@.destination(direction),
            prospect.state == self@.grid.state_of(self@.destination(direction)),
            prospect.check == self@.arc_check(direction),
    {
        proof {
            self.grid.lemma_wf_view();
        }
        let step = direction.offset();
        let destination = Position {
            x: self.state.position.x + step.x,
            y: self.state.position.y + step.y,
        };
        let state = self.grid.state_tile(destination.x, destination.y);
        let check = neighbours_check(&self.grid, destination, direction);
        Prospect { destination, state, check }
    }

    /// Carves the tile in the direction and moves the head there.
    fn advance(&mut self, destination: Position, direction: OrdinalDirections)
        requires
            old(self).wf(),
            old(self)@.active(),
            destination == old(self)@.destination(direction),
            old(self)@.grid.state_of(destination) != TileState::Void,
        ensures
            final(self).wf(),
            final(self)@ == old(self)@.advanced(direction),
    {
        proof {
            self.grid.lemma_wf_view();
            lemma_advanced_wf(self@, direction);
        }
        let ghost before = self@;
        self.grid.update_tile(destination.x, destination.y, !DEFAULT_STATE, Vec::new());
        self.state.path.push(destination);
        proof {
            vstd::std_specs::vec::axiom_spec_len(&self.state.path);
        }
        self.state.path_cursor = self.state.path_cursor + 1;
        self.state.position = destination;
        proof {
            if !before.grid.is_on(destination) {
                self.carved@ = before.carved.push(destination);
            }
            assert(names_of(Seq::empty()) =~= Set::empty());
        }
    }

    /// Tries a move in the direction with the given random words: carves the
    /// tile and moves there if that is decided, and stays otherwise.
    ///
    /// `islet_word` is read only where an islet draw matters, and
    /// `unsubordination_word` only where unsubordination is allowed.
    pub fn attempt_with(
        &mut self,
        direction: OrdinalDirections,
        config: &GeneratorConfig,
        islet_word: u32,
        unsubordination_word: u32,
    ) -> (carved: bool)
        requires
            old(self).wf(),
            old(self)@.active(),
        ensures
            final(self).wf(),
            carved == old(self)@.carves(direction, *config, islet_word, unsubordination_word),
            carved ==> final(self)@ == old(self)@.advanced(direction),
            !carved ==> final(self)@ == old(self)@,
    {
        let prospect = self.survey(direction);
        let carve = carve_decision(
            prospect.state,
            prospect.check,
            config.islet,
            config.unsubordination,
            islet_word,
            unsubordination_word,
        );
        if carve {
            self.advance(prospect.destination, direction);
        }
        carve
    }

    /// Backtracks: forgets a tile, and resumes from one that is left if any
    /// is. A random resumption forgets the tile under the cursor and resumes
    /// from the one at `pick`; a step back forgets the last tile and resumes
    /// from the one before it. `pick` is not read where nothing is to pick.
    pub fn retreat(&mut self, reaction: StuckReaction, pick: usize)
        requires
            old(self).wf(),
            old(self)@.active(),
            old(self)@.valid_pick(reaction, pick as int),
        ensures
            final(self).wf(),
            final(self)@ == old(self)@.retreated(reaction, pick as int),
    {
        proof {
            lemma_retreated_wf(self@, reaction, pick as int);
        }
        match reaction {
            StuckReaction::RandomPosition => {
                self.state.path.remove(self.state.path_cursor);
            },
            StuckReaction::OneStepBack => {
                self.state.path.pop();
            },
        }
        if self.state.path.len() > 0 {
            match reaction {
                StuckReaction::RandomPosition => {
                    self.state.path_cursor = pick;
                },
                StuckReaction::OneStepBack => {
                    self.state.path_cursor = self.state.path.len() - 1;
                },
            }
            self.state.position = self.state.path[self.state.path_cursor];
        } else {
            self.state.position = Position { x: 0, y: 0 };
        }
    }

    /// Tries a move in the direction, drawing what the decision needs:
    /// carves the tile and moves there if that is decided, and stays
    /// otherwise. Whatever is drawn, the outcome is that of `attempt_with`
    /// for some pair of words.
    pub fn attempt(&mut self, direction: OrdinalDirections, config: &GeneratorConfig) -> (carved: bool)
        requires
            old(self).wf(),
            old(self)@.active(),
        ensures
            final(self).wf(),
            exists|islet_word: u32, unsubordination_word: u32|
                carved == #[trigger] old(self)@.carves(
                    direction,
                    *config,
                    islet_word,
                    unsubordination_word,
                ),
            carved ==> final(self)@ == old(self)@.advanced(direction),
            !carved ==> final(self)@ == old(self)@,
    {
        let prospect = self.survey(direction);
        let islet_word = match config.islet {
            Islet::Yes(_) => if !prospect.check.pass && !prospect.check.on_border {
                random_word()
            } else {
                0
            },
            Islet::No => 0,
        };
        let unsubordination_word = match config.unsubordination {
            Unsubordination::Yes(_) => random_word(),
            Unsubordination::No => 0,
        };
        let carve = carve_decision(
            prospect.state,
            prospect.check,
            config.islet,
            config.unsubordination,
            islet_word,
            unsubordination_word,
        );
        assert(carve == self@.carves(direction, *config, islet_word, unsubordination_word));
        if carve {
            self.advance(prospect.destination, direction);
        }
        carve
    }

    /// Counts one iteration.
    pub(crate) fn tick(&mut self)
        requires
            old(self).wf(),
            old(self)@.counter < usize::MAX,
        ensures
            final(self).wf(),
            final(self)@ == old(self)@.ticked(),
    {
        self.state.counter = self.state.counter + 1;
    }

    /// One iteration: tries the four directions in random order until a tile
    /// is carved, and backtracks if none is.
    pub fn step(&mut self, config: &GeneratorConfig)
        requires
            old(self).wf(),
            old(self)@.active(),
            old(self)@.counter < usize::MAX,
        ensures
            final(self).wf(),
            step_outcome(old(self)@, final(self)@, *config),
    {
        let ghost before = self@;
        self.tick();
        let mut available: Vec<OrdinalDirections> = Vec::new();
        available.push(OrdinalDirections::North);
        available.push(OrdinalDirections::East);
        available.push(OrdinalDirections::South);
        available.push(OrdinalDirections::West);
        let mut good_path = false;
        proof {
            assert forall|d: OrdinalDirections| available@.contains(d) by {
                match d {
                    OrdinalDirections::North => assert(available@[0] == d),
                    OrdinalDirections::East => assert(available@[1] == d),
                    OrdinalDirections::South => assert(available@[2] == d),
                    OrdinalDirections::West => assert(available@[3] == d),
                }
            }
        }
        while !good_path && available.len() > 0
            invariant
                self.wf(),
                before.wf(),
                before.active(),
                !good_path ==> self@ == before.ticked(),
                !good_path ==> forall|d: OrdinalDirections|
                    !available@.contains(d) ==> #[trigger] before.can_refuse(d, *config),
                good_path ==> exists|
                    direction: OrdinalDirections,
                    islet_word: u32,
                    unsubordination_word: u32,
                |
                    {
                        &&& #[trigger] before.carves(direction, *config, islet_word, unsubordination_word)
                        &&& self@ == before.advanced(direction).ticked()
                    },
            decreases
                    available@.len() + if good_path {
                        0int
                    } else {
                        1int
                    },
        {
            match choose_direction(&available) {
                Some(direction) => {
                    let ghost current = self@;
                    let carved = self.attempt(direction, config);
                    proof {
                        let (islet_word, unsubordination_word) = choose|
                            islet_word: u32,
                            unsubordination_word: u32,
                        |
                            carved == #[trigger] current.carves(
                                direction,
                                *config,
                                islet_word,
                                unsubordination_word,
                            );
                        assert(current.carves(direction, *config, islet_word, unsubordination_word)
                            == before.carves(direction, *config, islet_word, unsubordination_word));
                    }
                    if carved {
                        good_path = true;
                    } else {
                        forget_direction(&mut available, direction);
                    }
                },
                None => {
                    available.clear();
                },
            }
        }
        if !good_path {
            let pick = match config.stuck_reaction {
                StuckReaction::RandomPosition => if self.state.path.len() > 1 {
                    random_below(self.state.path.len() - 1)
                } else {
                    0
                },
                StuckReaction::OneStepBack => 0,
            };
            assert(before.valid_pick(config.stuck_reaction, pick as int));
            self.retreat(config.stuck_reaction, pick);
        }
    }

    /// Whether a run with these options goes on from here: a tile is left to
    /// go on from, and neither the iteration limit, if there is one, nor the
    /// largest count that fits is reached.
    pub fn goes_on(&self, config: &GeneratorConfig) -> (more: bool)
        ensures
            more == goes_on(self@, *config),
    {
        self.state.path.len() > 0 && (config.iteration_limit < 1 || self.state.counter
            < config.iteration_limit) && self.state.counter < usize::MAX
    }

    /// Iterates until nothing is left to go back to, or until the counter
    /// reaches the iteration limit of `config`, if there is one, or the
    /// largest count that fits.
    pub fn run(&mut self, config: &GeneratorConfig)
        requires
            old(self).wf(),
        ensures
            final(self).wf(),
            run_outcome(old(self)@, final(self)@, *config),
    {
        let ghost mut trace: Seq<GeneratorView> = seq![self@];
        while self.goes_on(config)
            invariant
                self.wf(),
                old(self)@.wf(),
                is_run(trace, *config),
                trace.first() == old(self)@,
                trace.last() == self@,
                follows(old(self)@, self@, *config),
                config.iteration_limit > 0 && self@.counter > old(self)@.counter ==> self@.counter
                    <= config.iteration_limit,
            decreases usize::MAX - self@.counter,
        {
            let ghost current = self@;
            self.step(config);
            proof {
                lemma_step_follows(current, self@, *config);
                lemma_follows_transitive(old(self)@, current, self@, *config);
                lemma_run_extends(trace, self@, *config);
                trace = trace.push(self@);
            }
        }
    }

    /// A whole run on a fresh grid, with the side, the limit and the
    /// policies of `config`.
    ///
    /// Fails exactly on a side that is not a valid size.
    pub fn explore(config: &GeneratorConfig) -> (made: Result<Generator, GridError>)
        ensures
            valid_size(config.grid_size as int) <==> made is Ok,
            made matches Ok(generator) ==> generator.wf() && explored(generator@, *config),
            made matches Err(e) ==> e == GridError::InvalidSize,
    {
        let mut generator = match Generator::new(config.grid_size) {
            Ok(generator) => generator,
            Err(e) => {
                return Err(e);
            },
        };
        generator.run(config);
        proof {
            let start = GeneratorView::initial(config.grid_size as int);
            let v = generator@;
            lemma_initial_state(config.grid_size as int);
            lemma_carving_order_connects(v.grid, v.carved);
            lemma_carving_order_fits(v.grid, v.carved);
            if config.stuck_reaction is OneStepBack && !v.active() {
                assert forall|p: Position| v.grid.is_on(p) implies #[trigger] exhausted(v.grid, p) by {
                    let i = choose|i: int| 0 <= i < v.carved.len() && v.carved[i] == p;
                    assert(!v.path.contains(v.carved[i]));
                }
            }
        }
        Ok(generator)
    }
}

/// Carves a labyrinth on a fresh grid of `grid_size` by `grid_size` tiles, in
/// at most `iteration_limit` iterations, or in as many as it takes if the
/// limit is zero.
///
/// Fails exactly on a side that is not a valid size. The side and the limit
/// given here stand in for those of `config`; its policies apply as they are.
pub fn generate(grid_size: usize, iteration_limit: usize, config: &GeneratorConfig) -> (made: Result<
    Grid,
    GridError,
>)
    ensures
        valid_size(grid_size as int) <==> made is Ok,
        made matches Ok(grid) ==> grid.wf() && generated(
            grid@,
            config.for_run(grid_size, iteration_limit),
        ),
        made matches Err(e) ==> e == GridError::InvalidSize,
{
    let run = GeneratorConfig {
        grid_size,
        iteration_limit,
        stuck_reaction: config.stuck_reaction,
        islet: config.islet,
        unsubordination: config.unsubordination,
    };
    match Generator::explore(&run) {
        Ok(generator) => {
            proof {
                let v = generator@;
                assert(generation_order(v.grid, v.carved, run));
            }
            Ok(generator.into_grid())
        },
        Err(e) => Err(e),
    }
}

/// Carves a labyrinth with the walk that remembers its path: a random jump
/// back when stuck, an islet once in a hundred tries, no unsubordination.
/// An iteration limit of zero is no limit.
///
/// Fails exactly on a side that is not a valid size.
pub fn random_memory_based(grid_size: usize, iteration_limit: usize) -> (made: Result<Grid, GridError>)
    ensures
        valid_size(grid_size as int) <==> made is Ok,
        made matches Ok(grid) ==> grid.wf() && generated(
            grid@,
            GeneratorConfig::memory_based(grid_size, iteration_limit),
        ),
        made matches Err(e) ==> e == GridError::InvalidSize,
{
    let config = GeneratorConfig {
        grid_size,
        iteration_limit,
        stuck_reaction: StuckReaction::RandomPosition,
        islet: Islet::Yes(DEFAULT_ISLET_CHANCE),
        unsubordination: Unsubordination::No,
    };
    generate(grid_size, iteration_limit, &config)
}

} // verus!
