//! Runs whose draws are given: each iteration takes the order in which it
//! tries the directions, the words it decides chances by, and where it
//! resumes from, so that a run is a function of its options and its draws.

use vstd::prelude::*;
use crate::basics::{OrdinalDirections, StuckReaction};
use crate::generators::{Generator, GeneratorConfig};
use crate::grid::{valid_size, GridError};
use crate::walk::{goes_on, is_run, lemma_step_follows, runs_to, step_outcome, GeneratorView};

verus! {

/// The draws of one iteration.
#[derive(Clone, Copy, PartialEq, Eq, Debug)]
pub struct StepDraws {
    /// The directions, in the order in which they are tried.
    pub order: [OrdinalDirections; 4],
    /// The word that decides an islet, for each try.
    pub islet_words: [u32; 4],
    /// The word that decides unsubordination, for each try.
    pub unsubordination_words: [u32; 4],
    /// Where a random resumption resumes from: counted round what remains of
    /// the path.
    pub pick: usize,
}

impl StepDraws {
    /// Every direction is tried.
    pub open spec fn tries_all(self) -> bool {
        forall|direction: OrdinalDirections| #[trigger] self.order@.contains(direction)
    }
}

impl GeneratorView {
    /// The first direction, from the try at `from` on, in which the draws
    /// let the generator carve; none if none does.
    pub open spec fn first_carve(self, config: GeneratorConfig, draws: StepDraws, from: int) -> Option<
        OrdinalDirections,
    >
        decreases 4 - from,
    {
        if from < 0 || from >= 4 {
            None
        } else if self.carves(
            draws.order[from],
            config,
            draws.islet_words[from],
            draws.unsubordination_words[from],
        ) {
            Some(draws.order[from])
        } else {
            self.first_carve(config, draws, from + 1)
        }
    }

    /// The index at which a random resumption resumes for the pick drawn.
    pub open spec fn resumption(self, reaction: StuckReaction, pick: usize) -> int {
        if reaction == StuckReaction::RandomPosition && self.path.len() > 1 {
            pick as int % (self.path.len() - 1)
        } else {
            0
        }
    }

    /// The state after one iteration with the given draws: the generator
    /// carves in the first direction in which the draws let it, and
    /// backtracks if they let it in none.
    pub open spec fn stepped(self, config: GeneratorConfig, draws: StepDraws) -> GeneratorView {
        match self.first_carve(config, draws, 0) {
            Some(direction) => self.advanced(direction).ticked(),
            None => self.retreated(
                config.stuck_reaction,
                self.resumption(config.stuck_reaction, draws.pick),
            ).ticked(),
        }
    }

    /// The state after a run with the given draws, one entry for each
    /// iteration: the run ends where it does not go on, or where the draws
    /// end.
    pub open spec fn ran(self, config: GeneratorConfig, script: Seq<StepDraws>) -> GeneratorView
        decreases script.len(),
    {
        if script.len() == 0 || !goes_on(self, config) {
            self
        } else {
            self.stepped(config, script.first()).ran(config, script.drop_first())
        }
    }
}

/// What the tries find: a direction in which the draws let the generator
/// carve, or that they let it in none from `from` on.
proof fn lemma_first_carve(v: GeneratorView, config: GeneratorConfig, draws: StepDraws, from: int)
    requires
        0 <= from <= 4,
    ensures
        match v.first_carve(config, draws, from) {
            Some(direction) => exists|i: int|
                from <= i < 4 && direction == draws.order[i] && #[trigger] v.carves(
                    draws.order[i],
                    config,
                    draws.islet_words[i],
                    draws.unsubordination_words[i],
                ),
            None => forall|i: int|
                from <= i < 4 ==> !#[trigger] v.carves(
                    draws.order[i],
                    config,
                    draws.islet_words[i],
                    draws.unsubordination_words[i],
                ),
        },
    decreases 4 - from,
{
    if from < 4 {
        lemma_first_carve(v, config, draws, from + 1);
    }
}

/// An iteration with given draws is an iteration: where every direction is
/// tried, what it leads to is among what one iteration can lead to.
pub proof fn lemma_stepped_is_a_step(v: GeneratorView, config: GeneratorConfig, draws: StepDraws)
    requires
        v.wf(),
        v.active(),
        draws.tries_all(),
    ensures
        step_outcome(v, v.stepped(config, draws), config),
{
    lemma_first_carve(v, config, draws, 0);
    match v.first_carve(config, draws, 0) {
        Some(direction) => {
            let i = choose|i: int|
                0 <= i < 4 && direction == draws.order[i] && #[trigger] v.carves(
                    draws.order[i],
                    config,
                    draws.islet_words[i],
                    draws.unsubordination_words[i],
                );
            assert(v.carves(direction, config, draws.islet_words[i], draws.unsubordination_words[i]));
        },
        None => {
            assert forall|direction: OrdinalDirections| #[trigger] v.can_refuse(direction, config) by {
                assert(draws.order@.contains(direction));
                let i = choose|i: int| 0 <= i < draws.order@.len() && draws.order@[i] == direction;
                assert(!v.carves(
                    draws.order[i],
                    config,
                    draws.islet_words[i],
                    draws.unsubordination_words[i],
                ));
            }
            let pick = v.resumption(config.stuck_reaction, draws.pick);
            assert(v.valid_pick(config.stuck_reaction, pick));
        },
    }
}

/// The four directions in an order that starts with the given one.
pub open spec fn order_from(first: OrdinalDirections) -> [OrdinalDirections; 4] {
    match first {
        OrdinalDirections::North => [
            OrdinalDirections::North,
            OrdinalDirections::East,
            OrdinalDirections::South,
            OrdinalDirections::West,
        ],
        OrdinalDirections::East => [
            OrdinalDirections::East,
            OrdinalDirections::South,
            OrdinalDirections::West,
            OrdinalDirections::North,
        ],
        OrdinalDirections::South => [
            OrdinalDirections::South,
            OrdinalDirections::West,
            OrdinalDirections::North,
            OrdinalDirections::East,
        ],
        OrdinalDirections::West => [
            OrdinalDirections::West,
            OrdinalDirections::North,
            OrdinalDirections::East,
            OrdinalDirections::South,
        ],
    }
}

/// An iteration is an iteration with some draws: whatever one iteration
/// leads to, draws that try every direction lead to as well.
pub proof fn lemma_step_is_stepped(before: GeneratorView, after: GeneratorView, config: GeneratorConfig)
    requires
        before.wf(),
        before.active(),
        before.path.len() <= usize::MAX,
        step_outcome(before, after, config),
    ensures
        exists|draws: StepDraws| #[trigger] draws.tries_all() && after == before.stepped(config, draws),
{
    if exists|direction: OrdinalDirections, islet_word: u32, unsubordination_word: u32|
        {
            &&& #[trigger] before.carves(direction, config, islet_word, unsubordination_word)
            &&& after == before.advanced(direction).ticked()
        } {
        let (direction, islet_word, unsubordination_word) = choose|
            direction: OrdinalDirections,
            islet_word: u32,
            unsubordination_word: u32,
        |
            {
                &&& #[trigger] before.carves(direction, config, islet_word, unsubordination_word)
                &&& after == before.advanced(direction).ticked()
            };
        let draws = StepDraws {
            order: order_from(direction),
            islet_words: [islet_word, islet_word, islet_word, islet_word],
            unsubordination_words: [
                unsubordination_word,
                unsubordination_word,
                unsubordination_word,
                unsubordination_word,
            ],
            pick: 0,
        };
        lemma_order_tries_all(draws);
        assert(draws.order[0] == direction);
        assert(before.first_carve(config, draws, 0) == Some(direction));
    } else {
        let pick = choose|pick: int|
            {
                &&& #[trigger] before.valid_pick(config.stuck_reaction, pick)
                &&& after == before.retreated(config.stuck_reaction, pick).ticked()
            };
        let order = order_from(OrdinalDirections::North);
        let refusal = |direction: OrdinalDirections|
            choose|words: (u32, u32)| !before.carves(direction, config, words.0, words.1);
        let resume: usize = if config.stuck_reaction == StuckReaction::RandomPosition
            && before.path.len() > 1 {
            pick as usize
        } else {
            0
        };
        let draws = StepDraws {
            order,
            islet_words: [
                refusal(order[0]).0,
                refusal(order[1]).0,
                refusal(order[2]).0,
                refusal(order[3]).0,
            ],
            unsubordination_words: [
                refusal(order[0]).1,
                refusal(order[1]).1,
                refusal(order[2]).1,
                refusal(order[3]).1,
            ],
            pick: resume,
        };
        lemma_order_tries_all(draws);
        assert forall|i: int| 0 <= i < 4 implies !#[trigger] before.carves(
            draws.order[i],
            config,
            draws.islet_words[i],
            draws.unsubordination_words[i],
        ) by {
            let direction = order[i];
            assert(before.can_refuse(direction, config));
            let (islet_word, unsubordination_word) = choose|islet_word: u32, unsubordination_word: u32|
                !#[trigger] before.carves(direction, config, islet_word, unsubordination_word);
            assert(!before.carves(direction, config, (islet_word, unsubordination_word).0, (
                islet_word,
                unsubordination_word,
            ).1));
        }
        lemma_first_carve(before, config, draws, 0);
        assert(before.first_carve(config, draws, 0) is None);
        if config.stuck_reaction == StuckReaction::RandomPosition && before.path.len() > 1 {
            assert(draws.pick as int == pick);
            assert(pick % (before.path.len() - 1) as int == pick) by (nonlinear_arith)
                requires
                    0 <= pick < before.path.len() - 1,
            ;
        } else if config.stuck_reaction == StuckReaction::RandomPosition {
            assert(before.remaining_path(config.stuck_reaction).len() == 0);
        }
        assert(before.retreated(config.stuck_reaction, pick) == before.retreated(
            config.stuck_reaction,
            before.resumption(config.stuck_reaction, draws.pick),
        ));
    }
}

/// Draws whose order is one of the four that start with a given direction
/// try every direction.
proof fn lemma_order_tries_all(draws: StepDraws)
    requires
        exists|first: OrdinalDirections| draws.order == #[trigger] order_from(first),
    ensures
        draws.tries_all(),
{
    let first = choose|first: OrdinalDirections| draws.order == #[trigger] order_from(first);
    assert forall|direction: OrdinalDirections| #[trigger] draws.order@.contains(direction) by {
        assert(draws.order@[0] == draws.order[0]);
        assert(draws.order@[1] == draws.order[1]);
        assert(draws.order@[2] == draws.order[2]);
        assert(draws.order@[3] == draws.order[3]);
    }
}

/// A run with given draws is a run: where every entry tries every
/// direction, iterations lead from the state it starts in to the state it
/// ends in.
pub proof fn lemma_ran_is_a_run(v: GeneratorView, config: GeneratorConfig, script: Seq<StepDraws>)
    requires
        v.wf(),
        forall|i: int| 0 <= i < script.len() ==> (#[trigger] script[i]).tries_all(),
    ensures
        runs_to(v, v.ran(config, script), config),
        v.ran(config, script).wf(),
    decreases script.len(),
{
    if script.len() == 0 || !goes_on(v, config) {
        let trace = seq![v];
        assert(is_run(trace, config) && trace.first() == v && trace.last() == v);
    } else {
        let next = v.stepped(config, script.first());
        let rest = script.drop_first();
        lemma_stepped_is_a_step(v, config, script.first());
        lemma_step_follows(v, next, config);
        assert forall|i: int| 0 <= i < rest.len() implies (#[trigger] rest[i]).tries_all() by {
            assert(rest[i] == script[i + 1]);
        }
        lemma_ran_is_a_run(next, config, rest);
        let tail = choose|trace: Seq<GeneratorView>|
            #[trigger] is_run(trace, config) && trace.first() == next && trace.last() == next.ran(
                config,
                rest,
            );
        let trace = seq![v] + tail;
        assert forall|i: int| 0 <= i < trace.len() - 1 implies goes_on(#[trigger] trace[i], config)
            && step_outcome(trace[i], trace[i + 1], config) by {
            if i > 0 {
                assert(trace[i] == tail[i - 1] && trace[i + 1] == tail[i]);
                assert(goes_on(tail[i - 1], config) && step_outcome(tail[i - 1], tail[i], config));
            } else {
                assert(trace[1] == tail[0]);
            }
        }
        assert(is_run(trace, config) && trace.first() == v && trace.last() == v.ran(config, script));
    }
}

impl Generator {
    /// One iteration with the given draws: tries the directions in the order
    /// drawn, each with its words, until a tile is carved, and backtracks if
    /// none is.
    pub fn step_with(&mut self, config: &GeneratorConfig, draws: &StepDraws)
        requires
            old(self).wf(),
            old(self)@.active(),
            old(self)@.counter < usize::MAX,
        ensures
            final(self).wf(),
            final(self)@ == old(self)@.stepped(*config, *draws),
    {
        let ghost before = self@;
        self.tick();
        let mut good_path = false;
        let mut i: usize = 0;
        while !good_path && i < 4
            invariant
                i <= 4,
                self.wf(),
                before.active(),
                !good_path ==> self@ == before.ticked(),
                !good_path ==> before.first_carve(*config, *draws, 0) == before.first_carve(
                    *config,
                    *draws,
                    i as int,
                ),
                good_path ==> before.first_carve(*config, *draws, 0) is Some && self@
                    == before.advanced(before.first_carve(*config, *draws, 0)->0).ticked(),
            decreases
                    4 - i + if good_path {
                        0int
                    } else {
                        1int
                    },
        {
            let carved = self.attempt_with(
                draws.order[i],
                config,
                draws.islet_words[i],
                draws.unsubordination_words[i],
            );
            assert(carved == before.carves(
                draws.order[i as int],
                *config,
                draws.islet_words[i as int],
                draws.unsubordination_words[i as int],
            ));
            if carved {
                good_path = true;
            } else {
                i += 1;
            }
        }
        if !good_path {
            let remembered = self.state().path.len();
            let pick = match config.stuck_reaction {
                StuckReaction::RandomPosition => if remembered > 1 {
                    draws.pick % (remembered - 1)
                } else {
                    0
                },
                StuckReaction::OneStepBack => 0,
            };
            self.retreat(config.stuck_reaction, pick);
        }
    }

    /// A run with the given draws, one entry for each iteration: iterates
    /// while the run goes on and draws are left.
    pub fn run_with(&mut self, config: &GeneratorConfig, script: &Vec<StepDraws>)
        requires
            old(self).wf(),
        ensures
            final(self).wf(),
            final(self)@ == old(self)@.ran(*config, script@),
    {
        let mut i: usize = 0;
        assert(script@.skip(0) =~= script@);
        while i < script.len() && self.goes_on(config)
            invariant
                i <= script.len(),
                self.wf(),
                old(self)@.ran(*config, script@) == self@.ran(*config, script@.skip(i as int)),
            decreases script.len() - i,
        {
            proof {
                assert(script@.skip(i as int).first() == script@[i as int]);
                assert(script@.skip(i as int).drop_first() =~= script@.skip(i + 1));
            }
            self.step_with(config, &script[i]);
            i += 1;
        }
    }

    /// A whole run on a fresh grid with the given draws.
    ///
    /// Fails exactly on a side that is not a valid size.
    pub fn explore_with(config: &GeneratorConfig, script: &Vec<StepDraws>) -> (made: Result<
        Generator,
        GridError,
    >)
        ensures
            valid_size(config.grid_size as int) <==> made is Ok,
            made matches Ok(generator) ==> generator.wf() && generator@ == GeneratorView::initial(
                config.grid_size as int,
            ).ran(*config, script@),
            made matches Err(e) ==> e == GridError::InvalidSize,
    {
        let mut generator = match Generator::new(config.grid_size) {
            Ok(generator) => generator,
            Err(e) => {
                return Err(e);
            },
        };
        generator.run_with(config, script);
        Ok(generator)
    }
}

} // verus!
