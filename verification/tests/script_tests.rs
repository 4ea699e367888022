use labyrinth::basics::OrdinalDirections::{East, North, South, West};
use labyrinth::basics::{
    Islet, OrdinalDirections, Position, StuckReaction, Unsubordination, CHANCE_ONE,
};
use labyrinth::generators::{Generator, GeneratorConfig};
use labyrinth::grid::{GridError, TileState};
use labyrinth::script::StepDraws;

fn at(x: i32, y: i32) -> Position {
    Position { x, y }
}

fn config(size: usize, limit: usize, reaction: StuckReaction) -> GeneratorConfig {
    GeneratorConfig {
        grid_size: size,
        iteration_limit: limit,
        stuck_reaction: reaction,
        islet: Islet::No,
        unsubordination: Unsubordination::No,
    }
}

fn draws(order: [OrdinalDirections; 4], pick: usize) -> StepDraws {
    StepDraws { order, islet_words: [0; 4], unsubordination_words: [0; 4], pick }
}

/// Draws made up from a seed, the same for the same seed.
fn seeded(seed: u64, count: usize) -> Vec<StepDraws> {
    let orders = [
        [North, East, South, West],
        [West, South, East, North],
        [East, North, West, South],
        [South, West, North, East],
        [North, South, East, West],
        [West, East, South, North],
    ];
    let mut word = seed;
    let mut next = move || {
        word = word.wrapping_mul(6364136223846793005).wrapping_add(1442695040888963407);
        (word >> 33) as u32
    };
    (0..count)
        .map(|_| StepDraws {
            order: orders[next() as usize % orders.len()],
            islet_words: [next(), next(), next(), next()],
            unsubordination_words: [next(), next(), next(), next()],
            pick: next() as usize,
        })
        .collect()
}

/// The tiles in the order in which a run with the given draws carves them.
fn carving_sequence(config: &GeneratorConfig, script: &[StepDraws]) -> Vec<Position> {
    let mut generator = Generator::new(config.grid_size).unwrap();
    let mut carved = vec![generator.state().position];
    for draws in script {
        if !generator.goes_on(config) {
            break;
        }
        let remembered = generator.state().path.len();
        generator.step_with(config, draws);
        if generator.state().path.len() > remembered {
            carved.push(generator.state().position);
        }
    }
    carved
}

fn same_grid(first: &Generator, second: &Generator, size: i32) {
    for x in 0..size {
        for y in 0..size {
            assert_eq!(first.grid().state_tile(x, y), second.grid().state_tile(x, y));
            assert_eq!(
                first.grid().tile(x, y).unwrap().features,
                second.grid().tile(x, y).unwrap().features
            );
        }
    }
}

#[test]
fn scripted_run_on_five_by_five() {
    let config = config(5, 0, StuckReaction::OneStepBack);
    let script = vec![draws([North, East, South, West], 0); 40];
    assert_eq!(
        carving_sequence(&config, &script),
        vec![at(2, 2), at(2, 3), at(3, 3), at(1, 3), at(2, 1), at(3, 1), at(1, 1)]
    );
    let generator = Generator::explore_with(&config, &script).unwrap();
    assert!(generator.is_terminated());
    assert_eq!(generator.state().counter, 13);
    assert_eq!(generator.state().path, vec![]);
    let grid = generator.grid();
    for y in 0..5 {
        for x in 0..5 {
            let carved = (x == 2 && y == 2) || ((x, y) != (2, 2) && x % 2 == 1 && y % 2 == 1)
                || (x == 2 && (y == 1 || y == 3));
            let expected = if carved { TileState::On } else { TileState::Off };
            assert_eq!(grid.state_tile(x, y), expected, "({x}, {y})");
        }
    }
}

#[test]
fn equal_draws_give_equal_runs() {
    for reaction in [StuckReaction::OneStepBack, StuckReaction::RandomPosition] {
        for (islet, unsubordination) in [
            (Islet::No, Unsubordination::No),
            (Islet::Yes(CHANCE_ONE / 3), Unsubordination::No),
            (Islet::Yes(CHANCE_ONE / 3), Unsubordination::Yes(CHANCE_ONE / 50)),
        ] {
            let config = GeneratorConfig { islet, unsubordination, ..config(5, 0, reaction) };
            for seed in [1u64, 2, 3, 2024] {
                let script = seeded(seed, 300);
                let first = Generator::explore_with(&config, &script).unwrap();
                let second = Generator::explore_with(&config, &seeded(seed, 300)).unwrap();
                same_grid(&first, &second, 5);
                assert_eq!(first.state().path, second.state().path);
                assert_eq!(first.state().position, second.state().position);
                assert_eq!(first.state().path_cursor, second.state().path_cursor);
                assert_eq!(first.state().counter, second.state().counter);
                let sequence = carving_sequence(&config, &script);
                assert_eq!(sequence, carving_sequence(&config, &seeded(seed, 300)));
                assert_eq!(sequence[0], at(2, 2));
            }
        }
    }
}

#[test]
fn other_draws_can_give_another_run() {
    let config = config(5, 1, StuckReaction::OneStepBack);
    let north = Generator::explore_with(&config, &vec![draws([North, East, South, West], 0)]);
    let west = Generator::explore_with(&config, &vec![draws([West, East, South, North], 0)]);
    assert_eq!(north.unwrap().state().position, at(2, 3));
    assert_eq!(west.unwrap().state().position, at(1, 2));
}

#[test]
fn step_with_tries_in_the_order_drawn() {
    let config = config(7, 0, StuckReaction::OneStepBack);
    for (order, expected) in [
        ([North, East, South, West], at(3, 4)),
        ([East, North, South, West], at(4, 3)),
        ([South, South, South, South], at(3, 2)),
        ([West, North, East, South], at(2, 3)),
    ] {
        let mut generator = Generator::new(7).unwrap();
        generator.step_with(&config, &draws(order, 0));
        assert_eq!(generator.state().position, expected);
        assert_eq!(generator.state().counter, 1);
        assert_eq!(generator.state().path, vec![at(3, 3), expected]);
    }
    // The first direction that can be carved is taken: north of (3,5) lies
    // the border, east of it there is room.
    let mut generator = Generator::new(7).unwrap();
    generator.step_with(&config, &draws([North, East, South, West], 0));
    generator.step_with(&config, &draws([North, East, South, West], 0));
    generator.step_with(&config, &draws([North, East, South, West], 0));
    assert_eq!(generator.state().path, vec![at(3, 3), at(3, 4), at(3, 5), at(4, 5)]);
}

#[test]
fn step_with_reads_the_words_of_each_try() {
    let mut config = config(7, 0, StuckReaction::OneStepBack);
    config.islet = Islet::Yes(10);
    let mut generator = Generator::new(7).unwrap();
    generator.step_with(&config, &draws([North, East, South, West], 0));
    generator.step_with(&config, &draws([East, North, South, West], 0));
    assert_eq!(generator.state().position, at(4, 4));
    // South of (4,4) the entrance lies beside the destination: only an
    // islet carves there. The word of the first try misses, so the second
    // direction is taken.
    let mut refused = draws([South, East, North, West], 0);
    refused.islet_words = [11 * 256, 0, 0, 0];
    let mut first = Generator::new(7).unwrap();
    first.step_with(&config, &draws([North, East, South, West], 0));
    first.step_with(&config, &draws([East, North, South, West], 0));
    first.step_with(&config, &refused);
    assert_eq!(first.state().position, at(5, 4));
    let mut bridged = draws([South, East, North, West], 0);
    bridged.islet_words = [10 * 256, u32::MAX, u32::MAX, u32::MAX];
    generator.step_with(&config, &bridged);
    assert_eq!(generator.state().position, at(4, 3));
}

#[test]
fn step_with_resumes_from_the_pick_counted_round() {
    let config = config(5, 0, StuckReaction::RandomPosition);
    for (pick, cursor, head) in [
        (0usize, 0usize, at(2, 2)),
        (1, 1, at(2, 3)),
        (2, 0, at(2, 2)),
        (7, 1, at(2, 3)),
        (usize::MAX, usize::MAX % 2, if usize::MAX % 2 == 0 { at(2, 2) } else { at(2, 3) }),
    ] {
        let mut generator = Generator::new(5).unwrap();
        generator.step_with(&config, &draws([North, East, South, West], 0));
        generator.step_with(&config, &draws([East, North, South, West], 0));
        assert_eq!(generator.state().path, vec![at(2, 2), at(2, 3), at(3, 3)]);
        // The head is stuck on (3,3).
        generator.step_with(&config, &draws([North, East, South, West], pick));
        assert_eq!(generator.state().path, vec![at(2, 2), at(2, 3)]);
        assert_eq!(generator.state().path_cursor, cursor);
        assert_eq!(generator.state().position, head);
        assert_eq!(generator.state().counter, 3);
    }
}

#[test]
fn run_with_ends_with_the_run_or_the_draws() {
    let script = vec![draws([North, East, South, West], 0); 40];
    // The draws end first.
    let unlimited = config(5, 0, StuckReaction::OneStepBack);
    let generator = Generator::explore_with(&unlimited, &script[..4].to_vec()).unwrap();
    assert_eq!(generator.state().counter, 4);
    assert!(!generator.is_terminated());
    assert!(generator.goes_on(&unlimited));
    // The limit comes first.
    let limited = config(5, 6, StuckReaction::OneStepBack);
    let generator = Generator::explore_with(&limited, &script).unwrap();
    assert_eq!(generator.state().counter, 6);
    assert!(!generator.goes_on(&limited));
    // The path empties first.
    let generator = Generator::explore_with(&unlimited, &script).unwrap();
    assert_eq!(generator.state().counter, 13);
    assert!(generator.is_terminated());
    // No draws, no iteration.
    let generator = Generator::explore_with(&unlimited, &vec![]).unwrap();
    assert_eq!(generator.state().counter, 0);
    assert_eq!(generator.state().path, vec![at(2, 2)]);
    // A run picks up where another stopped.
    let mut generator = Generator::explore_with(&unlimited, &script[..4].to_vec()).unwrap();
    generator.run_with(&unlimited, &script[4..].to_vec());
    assert_eq!(generator.state().counter, 13);
    assert!(generator.is_terminated());
}

#[test]
fn explore_with_refuses_invalid_sizes() {
    let script = vec![draws([North, East, South, West], 0)];
    let refused = Generator::explore_with(&config(0, 0, StuckReaction::OneStepBack), &script);
    assert_eq!(refused.err(), Some(GridError::InvalidSize));
}

#[test]
fn goes_on_tells_when_a_run_is_over() {
    let unlimited = config(1, 0, StuckReaction::OneStepBack);
    let mut generator = Generator::new(1).unwrap();
    assert!(generator.goes_on(&unlimited));
    generator.step(&unlimited);
    assert!(!generator.goes_on(&unlimited));
    let generator = Generator::new(5).unwrap();
    assert!(generator.goes_on(&config(5, 1, StuckReaction::OneStepBack)));
    let limited = config(5, 2, StuckReaction::OneStepBack);
    let mut generator = Generator::new(5).unwrap();
    generator.step(&limited);
    assert!(generator.goes_on(&limited));
    generator.step(&limited);
    assert!(!generator.goes_on(&limited));
    assert!(generator.goes_on(&config(5, 3, StuckReaction::OneStepBack)));
    assert!(generator.goes_on(&config(5, 0, StuckReaction::OneStepBack)));
}
