use tetris_solver::engine::{Commands, Solver as Strategy};
use tetris_solver::games::tetris::board::{Board, FigureType, Glass, LevelProgress, Point};
use tetris_solver::games::tetris::commands::Command;
use tetris_solver::games::tetris::figure::Figure;
use tetris_solver::games::tetris::heuristic::Weights;
use tetris_solver::games::tetris::simulator::Simulator;
use tetris_solver::games::tetris::solver::{
    Candidate, Rotation, Settings, Shortcut, Solver, SIMULATION_DEPTH,
};
use tetris_solver::games::tetris::Solver as TetrisSolver;

const BUMPY: [u32; 7] = [0x336cf, 0x31685, 0x314cc, 0x14c8, 0x48, 0x40, 0x0];

const SPAWN: Point = Point { x: 8, y: 16 };

fn mixed_weights() -> Weights {
    Weights {
        aggregate_height: 10,
        holes: 1,
        side_holes: 1,
        completed_lines: 100,
        bumpiness: 5,
        hole_degree: 1,
        side_degree: 1,
    }
}

fn glass_of(rows: &[u32]) -> Glass {
    let mut glass = Glass::empty();
    for (y, row) in rows.iter().enumerate() {
        glass.set_row(y, *row);
    }
    glass
}

/// The well as the server shows it: with the falling figure drawn in.
fn shown(rows: &[u32], falling: FigureType) -> Glass {
    let mut glass = glass_of(rows);
    let figure = Figure::from(falling);
    for r in 0..5 {
        let y = SPAWN.y - 2 + r;
        if 0 <= y && y < 18 {
            let mut row = glass.get_row(y as usize);
            for b in 0..5 {
                if (figure.get_row(r) >> b) & 1 == 1 {
                    row ^= 1 << (SPAWN.x + 2 - b);
                }
            }
            glass.set_row(y as usize, row);
        }
    }
    glass
}

fn board_of(rows: &[u32], falling: FigureType, future: &[FigureType]) -> Board {
    Board::new(
        falling,
        future.to_vec(),
        vec![shown(rows, falling)],
        SPAWN,
        LevelProgress { total: 0, current: 0, last_passed: 0 },
    )
    .unwrap()
}

fn solver_of(depth: usize, weights: Weights, shortcut: Option<Shortcut>) -> Solver {
    let settings = Settings { depth, weights, shortcut };
    assert!(settings.is_valid());
    Solver::with_settings(settings)
}

fn chosen(solver: &mut Solver, board: &Board) -> (i32, Rotation) {
    solver.load(board);
    solver.find_best_move(board.glass())
}

fn downs() -> Vec<Command> {
    vec![Command::Down; 18]
}

#[test]
fn rotations_tried_for_each_kind() {
    let two = vec![Rotation::Identity, Rotation::Left];
    let four = vec![Rotation::Identity, Rotation::Left, Rotation::Flip, Rotation::Right];
    assert_eq!(Solver::rotations(FigureType::I), two);
    assert_eq!(Solver::rotations(FigureType::O), vec![Rotation::Identity]);
    assert_eq!(Solver::rotations(FigureType::L), four);
    assert_eq!(Solver::rotations(FigureType::J), four);
    assert_eq!(Solver::rotations(FigureType::S), two);
    assert_eq!(Solver::rotations(FigureType::Z), two);
    assert_eq!(Solver::rotations(FigureType::T), four);
}

#[test]
fn rotations_turn_into_commands() {
    assert_eq!(Command::from(Rotation::Identity), Command::Down);
    assert_eq!(Command::from(Rotation::Left), Command::RotateLeft);
    assert_eq!(Command::from(Rotation::Right), Command::RotateRight);
    assert_eq!(Command::from(Rotation::Flip), Command::Flip);
    let command: Command = Rotation::Left.into();
    assert_eq!(command, Command::RotateLeft);
}

#[test]
fn default_settings() {
    let settings = Settings::default();
    assert_eq!(settings.depth, 4);
    assert_eq!(settings.depth, SIMULATION_DEPTH);
    assert_eq!(settings.weights, Weights::default());
    assert_eq!(settings.shortcut, None);
    assert!(settings.is_valid());
    assert!(!Settings { depth: 0, ..settings }.is_valid());
    assert!(!Settings { weights: Weights { hole_degree: 9, ..Weights::default() }, ..settings }
        .is_valid());
}

#[test]
fn the_later_candidate_wins_only_with_a_higher_value() {
    let none = Candidate::none();
    assert_eq!(none, Candidate { value: i64::MIN, offset: 0, rotation: Rotation::Identity });
    let first = Candidate { value: -5, offset: 2, rotation: Rotation::Left };
    let equal = Candidate { value: -5, offset: 3, rotation: Rotation::Flip };
    let higher = Candidate { value: -4, offset: -1, rotation: Rotation::Right };
    let lowest = Candidate { value: i64::MIN, offset: 7, rotation: Rotation::Left };
    assert_eq!(none.better(first), first);
    assert_eq!(first.better(equal), first);
    assert_eq!(equal.better(first), equal);
    assert_eq!(first.better(higher), higher);
    assert_eq!(higher.better(first), higher);
    assert_eq!(none.better(lowest), none);
}

#[test]
fn commands_for_a_move() {
    let mut commands = Commands::empty();
    Solver::emit(&mut commands, -2, Rotation::Left);
    let mut expected = vec![Command::RotateLeft, Command::Left, Command::Left];
    expected.extend(downs());
    assert_eq!(commands.execute(), expected);

    Solver::emit(&mut commands, 0, Rotation::Identity);
    assert_eq!(commands.execute(), downs());

    Solver::emit(&mut commands, 3, Rotation::Flip);
    let mut expected = vec![Command::Flip, Command::Right, Command::Right, Command::Right];
    expected.extend(downs());
    assert_eq!(commands.execute(), expected);

    Solver::emit(&mut commands, 17, Rotation::Right);
    let batch = commands.execute();
    assert_eq!(batch.len(), 1 + 17 + 18);
    assert_eq!(batch[0], Command::RotateRight);
    assert!(batch[1..18].iter().all(|c| *c == Command::Right));
    assert!(batch[18..].iter().all(|c| *c == Command::Down));
}

#[test]
fn emit_adds_to_what_is_there() {
    let mut commands = Commands::empty();
    commands.add(Command::Clear);
    Solver::emit(&mut commands, 1, Rotation::Identity);
    let mut expected = vec![Command::Clear, Command::Right];
    expected.extend(downs());
    assert_eq!(commands.execute(), expected);
}

#[test]
fn start_asks_for_a_clear_arena() {
    let mut solver = TetrisSolver::new();
    let mut commands = Commands::empty();
    solver.start(&mut commands);
    assert_eq!(commands.execute(), vec![Command::Clear]);
}

#[test]
fn the_bar_fills_the_gap() {
    let rows = [0x3FFFFu32 & !0xF];
    let board = board_of(&rows, FigureType::I, &[]);
    let mut solver = solver_of(1, Weights::default(), None);
    assert_eq!(chosen(&mut solver, &board), (-7, Rotation::Left));
    let board = board_of(&rows, FigureType::I, &[FigureType::O]);
    let mut solver = solver_of(2, Weights::default(), None);
    assert_eq!(chosen(&mut solver, &board), (-7, Rotation::Left));
    let board = board_of(&rows, FigureType::I, &[FigureType::O, FigureType::T]);
    let mut solver = solver_of(3, Weights::default(), None);
    assert_eq!(chosen(&mut solver, &board), (-7, Rotation::Left));
}

#[test]
fn solve_sends_the_chosen_move() {
    let rows = [0x3FFFFu32 & !0xF];
    let board = board_of(&rows, FigureType::I, &[]);
    let mut solver = solver_of(1, Weights::default(), None);
    let mut commands = Commands::empty();
    solver.solve(&mut commands, &board);
    let mut expected = vec![Command::RotateLeft];
    expected.extend(vec![Command::Left; 7]);
    expected.extend(downs());
    assert_eq!(commands.execute(), expected);
}

#[test]
fn of_equal_moves_the_first_is_taken() {
    let board = board_of(&[], FigureType::O, &[]);
    let mut solver = solver_of(1, Weights::default(), None);
    assert_eq!(chosen(&mut solver, &board), (-8, Rotation::Identity));
}

#[test]
fn two_figures_ahead() {
    let rows = [0x3FFFFu32 & !0xF];
    let board = board_of(&rows, FigureType::T, &[FigureType::L]);
    let mut solver = solver_of(2, Weights::default(), None);
    assert_eq!(chosen(&mut solver, &board), (-5, Rotation::Right));
}

#[test]
fn the_best_move_on_a_bumpy_well() {
    let board = board_of(&BUMPY, FigureType::T, &[FigureType::I]);
    let mut solver = solver_of(1, Weights::default(), None);
    assert_eq!(chosen(&mut solver, &board), (-7, Rotation::Left));
    let mut solver = solver_of(2, Weights::default(), None);
    assert_eq!(chosen(&mut solver, &board), (-7, Rotation::Left));
}

#[test]
fn values_of_the_search() {
    let board = board_of(&BUMPY, FigureType::T, &[FigureType::I]);
    let mut solver = solver_of(1, Weights::default(), None);
    solver.load(&board);
    let mut simulator = solver.lift(board.glass());
    assert_eq!(simulator.glass(), &glass_of(&BUMPY));
    assert_eq!(solver.search(&mut simulator, 0), -177944);
    assert_eq!(simulator.glass(), &glass_of(&BUMPY));

    let mut solver = solver_of(2, Weights::default(), None);
    solver.load(&board);
    let mut simulator = solver.lift(board.glass());
    assert_eq!(solver.search(&mut simulator, 0), -175756);
    assert_eq!(simulator.glass(), &glass_of(&BUMPY));
    assert_eq!(simulator.heights(), [2, 1, 3, 5, 0, 0, 6, 4, 0, 2, 4, 0, 4, 1, 0, 0, 3, 3]);

    let board = board_of(&BUMPY, FigureType::S, &[FigureType::O]);
    let mut solver = solver_of(2, mixed_weights(), None);
    solver.load(&board);
    let mut simulator = solver.lift(board.glass());
    assert_eq!(solver.search(&mut simulator, 0), -1292);
}

#[test]
fn the_value_of_a_branch_is_the_best_of_what_follows() {
    let board = board_of(&BUMPY, FigureType::T, &[FigureType::I]);
    let mut solver = solver_of(2, Weights::default(), None);
    solver.load(&board);
    let mut simulator = solver.lift(board.glass());
    let mut best = i64::MIN;
    for rotation in Solver::rotations(FigureType::T) {
        let mut figure = Figure::from(FigureType::T);
        figure.rotate(rotation);
        for center in simulator.valid_moves(&figure) {
            let value = solver.branch(&mut simulator, &figure, center, 0);
            simulator.place_figure(&figure, center);
            assert_eq!(value, solver.search(&mut simulator, 1));
            simulator.unplace_figure(&figure, center);
            best = best.max(value);
        }
    }
    assert_eq!(best, -175756);
    let last = Figure::from(FigureType::I);
    let center = simulator.valid_moves(&last)[3];
    let value = solver.branch(&mut simulator, &last, center, 1);
    let mut copy: Simulator = simulator;
    copy.place_figure(&last, center);
    assert_eq!(value, copy.evaluate());
    assert_eq!(simulator.glass(), &glass_of(&BUMPY));
}

#[test]
fn a_short_queue_shortens_the_search() {
    let board = board_of(&BUMPY, FigureType::T, &[FigureType::I]);
    let mut deep = solver_of(4, Weights::default(), None);
    let mut two = solver_of(2, Weights::default(), None);
    assert_eq!(chosen(&mut deep, &board), chosen(&mut two, &board));
    let mut simulator = deep.lift(board.glass());
    assert_eq!(deep.search(&mut simulator, 0), -175756);

    let alone = board_of(&BUMPY, FigureType::T, &[]);
    let mut one = solver_of(1, Weights::default(), None);
    assert_eq!(chosen(&mut deep, &alone), chosen(&mut one, &alone));
    let mut simulator = deep.lift(alone.glass());
    assert_eq!(deep.search(&mut simulator, 0), -177944);
}

#[test]
fn a_long_queue_is_cut_to_the_depth() {
    let future = [FigureType::I, FigureType::O, FigureType::L, FigureType::J];
    let board = board_of(&BUMPY, FigureType::T, &future);
    let mut two = solver_of(2, Weights::default(), None);
    assert_eq!(chosen(&mut two, &board), (-7, Rotation::Left));
    let mut simulator = two.lift(board.glass());
    assert_eq!(two.search(&mut simulator, 0), -175756);
    let mut one = solver_of(1, Weights::default(), None);
    assert_eq!(chosen(&mut one, &board), (-7, Rotation::Left));
    let mut simulator = one.lift(board.glass());
    assert_eq!(one.search(&mut simulator, 0), -177944);
}

#[test]
fn the_shortcut_sends_the_bar_to_a_wall() {
    let rows = [0x3FFFFu32];
    let board = board_of(&rows, FigureType::I, &[]);
    let to_right = Shortcut { rows: 2, to_left: false };
    let to_left = Shortcut { rows: 2, to_left: true };
    let mut solver = solver_of(1, Weights::default(), Some(to_right));
    assert_eq!(chosen(&mut solver, &board), (9, Rotation::Identity));
    let mut solver = solver_of(1, Weights::default(), Some(to_left));
    assert_eq!(chosen(&mut solver, &board), (-8, Rotation::Identity));
    let mut commands = Commands::empty();
    solver.solve(&mut commands, &board);
    let mut expected = vec![Command::Left; 8];
    expected.extend(downs());
    assert_eq!(commands.execute(), expected);
}

#[test]
fn the_shortcut_waits_for_enough_rows() {
    let rows = [0x3FFFFu32];
    let board = board_of(&rows, FigureType::I, &[]);
    let mut solver = solver_of(1, Weights::default(), Some(Shortcut { rows: 3, to_left: true }));
    assert_eq!(chosen(&mut solver, &board), (-7, Rotation::Left));
    let rows = [0x3FFFFu32 & !0xF];
    let board = board_of(&rows, FigureType::I, &[]);
    let mut solver = solver_of(1, Weights::default(), Some(Shortcut { rows: 2, to_left: true }));
    assert_eq!(chosen(&mut solver, &board), (-7, Rotation::Left));
    let mut solver = solver_of(1, Weights::default(), Some(Shortcut { rows: 1, to_left: true }));
    assert_eq!(chosen(&mut solver, &board), (-8, Rotation::Identity));
}

#[test]
fn a_half_filled_row_counts_half() {
    let rows = [0x1FFu32, 0x3FFFF];
    let board = board_of(&rows, FigureType::I, &[]);
    let mut solver = solver_of(1, Weights::default(), Some(Shortcut { rows: 3, to_left: false }));
    assert_eq!(chosen(&mut solver, &board), (9, Rotation::Identity));
    let mut solver = solver_of(1, Weights::default(), Some(Shortcut { rows: 4, to_left: false }));
    assert_eq!(chosen(&mut solver, &board), (-7, Rotation::Left));
    let rows = [0xFFu32, 0x3FFFF];
    let board = board_of(&rows, FigureType::I, &[]);
    let mut solver = solver_of(1, Weights::default(), Some(Shortcut { rows: 3, to_left: false }));
    assert_ne!(chosen(&mut solver, &board), (9, Rotation::Identity));
}

#[test]
fn the_shortcut_is_for_the_bar_only() {
    let rows = [0x3FFFFu32];
    let board = board_of(&rows, FigureType::O, &[]);
    let mut solver = solver_of(1, Weights::default(), Some(Shortcut { rows: 0, to_left: false }));
    assert_eq!(chosen(&mut solver, &board), (-8, Rotation::Identity));
    let board = board_of(&[], FigureType::I, &[]);
    assert_eq!(chosen(&mut solver, &board), (9, Rotation::Identity));
}

#[test]
fn a_well_with_no_room_gives_no_move() {
    let rows = [0x3FFFFu32; 16];
    let board = board_of(&rows, FigureType::O, &[]);
    let mut solver = solver_of(1, Weights::default(), None);
    assert_eq!(chosen(&mut solver, &board), (0, Rotation::Identity));
    let mut simulator = solver.lift(board.glass());
    assert_eq!(solver.search(&mut simulator, 0), i64::MIN);
    let mut commands = Commands::empty();
    solver.solve(&mut commands, &board);
    assert_eq!(commands.execute(), downs());
}

#[test]
fn lift_takes_the_falling_figure_out_of_the_well() {
    let board = board_of(&BUMPY, FigureType::L, &[]);
    assert_ne!(board.glass(), &glass_of(&BUMPY));
    let mut solver = TetrisSolver::new();
    solver.load(&board);
    let simulator = solver.lift(board.glass());
    assert_eq!(simulator.glass(), &glass_of(&BUMPY));
}

#[test]
fn a_figure_above_the_rim_is_lifted_as_far_as_it_shows() {
    let mut glass = glass_of(&BUMPY);
    glass.set_row(17, 1 << 8);
    glass.set_row(16, 1 << 8);
    let board = Board::new(
        FigureType::I,
        vec![],
        vec![glass],
        Point::new(8, 18),
        LevelProgress { total: 0, current: 0, last_passed: 0 },
    )
    .unwrap();
    let mut solver = solver_of(1, Weights::default(), None);
    solver.load(&board);
    let simulator = solver.lift(board.glass());
    assert_eq!(simulator.glass(), &glass_of(&BUMPY));
    assert_eq!(solver.current_figure_type(), FigureType::I);
    assert_eq!(solver.current_figure_point(), Point::new(8, 18));
}

#[test]
fn the_workers_choose_as_one_thread_does() {
    let wells: [&[u32]; 4] = [&[], &BUMPY, &[0x3FFFF & !0xF], &[0x1FF, 0x3FFFF, 0x2AAAA]];
    let kinds = [
        FigureType::I,
        FigureType::O,
        FigureType::L,
        FigureType::J,
        FigureType::S,
        FigureType::Z,
        FigureType::T,
    ];
    for rows in wells {
        for falling in kinds {
            for next in [FigureType::O, FigureType::T] {
                let board = board_of(rows, falling, &[next]);
                for depth in 1..=2 {
                    for weights in [Weights::default(), mixed_weights()] {
                        let mut solver = solver_of(depth, weights, None);
                        solver.load(&board);
                        let together = solver.find_best_move(board.glass());
                        let alone = solver.find_best_move_sequential(board.glass());
                        assert_eq!(together, alone);
                    }
                }
            }
        }
    }
}

#[test]
fn the_choice_is_the_first_of_the_best_moves() {
    let board = board_of(&BUMPY, FigureType::L, &[]);
    let mut solver = solver_of(1, mixed_weights(), None);
    solver.load(&board);
    let mut simulator = solver.lift(board.glass());
    let mut best = Candidate::none();
    let mut highest = i64::MIN;
    let mut first = None;
    for rotation in Solver::rotations(FigureType::L) {
        let mut figure = Figure::from(FigureType::L);
        figure.rotate(rotation);
        for center in simulator.valid_moves(&figure) {
            let value = solver.branch(&mut simulator, &figure, center, 0);
            best = best.better(Candidate { value, offset: center.x - SPAWN.x, rotation });
            if value > highest {
                highest = value;
                first = Some((center.x - SPAWN.x, rotation));
            }
        }
    }
    assert_eq!(best.value, highest);
    assert_eq!(Some((best.offset, best.rotation)), first);
    assert_eq!(solver.find_best_move(board.glass()), (best.offset, best.rotation));
    assert_eq!(solver.find_best_move_sequential(board.glass()), (best.offset, best.rotation));
}

#[test]
fn the_default_solver_looks_four_figures_ahead() {
    let rows = [0x3FFFFu32 & !0xF];
    let future = [FigureType::O, FigureType::O, FigureType::O];
    let board = board_of(&rows, FigureType::I, &future);
    let mut solver = TetrisSolver::new();
    let mut four = solver_of(4, Weights::default(), None);
    assert_eq!(chosen(&mut solver, &board), chosen(&mut four, &board));
}
