use tetris_solver::games::tetris::board::{FigureType, Glass, Point, BOARD_HEIGHT, BOARD_WIDTH};
use tetris_solver::games::tetris::figure::Figure;
use tetris_solver::games::tetris::heuristic::{Evaluator, Weights};
use tetris_solver::games::tetris::simulator::{fits_at, Simulator};
use tetris_solver::games::tetris::solver::Rotation;

const BUMPY: [u32; 7] = [0x336cf, 0x31685, 0x314cc, 0x14c8, 0x48, 0x40, 0x0];

fn glass_of(rows: &[u32]) -> Glass {
    let mut glass = Glass::empty();
    for (y, row) in rows.iter().enumerate() {
        glass.set_row(y, *row);
    }
    glass
}

fn turned(ty: FigureType, rotation: Rotation) -> Figure {
    let mut figure = Figure::from(ty);
    figure.rotate(rotation);
    figure
}

fn points(list: &[(i32, i32)]) -> Vec<Point> {
    list.iter().map(|p| Point::new(p.0, p.1)).collect()
}

fn measured(glass: &Glass) -> [i32; 18] {
    let mut heights = [0; 18];
    for x in 0..BOARD_WIDTH {
        for y in 0..BOARD_HEIGHT {
            if (glass.get_row(y) >> x) & 1 == 1 {
                heights[x] = y as i32 + 1;
            }
        }
    }
    heights
}

fn mixed_weights() -> Weights {
    Weights {
        aggregate_height: 10,
        holes: 1,
        side_holes: 1,
        completed_lines: 100,
        bumpiness: 5,
        hole_degree: 1,
        side_degree: 1,
    }
}

#[test]
fn a_new_simulator_measures_every_column() {
    let evaluator = Evaluator::new(Weights::default());
    let glass = glass_of(&BUMPY);
    let simulator = Simulator::new(&glass, &evaluator);
    assert_eq!(
        simulator.heights(),
        [2, 1, 3, 5, 0, 0, 6, 4, 0, 2, 4, 0, 4, 1, 0, 0, 3, 3]
    );
    assert_eq!(simulator.heights(), measured(&glass));
    assert_eq!(simulator.glass(), &glass);
}

#[test]
fn long_bar_lying_on_the_empty_well() {
    let evaluator = Evaluator::new(Weights::default());
    let mut simulator = Simulator::new(&Glass::empty(), &evaluator);
    let bar = turned(FigureType::I, Rotation::Left);
    let moves = simulator.valid_moves(&bar);
    let width = BOARD_WIDTH as i32;
    assert_eq!(moves.len() as i32, width - bar.left() - bar.right());
    assert_eq!(moves.len(), 15);
    for (i, center) in moves.iter().enumerate() {
        assert_eq!(center.y, 0);
        assert_eq!(center.x, i as i32 + 1);
    }
}

#[test]
fn square_in_the_left_corner_raises_two_columns_by_two() {
    let evaluator = Evaluator::new(Weights::default());
    let mut simulator = Simulator::new(&Glass::empty(), &evaluator);
    let square = Figure::from(FigureType::O);
    let moves = simulator.valid_moves(&square);
    assert_eq!(moves.len(), 17);
    assert_eq!(moves[0], Point::new(0, 1));
    simulator.place_figure(&square, moves[0]);
    let mut expected = [0; 18];
    expected[0] = 2;
    expected[1] = 2;
    assert_eq!(simulator.heights(), expected);
    assert_eq!(simulator.glass().get_row(0), 0b11);
    assert_eq!(simulator.glass().get_row(1), 0b11);
    for y in 2..BOARD_HEIGHT {
        assert_eq!(simulator.glass().get_row(y), 0);
    }
}

#[test]
fn moves_on_a_bumpy_well() {
    let evaluator = Evaluator::new(Weights::default());
    let mut simulator = Simulator::new(&glass_of(&BUMPY), &evaluator);
    assert_eq!(
        simulator.valid_moves(&Figure::from(FigureType::I)),
        points(&[
            (0, 4), (1, 3), (2, 5), (3, 7), (4, 2), (5, 2), (6, 8), (7, 6), (8, 2), (9, 4),
            (10, 6), (11, 2), (12, 6), (13, 3), (14, 2), (15, 2), (16, 5), (17, 5),
        ])
    );
    assert_eq!(
        simulator.valid_moves(&turned(FigureType::I, Rotation::Left)),
        points(&[
            (1, 5), (2, 5), (3, 5), (4, 6), (5, 6), (6, 6), (7, 6), (8, 4), (9, 4), (10, 4),
            (11, 4), (12, 4), (13, 4), (14, 3), (15, 3),
        ])
    );
    assert_eq!(
        simulator.valid_moves(&turned(FigureType::L, Rotation::Flip)),
        points(&[
            (1, 2), (2, 4), (3, 6), (4, 5), (5, 1), (6, 7), (7, 6), (8, 4), (9, 3), (10, 5),
            (11, 4), (12, 5), (13, 4), (14, 1), (15, 1), (16, 4), (17, 4),
        ])
    );
    assert_eq!(
        simulator.valid_moves(&turned(FigureType::J, Rotation::Left)),
        points(&[
            (1, 4), (2, 6), (3, 5), (4, 5), (5, 7), (6, 6), (7, 6), (8, 4), (9, 5), (10, 4),
            (11, 5), (12, 4), (13, 4), (14, 1), (15, 4), (16, 4),
        ])
    );
    assert_eq!(
        simulator.valid_moves(&turned(FigureType::Z, Rotation::Left)),
        points(&[
            (1, 3), (2, 3), (3, 5), (4, 6), (5, 1), (6, 6), (7, 7), (8, 5), (9, 2), (10, 4),
            (11, 5), (12, 4), (13, 5), (14, 2), (15, 1), (16, 3), (17, 4),
        ])
    );
    assert_eq!(
        simulator.valid_moves(&turned(FigureType::T, Rotation::Right)),
        points(&[
            (0, 3), (1, 3), (2, 5), (3, 6), (4, 1), (5, 6), (6, 7), (7, 5), (8, 2), (9, 4),
            (10, 5), (11, 4), (12, 5), (13, 2), (14, 1), (15, 3), (16, 4),
        ])
    );
}

#[test]
fn every_move_is_legal_and_free_of_collision() {
    let evaluator = Evaluator::new(Weights::default());
    let glass = glass_of(&BUMPY);
    let mut simulator = Simulator::new(&glass, &evaluator);
    let kinds = [
        FigureType::I,
        FigureType::O,
        FigureType::L,
        FigureType::J,
        FigureType::S,
        FigureType::Z,
        FigureType::T,
    ];
    let rotations = [Rotation::Identity, Rotation::Left, Rotation::Flip, Rotation::Right];
    for ty in kinds {
        for rotation in rotations {
            let figure = turned(ty, rotation);
            let moves = simulator.valid_moves(&figure);
            assert!(!moves.is_empty());
            let mut last = -1;
            for center in moves {
                assert!(0 <= center.x && center.x < BOARD_WIDTH as i32);
                assert!(0 <= center.y && center.y < 16);
                assert!(fits_at(&figure, center));
                assert!(!simulator.intersect_figure(&figure, center));
                assert!(last < center.x);
                last = center.x;
            }
            assert_eq!(simulator.glass(), &glass);
        }
    }
}

#[test]
fn a_figure_that_would_top_out_has_no_move() {
    let evaluator = Evaluator::new(Weights::default());
    let mut rows = [0u32; 18];
    for row in rows.iter_mut().take(14) {
        *row = 0x3FFFE;
    }
    let mut simulator = Simulator::new(&glass_of(&rows), &evaluator);
    assert_eq!(
        simulator.valid_moves(&Figure::from(FigureType::I)),
        points(&[(0, 2)])
    );
    assert_eq!(
        simulator.valid_moves(&Figure::from(FigureType::O)),
        points(&[(0, 15), (1, 15), (2, 15), (3, 15), (4, 15), (5, 15), (6, 15), (7, 15),
            (8, 15), (9, 15), (10, 15), (11, 15), (12, 15), (13, 15), (14, 15), (15, 15),
            (16, 15)])
    );
    rows[14] = 0x3FFFE;
    let mut simulator = Simulator::new(&glass_of(&rows), &evaluator);
    assert_eq!(simulator.valid_moves(&Figure::from(FigureType::O)), points(&[]));
    assert_eq!(
        simulator.valid_moves(&turned(FigureType::I, Rotation::Left)),
        points(&[(1, 15), (2, 15), (3, 15), (4, 15), (5, 15), (6, 15), (7, 15), (8, 15),
            (9, 15), (10, 15), (11, 15), (12, 15), (13, 15), (14, 15), (15, 15)])
    );
    rows[15] = 0x3FFFE;
    let mut simulator = Simulator::new(&glass_of(&rows), &evaluator);
    assert_eq!(
        simulator.valid_moves(&turned(FigureType::I, Rotation::Left)),
        points(&[])
    );
    assert_eq!(
        simulator.valid_moves(&Figure::from(FigureType::I)),
        points(&[(0, 2)])
    );
}

#[test]
fn a_move_under_an_overhang_is_dropped() {
    let evaluator = Evaluator::new(Weights::default());
    let rows = [0u32, 0, 0, 0b110];
    let mut simulator = Simulator::new(&glass_of(&rows), &evaluator);
    let bar = Figure::from(FigureType::I);
    assert!(simulator.intersect_figure(&bar, Point::new(1, 2)));
    assert!(simulator.intersect_figure(&bar, Point::new(2, 4)));
    assert!(!simulator.intersect_figure(&bar, Point::new(0, 2)));
    assert!(!simulator.intersect_figure(&bar, Point::new(1, 6)));
    let square = Figure::from(FigureType::O);
    let moves = simulator.valid_moves(&square);
    assert_eq!(moves[0], Point::new(0, 5));
    assert_eq!(moves[1], Point::new(1, 5));
    assert_eq!(moves[2], Point::new(2, 5));
    assert_eq!(moves[3], Point::new(3, 1));
}

#[test]
fn unplace_undoes_place() {
    let evaluator = Evaluator::new(Weights::default());
    let glass = glass_of(&BUMPY);
    let kinds = [
        FigureType::I,
        FigureType::O,
        FigureType::L,
        FigureType::J,
        FigureType::S,
        FigureType::Z,
        FigureType::T,
    ];
    let rotations = [Rotation::Identity, Rotation::Left, Rotation::Flip, Rotation::Right];
    for ty in kinds {
        for rotation in rotations {
            let figure = turned(ty, rotation);
            for x in 0..BOARD_WIDTH as i32 {
                for y in 0..BOARD_HEIGHT as i32 + 6 {
                    let center = Point::new(x, y - 3);
                    if !fits_at(&figure, center) {
                        continue;
                    }
                    let mut simulator = Simulator::new(&glass, &evaluator);
                    simulator.place_figure(&figure, center);
                    assert_eq!(simulator.heights(), measured(simulator.glass()));
                    simulator.unplace_figure(&figure, center);
                    assert_eq!(simulator.glass(), &glass);
                    assert_eq!(simulator.heights(), measured(&glass));
                }
            }
        }
    }
}

#[test]
fn place_toggles_the_cells_of_the_figure() {
    let evaluator = Evaluator::new(Weights::default());
    let mut simulator = Simulator::new(&Glass::empty(), &evaluator);
    let tee = Figure::from(FigureType::T);
    simulator.place_figure(&tee, Point::new(5, 0));
    assert_eq!(simulator.glass().get_row(0), 0b1110000);
    assert_eq!(simulator.glass().get_row(1), 0b0100000);
    assert_eq!(simulator.glass().get_row(2), 0);
    let ell = turned(FigureType::L, Rotation::Right);
    simulator.place_figure(&ell, Point::new(16, 1));
    assert_eq!(simulator.glass().get_row(0), 0b1110000 | (1 << 15));
    assert_eq!(simulator.glass().get_row(1), 0b0100000 | (0b111 << 15));
    let mut expected = [0; 18];
    expected[4] = 1;
    expected[5] = 2;
    expected[6] = 1;
    expected[15] = 2;
    expected[16] = 2;
    expected[17] = 2;
    assert_eq!(simulator.heights(), expected);
}

#[test]
fn the_window_is_cut_off_at_the_rim_and_at_the_floor() {
    let evaluator = Evaluator::new(Weights::default());
    let mut simulator = Simulator::new(&Glass::empty(), &evaluator);
    let bar = Figure::from(FigureType::I);
    simulator.place_figure(&bar, Point::new(3, 17));
    assert_eq!(simulator.glass().get_row(17), 1 << 3);
    assert_eq!(simulator.glass().get_row(16), 1 << 3);
    assert_eq!(simulator.glass().get_row(15), 1 << 3);
    assert_eq!(simulator.glass().get_row(14), 0);
    assert_eq!(simulator.heights()[3], 18);
    simulator.unplace_figure(&bar, Point::new(3, 17));
    assert_eq!(simulator.glass(), &Glass::empty());
    simulator.place_figure(&bar, Point::new(9, 0));
    assert_eq!(simulator.glass().get_row(0), 1 << 9);
    assert_eq!(simulator.glass().get_row(1), 1 << 9);
    assert_eq!(simulator.glass().get_row(2), 0);
    assert_eq!(simulator.heights()[9], 2);
    simulator.unplace_figure(&bar, Point::new(9, 0));
    simulator.place_figure(&bar, Point::new(4, 19));
    assert_eq!(simulator.glass().get_row(17), 1 << 4);
    assert_eq!(simulator.glass().get_row(16), 0);
    assert_eq!(simulator.heights()[4], 18);
    simulator.place_figure(&bar, Point::new(6, -1));
    assert_eq!(simulator.glass().get_row(0), 1 << 6);
    assert_eq!(simulator.glass().get_row(1), 0);
    assert_eq!(simulator.heights()[6], 1);
    let still = *simulator.glass();
    simulator.place_figure(&bar, Point::new(7, 40));
    simulator.place_figure(&bar, Point::new(7, -40));
    simulator.place_figure(&bar, Point::new(7, i32::MAX));
    simulator.unplace_figure(&bar, Point::new(7, i32::MIN));
    assert!(!simulator.intersect_figure(&bar, Point::new(4, 30)));
    assert!(simulator.intersect_figure(&bar, Point::new(4, 19)));
    assert_eq!(simulator.glass(), &still);
}

#[test]
fn heights_follow_the_well_through_placing_and_taking_away() {
    let evaluator = Evaluator::new(Weights::default());
    let glass = glass_of(&BUMPY);
    let mut simulator = Simulator::new(&glass, &evaluator);
    let first = turned(FigureType::S, Rotation::Left);
    let second = Figure::from(FigureType::I);
    let third = turned(FigureType::J, Rotation::Right);
    let a = simulator.valid_moves(&first)[4];
    simulator.place_figure(&first, a);
    assert_eq!(simulator.heights(), measured(simulator.glass()));
    let b = simulator.valid_moves(&second)[5];
    simulator.place_figure(&second, b);
    assert_eq!(simulator.heights(), measured(simulator.glass()));
    let c = simulator.valid_moves(&third)[4];
    simulator.place_figure(&third, c);
    assert_eq!(simulator.heights(), measured(simulator.glass()));
    simulator.unplace_figure(&first, a);
    assert_eq!(simulator.heights(), measured(simulator.glass()));
    simulator.place_figure(&first, a);
    assert_eq!(simulator.heights(), measured(simulator.glass()));
    simulator.unplace_figure(&third, c);
    simulator.unplace_figure(&second, b);
    simulator.unplace_figure(&first, a);
    assert_eq!(simulator.glass(), &glass);
    assert_eq!(simulator.heights(), measured(&glass));
}

#[test]
fn placing_onto_filled_cells_clears_them_and_lowers_the_column() {
    let evaluator = Evaluator::new(Weights::default());
    let rows = [0b1u32, 0b1, 0b1, 0b1];
    let mut simulator = Simulator::new(&glass_of(&rows), &evaluator);
    let bar = Figure::from(FigureType::I);
    simulator.place_figure(&bar, Point::new(0, 2));
    assert_eq!(simulator.glass(), &Glass::empty());
    assert_eq!(simulator.heights(), [0; 18]);
    let rows = [0b1u32, 0b1, 0b1, 0b1, 0b1];
    let mut simulator = Simulator::new(&glass_of(&rows), &evaluator);
    simulator.place_figure(&bar, Point::new(0, 3));
    assert_eq!(simulator.glass().get_row(0), 1);
    assert_eq!(simulator.glass().get_row(1), 0);
    assert_eq!(simulator.heights()[0], 1);
}

#[test]
fn an_empty_well_scores_nothing() {
    let evaluator = Evaluator::new(Weights::default());
    let simulator = Simulator::new(&Glass::empty(), &evaluator);
    assert_eq!(simulator.evaluate(), 0);
    let evaluator = Evaluator::new(mixed_weights());
    let simulator = Simulator::new(&Glass::empty(), &evaluator);
    assert_eq!(simulator.evaluate(), 0);
}

#[test]
fn a_wall_at_the_right_side_buries_no_cell() {
    let text = ".................#".repeat(18);
    let glass = Glass::parse(&text).unwrap();
    assert_eq!(glass.get_col(BOARD_WIDTH - 1), 0x3FFFF);
    let holes_only = Weights { side_holes: 0, ..Weights::default() };
    let evaluator = Evaluator::new(holes_only);
    let simulator = Simulator::new(&glass, &evaluator);
    assert_eq!(simulator.evaluate(), 0);
    let evaluator = Evaluator::new(Weights::default());
    let simulator = Simulator::new(&glass, &evaluator);
    assert_eq!(simulator.evaluate(), -2109);
}

#[test]
fn one_cell_in_the_air() {
    let rows = [0u32, 0, 1 << 3];
    let evaluator = Evaluator::new(Weights::default());
    let simulator = Simulator::new(&glass_of(&rows), &evaluator);
    assert_eq!(simulator.evaluate(), -(104976 + 83521) - 2 * (324 + 289 + 256));
    let evaluator = Evaluator::new(mixed_weights());
    let simulator = Simulator::new(&glass_of(&rows), &evaluator);
    assert_eq!(simulator.evaluate(), -30 - 35 - 102 - 30);
}

#[test]
fn a_full_row_counts_for_the_score() {
    let rows = [0x3FFFFu32];
    let evaluator = Evaluator::new(Weights::default());
    let simulator = Simulator::new(&glass_of(&rows), &evaluator);
    assert_eq!(simulator.evaluate(), 0);
    let evaluator = Evaluator::new(mixed_weights());
    let simulator = Simulator::new(&glass_of(&rows), &evaluator);
    assert_eq!(simulator.evaluate(), 100 - 180);
}

#[test]
fn a_deep_hole_costs_more_than_a_shallow_one() {
    let evaluator = Evaluator::new(Weights { side_holes: 0, ..Weights::default() });
    let shallow = [0u32; 18];
    let mut rows = shallow;
    rows[17] = 1;
    let high = Simulator::new(&glass_of(&rows[..]), &evaluator).evaluate();
    let mut rows = shallow;
    rows[1] = 1;
    let low = Simulator::new(&glass_of(&rows[..]), &evaluator).evaluate();
    assert_eq!(low, -104976);
    let mut sum = 0;
    for depth in 2..=18i64 {
        sum += depth * depth * depth * depth;
    }
    assert_eq!(high, -sum);
    let mut rows = shallow;
    rows[16] = 1;
    rows[17] = 1;
    let top = Simulator::new(&glass_of(&rows[..]), &evaluator).evaluate();
    assert!(low > top);
}

#[test]
fn score_of_a_bumpy_well() {
    let glass = glass_of(&BUMPY);
    let evaluator = Evaluator::new(Weights::default());
    assert_eq!(Simulator::new(&glass, &evaluator).evaluate(), -178328);
    let evaluator = Evaluator::new(mixed_weights());
    assert_eq!(Simulator::new(&glass, &evaluator).evaluate(), -1313);
    assert_eq!(evaluator.weights(), mixed_weights());
}

#[test]
fn the_table_counts_the_set_bits() {
    let evaluator = Evaluator::new(Weights::default());
    assert_eq!(evaluator.count_ones(0), 0);
    assert_eq!(evaluator.count_ones(1), 1);
    assert_eq!(evaluator.count_ones(0b1011), 3);
    assert_eq!(evaluator.count_ones(0x20000), 1);
    assert_eq!(evaluator.count_ones(0x3FFFF), 18);
    for bits in [5u32, 77, 1000, 65535, 131071, 200000, 262143] {
        assert_eq!(evaluator.count_ones(bits) as u32, bits.count_ones());
    }
}

#[test]
fn weights_have_limits() {
    assert!(Weights::default().is_valid());
    assert!(mixed_weights().is_valid());
    assert!(Weights { holes: 100_000, hole_degree: 8, ..Weights::default() }.is_valid());
    assert!(!Weights { holes: 100_001, ..Weights::default() }.is_valid());
    assert!(!Weights { side_degree: 9, ..Weights::default() }.is_valid());
    assert!(!Weights { bumpiness: u32::MAX, ..Weights::default() }.is_valid());
}

#[test]
fn the_largest_weights_do_not_overflow() {
    let heavy = Weights {
        aggregate_height: 100_000,
        holes: 100_000,
        side_holes: 100_000,
        completed_lines: 100_000,
        bumpiness: 100_000,
        hole_degree: 8,
        side_degree: 8,
    };
    let evaluator = Evaluator::new(heavy);
    let mut rows = [0u32; 18];
    rows[17] = 0b010101010101010101;
    let value = Simulator::new(&glass_of(&rows), &evaluator).evaluate();
    let mut buried: i64 = 0;
    for depth in 2..=18i64 {
        buried += 9 * depth.pow(8);
    }
    let mut shaded: i64 = 0;
    for depth in 1..=18i64 {
        shaded += 17 * depth.pow(8);
    }
    assert_eq!(value, -100_000 * (9 * 18) - 100_000 * buried - 100_000 * shaded - 100_000 * (17 * 18));
}

#[test]
fn the_picture_of_the_simulator_is_that_of_its_well() {
    let evaluator = Evaluator::new(Weights::default());
    let glass = glass_of(&BUMPY);
    let simulator = Simulator::new(&glass, &evaluator);
    assert_eq!(simulator.visualize(), glass.visualize());
}
