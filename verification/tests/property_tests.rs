use life_engine::array_grid::ArrayGrid;
use life_engine::console::{ConsolePoint, calc_move_offset};
use life_engine::decimal::{i64_string, u64_string};
use life_engine::dynamic_array2d_board::DynamicArray2dLifeBoard;
use life_engine::dynamic_vector_board::DynamicVectorLifeBoard;
use life_engine::fixed_bitfield_board::FixedBitfieldLifeBoard;
use life_engine::fixed_vector_board::FixedVectorLifeBoard;
use life_engine::geometry::Rectangle;
use life_engine::life_board::{BoardPoint, LifeBoard};
use life_engine::pattern::Pattern;

fn manual_neighbor_count<B: LifeBoard>(board: &B, x: i64, y: i64) -> u8 {
    let mut count: u8 = 0;
    for dx in -1..=1i64 {
        for dy in -1..=1i64 {
            if (dx != 0 || dy != 0) && board.is_live(x + dx, y + dy) {
                count += 1;
            }
        }
    }
    count
}

fn stamp_r_pentomino<B: LifeBoard>(board: &mut B) {
    board.set_live(1, 0);
    board.set_live(2, 0);
    board.set_live(0, 1);
    board.set_live(1, 1);
    board.set_live(1, 2);
}

/// The reported neighbor count matches a direct count of the 8
/// surrounding cells, on every backend and including border cells.
#[test]
fn neighbor_counts_match_direct_reads() {
    let mut fixed = life_engine::new_fixed_vector_board();
    let mut dynamic = life_engine::new_dynamic_vector_board();
    let mut flat = life_engine::new_dynamic_array2d_board();
    let mut bitfield = life_engine::new_fixed_bitfield_board();
    stamp_r_pentomino(&mut fixed);
    stamp_r_pentomino(&mut dynamic);
    stamp_r_pentomino(&mut flat);
    stamp_r_pentomino(&mut bitfield);
    for x in -2..5i64 {
        for y in -2..5i64 {
            assert_eq!(fixed.count_live_neighbors(x, y), manual_neighbor_count(&fixed, x, y));
            assert_eq!(dynamic.count_live_neighbors(x, y), manual_neighbor_count(&dynamic, x, y));
            assert_eq!(flat.count_live_neighbors(x, y), manual_neighbor_count(&flat, x, y));
            assert_eq!(bitfield.count_live_neighbors(x, y), manual_neighbor_count(&bitfield, x, y));
        }
    }
}

/// Setting a cell makes it read back as set, on every backend.
#[test]
fn set_then_read_round_trip() {
    let mut fixed = FixedVectorLifeBoard::empty();
    fixed.set_liveness(3, 4, true);
    assert!(fixed.is_live(3, 4));
    fixed.set_liveness(3, 4, false);
    assert!(!fixed.is_live(3, 4));

    let mut dynamic = DynamicVectorLifeBoard::empty();
    dynamic.set_liveness(-3, 400, true);
    assert!(dynamic.is_live(-3, 400));
    dynamic.set_liveness(-3, 400, false);
    assert!(!dynamic.is_live(-3, 400));

    let mut flat = DynamicArray2dLifeBoard::empty();
    flat.set_liveness(-3, 400, true);
    assert!(flat.is_live(-3, 400));
    flat.set_liveness(-3, 400, false);
    assert!(!flat.is_live(-3, 400));

    let mut bitfield = FixedBitfieldLifeBoard::empty();
    bitfield.set_liveness(3, 4, true);
    assert!(bitfield.is_live(3, 4));
    bitfield.set_liveness(3, 4, false);
    assert!(!bitfield.is_live(3, 4));
}

/// Setting a live cell live again, or clearing a dead cell, changes
/// nothing; in particular the bitfield's neighbor counts stay paired.
#[test]
fn redundant_writes_change_nothing() {
    let mut bitfield = FixedBitfieldLifeBoard::empty();
    bitfield.set_live(2, 2);
    bitfield.set_live(2, 2);
    assert_eq!(1, bitfield.get_live_count());
    assert_eq!(1, bitfield.count_live_neighbors(2, 3));
    bitfield.set_liveness(5, 5, false);
    assert_eq!(1, bitfield.get_live_count());
    assert_eq!(1, bitfield.count_live_neighbors(2, 3));
}

/// The number of coordinates reading live equals the live_cells figure
/// that get_stats reports.
#[test]
fn stats_live_cells_matches_reads() {
    let mut board = DynamicVectorLifeBoard::empty();
    board.set_live(0, 0);
    board.set_live(2, 1);
    board.set_live(-4, -7);
    let mut seen: u32 = 0;
    for x in -10..10i64 {
        for y in -10..10i64 {
            if board.is_live(x, y) {
                seen += 1;
            }
        }
    }
    assert_eq!(3, seen);
    let stats = board.get_stats();
    assert_eq!(4, stats.len());
    assert_eq!("live_cells", stats[1].0);
    assert_eq!("3", stats[1].1);
}

#[test]
fn stats_name_each_backend() {
    assert_eq!("implementation", FixedVectorLifeBoard::empty().get_stats()[0].0);
    assert_eq!("Fixed vector", FixedVectorLifeBoard::empty().get_stats()[0].1);
    assert_eq!("Dynamic vector", DynamicVectorLifeBoard::empty().get_stats()[0].1);
    assert_eq!("Dynamic Array2d", DynamicArray2dLifeBoard::empty().get_stats()[0].1);
    assert_eq!("Fixed bitfield", FixedBitfieldLifeBoard::empty().get_stats()[0].1);
}

/// After any sequence of writes and steps, the dynamic backends'
/// live_extent is the minimal box around the live cells, inside the
/// allocated footprint.
#[test]
fn live_extent_stays_minimal() {
    let mut board = DynamicVectorLifeBoard::empty();
    board.set_live(2, 2);
    board.set_live(5, 5);
    let le = board.live_extent();
    assert_eq!((2, 2, 4, 4), (le.x_min, le.y_min, le.width, le.height));
    board.set_liveness(5, 5, false);
    let le = board.live_extent();
    assert_eq!((2, 2, 1, 1), (le.x_min, le.y_min, le.width, le.height));
    let be = board.board_extent();
    assert!(be.x_min <= le.x_min && be.y_min <= le.y_min);
    assert!(le.x_min + le.width <= be.x_min + be.width);
    assert!(le.y_min + le.height <= be.y_min + be.height);

    let mut flat = DynamicArray2dLifeBoard::empty();
    flat.set_live(2, 2);
    flat.set_live(5, 5);
    flat.set_liveness(2, 2, false);
    let le = flat.live_extent();
    assert_eq!((5, 5, 1, 1), (le.x_min, le.y_min, le.width, le.height));
}

/// A board with zero live cells still has zero live cells after a step,
/// for every backend.
#[test]
fn empty_board_stays_empty() {
    let mut fixed = life_engine::new_fixed_vector_board();
    fixed.step_one();
    assert_eq!(0, fixed.get_live_count());
    let mut dynamic = life_engine::new_dynamic_vector_board();
    dynamic.step_one();
    assert_eq!(0, dynamic.get_live_count());
    let mut flat = life_engine::new_dynamic_array2d_board();
    flat.step_one();
    assert_eq!(0, flat.get_live_count());
    let mut bitfield = life_engine::new_fixed_bitfield_board();
    bitfield.step_one();
    assert_eq!(0, bitfield.get_live_count());
}

/// The same starting cells stepped the same number of times give the
/// same live set on all four backends.
#[test]
fn backends_agree_after_steps() {
    let mut fixed = life_engine::new_fixed_vector_board();
    let mut dynamic = life_engine::new_dynamic_vector_board();
    let mut flat = life_engine::new_dynamic_array2d_board();
    let mut bitfield = life_engine::new_fixed_bitfield_board();
    let center = BoardPoint::new(12, 12);
    fixed.draw_pattern(&Pattern::ACORN(), &center);
    dynamic.draw_pattern(&Pattern::ACORN(), &center);
    flat.draw_pattern(&Pattern::ACORN(), &center);
    bitfield.draw_pattern(&Pattern::ACORN(), &center);
    for _ in 0..6 {
        fixed.step_one();
        dynamic.step_one();
        flat.step_one();
        bitfield.step_one();
    }
    for x in 0..32i64 {
        for y in 0..32i64 {
            let expect = dynamic.is_live(x, y);
            assert_eq!(expect, fixed.is_live(x, y));
            assert_eq!(expect, flat.is_live(x, y));
            assert_eq!(expect, bitfield.is_live(x, y));
        }
    }
}

/// A block is a still life; a beacon oscillates with period 2.
#[test]
fn patterns_stamp_and_evolve() {
    let mut board = DynamicVectorLifeBoard::empty();
    board.draw_pattern(&Pattern::BLOCK(), &BoardPoint::new(0, 0));
    assert_eq!(4, board.get_live_count());
    board.step_one();
    assert_eq!(4, board.get_live_count());
    assert!(board.is_live(0, 0) && board.is_live(0, 1) && board.is_live(1, 0) && board.is_live(1, 1));

    let mut beacon = DynamicVectorLifeBoard::empty();
    beacon.draw_pattern(&Pattern::BEACON(), &BoardPoint::new(0, 0));
    assert_eq!(8, beacon.get_live_count());
    beacon.step_one();
    assert_eq!(6, beacon.get_live_count());
    beacon.step_one();
    assert_eq!(8, beacon.get_live_count());

    assert_eq!(48, Pattern::PULSAR().get_points().len());
    assert_eq!(5, Pattern::GLIDER_SOUTHEAST().get_points().len());
    assert_eq!(7, Pattern::ACORN().get_points().len());
}

#[test]
fn decimal_strings_are_exact() {
    assert_eq!("0", u64_string(0));
    assert_eq!("7", u64_string(7));
    assert_eq!("10", u64_string(10));
    assert_eq!("1234567890", u64_string(1234567890));
    assert_eq!("18446744073709551615", u64_string(u64::MAX));
    assert_eq!("-42", i64_string(-42));
    assert_eq!("42", i64_string(42));
    assert_eq!("-9223372036854775808", i64_string(i64::MIN));
}

#[test]
fn rectangle_arithmetic_works() {
    let mut r = Rectangle::empty();
    assert!(r.is_empty());
    assert!(!r.contains_point(0, 0));
    r.expand_to_include(3, -2);
    assert_eq!((3, -2, 1, 1), (r.x_min, r.y_min, r.width, r.height));
    assert!(r.contains_point(3, -2));
    r.expand_to_include(-1, 4);
    assert_eq!((-1, -2, 5, 7), (r.x_min, r.y_min, r.width, r.height));
    assert_eq!(3, r.x_max());
    assert_eq!(4, r.y_max());
    assert_eq!(0, r.to_grid_x(-1));
    assert_eq!(4, r.to_grid_y(2));
    assert_eq!((4, 6), r.to_grid_point(3, 4));
    assert_eq!(-1..4, r.x_range());
    assert_eq!(-2..5, r.y_range());
    assert_eq!("(minX:-1, minY:-2, width:5, height:7)", r.describe());
}

#[test]
fn array_grid_stores_and_reads() {
    let mut g: ArrayGrid<u8> = ArrayGrid::create(3, 4, 0);
    assert_eq!(12, g.iter().len());
    g.set(2, 3, 9);
    assert_eq!(9, *g.get(2, 3));
    assert_eq!(0, *g.get(0, 0));
    let copy = g.clone();
    assert_eq!(9, *copy.get(2, 3));
}

#[test]
fn console_point_moves() {
    let p = ConsolePoint::new(4, 7);
    assert_eq!(1, calc_move_offset(false, false));
    assert_eq!(10, calc_move_offset(false, true));
    assert_eq!(25, calc_move_offset(true, true));
    let left = p.move_left(2);
    let right = p.move_right(3);
    let up = p.move_up(1);
    let down = p.move_down(5);
    let bp = left.to_board_point();
    let shifted = bp.offset(0, 0);
    assert_eq!((2, 7), (shifted.x(), shifted.y()));
    assert_eq!((7, 7), (right.to_board_point().x(), right.to_board_point().y()));
    assert_eq!((4, 6), (up.to_board_point().x(), up.to_board_point().y()));
    assert_eq!((4, 12), (down.to_board_point().x(), down.to_board_point().y()));
}

/// Writes outside the fixed backends' domains are rejected by contract;
/// reads outside simply come back dead.
#[test]
fn out_of_domain_reads_are_dead() {
    let fixed = FixedVectorLifeBoard::empty();
    assert!(!fixed.is_live(-1, 0));
    assert!(!fixed.is_live(0, 32));
    assert!(!fixed.is_live(i64::MIN, i64::MAX));
    let bitfield = FixedBitfieldLifeBoard::empty();
    assert!(!bitfield.is_live(-1, 0));
    assert!(!bitfield.is_live(256, 256));
    assert!(!bitfield.is_live(i64::MIN, i64::MAX));
    assert_eq!(0, bitfield.count_live_neighbors(i64::MAX, i64::MIN));
    let dynamic = DynamicVectorLifeBoard::empty();
    assert!(!dynamic.is_live(i64::MIN, i64::MAX));
    assert_eq!(0, dynamic.count_live_neighbors(i64::MAX, i64::MIN));
}
