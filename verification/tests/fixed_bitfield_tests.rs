use life_engine::fixed_bitfield_board::FixedBitfieldLifeBoard;
use life_engine::life_board::LifeBoard;

#[test]
fn fixed_bitfield_board_step_one_works_empty() {
    let mut board = FixedBitfieldLifeBoard::empty();
    board.step_one();
    assert_eq!(0, board.get_live_count());
}

#[test]
fn fixed_bitfield_board_step_one_works_blinker() {
    let mut board = FixedBitfieldLifeBoard::empty();
    board.set_live(2, 2);
    board.set_live(2, 3);
    board.set_live(2, 4);
    board.set_live(5, 5);
    board.step_one();
    assert_eq!(3, board.get_live_count());
    assert_eq!(true, board.is_live(1, 3));
    assert_eq!(true, board.is_live(2, 3));
    assert_eq!(true, board.is_live(3, 3));
    assert_eq!(false, board.is_live(2, 2));
    assert_eq!(false, board.is_live(2, 4));
    assert_eq!(false, board.is_live(5, 5));

    board.step_one();
    assert_eq!(3, board.get_live_count());
    assert_eq!(true, board.is_live(2, 2));
    assert_eq!(true, board.is_live(2, 3));
    assert_eq!(true, board.is_live(2, 4));
    assert_eq!(false, board.is_live(1, 3));
    assert_eq!(false, board.is_live(3, 3));
    assert_eq!(false, board.is_live(5, 5));
}

#[test]
fn fixed_bitfield_board_can_create_empty_board() {
    let board = FixedBitfieldLifeBoard::empty();
    assert_eq!(0, board.get_live_count());
    assert_eq!(false, board.is_live(0, 0));
    assert_eq!(false, board.is_live(0, 1));
    assert_eq!(false, board.is_live(1, 1));
}

#[test]
fn fixed_bitfield_board_count_live_neighbors_works_at_borders() {
    let mut board = FixedBitfieldLifeBoard::empty();
    board.set_live(0, 0);
    board.set_live(0, 1);

    let neighbors = board.count_live_neighbors(0, 0);
    assert_eq!(neighbors, 1);
}

#[test]
fn fixed_bitfield_board_count_live_neighbors_doesnt_count_self() {
    let mut board = FixedBitfieldLifeBoard::empty();
    for xi in 0..3 {
        for yi in 0..3 {
            board.set_live(xi, yi);
        }
    }

    assert_eq!(9, board.get_live_count());

    let neighbors = board.count_live_neighbors(1, 1);
    assert_eq!(neighbors, 8);
}
