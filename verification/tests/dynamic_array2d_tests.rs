use life_engine::dynamic_array2d_board::DynamicArray2dLifeBoard;
use life_engine::life_board::LifeBoard;

#[test]
fn dynamic_array2d_board_step_one_works_empty() {
    let mut board = DynamicArray2dLifeBoard::empty();
    board.step_one();
    assert_eq!(0, board.get_live_count());
}

#[test]
fn dynamic_array2d_board_step_one_works_blinker() {
    let mut board = DynamicArray2dLifeBoard::empty();
    board.set_live(2, 2);
    board.set_live(2, 3);
    board.set_live(2, 4);
    board.set_live(5, 5);
    board.step_one();
    assert_eq!(3, board.get_live_count());
    assert_eq!(true, board.is_live(1, 3));
    assert_eq!(true, board.is_live(2, 3));
    assert_eq!(true, board.is_live(3, 3));
    assert_eq!(false, board.is_live(2, 2));
    assert_eq!(false, board.is_live(2, 4));
    assert_eq!(false, board.is_live(5, 5));

    board.step_one();
    assert_eq!(3, board.get_live_count());
    assert_eq!(true, board.is_live(2, 2));
    assert_eq!(true, board.is_live(2, 3));
    assert_eq!(true, board.is_live(2, 4));
    assert_eq!(false, board.is_live(1, 3));
    assert_eq!(false, board.is_live(3, 3));
    assert_eq!(false, board.is_live(5, 5));
}

#[test]
fn set_live_minus() {
    let mut board = DynamicArray2dLifeBoard::empty();
    board.set_live(5, 5);
    board.set_live(4, 5);
    assert_eq!(true, board.is_live(5, 5));
    assert_eq!(true, board.is_live(4, 5));
}

#[test]
fn dynamic_array2d_board_can_create_empty_board() {
    let board = DynamicArray2dLifeBoard::empty();
    assert_eq!(0, board.get_live_count());
}

#[test]
fn dynamic_array2d_board_set_live_ensures_capacity() {
    let mut board = DynamicArray2dLifeBoard::empty();
    board.set_live(0, 0);
    board.set_live(0, 1);

    assert_eq!(true, board.is_live(0, 0));
    assert_eq!(true, board.is_live(0, 1));
    assert_eq!(1, board.live_extent().width);
    assert_eq!(2, board.live_extent().height);
    assert_eq!(2, board.get_live_count());

    board.set_live(1, 2);
    assert_eq!(2, board.live_extent().width);
    assert_eq!(3, board.live_extent().height);
    assert_eq!(true, board.is_live(1, 2));
    assert_eq!(3, board.get_live_count());

    board.set_live(4, 5);
    assert_eq!(5, board.live_extent().width);
    assert_eq!(6, board.live_extent().height);
    assert_eq!(true, board.is_live(4, 5));
    assert_eq!(4, board.get_live_count());
}

#[test]
fn dynamic_array2d_board_set_live_ensures_capacity_in_negative_coordinates() {
    let mut board = DynamicArray2dLifeBoard::empty();
    assert_eq!(false, board.is_live(0, 0));
    assert_eq!(0, board.live_extent().width);
    assert_eq!(0, board.live_extent().height);
    board.set_live(10, 10);
    assert_eq!(true, board.is_live(10, 10));
    assert_eq!(1, board.live_extent().width);
    assert_eq!(1, board.live_extent().height);

    board.set_live(5, 5);
    assert_eq!(true, board.is_live(5, 5));
    assert_eq!(true, board.is_live(10, 10));
    assert_eq!(6, board.live_extent().width);
    assert_eq!(6, board.live_extent().height);
}

#[test]
fn dynamic_array2d_board_live_extent_works_off_origin() {
    let mut board = DynamicArray2dLifeBoard::empty();
    board.set_live(90, 100);
    assert_eq!(1, board.live_extent().width);
    assert_eq!(1, board.live_extent().height);
    assert_eq!(90, board.live_extent().x_min);
    assert_eq!(100, board.live_extent().y_min);
}

#[test]
fn dynamic_array2d_board_count_live_neighbors_works_at_borders() {
    let mut board = DynamicArray2dLifeBoard::empty();
    board.set_live(0, 0);
    board.set_live(0, 1);

    let neighbors = board.count_live_neighbors(0, 0);
    assert_eq!(neighbors, 1);
}

#[test]
fn dynamic_array2d_board_count_live_neighbors_doesnt_count_self() {
    let mut board = DynamicArray2dLifeBoard::empty();
    for xi in 0..3 {
        for yi in 0..3 {
            board.set_live(xi, yi);
        }
    }

    assert_eq!(9, board.get_live_count());

    let neighbors = board.count_live_neighbors(1, 1);
    assert_eq!(neighbors, 8);
}
