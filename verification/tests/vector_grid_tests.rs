use life_engine::board::vector_grid::VectorGrid;

#[test]
fn vector_grid_can_create_empty_board() {
    let board = VectorGrid::from_rows(vec![]).unwrap();
    assert_eq!(0, board.get_live_count());
    assert_eq!(0, board.x_size());
    assert_eq!(0, board.y_size());
    assert_eq!(false, board.is_live(0, 0));
    assert_eq!(false, board.is_live(0, 1));
    assert_eq!(false, board.is_live(1, 1));
}

#[test]
fn vector_grid_cant_create_jagged_length_board() {
    let points = vec![vec![false, true], vec![true, false, true]];
    assert!(VectorGrid::from_rows(points).is_none());
}

#[test]
fn vector_grid_can_create_filled_board() {
    let points = vec![vec![false, true, false], vec![true, false, true]];
    let board = VectorGrid::from_rows(points).unwrap();
    assert_eq!(2, board.x_size());
    assert_eq!(3, board.y_size());
    assert_eq!(3, board.get_live_count());
    assert_eq!(false, board.is_live(0, 0));
    assert_eq!(true, board.is_live(0, 1));
    assert_eq!(false, board.is_live(0, 2));
    assert_eq!(true, board.is_live(1, 0));
    assert_eq!(false, board.is_live(1, 1));
    assert_eq!(true, board.is_live(1, 2));
}

#[test]
fn vector_grid_set_live_ensures_capacity() {
    let mut board = VectorGrid::from_rows(vec![vec![true, true]]).unwrap();
    assert_eq!(true, board.is_live(0, 0));
    assert_eq!(true, board.is_live(0, 1));
    assert_eq!(1, board.x_size());
    assert_eq!(2, board.y_size());
    assert_eq!(2, board.get_live_count());

    board.set_live(1, 2);
    assert_eq!(2, board.x_size());
    assert_eq!(3, board.y_size());
    assert_eq!(true, board.is_live(1, 2));
    assert_eq!(3, board.get_live_count());

    board.set_live(4, 5);
    assert_eq!(5, board.x_size());
    assert_eq!(6, board.y_size());
    assert_eq!(true, board.is_live(4, 5));
    assert_eq!(4, board.get_live_count());
}

#[test]
fn vector_grid_count_live_neighbors_works_at_borders() {
    let mut board = VectorGrid::empty();
    board.set_live(0, 0);
    board.set_live(0, 1);

    let neighbors = board.count_live_neighbors(0, 0);
    assert_eq!(neighbors, 1);
}

#[test]
fn vector_grid_count_live_neighbors_doesnt_count_self() {
    let mut board = VectorGrid::empty();
    for xi in 0..3 {
        for yi in 0..3 {
            board.set_live(xi, yi);
        }
    }

    assert_eq!(9, board.get_live_count());

    let neighbors = board.count_live_neighbors(1, 1);
    assert_eq!(neighbors, 8);
}
