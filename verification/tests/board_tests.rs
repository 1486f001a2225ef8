use life_engine::board::LifeBoard;
use life_engine::board::vector_grid::VectorGrid;

#[test]
fn board_can_create_empty_board() {
    let grid = VectorGrid::from_rows(vec![]).unwrap();
    let _board = LifeBoard::new(grid);
}

#[test]
fn board_can_create_filled_board() {
    let points = vec![vec![false, true], vec![true, false]];
    let grid = VectorGrid::from_rows(points).unwrap();
    LifeBoard::new(grid);
}
