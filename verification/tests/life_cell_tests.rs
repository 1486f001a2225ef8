use life_engine::life_cell::LifeCell;

#[test]
fn life_cell_works() {
    let mut lc = LifeCell::create_dead();
    assert_eq!(false, lc.is_live());
    assert_eq!(0, lc.neighbors_count());

    lc.set_alive();
    assert_eq!(true, lc.is_live());
    assert_eq!(0, lc.neighbors_count());

    lc.increment_neighbors();
    assert_eq!(true, lc.is_live());
    assert_eq!(1, lc.neighbors_count());

    lc.increment_neighbors();
    assert_eq!(true, lc.is_live());
    assert_eq!(2, lc.neighbors_count());

    lc.set_dead();
    assert_eq!(false, lc.is_live());
    assert_eq!(2, lc.neighbors_count());

    lc.decrement_neighbors();
    assert_eq!(false, lc.is_live());
    assert_eq!(1, lc.neighbors_count());

    lc.decrement_neighbors();
    assert_eq!(false, lc.is_live());
    assert_eq!(0, lc.neighbors_count());
}
