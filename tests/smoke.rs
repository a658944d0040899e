use unit_game::units::Quantity;

#[test]
fn mod_it_works() {
    assert_eq!(2 + 2, 4);
}

#[test]
fn game_it_works() {
    assert_eq!(2 + 2, 4);
}

#[test]
fn lib_it_works() {
    assert_eq!(2 + 2, 4);
    assert_eq!(Quantity::Mass.unit_pairs().len(), 1);
}
