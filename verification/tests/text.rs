use lifegame::LifeGame;

#[test]
fn text_of_a_small_grid() {
    let mut game = LifeGame::new(2, 2);
    game.set(0, 0, true);
    game.set(1, 1, true);
    assert_eq!(game.to_string(), "(2, 2)\n1 0\n0 1\n");
}

#[test]
fn text_of_a_blank_grid() {
    let game = LifeGame::new(3, 2);
    assert_eq!(game.to_string(), "(3, 2)\n0 0 0\n0 0 0\n");
}

#[test]
fn text_of_a_grid_of_one_cell() {
    let mut game = LifeGame::new(1, 1);
    assert_eq!(game.to_string(), "(1, 1)\n0\n");
    game.set(0, 0, true);
    assert_eq!(game.to_string(), "(1, 1)\n1\n");
}

#[test]
fn text_has_sizes_of_several_digits() {
    let game = LifeGame::new(12, 1);
    assert_eq!(game.to_string(), "(12, 1)\n0 0 0 0 0 0 0 0 0 0 0 0\n");

    let wide = LifeGame::new(100, 50);
    let text = wide.to_string();
    assert!(text.starts_with("(100, 50)\n"));
    assert_eq!(text.lines().count(), 51);
    assert_eq!(text.len(), 10 + 50 * 200);
}

#[test]
fn text_shows_the_stored_states() {
    let mut game = LifeGame::new(5, 4);
    game.set(0, 0, true);
    game.set(1, 0, true);
    game.set(3, 0, true);
    game.set(2, 1, true);
    game.set(2, 2, true);
    assert_eq!(
        game.to_string(),
        "(5, 4)\n1 1 0 1 0\n0 0 1 0 0\n0 0 1 0 0\n0 0 0 0 0\n"
    );
    game.iter_as_u8(None);
    assert_eq!(
        game.to_string(),
        "(5, 4)\n1 2 0 1 0\n0 0 3 0 0\n0 0 1 0 0\n0 0 0 0 0\n"
    );
}

#[test]
fn text_follows_the_generations() {
    let mut game = LifeGame::new(5, 5);
    game.set(1, 2, true);
    game.set(2, 2, true);
    game.set(3, 2, true);
    game.evolution();
    assert_eq!(
        game.to_string(),
        "(5, 5)\n0 0 0 0 0\n0 0 1 0 0\n0 0 1 0 0\n0 0 1 0 0\n0 0 0 0 0\n"
    );
}
