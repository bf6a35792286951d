use lifegame::LifeGame;

#[test]
fn new_1x1() {
    let game = LifeGame::new(1, 1);
    assert_eq!(game.width(), 1);
    assert_eq!(game.height(), 1);
}

#[test]
fn new_100x50() {
    let game = LifeGame::new(100, 50);
    assert_eq!(game.width(), 100);
    assert_eq!(game.height(), 50);
}

#[test]
fn get_default_value_is_false() {
    let game = LifeGame::new(1, 1);
    assert_eq!(game.get(0, 0), false);
}

#[test]
fn set_to_true_and_get() {
    let mut game = LifeGame::new(1, 1);
    game.set(0, 0, true);
    assert_eq!(game.get(0, 0), true);
}

#[test]
fn set_to_false_and_get() {
    let mut game = LifeGame::new(1, 1);
    game.set(0, 0, true);
    game.set(0, 0, false);
    assert_eq!(game.get(0, 0), false);
}

#[test]
fn reset() {
    let mut game = LifeGame::new(1, 1);
    game.set(0, 0, true);
    game.reset();
    assert_eq!(game.get(0, 0), false);
}

#[test]
fn num_cells_default_is_0() {
    let game = LifeGame::new(1, 1);
    assert_eq!(game.num_cells(), 0);
}

#[test]
fn num_cells_is_1() {
    let mut game = LifeGame::new(1, 1);
    game.set(0, 0, true);
    assert_eq!(game.num_cells(), 1);
}

#[test]
fn num_cells_is_5000() {
    let mut game = LifeGame::new(100, 50);
    for y in 0..game.height() {
        for x in 0..game.width() {
            game.set(x, y, true);
        }
    }
    assert_eq!(game.num_cells(), 100 * 50);
}

#[test]
fn generation_default_is_0() {
    let game = LifeGame::new(1, 1);
    assert_eq!(game.generation(), 0);
}

#[test]
fn generation_is_0_after_reset() {
    let mut game = LifeGame::new(1, 1);
    game.evolution();
    game.reset();
    assert_eq!(game.generation(), 0);
}

#[test]
fn generation_is_0_after_reset_by_rand() {
    let mut game = LifeGame::new(1, 1);
    game.evolution();
    game.reset_by_rand();
    assert_eq!(game.generation(), 0);
}
