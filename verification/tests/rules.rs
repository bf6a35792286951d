use lifegame::LifeGame;

fn grid_with(width: usize, height: usize, live: &[(usize, usize)]) -> LifeGame {
    let mut game = LifeGame::new(width, height);
    for &(x, y) in live {
        game.set(x, y, true);
    }
    game
}

fn live_cells(game: &LifeGame) -> Vec<(usize, usize)> {
    let mut cells = Vec::new();
    for y in 0..game.height() {
        for x in 0..game.width() {
            if game.get(x, y) {
                cells.push((x, y));
            }
        }
    }
    cells
}

#[test]
fn normalize_keeps_a_coordinate_on_the_side() {
    assert_eq!(LifeGame::coordinate_normalize(0, 5), 0);
    assert_eq!(LifeGame::coordinate_normalize(3, 5), 3);
    assert_eq!(LifeGame::coordinate_normalize(4, 5), 4);
}

#[test]
fn normalize_folds_one_step_off_either_edge() {
    assert_eq!(LifeGame::coordinate_normalize(-1, 5), 4);
    assert_eq!(LifeGame::coordinate_normalize(5, 5), 0);
    assert_eq!(LifeGame::coordinate_normalize(-1, 100), 99);
    assert_eq!(LifeGame::coordinate_normalize(100, 100), 0);
}

#[test]
fn normalize_on_a_side_of_one_place() {
    assert_eq!(LifeGame::coordinate_normalize(-1, 1), 0);
    assert_eq!(LifeGame::coordinate_normalize(0, 1), 0);
    assert_eq!(LifeGame::coordinate_normalize(1, 1), 0);
}

#[test]
fn normalize_folds_once_and_is_no_remainder() {
    assert_eq!(LifeGame::coordinate_normalize(-3, 5), 2);
    assert_eq!(LifeGame::coordinate_normalize(-5, 5), 0);
    assert_eq!(LifeGame::coordinate_normalize(6, 5), 1);
    assert_eq!(LifeGame::coordinate_normalize(12, 5), 7);
}

#[test]
fn normalize_takes_any_side_for_a_coordinate_from_zero_up() {
    assert_eq!(LifeGame::coordinate_normalize(5, usize::MAX), 5);
    assert_eq!(LifeGame::coordinate_normalize(isize::MAX, usize::MAX), isize::MAX as usize);
    assert_eq!(LifeGame::coordinate_normalize(isize::MAX, 1), isize::MAX as usize - 1);
}

#[test]
fn positions_run_row_by_row() {
    let game = LifeGame::new(5, 4);
    assert_eq!(game.xy2i(0, 0), 0);
    assert_eq!(game.xy2i(4, 0), 4);
    assert_eq!(game.xy2i(0, 1), 5);
    assert_eq!(game.xy2i(2, 3), 17);
    assert_eq!(game.xy2i(4, 3), 19);
}

#[test]
fn stored_state_of_a_written_cell() {
    let mut game = LifeGame::new(2, 2);
    assert_eq!(game.get_as_u8(1, 0), 0);
    game.set(1, 0, true);
    assert_eq!(game.get_as_u8(1, 0), 1);
    assert_eq!(game.get_as_u8(0, 1), 0);
    game.set(1, 0, false);
    assert_eq!(game.get_as_u8(1, 0), 0);
}

#[test]
fn neighbours_of_live_and_dead_cells() {
    let game = grid_with(5, 4, &[(0, 0), (1, 0), (3, 0), (2, 1), (2, 2)]);
    assert_eq!(game.neighbors_lives(0, 0), 1);
    assert_eq!(game.neighbors_lives(1, 0), 2);
    assert_eq!(game.neighbors_lives(3, 0), 1);
    assert_eq!(game.neighbors_lives(2, 1), 3);
    assert_eq!(game.neighbors_lives(2, 2), 1);
    assert_eq!(game.neighbors_lives(2, 0), 3);
    assert_eq!(game.neighbors_lives(4, 2), 0);
}

#[test]
fn neighbours_are_counted_round_the_edges() {
    let game = grid_with(5, 4, &[(0, 0), (1, 0), (3, 0), (2, 1), (2, 2)]);
    assert_eq!(game.neighbors_lives(4, 0), 2);
    assert_eq!(game.neighbors_lives(0, 3), 2);
    assert_eq!(game.neighbors_lives(4, 3), 2);

    let corners = grid_with(3, 3, &[(0, 0), (2, 2)]);
    assert_eq!(corners.neighbors_lives(0, 0), 1);
    assert_eq!(corners.neighbors_lives(2, 2), 1);
    assert_eq!(corners.neighbors_lives(1, 1), 2);
}

#[test]
fn neighbours_on_a_grid_of_one_cell() {
    let mut game = LifeGame::new(1, 1);
    assert_eq!(game.neighbors_lives(0, 0), 0);
    game.set(0, 0, true);
    assert_eq!(game.neighbors_lives(0, 0), 8);
}

#[test]
fn neighbours_on_a_grid_of_two_by_two() {
    let game = grid_with(2, 2, &[(0, 0)]);
    assert_eq!(game.neighbors_lives(0, 0), 0);
    assert_eq!(game.neighbors_lives(1, 0), 2);
    assert_eq!(game.neighbors_lives(0, 1), 2);
    assert_eq!(game.neighbors_lives(1, 1), 4);
}

#[test]
fn neighbours_on_strips() {
    let upright = grid_with(1, 3, &[(0, 1)]);
    assert_eq!(upright.neighbors_lives(0, 1), 2);
    assert_eq!(upright.neighbors_lives(0, 0), 3);
    assert_eq!(upright.neighbors_lives(0, 2), 3);

    let flat = grid_with(3, 1, &[(1, 0)]);
    assert_eq!(flat.neighbors_lives(1, 0), 2);
    assert_eq!(flat.neighbors_lives(0, 0), 3);
    assert_eq!(flat.neighbors_lives(2, 0), 3);
}

#[test]
fn a_live_cell_stays_with_two_or_three_neighbours() {
    let two = grid_with(5, 5, &[(2, 2), (1, 1), (3, 3)]);
    assert_eq!(two.neighbors_lives(2, 2), 2);
    assert_eq!(two.cell_evolution(2, 2), 1);

    let three = grid_with(5, 5, &[(2, 2), (1, 1), (3, 3), (1, 3)]);
    assert_eq!(three.neighbors_lives(2, 2), 3);
    assert_eq!(three.cell_evolution(2, 2), 1);
}

#[test]
fn a_live_cell_dies_with_fewer_than_two_neighbours() {
    let none = grid_with(5, 5, &[(2, 2)]);
    assert_eq!(none.neighbors_lives(2, 2), 0);
    assert_eq!(none.cell_evolution(2, 2), 0);

    let one = grid_with(5, 5, &[(2, 2), (1, 1)]);
    assert_eq!(one.neighbors_lives(2, 2), 1);
    assert_eq!(one.cell_evolution(2, 2), 0);
}

#[test]
fn a_live_cell_dies_with_more_than_three_neighbours() {
    let four = grid_with(5, 5, &[(2, 2), (1, 1), (3, 3), (1, 3), (3, 1)]);
    assert_eq!(four.neighbors_lives(2, 2), 4);
    assert_eq!(four.cell_evolution(2, 2), 0);

    let mut eight = LifeGame::new(5, 5);
    for y in 1..4 {
        for x in 1..4 {
            eight.set(x, y, true);
        }
    }
    assert_eq!(eight.neighbors_lives(2, 2), 8);
    assert_eq!(eight.cell_evolution(2, 2), 0);
}

#[test]
fn a_dead_cell_is_born_with_exactly_three_neighbours() {
    let two = grid_with(5, 5, &[(1, 1), (3, 3)]);
    assert_eq!(two.cell_evolution(2, 2), 0);

    let three = grid_with(5, 5, &[(1, 1), (3, 3), (1, 3)]);
    assert_eq!(three.cell_evolution(2, 2), 1);

    let four = grid_with(5, 5, &[(1, 1), (3, 3), (1, 3), (3, 1)]);
    assert_eq!(four.cell_evolution(2, 2), 0);
}

#[test]
fn the_rule_reads_the_grid_and_leaves_it_alone() {
    let game = grid_with(5, 5, &[(1, 2), (2, 2), (3, 2)]);
    assert_eq!(game.cell_evolution(2, 1), 1);
    assert_eq!(game.cell_evolution(1, 2), 0);
    assert_eq!(live_cells(&game), vec![(1, 2), (2, 2), (3, 2)]);
    assert_eq!(game.generation(), 0);
}

#[test]
fn blinker_comes_back_after_two_generations() {
    let mut game = grid_with(5, 5, &[(1, 2), (2, 2), (3, 2)]);
    game.evolution();
    assert_eq!(live_cells(&game), vec![(2, 1), (2, 2), (2, 3)]);
    assert_eq!(game.generation(), 1);
    game.evolution();
    assert_eq!(live_cells(&game), vec![(1, 2), (2, 2), (3, 2)]);
    assert_eq!(game.generation(), 2);
}

#[test]
fn blinker_turns_across_the_top_edge() {
    let mut game = grid_with(5, 5, &[(2, 4), (2, 0), (2, 1)]);
    game.evolution();
    assert_eq!(live_cells(&game), vec![(1, 0), (2, 0), (3, 0)]);
    game.evolution();
    assert_eq!(live_cells(&game), vec![(2, 0), (2, 1), (2, 4)]);
}

#[test]
fn blinker_turns_across_the_left_edge() {
    let mut game = grid_with(5, 5, &[(4, 2), (0, 2), (1, 2)]);
    game.evolution();
    assert_eq!(live_cells(&game), vec![(0, 1), (0, 2), (0, 3)]);
}

#[test]
fn block_stands_still_across_a_corner() {
    let mut game = grid_with(4, 4, &[(3, 3), (0, 3), (3, 0), (0, 0)]);
    game.evolution();
    assert_eq!(live_cells(&game), vec![(0, 0), (3, 0), (0, 3), (3, 3)]);
    assert_eq!(game.num_cells(), 4);
}

#[test]
fn glider_moves_one_cell_down_and_right_in_four_generations() {
    let mut game = grid_with(8, 8, &[(1, 0), (2, 1), (0, 2), (1, 2), (2, 2)]);
    for _ in 0..4 {
        game.evolution();
    }
    assert_eq!(live_cells(&game), vec![(2, 1), (3, 2), (1, 3), (2, 3), (3, 3)]);
    assert_eq!(game.generation(), 4);
}

#[test]
fn the_one_cell_of_a_grid_of_one_dies() {
    let mut game = grid_with(1, 1, &[(0, 0)]);
    game.evolution();
    assert_eq!(game.get(0, 0), false);
    assert_eq!(game.generation(), 1);
    game.evolution();
    assert_eq!(game.get(0, 0), false);
    assert_eq!(game.generation(), 2);
}

#[test]
fn a_lone_cell_on_a_strip_meets_itself() {
    let mut game = grid_with(1, 3, &[(0, 1)]);
    game.evolution();
    assert_eq!(live_cells(&game), vec![(0, 0), (0, 1), (0, 2)]);
    game.evolution();
    assert_eq!(live_cells(&game), vec![]);
}

#[test]
fn a_lone_cell_on_two_by_two_dies() {
    let mut game = grid_with(2, 2, &[(1, 0)]);
    game.evolution();
    assert_eq!(live_cells(&game), vec![]);
}

#[test]
fn every_cell_moves_on_from_the_same_grid() {
    let mut game = grid_with(6, 6, &[(1, 1), (2, 1), (3, 1), (1, 2), (3, 3)]);
    let mut expected = Vec::new();
    for y in 0..6 {
        for x in 0..6 {
            if game.cell_evolution(x, y) == 1 {
                expected.push((x, y));
            }
        }
    }
    game.evolution();
    assert_eq!(live_cells(&game), expected);
}
