use game_of_life::{CellState, GameOfLife};

fn alive_at(game: &GameOfLife, x: usize, y: usize) -> bool {
    game.board[y][x] == CellState::Alive
}

fn set_alive(game: &mut GameOfLife, x: usize, y: usize) {
    game.board[y][x] = CellState::Alive;
}

#[test]
fn test_new_board_is_empty() {
    let game = GameOfLife::new(8, 6);
    assert_eq!(game.width, 8);
    assert_eq!(game.height, 6);
    assert_eq!(game.name, None);
    for y in 0..6 {
        for x in 0..8 {
            assert!(!alive_at(&game, x, y));
        }
    }
}

#[test]
fn test_block_is_stable() {
    // A 2x2 block away from the border is unchanged by an update.
    let mut game = GameOfLife::new(6, 6);
    set_alive(&mut game, 2, 2);
    set_alive(&mut game, 3, 2);
    set_alive(&mut game, 2, 3);
    set_alive(&mut game, 3, 3);
    game.update();
    for y in 0..6 {
        for x in 0..6 {
            let expected = (x == 2 || x == 3) && (y == 2 || y == 3);
            assert_eq!(alive_at(&game, x, y), expected);
        }
    }
}

#[test]
fn test_lonely_cells_die() {
    // An isolated cell, and a pair (one neighbour each), all die.
    let mut game = GameOfLife::new(8, 8);
    set_alive(&mut game, 2, 2);
    set_alive(&mut game, 5, 5);
    set_alive(&mut game, 5, 6);
    game.update();
    for y in 0..8 {
        for x in 0..8 {
            assert!(!alive_at(&game, x, y));
        }
    }
}

#[test]
fn test_birth_on_three_neighbours() {
    // A dead cell with exactly three alive neighbours becomes alive.
    let mut game = GameOfLife::new(6, 6);
    set_alive(&mut game, 2, 2);
    set_alive(&mut game, 3, 2);
    set_alive(&mut game, 2, 3);
    game.update();
    assert!(alive_at(&game, 3, 3));
}

#[test]
fn test_blinker_oscillates() {
    // A row of three becomes a column of three, and returns after a
    // second update: period 2, confirming the count/write barrier.
    let mut game = GameOfLife::new(7, 7);
    set_alive(&mut game, 2, 3);
    set_alive(&mut game, 3, 3);
    set_alive(&mut game, 4, 3);
    game.update();
    for y in 0..7 {
        for x in 0..7 {
            let expected = x == 3 && (y == 2 || y == 3 || y == 4);
            assert_eq!(alive_at(&game, x, y), expected);
        }
    }
    game.update();
    for y in 0..7 {
        for x in 0..7 {
            let expected = y == 3 && (x == 2 || x == 3 || x == 4);
            assert_eq!(alive_at(&game, x, y), expected);
        }
    }
}

#[test]
fn test_init_randomly_border_is_dead() {
    let mut game = GameOfLife::new(12, 9);
    game.init_randomly(99);
    for y in 0..9 {
        for x in 0..12 {
            if x == 0 || y == 0 || x == 11 || y == 8 {
                assert!(!alive_at(&game, x, y));
            }
        }
    }
}

#[test]
fn test_init_randomly_full_chance_fills_interior() {
    // A chance of 99 or more admits every random byte, so the whole
    // interior comes out alive.
    let mut game = GameOfLife::new(8, 8);
    game.init_randomly(255);
    for y in 1..7 {
        for x in 1..7 {
            assert!(alive_at(&game, x, y));
        }
    }
}

#[test]
fn test_init_empty_kills_all() {
    let mut game = GameOfLife::new(5, 5);
    set_alive(&mut game, 2, 2);
    game.init_empty();
    for y in 0..5 {
        for x in 0..5 {
            assert!(!alive_at(&game, x, y));
        }
    }
}

#[test]
fn test_to_string_with_alive() {
    let mut game = GameOfLife::new(3, 2);
    set_alive(&mut game, 1, 0);
    let s = game.to_string_with_alive('*');
    assert_eq!(s, String::from(" * \n   \n"));
}

#[test]
fn test_init_with_file_places_pattern() {
    // A glider in Life 1.06 form, centred at (width/2, height/2).
    let mut game = GameOfLife::new(9, 9);
    game.init_with_file(&"#Life 1.06\n0 -1\n1 0\n-1 1\n0 1\n1 1").unwrap();
    let expected = vec![(4, 3), (5, 4), (3, 5), (4, 5), (5, 5)];
    for y in 0..9 {
        for x in 0..9 {
            assert_eq!(
                alive_at(&game, x, y),
                expected.contains(&(x, y)),
                "cell ({}, {})",
                x,
                y
            );
        }
    }
    assert_eq!(game.name, None);
}

#[test]
fn test_init_with_file_error_leaves_board() {
    let mut game = GameOfLife::new(5, 5);
    set_alive(&mut game, 2, 2);
    let r = game.init_with_file(&"!Name: x\n.Oz");
    assert!(r.is_err());
    assert!(alive_at(&game, 2, 2));
}

#[test]
fn test_init_with_file_takes_name() {
    let mut game = GameOfLife::new(9, 9);
    game.init_with_file(&"!Name: Glider\n.O.\n..O\nOOO").unwrap();
    assert_eq!(game.name, Some(String::from("Glider")));
}
