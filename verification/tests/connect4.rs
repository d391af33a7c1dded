use grid_games::connect4::{Board, Chip};

#[test]
fn constructors() {
    Board::new(10, 20);
    Board::new(20, 5);
}

#[test]
fn return_none_in_all_expected_places() {
    let game = Board::new(10, 10);

    assert!(game.get(9, 0) == None);
    assert!(game.get(-1, -1) == None);
    assert!(game.get(20, 20) == None);
}

#[test]
fn save_chips() {
    let mut game = Board::new(10, 10);

    game.add(0, Chip::Blue);
    assert!(game.get(9, 0) == Some(Chip::Blue));

    game.add(0, Chip::Red);
    assert!(game.get(8, 0) == Some(Chip::Red));
    assert!(game.get(9, 0) == Some(Chip::Blue));
    assert!(game.get(7, 0) == None);

    game.add(0, Chip::Blue);
    assert!(game.get(7, 0) == Some(Chip::Blue));
}

#[test]
fn check_vertical_winner() {
    let mut game = Board::new(10, 10);

    for _ in 0..4 {
        game.add(0, Chip::Blue);
    }

    assert!(game.check() == Some(Chip::Blue));
}

#[test]
fn check_horizontal_winner() {
    let mut game = Board::new(10, 10);

    for c in 0..4 {
        println!("{}", c);
        game.add(c, Chip::Red);
    }

    assert!(game.check() == Some(Chip::Red));
}

#[test]
fn check_no_winner() {
    let mut game = Board::new(10, 10);

    for c in 3..6 {
        game.add(c, Chip::Blue);
    }
    game.add(6, Chip::Red);

    assert!(game.check() == None);
}

#[test]
fn empty_board_has_no_winner() {
    let game = Board::new(5, 5);
    assert_eq!(game.check(), None);
    for r in 0..5 {
        for c in 0..5 {
            assert_eq!(game.get(r, c), None);
        }
    }
}

#[test]
fn get_outside_the_board_is_none() {
    let mut game = Board::new(5, 6);
    game.add(5, Chip::Red);
    assert_eq!(game.get(4, 5), Some(Chip::Red));
    assert_eq!(game.get(5, 5), None);
    assert_eq!(game.get(4, 6), None);
    assert_eq!(game.get(-1, 5), None);
    assert_eq!(game.get(4, -1), None);
    assert_eq!(game.get(127, 127), None);
    assert_eq!(game.get(-128, -128), None);
}

#[test]
fn chip_lands_on_the_lowest_empty_cell_only() {
    let mut game = Board::new(6, 7);
    game.add(3, Chip::Red);
    game.add(3, Chip::Blue);
    game.add(2, Chip::Blue);
    for r in 0..6 {
        for c in 0..7 {
            let want = match (r, c) {
                (5, 3) => Some(Chip::Red),
                (4, 3) => Some(Chip::Blue),
                (5, 2) => Some(Chip::Blue),
                _ => None,
            };
            assert_eq!(game.get(r, c), want);
        }
    }
}

#[test]
fn column_fills_to_the_top() {
    let mut game = Board::new(5, 5);
    let colours = [Chip::Red, Chip::Blue, Chip::Red, Chip::Blue, Chip::Red];
    for chip in colours {
        game.add(1, chip);
    }
    assert_eq!(game.get(0, 1), Some(Chip::Red));
    assert_eq!(game.get(1, 1), Some(Chip::Blue));
    assert_eq!(game.get(4, 1), Some(Chip::Red));
    assert_eq!(game.check(), None);
}

#[test]
fn diagonal_down_right_wins() {
    // Red stands at (5,3), (4,2), (3,1), (2,0): from (2,0) down to the right.
    let mut game = Board::new(6, 7);
    game.add(3, Chip::Red);
    game.add(2, Chip::Blue);
    game.add(2, Chip::Red);
    game.add(1, Chip::Blue);
    game.add(1, Chip::Blue);
    game.add(1, Chip::Red);
    game.add(0, Chip::Blue);
    game.add(0, Chip::Blue);
    game.add(0, Chip::Blue);
    assert_eq!(game.check(), None);
    game.add(0, Chip::Red);
    assert_eq!(game.get(2, 0), Some(Chip::Red));
    assert_eq!(game.check(), Some(Chip::Red));
}

#[test]
fn diagonal_up_right_wins() {
    // Blue stands at (5,0), (4,1), (3,2), (2,3): from (5,0) up to the right.
    let mut game = Board::new(6, 7);
    game.add(0, Chip::Blue);
    game.add(1, Chip::Red);
    game.add(1, Chip::Blue);
    game.add(2, Chip::Red);
    game.add(2, Chip::Red);
    game.add(2, Chip::Blue);
    game.add(3, Chip::Red);
    game.add(3, Chip::Red);
    game.add(3, Chip::Red);
    assert_eq!(game.check(), None);
    game.add(3, Chip::Blue);
    assert_eq!(game.check(), Some(Chip::Blue));
}

#[test]
fn three_in_a_row_at_the_edge_do_not_win() {
    let mut game = Board::new(5, 5);
    for c in 2..5 {
        game.add(c, Chip::Red);
    }
    assert_eq!(game.check(), None);
}

#[test]
fn first_line_in_reading_order_decides() {
    // Blue's row of four lies above Red's row of four: rows are read from the top.
    let mut game = Board::new(6, 8);
    for c in 0..4 {
        game.add(c, Chip::Red);
    }
    for c in 0..4 {
        game.add(c, Chip::Blue);
    }
    assert_eq!(game.check(), Some(Chip::Blue));
}

#[test]
fn large_board_is_scanned_to_its_end() {
    let mut game = Board::new(5, 200);
    for c in 196..200 {
        game.add(c, Chip::Blue);
    }
    assert_eq!(game.check(), Some(Chip::Blue));
    assert_eq!(game.get(4, 127), None);
}
