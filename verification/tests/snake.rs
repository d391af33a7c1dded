use grid_games::snake::{Block, Direction, Snake};

fn tail(s: &Snake) -> Vec<Block> {
    (0..s.tail_len()).map(|i| s.tail_at(i)).collect()
}

#[test]
fn opposite_directions() {
    assert!(Direction::Up.opposite(Direction::Down));
    assert!(Direction::Down.opposite(Direction::Up));
    assert!(Direction::Left.opposite(Direction::Right));
    assert!(Direction::Right.opposite(Direction::Left));
    assert!(!Direction::Up.opposite(Direction::Up));
    assert!(!Direction::Up.opposite(Direction::Left));
    assert!(!Direction::Right.opposite(Direction::Down));
}

#[test]
fn new_snake_heads_right() {
    let mut s = Snake::new(10, 8, Block(3, 4), Block(7, 7));
    assert_eq!(s.head(), Block(3, 4));
    assert_eq!(s.food(), Block(7, 7));
    assert_eq!(s.tail_len(), 0);
    assert!(!s.update(Block(0, 0)));
    assert_eq!(s.head(), Block(4, 4));
    assert_eq!(s.food(), Block(7, 7));
    assert_eq!(s.tail_len(), 0);
}

#[test]
fn moves_wrap_around_the_field() {
    let mut s = Snake::new(5, 4, Block(4, 0), Block(2, 2));
    s.update(Block(0, 0));
    assert_eq!(s.head(), Block(0, 0));
    s.change_direction(Direction::Up);
    s.update(Block(0, 0));
    assert_eq!(s.head(), Block(0, 3));
    s.change_direction(Direction::Left);
    s.update(Block(0, 0));
    assert_eq!(s.head(), Block(4, 3));
    s.change_direction(Direction::Down);
    s.update(Block(0, 0));
    assert_eq!(s.head(), Block(4, 0));
}

#[test]
fn a_turn_back_is_dropped() {
    let mut s = Snake::new(9, 9, Block(4, 4), Block(0, 0));
    s.change_direction(Direction::Left);
    s.update(Block(8, 8));
    assert_eq!(s.head(), Block(5, 4));
}

#[test]
fn a_second_turn_waits_for_the_move_after() {
    let mut s = Snake::new(9, 9, Block(4, 4), Block(0, 0));
    s.change_direction(Direction::Up);
    s.change_direction(Direction::Left);
    s.update(Block(8, 8));
    assert_eq!(s.head(), Block(4, 3));
    s.update(Block(8, 8));
    assert_eq!(s.head(), Block(3, 3));
    s.update(Block(8, 8));
    assert_eq!(s.head(), Block(2, 3));
}

#[test]
fn a_second_turn_against_the_first_is_dropped() {
    let mut s = Snake::new(9, 9, Block(4, 4), Block(0, 0));
    s.change_direction(Direction::Up);
    s.change_direction(Direction::Down);
    s.update(Block(8, 8));
    assert_eq!(s.head(), Block(4, 3));
    s.update(Block(8, 8));
    assert_eq!(s.head(), Block(4, 2));
}

#[test]
fn eating_grows_the_snake_once_food_is_laid() {
    let mut s = Snake::new(6, 6, Block(1, 1), Block(2, 1));
    assert!(s.update(Block(0, 0)));
    assert_eq!(s.head(), Block(2, 1));
    assert_eq!(s.tail_len(), 0);
    assert!(!s.place_food(Block(2, 1)));
    assert_eq!(s.food(), Block(2, 1));
    assert_eq!(s.tail_len(), 0);
    assert!(s.place_food(Block(4, 1)));
    assert_eq!(s.food(), Block(4, 1));
    assert_eq!(tail(&s), vec![Block(1, 1)]);
    assert!(!s.update(Block(0, 0)));
    assert_eq!(s.head(), Block(3, 1));
    assert_eq!(tail(&s), vec![Block(2, 1)]);
    assert!(s.update(Block(0, 0)));
    assert_eq!(s.head(), Block(4, 1));
    assert_eq!(tail(&s), vec![Block(3, 1)]);
    assert!(!s.place_food(Block(3, 1)));
    assert!(s.place_food(Block(2, 1)));
    assert_eq!(tail(&s), vec![Block(3, 1), Block(2, 1)]);
}

#[test]
fn food_is_refused_on_the_snake_and_laid_elsewhere() {
    let mut s = Snake::new(6, 6, Block(0, 0), Block(5, 5));
    assert!(!s.place_food(Block(0, 0)));
    assert_eq!(s.food(), Block(5, 5));
    assert!(s.place_food(Block(3, 3)));
    assert_eq!(s.food(), Block(3, 3));
    assert_eq!(s.tail_len(), 0);
}

fn feed(s: &mut Snake, next_food: Block) {
    assert!(s.update(Block(0, 0)));
    assert!(s.place_food(next_food));
}

#[test]
fn running_into_the_body_starts_again() {
    // Grow to five parts along row 0, then turn in a tight circle.
    let mut s = Snake::new(8, 8, Block(0, 0), Block(1, 0));
    feed(&mut s, Block(2, 0));
    feed(&mut s, Block(3, 0));
    feed(&mut s, Block(4, 0));
    feed(&mut s, Block(5, 0));
    feed(&mut s, Block(7, 7));
    assert_eq!(s.head(), Block(5, 0));
    assert_eq!(
        tail(&s),
        vec![Block(4, 0), Block(3, 0), Block(2, 0), Block(1, 0), Block(0, 0)]
    );
    s.change_direction(Direction::Down);
    assert!(!s.update(Block(6, 6)));
    assert_eq!(s.head(), Block(5, 1));
    s.change_direction(Direction::Left);
    assert!(!s.update(Block(6, 6)));
    assert_eq!(s.head(), Block(4, 1));
    s.change_direction(Direction::Up);
    assert_eq!(
        tail(&s),
        vec![Block(5, 1), Block(5, 0), Block(4, 0), Block(3, 0), Block(2, 0)]
    );
    assert!(!s.update(Block(6, 6)));
    assert_eq!(s.head(), Block(4, 0));
    assert_eq!(s.tail_len(), 0);
    assert_eq!(s.food(), Block(6, 6));
    // It heads right again.
    assert!(!s.update(Block(0, 0)));
    assert_eq!(s.head(), Block(5, 0));
}

#[test]
fn start_again_on_the_food() {
    let mut s = Snake::new(8, 8, Block(0, 0), Block(1, 0));
    feed(&mut s, Block(2, 0));
    feed(&mut s, Block(3, 0));
    feed(&mut s, Block(4, 0));
    feed(&mut s, Block(5, 0));
    feed(&mut s, Block(7, 7));
    s.change_direction(Direction::Down);
    s.update(Block(6, 6));
    s.change_direction(Direction::Left);
    s.update(Block(6, 6));
    s.change_direction(Direction::Up);
    // The snake starts again at (4, 0) and the new food lies there.
    assert!(s.update(Block(4, 0)));
    assert_eq!(s.head(), Block(4, 0));
    assert_eq!(s.tail_len(), 0);
    assert!(s.place_food(Block(1, 1)));
    assert_eq!(tail(&s), vec![Block(2, 0)]);
}

#[test]
fn a_field_of_one_cell() {
    let mut s = Snake::new(1, 1, Block(0, 0), Block(0, 0));
    assert!(s.update(Block(0, 0)));
    assert_eq!(s.head(), Block(0, 0));
}
