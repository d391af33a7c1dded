//! The rules of a snake on a field whose edges wrap around: turning, moving,
//! running into itself, eating and growing.
//!
//! The rules draw no numbers. Whoever drives the snake hands it the places
//! that chance picked: the food of a snake that starts again, and each place
//! that is tried for the next food.

use vstd::prelude::*;
use crate::ring::{lemma_wrap, wrap};

verus! {

/// The way the snake is heading.
#[derive(Debug, Copy, Clone, Eq, PartialEq, Structural)]
pub enum Direction {
    Up,
    Down,
    Left,
    Right,
}

/// True when `a` and `b` point against each other.
pub open spec fn opposed(a: Direction, b: Direction) -> bool {
    match (a, b) {
        (Direction::Up, Direction::Down) => true,
        (Direction::Down, Direction::Up) => true,
        (Direction::Left, Direction::Right) => true,
        (Direction::Right, Direction::Left) => true,
        _ => false,
    }
}

impl Direction {
    /// True when `other` points against `self`.
    pub fn opposite(self, other: Direction) -> (against: bool)
        ensures
            against == opposed(self, other),
    {
        match (self, other) {
            (Direction::Up, Direction::Down) => true,
            (Direction::Down, Direction::Up) => true,
            (Direction::Left, Direction::Right) => true,
            (Direction::Right, Direction::Left) => true,
            _ => false,
        }
    }
}

/// A place on the field: column, then row.
#[derive(Debug, Copy, Clone, Eq, PartialEq, Structural)]
pub struct Block(pub u32, pub u32);

/// What a snake is, as plain values.
pub struct SnakeState {
    /// Where the head is.
    pub head: Block,
    /// The body behind the head, nearest part first.
    pub tail: Seq<Block>,
    /// Where the food lies.
    pub food: Block,
    /// Rows of the field.
    pub height: u32,
    /// Columns of the field.
    pub width: u32,
    /// The turn that the next move takes, if one was asked for.
    pub direction: Option<Direction>,
    /// The turn that the move after it takes, if one was asked for.
    pub next_direction: Option<Direction>,
    /// The way of the last move.
    pub last_direction: Direction,
    /// The end that the last move took off the body, kept while the snake
    /// waits for new food: it grows by this part when the food is laid.
    pub growth: Option<Block>,
}

/// True when the field is not empty and the head is on it.
pub open spec fn valid(s: SnakeState) -> bool {
    0 < s.width && 0 < s.height && s.head.0 < s.width && s.head.1 < s.height
}

/// The snake that starts on a field of `width` by `height`: no body, no turn
/// asked for, heading right.
pub open spec fn fresh(width: u32, height: u32, head: Block, food: Block) -> SnakeState {
    SnakeState {
        head,
        tail: Seq::empty(),
        food,
        height,
        width,
        direction: None,
        next_direction: None,
        last_direction: Direction::Right,
        growth: None,
    }
}

/// The snake after a turn to `d` was asked for. With no turn waiting, a turn
/// that does not reverse the last move is taken next. With a turn waiting, one
/// that does not reverse that turn is taken after it. Any other is dropped.
pub open spec fn turned(s: SnakeState, d: Direction) -> SnakeState {
    if !opposed(s.last_direction, d) && s.direction is None {
        SnakeState { direction: Some(d), ..s }
    } else if s.direction is Some && !opposed(s.direction->0, d) {
        SnakeState { next_direction: Some(d), ..s }
    } else {
        s
    }
}

/// The way of the next move: the turn that waits, else the way of the last move.
pub open spec fn heading(s: SnakeState) -> Direction {
    match s.direction {
        Some(d) => d,
        None => s.last_direction,
    }
}

/// The place one step from `from` in direction `d`, on a field whose edges
/// are joined to the opposite edges.
pub open spec fn moved(from: Block, d: Direction, width: u32, height: u32) -> Block {
    match d {
        Direction::Up => Block(from.0, wrap(from.1 - 1, height as int) as u32),
        Direction::Down => Block(from.0, wrap(from.1 + 1, height as int) as u32),
        Direction::Left => Block(wrap(from.0 - 1, width as int) as u32, from.1),
        Direction::Right => Block(wrap(from.0 + 1, width as int) as u32, from.1),
    }
}

/// The body after a move: the old head in front, the old end gone.
pub open spec fn dragged(s: SnakeState) -> Seq<Block> {
    (seq![s.head] + s.tail).drop_last()
}

/// The end that a move takes off the body; the head, where there is no body.
pub open spec fn shed(s: SnakeState) -> Block {
    (seq![s.head] + s.tail).last()
}

/// The snake after one move. It goes one step the way it is heading. Where
/// the head runs into the body, the snake starts again from that place, with
/// no body and `fresh_food` as its food. Where the head then stands on the
/// food, the end just shed is kept as growth. The turn that waited for the
/// move after this one comes forward.
pub open spec fn stepped(s: SnakeState, fresh_food: Block) -> SnakeState {
    let way = heading(s);
    let head = moved(s.head, way, s.width, s.height);
    let crashed = dragged(s).contains(head);
    let food = if crashed {
        fresh_food
    } else {
        s.food
    };
    SnakeState {
        head,
        tail: if crashed {
            Seq::empty()
        } else {
            dragged(s)
        },
        food,
        height: s.height,
        width: s.width,
        direction: if crashed {
            None
        } else {
            s.next_direction
        },
        next_direction: None,
        last_direction: if crashed {
            Direction::Right
        } else {
            way
        },
        growth: if head == food {
            Some(shed(s))
        } else {
            None
        },
    }
}

/// True when the snake has reached its food and waits for the next.
pub open spec fn hungry(s: SnakeState) -> bool {
    s.head == s.food
}

/// True when `place` is free for food: neither the head nor a part of the body.
pub open spec fn free(s: SnakeState, place: Block) -> bool {
    place != s.head && !s.tail.contains(place)
}

/// The snake after food was laid at `place`: it grows by what it kept.
pub open spec fn fed(s: SnakeState, place: Block) -> SnakeState {
    SnakeState {
        food: place,
        tail: match s.growth {
            Some(part) => s.tail.push(part),
            None => s.tail,
        },
        growth: None,
        ..s
    }
}

/// A snake on its field.
#[derive(Debug)]
pub struct Snake {
    head: Block,
    tail: Vec<Block>,
    food: Block,
    height: u32,
    width: u32,
    direction: Option<Direction>,
    next_direction: Option<Direction>,
    last_direction: Direction,
    growth: Option<Block>,
}

impl View for Snake {
    type V = SnakeState;

    closed spec fn view(&self) -> SnakeState {
        SnakeState {
            head: self.head,
            tail: self.tail@,
            food: self.food,
            height: self.height,
            width: self.width,
            direction: self.direction,
            next_direction: self.next_direction,
            last_direction: self.last_direction,
            growth: self.growth,
        }
    }
}

/// True when `place` is one of `parts`.
fn holds(parts: &Vec<Block>, place: Block) -> (found: bool)
    ensures
        found == parts@.contains(place),
{
    let mut i: usize = 0;
    while i < parts.len()
        invariant
            i <= parts@.len(),
            forall|k: int| 0 <= k < i ==> parts@[k] != place,
        decreases parts@.len() - i,
    {
        if parts[i] == place {
            return true;
        }
        i += 1;
    }
    false
}

impl Snake {
    /// The invariant of every snake: its field is not empty and its head is
    /// on the field.
    pub open spec fn wf(&self) -> bool {
        valid(self@)
    }

    /// A snake that starts at `head` on a field of `width` by `height`, with
    /// food at `food`.
    pub fn new(width: u32, height: u32, head: Block, food: Block) -> (snake: Snake)
        requires
            head.0 < width,
            head.1 < height,
        ensures
            snake.wf(),
            snake@ == fresh(width, height, head, food),
    {
        Snake {
            head,
            tail: Vec::new(),
            food,
            height,
            width,
            direction: None,
            next_direction: None,
            last_direction: Direction::Right,
            growth: None,
        }
    }

    /// Asks for a turn to `direction`.
    pub fn change_direction(&mut self, direction: Direction)
        ensures
            final(self)@ == turned(old(self)@, direction),
            old(self).wf() ==> final(self).wf(),
    {
        match self.direction {
            None => {
                if !self.last_direction.opposite(direction) {
                    self.direction = Some(direction);
                }
            },
            Some(waiting) => {
                if !waiting.opposite(direction) {
                    self.next_direction = Some(direction);
                }
            },
        }
    }

    /// Moves the snake one step. `fresh_food` is where the food lies if the
    /// snake runs into itself and starts again. Returns true when the head has
    /// reached the food: the next food is then to be laid with `place_food`.
    pub fn update(&mut self, fresh_food: Block) -> (ate: bool)
        requires
            old(self).wf(),
        ensures
            final(self).wf(),
            final(self)@ == stepped(old(self)@, fresh_food),
            ate == hungry(final(self)@),
    {
        let way = match self.direction {
            Some(d) => d,
            None => self.last_direction,
        };
        proof {
            lemma_wrap(self.head.0 - 1, self.width as int);
            lemma_wrap(self.head.0 + 1, self.width as int);
            lemma_wrap(self.head.1 - 1, self.height as int);
            lemma_wrap(self.head.1 + 1, self.height as int);
        }
        let Block(x, y) = self.head;
        let new_head = match way {
            Direction::Up => Block(x, if y == 0 { self.height - 1 } else { y - 1 }),
            Direction::Down => Block(x, if y == self.height - 1 { 0 } else { y + 1 }),
            Direction::Left => Block(if x == 0 { self.width - 1 } else { x - 1 }, y),
            Direction::Right => Block(if x == self.width - 1 { 0 } else { x + 1 }, y),
        };
        assert(new_head == moved(self.head, way, self.width, self.height));
        self.tail.insert(0, self.head);
        let last_end = self.tail.pop();
        assert(self.tail@ =~= dragged(old(self)@));
        assert(last_end == Some(shed(old(self)@)));
        if holds(&self.tail, new_head) {
            self.tail = Vec::new();
            self.food = fresh_food;
            self.direction = None;
            self.next_direction = None;
            self.last_direction = Direction::Right;
        } else {
            self.direction = self.next_direction;
            self.next_direction = None;
            self.last_direction = way;
        }
        self.head = new_head;
        let ate = self.head == self.food;
        self.growth = if ate { last_end } else { None };
        ate
    }

    /// Tries `place` for the food. A place on the snake is refused and nothing
    /// changes. On a free place the food is laid, and the snake grows by the
    /// part that it kept when it reached the last food.
    pub fn place_food(&mut self, place: Block) -> (laid: bool)
        ensures
            laid == free(old(self)@, place),
            laid ==> final(self)@ == fed(old(self)@, place),
            !laid ==> final(self)@ == old(self)@,
            old(self).wf() ==> final(self).wf(),
    {
        if place == self.head || holds(&self.tail, place) {
            return false;
        }
        self.food = place;
        match self.growth {
            Some(part) => {
                self.tail.push(part);
            },
            None => {},
        }
        self.growth = None;
        true
    }

    /// Where the head is.
    pub fn head(&self) -> (place: Block)
        ensures
            place == self@.head,
    {
        self.head
    }

    /// Where the food lies.
    pub fn food(&self) -> (place: Block)
        ensures
            place == self@.food,
    {
        self.food
    }

    /// How many parts the body has.
    pub fn tail_len(&self) -> (n: usize)
        ensures
            n == self@.tail.len(),
    {
        self.tail.len()
    }

    /// The part of the body that is `i` steps behind the head's neighbour.
    pub fn tail_at(&self, i: usize) -> (place: Block)
        requires
            i < self@.tail.len(),
        ensures
            place == self@.tail[i as int],
    {
        self.tail[i]
    }
}

} // verus!
