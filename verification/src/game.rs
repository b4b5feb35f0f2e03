//! The rules of a round around the snake: which key presses wait for the
//! next tick, what a tick does to the snake, the apple and the score, and
//! where a new apple may go.

use vstd::prelude::*;
use std::collections::VecDeque;
use macroquad::rand::ChooseRandom;
use crate::xy::{Direction, XY};
use crate::snake::{Snake, SnakeView};

verus! {

/// How many key presses can wait for the ticks to come.
pub const MAX_INPUTS: usize = 3;

/// A key of the keyboard, as far as the game tells keys apart.
#[derive(PartialEq, Eq, Structural, Clone, Copy, Debug)]
pub enum Key {
    W,
    A,
    S,
    D,
    P,
    L,
    Z,
    X,
    Up,
    Down,
    Left,
    Right,
    Q,
    Space,
    /// Any other key, by a number that tells it from the rest.
    Other(u16),
}

impl Key {
    /// The direction that the key asks for, if it is one of the three sets
    /// of direction keys.
    pub open spec fn turn(self) -> Option<Direction> {
        match self {
            Key::W | Key::P | Key::Up => Some(Direction::Up),
            Key::A | Key::Z | Key::Left => Some(Direction::Left),
            Key::S | Key::L | Key::Down => Some(Direction::Down),
            Key::D | Key::X | Key::Right => Some(Direction::Right),
            _ => None,
        }
    }

    /// The direction that the key asks for, if it asks for one.
    pub fn direction(self) -> (r: Option<Direction>)
        ensures
            r == self.turn(),
    {
        match self {
            Key::W | Key::P | Key::Up => Some(Direction::Up),
            Key::A | Key::Z | Key::Left => Some(Direction::Left),
            Key::S | Key::L | Key::Down => Some(Direction::Down),
            Key::D | Key::X | Key::Right => Some(Direction::Right),
            _ => None,
        }
    }
}

/// What the player chose after a round has ended.
#[derive(PartialEq, Eq, Structural, Clone, Copy, Debug)]
pub enum DeathScreenResult {
    PlayAgain,
    Quit,
}

impl DeathScreenResult {
    /// The choice that `key` makes: `Q` quits, the space bar plays again,
    /// and anything else, or no key, chooses nothing yet.
    pub open spec fn chosen_by(key: Option<Key>) -> Option<DeathScreenResult> {
        match key {
            Some(Key::Q) => Some(DeathScreenResult::Quit),
            Some(Key::Space) => Some(DeathScreenResult::PlayAgain),
            _ => None,
        }
    }

    /// The choice that the last key pressed makes, if it makes one.
    pub fn from_key(key: Option<Key>) -> (r: Option<DeathScreenResult>)
        ensures
            r == Self::chosen_by(key),
    {
        match key {
            Some(Key::Q) => Some(DeathScreenResult::Quit),
            Some(Key::Space) => Some(DeathScreenResult::PlayAgain),
            _ => None,
        }
    }
}

/// What one tick came to.
#[derive(PartialEq, Eq, Structural, Clone, Copy, Debug)]
pub enum Tick {
    /// The snake hit a wall or itself: the round is over.
    Died,
    /// The snake moved on.
    Moved,
    /// The snake moved onto the apple.
    Ate,
    /// The snake moved onto the apple and fills the grid: no cell is left
    /// for another apple.
    Won,
}

/// How many keys at the front of `inputs` ask for no direction.
pub open spec fn idle_prefix(inputs: Seq<Key>) -> nat
    decreases inputs.len(),
{
    if inputs.len() == 0 || inputs[0].turn() is Some {
        0
    } else {
        1 + idle_prefix(inputs.skip(1))
    }
}

/// What a [`Game`] is, mathematically.
pub struct GameView {
    pub snake: SnakeView,
    pub apple: XY,
    pub score: u16,
    pub grid: XY,
    /// The key presses that wait, oldest first.
    pub inputs: Seq<Key>,
}

impl GameView {
    /// The snake is well formed and lies within the grid, no more than
    /// [`MAX_INPUTS`] key presses wait, and the score counts the blocks that
    /// the snake has grown by, the one it is about to grow by included.
    pub open spec fn wf(self) -> bool {
        &&& self.snake.wf()
        &&& forall|i: int|
            0 <= i < self.snake.body.len() ==> (#[trigger] self.snake.body[i]).within(self.grid)
        &&& self.inputs.len() <= MAX_INPUTS
        &&& self.score + 3 == self.snake.body.len() + if self.snake.growing { 1int } else { 0int }
    }

    /// The start of a round on a grid of size `grid`: the snake in the
    /// middle row with its head two cells left of the middle column, the
    /// apple one cell right of it, no score and no key waiting.
    pub open spec fn initial(grid: XY) -> GameView {
        GameView {
            snake: SnakeView::starting_at(XY { x: (grid.x / 2 - 2) as u8, y: grid.y / 2 }),
            apple: XY { x: (grid.x / 2 + 1) as u8, y: grid.y / 2 },
            score: 0,
            grid,
            inputs: Seq::empty(),
        }
    }

    /// The game after `key` was pressed: the key joins the queue unless the
    /// queue is full or the key repeats the one pressed last.
    pub open spec fn pressed(self, key: Key) -> GameView {
        if self.inputs.len() < MAX_INPUTS && (self.inputs.len() == 0 || self.inputs.last() != key) {
            GameView { inputs: self.inputs.push(key), ..self }
        } else {
            self
        }
    }

    /// The game after the queue was served: the keys up to and including
    /// the first that asks for a direction have left it, and the snake was
    /// asked to turn that way.
    pub open spec fn steered(self) -> GameView {
        let k = idle_prefix(self.inputs) as int;
        if k < self.inputs.len() {
            GameView {
                snake: self.snake.turned(self.inputs[k].turn().unwrap()),
                inputs: self.inputs.skip(k + 1),
                ..self
            }
        } else {
            GameView { inputs: Seq::empty(), ..self }
        }
    }

    /// Whether the next tick ends the round.
    pub open spec fn dies(self) -> bool {
        self.steered().snake.collides(self.grid)
    }

    /// Whether the next tick brings the head onto the apple.
    pub open spec fn eats(self) -> bool {
        !self.dies() && self.steered().snake.advanced().head() == self.apple
    }

    /// The game after the snake's part of a tick: the queue served, the
    /// snake stepped unless that was fatal, and, where its head reached the
    /// apple, the snake asked to grow and the score raised by one.
    pub open spec fn moved(self) -> GameView {
        let s = self.steered();
        if self.dies() {
            s
        } else if self.eats() {
            GameView { snake: s.snake.advanced().grown(), score: (s.score + 1) as u16, ..s }
        } else {
            GameView { snake: s.snake.advanced(), ..s }
        }
    }

    /// Whether `cell` is a cell of the grid that the snake does not cover.
    pub open spec fn is_free(self, cell: XY) -> bool {
        cell.within(self.grid) && !self.snake.body.contains(cell)
    }

    /// The game with the apple at `cell`.
    pub open spec fn with_apple(self, cell: XY) -> GameView {
        GameView { apple: cell, ..self }
    }
}

/// A round of the game. Every game that [`Game::new`] returns is well formed
/// (see [`GameView::wf`]), and every method keeps it so.
pub struct Game {
    snake: Snake,
    apple: XY,
    score: u16,
    grid: XY,
    /// Key presses that wait for a tick, oldest first.
    inputs: VecDeque<Key>,
}

impl View for Game {
    type V = GameView;

    closed spec fn view(&self) -> GameView {
        GameView {
            snake: self.snake@,
            apple: self.apple,
            score: self.score,
            grid: self.grid,
            inputs: self.inputs@,
        }
    }
}

/// Picks one of `cells` at random, by `macroquad::rand::ChooseRandom::choose`
/// on the slice of `cells`. That takes a number from the crate's global
/// generator, scales it to an index (the length times a fraction below one,
/// rounded down) and returns the cell at that index if there is one. What
/// is claimed here and not proved: it returns nothing for no cells, never
/// anything but one of `cells`, and always one of them for up to `u32::MAX`
/// cells, for which the scaled number stays below the length.
#[verifier::external_body]
fn choose_cell(cells: &Vec<XY>) -> (r: Option<XY>)
    ensures
        r is Some ==> cells@.contains(r.unwrap()),
        cells@.len() == 0 ==> r is None,
        0 < cells@.len() <= u32::MAX ==> r is Some,
{
    cells.choose().copied()
}

impl Game {
    /// A new round on a grid of size `grid`. There is none on a grid too
    /// small for the snake to start on: one with no row, or with fewer than
    /// eight columns.
    pub fn new(grid: XY) -> (r: Option<Game>)
        ensures
            r is Some <==> grid.x >= 8 && grid.y >= 1,
            r is Some ==> r.unwrap()@ == GameView::initial(grid) && r.unwrap()@.wf(),
    {
        if grid.x == 0 || grid.y == 0 {
            return None;
        }
        let middle = XY::new(grid.x / 2, grid.y / 2);
        let last_column: u8 = grid.x - 1;
        let left: u8 = middle.x.saturating_sub(2);
        let right: u8 = middle.x.saturating_add(1);
        let head = XY::new(if left < last_column { left } else { last_column }, middle.y);
        let apple = XY::new(if right < last_column { right } else { last_column }, middle.y);
        match Snake::new(head) {
            None => None,
            Some(snake) => {
                let game = Game { snake, apple, score: 0, grid, inputs: VecDeque::new() };
                assert(game@.inputs =~= Seq::empty());
                Some(game)
            },
        }
    }

    /// Takes note of a key press. Only up to [`MAX_INPUTS`] presses are
    /// kept, and none that repeats the one before it.
    pub fn press(&mut self, key: Key)
        requires
            old(self)@.wf(),
        ensures
            final(self)@ == old(self)@.pressed(key),
            final(self)@.wf(),
    {
        let n: usize = self.inputs.len();
        if n < MAX_INPUTS && (n == 0 || self.inputs[n - 1] != key) {
            self.inputs.push_back(key);
        }
    }

    /// Serves the queue of key presses: drops keys until one asks for a
    /// direction, and asks the snake to turn that way. The direction only
    /// changes on a tick, since changing it twice between ticks could turn
    /// the snake into itself.
    fn steer(&mut self)
        requires
            old(self)@.wf(),
        ensures
            final(self)@ == old(self)@.steered(),
            final(self)@.wf(),
    {
        let ghost start = self@;
        let ghost mut dropped: int = 0;
        assert(start.inputs.skip(0) =~= start.inputs);
        loop
            invariant
                start == old(self)@,
                start.wf(),
                0 <= dropped <= start.inputs.len(),
                self@.inputs == start.inputs.skip(dropped),
                self@.snake == start.snake,
                self@.apple == start.apple,
                self@.score == start.score,
                self@.grid == start.grid,
                forall|j: int| 0 <= j < dropped ==> (#[trigger] start.inputs[j]).turn() is None,
            decreases start.inputs.len() - dropped,
        {
            match self.inputs.pop_front() {
                None => {
                    proof {
                        lemma_idle_prefix(start.inputs, dropped);
                        assert(self@.inputs =~= Seq::empty());
                    }
                    return ;
                },
                Some(key) => {
                    assert(key == start.inputs[dropped]);
                    assert(self@.inputs =~= start.inputs.skip(dropped + 1));
                    match key.direction() {
                        Some(direction) => {
                            proof {
                                lemma_idle_prefix(start.inputs, dropped);
                            }
                            self.snake.change_direction(direction);
                            return ;
                        },
                        None => {
                            proof {
                                dropped = dropped + 1;
                            }
                        },
                    }
                },
            }
        }
    }

    /// The snake's part of a tick: serves the queue of key presses, then
    /// advances the snake unless it would collide. Where the head has
    /// reached the apple, the snake is asked to grow and the score goes up;
    /// the apple stays where it is.
    pub fn advance(&mut self) -> (r: Tick)
        requires
            old(self)@.wf(),
        ensures
            final(self)@ == old(self)@.moved(),
            final(self)@.wf(),
            r == if old(self)@.dies() {
                Tick::Died
            } else if old(self)@.eats() {
                Tick::Ate
            } else {
                Tick::Moved
            },
    {
        self.steer();
        let ghost steered = self@;
        if self.snake.advance_or_collide_in(self.grid) {
            return Tick::Died;
        }
        proof {
            crate::snake::lemma_advanced_well_formed(steered.snake);
            crate::snake::lemma_body_bounded(self@.snake.body);
            let body = self@.snake.body;
            assert forall|i: int| 0 <= i < body.len() implies (#[trigger] body[i]).within(
                self@.grid,
            ) by {
                if i > 0 {
                    assert(body[i] == steered.snake.body[i - 1]);
                }
            }
        }
        if *self.snake.head() == self.apple {
            self.snake.grow();
            self.score = self.score + 1;
            Tick::Ate
        } else {
            Tick::Moved
        }
    }

    /// The cells of the grid that the snake does not cover, column by
    /// column, each column from the top down.
    pub fn free_cells(&self) -> (r: Vec<XY>)
        requires
            self@.wf(),
        ensures
            forall|cell: XY| r@.contains(cell) <==> self@.is_free(cell),
            forall|i: int, j: int| 0 <= i < j < r@.len() ==> r@[i].precedes(r@[j]),
    {
        let mut cells: Vec<XY> = Vec::new();
        let mut x: u8 = 0;
        while x < self.grid.x
            invariant
                x <= self.grid.x,
                forall|cell: XY| cells@.contains(cell) <==> self@.is_free(cell) && cell.x < x,
                forall|i: int, j: int| 0 <= i < j < cells@.len() ==> cells@[i].precedes(cells@[j]),
            decreases self.grid.x - x,
        {
            let mut y: u8 = 0;
            while y < self.grid.y
                invariant
                    x < self.grid.x,
                    y <= self.grid.y,
                    forall|cell: XY|
                        cells@.contains(cell) <==> self@.is_free(cell) && cell.precedes(XY { x, y }),
                    forall|i: int, j: int|
                        0 <= i < j < cells@.len() ==> cells@[i].precedes(cells@[j]),
                decreases self.grid.y - y,
            {
                let cell = XY::new(x, y);
                let ghost before = cells@;
                if !self.snake.occupies(cell) {
                    cells.push(cell);
                    proof {
                        lemma_push_contains(before, cell);
                        assert forall|i: int, j: int|
                            0 <= i < j < cells@.len() implies cells@[i].precedes(cells@[j]) by {
                            assert(before[i] == cells@[i]);
                            assert(before.contains(cells@[i]));
                        }
                    }
                }
                assert forall|c: XY| cells@.contains(c) <==> self@.is_free(c) && c.precedes(
                    XY { x, y: (y + 1) as u8 },
                ) by {
                    assert(c.precedes(XY { x, y: (y + 1) as u8 }) <==> c.precedes(cell) || c == cell);
                    assert(before.contains(c) <==> self@.is_free(c) && c.precedes(cell));
                }
                y += 1;
            }
            x += 1;
        }
        cells
    }

    /// Settles where the next apple goes, once the snake has eaten one:
    /// at `pick`, or nowhere if there is no `pick`, which is to say that
    /// the snake fills the grid and the round is won.
    pub fn place_apple(&mut self, pick: Option<XY>) -> (r: Tick)
        requires
            old(self)@.wf(),
        ensures
            final(self)@.wf(),
            match pick {
                Some(cell) => r == Tick::Ate && final(self)@ == old(self)@.with_apple(cell),
                None => r == Tick::Won && final(self)@ == old(self)@,
            },
    {
        match pick {
            Some(cell) => {
                self.apple = cell;
                Tick::Ate
            },
            None => Tick::Won,
        }
    }

    /// One tick of the game: the snake's part (see [`Game::advance`]) and,
    /// where the snake ate the apple, a new apple on a free cell picked at
    /// random. The round is won when no cell is free.
    pub fn tick(&mut self) -> (r: Tick)
        requires
            old(self)@.wf(),
        ensures
            final(self)@.wf(),
            final(self)@ == old(self)@.moved().with_apple(final(self)@.apple),
            old(self)@.dies() <==> r == Tick::Died,
            !old(self)@.dies() && !old(self)@.eats() <==> r == Tick::Moved,
            r == Tick::Ate <==> old(self)@.eats() && exists|cell: XY|
                old(self)@.moved().is_free(cell),
            r == Tick::Ate ==> old(self)@.moved().is_free(final(self)@.apple),
            r != Tick::Ate ==> final(self)@ == old(self)@.moved(),
    {
        match self.advance() {
            Tick::Ate => {
                let cells = self.free_cells();
                proof {
                    lemma_sorted_cells_bounded(cells@);
                    if exists|cell: XY| self@.is_free(cell) {
                        let cell = choose|cell: XY| self@.is_free(cell);
                        assert(cells@.contains(cell));
                    }
                }
                let pick = choose_cell(&cells);
                self.place_apple(pick)
            },
            other => other,
        }
    }

    /// The snake of this game.
    pub fn snake(&self) -> (r: &Snake)
        ensures
            r@ == self@.snake,
    {
        &self.snake
    }

    /// Where the apple lies.
    pub fn apple(&self) -> (r: XY)
        ensures
            r == self@.apple,
    {
        self.apple
    }

    /// How many apples the snake has eaten.
    pub fn score(&self) -> (r: u16)
        ensures
            r == self@.score,
    {
        self.score
    }

    /// The size of the grid.
    pub fn grid(&self) -> (r: XY)
        ensures
            r == self@.grid,
    {
        self.grid
    }

    /// The key presses that wait for a tick, oldest first.
    pub fn inputs(&self) -> (r: &VecDeque<Key>)
        ensures
            r@ == self@.inputs,
    {
        &self.inputs
    }
}

/// Where the first `n` keys of `inputs` ask for no direction, and the next
/// one does or there is none, `n` keys are idle at the front.
proof fn lemma_idle_prefix(inputs: Seq<Key>, n: int)
    requires
        0 <= n <= inputs.len(),
        forall|j: int| 0 <= j < n ==> (#[trigger] inputs[j]).turn() is None,
        n == inputs.len() || inputs[n].turn() is Some,
    ensures
        idle_prefix(inputs) == n,
    decreases n,
{
    if n > 0 {
        let rest = inputs.skip(1);
        assert(inputs[0].turn() is None);
        assert forall|j: int| 0 <= j < n - 1 implies (#[trigger] rest[j]).turn() is None by {
            assert(rest[j] == inputs[j + 1]);
        }
        lemma_idle_prefix(rest, n - 1);
    }
}

/// What a sequence holds after a push: what it held before, and the new
/// item.
proof fn lemma_push_contains(before: Seq<XY>, cell: XY)
    ensures
        forall|c: XY| before.push(cell).contains(c) <==> before.contains(c) || c == cell,
{
    let after = before.push(cell);
    assert(after[before.len() as int] == cell);
    assert forall|c: XY| after.contains(c) implies before.contains(c) || c == cell by {
        let i = choose|i: int| 0 <= i < after.len() && after[i] == c;
        if i < before.len() {
            assert(before[i] == c);
        }
    }
    assert forall|c: XY| before.contains(c) implies after.contains(c) by {
        let i = choose|i: int| 0 <= i < before.len() && before[i] == c;
        assert(after[i] == c);
    }
}

/// Cells in strictly ascending order are no more than there are
/// coordinates.
proof fn lemma_sorted_cells_bounded(cells: Seq<XY>)
    requires
        forall|i: int, j: int| 0 <= i < j < cells.len() ==> cells[i].precedes(cells[j]),
    ensures
        cells.len() <= 0x1_0000,
{
    assert forall|i: int, j: int|
        0 <= i < cells.len() && 0 <= j < cells.len() && i != j implies cells[i] != cells[j] by {
        if i < j {
            assert(cells[i].precedes(cells[j]));
        } else {
            assert(cells[j].precedes(cells[i]));
        }
    }
    crate::snake::lemma_body_bounded(cells);
}

} // verus!
