//! The snake: an ordered body of grid cells, head first, that moves one cell
//! per tick in the direction it faces.

use vstd::prelude::*;
use std::collections::VecDeque;
use crate::xy::{Direction, XY};

verus! {

/// What a [`Snake`] is, mathematically: its cells from head to tail, the
/// direction it faces, and whether its next step lengthens it.
pub struct SnakeView {
    pub body: Seq<XY>,
    pub direction: Direction,
    pub growing: bool,
}

impl SnakeView {
    /// A body has a head and a distinct tail, covers no cell twice, and each
    /// of its cells is a neighbour of the next.
    pub open spec fn wf(self) -> bool {
        &&& self.body.len() >= 2
        &&& self.body.no_duplicates()
        &&& forall|i: int|
            0 <= i < self.body.len() - 1 ==> (#[trigger] self.body[i]).touches(self.body[i + 1])
    }

    /// The snake that a round starts with: three cells trailing to the left
    /// of `head`, facing right, not growing.
    pub open spec fn starting_at(head: XY) -> SnakeView {
        SnakeView {
            body: seq![
                head,
                XY { x: (head.x - 1) as u8, y: head.y },
                XY { x: (head.x - 2) as u8, y: head.y },
            ],
            direction: Direction::Right,
            growing: false,
        }
    }

    /// The cell of the head: the front of the body.
    pub open spec fn head(self) -> XY {
        self.body[0]
    }

    /// The cell of the tail: the back of the body.
    pub open spec fn tail(self) -> XY {
        self.body.last()
    }

    /// The cell that the head would move to, if the coordinate type has one.
    pub open spec fn candidate(self) -> Option<XY> {
        self.head().shifted(self.direction)
    }

    /// The cells that stay occupied through the next step: all of the body
    /// when growing, all but the tail otherwise, since the tail then leaves
    /// its cell as the head arrives.
    pub open spec fn kept(self) -> Seq<XY> {
        if self.growing {
            self.body
        } else {
            self.body.drop_last()
        }
    }

    /// Whether the next step is fatal in a grid of size `grid`: the head
    /// would leave the grid, or move onto a cell that stays occupied.
    pub open spec fn collides(self, grid: XY) -> bool {
        match self.candidate() {
            None => true,
            Some(c) => !c.within(grid) || self.kept().contains(c),
        }
    }

    /// The snake after one step that was not fatal.
    pub open spec fn advanced(self) -> SnakeView
        recommends
            self.candidate() is Some,
    {
        SnakeView {
            body: seq![self.candidate().unwrap()] + self.kept(),
            direction: self.direction,
            growing: false,
        }
    }

    /// The snake after one tick in a grid of size `grid`: unchanged when the
    /// step is fatal, advanced otherwise.
    pub open spec fn step(self, grid: XY) -> SnakeView {
        if self.collides(grid) {
            self
        } else {
            self.advanced()
        }
    }

    /// The snake after a request to face `direction`: a request to reverse
    /// is ignored.
    pub open spec fn turned(self, direction: Direction) -> SnakeView {
        if direction.opposes(self.direction) {
            self
        } else {
            SnakeView { direction, ..self }
        }
    }

    /// The snake after a request to grow.
    pub open spec fn grown(self) -> SnakeView {
        SnakeView { growing: true, ..self }
    }

    /// The snake after `n` requests to grow in a row.
    pub open spec fn grown_times(self, n: nat) -> SnakeView
        decreases n,
    {
        if n == 0 {
            self
        } else {
            self.grown_times((n - 1) as nat).grown()
        }
    }
}

/// A snake on the grid. Every snake that [`Snake::new`] returns is well
/// formed (see [`SnakeView::wf`]), and every method keeps it so.
pub struct Snake {
    /// The main data of the snake: the position of each block, head first.
    blocks: VecDeque<XY>,
    /// Movement direction of the snake's head.
    direction: Direction,
    /// Whether the snake will grow when it next advances. Switched `true` by
    /// `grow` and consumed by the next step that is not fatal, which moves
    /// the head but leaves the tail in place.
    growing: bool,
}

impl View for Snake {
    type V = SnakeView;

    closed spec fn view(&self) -> SnakeView {
        SnakeView { body: self.blocks@, direction: self.direction, growing: self.growing }
    }
}

impl Snake {
    /// A new snake of three blocks with the head's position at `head`,
    /// facing right. There is none where the blocks behind the head would
    /// not fit between `head` and the left edge.
    pub fn new(head: XY) -> (r: Option<Snake>)
        ensures
            r is Some <==> head.x >= 2,
            r is Some ==> r.unwrap()@ == SnakeView::starting_at(head) && r.unwrap()@.wf(),
    {
        let middle = match head.shift(Direction::Left) {
            Some(cell) => cell,
            None => {
                return None;
            },
        };
        let tail = match middle.shift(Direction::Left) {
            Some(cell) => cell,
            None => {
                return None;
            },
        };
        let mut blocks: VecDeque<XY> = VecDeque::new();
        blocks.push_back(head);
        blocks.push_back(middle);
        blocks.push_back(tail);
        assert(blocks@ =~= SnakeView::starting_at(head).body);
        Some(Snake { blocks, direction: Direction::Right, growing: false })
    }

    /// If the snake will collide with itself or the walls of `grid` when
    /// advanced, returns `true` and leaves the snake as it is; otherwise
    /// advances the snake, returning `false`.
    pub fn advance_or_collide_in(&mut self, grid: XY) -> (collided: bool)
        requires
            old(self)@.wf(),
        ensures
            collided == old(self)@.collides(grid),
            final(self)@ == old(self)@.step(grid),
            final(self)@.wf(),
    {
        if self.will_collide_in(grid) {
            true
        } else {
            self.advance();
            false
        }
    }

    /// Advances (moves) the snake one block in its current direction,
    /// without checking for collisions.
    fn advance(&mut self)
        requires
            old(self)@.wf(),
            old(self)@.candidate() is Some,
            !old(self)@.kept().contains(old(self)@.candidate().unwrap()),
        ensures
            final(self)@ == old(self)@.advanced(),
            final(self)@.wf(),
    {
        proof {
            lemma_advanced_well_formed(self@);
        }
        let new_head = self.head().shift(self.direction).unwrap();
        // We don't remove the tail if we are growing. This means the head
        // will move forward and the tail stays in place.
        if self.growing {
            self.blocks.push_front(new_head);
            self.growing = false;
        } else {
            self.blocks.pop_back();
            self.blocks.push_front(new_head);
        }
    }

    /// Whether the snake *will* collide with the walls of `grid` or itself
    /// the next time it is advanced.
    pub fn will_collide_in(&self, grid: XY) -> (r: bool)
        requires
            self@.wf(),
        ensures
            r == self@.collides(grid),
    {
        match self.head().shift(self.direction) {
            None => true,
            Some(future_head) => {
                if future_head.x >= grid.x || future_head.y >= grid.y {
                    true
                } else {
                    // We don't check for collisions with the tail block since
                    // it will move when advanced *unless* we are going to grow
                    // (which means the tail block won't move).
                    let checked: usize = if self.growing {
                        self.blocks.len()
                    } else {
                        self.blocks.len() - 1
                    };
                    assert(self@.kept() =~= self@.body.take(checked as int));
                    self.occupies_among(future_head, checked)
                }
            },
        }
    }

    /// Whether `cell` is one of the first `n` blocks, counted from the head.
    fn occupies_among(&self, cell: XY, n: usize) -> (r: bool)
        requires
            n <= self@.body.len(),
        ensures
            r == self@.body.take(n as int).contains(cell),
    {
        let mut i: usize = 0;
        while i < n
            invariant
                i <= n <= self.blocks@.len(),
                forall|j: int| 0 <= j < i ==> self.blocks@[j] != cell,
            decreases n - i,
        {
            if self.blocks[i] == cell {
                assert(self@.body.take(n as int)[i as int] == cell);
                return true;
            }
            i += 1;
        }
        false
    }

    /// Whether `cell` is one of the snake's blocks.
    pub fn occupies(&self, cell: XY) -> (r: bool)
        ensures
            r == self@.body.contains(cell),
    {
        let n: usize = self.blocks.len();
        assert(self@.body.take(n as int) =~= self@.body);
        self.occupies_among(cell, n)
    }

    /// Changes the direction of the snake, unless the direction is the
    /// inverse of the current direction.
    pub fn change_direction(&mut self, new_direction: Direction)
        ensures
            final(self)@ == old(self)@.turned(new_direction),
    {
        // We don't want to be able to reverse the snake into itself.
        if new_direction.is_inverse_of(self.direction) {
            return ;
        }
        self.direction = new_direction;
    }

    /// Grow the snake. Calling repeatedly between two steps is the same as
    /// calling it once.
    pub fn grow(&mut self)
        ensures
            final(self)@ == old(self)@.grown(),
    {
        self.growing = true;
    }

    /// The position of the head of this snake.
    pub fn head(&self) -> (r: &XY)
        requires
            self@.wf(),
        ensures
            *r == self@.head(),
    {
        &self.blocks[0]
    }

    /// The direction of this snake.
    pub fn direction(&self) -> (r: Direction)
        ensures
            r == self@.direction,
    {
        self.direction
    }

    /// Whether the next step of this snake lengthens it.
    pub fn is_growing(&self) -> (r: bool)
        ensures
            r == self@.growing,
    {
        self.growing
    }

    /// A reference to the blocks of this snake, head first.
    pub fn blocks(&self) -> (r: &VecDeque<XY>)
        ensures
            r@ == self@.body,
    {
        &self.blocks
    }

    /// The number of blocks of this snake.
    pub fn len(&self) -> (n: usize)
        ensures
            n == self@.body.len(),
    {
        self.blocks.len()
    }
}

/// A step that is not fatal leaves the snake well formed, with its head on
/// the cell in front of the old head.
pub proof fn lemma_advanced_well_formed(s: SnakeView)
    requires
        s.wf(),
        s.candidate() is Some,
        !s.kept().contains(s.candidate().unwrap()),
    ensures
        s.advanced().wf(),
        s.advanced().head() == s.candidate().unwrap(),
        s.advanced().direction == s.direction,
{
    let c = s.candidate().unwrap();
    let kept = s.kept();
    let next = s.advanced().body;
    crate::xy::lemma_shift_round_trip(s.head(), s.direction);
    assert(kept.len() >= 1);
    assert(forall|i: int| 0 <= i < kept.len() ==> kept[i] == s.body[i]);
    assert(forall|i: int| 1 <= i < next.len() ==> next[i] == kept[i - 1]);
    assert forall|i: int, j: int|
        0 <= i < next.len() && 0 <= j < next.len() && i != j implies next[i] != next[j] by {
        if i == 0 {
            assert(kept[j - 1] == next[j]);
        } else if j == 0 {
            assert(kept[i - 1] == next[i]);
        }
    }
    assert forall|i: int| 0 <= i < next.len() - 1 implies (#[trigger] next[i]).touches(
        next[i + 1],
    ) by {
        if i > 0 {
            assert(s.body[i - 1].touches(s.body[i]));
        }
    }
}

/// A request to turn is ignored exactly when it asks for the inverse of the
/// current direction, so that no single request reverses the snake. Any
/// other request takes effect at once: the snake faces the requested
/// direction, and its next step that is not fatal moves the head one cell
/// that way. Turning moves no block.
pub proof fn lemma_turn_ignored_iff_reversal(s: SnakeView, d: Direction, grid: XY)
    requires
        s.wf(),
    ensures
        s.turned(d).direction != d <==> d.opposes(s.direction),
        d.opposes(s.direction) ==> s.turned(d) == s,
        !s.turned(d).direction.opposes(s.direction),
        s.turned(d).body == s.body && s.turned(d).growing == s.growing,
        !d.opposes(s.direction) && !s.turned(d).collides(grid) ==> s.head().shifted(d) == Some(
            s.turned(d).step(grid).head(),
        ),
{
    crate::xy::lemma_inverse_symmetric(d, s.direction);
}

/// Any number of requests to grow, one at least, amounts to one request:
/// the next step that is not fatal lengthens the body by exactly one block.
pub proof fn lemma_grow_is_idempotent(s: SnakeView, n: nat, grid: XY)
    requires
        n >= 1,
    ensures
        s.grown_times(n) == s.grown(),
        !s.grown_times(n).collides(grid) ==> s.grown_times(n).step(grid).body.len() == s.body.len()
            + 1,
    decreases n,
{
    if n > 1 {
        lemma_grow_is_idempotent(s, (n - 1) as nat, grid);
    } else {
        assert(s.grown_times(0) == s);
    }
}

/// A tick never shortens the body. A fatal step changes nothing; any other
/// step keeps the length when the snake was not growing, adds one block when
/// it was, and uses the request to grow up.
pub proof fn lemma_step_length(s: SnakeView, grid: XY)
    requires
        s.wf(),
    ensures
        s.step(grid).body.len() >= s.body.len(),
        s.collides(grid) ==> s.step(grid) == s,
        !s.collides(grid) && !s.growing ==> s.step(grid).body.len() == s.body.len(),
        !s.collides(grid) && s.growing ==> s.step(grid).body.len() == s.body.len() + 1,
        !s.collides(grid) ==> !s.step(grid).growing && s.step(grid).wf(),
{
    if !s.collides(grid) {
        lemma_advanced_well_formed(s);
    }
}

/// Where the cell in front of the head is the current tail, the step is
/// fatal exactly when the snake is growing: otherwise the tail leaves its
/// cell as the head arrives.
pub proof fn lemma_tail_vacates(s: SnakeView, grid: XY)
    requires
        s.wf(),
        s.candidate() == Some(s.tail()),
        s.tail().within(grid),
    ensures
        s.collides(grid) == s.growing,
{
    let last = s.body.len() - 1;
    if s.growing {
        assert(s.body[last] == s.tail());
    } else {
        let kept = s.body.drop_last();
        assert(forall|i: int| 0 <= i < kept.len() ==> kept[i] == s.body[i]);
    }
}

/// A body that covers no cell twice has at most as many blocks as there are
/// coordinates.
pub proof fn lemma_body_bounded(body: Seq<XY>)
    requires
        body.no_duplicates(),
    ensures
        body.len() <= 0x1_0000,
{
    let codes = Seq::new(body.len(), |i: int| body[i].x * 0x100 + body[i].y);
    assert forall|i: int, j: int|
        0 <= i < codes.len() && 0 <= j < codes.len() && i != j implies codes[i] != codes[j] by {
        assert(body[i] != body[j]);
    }
    codes.unique_seq_to_set();
    vstd::set_lib::lemma_int_range(0, 0x1_0000);
    assert(codes.to_set().subset_of(vstd::set_lib::set_int_range(0, 0x1_0000))) by {
        assert forall|c: int| codes.to_set().contains(c) implies 0 <= c < 0x1_0000 by {
            let i = choose|i: int| 0 <= i < codes.len() && codes[i] == c;
            assert(codes[i] == body[i].x * 0x100 + body[i].y);
        }
    }
    vstd::set_lib::lemma_len_subset(codes.to_set(), vstd::set_lib::set_int_range(0, 0x1_0000));
}

} // verus!
