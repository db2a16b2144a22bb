use vstd::prelude::*;
use crate::grid::{lemma_next_cell_in_board, next_cell, step_from, Direction};
use crate::state::{GameStatus, WorldState};

verus! {

/// One segment of the snake: the index of the board cell it occupies.
#[derive(Clone, Copy, PartialEq, Eq, Structural, Debug)]
pub struct SnakeCell(pub usize);

/// The board indices of a sequence of segments.
pub open spec fn cells(s: Seq<SnakeCell>) -> Seq<int> {
    s.map_values(|c: SnakeCell| c.0 as int)
}

struct Snake {
    body: Vec<SnakeCell>,
    direction: Direction,
    next_cell: Option<SnakeCell>,
}

impl Snake {
    /// A snake of `length` segments heading right, its head at `start_index` and each
    /// further segment one index lower.
    fn new(start_index: usize, length: usize) -> (r: Snake)
        requires
            length <= start_index + 1,
        ensures
            r.body@.len() == length,
            forall|i: int| 0 <= i < length ==> #[trigger] r.body@[i].0 == start_index - i,
            r.direction == Direction::Right,
            r.next_cell is None,
    {
        let mut body: Vec<SnakeCell> = Vec::new();
        let mut i: usize = 0;
        while i < length
            invariant
                i <= length <= start_index + 1,
                body@.len() == i,
                forall|j: int| 0 <= j < i ==> #[trigger] body@[j].0 == start_index - j,
            decreases length - i,
        {
            body.push(SnakeCell(start_index - i));
            i = i + 1;
        }
        Snake { body, direction: Direction::Right, next_cell: None }
    }
}

/// Whether one of the first `end` segments of `body` occupies cell `idx`.
fn occupies(body: &Vec<SnakeCell>, end: usize, idx: usize) -> (r: bool)
    requires
        end <= body@.len(),
    ensures
        r == cells(body@).subrange(0, end as int).contains(idx as int),
{
    let ghost prefix = cells(body@).subrange(0, end as int);
    let mut i: usize = 0;
    while i < end
        invariant
            i <= end <= body@.len(),
            prefix == cells(body@).subrange(0, end as int),
            forall|j: int| 0 <= j < i ==> prefix[j] != idx,
        decreases end - i,
    {
        if body[i].0 == idx {
            assert(prefix[i as int] == idx);
            return true;
        }
        i = i + 1;
    }
    false
}

/// A game of snake on a square board whose edges wrap around.
pub struct World {
    width: usize,
    size: usize,
    snake: Snake,
    reward_cell: usize,
    status: Option<GameStatus>,
}

impl View for World {
    type V = WorldState;

    closed spec fn view(&self) -> WorldState {
        WorldState {
            width: self.width as int,
            body: cells(self.snake.body@),
            direction: self.snake.direction,
            pending: match self.snake.next_cell {
                Some(c) => Some(c.0 as int),
                None => None,
            },
            reward: self.reward_cell as int,
            status: self.status,
        }
    }
}

impl World {
    /// The world's invariant: its model is well formed and `size` is the board's cell count.
    pub closed spec fn wf(&self) -> bool {
        &&& self.size == self.width * self.width
        &&& self@.wf()
    }

    /// What `wf` gives a caller about the model.
    pub proof fn lemma_wf_model(&self)
        requires
            self.wf(),
        ensures
            self@.wf(),
            self@.size() <= usize::MAX,
    {
    }

    /// A game on a `width` x `width` board with a two-segment snake whose head is at
    /// `start_idx`, heading right. No reward is placed yet (see `place_reward`).
    pub fn new(width: usize, start_idx: usize) -> (r: World)
        requires
            0 < width,
            width * width <= usize::MAX,
            1 <= start_idx < width * width,
        ensures
            r.wf(),
            r@ == WorldState::initial(width as int, start_idx as int),
    {
        let size = width * width;
        let snake = Snake::new(start_idx, 2);
        let w = World { width, size, snake, reward_cell: size, status: None };
        assert(w@.body =~= seq![start_idx as int, start_idx - 1]);
        w
    }

    pub fn width(&self) -> (r: usize)
        ensures
            r == self@.width,
    {
        self.width
    }

    pub fn reward_cell(&self) -> (r: usize)
        ensures
            r == self@.reward,
    {
        self.reward_cell
    }

    /// Whether the board waits for a reward cell to be offered.
    pub fn needs_reward(&self) -> (r: bool)
        requires
            self.wf(),
        ensures
            r == self@.needs_reward(),
    {
        self.reward_cell == self.size && self.snake.body.len() < self.size
    }

    /// Offers `candidate`, a random index, as the reward cell. It is taken, and `true` is
    /// returned, exactly when the board waits for a reward and `candidate` is a free cell.
    pub fn place_reward(&mut self, candidate: usize) -> (r: bool)
        requires
            old(self).wf(),
        ensures
            final(self).wf(),
            r == old(self)@.accepts_reward(candidate as int),
            final(self)@ == old(self)@.with_reward(candidate as int),
    {
        if !self.needs_reward() || candidate >= self.size {
            return false;
        }
        let len = self.snake.body.len();
        if occupies(&self.snake.body, len, candidate) {
            return false;
        }
        assert(cells(self.snake.body@).subrange(0, len as int) =~= cells(self.snake.body@));
        self.reward_cell = candidate;
        true
    }

    pub fn snake_head_idx(&self) -> (r: usize)
        requires
            self.wf(),
        ensures
            r == self@.head(),
    {
        self.snake.body[0].0
    }

    pub fn snake_length(&self) -> (r: usize)
        ensures
            r == self@.body.len(),
    {
        self.snake.body.len()
    }

    /// The snake's segments, head first.
    pub fn snake_cells(&self) -> (r: Vec<SnakeCell>)
        ensures
            cells(r@) == self@.body,
    {
        let mut out: Vec<SnakeCell> = Vec::new();
        let mut i: usize = 0;
        while i < self.snake.body.len()
            invariant
                i <= self.snake.body@.len(),
                out@ == self.snake.body@.subrange(0, i as int),
            decreases self.snake.body@.len() - i,
        {
            out.push(self.snake.body[i]);
            i = i + 1;
        }
        assert(out@ =~= self.snake.body@);
        out
    }

    pub fn game_status(&self) -> (r: Option<GameStatus>)
        ensures
            r == self@.status,
    {
        self.status
    }

    /// Starts a game that has not been started; a game under way or over is left as it is.
    pub fn start_game(&mut self)
        requires
            old(self).wf(),
        ensures
            final(self).wf(),
            final(self)@ == old(self)@.started(),
    {
        if self.status.is_none() {
            self.status = Some(GameStatus::Playing);
        }
    }

    /// The cell the head would enter on moving one step in `direction`.
    fn gen_next_snake_cell(&self, direction: &Direction) -> (r: SnakeCell)
        requires
            self.wf(),
        ensures
            r.0 == next_cell(self@.head(), self@.width, *direction),
            r.0 < self.size,
    {
        assert(self@.on_board(self@.body[0]));
        SnakeCell(step_from(self.snake.body[0].0, self.width, self.size, *direction))
    }

    /// Turns the snake towards `direction`, unless that would move the head onto the
    /// second segment; the head cell it leads to is kept for the next tick.
    pub fn set_snake_direction(&mut self, direction: Direction)
        requires
            old(self).wf(),
        ensures
            final(self).wf(),
            final(self)@ == old(self)@.turned(direction),
    {
        let next_cell = self.gen_next_snake_cell(&direction);
        if self.snake.body[1].0 == next_cell.0 {
            return;
        }
        self.snake.direction = direction;
        self.snake.next_cell = Some(next_cell);
    }
    /// Advances the game by one tick when it is being played (see `WorldState::ticked`).
    /// A reward that is eaten is not replaced here: `needs_reward` then reports that the
    /// board waits for `place_reward`.
    pub fn step(&mut self)
        requires
            old(self).wf(),
        ensures
            final(self).wf(),
            final(self)@ == old(self)@.ticked(),
    {
        match self.status {
            Some(GameStatus::Playing) => {},
            _ => return,
        }
        let ghost s0 = self@;
        let ghost body0 = self.snake.body@;
        proof {
            assert(s0.on_board(s0.body[0]));
            lemma_next_cell_in_board(s0.head(), s0.width, s0.direction);
        }
        let new_head = match self.snake.next_cell {
            Some(cell) => cell.0,
            None => self.gen_next_snake_cell(&self.snake.direction).0,
        };
        assert(new_head == s0.next_head());
        let len = self.snake.body.len();
        assert(cells(body0).subrange(0, len - 1) =~= s0.body.drop_last());
        if occupies(&self.snake.body, len - 1, new_head) {
            self.status = Some(GameStatus::Lost);
            return;
        }
        let tail = self.snake.body[len - 1];
        let mut i: usize = len - 1;
        while i > 0
            invariant
                i < len,
                len == body0.len(),
                self.snake.body@.len() == len,
                self.width == s0.width,
                self.size == s0.size(),
                self.snake.direction == s0.direction,
                self.snake.next_cell == old(self).snake.next_cell,
                self.reward_cell == s0.reward,
                self.status == s0.status,
                forall|j: int| 0 <= j <= i ==> #[trigger] self.snake.body@[j] == body0[j],
                forall|j: int| i < j < len ==> #[trigger] self.snake.body@[j] == body0[j - 1],
            decreases i,
        {
            let prev = self.snake.body[i - 1];
            self.snake.body.set(i, prev);
            i = i - 1;
        }
        self.snake.body.set(0, SnakeCell(new_head));
        self.snake.next_cell = None;
        assert(cells(self.snake.body@) =~= seq![new_head as int] + s0.body.drop_last());
        if new_head == self.reward_cell {
            if len < self.size {
                self.snake.body.push(tail);
                assert(cells(self.snake.body@) =~= seq![new_head as int] + s0.body);
            }
            if self.snake.body.len() == self.size {
                self.status = Some(GameStatus::Won);
            }
            self.reward_cell = self.size;
        }
    }
}

} // verus!
