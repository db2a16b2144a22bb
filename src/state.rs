use vstd::prelude::*;
use crate::grid::{next_cell, Direction};

verus! {

/// Where a game stands. A game that has not been started has no status.
#[derive(Clone, Copy, PartialEq, Eq, Structural, Debug)]
pub enum GameStatus {
    Won,
    Lost,
    Playing,
}

/// The mathematical model of a game: the board, the snake head-first, the reward cell and
/// the status. A reward cell equal to `size()` means that no reward is on the board.
pub struct WorldState {
    pub width: int,
    pub body: Seq<int>,
    pub direction: Direction,
    pub pending: Option<int>,
    pub reward: int,
    pub status: Option<GameStatus>,
}

impl WorldState {
    pub open spec fn size(self) -> int {
        self.width * self.width
    }

    pub open spec fn head(self) -> int {
        self.body[0]
    }

    pub open spec fn on_board(self, c: int) -> bool {
        0 <= c < self.size()
    }

    /// The invariant of every state a game can reach.
    pub open spec fn wf(self) -> bool {
        &&& 0 < self.width
        &&& 2 <= self.body.len() <= self.size()
        &&& forall|i: int| 0 <= i < self.body.len() ==> self.on_board(#[trigger] self.body[i])
        &&& self.body.no_duplicates()
        &&& 0 <= self.reward <= self.size()
        &&& !self.body.contains(self.reward)
        &&& self.pending matches Some(c) ==> c == next_cell(self.head(), self.width, self.direction)
    }

    /// A new game: a snake of two cells ending at `start`, heading right, no reward yet.
    pub open spec fn initial(width: int, start: int) -> WorldState {
        WorldState {
            width,
            body: seq![start, start - 1],
            direction: Direction::Right,
            pending: None,
            reward: width * width,
            status: None,
        }
    }

    /// The board waits for a reward cell: none is placed and a free cell exists.
    pub open spec fn needs_reward(self) -> bool {
        self.reward == self.size() && self.body.len() < self.size()
    }

    /// Whether `c` may become the reward cell: a free cell of the board, offered while the
    /// board waits for one.
    pub open spec fn accepts_reward(self, c: int) -> bool {
        self.needs_reward() && self.on_board(c) && !self.body.contains(c)
    }

    pub open spec fn with_reward(self, c: int) -> WorldState {
        if self.accepts_reward(c) {
            WorldState { reward: c, ..self }
        } else {
            self
        }
    }

    /// Starting a game that has not started; a started or finished game stays as it is.
    pub open spec fn started(self) -> WorldState {
        if self.status is None {
            WorldState { status: Some(GameStatus::Playing), ..self }
        } else {
            self
        }
    }

    /// A change of direction: refused when the head would enter the second segment,
    /// else the direction is kept together with the head cell it leads to.
    pub open spec fn turned(self, d: Direction) -> WorldState {
        let c = next_cell(self.head(), self.width, d);
        if c == self.body[1] {
            self
        } else {
            WorldState { direction: d, pending: Some(c), ..self }
        }
    }

    /// The cell the head enters on the next tick.
    pub open spec fn next_head(self) -> int {
        match self.pending {
            Some(c) => c,
            None => next_cell(self.head(), self.width, self.direction),
        }
    }

    /// The next head runs into a segment that stays in place on this tick, i.e. any but the tail.
    pub open spec fn collides(self) -> bool {
        self.body.drop_last().contains(self.next_head())
    }

    /// One tick. Nothing happens unless the game is being played. A collision loses the game
    /// and changes nothing else. Otherwise the head enters its next cell and every segment
    /// takes the place of the one before it; when the head enters the reward cell, the tail
    /// stays where it was (the snake grows by one), the reward is consumed, and a snake that
    /// now fills the board has won.
    pub open spec fn ticked(self) -> WorldState {
        let h = self.next_head();
        if self.status != Some(GameStatus::Playing) {
            self
        } else if self.collides() {
            WorldState { status: Some(GameStatus::Lost), ..self }
        } else if h == self.reward {
            let body = if self.body.len() < self.size() {
                seq![h] + self.body
            } else {
                seq![h] + self.body.drop_last()
            };
            WorldState {
                body,
                pending: None,
                reward: self.size(),
                status: if body.len() == self.size() {
                    Some(GameStatus::Won)
                } else {
                    Some(GameStatus::Playing)
                },
                ..self
            }
        } else {
            WorldState { body: seq![h] + self.body.drop_last(), pending: None, ..self }
        }
    }
}

} // verus!
