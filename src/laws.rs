use vstd::prelude::*;
use vstd::arithmetic::div_mod::{lemma_add_mod_noop, lemma_mod_add_multiples_vanish, lemma_small_mod};
use vstd::set_lib::{lemma_int_range, lemma_len_subset, set_int_range};
use crate::grid::{
    lemma_cell_coordinates,
    lemma_next_cell_in_board,
    lemma_next_cell_on_torus,
    next_cell,
    torus_step,
    Direction,
};
use crate::state::{GameStatus, WorldState};

verus! {

/// An operation a player or host performs on a game.
pub enum Command {
    Start,
    Turn(Direction),
    Tick,
    Reward(usize),
}

pub open spec fn apply(m: WorldState, c: Command) -> WorldState {
    match c {
        Command::Start => m.started(),
        Command::Turn(d) => m.turned(d),
        Command::Tick => m.ticked(),
        Command::Reward(i) => m.with_reward(i as int),
    }
}

/// The state reached from `m` by performing `cmds` in order.
pub open spec fn run(m: WorldState, cmds: Seq<Command>) -> WorldState
    decreases cmds.len(),
{
    if cmds.len() == 0 {
        m
    } else {
        run(apply(m, cmds[0]), cmds.drop_first())
    }
}

/// A new game satisfies the invariant.
pub proof fn lemma_initial_wf(width: int, start: int)
    requires
        0 < width,
        1 <= start < width * width,
    ensures
        WorldState::initial(width, start).wf(),
{
    let m = WorldState::initial(width, start);
    assert(m.body.len() == 2);
    assert(!m.body.contains(m.reward)) by {
        if m.body.contains(m.reward) {
            let i = choose|i: int| 0 <= i < m.body.len() && m.body[i] == m.reward;
            assert(i == 0 || i == 1);
        }
    }
}

/// Every operation keeps the invariant.
pub proof fn lemma_command_keeps_wf(m: WorldState, c: Command)
    requires
        m.wf(),
    ensures
        apply(m, c).wf(),
{
    assert(m.on_board(m.body[0]));
    lemma_next_cell_in_board(m.head(), m.width, m.direction);
    match c {
        Command::Turn(d) => {
            lemma_next_cell_in_board(m.head(), m.width, d);
        },
        Command::Tick => {
            let t = m.ticked();
            let h = m.next_head();
            if m.status == Some(GameStatus::Playing) && !m.collides() {
                let rest = if h == m.reward && m.body.len() < m.size() {
                    m.body
                } else {
                    m.body.drop_last()
                };
                assert(t.body == seq![h] + rest);
                assert forall|i: int| 0 <= i < t.body.len() implies t.on_board(#[trigger] t.body[i]) by {
                    if i > 0 {
                        assert(t.body[i] == m.body[i - 1]);
                    }
                }
                if h != m.reward {
                    assert(!t.body.contains(t.reward)) by {
                        if t.body.contains(t.reward) {
                            let i = choose|i: int| 0 <= i < t.body.len() && t.body[i] == t.reward;
                            assert(i > 0);
                            assert(m.body[i - 1] == m.reward);
                        }
                    }
                }
            }
        },
        _ => {},
    }
}

/// Every state reached from a new game, whatever is done to it, satisfies the invariant:
/// each segment lies on the board and no segment is on the reward cell.
pub proof fn lemma_reachable_states(width: int, start: int, cmds: Seq<Command>)
    requires
        0 < width,
        1 <= start < width * width,
    ensures
        ({
            let m = run(WorldState::initial(width, start), cmds);
            &&& m.wf()
            &&& forall|i: int| 0 <= i < m.body.len() ==> 0 <= #[trigger] m.body[i] < m.size()
            &&& forall|i: int| 0 <= i < m.body.len() ==> #[trigger] m.body[i] != m.reward
        }),
{
    lemma_initial_wf(width, start);
    lemma_run_keeps_wf(WorldState::initial(width, start), cmds);
    let m = run(WorldState::initial(width, start), cmds);
    assert forall|i: int| 0 <= i < m.body.len() implies #[trigger] m.body[i] != m.reward by {
        if m.body[i] == m.reward {
            assert(m.body.contains(m.reward));
        }
    }
}

proof fn lemma_run_keeps_wf(m: WorldState, cmds: Seq<Command>)
    requires
        m.wf(),
    ensures
        run(m, cmds).wf(),
    decreases cmds.len(),
{
    if cmds.len() > 0 {
        lemma_command_keeps_wf(m, cmds[0]);
        lemma_run_keeps_wf(apply(m, cmds[0]), cmds.drop_first());
    }
}

/// While a reward lies on the board, the snake leaves at least that cell free, so it is
/// shorter than the board's cell count.
pub proof fn lemma_reward_leaves_room(m: WorldState)
    requires
        m.wf(),
        m.reward < m.size(),
    ensures
        m.body.len() < m.size(),
{
    let free = set_int_range(0, m.size()).remove(m.reward);
    lemma_int_range(0, m.size());
    m.body.unique_seq_to_set();
    assert(m.body.to_set().subset_of(free)) by {
        assert forall|c: int| m.body.to_set().contains(c) implies free.contains(c) by {
            let i = choose|i: int| 0 <= i < m.body.len() && m.body[i] == c;
            assert(m.on_board(m.body[i]));
        }
    }
    lemma_len_subset(m.body.to_set(), free);
}

/// A change of direction that would move the head onto the second segment changes nothing.
pub proof fn lemma_reversal_rejected(m: WorldState, d: Direction)
    requires
        m.wf(),
        next_cell(m.head(), m.width, d) == m.body[1],
    ensures
        m.turned(d) == m,
        m.turned(d).direction == m.direction,
        m.turned(d).pending == m.pending,
{
}

/// Eating the reward: the snake grows by exactly one segment, its tail staying where it was
/// while the rest of it moves on. The reward is consumed; the game is won when the snake
/// now fills the board, and otherwise goes on with the board waiting for a new reward,
/// which can only be a free cell.
pub proof fn lemma_eating_grows(m: WorldState, c: int)
    requires
        m.wf(),
        m.status == Some(GameStatus::Playing),
        !m.collides(),
        m.next_head() == m.reward,
    ensures
        ({
            let t = m.ticked();
            &&& t.body == seq![m.reward] + m.body
            &&& t.body.len() == m.body.len() + 1
            &&& t.reward == t.size()
            &&& t.body.len() == t.size() ==> t.status == Some(GameStatus::Won)
            &&& t.body.len() < t.size() ==> t.status == Some(GameStatus::Playing) && t.needs_reward()
            &&& t.with_reward(c).reward < t.size() ==> t.with_reward(c).reward == c
                && !t.body.contains(c)
            &&& t.accepts_reward(c) ==> t.with_reward(c).reward == c
        }),
{
    assert(m.on_board(m.body[0]));
    lemma_next_cell_in_board(m.head(), m.width, m.direction);
    lemma_reward_leaves_room(m);
    lemma_command_keeps_wf(m, Command::Tick);
}

/// The game after `n` ticks.
pub open spec fn ticks(m: WorldState, n: nat) -> WorldState
    decreases n,
{
    if n == 0 {
        m
    } else {
        ticks(m, (n - 1) as nat).ticked()
    }
}

/// Where `n` steps in direction `d` lead from `head` on a `width` x `width` board with
/// wrapping edges: along its row for left and right, along its column for up and down.
pub open spec fn walk(head: int, width: int, d: Direction, n: nat) -> int {
    let row = head / width;
    let col = head % width;
    match d {
        Direction::Right => row * width + (col + n) % width,
        Direction::Left => row * width + (col - n) % width,
        Direction::Up => ((row - n) % width) * width + col,
        Direction::Down => ((row + n) % width) * width + col,
    }
}

/// Over ticks on which the snake neither runs into itself nor meets the reward, with no
/// change of direction, the head advances one cell per tick in its direction, wrapping
/// at the edges of its row or column.
pub proof fn lemma_ticks_walk(m: WorldState, n: nat)
    requires
        m.wf(),
        m.status == Some(GameStatus::Playing),
        forall|k: nat|
            k < n ==> !(#[trigger] ticks(m, k)).collides() && ticks(m, k).next_head()
                != ticks(m, k).reward,
    ensures
        ticks(m, n).wf(),
        ticks(m, n).status == Some(GameStatus::Playing),
        ticks(m, n).direction == m.direction,
        ticks(m, n).width == m.width,
        ticks(m, n).body.len() == m.body.len(),
        ticks(m, n).head() == walk(m.head(), m.width, m.direction, n),
    decreases n,
{
    let w = m.width;
    assert(m.on_board(m.body[0]));
    lemma_cell_coordinates(m.head(), w);
    let row = m.head() / w;
    let col = m.head() % w;
    if n == 0 {
        lemma_small_mod(col as nat, w as nat);
        lemma_small_mod(row as nat, w as nat);
    } else {
        let k = (n - 1) as nat;
        lemma_ticks_walk(m, k);
        let p = ticks(m, k);
        assert(!p.collides() && p.next_head() != p.reward);
        lemma_command_keeps_wf(p, Command::Tick);
        assert(p.ticked().head() == next_cell(p.head(), w, m.direction));
        let d = m.direction;
        let (r1, c1) = match d {
            Direction::Right => (row, (col + k) % w),
            Direction::Left => (row, (col - k) % w),
            Direction::Up => ((row - k) % w, col),
            Direction::Down => ((row + k) % w, col),
        };
        assert(0 <= r1 < w && 0 <= c1 < w);
        assert(p.head() == r1 * w + c1);
        lemma_next_cell_on_torus(r1, c1, w, d);
        lemma_small_mod((w - 1) as nat, w as nat);
        lemma_small_mod(1, w as nat);
        match d {
            Direction::Right => {
                lemma_add_mod_noop(col + k, 1, w);
            },
            Direction::Left => {
                lemma_add_mod_noop(col - k, w - 1, w);
                lemma_mod_add_multiples_vanish(col - k - 1, w);
            },
            Direction::Up => {
                lemma_add_mod_noop(row - k, w - 1, w);
                lemma_mod_add_multiples_vanish(row - k - 1, w);
            },
            Direction::Down => {
                lemma_add_mod_noop(row + k, 1, w);
            },
        }
    }
}

} // verus!
