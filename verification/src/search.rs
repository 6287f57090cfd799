//! The adversarial search engine: exhaustive depth-first minimax over the
//! 3x3 board, returning the game-theoretically optimal play together with
//! its signed score.

use vstd::prelude::*;

use crate::game::{
    Player, TicTacToe, board_wf, empties, empty_plays, lemma_empties_from_characterized,
    lemma_empties_update, play_applied, play_legal, slot, spec_is_terminal, spec_other,
    spec_winner,
};

verus! {

/// The outcome of a search: the chosen play, if the position allowed one,
/// and its signed score: 1 when X forces a win, -1 when O does, 0 for a
/// draw.
#[derive(Debug, Copy, Clone, Eq, PartialEq)]
pub struct MiniMaxResult {
    pub play: Option<(usize, usize)>,
    pub score: i32,
}

/// The score of a position read off the board alone: 1 when X owns a line,
/// -1 when O does, 0 otherwise.
pub open spec fn spec_score(b: Seq<Option<Player>>) -> i32 {
    match spec_winner(b) {
        Some(Player::X) => 1,
        Some(Player::O) => -1i32,
        None => 0,
    }
}

/// Whether score `s1` is at least as good as `s2` for `mover`: X maximizes,
/// O minimizes. Equality counts as good enough, which is what keeps the
/// first play among equals.
pub open spec fn beats(mover: Player, s1: int, s2: int) -> bool {
    match mover {
        Player::X => s1 >= s2,
        Player::O => s1 <= s2,
    }
}

/// The running best a search starts from: a score that every real score
/// strictly beats for the given mover.
pub open spec fn spec_sentinel(mover: Player) -> MiniMaxResult {
    MiniMaxResult {
        play: None,
        score: match mover {
            Player::X => -2i32,
            Player::O => 2,
        },
    }
}

/// The minimax value of a board with `mover` to move: on a finished
/// position, no play and the board's own score; otherwise the best play
/// among the legal ones, tried in row-major order.
pub open spec fn spec_minimax(b: Seq<Option<Player>>, mover: Player) -> MiniMaxResult
    decreases empties(b).len(), 1int, 0int,
{
    if spec_is_terminal(b) {
        MiniMaxResult { play: None, score: spec_score(b) }
    } else {
        spec_best(b, mover, empties(b))
    }
}

/// The value of `mover`'s minimax score after playing `mv` on `b`, with the
/// opponent replying optimally.
pub open spec fn child_score(b: Seq<Option<Player>>, mover: Player, mv: (usize, usize)) -> int {
    spec_minimax(play_applied(b, mover, mv), spec_other(mover)).score as int
}

/// Fold `mover`'s choice over a candidate list of plays: each candidate is
/// simulated on a copy of the board and compared against the best of the
/// remaining candidates; a tie keeps the earlier candidate.
pub open spec fn spec_best(
    b: Seq<Option<Player>>,
    mover: Player,
    cands: Seq<(usize, usize)>,
) -> MiniMaxResult
    decreases empties(b).len(), 0int, cands.len(),
{
    if cands.len() == 0 {
        spec_sentinel(mover)
    } else {
        let mv = cands[0];
        let rest = spec_best(b, mover, cands.drop_first());
        if board_wf(b) && play_legal(b, mv) {
            let child = {
                proof {
                    lemma_empties_update(b, slot(mv), mover);
                }
                spec_minimax(play_applied(b, mover, mv), spec_other(mover))
            };
            if beats(mover, child.score as int, rest.score as int) {
                MiniMaxResult { play: Some(mv), score: child.score }
            } else {
                rest
            }
        } else {
            rest
        }
    }
}

/// Minimax scores always lie between a loss and a win.
pub proof fn lemma_minimax_bounds(b: Seq<Option<Player>>, mover: Player)
    requires
        board_wf(b),
    ensures
        -1 <= spec_minimax(b, mover).score <= 1,
    decreases empties(b).len(), 1int, 0int,
{
    if !spec_is_terminal(b) {
        lemma_empties_from_characterized(b, 0);
        lemma_best_props(b, mover, empties(b));
    }
}

/// Over a non-empty list of legal candidate plays, the fold picks the first
/// candidate whose simulated score beats all the others: its score is in
/// range, some candidate achieves it, every earlier candidate does strictly
/// worse, and no candidate does better.
pub proof fn lemma_best_props(b: Seq<Option<Player>>, mover: Player, cands: Seq<(usize, usize)>)
    requires
        board_wf(b),
        cands.len() > 0,
        forall|k: int| 0 <= k < cands.len() ==> play_legal(b, #[trigger] cands[k]),
    ensures
        ({
            let r = spec_best(b, mover, cands);
            &&& -1 <= r.score <= 1
            &&& exists|i: int|
                0 <= i < cands.len() && r.play == Some(cands[i]) && r.score == child_score(
                    b,
                    mover,
                    cands[i],
                ) && (forall|j: int|
                    0 <= j < i ==> !beats(mover, child_score(b, mover, #[trigger] cands[j]), r.score as int))
            &&& forall|j: int|
                0 <= j < cands.len() ==> beats(mover, r.score as int, child_score(b, mover, #[trigger] cands[j]))
        }),
    decreases empties(b).len(), 0int, cands.len(),
{
    let r = spec_best(b, mover, cands);
    let mv = cands[0];
    let rest = spec_best(b, mover, cands.drop_first());
    lemma_empties_update(b, slot(mv), mover);
    lemma_minimax_bounds(play_applied(b, mover, mv), spec_other(mover));
    let c0 = child_score(b, mover, mv);
    if cands.len() == 1 {
        assert(cands.drop_first().len() == 0);
        assert(r.play == Some(cands[0]) && r.score == c0);
        assert forall|j: int| 0 <= j < cands.len() implies beats(
            mover,
            r.score as int,
            child_score(b, mover, #[trigger] cands[j]),
        ) by {
            assert(j == 0);
        }
        assert(exists|i: int|
            0 <= i < cands.len() && r.play == Some(cands[i]) && r.score == child_score(
                b,
                mover,
                cands[i],
            ) && (forall|j: int|
                0 <= j < i ==> !beats(mover, child_score(b, mover, #[trigger] cands[j]), r.score as int)))
            by {
            assert(0 <= 0 < cands.len() && r.play == Some(cands[0]) && r.score == child_score(
                b,
                mover,
                cands[0],
            ) && (forall|j: int|
                0 <= j < 0 ==> !beats(
                    mover,
                    child_score(b, mover, #[trigger] cands[j]),
                    r.score as int,
                )));
        }
    } else {
        let tail = cands.drop_first();
        assert(forall|k: int| 0 <= k < tail.len() ==> #[trigger] tail[k] == cands[k + 1]);
        lemma_best_props(b, mover, tail);
        let iw = choose|i: int|
            0 <= i < tail.len() && rest.play == Some(tail[i]) && rest.score == child_score(
                b,
                mover,
                tail[i],
            ) && (forall|j: int|
                0 <= j < i ==> !beats(
                    mover,
                    child_score(b, mover, #[trigger] tail[j]),
                    rest.score as int,
                ));
        if beats(mover, c0, rest.score as int) {
            assert(r.play == Some(cands[0]) && r.score == c0);
            assert forall|j: int| 0 <= j < cands.len() implies beats(
                mover,
                r.score as int,
                child_score(b, mover, #[trigger] cands[j]),
            ) by {
                if j > 0 {
                    assert(tail[j - 1] == cands[j]);
                    assert(beats(mover, rest.score as int, child_score(b, mover, tail[j - 1])));
                }
            }
            assert(0 <= 0 < cands.len() && r.play == Some(cands[0]) && r.score == child_score(
                b,
                mover,
                cands[0],
            ) && (forall|j: int|
                0 <= j < 0 ==> !beats(
                    mover,
                    child_score(b, mover, #[trigger] cands[j]),
                    r.score as int,
                )));
        } else {
            assert(r == rest);
            let i = iw + 1;
            assert(cands[i] == tail[iw]);
            assert(r.play == Some(cands[i]) && r.score == child_score(b, mover, cands[i]));
            assert forall|j: int| 0 <= j < i implies !beats(
                mover,
                child_score(b, mover, #[trigger] cands[j]),
                r.score as int,
            ) by {
                if j == 0 {
                    assert(!beats(mover, c0, rest.score as int));
                } else {
                    assert(tail[j - 1] == cands[j]);
                    assert(!beats(mover, child_score(b, mover, tail[j - 1]), rest.score as int));
                }
            }
            assert forall|j: int| 0 <= j < cands.len() implies beats(
                mover,
                r.score as int,
                child_score(b, mover, #[trigger] cands[j]),
            ) by {
                if j == 0 {
                    assert(!beats(mover, c0, rest.score as int));
                } else {
                    assert(tail[j - 1] == cands[j]);
                    assert(beats(mover, rest.score as int, child_score(b, mover, tail[j - 1])));
                }
            }
            assert(0 <= i < cands.len() && r.play == Some(cands[i]) && r.score == child_score(
                b,
                mover,
                cands[i],
            ) && (forall|j: int|
                0 <= j < i ==> !beats(
                    mover,
                    child_score(b, mover, #[trigger] cands[j]),
                    r.score as int,
                )));
        }
    }
}

/// The engine's choice is game-theoretically optimal. On a board that is
/// not finished, the search returns a legal play whose simulated score,
/// against an optimally replying opponent, is at least as good for the
/// mover as that of every legal alternative; and among the plays that
/// achieve it, the first in row-major order is the one chosen.
pub proof fn lemma_minimax_optimal(b: Seq<Option<Player>>, mover: Player)
    requires
        board_wf(b),
        !spec_is_terminal(b),
    ensures
        ({
            let r = spec_minimax(b, mover);
            &&& -1 <= r.score <= 1
            &&& r.play is Some
            &&& play_legal(b, r.play.unwrap())
            &&& r.score == child_score(b, mover, r.play.unwrap())
            &&& forall|mv: (usize, usize)|
                #[trigger] play_legal(b, mv) ==> beats(mover, r.score as int, child_score(b, mover, mv))
            &&& exists|i: int|
                0 <= i < empties(b).len() && r.play == Some(empties(b)[i]) && (forall|j: int|
                    0 <= j < i ==> !beats(
                        mover,
                        child_score(b, mover, #[trigger] empties(b)[j]),
                        r.score as int,
                    ))
        }),
{
    let cands = empties(b);
    lemma_empties_from_characterized(b, 0);
    lemma_best_props(b, mover, cands);
    let r = spec_minimax(b, mover);
    assert(r == spec_best(b, mover, cands));
    assert forall|mv: (usize, usize)| #[trigger] play_legal(b, mv) implies beats(
        mover,
        r.score as int,
        child_score(b, mover, mv),
    ) by {
        assert(cands.contains(mv));
        let k = choose|k: int| 0 <= k < cands.len() && cands[k] == mv;
        assert(beats(mover, r.score as int, child_score(b, mover, cands[k])));
    }
}

/// The running best kept by the search loop, folded against the best of the
/// candidates not yet tried: the running best wins ties, as the earlier
/// play.
spec fn keep(mover: Player, cur: MiniMaxResult, alt: MiniMaxResult) -> MiniMaxResult {
    if beats(mover, cur.score as int, alt.score as int) {
        cur
    } else {
        alt
    }
}

/// Copy the nine cells of a board.
fn copy_board(board: &Vec<Option<Player>>) -> (r: Vec<Option<Player>>)
    requires
        board_wf(board@),
    ensures
        r@ == board@,
{
    let mut r: Vec<Option<Player>> = Vec::new();
    let mut i: usize = 0;
    while i < 9
        invariant
            board_wf(board@),
            i <= 9,
            r@.len() == i,
            forall|k: int| 0 <= k < i ==> r@[k] == board@[k],
        decreases 9 - i,
    {
        r.push(board[i]);
        i = i + 1;
    }
    proof {
        assert(r@ =~= board@);
    }
    r
}

impl Player {
    /// Score a position for the search: 1 when X owns a line, -1 when O
    /// does, 0 otherwise.
    pub fn evaluate(&self, state: &TicTacToe) -> (r: Option<i32>)
        requires
            state.wf(),
        ensures
            r == Some(spec_score(state.board@)),
    {
        match state.has_winner() {
            Some(Player::X) => Some(1),
            Some(Player::O) => Some(-1),
            None => Some(0),
        }
    }

    /// Exhaustive minimax search for `player`'s best play on `state`, which
    /// is read but never changed: every simulation runs on a local copy of
    /// the board. On a finished position the result carries no play and the
    /// board's own score; otherwise it carries the first legal play, in
    /// row-major order, that forces the best reachable score.
    #[verifier::loop_isolation(false)]
    pub fn minimax(&self, state: &TicTacToe, player: Player) -> (r: MiniMaxResult)
        requires
            state.wf(),
        ensures
            r == spec_minimax(state.board@, player),
        decreases state.empty_plays@.len(),
    {
        let ghost b = state.board@;
        let winner = state.has_winner();
        let over = match winner {
            Some(_) => true,
            None => state.empty_plays.len() == 0,
        };
        if over {
            let score: i32 = match winner {
                Some(Player::X) => 1,
                Some(Player::O) => -1,
                None => 0,
            };
            return MiniMaxResult { play: None, score };
        }
        proof {
            lemma_empties_from_characterized(b, 0);
            lemma_best_props(b, player, empties(b));
            assert(empties(b).skip(0) =~= empties(b));
        }
        let n: usize = state.empty_plays.len();
        let mut best = MiniMaxResult {
            play: None,
            score: if player == Player::X {
                -2
            } else {
                2
            },
        };
        let mut k: usize = 0;
        while k < n
            invariant
                k <= n,
                spec_best(b, player, empties(b)) == keep(
                    player,
                    best,
                    spec_best(b, player, empties(b).skip(k as int)),
                ),
                -2 <= best.score <= 2,
            decreases n - k,
        {
            let mv = state.empty_plays[k];
            let mut child_board = copy_board(&state.board);
            proof {
                assert(play_legal(b, mv));
            }
            let idx: usize = 3 * mv.0 + mv.1;
            child_board.set(idx, Some(player));
            proof {
                assert(child_board@ =~= play_applied(b, player, mv));
                lemma_empties_update(b, slot(mv), player);
            }
            let child_empties = empty_plays(&child_board);
            let opponent = player.other_player();
            let child_state = TicTacToe {
                board: child_board,
                current_player: opponent,
                empty_plays: child_empties,
            };
            let sim = self.minimax(&child_state, opponent);
            proof {
                lemma_minimax_bounds(play_applied(b, player, mv), opponent);
                assert(empties(b).skip(k as int)[0] == mv);
                assert(empties(b).skip(k as int).drop_first() =~= empties(b).skip(k as int + 1));
            }
            if player == Player::X {
                if sim.score > best.score {
                    best = MiniMaxResult { play: Some(mv), score: sim.score };
                }
            } else {
                if sim.score < best.score {
                    best = MiniMaxResult { play: Some(mv), score: sim.score };
                }
            }
            k = k + 1;
        }
        proof {
            assert(empties(b).skip(n as int).len() == 0);
        }
        best
    }
}

} // verus!
