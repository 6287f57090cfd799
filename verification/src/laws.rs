//! Game-level laws: what holds of every sequence of legal plays, proved
//! over the same board model that the executable operations are specified
//! against.

use vstd::prelude::*;

use crate::game::{
    Player, board_wf, empties, in_range, init_board, lemma_empties_from_characterized,
    lemma_empties_init, lemma_empties_update, play_applied, play_legal, slot, spec_cell_index,
    spec_translate_to_coord, spec_winner, wins,
};

verus! {

/// The player who makes the move with index `n` from the start of a game:
/// X opens, and the turn alternates.
pub open spec fn mover_at(n: int) -> Player {
    if n % 2 == 0 {
        Player::X
    } else {
        Player::O
    }
}

/// The board reached from the empty board by playing `moves` in order,
/// alternating players starting from X.
pub open spec fn run_board(moves: Seq<(usize, usize)>) -> Seq<Option<Player>>
    decreases moves.len(),
{
    if moves.len() == 0 {
        init_board()
    } else {
        play_applied(run_board(moves.drop_last()), mover_at(moves.len() - 1), moves.last())
    }
}

/// Whether every play of `moves` is legal on the board it is played on.
pub open spec fn all_legal(moves: Seq<(usize, usize)>) -> bool
    decreases moves.len(),
{
    moves.len() == 0 || (all_legal(moves.drop_last()) && play_legal(
        run_board(moves.drop_last()),
        moves.last(),
    ))
}

/// After any sequence of `n` legal plays there are exactly `9 - n` legal
/// plays left, every played cell still carries the mark of the player who
/// took it, and no coordinate is played twice. In particular no game lasts
/// more than nine plays.
pub proof fn lemma_legal_run_counts(moves: Seq<(usize, usize)>)
    requires
        all_legal(moves),
    ensures
        moves.len() <= 9,
        board_wf(run_board(moves)),
        empties(run_board(moves)).len() == 9 - moves.len(),
        forall|i: int|
            0 <= i < moves.len() ==> in_range(#[trigger] moves[i]) && run_board(moves)[slot(
                moves[i],
            )] == Some(mover_at(i)),
        forall|i: int, j: int| 0 <= i < j < moves.len() ==> moves[i] != moves[j],
    decreases moves.len(),
{
    if moves.len() == 0 {
        lemma_empties_init();
    } else {
        let prefix = moves.drop_last();
        let last = moves.last();
        let prev = run_board(prefix);
        let mover = mover_at(moves.len() - 1);
        lemma_legal_run_counts(prefix);
        lemma_empties_update(prev, slot(last), mover);
        assert(forall|i: int| 0 <= i < prefix.len() ==> #[trigger] moves[i] == prefix[i]);
        assert forall|i: int| 0 <= i < moves.len() implies in_range(#[trigger] moves[i])
            && run_board(moves)[slot(moves[i])] == Some(mover_at(i)) by {
            if i < moves.len() - 1 {
                assert(prev[slot(prefix[i])] == Some(mover_at(i)));
                assert(slot(moves[i]) != slot(last));
            }
        }
        assert forall|i: int, j: int| 0 <= i < j < moves.len() implies moves[i] != moves[j] by {
            if j == moves.len() - 1 {
                assert(prev[slot(prefix[i])] == Some(mover_at(i)));
            }
        }
    }
}

/// The number of cells from position `i` on that carry `p`'s mark.
pub open spec fn count_from(b: Seq<Option<Player>>, i: int, p: Player) -> int
    decreases 9 - i,
{
    if i < 0 || i >= 9 {
        0
    } else {
        (if b[i] == Some(p) {
            1int
        } else {
            0int
        }) + count_from(b, i + 1, p)
    }
}

/// The number of cells of `b` that carry `p`'s mark.
pub open spec fn mark_count(b: Seq<Option<Player>>, p: Player) -> int {
    count_from(b, 0, p)
}

/// Marking the empty cell at position `j` raises the tail count of the
/// mover by one when `j` lies in the tail, and leaves the opponent's count
/// alone.
proof fn lemma_count_from_update(b: Seq<Option<Player>>, i: int, j: int, p: Player, q: Player)
    requires
        board_wf(b),
        0 <= i <= 9,
        0 <= j < 9,
        b[j] is None,
    ensures
        count_from(b.update(j, Some(p)), i, q) == count_from(b, i, q) + (
        if i <= j && p == q {
            1int
        } else {
            0int
        }),
    decreases 9 - i,
{
    if i < 9 {
        lemma_count_from_update(b, i + 1, j, p, q);
    }
}

/// After `n` legal plays from the empty board, X holds `(n + 1) / 2` cells
/// and O holds `n / 2`: the turn alternates and X opens.
pub proof fn lemma_legal_run_mark_counts(moves: Seq<(usize, usize)>)
    requires
        all_legal(moves),
    ensures
        mark_count(run_board(moves), Player::X) == (moves.len() + 1) / 2,
        mark_count(run_board(moves), Player::O) == moves.len() / 2,
    decreases moves.len(),
{
    if moves.len() == 0 {
        assert(mark_count(init_board(), Player::X) == 0 && mark_count(init_board(), Player::O)
            == 0) by {
            reveal_with_fuel(count_from, 10);
        }
    } else {
        let prefix = moves.drop_last();
        let prev = run_board(prefix);
        let mover = mover_at(moves.len() - 1);
        lemma_legal_run_mark_counts(prefix);
        lemma_legal_run_counts(prefix);
        lemma_count_from_update(prev, 0, slot(moves.last()), mover, Player::X);
        lemma_count_from_update(prev, 0, slot(moves.last()), mover, Player::O);
    }
}

/// A player with a complete line holds at least three cells.
proof fn lemma_wins_needs_three(b: Seq<Option<Player>>, p: Player)
    requires
        board_wf(b),
        wins(b, p),
    ensures
        mark_count(b, p) >= 3,
{
    reveal_with_fuel(count_from, 10);
}

/// No line can be complete before the fifth play: with fewer than five
/// legal plays applied, neither player holds three cells.
pub proof fn lemma_no_winner_before_five_plays(moves: Seq<(usize, usize)>)
    requires
        all_legal(moves),
        moves.len() < 5,
    ensures
        spec_winner(run_board(moves)) is None,
{
    let b = run_board(moves);
    lemma_legal_run_counts(moves);
    lemma_legal_run_mark_counts(moves);
    if wins(b, Player::X) {
        lemma_wins_needs_three(b, Player::X);
    }
    if wins(b, Player::O) {
        lemma_wins_needs_three(b, Player::O);
    }
}

/// The cell numbering 1 to 9 and the board coordinates are a fixed,
/// reversible pair of mappings: translating a number to a coordinate and
/// back returns the number, and the other way round.
pub proof fn lemma_cell_numbering_round_trip(index: usize, play: (usize, usize))
    ensures
        1 <= index <= 9 ==> spec_translate_to_coord(index as int) is Some && spec_cell_index(
            spec_translate_to_coord(index as int).unwrap(),
        ) == Some(index),
        in_range(play) ==> spec_cell_index(play) is Some && spec_translate_to_coord(
            spec_cell_index(play).unwrap() as int,
        ) == Some(play),
{
}

} // verus!
