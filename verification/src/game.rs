//! Board state for tic-tac-toe: the 3x3 grid, the current player, the
//! derived set of legal plays, and the terminal-state queries.

use vstd::prelude::*;

verus! {

/// A player's mark on the board.
#[derive(Debug, Copy, Clone, Eq, PartialEq, Structural)]
pub enum Player {
    X,
    O,
}

/// The error returned when a play names an occupied cell or a coordinate
/// outside the 3x3 board.
#[derive(Debug, Copy, Clone, Eq, PartialEq, Structural)]
pub struct IllegalMoveError;

/// The opponent of `p`.
pub open spec fn spec_other(p: Player) -> Player {
    match p {
        Player::X => Player::O,
        Player::O => Player::X,
    }
}

/// The character that renders a player's mark.
pub open spec fn spec_to_char(p: Player) -> char {
    match p {
        Player::X => 'X',
        Player::O => 'O',
    }
}

impl Player {
    /// Represent this player as a character.
    pub fn to_char(self) -> (r: char)
        ensures
            r == spec_to_char(self),
    {
        match self {
            Player::X => 'X',
            Player::O => 'O',
        }
    }

    /// The opposite player.
    pub fn other_player(self) -> (r: Player)
        ensures
            r == spec_other(self),
    {
        match self {
            Player::X => Player::O,
            Player::O => Player::X,
        }
    }

    /// Replace this player by its opponent.
    pub fn switch_player(&mut self)
        ensures
            *final(self) == spec_other(*old(self)),
    {
        *self = self.other_player()
    }
}

/// Whether a play names a cell of the 3x3 board.
pub open spec fn in_range(p: (usize, usize)) -> bool {
    p.0 < 3 && p.1 < 3
}

/// The row-major position of a play inside the board sequence.
pub open spec fn slot(p: (usize, usize)) -> int {
    3 * (p.0 as int) + (p.1 as int)
}

/// The board: cell `(r, c)` is held at position `3 * r + c`.
pub open spec fn board_wf(b: Seq<Option<Player>>) -> bool {
    b.len() == 9
}

/// The plays with a row-major position of at least `i` whose cell is empty,
/// in row-major order.
pub open spec fn empties_from(b: Seq<Option<Player>>, i: int) -> Seq<(usize, usize)>
    decreases 9 - i,
{
    if i < 0 || i >= 9 {
        Seq::empty()
    } else if b[i] is None {
        seq![(((i / 3) as usize), ((i % 3) as usize))] + empties_from(b, i + 1)
    } else {
        empties_from(b, i + 1)
    }
}

/// The legal plays of a board: the coordinates of its empty cells,
/// in row-major order.
pub open spec fn empties(b: Seq<Option<Player>>) -> Seq<(usize, usize)> {
    empties_from(b, 0)
}

/// Whether `p` is a legal play on `b`: in range and naming an empty cell.
pub open spec fn play_legal(b: Seq<Option<Player>>, p: (usize, usize)) -> bool {
    in_range(p) && b[slot(p)] is None
}

/// The board after `mover` plays at `p`.
pub open spec fn play_applied(
    b: Seq<Option<Player>>,
    mover: Player,
    p: (usize, usize),
) -> Seq<Option<Player>> {
    b.update(slot(p), Some(mover))
}

/// Every entry of `empties_from(b, i)` is a legal play whose row-major
/// position lies in `i..9`; the entries come in strictly increasing
/// row-major order; and every such play occurs among them.
pub proof fn lemma_empties_from_characterized(b: Seq<Option<Player>>, i: int)
    requires
        board_wf(b),
        0 <= i <= 9,
    ensures
        forall|k: int|
            0 <= k < empties_from(b, i).len() ==> in_range(#[trigger] empties_from(b, i)[k])
                && i <= slot(empties_from(b, i)[k]) < 9 && b[slot(empties_from(b, i)[k])] is None,
        forall|k1: int, k2: int|
            0 <= k1 < k2 < empties_from(b, i).len() ==> slot(#[trigger] empties_from(b, i)[k1])
                < slot(#[trigger] empties_from(b, i)[k2]),
        forall|q: (usize, usize)|
            in_range(q) && i <= slot(q) && b[slot(q)] is None ==> #[trigger] empties_from(
                b,
                i,
            ).contains(q),
    decreases 9 - i,
{
    if i < 9 {
        lemma_empties_from_characterized(b, i + 1);
        let rest = empties_from(b, i + 1);
        if b[i] is None {
            let cur = ((i / 3) as usize, (i % 3) as usize);
            let whole = empties_from(b, i);
            assert(slot(cur) == i);
            assert(whole == seq![cur] + rest);
            assert(forall|k: int| 0 < k < whole.len() ==> whole[k] == rest[k - 1]);
            assert forall|q: (usize, usize)|
                in_range(q) && i <= slot(q) && b[slot(q)] is None implies #[trigger] whole.contains(
                q,
            ) by {
                if slot(q) == i {
                    assert(q == cur);
                    assert(whole[0] == q);
                } else {
                    assert(rest.contains(q));
                    let k = choose|k: int| 0 <= k < rest.len() && rest[k] == q;
                    assert(whole[k + 1] == q);
                }
            }
        } else {
            assert forall|q: (usize, usize)|
                in_range(q) && i <= slot(q) && b[slot(q)] is None implies #[trigger] empties_from(
                b,
                i,
            ).contains(q) by {
                assert(slot(q) != i);
                assert(empties_from(b, i + 1).contains(q));
            }
        }
    }
}

/// Occupying the empty cell at position `j` removes exactly one entry from
/// the tail of the legal-play list whenever `j` lies in that tail.
pub proof fn lemma_empties_from_update(b: Seq<Option<Player>>, i: int, j: int, p: Player)
    requires
        board_wf(b),
        0 <= i <= 9,
        0 <= j < 9,
        b[j] is None,
    ensures
        empties_from(b.update(j, Some(p)), i).len() == empties_from(b, i).len() - (
        if i <= j {
            1int
        } else {
            0int
        }),
    decreases 9 - i,
{
    if i < 9 {
        lemma_empties_from_update(b, i + 1, j, p);
    }
}

/// Occupying an empty cell shrinks the legal-play list by exactly one.
pub proof fn lemma_empties_update(b: Seq<Option<Player>>, j: int, p: Player)
    requires
        board_wf(b),
        0 <= j < 9,
        b[j] is None,
    ensures
        empties(b.update(j, Some(p))).len() == empties(b).len() - 1,
{
    lemma_empties_from_update(b, 0, j, p);
}

/// Translate a user-visible cell number 1 to 9 into a board coordinate.
pub open spec fn spec_translate_to_coord(index: int) -> Option<(usize, usize)> {
    if 1 <= index <= 9 {
        Some(((((index - 1) / 3) as usize), (((index - 1) % 3) as usize)))
    } else {
        None
    }
}

/// Translate a user-visible cell number 1 to 9 into a board coordinate:
/// 1 is the top-left cell, 9 the bottom-right.
pub fn translate_to_coord(index: usize) -> (r: Option<(usize, usize)>)
    ensures
        r == spec_translate_to_coord(index as int),
{
    match index {
        1 => Some((0, 0)),
        2 => Some((0, 1)),
        3 => Some((0, 2)),
        4 => Some((1, 0)),
        5 => Some((1, 1)),
        6 => Some((1, 2)),
        7 => Some((2, 0)),
        8 => Some((2, 1)),
        9 => Some((2, 2)),
        _ => None,
    }
}

/// Compute the legal plays of a board: its empty cells, in row-major order.
pub fn empty_plays(board: &Vec<Option<Player>>) -> (r: Vec<(usize, usize)>)
    requires
        board_wf(board@),
    ensures
        r@ == empties(board@),
{
    let mut r: Vec<(usize, usize)> = Vec::new();
    let mut i: usize = 0;
    while i < 9
        invariant
            board_wf(board@),
            i <= 9,
            empties(board@) == r@ + empties_from(board@, i as int),
        decreases 9 - i,
    {
        let ghost prev = r@;
        let ghost bi = i as int;
        let cell_empty = match board[i] {
            None => true,
            Some(_) => false,
        };
        if cell_empty {
            r.push((i / 3, i % 3));
        }
        proof {
            let cur = (((bi / 3) as usize), ((bi % 3) as usize));
            if board@[bi] is None {
                assert(r@ =~= prev + seq![cur]);
                assert((prev + seq![cur]) + empties_from(board@, bi + 1) =~= prev + (seq![cur]
                    + empties_from(board@, bi + 1)));
            }
        }
        i = i + 1;
    }
    proof {
        assert(r@ + empties_from(board@, 9) =~= r@);
    }
    r
}

/// The empty board.
pub open spec fn init_board() -> Seq<Option<Player>> {
    Seq::new(9, |i: int| Option::<Player>::None)
}

/// The empty board has all nine plays legal.
pub proof fn lemma_empties_init()
    ensures
        empties(init_board()).len() == 9,
{
    reveal_with_fuel(empties_from, 10);
}

/// The board state of one game: the 3x3 grid, the player to move, and the
/// derived list of legal plays, kept equal to the coordinates of the empty
/// cells in row-major order.
#[derive(Debug, Clone, PartialEq, Eq)]
pub struct TicTacToe {
    pub board: Vec<Option<Player>>,
    pub current_player: Player,
    pub empty_plays: Vec<(usize, usize)>,
}

impl TicTacToe {
    /// The state invariant: the board holds nine cells and the legal-play
    /// list holds exactly the coordinates of its empty cells.
    pub open spec fn wf(self) -> bool {
        board_wf(self.board@) && self.empty_plays@ == empties(self.board@)
    }

    /// A fresh game: all nine cells empty, player X to move, every play
    /// legal.
    pub fn new() -> (g: TicTacToe)
        ensures
            g.wf(),
            g.board@ == init_board(),
            g.current_player == Player::X,
            g.empty_plays@.len() == 9,
    {
        let mut board: Vec<Option<Player>> = Vec::new();
        let mut i: usize = 0;
        while i < 9
            invariant
                i <= 9,
                board@.len() == i,
                forall|k: int| 0 <= k < i ==> board@[k] is None,
            decreases 9 - i,
        {
            board.push(None);
            i = i + 1;
        }
        proof {
            assert(board@ =~= init_board());
            lemma_empties_init();
        }
        let empty_plays = empty_plays(&board);
        TicTacToe { board, current_player: Player::X, empty_plays }
    }

    /// The player whose turn it is.
    pub fn current_player(&self) -> (r: Player)
        ensures
            r == self.current_player,
    {
        self.current_player
    }

    /// The cell named by a user-visible number 1 to 9, or nothing when the
    /// number is out of range.
    pub fn ref_cell(&self, index: usize) -> (r: Option<Player>)
        requires
            self.wf(),
        ensures
            r == (if 1 <= index <= 9 {
                self.board@[index - 1]
            } else {
                None::<Player>
            }),
    {
        if 1 <= index && index <= 9 {
            self.board[index - 1]
        } else {
            None
        }
    }

    /// The user-visible cell number 1 to 9 of a play: the inverse of
    /// `translate_to_coord`, or nothing when the play is out of range.
    pub fn cell_index(&self, play: (usize, usize)) -> (r: Option<usize>)
        ensures
            r == spec_cell_index(play),
    {
        if play.0 < 3 && play.1 < 3 {
            Some(3 * play.0 + play.1 + 1)
        } else {
            None
        }
    }

    /// Represent a cell as a character: the occupying player's mark, or the
    /// given placeholder for an empty cell.
    pub fn repr_cell(&self, cell: Option<Player>, none_char: char) -> (r: char)
        ensures
            r == (match cell {
                Some(p) => spec_to_char(p),
                None => none_char,
            }),
    {
        match cell {
            Some(p) => p.to_char(),
            None => none_char,
        }
    }

    /// Whether the cell at row-major position `i` holds `p`'s mark.
    fn cell_is(&self, i: usize, p: Player) -> (r: bool)
        requires
            self.wf(),
            i < 9,
        ensures
            r == (self.board@[i as int] == Some(p)),
    {
        match self.board[i] {
            Some(q) => q == p,
            None => false,
        }
    }

    /// Whether `p` holds all three cells of the line `a`, `m`, `z`.
    fn line_won_at(&self, a: usize, m: usize, z: usize, p: Player) -> (r: bool)
        requires
            self.wf(),
            a < 9,
            m < 9,
            z < 9,
        ensures
            r == line_won(self.board@, p, a as int, m as int, z as int),
    {
        self.cell_is(a, p) && self.cell_is(m, p) && self.cell_is(z, p)
    }

    /// Whether `p` owns a full row, column or diagonal.
    fn wins_for(&self, p: Player) -> (r: bool)
        requires
            self.wf(),
        ensures
            r == wins(self.board@, p),
    {
        self.line_won_at(0, 1, 2, p) || self.line_won_at(3, 4, 5, p) || self.line_won_at(6, 7, 8, p)
            || self.line_won_at(0, 3, 6, p) || self.line_won_at(1, 4, 7, p) || self.line_won_at(
            2,
            5,
            8,
            p,
        ) || self.line_won_at(0, 4, 8, p) || self.line_won_at(2, 4, 6, p)
    }

    /// The player owning a line of three identical marks, if any.
    pub fn has_winner(&self) -> (r: Option<Player>)
        requires
            self.wf(),
        ensures
            r == spec_winner(self.board@),
    {
        if self.wins_for(Player::X) {
            Some(Player::X)
        } else if self.wins_for(Player::O) {
            Some(Player::O)
        } else {
            None
        }
    }

    /// Apply a play for the current player: the only mutator. A play on an
    /// occupied cell or outside the board fails and leaves the state
    /// unchanged; a legal play marks the cell, removes it from the
    /// legal-play list, and hands the turn to the opponent.
    pub fn apply_play(&mut self, play: (usize, usize)) -> (r: Result<(), IllegalMoveError>)
        requires
            old(self).wf(),
        ensures
            final(self).wf(),
            play_legal(old(self).board@, play) ==> r is Ok && final(self).board@ == play_applied(
                old(self).board@,
                old(self).current_player,
                play,
            ) && final(self).current_player == spec_other(old(self).current_player)
                && final(self).empty_plays@.len() + 1 == old(self).empty_plays@.len(),
            !play_legal(old(self).board@, play) ==> r is Err && *final(self) == *old(self),
    {
        if play.0 < 3 && play.1 < 3 {
            let i: usize = 3 * play.0 + play.1;
            let occupied = match self.board[i] {
                Some(_) => true,
                None => false,
            };
            if occupied {
                Err(IllegalMoveError)
            } else {
                proof {
                    lemma_empties_update(self.board@, i as int, self.current_player);
                }
                let mover = self.current_player;
                self.board.set(i, Some(mover));
                self.empty_plays = empty_plays(&self.board);
                self.current_player.switch_player();
                Ok(())
            }
        } else {
            Err(IllegalMoveError)
        }
    }

    /// Whether the game has ended: a line is complete or no legal play is
    /// left.
    pub fn game_over(&self) -> (r: bool)
        requires
            self.wf(),
        ensures
            r == spec_is_terminal(self.board@),
    {
        match self.has_winner() {
            Some(_) => true,
            None => self.empty_plays.len() == 0,
        }
    }

    /// Whether the game ended with a full board and no winner.
    pub fn is_draw(&self) -> (r: bool)
        requires
            self.wf(),
        ensures
            r == spec_is_draw(self.board@),
    {
        match self.has_winner() {
            Some(_) => false,
            None => self.empty_plays.len() == 0,
        }
    }
}

/// The user-visible cell number of a play, as `spec_translate_to_coord`
/// numbers the cells.
pub open spec fn spec_cell_index(play: (usize, usize)) -> Option<usize> {
    if in_range(play) {
        Some((slot(play) + 1) as usize)
    } else {
        None
    }
}

/// Whether `p` holds all three cells at positions `a`, `m`, `z`.
pub open spec fn line_won(b: Seq<Option<Player>>, p: Player, a: int, m: int, z: int) -> bool {
    b[a] == Some(p) && b[m] == Some(p) && b[z] == Some(p)
}

/// Whether `p` owns one of the three rows, three columns or two diagonals.
pub open spec fn wins(b: Seq<Option<Player>>, p: Player) -> bool {
    line_won(b, p, 0, 1, 2) || line_won(b, p, 3, 4, 5) || line_won(b, p, 6, 7, 8) || line_won(
        b,
        p,
        0,
        3,
        6,
    ) || line_won(b, p, 1, 4, 7) || line_won(b, p, 2, 5, 8) || line_won(b, p, 0, 4, 8) || line_won(
        b,
        p,
        2,
        4,
        6,
    )
}

/// The player owning a complete line, if any.
pub open spec fn spec_winner(b: Seq<Option<Player>>) -> Option<Player> {
    if wins(b, Player::X) {
        Some(Player::X)
    } else if wins(b, Player::O) {
        Some(Player::O)
    } else {
        None
    }
}

/// A game has ended when a line is complete or the board is full.
pub open spec fn spec_is_terminal(b: Seq<Option<Player>>) -> bool {
    spec_winner(b) is Some || empties(b).len() == 0
}

/// A game is drawn when the board is full and no line is complete.
pub open spec fn spec_is_draw(b: Seq<Option<Player>>) -> bool {
    spec_winner(b) is None && empties(b).len() == 0
}

} // verus!
