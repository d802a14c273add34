use crate::random::random_between;
use vstd::prelude::*;
use vstd::seq_lib::*;

verus! {

/// Number of columns on a board.
pub const BOARD_SIZE: usize = 3;

/// Number of dice a column can hold.
pub const MAX_DICE_IN_COLUMN: usize = 3;

/// A die face is one of 1, 2, 3, 4, 5, 6.
pub open spec fn valid_face(v: u8) -> bool {
    1 <= v <= 6
}

/// A column holds at most three dice, each showing a valid face.
pub open spec fn valid_column(dice: Seq<u8>) -> bool {
    &&& dice.len() <= 3
    &&& forall|i: int| 0 <= i < dice.len() ==> valid_face(#[trigger] dice[i])
}

/// How many dice of a column show the face `v`.
pub open spec fn count_of(dice: Seq<u8>, v: u8) -> nat {
    dice.to_multiset().count(v)
}

/// What the dice showing face `v` contribute to a column's score: the square
/// of their number, times the face.
pub open spec fn face_score(dice: Seq<u8>, v: u8) -> nat {
    count_of(dice, v) * count_of(dice, v) * (v as nat)
}

/// The score of a column: the contributions of the six faces, added up.
pub open spec fn column_score(dice: Seq<u8>) -> nat {
    face_score(dice, 1) + face_score(dice, 2) + face_score(dice, 3) + face_score(dice, 4)
        + face_score(dice, 5) + face_score(dice, 6)
}

/// A column after a die showing `v` was placed on it: a full column stays as it is.
pub open spec fn column_place(dice: Seq<u8>, v: u8) -> Seq<u8> {
    if dice.len() >= 3 {
        dice
    } else {
        dice.push(v)
    }
}

/// A column after every die showing `v` was taken off it; the others keep their order.
pub open spec fn column_remove(dice: Seq<u8>, v: u8) -> Seq<u8> {
    dice.filter(other_than(v))
}

/// The test that a die passes when it shows another face than `v`.
pub open spec fn other_than(v: u8) -> spec_fn(u8) -> bool {
    |d: u8| d != v
}

/// One die. Its face is fixed when it is made.
#[derive(Debug, Clone, Copy, PartialEq)]
pub struct Die {
    value: u8,
}

impl View for Die {
    type V = u8;

    closed spec fn view(&self) -> u8 {
        self.value
    }
}

impl Die {
    /// The die shows one of the six faces.
    pub open spec fn wf(&self) -> bool {
        valid_face(self@)
    }

    /// A die showing `value`.
    pub fn new(value: u8) -> (die: Self)
        ensures
            die@ == value,
    {
        Die { value }
    }

    /// The face that the die shows.
    pub fn value(&self) -> (v: u8)
        ensures
            v == self@,
    {
        self.value
    }
}

/// The dice of one column, in the order in which they were placed.
#[derive(Debug, PartialEq)]
pub struct Column {
    pub dice: Vec<Die>,
}

impl View for Column {
    type V = Seq<u8>;

    open spec fn view(&self) -> Seq<u8> {
        self.dice@.map_values(|d: Die| d@)
    }
}

impl Clone for Column {
    fn clone(&self) -> (copy: Self)
        ensures
            copy@ == self@,
    {
        let mut dice: Vec<Die> = Vec::new();
        let mut i: usize = 0;
        while i < self.dice.len()
            invariant
                i <= self.dice.len(),
                dice@ == self.dice@.take(i as int),
            decreases self.dice.len() - i,
        {
            dice.push(self.dice[i]);
            i += 1;
        }
        assert(dice@ == self.dice@);
        Column { dice }
    }
}

impl Column {
    /// The column holds at most three dice, each showing one of the six faces.
    pub open spec fn wf(&self) -> bool {
        valid_column(self@)
    }

    /// A column without dice.
    pub fn new() -> (column: Self)
        ensures
            column@ == Seq::<u8>::empty(),
            column.wf(),
    {
        Column { dice: Vec::new() }
    }

    /// Whether the column has no room for another die.
    pub fn is_full(&self) -> (full: bool)
        ensures
            full == (self@.len() >= 3),
    {
        self.dice.len() >= MAX_DICE_IN_COLUMN
    }

    /// Places a die on the column. A full column stays as it is.
    pub fn add_die(&mut self, die: Die)
        ensures
            final(self)@ == column_place(old(self)@, die@),
            old(self).wf() && valid_face(die@) ==> final(self).wf(),
    {
        if !self.is_full() {
            self.dice.push(die);
        }
    }

    /// Takes every die showing `value` off the column.
    pub fn remove_dice(&mut self, value: u8)
        ensures
            final(self)@ == column_remove(old(self)@, value),
            old(self).wf() ==> final(self).wf(),
    {
        proof {
            if self.wf() {
                lemma_remove_keeps_valid(self@, value);
            }
        }
        let mut kept: Vec<Die> = Vec::new();
        let mut i: usize = 0;
        while i < self.dice.len()
            invariant
                *self == *old(self),
                i <= self.dice.len(),
                kept@.map_values(|d: Die| d@) == column_remove(self@.take(i as int), value),
            decreases self.dice.len() - i,
        {
            let die = self.dice[i];
            proof {
                let seen = self@.take(i as int);
                assert(self@.take(i + 1) == seen.push(die@));
                seen.lemma_filter_push(die@, other_than(value));
            }
            if die.value() != value {
                kept.push(die);
            }
            i += 1;
        }
        assert(self@.take(i as int) == self@);
        self.dice = kept;
    }

    /// The score of the column: for each face, the square of the number of
    /// dice showing it, times the face.
    pub fn score(&self) -> (score: u16)
        requires
            self.wf(),
        ensures
            score == column_score(self@),
    {
        let mut value_counts: [u8; 6] = [0u8; 6];
        let mut i: usize = 0;
        proof {
            lemma_count_empty(self@.take(0));
        }
        while i < self.dice.len()
            invariant
                i <= self.dice.len() <= 3,
                self.wf(),
                forall|f: int|
                    0 <= f < 6 ==> value_counts[f] == count_of(self@.take(i as int), (f + 1) as u8),
                forall|f: int| 0 <= f < 6 ==> value_counts[f] <= i,
            decreases self.dice.len() - i,
        {
            let v: u8 = self.dice[i].value();
            proof {
                assert(valid_face(self@[i as int]));
                lemma_count_take_step(self@, i as int);
            }
            let slot: usize = (v - 1) as usize;
            value_counts[slot] = value_counts[slot] + 1;
            i += 1;
        }
        assert(self@.take(i as int) == self@);
        let mut score: u16 = 0;
        let mut f: usize = 0;
        while f < 6
            invariant
                f <= 6,
                forall|g: int| 0 <= g < 6 ==> value_counts[g] == count_of(self@, (g + 1) as u8),
                forall|g: int| 0 <= g < 6 ==> value_counts[g] <= 3,
                score == score_below(self@, f as int),
                score <= 54 * f,
            decreases 6 - f,
        {
            let count: u16 = value_counts[f] as u16;
            let face: u16 = f as u16 + 1;
            assert(count * count <= 9 && face * (count * count) == count * count * face <= 54)
                by (nonlinear_arith)
                requires
                    count <= 3,
                    face <= 6,
            ;
            score = score + face * (count * count);
            f += 1;
        }
        assert(score_below(self@, 6) == column_score(self@)) by {
            reveal_with_fuel(score_below, 7);
        }
        score
    }
}

/// A board has three columns, each of them valid.
pub open spec fn valid_board(columns: Seq<Seq<u8>>) -> bool {
    &&& columns.len() == 3
    &&& forall|c: int| 0 <= c < columns.len() ==> valid_column(#[trigger] columns[c])
}

/// The score of a board: the scores of its three columns, added up.
pub open spec fn board_score(columns: Seq<Seq<u8>>) -> nat {
    column_score(columns[0]) + column_score(columns[1]) + column_score(columns[2])
}

/// A board is full when none of its columns can take another die.
pub open spec fn board_full(columns: Seq<Seq<u8>>) -> bool {
    forall|c: int| 0 <= c < columns.len() ==> (#[trigger] columns[c]).len() >= 3
}

/// A board after a die showing `v` was placed on column `c`. An index that
/// names no column changes nothing.
pub open spec fn board_place(columns: Seq<Seq<u8>>, c: int, v: u8) -> Seq<Seq<u8>> {
    if 0 <= c < columns.len() {
        columns.update(c, column_place(columns[c], v))
    } else {
        columns
    }
}

/// A board after every die showing `v` was taken off column `c`. An index
/// that names no column changes nothing.
pub open spec fn board_remove(columns: Seq<Seq<u8>>, c: int, v: u8) -> Seq<Seq<u8>> {
    if 0 <= c < columns.len() {
        columns.update(c, column_remove(columns[c], v))
    } else {
        columns
    }
}

/// What a board shows at a row of a column: the face of the die there, and 0
/// where there is none.
pub open spec fn board_cell(columns: Seq<Seq<u8>>, row: int, c: int) -> u8 {
    if 0 <= c < columns.len() && 0 <= row < columns[c].len() {
        columns[c][row]
    } else {
        0
    }
}

/// One player's three columns.
#[derive(Debug, PartialEq)]
pub struct Board {
    pub columns: Vec<Column>,
}

impl View for Board {
    type V = Seq<Seq<u8>>;

    open spec fn view(&self) -> Seq<Seq<u8>> {
        self.columns@.map_values(|c: Column| c@)
    }
}

impl Clone for Board {
    fn clone(&self) -> (copy: Self)
        ensures
            copy@ == self@,
    {
        let mut columns: Vec<Column> = Vec::new();
        let mut i: usize = 0;
        while i < self.columns.len()
            invariant
                i <= self.columns.len(),
                columns@.map_values(|c: Column| c@) == self@.take(i as int),
            decreases self.columns.len() - i,
        {
            let column = self.columns[i].clone();
            columns.push(column);
            assert(columns@.map_values(|c: Column| c@) == self@.take(i as int).push(self@[i as int]));
            i += 1;
        }
        assert(self@.take(i as int) == self@);
        Board { columns }
    }
}

impl Board {
    /// The board has three columns, each of them valid.
    pub open spec fn wf(&self) -> bool {
        valid_board(self@)
    }

    /// A board of three columns without dice.
    pub fn new() -> (board: Self)
        ensures
            board@ == seq![Seq::<u8>::empty(), Seq::<u8>::empty(), Seq::<u8>::empty()],
            board.wf(),
    {
        let mut columns: Vec<Column> = Vec::new();
        let mut i: usize = 0;
        while i < BOARD_SIZE
            invariant
                i <= BOARD_SIZE,
                columns.len() == i,
                forall|c: int| 0 <= c < i ==> (#[trigger] columns[c])@ == Seq::<u8>::empty(),
            decreases BOARD_SIZE - i,
        {
            columns.push(Column::new());
            i += 1;
        }
        let board = Board { columns };
        assert(board@ == seq![Seq::<u8>::empty(), Seq::<u8>::empty(), Seq::<u8>::empty()]);
        board
    }

    /// Whether every column of the board is full.
    pub fn is_full(&self) -> (full: bool)
        ensures
            full == board_full(self@),
    {
        let mut i: usize = 0;
        while i < self.columns.len()
            invariant
                i <= self.columns.len(),
                forall|c: int| 0 <= c < i ==> (#[trigger] self@[c]).len() >= 3,
            decreases self.columns.len() - i,
        {
            if !self.columns[i].is_full() {
                assert(self@[i as int].len() < 3);
                return false;
            }
            i += 1;
        }
        true
    }

    /// Places a die on a column. A full column stays as it is, and an index
    /// that names no column changes nothing.
    pub fn place_die(&mut self, column_index: usize, die: Die)
        ensures
            final(self)@ == board_place(old(self)@, column_index as int, die@),
            old(self).wf() && valid_face(die@) ==> final(self).wf(),
    {
        proof {
            if self.wf() {
                lemma_move_keeps_valid(self@, column_index as int, die@);
            }
        }
        if column_index < self.columns.len() {
            self.columns[column_index].add_die(die);
            assert(self@ == board_place(old(self)@, column_index as int, die@));
        }
    }

    /// Takes every die showing `value` off a column. An index that names no
    /// column changes nothing.
    pub fn remove_dice(&mut self, column_index: usize, value: u8)
        ensures
            final(self)@ == board_remove(old(self)@, column_index as int, value),
            old(self).wf() ==> final(self).wf(),
    {
        proof {
            if self.wf() {
                lemma_move_keeps_valid(self@, column_index as int, value);
            }
        }
        if column_index < self.columns.len() {
            self.columns[column_index].remove_dice(value);
            assert(self@ == board_remove(old(self)@, column_index as int, value));
        }
    }

    /// Whether a die can go to the column: the index names one of the three
    /// columns and that column is not full.
    pub fn can_place(&self, column_index: usize) -> (ok: bool)
        ensures
            ok == (column_index < 3 && column_index < self@.len() && self@[column_index as int].len()
                < 3),
    {
        column_index < BOARD_SIZE && column_index < self.columns.len()
            && !self.columns[column_index].is_full()
    }

    /// The face that is shown at a row of a column, counted from the die
    /// placed first, and 0 where there is no die.
    pub fn cell(&self, row: usize, column_index: usize) -> (face: u8)
        ensures
            face == board_cell(self@, row as int, column_index as int),
    {
        if column_index < self.columns.len() && row < self.columns[column_index].dice.len() {
            self.columns[column_index].dice[row].value()
        } else {
            0
        }
    }

    /// The score of the board: the scores of its columns, added up.
    pub fn score(&self) -> (score: u16)
        requires
            self.wf(),
        ensures
            score == board_score(self@),
    {
        assert(self.columns[0]@ == self@[0] && self.columns[1]@ == self@[1] && self.columns[2]@
            == self@[2]);
        let first: u16 = self.columns[0].score();
        let second: u16 = self.columns[1].score();
        let third: u16 = self.columns[2].score();
        proof {
            lemma_column_score_bound(self@[0]);
            lemma_column_score_bound(self@[1]);
            lemma_column_score_bound(self@[2]);
        }
        first + second + third
    }
}

/// How a game ended.
#[derive(Debug, Clone, Copy, PartialEq, Eq, Structural)]
pub enum Winner {
    Player1,
    Player2,
    Tie,
}

/// Who has won with the two scores: the higher one, and nobody when they are equal.
pub open spec fn winner_of(player1_score: nat, player2_score: nat) -> Winner {
    if player1_score > player2_score {
        Winner::Player1
    } else if player2_score > player1_score {
        Winner::Player2
    } else {
        Winner::Tie
    }
}

/// Two boards and the player whose turn it is: 1 for the first player, any
/// other number for the second.
pub struct Game {
    pub player1_board: Board,
    pub player2_board: Board,
    pub current_player: usize,
}

impl Game {
    /// Both boards are valid and the player to move is 1 or 2.
    pub open spec fn wf(&self) -> bool {
        &&& self.player1_board.wf()
        &&& self.player2_board.wf()
        &&& (self.current_player == 1 || self.current_player == 2)
    }

    /// The game is over as soon as one of the boards is full.
    pub open spec fn finished(&self) -> bool {
        board_full(self.player1_board@) || board_full(self.player2_board@)
    }

    /// A game with two empty boards, in which the first player is to move.
    pub fn new() -> (game: Self)
        ensures
            game.player1_board@ == seq![Seq::<u8>::empty(), Seq::<u8>::empty(), Seq::<u8>::empty()],
            game.player2_board@ == game.player1_board@,
            game.current_player == 1,
            game.wf(),
    {
        Game { player1_board: Board::new(), player2_board: Board::new(), current_player: 1 }
    }

    /// The board of the player to move, and the board of the other player.
    pub fn mover_boards(&self) -> (boards: (&Board, &Board))
        ensures
            self.current_player == 1 ==> *boards.0 == self.player1_board && *boards.1
                == self.player2_board,
            self.current_player != 1 ==> *boards.0 == self.player2_board && *boards.1
                == self.player1_board,
    {
        if self.current_player == 1 {
            (&self.player1_board, &self.player2_board)
        } else {
            (&self.player2_board, &self.player1_board)
        }
    }

    /// Rolls the die for the next placement.
    pub fn roll_die(&self) -> (face: u8)
        ensures
            valid_face(face),
    {
        let n: usize = random_between(1, 6);
        n as u8
    }

    /// The player to move places a die showing `die` on one of their columns,
    /// and the other player loses the dice of that face in the column opposite.
    pub fn place_die(&mut self, column_index: usize, die: u8)
        ensures
            final(self).current_player == old(self).current_player,
            old(self).wf() && valid_face(die) ==> final(self).wf(),
            old(self).current_player == 1 ==> {
                &&& final(self).player1_board@ == board_place(
                    old(self).player1_board@,
                    column_index as int,
                    die,
                )
                &&& final(self).player2_board@ == board_remove(
                    old(self).player2_board@,
                    column_index as int,
                    die,
                )
            },
            old(self).current_player != 1 ==> {
                &&& final(self).player2_board@ == board_place(
                    old(self).player2_board@,
                    column_index as int,
                    die,
                )
                &&& final(self).player1_board@ == board_remove(
                    old(self).player1_board@,
                    column_index as int,
                    die,
                )
            },
    {
        if self.current_player == 1 {
            self.player1_board.place_die(column_index, Die::new(die));
            self.player2_board.remove_dice(column_index, die);
        } else {
            self.player2_board.place_die(column_index, Die::new(die));
            self.player1_board.remove_dice(column_index, die);
        }
    }

    /// Whether one of the boards is full.
    pub fn is_finished(&self) -> (over: bool)
        ensures
            over == self.finished(),
    {
        self.player1_board.is_full() || self.player2_board.is_full()
    }

    /// One whole turn: the placement with its removal, and then, unless the
    /// game is over, the change of the player to move. Returns whether the
    /// game is over.
    pub fn play_turn(&mut self, column_index: usize, die: u8) -> (over: bool)
        requires
            old(self).current_player == 1 || old(self).current_player == 2,
        ensures
            over == final(self).finished(),
            old(self).wf() && valid_face(die) ==> final(self).wf(),
            final(self).current_player == if over {
                old(self).current_player
            } else {
                (3 - old(self).current_player) as usize
            },
            old(self).current_player == 1 ==> {
                &&& final(self).player1_board@ == board_place(
                    old(self).player1_board@,
                    column_index as int,
                    die,
                )
                &&& final(self).player2_board@ == board_remove(
                    old(self).player2_board@,
                    column_index as int,
                    die,
                )
            },
            old(self).current_player == 2 ==> {
                &&& final(self).player2_board@ == board_place(
                    old(self).player2_board@,
                    column_index as int,
                    die,
                )
                &&& final(self).player1_board@ == board_remove(
                    old(self).player1_board@,
                    column_index as int,
                    die,
                )
            },
    {
        self.place_die(column_index, die);
        let over = self.is_finished();
        if !over {
            self.current_player = 3 - self.current_player;
        }
        over
    }

    /// Who has won, by the scores of the two boards as they stand.
    pub fn winner(&self) -> (winner: Winner)
        requires
            self.player1_board.wf(),
            self.player2_board.wf(),
        ensures
            winner == winner_of(board_score(self.player1_board@), board_score(self.player2_board@)),
    {
        let player1_score: u16 = self.player1_board.score();
        let player2_score: u16 = self.player2_board.score();
        if player1_score > player2_score {
            Winner::Player1
        } else if player2_score > player1_score {
            Winner::Player2
        } else {
            Winner::Tie
        }
    }
}

/// The contributions of the faces 1 to `n` to a column's score.
spec fn score_below(dice: Seq<u8>, n: int) -> nat
    decreases n,
{
    if n <= 0 {
        0
    } else {
        score_below(dice, n - 1) + face_score(dice, n as u8)
    }
}

/// No face is counted in a column without dice.
pub proof fn lemma_count_empty(dice: Seq<u8>)
    requires
        dice.len() == 0,
    ensures
        forall|v: u8| #[trigger] count_of(dice, v) == 0,
{
    broadcast use group_to_multiset_ensures;

    assert forall|v: u8| #[trigger] count_of(dice, v) == 0 by {
        if count_of(dice, v) > 0 {
            assert(dice.contains(v));
        }
    }
}

/// Looking at one more die raises the count of its face by one and leaves the
/// other counts alone.
pub proof fn lemma_count_take_step(dice: Seq<u8>, i: int)
    requires
        0 <= i < dice.len(),
    ensures
        forall|v: u8|
            count_of(dice.take(i + 1), v) == #[trigger] count_of(dice.take(i), v) + if dice[i] == v {
                1nat
            } else {
                0nat
            },
{
    assert(dice.take(i + 1) == dice.take(i).push(dice[i]));
    to_multiset_build(dice.take(i), dice[i]);
}

/// A face is counted at most as often as the column has dice.
pub proof fn lemma_count_at_most_len(dice: Seq<u8>, v: u8)
    ensures
        count_of(dice, v) <= dice.len(),
    decreases dice.len(),
{
    if dice.len() == 0 {
        lemma_count_empty(dice);
    } else {
        let front = dice.drop_last();
        assert(dice == front.push(dice.last()));
        to_multiset_build(front, dice.last());
        lemma_count_at_most_len(front, v);
    }
}

/// What one face contributes to a valid column's score is at most nine times the face.
pub proof fn lemma_face_score_bound(dice: Seq<u8>, v: u8)
    requires
        dice.len() <= 3,
    ensures
        face_score(dice, v) <= 9 * v,
{
    lemma_count_at_most_len(dice, v);
    let n = count_of(dice, v);
    assert(n * n * (v as nat) <= 9 * v) by (nonlinear_arith)
        requires
            n <= 3,
    ;
}

/// The score of a column of at most three dice stays far below the limit of `u16`.
pub proof fn lemma_column_score_bound(dice: Seq<u8>)
    requires
        dice.len() <= 3,
    ensures
        column_score(dice) <= 189,
{
    lemma_face_score_bound(dice, 1);
    lemma_face_score_bound(dice, 2);
    lemma_face_score_bound(dice, 3);
    lemma_face_score_bound(dice, 4);
    lemma_face_score_bound(dice, 5);
    lemma_face_score_bound(dice, 6);
}

/// Placing a die with a valid face keeps a valid column valid.
pub proof fn lemma_place_keeps_valid(dice: Seq<u8>, v: u8)
    requires
        valid_column(dice),
        valid_face(v),
    ensures
        valid_column(column_place(dice, v)),
{
}

/// Taking dice off a valid column leaves a valid column.
pub proof fn lemma_remove_keeps_valid(dice: Seq<u8>, v: u8)
    requires
        valid_column(dice),
    ensures
        valid_column(column_remove(dice, v)),
{
    let rest = column_remove(dice, v);
    dice.lemma_filter_len(other_than(v));
    assert forall|i: int| 0 <= i < rest.len() implies valid_face(#[trigger] rest[i]) by {
        assert(rest.contains(rest[i]));
        dice.lemma_filter_contains_rev(other_than(v), rest[i]);
    }
}

/// A move keeps both boards valid when the die shows a valid face.
pub proof fn lemma_move_keeps_valid(columns: Seq<Seq<u8>>, c: int, v: u8)
    requires
        valid_board(columns),
    ensures
        valid_face(v) ==> valid_board(board_place(columns, c, v)),
        valid_board(board_remove(columns, c, v)),
{
    if 0 <= c < columns.len() {
        lemma_remove_keeps_valid(columns[c], v);
        if valid_face(v) {
            lemma_place_keeps_valid(columns[c], v);
        }
    }
}

/// The score of a column does not depend on the order of its dice: two
/// columns that hold the same dice score the same.
pub proof fn lemma_column_score_ignores_order(first: Seq<u8>, second: Seq<u8>)
    requires
        first.to_multiset() == second.to_multiset(),
    ensures
        column_score(first) == column_score(second),
{
}

/// The score of a board does not depend on the order in which the dice of a
/// column were placed: two boards whose columns hold the same dice score the
/// same.
pub proof fn lemma_board_score_ignores_order(first: Seq<Seq<u8>>, second: Seq<Seq<u8>>)
    requires
        first.len() == 3,
        second.len() == 3,
        forall|c: int| 0 <= c < 3 ==> first[c].to_multiset() == second[c].to_multiset(),
    ensures
        board_score(first) == board_score(second),
{
    lemma_column_score_ignores_order(first[0], second[0]);
    lemma_column_score_ignores_order(first[1], second[1]);
    lemma_column_score_ignores_order(first[2], second[2]);
}

/// A column after the dice showing `faces` were placed on it, one after the other.
pub open spec fn place_all(dice: Seq<u8>, faces: Seq<u8>) -> Seq<u8>
    decreases faces.len(),
{
    if faces.len() == 0 {
        dice
    } else {
        column_place(place_all(dice, faces.drop_last()), faces.last())
    }
}

/// Dice that all find room end up behind those that were there.
pub proof fn lemma_place_all_appends(dice: Seq<u8>, faces: Seq<u8>)
    requires
        dice.len() + faces.len() <= 3,
    ensures
        place_all(dice, faces) == dice + faces,
    decreases faces.len(),
{
    if faces.len() == 0 {
        assert(dice + faces == dice);
    } else {
        lemma_place_all_appends(dice, faces.drop_last());
        assert(dice + faces == (dice + faces.drop_last()).push(faces.last()));
    }
}

/// As long as every die finds room, the order in which dice are placed on a
/// column does not change the score.
pub proof fn lemma_placement_order(dice: Seq<u8>, first: Seq<u8>, second: Seq<u8>)
    requires
        first.to_multiset() == second.to_multiset(),
        dice.len() + first.len() <= 3,
    ensures
        column_score(place_all(dice, first)) == column_score(place_all(dice, second)),
{
    to_multiset_len(first);
    to_multiset_len(second);
    lemma_place_all_appends(dice, first);
    lemma_place_all_appends(dice, second);
    lemma_multiset_commutative(dice, first);
    lemma_multiset_commutative(dice, second);
}

/// A column of `n` dice that all show `v`.
pub open spec fn equal_dice(v: u8, n: nat) -> Seq<u8> {
    Seq::new(n, |i: int| v)
}

/// In a column of `n` dice that all show `v`, the face `v` is counted `n`
/// times and no other face is counted.
pub proof fn lemma_count_of_equal_dice(v: u8, n: nat, w: u8)
    ensures
        count_of(equal_dice(v, n), w) == if w == v {
            n
        } else {
            0
        },
    decreases n,
{
    if n == 0 {
        lemma_count_empty(equal_dice(v, n));
    } else {
        let front = equal_dice(v, (n - 1) as nat);
        assert(equal_dice(v, n) == front.push(v));
        to_multiset_build(front, v);
        lemma_count_of_equal_dice(v, (n - 1) as nat, w);
    }
}

/// `n` dice of the face `v` in a column, and no others, score `n` times `n`
/// times `v`.
pub proof fn lemma_score_of_equal_dice(v: u8, n: nat)
    requires
        valid_face(v),
    ensures
        column_score(equal_dice(v, n)) == n * n * v,
{
    lemma_count_of_equal_dice(v, n, 1);
    lemma_count_of_equal_dice(v, n, 2);
    lemma_count_of_equal_dice(v, n, 3);
    lemma_count_of_equal_dice(v, n, 4);
    lemma_count_of_equal_dice(v, n, 5);
    lemma_count_of_equal_dice(v, n, 6);
}

/// Taking the dice of the face `v` off a column leaves none of them, and
/// leaves as many dice of every other face as there were.
pub proof fn lemma_remove_counts(dice: Seq<u8>, v: u8)
    ensures
        count_of(column_remove(dice, v), v) == 0,
        forall|w: u8| w != v ==> #[trigger] count_of(column_remove(dice, v), w) == count_of(dice, w),
    decreases dice.len(),
{
    if dice.len() == 0 {
        dice.lemma_filter_len(other_than(v));
        lemma_count_empty(dice);
        lemma_count_empty(column_remove(dice, v));
    } else {
        let front = dice.drop_last();
        let last = dice.last();
        assert(dice == front.push(last));
        front.lemma_filter_push(last, other_than(v));
        lemma_remove_counts(front, v);
        to_multiset_build(front, last);
        if last != v {
            to_multiset_build(column_remove(front, v), last);
        }
        assert forall|w: u8| w != v implies #[trigger] count_of(column_remove(dice, v), w)
            == count_of(dice, w) by {
            assert(count_of(column_remove(front, v), w) == count_of(front, w));
        }
    }
}

/// A move touches one column of each board: every other column stays as it was.
pub proof fn lemma_move_touches_one_column(columns: Seq<Seq<u8>>, c: int, v: u8, other: int)
    requires
        0 <= other < columns.len(),
        other != c,
    ensures
        board_place(columns, c, v).len() == columns.len(),
        board_remove(columns, c, v).len() == columns.len(),
        board_place(columns, c, v)[other] == columns[other],
        board_remove(columns, c, v)[other] == columns[other],
{
}

/// A valid board is full when each of its three columns holds three dice, and
/// only then.
pub proof fn lemma_full_board(columns: Seq<Seq<u8>>)
    requires
        valid_board(columns),
    ensures
        board_full(columns) <==> columns[0].len() == 3 && columns[1].len() == 3 && columns[2].len()
            == 3,
{
    assert(valid_column(columns[0]) && valid_column(columns[1]) && valid_column(columns[2]));
}

/// A die that goes to a column with room raises the column's score: with `n`
/// dice of its face `v` there before, by `2 * n + 1` times `v`.
pub proof fn lemma_place_raises_score(dice: Seq<u8>, v: u8)
    requires
        dice.len() < 3,
        valid_face(v),
    ensures
        column_score(column_place(dice, v)) == column_score(dice) + (2 * count_of(dice, v) + 1) * v,
{
    to_multiset_build(dice, v);
    let n = count_of(dice, v);
    assert((n + 1) * (n + 1) * (v as nat) == n * n * (v as nat) + (2 * n + 1) * v)
        by (nonlinear_arith);
}

/// Taking dice off a column never raises its score.
pub proof fn lemma_remove_lowers_score(dice: Seq<u8>, v: u8)
    requires
        valid_face(v),
    ensures
        column_score(column_remove(dice, v)) + face_score(dice, v) == column_score(dice),
{
    lemma_remove_counts(dice, v);
    let n = count_of(column_remove(dice, v), v);
    assert(n * n * (v as nat) == 0) by (nonlinear_arith)
        requires
            n == 0,
    ;
}

} // verus!
