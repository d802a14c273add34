use crate::dice_game::{
    board_full, board_place, board_remove, board_score, count_of, lemma_count_at_most_len,
    lemma_count_empty, lemma_count_take_step, lemma_move_keeps_valid, lemma_place_raises_score,
    lemma_remove_lowers_score, valid_board, valid_face, Board, Column, Die,
};
use vstd::prelude::*;

verus! {

/// Rewards are counted in hundredths, so that they stay whole numbers.
pub const REWARD_SCALE: i32 = 100;

/// A move that did not change the mover's score.
pub const WASTED_MOVE_REWARD: i32 = -200;

/// The move ended the game and the mover is ahead.
pub const WIN_REWARD: i32 = 500;

/// The move ended the game and the mover is behind.
pub const LOSS_REWARD: i32 = -500;

/// The move ended the game with equal scores.
pub const TIE_REWARD: i32 = 0;

/// The reward of a move, in hundredths, and whether the game is over, from
/// the two scores before and after it and from whether a board is full now.
///
/// A move that leaves the mover's score as it was is a wasted one, whatever
/// else it did. A move that fills a board is judged by the final scores
/// alone. Any other move earns what the mover gained plus twice what the
/// opponent lost.
pub open spec fn reward_of(
    own_before: int,
    own_after: int,
    opponent_before: int,
    opponent_after: int,
    board_is_full: bool,
) -> (int, bool) {
    if own_after == own_before {
        (WASTED_MOVE_REWARD as int, false)
    } else if board_is_full {
        if own_after > opponent_after {
            (WIN_REWARD as int, true)
        } else if own_after < opponent_after {
            (LOSS_REWARD as int, true)
        } else {
            (TIE_REWARD as int, true)
        }
    } else {
        (own_after - own_before + 2 * (opponent_before - opponent_after), false)
    }
}

/// The reward of placing a die showing `die` on column `c`, and whether that
/// ends the game: the move is played on the two boards and `reward_of` is
/// taken of the scores around it.
pub open spec fn move_reward(
    own: Seq<Seq<u8>>,
    opponent: Seq<Seq<u8>>,
    c: int,
    die: u8,
) -> (int, bool) {
    let own_after = board_place(own, c, die);
    let opponent_after = board_remove(opponent, c, die);
    reward_of(
        board_score(own) as int,
        board_score(own_after) as int,
        board_score(opponent) as int,
        board_score(opponent_after) as int,
        board_full(own_after) || board_full(opponent_after),
    )
}

/// The reward of a move in hundredths and whether the game is over, from the
/// scores around the move.
pub fn reward_from_scores(
    own_before: u16,
    own_after: u16,
    opponent_before: u16,
    opponent_after: u16,
    board_is_full: bool,
) -> (outcome: (i32, bool))
    ensures
        (outcome.0 as int, outcome.1) == reward_of(
            own_before as int,
            own_after as int,
            opponent_before as int,
            opponent_after as int,
            board_is_full,
        ),
{
    if own_after == own_before {
        return (WASTED_MOVE_REWARD, false);
    }
    if board_is_full {
        if own_after > opponent_after {
            return (WIN_REWARD, true);
        } else if own_after < opponent_after {
            return (LOSS_REWARD, true);
        } else {
            return (TIE_REWARD, true);
        }
    }
    let gained: i32 = own_after as i32 - own_before as i32;
    let taken: i32 = opponent_before as i32 - opponent_after as i32;
    (gained + 2 * taken, false)
}

/// The reward, in hundredths, of placing a die showing `die` on column
/// `column_index` of `own_board`, and whether the move ends the game. The
/// move is tried on copies; the boards themselves stay as they are.
pub fn calculate_reward(
    own_board: &Board,
    opponent_board: &Board,
    column_index: usize,
    die: u8,
) -> (outcome: (i32, bool))
    requires
        own_board.wf(),
        opponent_board.wf(),
        valid_face(die),
    ensures
        (outcome.0 as int, outcome.1) == move_reward(
            own_board@,
            opponent_board@,
            column_index as int,
            die,
        ),
{
    let own_score: u16 = own_board.score();
    let opponent_score: u16 = opponent_board.score();
    let mut own_after = own_board.clone();
    let mut opponent_after = opponent_board.clone();
    own_after.place_die(column_index, Die::new(die));
    opponent_after.remove_dice(column_index, die);
    proof {
        lemma_move_keeps_valid(own_board@, column_index as int, die);
        lemma_move_keeps_valid(opponent_board@, column_index as int, die);
    }
    let own_score_after: u16 = own_after.score();
    let opponent_score_after: u16 = opponent_after.score();
    let done = own_after.is_full() || opponent_after.is_full();
    reward_from_scores(own_score, own_score_after, opponent_score, opponent_score_after, done)
}

/// A move is a wasted one when its die found no room, and only then: when the
/// index names no column or the column was full.
pub proof fn lemma_wasted_move(own: Seq<Seq<u8>>, opponent: Seq<Seq<u8>>, c: int, die: u8)
    requires
        valid_board(own),
        valid_board(opponent),
        valid_face(die),
    ensures
        move_reward(own, opponent, c, die) == (-200int, false) <==> !(0 <= c < 3 && own[c].len()
            < 3),
{
    if 0 <= c < 3 {
        lemma_remove_lowers_score(opponent[c], die);
        assert(board_score(board_remove(opponent, c, die)) <= board_score(opponent));
        if own[c].len() < 3 {
            lemma_place_raises_score(own[c], die);
            let n = count_of(own[c], die);
            assert((2 * n + 1) * die > 0) by (nonlinear_arith)
                requires
                    die >= 1,
            ;
            assert(board_score(board_place(own, c, die)) > board_score(own));
        } else {
            assert(board_place(own, c, die) == own);
        }
    }
}

/// A move that changes the mover's score and fills a board is judged by the
/// scores it leaves alone: 500 to the one ahead, -500 to the one behind, 0
/// when they are level, and the game is over.
pub proof fn lemma_final_move(
    own_before: int,
    own_after: int,
    opponent_before: int,
    opponent_after: int,
)
    requires
        own_after != own_before,
    ensures
        own_after > opponent_after ==> reward_of(
            own_before,
            own_after,
            opponent_before,
            opponent_after,
            true,
        ) == (500int, true),
        own_after < opponent_after ==> reward_of(
            own_before,
            own_after,
            opponent_before,
            opponent_after,
            true,
        ) == (-500int, true),
        own_after == opponent_after ==> reward_of(
            own_before,
            own_after,
            opponent_before,
            opponent_after,
            true,
        ) == (0int, true),
{
}

/// A move that leaves the mover's score as it was earns -200 and does not end
/// the game, whatever the other numbers are.
pub proof fn lemma_unchanged_score(
    own: int,
    opponent_before: int,
    opponent_after: int,
    board_is_full: bool,
)
    ensures
        reward_of(own, own, opponent_before, opponent_after, board_is_full) == (-200int, false),
{
}

/// Slots that one column takes in the state: three for each of the six faces.
pub const COLUMN_SLOTS: usize = 18;

/// Slots that one board takes in the state.
pub const BOARD_SLOTS: usize = 54;

/// Slots that the two boards take together; the slots of the rolled die follow.
pub const BOARDS_SLOTS: usize = 108;

/// Length of the state: the slots of the two boards and six for the rolled die.
pub const STATE_LEN: usize = 114;

/// Slot `r` of a column's eighteen. The slots come in threes, one three for
/// each face from 1 to 6, and a three counts the dice of its face in unary:
/// with `n` such dice its first `n` slots are 1 and the others 0.
pub open spec fn column_slot(dice: Seq<u8>, r: int) -> u8 {
    let face = (r / 3 + 1) as u8;
    if r % 3 < count_of(dice, face) {
        1
    } else {
        0
    }
}

/// Slot `i` of the state for the mover's board `own`, the other board
/// `opponent` and the rolled die `die`: first the columns of `own`, then those
/// of `opponent`, then six slots of which the one of the rolled face is 1.
pub open spec fn state_slot(own: Seq<Seq<u8>>, opponent: Seq<Seq<u8>>, die: u8, i: int) -> u8 {
    if 0 <= i < 54 {
        column_slot(own[i / 18], i % 18)
    } else if 54 <= i < 108 {
        column_slot(opponent[(i - 54) / 18], (i - 54) % 18)
    } else if i - 108 == die - 1 {
        1
    } else {
        0
    }
}

/// The state that the value network is shown.
pub open spec fn encoded_state(own: Seq<Seq<u8>>, opponent: Seq<Seq<u8>>, die: u8) -> Seq<u8> {
    Seq::new(114, |i: int| state_slot(own, opponent, die, i))
}

/// Writes the slots of one column, which start at `base` and are all 0, and
/// leaves the rest of the state as it is.
fn encode_column(state: &mut Vec<u8>, base: usize, column: &Column)
    requires
        old(state).len() == STATE_LEN,
        base + COLUMN_SLOTS <= BOARDS_SLOTS,
        column.wf(),
        forall|i: int| base <= i < base + 18 ==> old(state)[i] == 0,
    ensures
        final(state).len() == STATE_LEN,
        forall|i: int| base <= i < base + 18 ==> final(state)[i] == column_slot(column@, i - base),
        forall|i: int|
            0 <= i < 114 && !(base <= i < base + 18) ==> final(state)[i] == old(state)[i],
{
    proof {
        lemma_count_empty(column@.take(0));
    }
    let mut j: usize = 0;
    while j < column.dice.len()
        invariant
            j <= column.dice.len(),
            column.wf(),
            state.len() == STATE_LEN,
            base + COLUMN_SLOTS <= BOARDS_SLOTS,
            forall|i: int|
                base <= i < base + 18 ==> state[i] == column_slot(column@.take(j as int), i - base),
            forall|i: int| 0 <= i < 114 && !(base <= i < base + 18) ==> state[i] == old(state)[i],
        decreases column.dice.len() - j,
    {
        let face: u8 = column.dice[j].value();
        let ghost seen = column@.take(j as int);
        proof {
            assert(valid_face(column@[j as int]));
            lemma_count_take_step(column@, j as int);
            lemma_count_at_most_len(column@.take(j + 1), face);
        }
        let first: usize = base + (face as usize - 1) * 3;
        let mut k: usize = 0;
        while k < 3 && state[first + k] != 0
            invariant
                k <= 3,
                k <= count_of(seen, face),
                count_of(seen, face) < 3,
                state.len() == STATE_LEN,
                base + COLUMN_SLOTS <= BOARDS_SLOTS,
                first == base + (face - 1) * 3,
                valid_face(face),
                forall|i: int| base <= i < base + 18 ==> state[i] == column_slot(seen, i - base),
            decreases 3 - k,
        {
            k += 1;
        }
        assert(k == count_of(seen, face));
        state[first + k] = 1;
        j += 1;
        proof {
            let now = column@.take(j as int);
            assert forall|i: int| base <= i < base + 18 implies state[i] == column_slot(
                now,
                i - base,
            ) by {
                let f = ((i - base) / 3 + 1) as u8;
                assert(count_of(now, f) == count_of(seen, f) + if column@[j - 1] == f {
                    1nat
                } else {
                    0nat
                });
            }
        }
    }
    assert(column@.take(j as int) == column@);
}

/// The state for the mover's board, the other board and the rolled die: 114
/// slots of 0 or 1.
pub fn initialize_state(own_board: &Board, opponent_board: &Board, die: u8) -> (state: Vec<u8>)
    requires
        own_board.wf(),
        opponent_board.wf(),
        valid_face(die),
    ensures
        state@ == encoded_state(own_board@, opponent_board@, die),
{
    let mut state: Vec<u8> = Vec::new();
    while state.len() < STATE_LEN
        invariant
            state.len() <= STATE_LEN,
            forall|i: int| 0 <= i < state.len() ==> state[i] == 0,
        decreases STATE_LEN - state.len(),
    {
        state.push(0);
    }
    let mut column_idx: usize = 0;
    while column_idx < 3
        invariant
            column_idx <= 3,
            state.len() == STATE_LEN,
            own_board.wf(),
            forall|i: int|
                0 <= i < column_idx * 18 ==> state[i] == state_slot(
                    own_board@,
                    opponent_board@,
                    die,
                    i,
                ),
            forall|i: int| column_idx * 18 <= i < 114 ==> state[i] == 0,
        decreases 3 - column_idx,
    {
        let base: usize = column_idx * COLUMN_SLOTS;
        assert(own_board.columns[column_idx as int]@ == own_board@[column_idx as int]);
        encode_column(&mut state, base, &own_board.columns[column_idx]);
        assert forall|i: int| base <= i < base + 18 implies state[i] == state_slot(
            own_board@,
            opponent_board@,
            die,
            i,
        ) by {
            assert(state[i] == column_slot(own_board@[column_idx as int], i - base));
        }
        column_idx += 1;
    }
    let mut column_idx: usize = 0;
    while column_idx < 3
        invariant
            column_idx <= 3,
            state.len() == STATE_LEN,
            opponent_board.wf(),
            forall|i: int|
                0 <= i < 54 + column_idx * 18 ==> state[i] == state_slot(
                    own_board@,
                    opponent_board@,
                    die,
                    i,
                ),
            forall|i: int| 54 + column_idx * 18 <= i < 114 ==> state[i] == 0,
        decreases 3 - column_idx,
    {
        let base: usize = BOARD_SLOTS + column_idx * COLUMN_SLOTS;
        assert(opponent_board.columns[column_idx as int]@ == opponent_board@[column_idx as int]);
        encode_column(&mut state, base, &opponent_board.columns[column_idx]);
        assert forall|i: int| base <= i < base + 18 implies state[i] == state_slot(
            own_board@,
            opponent_board@,
            die,
            i,
        ) by {
            assert(state[i] == column_slot(opponent_board@[column_idx as int], i - base));
        }
        column_idx += 1;
    }
    state[BOARDS_SLOTS + (die as usize - 1)] = 1;
    assert(state@ =~= encoded_state(own_board@, opponent_board@, die));
    state
}

} // verus!
