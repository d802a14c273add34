use crate::dice_game::{valid_face, Board};
use crate::random::{choose_one, random_between};
use vstd::prelude::*;

verus! {

/// Rows of the value table: one for each state index.
pub const STATE_COUNT: usize = 1296;

/// Entries of a row of the value table: one for each column a die can go to.
pub const ACTION_COUNT: usize = 3;

/// The number of dice in a column as the table sees it: 3 stands for 3 and more.
pub open spec fn capped_len(dice: Seq<u8>) -> int {
    if dice.len() < 3 {
        dice.len() as int
    } else {
        3
    }
}

/// The number with the digits `first`, `second`, `third`, `last` in base 6.
pub open spec fn base6(first: int, second: int, third: int, last: int) -> int {
    ((first * 6 + second) * 6 + third) * 6 + last
}

/// The row of the value table for a board and a rolled die. It reads the
/// lengths of the board's first three columns and the die, and nothing else.
pub open spec fn state_index(columns: Seq<Seq<u8>>, die: u8) -> int {
    base6(capped_len(columns[0]), capped_len(columns[1]), capped_len(columns[2]), die - 1)
}

/// The row of the value table for `board` and the rolled die.
pub fn board_state_to_index(board: &Board, die_value: u8) -> (index: usize)
    requires
        board@.len() >= 3,
        valid_face(die_value),
    ensures
        index == state_index(board@, die_value),
        index < STATE_COUNT,
{
    let mut index: usize = 0;
    let base: usize = 6;
    let mut i: usize = 0;
    while i < 3
        invariant
            i <= 3,
            board@.len() >= 3,
            base == 6,
            i == 0 ==> index == 0,
            i == 1 ==> index == capped_len(board@[0]),
            i == 2 ==> index == capped_len(board@[0]) * 6 + capped_len(board@[1]),
            i == 3 ==> index == (capped_len(board@[0]) * 6 + capped_len(board@[1])) * 6
                + capped_len(board@[2]),
        decreases 3 - i,
    {
        let len: usize = board.columns[i].dice.len();
        assert(len == board@[i as int].len());
        let column_size: usize = if len < 3 {
            len
        } else {
            3
        };
        index = index * base + column_size;
        i += 1;
    }
    index = index * base + (die_value as usize - 1);
    index
}

/// The index of a state is below the number of rows of the table.
pub proof fn lemma_state_index_in_range(columns: Seq<Seq<u8>>, die: u8)
    requires
        valid_face(die),
    ensures
        0 <= state_index(columns, die) < STATE_COUNT,
{
}

/// The index of a state depends on the lengths of the three columns, capped
/// at 3, and on the die, and on nothing else: boards that agree in these get
/// the same index.
pub proof fn lemma_state_index_reads_lengths(first: Seq<Seq<u8>>, second: Seq<Seq<u8>>, die: u8)
    requires
        forall|c: int| 0 <= c < 3 ==> capped_len(first[c]) == capped_len(second[c]),
    ensures
        state_index(first, die) == state_index(second, die),
{
}

/// States that differ in a capped length or in the die get different indices.
pub proof fn lemma_state_index_separates(
    first: Seq<Seq<u8>>,
    first_die: u8,
    second: Seq<Seq<u8>>,
    second_die: u8,
)
    requires
        valid_face(first_die),
        valid_face(second_die),
        state_index(first, first_die) == state_index(second, second_die),
    ensures
        first_die == second_die,
        forall|c: int| 0 <= c < 3 ==> capped_len(first[c]) == capped_len(second[c]),
{
}

/// Action `a` is one of the best of a row: no entry of the row is larger than its own.
pub open spec fn is_greedy(values: Seq<i64>, a: int) -> bool {
    &&& 0 <= a < values.len()
    &&& forall|b: int| 0 <= b < values.len() ==> values[b] <= values[a]
}

/// The best actions of a row, each of them once, in ascending order.
///
/// The entries of `values` stand for the action values: any whole numbers
/// that are ordered as the values are.
pub fn greedy_actions(values: &Vec<i64>) -> (best: Vec<usize>)
    ensures
        forall|a: usize| #[trigger] best@.contains(a) <==> is_greedy(values@, a as int),
        forall|i: int, j: int| 0 <= i < j < best.len() ==> best[i] < best[j],
        values.len() > 0 ==> best.len() > 0,
{
    let mut best: Vec<usize> = Vec::new();
    if values.len() == 0 {
        return best;
    }
    let mut max: i64 = values[0];
    let ghost mut at: int = 0;
    let mut i: usize = 1;
    while i < values.len()
        invariant
            1 <= i <= values.len(),
            0 <= at < i,
            max == values[at],
            forall|b: int| 0 <= b < i ==> values[b] <= max,
        decreases values.len() - i,
    {
        if values[i] > max {
            max = values[i];
            proof {
                at = i as int;
            }
        }
        i += 1;
    }
    let mut a: usize = 0;
    while a < values.len()
        invariant
            a <= values.len(),
            0 <= at < values.len(),
            max == values[at],
            forall|b: int| 0 <= b < values.len() ==> values[b] <= max,
            forall|k: int| 0 <= k < best.len() ==> best[k] < a && values[best[k] as int] == max,
            forall|b: int| 0 <= b < a && values[b] == max ==> best@.contains(b as usize),
            forall|i: int, j: int| 0 <= i < j < best.len() ==> best[i] < best[j],
        decreases values.len() - a,
    {
        if values[a] == max {
            let ghost before = best@;
            best.push(a);
            proof {
                assert(best@[before.len() as int] == a);
                assert forall|b: int| 0 <= b <= a && values[b] == max implies best@.contains(
                    b as usize,
                ) by {
                    if b < a {
                        let k = choose|k: int| 0 <= k < before.len() && before[k] == b as usize;
                        assert(best@[k] == b as usize);
                    }
                }
            }
        }
        a += 1;
    }
    proof {
        assert(best@.contains(at as usize));
        assert forall|a: usize| #[trigger] best@.contains(a) <==> is_greedy(values@, a as int) by {
            if is_greedy(values@, a as int) {
                assert(values[at] <= values[a as int]);
            }
            if best@.contains(a) {
                let k = choose|k: int| 0 <= k < best.len() && best[k] == a;
                assert(values[best[k] as int] == max);
            }
        }
    }
    best
}

/// Chooses the column for a die: any of the three when exploring, and
/// otherwise one of the best actions of the row, each of them being possible.
pub fn choose_action(explore: bool, values: &Vec<i64>) -> (action: usize)
    requires
        values.len() == ACTION_COUNT,
    ensures
        action < ACTION_COUNT,
        !explore ==> is_greedy(values@, action as int),
{
    if explore {
        random_between(0, ACTION_COUNT - 1)
    } else {
        let best = greedy_actions(values);
        let picked = choose_one(&best);
        picked.unwrap()
    }
}

} // verus!
