use knucklebones::dice_game::{Board, Column, Die, Game, Winner};

fn column_of(faces: &[u8]) -> Column {
    let mut column = Column::new();
    for &face in faces {
        column.add_die(Die::new(face));
    }
    column
}

fn board_of(columns: [&[u8]; 3]) -> Board {
    let mut board = Board::new();
    for (index, faces) in columns.iter().enumerate() {
        for &face in faces.iter() {
            board.place_die(index, Die::new(face));
        }
    }
    board
}

fn faces_of(column: &Column) -> Vec<u8> {
    column.dice.iter().map(|die| die.value()).collect()
}

#[test]
fn die_keeps_its_face() {
    for face in 1..=6u8 {
        assert_eq!(Die::new(face).value(), face);
    }
}

#[test]
fn new_column_is_empty() {
    let column = Column::new();
    assert!(column.dice.is_empty());
    assert!(!column.is_full());
    assert_eq!(column.score(), 0);
}

#[test]
fn column_is_full_with_three_dice() {
    assert!(!column_of(&[1, 2]).is_full());
    assert!(column_of(&[1, 2, 3]).is_full());
}

#[test]
fn column_keeps_placement_order() {
    assert_eq!(faces_of(&column_of(&[4, 1, 6])), vec![4, 1, 6]);
}

#[test]
fn full_column_ignores_a_fourth_die() {
    let mut column = column_of(&[1, 2, 3]);
    column.add_die(Die::new(6));
    assert_eq!(faces_of(&column), vec![1, 2, 3]);
    assert_eq!(column.score(), 6);
}

#[test]
fn column_score_is_count_squared_times_face() {
    for face in 1..=6u8 {
        for count in 0..=3usize {
            let faces = vec![face; count];
            let expected = (count * count) as u16 * face as u16;
            assert_eq!(column_of(&faces).score(), expected);
        }
    }
}

#[test]
fn three_fives_score_forty_five() {
    assert_eq!(column_of(&[5, 5, 5]).score(), 45);
}

#[test]
fn column_score_adds_the_faces_up() {
    assert_eq!(column_of(&[2, 2, 5]).score(), 13);
    assert_eq!(column_of(&[1, 3, 6]).score(), 10);
    assert_eq!(column_of(&[6, 6]).score(), 24);
    assert_eq!(column_of(&[6, 6, 6]).score(), 54);
}

#[test]
fn column_score_ignores_order() {
    let orders: [[u8; 3]; 6] =
        [[2, 2, 5], [2, 5, 2], [5, 2, 2], [2, 2, 5], [5, 2, 2], [2, 5, 2]];
    for order in orders.iter() {
        assert_eq!(column_of(order).score(), 13);
    }
}

#[test]
fn board_score_ignores_order() {
    let first = board_of([&[1, 4, 4], &[6, 2], &[3, 3, 3]]);
    let second = board_of([&[4, 1, 4], &[2, 6], &[3, 3, 3]]);
    let third = board_of([&[4, 4, 1], &[6, 2], &[3, 3, 3]]);
    assert_eq!(first.score(), 17 + 8 + 27);
    assert_eq!(second.score(), first.score());
    assert_eq!(third.score(), first.score());
}

#[test]
fn remove_dice_takes_every_die_of_the_face() {
    let mut column = column_of(&[4, 2, 4]);
    column.remove_dice(4);
    assert_eq!(faces_of(&column), vec![2]);
    assert_eq!(column.score(), 2);
}

#[test]
fn remove_dice_keeps_the_order_of_the_rest() {
    let mut column = column_of(&[3, 5, 1]);
    column.remove_dice(5);
    assert_eq!(faces_of(&column), vec![3, 1]);
}

#[test]
fn remove_dice_without_a_match_changes_nothing() {
    let mut column = column_of(&[3, 5, 1]);
    column.remove_dice(2);
    assert_eq!(faces_of(&column), vec![3, 5, 1]);
}

#[test]
fn new_board_has_three_empty_columns() {
    let board = Board::new();
    assert_eq!(board.columns.len(), 3);
    assert!(board.columns.iter().all(|column| column.dice.is_empty()));
    assert_eq!(board.score(), 0);
    assert!(!board.is_full());
}

#[test]
fn board_is_not_full_with_eight_dice() {
    let board = board_of([&[1, 2, 3], &[4, 5, 6], &[1, 2]]);
    assert!(!board.is_full());
}

#[test]
fn board_is_full_with_nine_dice() {
    let mut board = board_of([&[1, 2, 3], &[4, 5, 6], &[1, 2]]);
    board.place_die(2, Die::new(3));
    assert!(board.is_full());
}

#[test]
fn board_place_die_with_a_wrong_index_changes_nothing() {
    let mut board = board_of([&[1], &[2], &[3]]);
    let before = board.clone();
    board.place_die(3, Die::new(6));
    board.place_die(usize::MAX, Die::new(6));
    assert_eq!(board, before);
}

#[test]
fn board_remove_dice_with_a_wrong_index_changes_nothing() {
    let mut board = board_of([&[1], &[2], &[3]]);
    let before = board.clone();
    board.remove_dice(3, 1);
    assert_eq!(board, before);
}

#[test]
fn board_remove_dice_touches_one_column() {
    let mut board = board_of([&[5, 1], &[5, 5], &[5]]);
    board.remove_dice(1, 5);
    assert_eq!(board, board_of([&[5, 1], &[], &[5]]));
}

#[test]
fn board_clone_is_equal_and_independent() {
    let board = board_of([&[5, 1], &[6], &[]]);
    let mut copy = board.clone();
    assert_eq!(copy, board);
    copy.place_die(2, Die::new(2));
    assert_eq!(board, board_of([&[5, 1], &[6], &[]]));
    assert_eq!(copy, board_of([&[5, 1], &[6], &[2]]));
}

#[test]
fn can_place_rejects_full_columns_and_wrong_indices() {
    let board = board_of([&[1, 2, 3], &[4], &[]]);
    assert!(!board.can_place(0));
    assert!(board.can_place(1));
    assert!(board.can_place(2));
    assert!(!board.can_place(3));
    assert!(!board.can_place(usize::MAX));
}

#[test]
fn cell_shows_faces_and_zero_for_empty_places() {
    let board = board_of([&[1, 2, 3], &[4], &[]]);
    let rows: Vec<Vec<u8>> =
        (0..3).map(|row| (0..3).map(|column| board.cell(row, column)).collect()).collect();
    assert_eq!(rows, vec![vec![1, 4, 0], vec![2, 0, 0], vec![3, 0, 0]]);
    assert_eq!(board.cell(3, 0), 0);
    assert_eq!(board.cell(0, 3), 0);
}

#[test]
fn new_game_starts_empty_with_player_one() {
    let game = Game::new();
    assert_eq!(game.current_player, 1);
    assert_eq!(game.player1_board, Board::new());
    assert_eq!(game.player2_board, Board::new());
    assert!(!game.is_finished());
}

#[test]
fn roll_die_gives_faces_from_one_to_six() {
    let game = Game::new();
    let mut seen = [false; 7];
    for _ in 0..2000 {
        let face = game.roll_die();
        assert!((1..=6).contains(&face));
        seen[face as usize] = true;
    }
    assert!(seen[1..].iter().all(|&hit| hit));
}

#[test]
fn placing_removes_the_face_from_the_column_opposite() {
    let mut game = Game::new();
    game.player1_board = board_of([&[2], &[4, 1], &[4]]);
    game.player2_board = board_of([&[4, 4, 3], &[4, 4], &[6]]);
    game.current_player = 1;
    game.place_die(1, 4);
    assert_eq!(game.player1_board, board_of([&[2], &[4, 1, 4], &[4]]));
    assert_eq!(game.player2_board, board_of([&[4, 4, 3], &[], &[6]]));
    assert_eq!(game.current_player, 1);
}

#[test]
fn second_player_places_on_the_second_board() {
    let mut game = Game::new();
    game.player1_board = board_of([&[3, 5, 3], &[], &[3]]);
    game.player2_board = board_of([&[1], &[], &[]]);
    game.current_player = 2;
    game.place_die(0, 3);
    assert_eq!(game.player2_board, board_of([&[1, 3], &[], &[]]));
    assert_eq!(game.player1_board, board_of([&[5], &[], &[3]]));
}

#[test]
fn placing_on_a_full_column_still_removes_opposite() {
    let mut game = Game::new();
    game.player1_board = board_of([&[1, 2, 3], &[], &[]]);
    game.player2_board = board_of([&[6, 6], &[6], &[]]);
    game.place_die(0, 6);
    assert_eq!(game.player1_board, board_of([&[1, 2, 3], &[], &[]]));
    assert_eq!(game.player2_board, board_of([&[], &[6], &[]]));
}

#[test]
fn play_turn_changes_the_player_until_the_game_is_over() {
    let mut game = Game::new();
    assert!(!game.play_turn(0, 5));
    assert_eq!(game.current_player, 2);
    assert!(!game.play_turn(0, 5));
    assert_eq!(game.current_player, 1);
    assert_eq!(game.player1_board, board_of([&[], &[], &[]]));
    assert_eq!(game.player2_board, board_of([&[5], &[], &[]]));
}

#[test]
fn play_turn_ends_the_game_on_a_full_board() {
    let mut game = Game::new();
    game.player1_board = board_of([&[1, 2, 3], &[4, 5, 6], &[1, 2]]);
    game.player2_board = board_of([&[6], &[], &[]]);
    assert!(game.play_turn(2, 3));
    assert!(game.is_finished());
    assert_eq!(game.current_player, 1);
    assert_eq!(game.winner(), Winner::Player1);
}

#[test]
fn winner_is_the_higher_score() {
    let mut game = Game::new();
    game.player1_board = board_of([&[1], &[], &[]]);
    game.player2_board = board_of([&[2], &[], &[]]);
    assert_eq!(game.winner(), Winner::Player2);
    game.player1_board = board_of([&[1, 1], &[], &[]]);
    assert_eq!(game.winner(), Winner::Player1);
    game.player2_board = board_of([&[], &[4], &[]]);
    assert_eq!(game.winner(), Winner::Tie);
}

#[test]
fn mover_boards_follow_the_player_to_move() {
    let mut game = Game::new();
    game.player1_board = board_of([&[1], &[], &[]]);
    game.player2_board = board_of([&[], &[2], &[]]);
    let (own, opponent) = game.mover_boards();
    assert_eq!((own, opponent), (&game.player1_board, &game.player2_board));
    game.current_player = 2;
    let (own, opponent) = game.mover_boards();
    assert_eq!((own, opponent), (&game.player2_board, &game.player1_board));
}
