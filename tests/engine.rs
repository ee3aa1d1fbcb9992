use connect_four::{
    check_winner, drop_piece, evaluate_window, get_next_open_row, is_draw, is_full,
    legal_columns, minimax, new_board, play_computer_column, score_position,
    select_computer_move, Difficulty, MoveError, HARD_DEPTH, COMPUTER, EMPTY, NO_COLUMN, USER,
};

fn empty(rows: usize, cols: usize) -> Vec<Vec<usize>> {
    new_board(rows, cols).unwrap()
}

fn empties_in_column(board: &Vec<Vec<usize>>, col: usize) -> usize {
    board.iter().filter(|row| row[col] == EMPTY).count()
}

fn is_settled(board: &Vec<Vec<usize>>) -> bool {
    for r in 0..board.len() - 1 {
        for c in 0..board[0].len() {
            if board[r][c] != EMPTY && board[r + 1][c] == EMPTY {
                return false;
            }
        }
    }
    true
}

/// A full 6x7 board in which no player has four in a row.
fn full_board_without_line() -> Vec<Vec<usize>> {
    let mut board = empty(6, 7);
    for r in 0..6 {
        for c in 0..7 {
            board[r][c] = if (r / 2 + c) % 2 == 0 { USER } else { COMPUTER };
        }
    }
    board
}

/// Minimax without pruning, built on the library's own operations.
fn plain_minimax(board: &Vec<Vec<usize>>, depth: usize, maximizing: bool) -> isize {
    if depth == 0 || check_winner(board).is_some() {
        return score_position(board, COMPUTER);
    }
    let cols = legal_columns(board);
    if cols.is_empty() {
        return score_position(board, COMPUTER);
    }
    let player = if maximizing { COMPUTER } else { USER };
    let values = cols.iter().map(|&c| {
        let mut child = board.clone();
        drop_piece(&mut child, c, player).unwrap();
        plain_minimax(&child, depth - 1, !maximizing)
    });
    if maximizing {
        values.max().unwrap()
    } else {
        values.min().unwrap()
    }
}

/// A board reached by a deterministic stream of legal moves.
fn pseudo_random_board(seed: u64, rows: usize, cols: usize, moves: usize) -> Vec<Vec<usize>> {
    let mut board = empty(rows, cols);
    let mut state = seed;
    let mut player = USER;
    for _ in 0..moves {
        state = state.wrapping_mul(6364136223846793005).wrapping_add(1442695040888963407);
        let legal = legal_columns(&board);
        if legal.is_empty() || check_winner(&board).is_some() {
            break;
        }
        let col = legal[((state >> 33) as usize) % legal.len()];
        drop_piece(&mut board, col, player).unwrap();
        player = if player == USER { COMPUTER } else { USER };
    }
    board
}

#[test]
fn drop_removes_one_empty_cell_from_its_column_only() {
    let mut board = empty(6, 7);
    drop_piece(&mut board, 2, USER).unwrap();
    let before = board.clone();
    let row = drop_piece(&mut board, 2, COMPUTER).unwrap();
    assert_eq!(row, 4);
    assert_eq!(empties_in_column(&board, 2) + 1, empties_in_column(&before, 2));
    for c in 0..7 {
        if c != 2 {
            for r in 0..6 {
                assert_eq!(board[r][c], before[r][c]);
            }
        }
    }
}

#[test]
fn drops_keep_gravity() {
    let mut board = empty(5, 4);
    let moves = [0, 3, 3, 1, 0, 0, 2, 3, 3, 3, 1];
    let mut player = USER;
    for &c in moves.iter() {
        let _ = drop_piece(&mut board, c, player);
        assert!(is_settled(&board));
        player = if player == USER { COMPUTER } else { USER };
    }
    assert_eq!(drop_piece(&mut board, 3, USER), Err(MoveError::ColumnFull));
    assert!(is_settled(&board));
}

#[test]
fn winner_is_swapped_by_half_turn_with_labels_exchanged() {
    let mut board = empty(6, 7);
    for _ in 0..4 {
        drop_piece(&mut board, 1, USER).unwrap();
    }
    drop_piece(&mut board, 2, COMPUTER).unwrap();
    let mut turned = empty(6, 7);
    for r in 0..6 {
        for c in 0..7 {
            let v = board[5 - r][6 - c];
            turned[r][c] = if v == USER {
                COMPUTER
            } else if v == COMPUTER {
                USER
            } else {
                EMPTY
            };
        }
    }
    assert_eq!(check_winner(&board), Some(USER));
    assert_eq!(check_winner(&turned), Some(COMPUTER));
}

#[test]
fn alpha_beta_matches_plain_minimax() {
    for seed in 0..12u64 {
        let board = pseudo_random_board(seed, 5, 5, (seed as usize * 3) % 14);
        for depth in 0..4 {
            for &maximizing in [true, false].iter() {
                let (_, value) = minimax(&board, depth, isize::MIN, isize::MAX, maximizing);
                assert_eq!(value, plain_minimax(&board, depth, maximizing));
            }
        }
    }
}

#[test]
fn winner_and_score_are_repeatable() {
    let board = pseudo_random_board(7, 6, 7, 15);
    assert_eq!(check_winner(&board), check_winner(&board));
    assert_eq!(score_position(&board, COMPUTER), score_position(&board, COMPUTER));
    assert_eq!(score_position(&board, USER), score_position(&board, USER));
}

#[test]
fn hard_computer_opens_in_the_centre() {
    let board = empty(6, 7);
    assert_eq!(minimax(&board, 1, isize::MIN, isize::MAX, true), (3, 10));
    assert_eq!(minimax(&board, 2, isize::MIN, isize::MAX, true), (3, 10));
    assert_eq!(minimax(&board, 3, isize::MIN, isize::MAX, true), (3, 70));
    assert_eq!(minimax(&board, HARD_DEPTH, isize::MIN, isize::MAX, true).0, 3);
    let mut played = empty(6, 7);
    assert_eq!(select_computer_move(&mut played, Difficulty::Hard), Ok((3, 5)));
    for r in 0..6 {
        for c in 0..7 {
            let expected = if (r, c) == (5, 3) { COMPUTER } else { EMPTY };
            assert_eq!(played[r][c], expected);
        }
    }
}

#[test]
fn hard_computer_opens_in_the_centre_of_a_wide_board() {
    let mut board = empty(10, 10);
    assert_eq!(select_computer_move(&mut board, Difficulty::Hard), Ok((5, 9)));
}

#[test]
fn hard_computer_plays_the_search_choice() {
    let board = pseudo_random_board(3, 6, 7, 6);
    let (col, _) = minimax(&board, HARD_DEPTH, isize::MIN, isize::MAX, true);
    let row = get_next_open_row(&board, col).unwrap();
    let mut played = board.clone();
    assert_eq!(select_computer_move(&mut played, Difficulty::Hard), Ok((col, row)));
    assert_eq!(played[row][col], COMPUTER);
    assert_eq!(empties_in_column(&played, col) + 1, empties_in_column(&board, col));
}

#[test]
fn stopped_search_scores_the_board_for_the_computer() {
    let board = pseudo_random_board(5, 6, 7, 9);
    let expected = score_position(&board, COMPUTER);
    for &maximizing in [true, false].iter() {
        assert_eq!(minimax(&board, 0, 5, -5, maximizing), (NO_COLUMN, expected));
        assert_eq!(minimax(&board, 0, -3, 3, maximizing), (NO_COLUMN, expected));
    }
    let full = full_board_without_line();
    assert_eq!(
        minimax(&full, 4, 0, 1, false),
        (NO_COLUMN, score_position(&full, COMPUTER))
    );
}

#[test]
fn fourth_piece_in_a_row_wins() {
    let mut board = empty(6, 7);
    for c in 0..3 {
        drop_piece(&mut board, c, USER).unwrap();
    }
    assert_eq!(check_winner(&board), None);
    drop_piece(&mut board, 3, USER).unwrap();
    assert_eq!(check_winner(&board), Some(USER));
}

#[test]
fn full_board_without_line_is_a_draw() {
    let board = full_board_without_line();
    assert!(is_full(&board));
    assert_eq!(check_winner(&board), None);
    assert!(is_draw(&board));
}

#[test]
fn column_with_bottom_piece_stays_legal() {
    let mut board = empty(6, 7);
    drop_piece(&mut board, 4, USER).unwrap();
    assert!(legal_columns(&board).contains(&4));
    assert_eq!(legal_columns(&board), vec![0, 1, 2, 3, 4, 5, 6]);
    assert_eq!(drop_piece(&mut board, 4, COMPUTER), Ok(4));
    assert_eq!(board[4][4], COMPUTER);
    assert_eq!(board[5][4], USER);
}

#[test]
fn window_scores() {
    assert_eq!(evaluate_window(&[2, 2, 2, 2], COMPUTER), 10000);
    assert_eq!(evaluate_window(&[1, 1, 1, 1], COMPUTER), -10000);
    assert_eq!(evaluate_window(&[2, 0, 2, 2], COMPUTER), 500);
    assert_eq!(evaluate_window(&[1, 1, 0, 1], COMPUTER), -500);
    assert_eq!(evaluate_window(&[0, 2, 2, 0], COMPUTER), 50);
    assert_eq!(evaluate_window(&[1, 0, 0, 1], COMPUTER), -50);
    assert_eq!(evaluate_window(&[1, 2, 2, 2], COMPUTER), 0);
    assert_eq!(evaluate_window(&[0, 0, 0, 2], COMPUTER), 0);
    assert_eq!(evaluate_window(&[1, 1, 1, 0], USER), 500);
}

#[test]
fn position_scores() {
    let mut board = empty(6, 7);
    assert_eq!(score_position(&board, COMPUTER), 0);
    drop_piece(&mut board, 3, COMPUTER).unwrap();
    assert_eq!(score_position(&board, COMPUTER), 10);
    assert_eq!(score_position(&board, USER), 0);
    drop_piece(&mut board, 4, COMPUTER).unwrap();
    // the horizontal windows starting at columns 1, 2 and 3 each hold both
    // pieces beside two empty cells
    assert_eq!(score_position(&board, COMPUTER), 10 + 3 * 50);
    assert_eq!(score_position(&board, USER), -3 * 50);
}

#[test]
fn full_column_is_refused() {
    let mut board = empty(4, 4);
    for _ in 0..4 {
        drop_piece(&mut board, 0, USER).unwrap();
    }
    let before = board.clone();
    assert_eq!(get_next_open_row(&board, 0), None);
    assert_eq!(drop_piece(&mut board, 0, COMPUTER), Err(MoveError::ColumnFull));
    assert_eq!(board, before);
    assert!(!legal_columns(&board).contains(&0));
}

#[test]
fn full_board_has_no_computer_move() {
    let mut board = full_board_without_line();
    assert_eq!(select_computer_move(&mut board, Difficulty::Easy), Err(MoveError::NoLegalMove));
    assert_eq!(select_computer_move(&mut board, Difficulty::Hard), Err(MoveError::NoLegalMove));
    assert_eq!(minimax(&board, 3, isize::MIN, isize::MAX, true).0, NO_COLUMN);
}

#[test]
fn easy_computer_plays_the_only_legal_column() {
    let mut board = full_board_without_line();
    board[0][5] = EMPTY;
    assert_eq!(select_computer_move(&mut board, Difficulty::Easy), Ok((5, 0)));
    assert_eq!(board[0][5], COMPUTER);
}

#[test]
fn easy_computer_plays_a_legal_column() {
    let mut board = empty(6, 7);
    let (col, row) = select_computer_move(&mut board, Difficulty::Easy).unwrap();
    assert!(col < 7);
    assert_eq!(row, 5);
    assert_eq!(board[5][col], COMPUTER);
}

#[test]
fn playing_a_chosen_column() {
    let mut board = empty(4, 5);
    assert_eq!(play_computer_column(&mut board, None), Err(MoveError::NoLegalMove));
    assert_eq!(play_computer_column(&mut board, Some(2)), Ok((2, 3)));
    assert_eq!(board[3][2], COMPUTER);
}

#[test]
fn board_sizes() {
    assert_eq!(new_board(3, 7), None);
    assert_eq!(new_board(6, 3), None);
    assert_eq!(new_board(201, 7), None);
    let board = new_board(4, 10).unwrap();
    assert_eq!(board.len(), 4);
    assert!(board.iter().all(|row| row.len() == 10 && row.iter().all(|&c| c == EMPTY)));
}

#[test]
fn search_takes_the_winning_column() {
    let mut board = empty(6, 7);
    for c in 0..3 {
        drop_piece(&mut board, c, COMPUTER).unwrap();
    }
    drop_piece(&mut board, 0, USER).unwrap();
    drop_piece(&mut board, 1, USER).unwrap();
    let (col, _) = minimax(&board, 3, isize::MIN, isize::MAX, true);
    assert_eq!(col, 3);
    let (col, _) = minimax(&board, 0, isize::MIN, isize::MAX, true);
    assert_eq!(col, NO_COLUMN);
}

