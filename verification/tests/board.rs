use pazzle::error::PazzleError;
use pazzle::moves::{apply_move, is_solved};
use pazzle::tiles::{check_allocation, is_solvable, validate_configuration, SIZE};

const SOLVED: [u8; 16] = [1, 2, 3, 4, 5, 6, 7, 8, 9, 10, 11, 12, 13, 14, 15, 0];

/// A board with the blank in cell 5.
const BLANK_AT_5: [u8; 16] = [1, 2, 3, 4, 5, 0, 6, 7, 8, 9, 10, 11, 12, 13, 14, 15];

fn swapped(board: [u8; 16], p: usize, q: usize) -> [u8; 16] {
    let mut out = board;
    out.swap(p, q);
    out
}

#[test]
fn size_is_sixteen() {
    assert_eq!(SIZE, 16);
}

#[test]
fn accepts_permutations() {
    assert_eq!(validate_configuration(&SOLVED), Ok(()));
    assert_eq!(validate_configuration(&BLANK_AT_5), Ok(()));
    let reversed: Vec<u8> = (0..16u8).rev().collect();
    assert_eq!(validate_configuration(&reversed), Ok(()));
}

#[test]
fn rejects_wrong_length() {
    assert_eq!(validate_configuration(&[]), Err(PazzleError::MalformedConfiguration));
    assert_eq!(validate_configuration(&SOLVED[..15]), Err(PazzleError::MalformedConfiguration));
    let mut long = SOLVED.to_vec();
    long.push(16);
    assert_eq!(validate_configuration(&long), Err(PazzleError::MalformedConfiguration));
}

#[test]
fn rejects_out_of_range_in_any_position() {
    for i in 0..16 {
        let mut board = SOLVED;
        board[i] = 16;
        assert_eq!(validate_configuration(&board), Err(PazzleError::MalformedConfiguration));
        board[i] = 255;
        assert_eq!(validate_configuration(&board), Err(PazzleError::MalformedConfiguration));
    }
}

#[test]
fn rejects_duplicate_in_any_position() {
    for i in 0..16 {
        for j in 0..16 {
            if i != j {
                let mut board = SOLVED;
                board[i] = board[j];
                assert_eq!(validate_configuration(&board), Err(PazzleError::MalformedConfiguration));
            }
        }
    }
}

#[test]
fn rejects_duplicate_blank() {
    let mut board = SOLVED;
    board[0] = 0;
    assert_eq!(validate_configuration(&board), Err(PazzleError::MalformedConfiguration));
}

#[test]
fn solved_board_is_solved() {
    assert!(is_solved(&SOLVED));
}

#[test]
fn last_cell_counts_for_solved() {
    let mut board = SOLVED;
    board[15] = 7;
    assert!(!is_solved(&board));
    board[15] = 16;
    assert!(!is_solved(&board));
}

#[test]
fn any_other_permutation_is_not_solved() {
    for p in 0..16 {
        for q in (p + 1)..16 {
            assert!(!is_solved(&swapped(SOLVED, p, q)));
        }
    }
    assert!(!is_solved(&BLANK_AT_5));
}

#[test]
fn inversion_parity_exact_values() {
    // 15 inversions: every tile stands before the blank.
    assert!(!is_solvable(&SOLVED));
    // none
    assert!(is_solvable(&[0, 1, 2, 3, 4, 5, 6, 7, 8, 9, 10, 11, 12, 13, 14, 15]));
    // 120
    assert!(is_solvable(&[15, 14, 13, 12, 11, 10, 9, 8, 7, 6, 5, 4, 3, 2, 1, 0]));
    // 16
    assert!(is_solvable(&[2, 1, 3, 4, 5, 6, 7, 8, 9, 10, 11, 12, 13, 14, 15, 0]));
    // 14
    assert!(is_solvable(&[1, 2, 3, 4, 5, 6, 7, 8, 9, 10, 11, 12, 13, 14, 0, 15]));
    // 13
    assert!(!is_solvable(&[1, 2, 3, 4, 5, 6, 7, 8, 9, 10, 11, 12, 13, 0, 14, 15]));
}

#[test]
fn inversion_parity_counts_the_last_cell() {
    // one inversion, and it involves cell 15
    assert!(!is_solvable(&[0, 1, 2, 3, 4, 5, 6, 7, 8, 9, 10, 11, 12, 13, 15, 14]));
}

#[test]
fn every_move_flips_the_parity() {
    let a = [1, 2, 3, 4, 5, 6, 7, 8, 9, 10, 11, 12, 0, 13, 14, 15];
    let b = swapped(a, 12, 13);
    let c = swapped(a, 12, 8);
    assert!(is_solvable(&a));
    assert!(!is_solvable(&b));
    assert!(!is_solvable(&c));
}

#[test]
fn easy_run_is_caught() {
    assert_eq!(check_allocation(&SOLVED), Err(PazzleError::TooEasy));
    // the run starts in cell 11, the last place looked at
    assert_eq!(
        check_allocation(&[5, 4, 3, 2, 1, 0, 15, 14, 13, 12, 11, 6, 7, 8, 9, 10]),
        Err(PazzleError::TooEasy)
    );
}

#[test]
fn four_in_a_row_is_no_easy_run() {
    assert_eq!(check_allocation(&[1, 2, 3, 4, 0, 5, 6, 7, 8, 15, 9, 10, 11, 12, 14, 13]), Ok(()));
    assert_eq!(check_allocation(&[2, 1, 4, 3, 6, 5, 8, 7, 10, 9, 12, 11, 13, 14, 0, 15]), Ok(()));
}

#[test]
fn easy_run_check_takes_large_values() {
    assert_eq!(check_allocation(&[255; 16]), Ok(()));
    assert_eq!(
        check_allocation(&[251, 252, 253, 254, 255, 0, 0, 0, 0, 0, 0, 0, 0, 0, 0, 0]),
        Err(PazzleError::TooEasy)
    );
    assert_eq!(check_allocation(&[252, 253, 254, 255, 0, 1, 2, 3, 9, 9, 9, 9, 9, 9, 9, 9]), Ok(()));
}

#[test]
fn legality_matrix_blank_at_5() {
    for q in [1usize, 9, 4, 6] {
        let proposed = swapped(BLANK_AT_5, 5, q);
        assert_eq!(apply_move(&BLANK_AT_5, &proposed), Ok(proposed));
    }
    let wrapped = swapped(BLANK_AT_5, 5, 8);
    assert_eq!(apply_move(&BLANK_AT_5, &wrapped), Err(PazzleError::IllegalMove));
}

#[test]
fn row_boundary_is_not_crossed() {
    let blank_at_4 = [1, 2, 3, 4, 0, 5, 6, 7, 8, 9, 10, 11, 12, 13, 14, 15];
    assert_eq!(apply_move(&blank_at_4, &swapped(blank_at_4, 4, 3)), Err(PazzleError::IllegalMove));
    let blank_at_3 = swapped(blank_at_4, 4, 3);
    assert_eq!(apply_move(&blank_at_3, &blank_at_4), Err(PazzleError::IllegalMove));
    let blank_at_11 = [1, 2, 3, 4, 5, 6, 7, 8, 9, 10, 11, 0, 12, 13, 14, 15];
    assert_eq!(
        apply_move(&blank_at_11, &swapped(blank_at_11, 11, 12)),
        Err(PazzleError::IllegalMove)
    );
}

#[test]
fn all_moves_of_every_blank_position() {
    for p in 0..16usize {
        let mut board = [0u8; 16];
        let mut next = 1u8;
        for i in 0..16 {
            if i != p {
                board[i] = next;
                next += 1;
            }
        }
        for q in 0..16usize {
            if q == p {
                continue;
            }
            let touching = (p / 4 == q / 4 && p.abs_diff(q) == 1) || p.abs_diff(q) == 4;
            let proposed = swapped(board, p, q);
            let expected = if touching { Ok(proposed) } else { Err(PazzleError::IllegalMove) };
            assert_eq!(apply_move(&board, &proposed), expected);
        }
    }
}

#[test]
fn unchanged_board_is_no_move() {
    assert_eq!(apply_move(&BLANK_AT_5, &BLANK_AT_5), Err(PazzleError::NoMove));
}

#[test]
fn three_changed_cells_are_a_multi_move() {
    let mut proposed = BLANK_AT_5;
    // blank 5 -> 6 -> 7 in one go
    proposed[5] = BLANK_AT_5[6];
    proposed[6] = BLANK_AT_5[7];
    proposed[7] = 0;
    assert_eq!(apply_move(&BLANK_AT_5, &proposed), Err(PazzleError::MultiMove));
    assert_eq!(apply_move(&SOLVED, &BLANK_AT_5), Err(PazzleError::MultiMove));
}

#[test]
fn exchanging_two_tiles_is_illegal() {
    let proposed = swapped(BLANK_AT_5, 0, 1);
    assert_eq!(apply_move(&BLANK_AT_5, &proposed), Err(PazzleError::IllegalMove));
}

#[test]
fn malformed_boards_are_no_moves() {
    let mut bad = BLANK_AT_5;
    bad[0] = 16;
    assert_eq!(apply_move(&BLANK_AT_5, &bad), Err(PazzleError::MalformedConfiguration));
    assert_eq!(apply_move(&bad, &BLANK_AT_5), Err(PazzleError::MalformedConfiguration));
    let mut twice = BLANK_AT_5;
    twice[4] = twice[6];
    assert_eq!(apply_move(&BLANK_AT_5, &twice), Err(PazzleError::MalformedConfiguration));
    assert_eq!(apply_move(&bad, &bad), Err(PazzleError::MalformedConfiguration));
}

#[test]
fn a_move_can_be_taken_back() {
    for q in [1usize, 9, 4, 6] {
        let there = apply_move(&BLANK_AT_5, &swapped(BLANK_AT_5, 5, q)).unwrap();
        assert_eq!(apply_move(&there, &BLANK_AT_5), Ok(BLANK_AT_5));
    }
}

#[test]
fn two_moves_are_not_one() {
    let first = apply_move(&BLANK_AT_5, &swapped(BLANK_AT_5, 5, 6)).unwrap();
    let second = apply_move(&first, &swapped(first, 6, 10)).unwrap();
    assert_eq!(apply_move(&BLANK_AT_5, &second), Err(PazzleError::MultiMove));
    let back = apply_move(&first, &BLANK_AT_5).unwrap();
    assert_eq!(apply_move(&BLANK_AT_5, &back), Err(PazzleError::NoMove));
}
