use check_buddy::{BoardMap, PieceType};

const START_FEN: &str = "rnbqkbnr/pppppppp/8/8/8/8/PPPPPPPP/RNBQKBNR w KQkq - 0 1";

fn sorted(mut v: Vec<[usize; 2]>) -> Vec<[usize; 2]> {
    v.sort();
    v
}

fn boards_equal(a: &BoardMap, b: &BoardMap) -> bool {
    if a.get_active_color() != b.get_active_color() {
        return false;
    }
    for r in 0..8 {
        for f in 0..8 {
            if a.get_piece([r, f]) != b.get_piece([r, f]) {
                return false;
            }
        }
    }
    true
}

#[test]
fn legal_moves_subset_of_moves_everywhere() {
    let board = BoardMap::from_fen(START_FEN);
    for r in 0..8 {
        for f in 0..8 {
            let moves = board.gen_moves([r, f]);
            let legal = board.gen_legal_moves([r, f]);
            for m in &legal {
                assert!(moves.contains(m), "{:?} legal but not generated", m);
            }
        }
    }
}

#[test]
fn gen_legal_moves_leaves_board_untouched() {
    let board = BoardMap::from_fen(START_FEN);
    let copy = board;
    for r in 0..8 {
        for f in 0..8 {
            let _ = board.gen_legal_moves([r, f]);
        }
    }
    assert!(boards_equal(&board, &copy));
    assert_eq!(board.get_fen(), copy.get_fen());
}

#[test]
fn move_turn_flips_color_on_success() {
    let mut board = BoardMap::from_fen(START_FEN);
    assert!(!board.get_active_color());
    assert!(board.move_turn([1, 4], [3, 4]));
    assert!(board.get_active_color());
    assert!(board.move_turn([6, 4], [4, 4]));
    assert!(!board.get_active_color());
}

#[test]
fn move_turn_failure_leaves_board_unchanged() {
    let mut board = BoardMap::from_fen(START_FEN);
    let copy = board;

    // empty origin
    assert!(!board.move_turn([3, 3], [4, 3]));
    assert!(boards_equal(&board, &copy));

    // origin piece is not the active color
    assert!(!board.move_turn([6, 4], [5, 4]));
    assert!(boards_equal(&board, &copy));

    // illegal destination for the piece
    assert!(!board.move_turn([0, 0], [4, 4]));
    assert!(boards_equal(&board, &copy));
}

#[test]
fn rook_blocked_then_open_file() {
    let board = BoardMap::from_fen(START_FEN);
    assert_eq!(board.gen_legal_moves([0, 0]), Vec::<[usize; 2]>::new());

    // the same position with the pawn in front of the rook removed
    let open = BoardMap::from_fen("rnbqkbnr/pppppppp/8/8/8/8/1PPPPPPP/RNBQKBNR w KQkq - 0 1");
    let legal = sorted(open.gen_legal_moves([0, 0]));
    let expected = vec![[1, 0], [2, 0], [3, 0], [4, 0], [5, 0], [6, 0]];
    assert_eq!(legal, expected);
}

#[test]
fn knight_cornered_has_three_destinations() {
    let board = BoardMap::from_fen("8/8/8/8/8/8/8/1N6 w - - 0 1");
    let legal = sorted(board.gen_legal_moves([0, 1]));
    let expected = vec![[1, 3], [2, 0], [2, 2]];
    assert_eq!(legal, expected);
}

#[test]
fn pawn_double_step_with_open_path() {
    let board = BoardMap::from_fen("8/8/8/8/8/8/4P3/8 w - - 0 1");
    let moves = board.gen_moves([1, 4]);
    assert!(moves.contains(&[2, 4]));
    assert!(moves.contains(&[3, 4]));
}

#[test]
fn pawn_blocked_single_square_blocks_both() {
    let board = BoardMap::from_fen("8/8/8/8/8/4p3/4P3/8 w - - 0 1");
    let moves = board.gen_moves([1, 4]);
    assert!(!moves.contains(&[2, 4]));
    assert!(!moves.contains(&[3, 4]));
    assert_eq!(moves, Vec::<[usize; 2]>::new());
}

#[test]
fn pawn_double_step_ignores_double_square_occupancy() {
    // only the single-step square gates the double step: with e3 empty
    // and e4 occupied, the double step is still generated
    let board = BoardMap::from_fen("8/8/8/8/4p3/8/4P3/8 w - - 0 1");
    let moves = board.gen_moves([1, 4]);
    assert!(moves.contains(&[2, 4]));
    assert!(moves.contains(&[3, 4]));
}

#[test]
fn black_pawn_advances_toward_rank_zero() {
    let board = BoardMap::from_fen("8/4p3/8/8/8/8/8/8 b - - 0 1");
    let moves = sorted(board.gen_moves([6, 4]));
    assert_eq!(moves, vec![[4, 4], [5, 4]]);
}

#[test]
fn king_may_not_step_into_attack() {
    // white king d4, black rook e1: the three e-file squares around the
    // king are generated but not legal
    let board = BoardMap::from_fen("8/8/8/8/3K4/8/8/4r3 w - - 0 1");
    let moves = board.gen_moves([3, 3]);
    for to in [[2usize, 4usize], [3, 4], [4, 4]] {
        assert!(moves.contains(&to));
    }
    let legal = sorted(board.gen_legal_moves([3, 3]));
    let expected = vec![[2, 2], [2, 3], [3, 2], [4, 2], [4, 3]];
    assert_eq!(legal, expected);
}

#[test]
fn pawn_diagonal_captures_only_opponents() {
    // black pawns on d3 and f3, a white pawn on e2
    let board = BoardMap::from_fen("8/8/8/8/8/3p1p2/4P3/8 w - - 0 1");
    let moves = sorted(board.gen_moves([1, 4]));
    assert_eq!(moves, vec![[2, 3], [2, 4], [2, 5], [3, 4]]);
}

#[test]
fn pinned_rook_cannot_leave_the_file() {
    // white king e1, white rook e2, black queen e7: the rook is pinned
    let board = BoardMap::from_fen("8/4q3/8/8/8/8/4R3/4K3 w - - 0 1");
    let moves = board.gen_moves([1, 4]);
    let legal = board.gen_legal_moves([1, 4]);
    assert!(moves.contains(&[1, 3]));
    assert!(!legal.contains(&[1, 3]));
    assert!(moves.contains(&[1, 5]));
    assert!(!legal.contains(&[1, 5]));
    // moves along the pin line stay legal, capture included
    assert!(legal.contains(&[2, 4]));
    assert!(legal.contains(&[6, 4]));
}

#[test]
fn is_valid_move_rejects_own_piece_capture() {
    let board = BoardMap::from_fen(START_FEN);
    assert!(!board.is_valid_move([0, 0], [1, 0]));
    assert!(board.is_valid_move([1, 4], [3, 4]));
    assert!(!board.is_valid_move([1, 4], [4, 4]));
}

#[test]
fn empty_square_generates_nothing() {
    let board = BoardMap::from_fen(START_FEN);
    assert_eq!(board.gen_moves([4, 4]), Vec::<[usize; 2]>::new());
    assert_eq!(board.gen_legal_moves([4, 4]), Vec::<[usize; 2]>::new());
}

#[test]
fn queen_combines_rook_and_bishop_rays() {
    let board = BoardMap::from_fen("8/8/8/8/3Q4/8/8/8 w - - 0 1");
    let legal = board.gen_legal_moves([3, 3]);
    // 7 squares on the rank, 7 on the file, 13 on the two diagonals
    assert_eq!(legal.len(), 27);
    assert!(legal.contains(&[3, 0]));
    assert!(legal.contains(&[0, 3]));
    assert!(legal.contains(&[0, 0]));
    assert!(legal.contains(&[7, 7]));
    assert!(legal.contains(&[0, 6]));
    assert!(!legal.contains(&[4, 5]));
}

#[test]
fn king_single_steps_only() {
    let board = BoardMap::from_fen("8/8/8/8/3K4/8/8/8 w - - 0 1");
    let legal = sorted(board.gen_legal_moves([3, 3]));
    let expected = vec![
        [2, 2],
        [2, 3],
        [2, 4],
        [3, 2],
        [3, 4],
        [4, 2],
        [4, 3],
        [4, 4],
    ];
    assert_eq!(legal, expected);
}

#[test]
fn capture_applies_and_replaces_piece() {
    // white queen d1 may capture the black pawn on d7
    let mut board = BoardMap::from_fen("8/3p4/8/8/8/8/8/3Q4 w - - 0 1");
    assert!(board.move_turn([0, 3], [6, 3]));
    let p = board.get_piece([6, 3]);
    assert!(p.is_piece());
    assert!(p.is_white());
    assert_eq!(p.get_type(), Some(PieceType::Queen));
    assert!(!board.get_piece([0, 3]).is_piece());
}

#[test]
fn generator_order_is_deterministic() {
    // pawn: single step before double step
    let pawn = BoardMap::from_fen("8/8/8/8/8/8/4P3/8 w - - 0 1");
    assert_eq!(pawn.gen_moves([1, 4]), vec![[2, 4], [3, 4]]);

    // knight: offsets in table order
    let knight = BoardMap::from_fen("8/8/8/8/8/8/8/1N6 w - - 0 1");
    assert_eq!(knight.gen_moves([0, 1]), vec![[1, 3], [2, 2], [2, 0]]);
    assert_eq!(knight.gen_legal_moves([0, 1]), vec![[1, 3], [2, 2], [2, 0]]);

    // two identical calls return identical vectors
    let board = BoardMap::from_fen("rnbqkbnr/pppppppp/8/8/8/8/PPPPPPPP/RNBQKBNR w KQkq - 0 1");
    for r in 0..8 {
        for f in 0..8 {
            assert_eq!(board.gen_legal_moves([r, f]), board.gen_legal_moves([r, f]));
        }
    }
}

#[test]
fn legal_moves_keep_gen_moves_order() {
    // the pinned rook: the filter removes the off-file squares and keeps
    // the rest in the raw generator's order
    let board = BoardMap::from_fen("8/4q3/8/8/8/8/4R3/4K3 w - - 0 1");
    let moves = board.gen_moves([1, 4]);
    let legal = board.gen_legal_moves([1, 4]);
    let expected: Vec<[usize; 2]> = moves
        .iter()
        .copied()
        .filter(|m| legal.contains(m))
        .collect();
    assert_eq!(legal, expected);
}

#[test]
fn opponent_moves_enumerates_the_idle_side() {
    // white to move: the opponent enumeration walks black's pieces in
    // row-major square order, keeping per-piece order and multiplicity
    let board = BoardMap::from_fen(START_FEN);
    let opp = board.gen_opponent_moves();
    // 8 pawns with two steps each, 2 knights with two targets each
    assert_eq!(opp.len(), 20);
    assert!(opp.contains(&[5, 0]));
    assert!(opp.contains(&[4, 7]));
    // a6 is reached by both the a7 pawn and the b8 knight
    assert_eq!(opp.iter().filter(|m| **m == [5, 0]).count(), 2);
}
