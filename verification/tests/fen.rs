use check_buddy::{BoardMap, Piece, PieceType};

const START_FEN: &str = "rnbqkbnr/pppppppp/8/8/8/8/PPPPPPPP/RNBQKBNR w KQkq - 0 1";

fn count(board: &BoardMap, white: bool, kind: PieceType) -> usize {
    let mut n = 0;
    for r in 0..8 {
        for f in 0..8 {
            let p = board.get_piece([r, f]);
            if p.is_piece() && p.get_color() == !white && p.get_type() == Some(kind) {
                n += 1;
            }
        }
    }
    n
}

#[test]
fn round_trip_keeps_the_full_armies() {
    let board = BoardMap::from_fen(START_FEN);
    let fen = board.get_fen();
    let reparsed = BoardMap::from_fen(&fen);
    for &white in &[true, false] {
        assert_eq!(count(&reparsed, white, PieceType::Pawn), 8);
        assert_eq!(count(&reparsed, white, PieceType::Rook), 2);
        assert_eq!(count(&reparsed, white, PieceType::Knight), 2);
        assert_eq!(count(&reparsed, white, PieceType::Bishop), 2);
        assert_eq!(count(&reparsed, white, PieceType::Queen), 1);
        assert_eq!(count(&reparsed, white, PieceType::King), 1);
    }
    assert_eq!(reparsed.get_active_color(), board.get_active_color());
}

#[test]
fn serialization_of_the_starting_position() {
    let board = BoardMap::from_fen(START_FEN);
    assert_eq!(
        board.get_fen(),
        "rnbqkbnr/pppppppp/8/8/8/8/PPPPPPPP/RNBQKBNR w"
    );
}

#[test]
fn parse_places_pieces_on_the_right_squares() {
    let board = BoardMap::from_fen(START_FEN);
    assert_eq!(
        board.get_piece([0, 0]),
        Piece::Occupied { color: false, kind: PieceType::Rook }
    );
    assert_eq!(
        board.get_piece([0, 4]),
        Piece::Occupied { color: false, kind: PieceType::King }
    );
    assert_eq!(
        board.get_piece([1, 3]),
        Piece::Occupied { color: false, kind: PieceType::Pawn }
    );
    assert_eq!(
        board.get_piece([7, 3]),
        Piece::Occupied { color: true, kind: PieceType::Queen }
    );
    assert_eq!(
        board.get_piece([6, 7]),
        Piece::Occupied { color: true, kind: PieceType::Pawn }
    );
    assert!(!board.get_piece([4, 4]).is_piece());
    assert!(!board.get_active_color());
}

#[test]
fn parse_reads_black_to_move() {
    let board = BoardMap::from_fen("8/8/8/8/8/8/8/8 b - - 0 1");
    assert!(board.get_active_color());
}

#[test]
fn parse_without_color_token_defaults_to_white() {
    let board = BoardMap::from_fen("8/8/8/8/8/8/8/4k3");
    assert!(!board.get_active_color());
    assert_eq!(
        board.get_piece([0, 4]),
        Piece::Occupied { color: true, kind: PieceType::King }
    );
}

#[test]
fn unrecognized_letters_become_empty_placeholders() {
    let board = BoardMap::from_fen("x6X/8/8/8/8/8/8/8 w");
    assert!(!board.get_piece([7, 0]).is_piece());
    assert!(!board.get_piece([7, 7]).is_piece());
    // the placeholder keeps the letter's case as its shade
    assert_eq!(board.get_piece([7, 0]), Piece::Empty { dark: true });
    assert_eq!(board.get_piece([7, 7]), Piece::Empty { dark: false });
}

#[test]
fn digits_skip_squares() {
    let board = BoardMap::from_fen("3q4/8/8/8/8/8/8/8 w");
    assert_eq!(
        board.get_piece([7, 3]),
        Piece::Occupied { color: true, kind: PieceType::Queen }
    );
    for f in 0..3 {
        assert!(!board.get_piece([7, f]).is_piece());
    }
    for f in 4..8 {
        assert!(!board.get_piece([7, f]).is_piece());
    }
}

#[test]
fn serialization_uses_run_lengths() {
    let board = BoardMap::from_fen("8/3p4/8/8/8/8/8/3Q4 b");
    assert_eq!(board.get_fen(), "8/3p4/8/8/8/8/8/3Q4 b");
}

#[test]
fn moved_board_serializes_the_new_placement() {
    let mut board = BoardMap::from_fen(START_FEN);
    assert!(board.move_turn([1, 4], [3, 4]));
    assert_eq!(
        board.get_fen(),
        "rnbqkbnr/pppppppp/8/8/4P3/8/PPPP1PPP/RNBQKBNR b"
    );
}

#[test]
fn render_shows_ranks_footer_and_turn() {
    let board = BoardMap::from_fen("8/8/8/8/8/8/8/4K3 w");
    let expected = "8 ........\n\
                    7 ........\n\
                    6 ........\n\
                    5 ........\n\
                    4 ........\n\
                    3 ........\n\
                    2 ........\n\
                    1 ....K...\n  abcdefgh\nwhite to move\n";
    assert_eq!(board.render(), expected);

    let black = BoardMap::from_fen("8/8/8/8/8/8/8/8 b");
    assert!(black.render().ends_with("black to move\n"));
}
