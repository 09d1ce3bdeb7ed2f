use chess_engine::evaluation::{
    evaluate, material, piece_owner, piece_to_value, Piece, Placement, Player, BOARD_SQUARES,
    MAX_PIECE_VALUE,
};

fn placement(pieces: Vec<Piece>) -> Placement {
    Placement::new(pieces).expect("no more pieces than squares")
}

fn initial_setup() -> Vec<Piece> {
    let mut pieces = vec![
        Piece::WRook,
        Piece::WKnight,
        Piece::WBishop,
        Piece::WQueen,
        Piece::WKing,
        Piece::WBishop,
        Piece::WKnight,
        Piece::WRook,
    ];
    pieces.extend(vec![Piece::WPawn; 8]);
    pieces.extend(vec![Piece::Empty; 32]);
    pieces.extend(vec![Piece::BPawn; 8]);
    pieces.extend(vec![
        Piece::BRook,
        Piece::BKnight,
        Piece::BBishop,
        Piece::BQueen,
        Piece::BKing,
        Piece::BBishop,
        Piece::BKnight,
        Piece::BRook,
    ]);
    pieces
}

#[test]
fn piece_values_follow_the_table() {
    assert_eq!(piece_to_value(Piece::WPawn), 100);
    assert_eq!(piece_to_value(Piece::BPawn), 100);
    assert_eq!(piece_to_value(Piece::WKnight), 320);
    assert_eq!(piece_to_value(Piece::BKnight), 320);
    assert_eq!(piece_to_value(Piece::WBishop), 330);
    assert_eq!(piece_to_value(Piece::BBishop), 330);
    assert_eq!(piece_to_value(Piece::WRook), 500);
    assert_eq!(piece_to_value(Piece::BRook), 500);
    assert_eq!(piece_to_value(Piece::WQueen), 900);
    assert_eq!(piece_to_value(Piece::BQueen), 900);
    assert_eq!(piece_to_value(Piece::WKing), 0);
    assert_eq!(piece_to_value(Piece::BKing), 0);
    assert_eq!(piece_to_value(Piece::Empty), 0);
    assert_eq!(MAX_PIECE_VALUE, 900);
}

#[test]
fn pieces_belong_to_their_colour() {
    for piece in [
        Piece::WPawn,
        Piece::WKnight,
        Piece::WBishop,
        Piece::WRook,
        Piece::WQueen,
        Piece::WKing,
    ] {
        assert_eq!(piece_owner(piece), Some(Player::White));
    }
    for piece in [
        Piece::BPawn,
        Piece::BKnight,
        Piece::BBishop,
        Piece::BRook,
        Piece::BQueen,
        Piece::BKing,
    ] {
        assert_eq!(piece_owner(piece), Some(Player::Black));
    }
    assert_eq!(piece_owner(Piece::Empty), None);
}

#[test]
fn initial_setup_is_balanced() {
    let board = placement(initial_setup());
    assert_eq!(board.len(), 64);
    assert_eq!(material(&board, Player::White), 4000);
    assert_eq!(material(&board, Player::Black), 4000);
    assert_eq!(evaluate(&board), 0);
}

#[test]
fn evaluate_is_white_material_less_black_material() {
    let samples = vec![
        vec![],
        vec![Piece::WKing, Piece::BKing],
        vec![Piece::WQueen, Piece::BRook, Piece::BPawn],
        vec![Piece::BQueen, Piece::BQueen, Piece::WKnight, Piece::Empty],
        vec![Piece::WPawn; 8],
        vec![Piece::BBishop, Piece::WBishop, Piece::WRook, Piece::BKnight, Piece::BPawn],
        initial_setup(),
    ];
    for pieces in samples {
        let board = placement(pieces);
        assert_eq!(
            evaluate(&board),
            material(&board, Player::White) - material(&board, Player::Black)
        );
    }
}

#[test]
fn evaluate_gives_exact_scores() {
    assert_eq!(evaluate(&placement(vec![])), 0);
    assert_eq!(evaluate(&placement(vec![Piece::WKing, Piece::BKing])), 0);
    assert_eq!(evaluate(&placement(vec![Piece::WQueen, Piece::BRook, Piece::BPawn])), 300);
    assert_eq!(evaluate(&placement(vec![Piece::BQueen, Piece::WKnight, Piece::WBishop])), -250);
    assert_eq!(evaluate(&placement(vec![Piece::BPawn])), -100);
}

#[test]
fn material_counts_only_the_side_asked_for() {
    let board = placement(vec![
        Piece::WQueen,
        Piece::WPawn,
        Piece::Empty,
        Piece::BRook,
        Piece::BKnight,
        Piece::BKing,
    ]);
    assert_eq!(material(&board, Player::White), 1000);
    assert_eq!(material(&board, Player::Black), 820);
}

#[test]
fn material_is_zero_without_pieces_of_a_kind() {
    let board = placement(vec![Piece::WKing, Piece::Empty, Piece::Empty]);
    assert_eq!(material(&board, Player::White), 0);
    assert_eq!(material(&board, Player::Black), 0);
    assert_eq!(evaluate(&board), 0);
}

#[test]
fn a_full_board_of_queens_is_the_greatest_score() {
    let white = placement(vec![Piece::WQueen; 64]);
    assert_eq!(evaluate(&white), 57_600);
    let black = placement(vec![Piece::BQueen; 64]);
    assert_eq!(evaluate(&black), -57_600);
}

#[test]
fn placement_holds_what_it_was_given() {
    let pieces = vec![Piece::BPawn, Piece::Empty, Piece::WRook];
    let board = placement(pieces.clone());
    assert_eq!(board.len(), 3);
    for (index, piece) in pieces.iter().enumerate() {
        assert_eq!(board.get(index), *piece);
    }
}

#[test]
fn placement_refuses_more_pieces_than_squares() {
    assert_eq!(BOARD_SQUARES, 64);
    assert!(Placement::new(vec![Piece::WPawn; 64]).is_some());
    assert!(Placement::new(vec![Piece::WPawn; 65]).is_none());
    assert!(Placement::new(vec![Piece::Empty; 1000]).is_none());
}

fn recoloured(piece: Piece) -> Piece {
    match piece {
        Piece::WPawn => Piece::BPawn,
        Piece::WKnight => Piece::BKnight,
        Piece::WBishop => Piece::BBishop,
        Piece::WRook => Piece::BRook,
        Piece::WQueen => Piece::BQueen,
        Piece::WKing => Piece::BKing,
        Piece::BPawn => Piece::WPawn,
        Piece::BKnight => Piece::WKnight,
        Piece::BBishop => Piece::WBishop,
        Piece::BRook => Piece::WRook,
        Piece::BQueen => Piece::WQueen,
        Piece::BKing => Piece::WKing,
        Piece::Empty => Piece::Empty,
    }
}

#[test]
fn recolouring_the_pieces_turns_the_score_round() {
    let samples = vec![
        vec![Piece::WQueen, Piece::BRook, Piece::BPawn],
        vec![Piece::BQueen, Piece::BQueen, Piece::WKnight, Piece::Empty, Piece::WKing],
        vec![Piece::WPawn; 8],
        initial_setup(),
    ];
    for pieces in samples {
        let swapped: Vec<Piece> = pieces.iter().map(|piece| recoloured(*piece)).collect();
        let board = placement(pieces);
        let mirror = placement(swapped);
        assert_eq!(evaluate(&mirror), -evaluate(&board));
        assert_eq!(material(&mirror, Player::White), material(&board, Player::Black));
        assert_eq!(material(&mirror, Player::Black), material(&board, Player::White));
    }
}
