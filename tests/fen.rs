use chess_fen::{position_to_bit, CastlingRights, Color, Game, ParseError, PieceType, Square};

const START: &str = "rnbqkbnr/pppppppp/8/8/8/8/PPPPPPPP/RNBQKBNR w KQkq - 0 1";

fn piece_at(game: &Game, sq: usize) -> Option<(Color, PieceType)> {
    match game.squares[sq] {
        Square::Empty => None,
        Square::Occupied(k) => Some((game.pieces[k].color, game.pieces[k].piece_type)),
    }
}

fn with_fields(placement: &str, rest: &str) -> String {
    format!("{} {}", placement, rest)
}

#[test]
fn standard_position_decodes() {
    let game = Game::read_FEN(START).unwrap();
    assert_eq!(game.active_color, Color::White);
    assert_eq!(game.castling_rights, CastlingRights::all());
    assert_eq!(game.en_passant, None);
    assert_eq!(game.halfmove_clock, 0);
    assert_eq!(game.fullmove_number, 1);
    assert_eq!(game.squares.len(), 64);
    assert_eq!(game.pieces.len(), 32);
    assert_eq!(piece_at(&game, 0), Some((Color::White, PieceType::Rook)));
    assert_eq!(piece_at(&game, 4), Some((Color::White, PieceType::King)));
    assert_eq!(piece_at(&game, 60), Some((Color::Black, PieceType::King)));
    assert_eq!(piece_at(&game, 59), Some((Color::Black, PieceType::Queen)));
    for sq in 16..48 {
        assert_eq!(piece_at(&game, sq), None);
    }
}

#[test]
fn initialize_matches_standard_record() {
    let decoded = Game::read_FEN(START).unwrap();
    let start = Game::initialize();
    for sq in 0..64 {
        assert_eq!(piece_at(&decoded, sq), piece_at(&start, sq));
    }
    assert_eq!(decoded.active_color, start.active_color);
    assert_eq!(decoded.castling_rights, start.castling_rights);
    assert_eq!(decoded.en_passant, start.en_passant);
    assert_eq!(decoded.halfmove_clock, start.halfmove_clock);
    assert_eq!(decoded.fullmove_number, start.fullmove_number);
}

#[test]
fn every_piece_stands_on_the_square_that_refers_to_it() {
    let game = Game::read_FEN("rnbqkbnr/pp1ppppp/8/2p5/4P3/5N2/PPPP1PPP/RNBQKB1R b - - 1 2").unwrap();
    let mut referenced = 0;
    for sq in 0..64 {
        if let Square::Occupied(k) = game.squares[sq] {
            assert_eq!(game.pieces[k].position, 1u64 << sq);
            referenced += 1;
        }
    }
    assert_eq!(referenced, game.pieces.len());
    assert_eq!(game.pieces[0].position, position_to_bit("a8").unwrap());
    assert_eq!(piece_at(&game, 21), Some((Color::White, PieceType::Knight)));
    assert_eq!(piece_at(&game, 28), Some((Color::White, PieceType::Pawn)));
    assert_eq!(piece_at(&game, 34), Some((Color::Black, PieceType::Pawn)));
    assert_eq!(piece_at(&game, 6), None);
}

#[test]
fn active_color_white_and_black() {
    let board = "rnbqkbnr/pppppppp/8/8/8/8/PPPPPPPP/RNBQKBNR";
    assert_eq!(Game::read_FEN(&with_fields(board, "w KQkq - 0 1")).unwrap().active_color, Color::White);
    assert_eq!(Game::read_FEN(&with_fields(board, "b KQkq - 0 1")).unwrap().active_color, Color::Black);
}

#[test]
fn unknown_color_is_rejected() {
    let board = "rnbqkbnr/pppppppp/8/8/8/8/PPPPPPPP/RNBQKBNR";
    assert_eq!(Game::read_FEN(&with_fields(board, "x KQkq - 0 1")).err(), Some(ParseError::UnknownColor));
    assert_eq!(Game::read_FEN(&with_fields(board, "white KQkq - 0 1")).err(), Some(ParseError::UnknownColor));
}

#[test]
fn missing_fields_are_rejected() {
    assert_eq!(Game::read_FEN("rnbqkbnr/pppppppp/8/8/8/8/PPPPPPPP/RNBQKBNR w KQkq - 0").err(), Some(ParseError::MissingField));
    assert_eq!(Game::read_FEN("").err(), Some(ParseError::MissingField));
}

#[test]
fn fields_after_the_sixth_are_ignored() {
    let game = Game::read_FEN("rnbqkbnr/pppppppp/8/8/8/8/PPPPPPPP/RNBQKBNR w KQkq - 3 7 extra").unwrap();
    assert_eq!(game.halfmove_clock, 3);
    assert_eq!(game.fullmove_number, 7);
}

#[test]
fn all_sixteen_castling_subsets() {
    let right_chars = ["K", "Q", "k", "q"];
    for i in 0u8..16 {
        let mut rights = String::new();
        for j in 0..4 {
            if (i >> j) & 1 != 0 {
                rights.push_str(right_chars[j]);
            }
        }
        if rights.is_empty() {
            rights.push('-');
        }
        let fen = format!("rnbqkbnr/pppppppp/8/8/8/8/PPPPPPPP/RNBQKBNR w {} - 0 1", rights);
        let game = Game::read_FEN(&fen).unwrap();
        assert_eq!(game.castling_rights.bits(), i);
    }
}

#[test]
fn repeated_castling_characters_are_idempotent() {
    let game = Game::read_FEN("rnbqkbnr/pppppppp/8/8/8/8/PPPPPPPP/RNBQKBNR w KKq - 0 1").unwrap();
    assert_eq!(game.castling_rights, CastlingRights::white_kingside().union(CastlingRights::black_queenside()));
}

#[test]
fn stray_castling_character_is_rejected() {
    assert_eq!(
        Game::read_FEN("rnbqkbnr/pppppppp/8/8/8/8/PPPPPPPP/RNBQKBNR w KZ - 0 1").err(),
        Some(ParseError::InvalidCastlingChar)
    );
}

#[test]
fn en_passant_none_and_square() {
    let none = Game::read_FEN("rnbqkbnr/pppppppp/8/8/8/8/PPPPPPPP/RNBQKBNR w KQkq - 0 1").unwrap();
    assert_eq!(none.en_passant, None);
    let some = Game::read_FEN("rnbqkbnr/pppppppp/8/8/8/8/PPPPPPPP/RNBQKBNR w KQkq e3 0 1").unwrap();
    assert_eq!(some.en_passant, Some(1u64 << 20));
}

#[test]
fn malformed_en_passant_is_rejected() {
    let board = "rnbqkbnr/pppppppp/8/8/8/8/PPPPPPPP/RNBQKBNR";
    assert_eq!(Game::read_FEN(&with_fields(board, "w - i1 0 1")).err(), Some(ParseError::InvalidColumn));
    assert_eq!(Game::read_FEN(&with_fields(board, "w - a9 0 1")).err(), Some(ParseError::InvalidRow));
    assert_eq!(Game::read_FEN(&with_fields(board, "w - a12 0 1")).err(), Some(ParseError::InvalidLength));
}

#[test]
fn move_clocks_are_read() {
    let game = Game::read_FEN("rnbqkbnr/pppppppp/8/8/8/8/PPPPPPPP/RNBQKBNR w - - 42 137").unwrap();
    assert_eq!(game.halfmove_clock, 42);
    assert_eq!(game.fullmove_number, 137);
    let plus = Game::read_FEN("rnbqkbnr/pppppppp/8/8/8/8/PPPPPPPP/RNBQKBNR w - - +3 1").unwrap();
    assert_eq!(plus.halfmove_clock, 3);
}

#[test]
fn non_numeric_clocks_are_rejected() {
    let board = "rnbqkbnr/pppppppp/8/8/8/8/PPPPPPPP/RNBQKBNR";
    assert_eq!(Game::read_FEN(&with_fields(board, "w - - x 1")).err(), Some(ParseError::InvalidHalfmove));
    assert_eq!(Game::read_FEN(&with_fields(board, "w - - -1 1")).err(), Some(ParseError::InvalidHalfmove));
    assert_eq!(Game::read_FEN(&with_fields(board, "w - - + 1")).err(), Some(ParseError::InvalidHalfmove));
    assert_eq!(
        Game::read_FEN(&with_fields(board, "w - - 99999999999999999999999 1")).err(),
        Some(ParseError::InvalidHalfmove)
    );
    assert_eq!(Game::read_FEN(&with_fields(board, "w - - 0 y")).err(), Some(ParseError::InvalidFullmove));
    assert_eq!(Game::read_FEN(&with_fields(board, "w - - 0 0")).err(), Some(ParseError::InvalidFullmove));
}

#[test]
fn malformed_placement_is_rejected() {
    let rest = "w KQkq - 0 1";
    assert_eq!(
        Game::read_FEN(&with_fields("rnbqkbnrp/pppppppp/8/8/8/8/PPPPPPPP/RNBQKBNR", rest)).err(),
        Some(ParseError::RankOverflow)
    );
    assert_eq!(
        Game::read_FEN(&with_fields("rnbqkbnr/pppppppp/9/8/8/8/PPPPPPPP/RNBQKBNR", rest)).err(),
        Some(ParseError::InvalidPieceChar)
    );
    assert_eq!(
        Game::read_FEN(&with_fields("rnbqkbnr/pppppppp/44P/8/8/8/PPPPPPPP/RNBQKBNR", rest)).err(),
        Some(ParseError::RankOverflow)
    );
    assert_eq!(
        Game::read_FEN(&with_fields("rnbqkbn/pppppppp/8/8/8/8/PPPPPPPP/RNBQKBNR", rest)).err(),
        Some(ParseError::WrongSquareCount)
    );
    assert_eq!(
        Game::read_FEN(&with_fields("rnbqkbnr/pppppppp/8/8/8/PPPPPPPP/RNBQKBNR", rest)).err(),
        Some(ParseError::WrongSquareCount)
    );
    assert_eq!(
        Game::read_FEN(&with_fields("rnbqkbnr/pppppppp/8/8/8/8/8/PPPPPPPP/RNBQKBNR", rest)).err(),
        Some(ParseError::WrongSquareCount)
    );
    assert_eq!(
        Game::read_FEN(&with_fields("rnbqxbnr/pppppppp/8/8/8/8/PPPPPPPP/RNBQKBNR", rest)).err(),
        Some(ParseError::InvalidPieceChar)
    );
}

#[test]
fn board_text_of_the_start() {
    let expected = "r n b q k b n r \np p p p p p p p \na6b6c6d6e6f6g6h6\na5b5c5d5e5f5g5h5\n\
                    a4b4c4d4e4f4g4h4\na3b3c3d3e3f3g3h3\nP P P P P P P P \nR N B Q K B N R \n";
    assert_eq!(Game::initialize().to_string(), expected);
    assert_eq!(Game::read_FEN(START).unwrap().to_string(), expected);
}

#[test]
fn piece_text_is_letter_and_space() {
    let decoded = Game::read_FEN(START).unwrap();
    assert_eq!(decoded.pieces[0].to_string(), "r ");
    assert_eq!(decoded.pieces[4].to_string(), "k ");
    assert_eq!(decoded.pieces[8].to_string(), "p ");
    assert_eq!(decoded.pieces[16].to_string(), "P ");
    assert_eq!(decoded.pieces[24].to_string(), "R ");
    assert_eq!(decoded.pieces[27].to_string(), "Q ");
    assert_eq!(decoded.pieces[28].to_string(), "K ");
}
