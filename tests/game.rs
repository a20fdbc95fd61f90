use chess_fen::{position_to_bit, CastlingRights, Color, Game, PieceType, Square};

fn get_initial_position() -> Game {
    let mut game = Game {
        pieces: vec![],
        squares: vec![],
        active_color: Color::White,
        castling_rights: CastlingRights::all(),
        en_passant: None,
        halfmove_clock: 0,
        fullmove_number: 1,
    };
    let mut piece_index = 0;

    let color = Color::White;

    game.push_piece_and_square(0, color, PieceType::Rook, &mut piece_index);
    game.push_piece_and_square(1, color, PieceType::Knight, &mut piece_index);
    game.push_piece_and_square(2, color, PieceType::Bishop, &mut piece_index);
    game.push_piece_and_square(3, color, PieceType::Queen, &mut piece_index);
    game.push_piece_and_square(4, color, PieceType::King, &mut piece_index);
    game.push_piece_and_square(5, color, PieceType::Bishop, &mut piece_index);
    game.push_piece_and_square(6, color, PieceType::Knight, &mut piece_index);
    game.push_piece_and_square(7, color, PieceType::Rook, &mut piece_index);

    for i in 8..16 {
        game.push_piece_and_square(i, color, PieceType::Pawn, &mut piece_index);
    }

    for _ in 16..48 {
        game.push_empty_square();
    }

    let color = Color::Black;
    for i in 48..56 {
        game.push_piece_and_square(i, color, PieceType::Pawn, &mut piece_index);
    }

    let offset = 56;
    game.push_piece_and_square(0 + offset, color, PieceType::Rook, &mut piece_index);
    game.push_piece_and_square(1 + offset, color, PieceType::Knight, &mut piece_index);
    game.push_piece_and_square(2 + offset, color, PieceType::Bishop, &mut piece_index);
    game.push_piece_and_square(3 + offset, color, PieceType::Queen, &mut piece_index);
    game.push_piece_and_square(4 + offset, color, PieceType::King, &mut piece_index);
    game.push_piece_and_square(5 + offset, color, PieceType::Bishop, &mut piece_index);
    game.push_piece_and_square(6 + offset, color, PieceType::Knight, &mut piece_index);
    game.push_piece_and_square(7 + offset, color, PieceType::Rook, &mut piece_index);

    game
}

#[test]
fn read_initial_position() {
    let game = Game::initialize();
    let default = get_initial_position();
    assert_eq!(game.active_color, Color::White);
    assert_eq!(game.castling_rights, CastlingRights::all());
    assert_eq!(game.en_passant, None);
    assert_eq!(game.halfmove_clock, 0);
    assert_eq!(game.fullmove_number, 1);
    for i in 0..64 {
        match (game.squares[i], default.squares[i]) {
            (Square::Empty, Square::Empty) => (),
            (Square::Occupied(idx1), Square::Occupied(idx2)) => {
                assert_eq!(game.pieces[idx1], default.pieces[idx2])
            }
            _ => panic!("Wrong square at index {}", i),
        }
    }
}

#[test]
fn read_fen_black_active() {
    let game = Game::read_FEN("rnbqkbnr/pp1ppppp/8/2p5/4P3/5N2/PPPP1PPP/RNBQKB1R b - - 1 2").unwrap();
    assert_eq!(game.active_color, Color::Black);
}

#[test]
fn read_fen_no_castling() {
    let game = Game::read_FEN("rnbqkbnr/pp1ppppp/8/2p5/4P3/5N2/PPPP1PPP/RNBQKB1R b - - 1 2").unwrap();
    assert_eq!(game.castling_rights, CastlingRights::none());
}

#[test]
fn read_fen_en_passant_allowed() {
    let en_passant_square = "g7";
    let game = Game::read_FEN(&format!(
        "rnbqkbnr/pp1ppppp/8/2p5/4P3/5N2/PPPP1PPP/RNBQKB1R b KQkq {} 1 2",
        en_passant_square
    ))
    .unwrap();
    assert_eq!(game.en_passant, Some(position_to_bit(en_passant_square).unwrap()));
}

#[test]
fn read_fen_moveclocks() {
    let game = Game::read_FEN("rnbqkbnr/pp1ppppp/7P/2p5/4P3/5N2/PPPP1PPP/RNBQKB1R b - g7 1 2").unwrap();
    assert_eq!(game.halfmove_clock, 1);
    assert_eq!(game.fullmove_number, 2);
}

#[test]
fn read_all_possible_castling_rights() {
    let mut rights = "".to_owned();
    let right_chars = ["K", "Q", "k", "q"];
    for i in 0..(2 ^ 4) {
        let bitflag_rights = CastlingRights::from_bits(i).unwrap();
        for j in 0..4 {
            if (i >> j) & 1 != 0 {
                rights.push_str(right_chars[j]);
            }
        }
        let fen = format!("rnbqkbnr/pppppppp/8/8/8/8/PPPPPPPP/RNBQKBNR w {} - 0 1", rights);
        let game = Game::read_FEN(&fen).unwrap();
        assert_eq!(game.castling_rights, bitflag_rights, "FEN: {}\n\n i: {}", fen, i);
        rights.clear();
    }
}
