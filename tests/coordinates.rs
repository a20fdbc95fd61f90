use chess_fen::{bit_scan, bit_to_position, index_to_position, position_to_bit, ParseError};

#[test]
fn square_names_and_bits_round_trip() {
    for i in 0..64usize {
        let name = index_to_position(i);
        assert_eq!(position_to_bit(&name), Ok(1u64 << i));
        assert_eq!(bit_to_position(1u64 << i), Ok(name));
    }
}

#[test]
fn corner_square_names() {
    assert_eq!(index_to_position(0), "a1");
    assert_eq!(index_to_position(7), "h1");
    assert_eq!(index_to_position(8), "a2");
    assert_eq!(index_to_position(63), "h8");
    assert_eq!(index_to_position(54), "g7");
}

#[test]
fn square_bits_of_names() {
    assert_eq!(position_to_bit("a1"), Ok(1));
    assert_eq!(position_to_bit("h1"), Ok(1 << 7));
    assert_eq!(position_to_bit("g7"), Ok(1 << 54));
    assert_eq!(position_to_bit("h8"), Ok(1 << 63));
}

#[test]
fn malformed_square_names_are_rejected() {
    assert_eq!(position_to_bit("i1"), Err(ParseError::InvalidColumn));
    assert_eq!(position_to_bit("A1"), Err(ParseError::InvalidColumn));
    assert_eq!(position_to_bit("a9"), Err(ParseError::InvalidRow));
    assert_eq!(position_to_bit("a0"), Err(ParseError::InvalidRow));
    assert_eq!(position_to_bit("ax"), Err(ParseError::InvalidRow));
    assert_eq!(position_to_bit("a12"), Err(ParseError::InvalidLength));
    assert_eq!(position_to_bit("a"), Err(ParseError::InvalidLength));
    assert_eq!(position_to_bit(""), Err(ParseError::InvalidLength));
}

#[test]
fn zero_bit_names_no_square() {
    assert_eq!(bit_to_position(0), Err(ParseError::NoPiece));
}

#[test]
fn lowest_set_bit_names_the_square() {
    assert_eq!(bit_to_position(0b110), Ok("b1".to_string()));
    assert_eq!(bit_to_position((1 << 63) | (1 << 20)), Ok("e3".to_string()));
    assert_eq!(bit_scan(1 << 40), 40);
    assert_eq!(bit_scan(u64::MAX), 0);
    assert_eq!(bit_scan(1 << 63), 63);
}
