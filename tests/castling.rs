use chess_fen::CastlingRights;

#[test]
fn named_rights_have_one_bit_each() {
    assert_eq!(CastlingRights::none().bits(), 0);
    assert_eq!(CastlingRights::white_kingside().bits(), 1);
    assert_eq!(CastlingRights::white_queenside().bits(), 2);
    assert_eq!(CastlingRights::black_kingside().bits(), 4);
    assert_eq!(CastlingRights::black_queenside().bits(), 8);
    assert_eq!(CastlingRights::all().bits(), 15);
}

#[test]
fn union_and_containment() {
    let white = CastlingRights::white_kingside().union(CastlingRights::white_queenside());
    assert_eq!(white.bits(), 3);
    assert!(white.contains(CastlingRights::white_kingside()));
    assert!(!white.contains(CastlingRights::black_kingside()));
    assert!(CastlingRights::all().contains(white));
    assert!(white.contains(CastlingRights::none()));
    let mut rights = CastlingRights::none();
    assert!(rights.is_empty());
    rights.insert(CastlingRights::black_queenside());
    rights.insert(CastlingRights::black_queenside());
    assert_eq!(rights, CastlingRights::black_queenside());
    assert!(!rights.is_empty());
}

#[test]
fn from_bits_rejects_unknown_bits() {
    assert_eq!(CastlingRights::from_bits(15), Some(CastlingRights::all()));
    assert_eq!(CastlingRights::from_bits(0), Some(CastlingRights::none()));
    assert_eq!(CastlingRights::from_bits(16), None);
    assert_eq!(CastlingRights::from_bits(255), None);
}
