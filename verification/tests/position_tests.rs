use temp_reversi::position::Position;

#[test]
fn test_position_creation() {
    let pos = Position::new(0, 0); // A1
    assert_eq!(pos.to_bit(), 1u64 << 0);
    assert_eq!(pos.to_string(), "A1");
}

#[test]
fn test_bitor_operator() {
    let p1 = Position::new(0, 0); // A1
    let p2 = Position::new(0, 1); // B1
    let p3 = Position::new(1, 0); // A2

    let pattern = p1 | p2 | p3;
    assert_eq!(pattern, (1u64 << 0) | (1u64 << 1) | (1u64 << 8));
}

#[test]
fn test_to_row_col() {
    let pos = Position::new(3, 5); // F4
    assert_eq!(pos.to_row_col().unwrap(), (3, 5));
}

#[test]
fn test_from_bit() {
    let bit = 1u64 << 0; // A1
    let pos = Position::from_bit(bit).unwrap();
    assert_eq!(pos.to_row_col().unwrap(), (0, 0));
}

#[test]
fn test_from_str() {
    let pos = Position::from_str("A1").unwrap();
    assert_eq!(pos.to_row_col().unwrap(), (0, 0));

    let pos = Position::from_str("H8").unwrap();
    assert_eq!(pos.to_row_col().unwrap(), (7, 7));

    assert!(Position::from_str("Z9").is_err());
    assert!(Position::from_str("AA").is_err());
}

#[test]
fn test_display() {
    let pos = Position::new(7, 7); // H8
    assert_eq!(pos.to_string(), "H8");
}

#[test]
fn from_bit_rejects_several_bits() {
    assert_eq!(
        Position::from_bit(0b11),
        Err("Invalid bit. Must be a single bit or 0.")
    );
    let pass = Position::from_bit(0).unwrap();
    assert_eq!(pass, Position::pass());
    assert_eq!(pass.to_row_col(), None);
    assert_eq!(pass.to_string(), "PASS");
}

#[test]
fn from_str_errors_and_pass() {
    assert_eq!(
        Position::from_str("A10"),
        Err("Invalid format. Expected format: A1".to_string())
    );
    assert_eq!(
        Position::from_str("I1"),
        Err("Position out of range. Valid range: A1 to H8".to_string())
    );
    assert_eq!(Position::from_str("PASS"), Ok(Position::pass()));
    assert_eq!(Position::from_str("c5").unwrap().to_u8(), 34);
}

#[test]
fn names_read_back_to_their_positions() {
    for idx in 0u8..=64 {
        let p = Position::from_u8(idx);
        assert_eq!(p.to_u8(), idx);
        assert_eq!(Position::from_str(&p.to_string()), Ok(p));
    }
    assert_eq!(Position::from_u8(200).to_u8(), 64);
}

#[test]
fn bit_and_index_agree() {
    for idx in 0u8..64 {
        let p = Position::from_u8(idx);
        assert_eq!(p.to_bit(), 1u64 << idx);
        assert_eq!(Position::from_bit(p.to_bit()), Ok(p));
        let (row, col) = p.to_row_col().unwrap();
        assert_eq!(Position::new(row, col), p);
    }
}
