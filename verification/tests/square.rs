use bee_chess::chess::Square;

#[test]
fn a1_is_index_zero() {
    assert_eq!(Square::from_file_rank(0, 0).index(), 0);
    assert_eq!(Square::from_file_rank(0, 0).to_string(), "a1");
}

#[test]
fn h8_is_index_63() {
    assert_eq!(Square::from_file_rank(7, 7).index(), 63);
    assert_eq!(Square::from_file_rank(7, 7).to_string(), "h8");
}

#[test]
fn file_and_rank_round_trip() {
    for index in 0..64u8 {
        let square = Square::new(index);
        assert_eq!(Square::from_file_rank(square.file(), square.rank()), square);
    }
}
