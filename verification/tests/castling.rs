use bee_chess::chess::CastlingRights;

#[test]
fn all_grants_every_right() {
    let rights = CastlingRights::all();
    assert!(rights.white_kingside);
    assert!(rights.white_queenside);
    assert!(rights.black_kingside);
    assert!(rights.black_queenside);
}

#[test]
fn none_grants_no_rights() {
    assert_eq!(CastlingRights::none(), CastlingRights::default());
}
