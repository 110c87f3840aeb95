use bee_chess::search::{mate_in_plies, SCORE_MATE};

#[test]
fn mate_in_plies_recognizes_winning_mate_scores() {
    assert_eq!(mate_in_plies(SCORE_MATE), Some(0));
    assert_eq!(mate_in_plies(SCORE_MATE - 2), Some(2));
}

#[test]
fn mate_in_plies_recognizes_losing_mate_scores() {
    assert_eq!(mate_in_plies(-SCORE_MATE), Some(0));
    assert_eq!(mate_in_plies(-(SCORE_MATE - 2)), Some(-2));
}

#[test]
fn mate_in_plies_is_none_for_ordinary_scores() {
    assert_eq!(mate_in_plies(0), None);
    assert_eq!(mate_in_plies(900), None);
    assert_eq!(mate_in_plies(-900), None);
}

#[test]
fn shorter_mate_scores_higher_than_longer_mate() {
    let mate_in_2 = SCORE_MATE - 2;
    let mate_in_6 = SCORE_MATE - 6;
    assert!(mate_in_2 > mate_in_6);
}
