use bee_chess::book::{CowOpeningBook, NoBook, OpeningBook};
use bee_chess::chess::{Move, Position};

#[test]
fn no_book_always_misses() {
    assert_eq!(NoBook.probe(&Position::startpos()), None);
}

#[test]
fn cow_book_plays_e3_from_the_start_position() {
    let mv = CowOpeningBook
        .probe(&Position::startpos())
        .expect("should hit");
    assert_eq!(mv.from(), "e2".parse().unwrap());
    assert_eq!(mv.to(), "e3".parse().unwrap());
}

#[test]
fn cow_book_continues_the_setup_after_e3() {
    let position =
        Position::from_fen("rnbqkbnr/pppppppp/8/8/8/4P3/PPPP1PPP/RNBQKBNR b KQkq - 0 1")
            .unwrap();
    // Black to move; White has already played e3. Probing from
    // Black's side should offer Black's own first setup step
    // (e7-e6), not react to White's move at all -- the book is
    // symmetric and per-side.
    let mv = CowOpeningBook.probe(&position).expect("should hit");
    assert_eq!(mv.from(), "e7".parse().unwrap());
    assert_eq!(mv.to(), "e6".parse().unwrap());
}

#[test]
fn cow_book_works_the_same_regardless_of_move_order_into_the_same_position() {
    // 1.e3 Nf6 2.d3, versus 1.d3 Nf6 2.e3 -- two different move
    // sequences (same reply from Black both times, since a
    // position needs someone to move on both sides) reaching the
    // exact same resulting position. Since `probe` is keyed by
    // position (piece placement), not by which moves got there,
    // both must offer the same next step (a knight reroute),
    // proving this isn't secretly keyed by ply count or move
    // history.
    fn find(position: &Position, from: &str, to: &str) -> Move {
        position
            .generate_legal_moves()
            .into_iter()
            .find(|mv| mv.from() == from.parse().unwrap() && mv.to() == to.parse().unwrap())
            .unwrap_or_else(|| panic!("{from}{to} should be legal here"))
    }

    let e3_nf6_d3 = {
        let mut position = Position::startpos();
        position.make_move(find(&position, "e2", "e3"));
        position.make_move(find(&position, "g8", "f6"));
        position.make_move(find(&position, "d2", "d3"));
        position
    };
    let d3_nf6_e3 = {
        let mut position = Position::startpos();
        position.make_move(find(&position, "d2", "d3"));
        position.make_move(find(&position, "g8", "f6"));
        position.make_move(find(&position, "e2", "e3"));
        position
    };

    assert_eq!(
        e3_nf6_d3.zobrist_hash(),
        d3_nf6_e3.zobrist_hash(),
        "should be the same position"
    );
    assert_eq!(
        CowOpeningBook.probe(&e3_nf6_d3),
        CowOpeningBook.probe(&d3_nf6_e3)
    );
    // After 1.e3 Nf6 2.d3, it's Black to move -- both White pawn
    // steps are already played, so the book offers Black's own
    // first pending step, not White's next one.
    let mv = CowOpeningBook.probe(&e3_nf6_d3).expect("should hit");
    assert_eq!(mv.from(), "e7".parse().unwrap());
    assert_eq!(mv.to(), "e6".parse().unwrap());
}

#[test]
fn cow_book_offers_d3_once_e3_is_already_played() {
    let position =
        Position::from_fen("rnbqkbnr/pppppppp/8/8/8/4P3/PPPP1PPP/RNBQKBNR w KQkq - 0 1")
            .unwrap();
    let mv = CowOpeningBook.probe(&position).expect("should hit");
    assert_eq!(mv.from(), "d2".parse().unwrap());
    assert_eq!(mv.to(), "d3".parse().unwrap());
}

#[test]
fn cow_book_falls_back_to_search_once_the_setup_is_blocked() {
    // e3 and d3 played, but the e2 square (where the king knight
    // should reroute to) is occupied by a bishop (an artificial
    // position -- not reachable via legal play -- purely to prove
    // "next step illegal" produces a miss rather than skipping
    // ahead to a later, out-of-order step).
    let position =
        Position::from_fen("rnbqkbnr/pppppppp/8/8/8/3PP3/PPP1BPPP/RNBQK1NR w KQkq - 0 1")
            .unwrap();
    assert_eq!(CowOpeningBook.probe(&position), None);
}

#[test]
fn cow_book_is_a_miss_once_the_setup_is_fully_built() {
    // The finished Cow shape: pawns on d3/e3, knights on b3/g3,
    // b1/g1/d2/e2 all vacated (a hand-built position, not
    // necessarily one reachable via legal play in this exact move
    // count, but a faithful "setup complete" board) -- nothing
    // left for this book to offer.
    let position =
        Position::from_fen("rnbqkbnr/pppppppp/8/8/8/1N1PP1N1/P1P2P1P/R1BQKB1R w KQkq - 0 1")
            .unwrap();
    assert_eq!(CowOpeningBook.probe(&position), None);
}
