
use bee_chess::book::artifact::{self, BookCandidate, BookEntry, FormatError};
use bee_chess::book::experience::{BookProbe, ExperienceBook, OpeningContext};
use bee_chess::book::key::book_position_key;
use bee_chess::book::OpeningBook;
use bee_chess::chess::{Move, MoveFlag, Position, Square};

fn book_with(entries: Vec<BookEntry>) -> ExperienceBook {
    let mut bytes = Vec::new();
    artifact::write(&entries, &mut bytes).unwrap();
    ExperienceBook::from_bytes(&bytes).unwrap()
}

fn e4() -> Move {
    Move::new(
        Square::from_file_rank(4, 1),
        Square::from_file_rank(4, 3),
        MoveFlag::DoublePawnPush,
    )
}

#[test]
fn probes_a_known_position_and_returns_its_stats() {
    let startpos_key = book_position_key(&Position::startpos());
    let book = book_with(vec![BookEntry {
        key: startpos_key,
        candidates: vec![BookCandidate {
            mv: e4(),
            weight: 731,
            games: 37,
            score_per_mille: 581,
        }],
    }]);

    let position = Position::startpos();
    let probe = book
        .probe(&OpeningContext {
            position: &position,
            moves: &[],
        })
        .expect("should hit");

    assert_eq!(probe.mv, e4());
    assert_eq!(probe.games, Some(37));
    assert_eq!(probe.score_per_mille, Some(581));
}

#[test]
fn an_unknown_position_is_a_miss() {
    let book = book_with(Vec::new());
    let position = Position::startpos();
    assert_eq!(
        book.probe(&OpeningContext {
            position: &position,
            moves: &[],
        }),
        None
    );
}

#[test]
fn picks_the_highest_weight_candidate() {
    let startpos_key = book_position_key(&Position::startpos());
    let d4 = Move::new(
        Square::from_file_rank(3, 1),
        Square::from_file_rank(3, 3),
        MoveFlag::DoublePawnPush,
    );
    let book = book_with(vec![BookEntry {
        key: startpos_key,
        candidates: vec![
            BookCandidate {
                mv: e4(),
                weight: 800,
                games: 40,
                score_per_mille: 600,
            },
            BookCandidate {
                mv: d4,
                weight: 500,
                games: 20,
                score_per_mille: 550,
            },
        ],
    }]);

    let position = Position::startpos();
    let probe = book
        .probe(&OpeningContext {
            position: &position,
            moves: &[],
        })
        .unwrap();
    assert_eq!(probe.mv, e4());
}

#[test]
fn skips_a_top_candidate_that_is_not_currently_legal_and_falls_back_to_the_next_one() {
    // A position where the book's "best" candidate happens not to
    // be legal right now (simulating stale/corrupt data, or a
    // future encoding mismatch) -- ExperienceBook must not trust
    // the artifact blindly and must fall through to the next
    // legal candidate instead of returning an illegal move.
    let startpos_key = book_position_key(&Position::startpos());
    let illegal = Move::new(
        Square::from_file_rank(4, 3), // e4 -- not a legal *origin* from startpos
        Square::from_file_rank(4, 4),
        MoveFlag::Quiet,
    );
    let book = book_with(vec![BookEntry {
        key: startpos_key,
        candidates: vec![
            BookCandidate {
                mv: illegal,
                weight: 900,
                games: 5,
                score_per_mille: 999,
            },
            BookCandidate {
                mv: e4(),
                weight: 500,
                games: 40,
                score_per_mille: 600,
            },
        ],
    }]);

    let position = Position::startpos();
    let probe = book
        .probe(&OpeningContext {
            position: &position,
            moves: &[],
        })
        .unwrap();
    assert_eq!(probe.mv, e4());
}

#[test]
fn every_candidate_illegal_is_a_miss_not_a_panic() {
    let startpos_key = book_position_key(&Position::startpos());
    let illegal = Move::new(
        Square::from_file_rank(4, 3),
        Square::from_file_rank(4, 4),
        MoveFlag::Quiet,
    );
    let book = book_with(vec![BookEntry {
        key: startpos_key,
        candidates: vec![BookCandidate {
            mv: illegal,
            weight: 900,
            games: 5,
            score_per_mille: 999,
        }],
    }]);

    let position = Position::startpos();
    assert_eq!(
        book.probe(&OpeningContext {
            position: &position,
            moves: &[],
        }),
        None
    );
}

#[test]
fn malformed_bytes_are_an_error_not_a_panic() {
    assert!(ExperienceBook::from_bytes(b"not a book").is_err());
}

#[test]
fn truncated_bytes_are_an_error_not_a_panic() {
    let startpos_key = book_position_key(&Position::startpos());
    let entries = vec![BookEntry {
        key: startpos_key,
        candidates: vec![BookCandidate {
            mv: e4(),
            weight: 731,
            games: 37,
            score_per_mille: 581,
        }],
    }];
    let mut bytes = Vec::new();
    artifact::write(&entries, &mut bytes).unwrap();
    bytes.truncate(bytes.len() - 3);

    assert!(ExperienceBook::from_bytes(&bytes).is_err());
}

#[test]
fn an_unsupported_format_version_is_rejected() {
    let mut bytes = Vec::new();
    artifact::write(&[], &mut bytes).unwrap();
    bytes[7] = 0xFF; // format_version low byte, right after the 7-byte magic
    assert!(matches!(
        ExperienceBook::from_bytes(&bytes),
        Err(FormatError::UnsupportedFormatVersion { .. })
    ));
}

#[test]
fn an_empty_book_reports_zero_length() {
    let book = book_with(Vec::new());
    assert_eq!(book.len(), 0);
    assert!(book.is_empty());
}

fn candidate(mv: Move, weight: u16) -> BookCandidate {
    BookCandidate {
        mv,
        weight,
        games: 0x0102_0304,
        score_per_mille: 500,
    }
}

fn quiet(from: u8, to: u8) -> Move {
    Move::new(Square::new(from), Square::new(to), MoveFlag::Quiet)
}

#[test]
fn an_artifact_has_the_documented_bytes() {
    let entries = vec![BookEntry {
        key: 0x1122_3344_5566_7788,
        candidates: vec![candidate(e4(), 258)],
    }];
    let mut bytes = vec![9];
    artifact::write(&entries, &mut bytes).unwrap();
    let expected: Vec<u8> = vec![
        9, b'B', b'E', b'E', b'B', b'O', b'O', b'K', 1, 0, 1, 0, 1, 0, 0, 0, 0x88, 0x77, 0x66, 0x55,
        0x44, 0x33, 0x22, 0x11, 1, 0, 12, 28, 1, 2, 1, 4, 3, 2, 1, 0xF4, 1,
    ];
    assert_eq!(bytes, expected);
}

#[test]
fn a_book_reads_back_with_its_candidates_heaviest_first() {
    let (a, b, c) = (quiet(8, 16), quiet(9, 17), quiet(10, 18));
    let entries = vec![
        BookEntry {
            key: 7,
            candidates: vec![candidate(a, 5), candidate(b, 9), candidate(c, 5)],
        },
        BookEntry {
            key: 3,
            candidates: Vec::new(),
        },
    ];
    let mut bytes = Vec::new();
    artifact::write(&entries, &mut bytes).unwrap();
    bytes.push(0); // whatever follows is not looked at
    let read = artifact::read(&bytes).unwrap();
    assert_eq!(read.len(), 2);
    assert_eq!(read[0].key, 7);
    assert_eq!(
        read[0].candidates,
        vec![candidate(b, 9), candidate(a, 5), candidate(c, 5)]
    );
    assert_eq!(read[1].key, 3);
    assert!(read[1].candidates.is_empty());
}

#[test]
fn each_way_to_be_malformed_has_its_error() {
    let entries = vec![BookEntry {
        key: 7,
        candidates: vec![candidate(e4(), 1)],
    }];
    let mut good = Vec::new();
    artifact::write(&entries, &mut good).unwrap();
    assert!(matches!(artifact::read(b"BEEBO"), Err(FormatError::Truncated)));
    assert!(matches!(artifact::read(b"not a book"), Err(FormatError::BadMagic)));
    for len in 7..good.len() {
        assert!(matches!(artifact::read(&good[..len]), Err(FormatError::Truncated)));
    }
    let mut bytes = good.clone();
    bytes[8] = 1;
    assert!(matches!(
        artifact::read(&bytes),
        Err(FormatError::UnsupportedFormatVersion { found: 0x0101 })
    ));
    let mut bytes = good.clone();
    bytes[9] = 2;
    assert!(matches!(
        artifact::read(&bytes),
        Err(FormatError::UnsupportedKeySchemeVersion { found: 2 })
    ));
    for (at, value) in [(25, 64), (26, 64), (27, 9)] {
        let mut bytes = good.clone();
        bytes[at] = value;
        assert!(matches!(artifact::read(&bytes), Err(FormatError::InvalidMove)));
    }
}

#[test]
fn too_many_candidates_are_not_written() {
    let entries = vec![BookEntry {
        key: 7,
        candidates: vec![candidate(e4(), 1); 65_536],
    }];
    let mut bytes = vec![1, 2];
    assert_eq!(artifact::write(&entries, &mut bytes), Err(FormatError::TooLarge));
    assert_eq!(bytes, vec![1, 2]);
}

#[test]
fn of_two_entries_for_a_position_the_later_one_counts() {
    let key = book_position_key(&Position::startpos());
    let d4 = Move::new(
        Square::from_file_rank(3, 1),
        Square::from_file_rank(3, 3),
        MoveFlag::DoublePawnPush,
    );
    let book = book_with(vec![
        BookEntry {
            key,
            candidates: vec![candidate(e4(), 9)],
        },
        BookEntry {
            key: key ^ 1,
            candidates: vec![candidate(e4(), 9)],
        },
        BookEntry {
            key,
            candidates: vec![candidate(d4, 1)],
        },
    ]);
    assert_eq!(book.len(), 2);
    assert!(!book.is_empty());
    assert_eq!(OpeningBook::probe(&book, &Position::startpos()), Some(d4));
}

#[test]
fn the_heaviest_legal_candidate_is_picked_whatever_the_order() {
    let key = book_position_key(&Position::startpos());
    let book = book_with(vec![BookEntry {
        key,
        candidates: vec![
            candidate(quiet(8, 16), 3),
            candidate(e4(), 8),
            candidate(quiet(28, 36), 9),
        ],
    }]);
    let position = Position::startpos();
    assert_eq!(
        book.probe(&OpeningContext {
            position: &position,
            moves: &[],
        }),
        Some(BookProbe {
            mv: e4(),
            games: Some(0x0102_0304),
            score_per_mille: Some(500),
        })
    );
}
