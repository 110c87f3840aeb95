use bee_chess::chess::{Move, MoveFlag, PieceKind, Position, Square};
use bee_chess::search::mate_in_plies;
use bee_chess::tablebase::{
    decode_move, piece_count, record_root, record_wdl, Backend, ProbePosition, Syzygy,
    TablebaseStats, Wdl, DEFAULT_PROBE_LIMIT, PROBE_CHECKMATE, PROBE_FAILED, PROBE_STALEMATE,
    TABLEBASE_WIN,
};

/// A configuration with tables of up to three pieces.
fn tables() -> Syzygy {
    let mut tb = Syzygy::default();
    assert_eq!(tb.set_path("tables", |_| Ok(3)).unwrap(), 3);
    tb
}

/// A prober that says that everything is a draw.
fn draw(_: ProbePosition) -> Option<u32> {
    Some(2)
}

/// A prober that must not be asked.
fn never(_: ProbePosition) -> Option<u32> {
    panic!("the prober was asked")
}

#[test]
fn disabled_missing_and_out_of_range_fall_back() {
    let pos = Position::from_fen("k7/P7/2K5/8/8/8/8/8 w - - 0 1").unwrap();
    let mut tb = Syzygy::default();
    let mut stats = TablebaseStats::default();
    assert_eq!(tb.probe_wdl(&pos, &mut stats, never), None);
    assert_eq!(
        tb.set_path("/bee/nonexistent/syzygy", |_| Ok(0)).unwrap(),
        0
    );
    assert_eq!(tb.probe_wdl(&pos, &mut stats, never), None);
    tb = tables();
    tb.set_limit(2);
    assert_eq!(tb.probe_wdl(&pos, &mut stats, never), None);
    tb.set_limit(0);
    assert_eq!(tb.probe_wdl(&pos, &mut stats, never), None);
    assert_eq!(stats.probes, 0);
    tb.set_limit(7);
    assert!(tb.probe_wdl(&pos, &mut stats, draw).is_some());
    tb.set_path("", |_| panic!("nothing to load")).unwrap();
    assert_eq!(tb.probe_wdl(&pos, &mut stats, never), None);
    let mut backend = Backend::new();
    assert!(tb
        .set_path("bad\0path", |path| backend.load(path, |_| Some(3)))
        .is_err());
    assert_eq!(tb.probe_wdl(&pos, &mut stats, never), None);
}

#[test]
fn invalid_positions_never_enter_fathom() {
    let tb = tables();
    let mut stats = TablebaseStats::default();
    for fen in [
        "8/8/8/8/8/8/8/8 w - - 0 1",
        "8/8/8/8/8/8/4K3/4k3 w - - 0 1",
        "k7/8/2K5/8/8/8/8/P7 w - - 0 1",
        "k7/P7/2K5/8/8/8/8/8 w K - 0 1",
        "k7/P7/2K5/8/8/8/8/8 w - e3 0 1",
        "k7/P7/2K5/8/8/8/8/8 w - e6 0 1",
        "k7/P7/2K5/8/8/8/8/8 w - - 100 1",
    ] {
        assert_eq!(
            tb.probe_wdl(&Position::from_fen(fen).unwrap(), &mut stats, never),
            None,
            "{fen}"
        );
    }
    assert_eq!(stats.probes, 0);
}

#[test]
fn decisive_wdl_needs_a_reset_clock_but_cursed_results_are_draws() {
    assert_eq!(Wdl::Win.search_score(0), Some(TABLEBASE_WIN));
    assert_eq!(Wdl::Loss.search_score(0), Some(-TABLEBASE_WIN));
    assert_eq!(Wdl::Win.search_score(99), None);
    assert_eq!(Wdl::Loss.search_score(1), None);
    for wdl in [Wdl::Draw, Wdl::BlessedLoss, Wdl::CursedWin] {
        assert_eq!(wdl.search_score(99), Some(0));
    }
    assert_eq!(mate_in_plies(TABLEBASE_WIN), None);
}

#[test]
fn root_promotion_matches_bees_legal_move() {
    let tb = tables();
    let pos = Position::from_fen("8/4P1k1/4K3/8/8/8/8/8 w - - 0 1").unwrap();
    let moves = pos.generate_legal_moves();
    // A win by promoting on e8 to a queen: from e7 (52) to e8 (60).
    let answer = 4 | 60 << 4 | 52 << 10 | 1 << 16;
    let (wdl, _, mv) = tb
        .probe_root(&pos, &moves, &mut TablebaseStats::default(), |_| {
            Some(answer)
        })
        .unwrap();
    assert_eq!(wdl, Wdl::Win);
    assert_eq!(mv.flag().promotion_kind(), Some(PieceKind::Queen));
    for (code, kind) in [
        (1, PieceKind::Queen),
        (2, PieceKind::Rook),
        (3, PieceKind::Bishop),
        (4, PieceKind::Knight),
    ] {
        let raw = (mv.from().index() as u32) << 10 | (mv.to().index() as u32) << 4 | code << 16;
        assert_eq!(
            decode_move(raw, &moves).unwrap().flag().promotion_kind(),
            Some(kind)
        );
    }
}

#[test]
fn en_passant_bitboards_preserve_color_and_square() {
    let pos = Position::from_fen("k7/8/8/3pP3/8/8/8/7K w - d6 0 1").unwrap();
    let p = ProbePosition::new(&pos, 4).unwrap();
    assert_eq!(p.ep, 43);
    assert_eq!(p.turn, 1);
    assert_eq!(p.pawns, (1u64 << 35) | (1u64 << 36));
    assert_eq!(p.white, (1u64 << 7) | (1u64 << 36));
}

#[test]
fn bitboards_hold_one_bit_per_piece() {
    let pos = Position::from_fen("q6k/8/8/8/8/8/N7/B3K2R b - - 0 1").unwrap();
    let p = ProbePosition::new(&pos, 7).unwrap();
    assert_eq!(p.white, 1 | 1 << 4 | 1 << 7 | 1 << 8);
    assert_eq!(p.black, 1 << 56 | 1 << 63);
    assert_eq!(p.kings, 1 << 4 | 1 << 63);
    assert_eq!(p.queens, 1 << 56);
    assert_eq!(p.rooks, 1 << 7);
    assert_eq!(p.bishops, 1);
    assert_eq!(p.knights, 1 << 8);
    assert_eq!(p.pawns, 0);
    assert_eq!(p.ep, 0);
    assert_eq!(p.turn, 0);
    assert_eq!(piece_count(&pos), 6);
    assert_eq!(ProbePosition::new(&pos, 5), None);
}

#[test]
fn en_passant_squares_without_a_pawn_beyond_them_are_rejected() {
    for (fen, sound) in [
        ("k7/8/8/8/3Pp3/8/8/7K b - d3 0 1", true),
        ("k7/8/8/8/4p3/8/8/7K b - d3 0 1", false),
        ("k7/8/8/8/3pp3/8/8/7K b - d3 0 1", false),
        ("k7/8/8/8/3Pp3/3N4/8/7K b - d3 0 1", false),
        ("k7/8/3P4/8/4p3/8/8/7K b - d6 0 1", false),
    ] {
        let pos = Position::from_fen(fen).unwrap();
        assert_eq!(ProbePosition::new(&pos, 7).is_some(), sound, "{fen}");
    }
}

#[test]
fn every_answer_is_counted_and_only_outcomes_are_hits() {
    let mut stats = TablebaseStats::default();
    assert_eq!(record_wdl(0, &mut stats), Some(Wdl::Loss));
    assert_eq!(record_wdl(1, &mut stats), Some(Wdl::BlessedLoss));
    assert_eq!(record_wdl(2, &mut stats), Some(Wdl::Draw));
    assert_eq!(record_wdl(3, &mut stats), Some(Wdl::CursedWin));
    assert_eq!(record_wdl(4, &mut stats), Some(Wdl::Win));
    assert_eq!(record_wdl(PROBE_FAILED, &mut stats), None);
    assert_eq!((stats.probes, stats.hits, stats.draw_hits), (6, 5, 3));
}

#[test]
fn root_answers_carry_the_distance_to_zeroing() {
    let king = Move::new(Square::new(4), Square::new(12), MoveFlag::Quiet);
    let mut stats = TablebaseStats::default();
    let raw = 4 | 12 << 4 | 4 << 10 | 17 << 20;
    assert_eq!(
        record_root(raw, &[king], &mut stats),
        Some((Wdl::Win, 17, king))
    );
    assert_eq!(record_root(raw, &[], &mut stats), None);
    for over in [PROBE_FAILED, PROBE_CHECKMATE, PROBE_STALEMATE] {
        assert_eq!(record_root(over, &[king], &mut stats), None);
    }
    assert_eq!((stats.probes, stats.hits, stats.draw_hits), (5, 1, 0));
    // There is no fifth kind of promotion.
    assert_eq!(decode_move(raw | 5 << 16, &[king]), None);
}

#[test]
fn an_unavailable_prober_is_not_counted() {
    let tb = tables();
    let pos = Position::from_fen("k7/P7/2K5/8/8/8/8/8 w - - 0 1").unwrap();
    let mut stats = TablebaseStats::default();
    assert_eq!(tb.probe_wdl(&pos, &mut stats, |_| None), None);
    assert_eq!(
        tb.probe_root(&pos, &pos.generate_legal_moves(), &mut stats, |_| None),
        None
    );
    assert_eq!(stats, TablebaseStats::default());
}

#[test]
fn a_failed_path_forgets_the_old_tables() {
    let mut tb = tables();
    assert_eq!(tb.limit(), DEFAULT_PROBE_LIMIT);
    tb.set_limit(8);
    assert_eq!(tb.limit(), 7);
    assert_eq!(
        tb.set_path("elsewhere", |_| Err("no such place".to_string())),
        Err("no such place".to_string())
    );
    assert_eq!(tb.path(), "elsewhere");
    let pos = Position::from_fen("k7/P7/2K5/8/8/8/8/8 w - - 0 1").unwrap();
    assert_eq!(tb.position(&pos), None);
}

#[test]
fn a_backend_loads_a_path_once_until_it_forgets() {
    let mut backend = Backend::new();
    assert_eq!(backend.load("a", |_| Some(5)), Ok(5));
    assert_eq!(backend.load("a", |_| panic!("already loaded")), Ok(5));
    backend.forget();
    assert_eq!(backend.load("a", |_| Some(6)), Ok(6));
    assert_eq!(
        backend.load("b", |_| None),
        Err("could not initialize tablebases".to_string())
    );
    assert_eq!(
        backend.load("c\0", |_| Some(3)),
        Err("tablebase path contains a NUL byte".to_string())
    );
}
