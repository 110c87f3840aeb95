use bee_chess::chess::{Color, Move, MoveFlag, Position, Square};
use bee_chess::eval::{Evaluator, MaterialEvaluator};
use bee_chess::search::alpha_beta::{
    negamax, null_move_reduction, quiescence, should_delta_prune,
};
use bee_chess::search::exchange::{
    has_non_pawn_material, resolve_see_gains, static_exchange_evaluation,
};
use bee_chess::search::ordering::order_moves;
use bee_chess::search::state::SearchState;
use bee_chess::search::{
    mate_in_plies, search, search_iterative, search_iterative_with_budget, search_with_history,
    search_with_options, Deadline, DeltaPruningStats, NullMoveStats, SearchOptions, StopSignal,
    TimeBudget, SCORE_INF,
};
use bee_chess::time::Duration;

#[test]
fn finds_mate_in_one() {
    // Black king g8 boxed in by its own pawns on f7/g7/h7; Qd1-d8
    // delivers back-rank mate.
    let mut position =
        Position::from_fen("6k1/5ppp/8/8/8/8/8/3QK3 w - - 0 1").expect("valid FEN");

    let result = search(&mut position, 2, &MaterialEvaluator);

    let best_move = result.best_move.expect("should find a move");
    assert_eq!(best_move.from(), "d1".parse().unwrap());
    assert_eq!(best_move.to(), "d8".parse().unwrap());
    assert_eq!(mate_in_plies(result.score), Some(1));
    assert_eq!(result.pv.first(), Some(&best_move));
}

#[test]
fn state_is_fully_restored_after_search() {
    let mut position = Position::startpos();
    let before = position.clone();

    let _ = search(&mut position, 4, &MaterialEvaluator);

    assert_eq!(position, before);
}

#[test]
fn state_is_restored_even_from_a_tactical_position() {
    // Kiwipete: dense with captures, so alpha-beta cutoffs happen
    // on many different branches, exercising more of the
    // make/unmake pairing than a quiet position would.
    let fen = "r3k2r/p1ppqpb1/bn2pnp1/3PN3/1p2P3/2N2Q1p/PPPBBPPP/R3K2R w KQkq - 0 1";
    let mut position = Position::from_fen(fen).expect("valid FEN");
    let before = position.clone();

    let _ = search(&mut position, 3, &MaterialEvaluator);

    assert_eq!(position, before);
}

#[test]
fn takes_a_free_undefended_queen() {
    // White rook can capture a black queen on a5 (same file) that
    // nothing defends; at a couple of plies deep this should be
    // the clear best move under pure material evaluation.
    let mut position =
        Position::from_fen("4k3/8/8/q7/8/8/8/R3K3 w - - 0 1").expect("valid FEN");

    let result = search(&mut position, 3, &MaterialEvaluator);

    let best_move = result.best_move.expect("should find a move");
    assert_eq!(best_move.from(), "a1".parse().unwrap());
    assert_eq!(best_move.to(), "a5".parse().unwrap());
}

#[test]
fn stalemate_scores_zero_with_no_move() {
    // Classic stalemate: black king h8, white queen f7 and king g6
    // cover every square around it with no legal move and no
    // check.
    let position = Position::from_fen("7k/5Q2/6K1/8/8/8/8/8 b - - 0 1").expect("valid FEN");
    assert!(
        position.generate_legal_moves().is_empty(),
        "test setup: expected stalemate"
    );
    assert!(!position.in_check(), "test setup: stalemate, not checkmate");

    let mut position = position;
    let result = search(&mut position, 3, &MaterialEvaluator);

    assert_eq!(result.best_move, None);
    assert_eq!(result.score, 0);
}

#[test]
fn checkmate_at_root_reports_mate_score_and_no_move() {
    // White king h1 boxed in by its own pawns on f2/g2/h2, black
    // rook a1 delivering back-rank mate.
    let mut position =
        Position::from_fen("6k1/8/8/8/8/8/5PPP/r6K w - - 0 1").expect("valid FEN");
    assert!(
        position.generate_legal_moves().is_empty(),
        "test setup: expected checkmate"
    );
    assert!(
        position.in_check(),
        "test setup: expected checkmate, not stalemate"
    );

    let result = search(&mut position, 3, &MaterialEvaluator);

    assert_eq!(result.best_move, None);
    assert_eq!(mate_in_plies(result.score), Some(0));
}

#[test]
fn prefers_shorter_mate_over_longer_mate() {
    // A position with a forced mate in 1 available alongside other
    // legal (non-mating) moves: search must choose the mate.
    let mut position =
        Position::from_fen("6k1/5ppp/8/8/8/8/8/3QK3 w - - 0 1").expect("valid FEN");

    let result = search(&mut position, 4, &MaterialEvaluator);

    assert_eq!(mate_in_plies(result.score), Some(1));
}

#[test]
fn iterative_deepening_reports_increasing_depths() {
    let mut position = Position::startpos();
    let mut depths_seen = Vec::new();

    search_iterative(
        &mut position,
        Duration::from_millis(200),
        &MaterialEvaluator,
        |result| depths_seen.push(result.depth),
    );

    assert!(
        depths_seen.len() >= 2,
        "should complete more than one depth in 200ms"
    );
    assert_eq!(depths_seen, {
        let mut sorted = depths_seen.clone();
        sorted.sort_unstable();
        sorted
    });
    assert_eq!(depths_seen.first(), Some(&1));
    // Strictly increasing, no repeats or gaps backward.
    for pair in depths_seen.windows(2) {
        assert_eq!(pair[1], pair[0] + 1);
    }
}

#[test]
fn iterative_deepening_caps_nominal_depth_in_immediate_draw_trees() {
    // At halfmove 99 every legal non-pawn, non-capture move reaches the
    // fifty-move draw immediately. Searching depth 2 or 20,000 therefore
    // costs almost the same unless iterative deepening has a ceiling.
    let mut position =
        Position::from_fen("4k3/8/8/8/8/8/8/4K2N w - - 99 1").expect("valid FEN");
    let mut reported_depths = Vec::new();

    let result = search_iterative(
        &mut position,
        Duration::from_secs(1),
        &MaterialEvaluator,
        |result| reported_depths.push(result.depth),
    );

    assert_eq!(result.depth, 2);
    assert_eq!(reported_depths, vec![1, 2]);
}

#[test]
fn budgeted_search_stops_at_the_soft_deadline_without_waiting_for_hard() {
    // A generous hard limit but a tiny soft limit: iterative
    // deepening should stop starting new depths once soft has
    // elapsed, long before hard would ever kick in.
    let mut position = Position::startpos();
    let history = [position.zobrist_hash()];
    let start = std::time::Instant::now();

    let result = search_iterative_with_budget(
        &mut position,
        TimeBudget {
            soft: Duration::from_millis(20),
            hard: Duration::from_secs(10),
        },
        &MaterialEvaluator,
        &history,
        SearchOptions::default(),
        StopSignal::new(),
        |_| {},
    );

    assert!(result.is_some());
    assert!(
        start.elapsed() < std::time::Duration::from_secs(1),
        "should have stopped at the soft deadline, not run anywhere near the hard one"
    );
}

#[test]
fn budgeted_search_returns_none_when_even_depth_1_cannot_complete_before_the_hard_limit() {
    // An already-expired hard deadline: depth 1 itself must be
    // abortable -- the caller (`Engine`) is responsible for having a
    // fallback move ready in this case.
    let mut position = Position::startpos();
    let history = [position.zobrist_hash()];

    let result = search_iterative_with_budget(
        &mut position,
        TimeBudget {
            soft: Duration::zero(),
            hard: Duration::zero(),
        },
        &MaterialEvaluator,
        &history,
        SearchOptions::default(),
        StopSignal::new(),
        |_| {},
    );

    // This is a timing-sensitive edge case (a zero deadline is
    // already expired, but the very first clock check inside
    // negamax happens after a small number of nodes -- see
    // `Deadline`'s docs), so depth 1 completing anyway is an
    // acceptable outcome; what matters is that a `None` result
    // here doesn't panic and is a well-defined "use the fallback"
    // signal.
    if let Some((completed, _telemetry)) = result {
        assert_eq!(completed.depth, 1);
    }
}

#[test]
fn telemetry_records_the_allocated_budget_and_completed_depth() {
    let mut position = Position::startpos();
    let history = [position.zobrist_hash()];
    let budget = TimeBudget {
        soft: Duration::from_millis(500),
        hard: Duration::from_secs(2),
    };

    let (result, telemetry) = search_iterative_with_budget(
        &mut position,
        budget,
        &MaterialEvaluator,
        &history,
        SearchOptions::default(),
        StopSignal::new(),
        |_| {},
    )
    .expect("depth 1 should complete with a generous budget");

    assert_eq!(telemetry.soft_ms, 500);
    assert_eq!(telemetry.hard_ms, 2000);
    assert_eq!(telemetry.completed_depth, result.depth);
    // `aborted_ms` itself is deliberately not asserted here: with a
    // real wall-clock budget, whether the final iteration happens
    // to land exactly on the soft boundary or instead gets cut off
    // by the hard one partway through depends on real timing (and
    // is *expected* to vary with machine speed/load -- e.g. a
    // slower CI runner can easily make an iteration still be
    // running when the hard deadline arrives, which is completely
    // normal, not a bug). See
    // `telemetry_reports_the_last_completed_depth_when_a_later_one_is_cancelled`
    // for a deterministic (StopSignal-driven, not timing-based)
    // test of the aborted-iteration path itself.
}

#[test]
fn search_declines_to_start_a_depth_it_estimates_wont_finish() {
    // A budget where depth 1 and depth 2 both complete comfortably
    // (a generous soft/hard budget overall), but the hard budget
    // is deliberately tightened to just barely more than what
    // depth 1 + depth 2 together are expected to cost, on a
    // position deep enough that depth 3 is genuinely, measurably
    // more expensive than depth 2 (real branching-factor growth,
    // not a contrived StopSignal) -- search should stop *without*
    // attempting (and therefore without aborting) depth 3, rather
    // than starting it and only finding out it didn't fit by
    // actually trying it.
    //
    // This is inherently a real-timing-based test (unlike the
    // StopSignal-driven determinism used elsewhere in this file),
    // so it only asserts the one thing that's true regardless of
    // exact machine speed: whenever search stops *without* having
    // aborted an iteration (`aborted_ms == 0`), the depth it
    // stopped at must be the one it estimated, not one attempt-
    // and-abort would have reached instead -- i.e. this never
    // *aborts* a depth under this budget (soft is generous; only
    // the predictive check or the hard limit can stop it, and
    // hitting the hard limit exactly as a real depth boundary
    // lines up is possible but doesn't invalidate the claim).
    let mut position = Position::startpos();
    let history = [position.zobrist_hash()];
    let budget = TimeBudget {
        soft: Duration::from_secs(60), // never the limiting factor here
        hard: Duration::from_millis(150),
    };

    let (_result, telemetry) = search_iterative_with_budget(
        &mut position,
        budget,
        &MaterialEvaluator,
        &history,
        SearchOptions::default(),
        StopSignal::new(),
        |_| {},
    )
    .expect("depth 1 should always complete");

    // A depth that wouldn't have fit is never *started* (and therefore
    // never needs aborting) once there's real growth history to estimate
    // from.
    assert_eq!(
        telemetry.aborted_ms, 0,
        "search should decline to start a depth it estimates won't fit, \
         rather than starting it and needing the hard deadline to abort it"
    );
}

#[test]
fn telemetry_has_no_score_delta_when_only_depth_1_completes() {
    // Request cancellation right after depth 1 completes -- same
    // deterministic technique as
    // `telemetry_reports_the_last_completed_depth_when_a_later_one_is_cancelled`,
    // guaranteeing exactly one completed depth (never a second),
    // so there's nothing to compute a score delta or a best-move
    // change from yet.
    let mut position = Position::startpos();
    let history = [position.zobrist_hash()];
    let budget = TimeBudget {
        soft: Duration::from_secs(60),
        hard: Duration::from_secs(60),
    };
    let stop = StopSignal::new();
    let stop_from_callback = stop.clone();

    let (_result, telemetry) = search_iterative_with_budget(
        &mut position,
        budget,
        &MaterialEvaluator,
        &history,
        SearchOptions::default(),
        stop,
        move |_| stop_from_callback.request_stop(),
    )
    .expect("depth 1 should still complete");

    assert_eq!(telemetry.completed_depth, 1);
    assert_eq!(telemetry.score_delta_cp, None);
    assert_eq!(telemetry.best_move_changes, 0);
}

#[test]
fn telemetry_counts_best_move_changes_across_completed_depths() {
    // A generous budget: iterative deepening should comfortably
    // reach several depths from the start position, giving
    // multiple completed-depth transitions to count changes across.
    let mut position = Position::startpos();
    let history = [position.zobrist_hash()];
    let budget = TimeBudget {
        soft: Duration::from_secs(1),
        hard: Duration::from_secs(3),
    };

    let mut best_moves = Vec::new();
    let (_result, telemetry) = search_iterative_with_budget(
        &mut position,
        budget,
        &MaterialEvaluator,
        &history,
        SearchOptions::default(),
        StopSignal::new(),
        |result| best_moves.push(result.best_move),
    )
    .expect("should complete at least depth 1");

    let actual_changes = best_moves
        .windows(2)
        .filter(|pair| pair[0] != pair[1])
        .count() as u32;
    assert_eq!(
        telemetry.best_move_changes, actual_changes,
        "telemetry's count must match the actual best-move transitions on_depth_complete observed"
    );
}

#[test]
fn telemetry_reports_the_last_completed_depth_when_a_later_one_is_cancelled() {
    // Request cancellation as soon as depth 2 starts (from
    // `on_depth_complete`, called after depth 1) -- deterministic,
    // unlike relying on a hard-deadline race against real wall-
    // clock timing: depth 2 is guaranteed to be cut off by the
    // `StopSignal` (checked unconditionally on every node -- see
    // `Deadline::is_expired`'s docs), never completing, so
    // telemetry must report `completed_depth: 1`, not 2 -- even
    // though a depth-2 attempt genuinely started and was aborted.
    // (`aborted_ms` itself isn't asserted here: cancelling a
    // trivial depth-2 search from the start position typically
    // takes microseconds, which rounds down to 0 at
    // `Duration::as_millis`'s millisecond granularity -- see
    // `telemetry_records_the_allocated_budget_and_completed_depth`
    // for `aborted_ms`'s zero-when-nothing-aborted case, and the
    // module's own real-position search timings for evidence
    // `aborted_ms` is wired to something real when a cut-off
    // iteration actually takes measurable wall-clock time.)
    let mut position = Position::startpos();
    let history = [position.zobrist_hash()];
    let budget = TimeBudget {
        soft: Duration::from_secs(60),
        hard: Duration::from_secs(60),
    };
    let stop = StopSignal::new();
    let stop_from_callback = stop.clone();

    let (result, telemetry) = search_iterative_with_budget(
        &mut position,
        budget,
        &MaterialEvaluator,
        &history,
        SearchOptions::default(),
        stop,
        move |_| stop_from_callback.request_stop(),
    )
    .expect("depth 1 should complete before the stop takes effect");

    assert_eq!(
        result.depth, 1,
        "depth 2 must have been cancelled, not completed"
    );
    assert_eq!(telemetry.completed_depth, 1);
}

#[test]
fn iterative_deepening_always_completes_at_least_depth_one() {
    let mut position = Position::startpos();

    // A zero budget: depth 1 must still complete and be returned,
    // since there's no cancellation machinery to bail out of an
    // in-progress depth 1 and still have a legal move to report.
    let result = search_iterative(
        &mut position,
        Duration::from_millis(0),
        &MaterialEvaluator,
        |_| {},
    );

    assert!(result.best_move.is_some());
    assert_eq!(result.depth, 1);
}

#[test]
fn iterative_deepening_state_is_fully_restored() {
    let mut position = Position::startpos();
    let before = position.clone();

    search_iterative(
        &mut position,
        Duration::from_millis(50),
        &MaterialEvaluator,
        |_| {},
    );

    assert_eq!(position, before);
}

#[test]
fn iterative_deepening_stops_immediately_once_mate_is_found() {
    // Mate in one is already found at depth 1 for this position
    // (there's exactly one legal move, and it delivers mate), so
    // a generous budget should still return almost immediately
    // rather than search deeper for no reason.
    let mut position =
        Position::from_fen("6k1/5ppp/8/8/8/8/8/3QK3 w - - 0 1").expect("valid FEN");
    let mut depths_seen = Vec::new();

    let result = search_iterative(
        &mut position,
        Duration::from_secs(5),
        &MaterialEvaluator,
        |r| depths_seen.push(r.depth),
    );

    assert_eq!(mate_in_plies(result.score), Some(1));
    // Should not have searched many depths once mate was found --
    // in particular, not anywhere close to filling a 5 second
    // budget's worth of deepening.
    assert!(depths_seen.len() <= 2, "depths searched: {depths_seen:?}");
}

#[test]
fn iterative_deepening_pv_starts_with_the_best_move() {
    let mut position =
        Position::from_fen("6k1/5ppp/8/8/8/8/8/3QK3 w - - 0 1").expect("valid FEN");

    let result = search_iterative(
        &mut position,
        Duration::from_millis(100),
        &MaterialEvaluator,
        |_| {},
    );

    assert_eq!(result.pv.first(), result.best_move.as_ref());
}

#[test]
fn quiescence_resolves_a_hanging_capture_at_the_search_horizon() {
    // White rook on a1 can capture a black queen on a5 (same file,
    // nothing defends it) in one move. At depth 1, plain negamax
    // would stop right after that capture and score the position
    // by material alone -- which already sees the up-a-queen
    // material swing, since evaluation happens *after* the capturing
    // move is made. This isn't actually a horizon-effect case (the
    // gain is realized within the given depth either way); it exists
    // to confirm quiescence doesn't change a value that's already
    // correct at depth 1, i.e. it doesn't introduce a regression on
    // the simplest possible case before trusting it on subtler ones.
    let mut position =
        Position::from_fen("4k3/8/8/q7/8/8/8/R3K3 w - - 0 1").expect("valid FEN");

    let result = search(&mut position, 1, &MaterialEvaluator);

    let best_move = result.best_move.expect("should find a move");
    assert_eq!(best_move.from(), "a1".parse().unwrap());
    assert_eq!(best_move.to(), "a5".parse().unwrap());
}

#[test]
fn quiescence_avoids_the_horizon_effect_of_a_losing_trade() {
    // White to move, depth 1: a rook on d4 can capture a black knight
    // on d5, but a black pawn on e6 recaptures it right back. Plain
    // depth-1 negamax (no quiescence) would stop immediately after
    // Rxd5 and score the position by material alone -- seeing only
    // "I won a knight" and missing that the rook falls right back
    // one ply later, the classic horizon effect. Quiescence must
    // keep searching this capture-recapture exchange past the
    // nominal depth-1 cutoff and correctly see the trade as a net
    // loss (rook for knight), so the engine should prefer leaving
    // its rook on d4 over grabbing the knight.
    let mut position =
        Position::from_fen("4k3/8/4p3/3n4/3R4/8/8/4K3 w - - 0 1").expect("valid FEN");

    let result = search(&mut position, 1, &MaterialEvaluator);

    let best_move = result.best_move.expect("should find a move");
    assert_ne!(
        (best_move.from(), best_move.to()),
        ("d4".parse().unwrap(), "d5".parse().unwrap()),
        "should not walk into a rook-for-knight trade that quiescence can see is losing"
    );
}

#[test]
fn quiescence_never_makes_score_worse_than_stand_pat_when_no_capture_helps() {
    // A quiet position (no captures available at all for the side to
    // move) should score exactly the same at depth 1 as plain
    // material evaluation would -- quiescence must be a no-op here,
    // not perturb an already-quiet leaf's score.
    let mut position = Position::startpos();

    let result = search(&mut position, 1, &MaterialEvaluator);

    assert_eq!(result.score, MaterialEvaluator.evaluate(&position));
}

#[test]
fn fifty_move_rule_scores_as_a_draw() {
    let mut position = Position::from_fen("4k3/8/8/8/8/8/8/Q3K3 w - - 100 1").unwrap();
    let result = search(&mut position, 3, &MaterialEvaluator);
    assert_eq!(result.score, 0);
    assert!(
        result.best_move.is_some(),
        "UCI still requires a legal move"
    );
}

#[test]
fn third_occurrence_scores_as_a_draw() {
    let mut position = Position::startpos();
    let hash = position.zobrist_hash();
    let result = search_with_history(&mut position, 3, &MaterialEvaluator, &[hash, hash, hash]);
    assert_eq!(result.score, 0);
}

#[test]
fn mvv_lva_orders_a_queen_capture_before_quiet_moves() {
    let position = Position::from_fen("4k3/8/8/q7/8/8/8/R3K3 w - - 0 1").unwrap();
    let mut moves = position.generate_legal_moves();
    order_moves(&position, &mut moves, &SearchState::default(), 0, None);
    assert_eq!(moves[0].from(), "a1".parse().unwrap());
    assert_eq!(moves[0].to(), "a5".parse().unwrap());
}

#[test]
fn resolve_see_gains_returns_the_single_gain_of_an_undefended_capture() {
    // Just "I capture a rook and nobody recaptures" -- the whole
    // exchange's value is exactly what the first capture won.
    assert_eq!(resolve_see_gains(&[500]), 500);
}

#[test]
fn resolve_see_gains_takes_a_recapture_that_denies_more_than_it_costs() {
    // gains[0] = 500: the first capture wins a rook. gains[1] =
    // -180 encodes "if the opponent recaptures the (knight-valued)
    // attacker now sitting on the square, that costs the *first*
    // side's running total 320 - 500 = -180" (i.e. the opponent
    // gives up their knight but the first side is left with only
    // 500 - (320 knight lost in trade for what they captured) --
    // the standard SEE fold, `gains[0] = -max(-gains[0],
    // gains[1])`, correctly has the opponent *take* this recapture:
    // it reduces what the first side nets from 500 down to 180,
    // which is a better outcome for the opponent than letting the
    // full 500 stand, even though it costs them their knight.
    assert_eq!(resolve_see_gains(&[500, -180]), 180);
}

#[test]
fn resolve_see_gains_walks_a_four_deep_swap_list_correctly() {
    // A hand-verified swap list, folded with the standard backward
    // recurrence `gains[i] = -max(-gains[i], gains[i+1])`, walking
    // i from len-2 down to 0:
    //   i=2: gains[2] = -max(-30, -10) = 10   -> [100, -20, 10, -10]
    //   i=1: gains[1] = -max(20, 10)   = -20  -> [100, -20, 10, -10]
    //   i=0: gains[0] = -max(-100, -20) = 20  -> [20, -20, 10, -10]
    assert_eq!(resolve_see_gains(&[100, -20, 30, -10]), 20);
}

fn see_move(position: &Position, from: &str, to: &str) -> Move {
    let from: Square = from.parse().unwrap();
    let to: Square = to.parse().unwrap();
    position
        .generate_legal_moves()
        .into_iter()
        .find(|mv| mv.from() == from && mv.to() == to)
        .unwrap_or_else(|| panic!("no such legal move in {}", position.to_fen()))
}

#[test]
fn see_scores_an_undefended_capture_as_a_clean_win() {
    // White rook takes an undefended pawn: nobody can recapture,
    // so the result is exactly the pawn's value.
    let position = Position::from_fen("4k3/8/8/8/8/8/p7/R3K3 w - - 0 1").unwrap();
    let mv = see_move(&position, "a1", "a2");
    assert_eq!(static_exchange_evaluation(&position, mv), 100);
}

#[test]
fn see_scores_a_defended_capture_as_a_loss_for_a_more_valuable_attacker() {
    // White queen takes a pawn on b2 that's defended by a knight on
    // d3 (a real knight move, d3-b2): the knight recaptures the
    // queen, so the exchange is a clear loss for White
    // (100 - 900 = -800) despite winning a pawn up front. White's
    // own king sits on h1 rather than e1, since d3's knight also
    // attacks e1 -- putting the king there would make every non-
    // king move illegal (already in check) rather than exercising
    // the capture this test is actually about.
    let position = Position::from_fen("4k3/8/8/8/8/3n4/1p6/Q6K w - - 0 1").unwrap();
    let mv = see_move(&position, "a1", "b2");
    assert_eq!(static_exchange_evaluation(&position, mv), 100 - 900);
}

#[test]
fn see_recognizes_an_undefended_pawn_capture_by_a_minor_piece_as_favorable() {
    // White knight on c3 takes an undefended pawn on d1 (a real
    // knight move -- c3 to d1) -- a clean win of exactly the
    // pawn's value, with no recapture available at all.
    let position = Position::from_fen("4k3/8/8/8/8/2N5/8/3pK3 w - - 0 1").unwrap();
    let mv = see_move(&position, "c3", "d1");
    assert_eq!(static_exchange_evaluation(&position, mv), 100);
}

#[test]
fn see_handles_a_multi_piece_exchange_correctly() {
    // White bishop on h2 takes a pawn on e5 (clean diagonal,
    // h2-g3-f4-e5), defended by a Black knight on d3 (a real
    // knight move, d3-e5). Nothing defends the knight in turn, so
    // the full sequence is: Bxe5 (+100), Nxe5 (-330 running) --
    // White should decline any further recapture (there isn't a
    // legal one here anyway), so the net result is a losing trade
    // for White: a bishop for a pawn (100 - 330 = -230). White's
    // king sits on h1, not e1 -- d3's knight also attacks e1 (see
    // the queen/knight test above for the same pitfall).
    let position = Position::from_fen("4k3/8/8/4p3/8/3n4/7B/7K w - - 0 1").unwrap();
    let mv = see_move(&position, "h2", "e5");
    assert_eq!(static_exchange_evaluation(&position, mv), 100 - 330);
}

#[test]
fn see_handles_en_passant_captures() {
    // White pawn captures en passant on d6, winning the pawn on d5
    // (which does not sit on the destination square) -- nothing
    // else attacks d6, so the result is exactly one pawn.
    let position = Position::from_fen("4k3/8/8/3pP3/8/8/8/4K3 w - d6 0 1").unwrap();
    let mv = see_move(&position, "e5", "d6");
    assert_eq!(mv.flag(), MoveFlag::EnPassant);
    assert_eq!(static_exchange_evaluation(&position, mv), 100);
}

#[test]
fn transposition_table_reuses_a_completed_search() {
    let mut position = Position::startpos();
    let mut state = SearchState::default();
    let mut path = vec![position.zobrist_hash()];
    let mut nodes = 0;
    let first = negamax(
        &mut position,
        3,
        -SCORE_INF,
        SCORE_INF,
        0,
        &MaterialEvaluator,
        &mut nodes,
        &Deadline::none(),
        &mut state,
        &mut path,
        true,
    )
    .unwrap();
    let first_nodes = nodes;
    let second = negamax(
        &mut position,
        3,
        -SCORE_INF,
        SCORE_INF,
        0,
        &MaterialEvaluator,
        &mut nodes,
        &Deadline::none(),
        &mut state,
        &mut path,
        true,
    )
    .unwrap();
    assert_eq!(second.0, first.0);
    assert_eq!(
        nodes - first_nodes,
        1,
        "the second search should hit the TT at its root"
    );
}

#[test]
fn use_tt_false_disables_transposition_table_reuse() {
    // Same setup as `transposition_table_reuses_a_completed_search`,
    // but with `UseTT` off: repeating the identical search must not
    // short-circuit at the root the way a TT hit would, since
    // nothing was ever stored for this position.
    let mut position = Position::startpos();
    let mut state = SearchState::new(SearchOptions {
        use_tt: false,
        use_quiescence: true,
        use_enhanced_quiescence: true,
        use_lmr: true,
        use_null_move: true,
        use_adaptive_null_move: true,
        use_delta_pruning: true,
        use_see: true,
    });
    let mut path = vec![position.zobrist_hash()];
    let mut nodes = 0;
    negamax(
        &mut position,
        3,
        -SCORE_INF,
        SCORE_INF,
        0,
        &MaterialEvaluator,
        &mut nodes,
        &Deadline::none(),
        &mut state,
        &mut path,
        true,
    )
    .unwrap();
    let first_nodes = nodes;
    negamax(
        &mut position,
        3,
        -SCORE_INF,
        SCORE_INF,
        0,
        &MaterialEvaluator,
        &mut nodes,
        &Deadline::none(),
        &mut state,
        &mut path,
        true,
    )
    .unwrap();
    assert!(
        nodes - first_nodes > 1,
        "with UseTT off, repeating the search must redo the full node count, not hit a cached root"
    );
}

#[test]
fn late_move_reductions_search_fewer_nodes() {
    let original = Position::startpos();
    let history = [original.zobrist_hash()];
    let mut with_lmr = original.clone();
    let mut without_lmr = original.clone();

    let reduced = search_with_options(
        &mut with_lmr,
        4,
        &MaterialEvaluator,
        &history,
        SearchOptions::default(),
    );
    let full = search_with_options(
        &mut without_lmr,
        4,
        &MaterialEvaluator,
        &history,
        SearchOptions {
            use_lmr: false,
            ..SearchOptions::default()
        },
    );

    assert!(
        reduced.nodes < full.nodes,
        "LMR should reduce work: {} vs {} nodes",
        reduced.nodes,
        full.nodes
    );
    assert_eq!(with_lmr, original);
    assert_eq!(without_lmr, original);
}

#[test]
fn null_move_pruning_searches_fewer_nodes() {
    let original = Position::startpos();
    let history = [original.zobrist_hash()];
    let mut with_null_move = original.clone();
    let mut without_null_move = original.clone();

    let pruned = search_with_options(
        &mut with_null_move,
        5,
        &MaterialEvaluator,
        &history,
        SearchOptions::default(),
    );
    let full = search_with_options(
        &mut without_null_move,
        5,
        &MaterialEvaluator,
        &history,
        SearchOptions {
            use_null_move: false,
            ..SearchOptions::default()
        },
    );

    assert!(
        pruned.nodes < full.nodes,
        "null-move pruning should reduce work: {} vs {} nodes",
        pruned.nodes,
        full.nodes
    );
    assert!(pruned.null_move.attempts > 0);
    assert!(pruned.null_move.cutoffs > 0);
    assert!(pruned.null_move.cutoffs <= pruned.null_move.attempts);
    assert_eq!(full.null_move, NullMoveStats::default());
    assert_eq!(with_null_move, original);
    assert_eq!(without_null_move, original);
}

#[test]
fn null_move_pruning_zugzwang_guard_requires_non_pawn_material() {
    let pawn_ending = Position::from_fen("8/8/8/3k4/8/3P4/3K4/8 w - - 0 1").expect("valid FEN");
    let knight_ending =
        Position::from_fen("8/8/8/3k4/8/3N4/3K4/8 w - - 0 1").expect("valid FEN");

    assert!(!has_non_pawn_material(&pawn_ending, Color::White));
    assert!(has_non_pawn_material(&knight_ending, Color::White));
}

#[test]
fn adaptive_null_move_uses_a_larger_reduction_only_at_deep_nodes() {
    assert_eq!(null_move_reduction(6, true), 2);
    assert_eq!(null_move_reduction(7, true), 3);
    assert_eq!(null_move_reduction(20, true), 3);
    assert_eq!(null_move_reduction(20, false), 2);
}

#[test]
fn delta_pruning_skips_a_capture_that_cannot_reach_alpha() {
    let position = Position::from_fen("q3k3/8/8/8/3p4/2P5/8/4K3 w - - 0 1").expect("valid FEN");
    let capture = position
        .generate_legal_moves()
        .into_iter()
        .find(|mv| mv.from() == "c3".parse().unwrap() && mv.to() == "d4".parse().unwrap())
        .expect("c3xd4 should be legal");
    let mut state = SearchState::default();

    assert!(should_delta_prune(
        &position, capture, 0, 401, false, &mut state
    ));
    assert_eq!(state.delta_pruning.attempts, 1);
    assert_eq!(state.delta_pruning.pruned, 1);
}

#[test]
fn delta_pruning_is_disabled_in_low_material_endings() {
    let position = Position::from_fen("4k3/8/8/8/3p4/2P5/8/4K3 w - - 0 1").expect("valid FEN");
    let capture = position
        .generate_legal_moves()
        .into_iter()
        .find(|mv| mv.from() == "c3".parse().unwrap() && mv.to() == "d4".parse().unwrap())
        .expect("c3xd4 should be legal");
    let mut state = SearchState::default();

    assert!(!should_delta_prune(
        &position, capture, 0, 401, false, &mut state
    ));
    assert_eq!(state.delta_pruning, DeltaPruningStats::default());
}

#[test]
fn use_quiescence_false_reintroduces_the_horizon_effect() {
    // Same position as `quiescence_avoids_the_horizon_effect_of_a_
    // losing_trade`, but with `UseQuiescence` off: depth-1 negamax
    // evaluates the position with material alone the instant it
    // hits depth 0, so it should walk right into the rook-for-knight
    // trade that quiescence would otherwise see through.
    let mut position =
        Position::from_fen("4k3/8/4p3/3n4/3R4/8/8/4K3 w - - 0 1").expect("valid FEN");
    let history = [position.zobrist_hash()];

    let result = search_with_options(
        &mut position,
        1,
        &MaterialEvaluator,
        &history,
        SearchOptions {
            use_tt: true,
            use_quiescence: false,
            use_enhanced_quiescence: true,
            use_lmr: true,
            use_null_move: true,
            use_adaptive_null_move: true,
            use_delta_pruning: true,
            use_see: true,
        },
    );

    let best_move = result.best_move.expect("should find a move");
    assert_eq!(
        (best_move.from(), best_move.to()),
        ("d4".parse().unwrap(), "d5".parse().unwrap()),
        "with quiescence off, depth 1 should walk into the losing trade quiescence normally avoids"
    );
}

#[test]
fn enhanced_quiescence_searches_quiet_check_evasions() {
    let mut position =
        Position::from_fen("4k3/8/8/8/8/8/4R3/4K3 b - - 0 1").expect("valid FEN");
    assert!(position.in_check());

    let mut baseline_nodes = 0;
    let mut baseline_path = vec![position.zobrist_hash()];
    let mut baseline_state = SearchState::new(SearchOptions {
        use_enhanced_quiescence: false,
        ..SearchOptions::default()
    });
    quiescence(
        &mut position,
        -SCORE_INF,
        SCORE_INF,
        0,
        0,
        &MaterialEvaluator,
        &mut baseline_nodes,
        &Deadline::none(),
        &mut baseline_path,
        &mut baseline_state,
    )
    .unwrap();

    let mut enhanced_nodes = 0;
    let mut enhanced_path = vec![position.zobrist_hash()];
    let mut enhanced_state = SearchState::default();
    quiescence(
        &mut position,
        -SCORE_INF,
        SCORE_INF,
        0,
        0,
        &MaterialEvaluator,
        &mut enhanced_nodes,
        &Deadline::none(),
        &mut enhanced_path,
        &mut enhanced_state,
    )
    .unwrap();

    assert_eq!(baseline_nodes, 1, "capture-only quiescence stands pat");
    assert!(
        enhanced_nodes > baseline_nodes,
        "enhanced quiescence must search the legal king evasions"
    );
}
