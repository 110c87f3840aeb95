use bee_chess::chess::Position;
use bee_chess::search::tt::{Bound, TranspositionTable, TtEntry, TtReuse};

fn entry(depth: u32) -> TtEntry {
    TtEntry::new(depth, 123, Bound::Exact, None, 0)
}

fn small_table() -> TranspositionTable {
    TranspositionTable::new(TtReuse::PerGame, 2)
}

#[test]
fn persistent_replacement_prefers_depth_and_age_without_flushing() {
    let mut table = small_table();
    table.begin_search();
    table.store((1, 0, 1), entry(8));
    table.store((2, 0, 1), entry(2));
    table.store((3, 0, 1), entry(1));
    assert!(
        table.probe(&(3, 0, 1)).is_none(),
        "retain deeper recent work"
    );

    table.begin_search();
    table.probe(&(1, 0, 1)); // Deep entry is also recently used.
    table.store((3, 0, 1), entry(1));
    assert!(table.probe(&(1, 0, 1)).is_some());
    assert!(table.probe(&(2, 0, 1)).is_none());
    assert!(table.probe(&(3, 0, 1)).is_some());
    assert_eq!(table.len(), 2);
    assert_eq!(table.tracked_keys(), 2);
}

#[test]
fn updating_an_existing_key_does_not_evict_another_entry() {
    let mut table = small_table();
    table.store((1, 0, 1), entry(4));
    table.store((2, 0, 1), entry(4));
    table.store((1, 0, 1), entry(5));
    assert_eq!(table.probe(&(1, 0, 1)).unwrap().depth, 5);
    assert_eq!(table.probe(&(2, 0, 1)).unwrap().depth, 4);
    assert_eq!(table.tracked_keys(), 2);
}

#[test]
fn history_fingerprint_tracks_other_repeatable_positions_and_counts() {
    let table = small_table();
    let position = Position::from_fen("4k3/8/8/8/8/8/8/4K3 w - - 3 10").unwrap();
    assert_ne!(
        table.history_key(&position, &[1, 2, 3]),
        table.history_key(&position, &[1, 4, 3])
    );
    assert_ne!(
        table.history_key(&position, &[1, 1, 3]),
        table.history_key(&position, &[1, 3])
    );
    assert_eq!(
        table.history_key(&position, &[1, 2, 3]),
        table.history_key(&position, &[2, 1, 3])
    );
    // Pawn moves/captures end the relevant repetition history.
    let reset = Position::startpos();
    assert_eq!(
        table.history_key(&reset, &[1, 2, 3]),
        table.history_key(&reset, &[4, 5, 3])
    );
}
