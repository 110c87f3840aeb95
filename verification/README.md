# bee_chess

A UCI chess engine whose library is verified with Verus.

- `src/chess`: the board, FEN, move generation, legality, making and taking
  back moves, hashing, perft, attackers.
- `src/eval`: the evaluators, their symmetry and their bounds.
- `src/search`: alpha-beta search with a transposition table, quiescence, late
  move reductions and null moves; iterative deepening; time management.
  `search::model` says what each search finds; `search::laws`,
  `search::quiet_laws`, `search::line_laws`, `search::score_laws` and
  `search::clock_laws` say what follows from that. `search::reports` keeps a
  record of what is reported while a search deepens, and `search::looks` of what
  its deadlines and watches were asked and answered. `search::double` is the
  double-precision arithmetic of the time predictions, on integers.
- `src/book`: opening books, their keys, and the bytes of a book artifact.
- `src/tablebase.rs`: what is asked of Syzygy tables and what the answers mean.
- `src/engine.rs`: a game, its options, and how it is searched;
  `src/engine_laws.rs`: what holds over any number of calls.
- `src/uci`: commands, output lines, and the session as a state machine;
  `uci::run_laws` says what holds over any number of events.
- `app`: threads, streams and the tablebase prober around the library.

A position is modelled by `PositionView`: 64 squares, the side to move, castling
rights, the en passant square and two clocks. Everything else is stated over it.
