//! Attack detection and check-based legality.
//!
//! `is_square_attacked` answers "is this square attacked by any piece of
//! `by_color`", by looking outward from the target square along each
//! attack pattern rather than generating every move for every piece of
//! `by_color` and checking destinations -- cheaper, and it doesn't care
//! whether `by_color` is the side to move (attack detection needs to
//! work for either side, and during legality checking it is always
//! asked about the side *not* to move).
//!
//! `generate_legal_moves` builds on this the simple way: generate
//! pseudo-legal moves, make each one, check whether the mover's own king
//! is now attacked, and keep only the moves where it isn't. A piece that
//! does not shield its unattacked king from a slider cannot uncover an
//! attack on it by moving away, so its moves are kept without being tried.

use super::movegen::{BISHOP_DIRECTIONS, KING_OFFSETS, KNIGHT_OFFSETS, ROOK_DIRECTIONS};
use super::moves::{Move, MoveFlag};
use super::piece::{Color, Piece, PieceKind};
use super::position::{Position, PositionView};
use super::square::{offset_square, Square};
use vstd::prelude::*;

verus! {

broadcast use {
    super::moves::lemma_move_squares,
    super::moves::move_round_trip,
    super::position::lemma_board_len,
    super::square::lemma_at_idx,
};

/// The offsets from a square to the squares on which a pawn of `color` that
/// attacks it would stand.
pub open spec fn pawn_origins(color: Color) -> Seq<(i8, i8)> {
    match color {
        Color::White => seq![(-1i8, -1i8), (1i8, -1i8)],
        Color::Black => seq![(-1i8, 1i8), (1i8, 1i8)],
    }
}

impl PositionView {
    /// Whether square `i` holds exactly this piece.
    pub open spec fn holds(self, i: int, kind: PieceKind, color: Color) -> bool {
        self.board[i] == Some(Piece { kind, color })
    }

    /// Whether stepping from `cur` by `(df, dr)`, over empty squares only,
    /// arrives at `to`.
    pub open spec fn reaches(self, cur: int, to: int, df: int, dr: int) -> bool
        decreases super::movegen::ray_room(cur, df, dr),
        when super::movegen::is_direction(df, dr) && 0 <= cur < 64
    {
        match Square::shifted(cur, df, dr) {
            None => false,
            Some(next) => next == to || (self.board[next] is None && self.reaches(
                next,
                to,
                df,
                dr,
            )),
        }
    }

    /// Whether a bishop on `from` attacks `to`.
    pub open spec fn reaches_diagonally(self, from: int, to: int) -> bool {
        self.reaches(from, to, 1, 1) || self.reaches(from, to, 1, -1) || self.reaches(
            from,
            to,
            -1,
            1,
        ) || self.reaches(from, to, -1, -1)
    }

    /// Whether a rook on `from` attacks `to`.
    pub open spec fn reaches_straight(self, from: int, to: int) -> bool {
        self.reaches(from, to, 1, 0) || self.reaches(from, to, -1, 0) || self.reaches(
            from,
            to,
            0,
            1,
        ) || self.reaches(from, to, 0, -1)
    }

    /// Whether a piece of the given kind and color on `from` attacks `to`.
    pub open spec fn attack_pattern(self, from: int, to: int, kind: PieceKind, color: Color) -> bool {
        let df = to % 8 - from % 8;
        let dr = to / 8 - from / 8;
        match kind {
            PieceKind::Pawn => (df == 1 || df == -1) && dr == color.forward(),
            PieceKind::Knight => ((df == 1 || df == -1) && (dr == 2 || dr == -2)) || ((df == 2 || df
                == -2) && (dr == 1 || dr == -1)),
            PieceKind::King => -1 <= df <= 1 && -1 <= dr <= 1 && (df != 0 || dr != 0),
            PieceKind::Bishop => self.reaches_diagonally(from, to),
            PieceKind::Rook => self.reaches_straight(from, to),
            PieceKind::Queen => self.reaches_diagonally(from, to) || self.reaches_straight(from, to),
        }
    }

    /// Whether square `from` holds a piece of `color` that attacks `to`.
    pub open spec fn attacks(self, from: int, to: int, color: Color) -> bool {
        self.board[from] matches Some(piece) && piece.color == color && self.attack_pattern(
            from,
            to,
            piece.kind,
            color,
        )
    }

    /// Whether any piece of `color` attacks `sq`.
    pub open spec fn attacked(self, sq: int, color: Color) -> bool {
        exists|from: int| 0 <= from < 64 && #[trigger] self.attacks(from, sq, color)
    }

    /// The first of the offsets, from the `k`-th on, that leads from `sq` to a
    /// square holding exactly this piece: that square.
    pub open spec fn jump_origin(
        self,
        sq: int,
        offsets: Seq<(i8, i8)>,
        k: nat,
        kind: PieceKind,
        color: Color,
    ) -> Option<int>
        decreases offsets.len() - k,
    {
        if k >= offsets.len() {
            None
        } else {
            match Square::shifted(sq, offsets[k as int].0 as int, offsets[k as int].1 as int) {
                Some(from) if self.holds(from, kind, color) => Some(from),
                _ => self.jump_origin(sq, offsets, k + 1, kind, color),
            }
        }
    }

    /// The first occupied square beyond `cur` in direction `(df, dr)`.
    pub open spec fn first_seen(self, cur: int, df: int, dr: int) -> Option<int>
        decreases super::movegen::ray_room(cur, df, dr),
        when super::movegen::is_direction(df, dr) && 0 <= cur < 64
    {
        match Square::shifted(cur, df, dr) {
            None => None,
            Some(next) => if self.board[next] is Some {
                Some(next)
            } else {
                self.first_seen(next, df, dr)
            },
        }
    }

    /// The first of the directions, from the `k`-th on, in which the first
    /// piece seen from `sq` is exactly this one: its square.
    pub open spec fn slide_origin(
        self,
        sq: int,
        directions: Seq<(i8, i8)>,
        k: nat,
        kind: PieceKind,
        color: Color,
    ) -> Option<int>
        decreases directions.len() - k,
    {
        if k >= directions.len() {
            None
        } else {
            match self.first_seen(sq, directions[k as int].0 as int, directions[k as int].1 as int) {
                Some(from) if self.holds(from, kind, color) => Some(from),
                _ => self.slide_origin(sq, directions, k + 1, kind, color),
            }
        }
    }

    /// The lowest square from `i` on that holds the king of `color`.
    pub open spec fn king_from(self, i: int, color: Color) -> Option<int>
        decreases 64 - i,
    {
        if i >= 64 {
            None
        } else if self.holds(i, PieceKind::King, color) {
            Some(i)
        } else {
            self.king_from(i + 1, color)
        }
    }

    /// The square of the king of `color`; if there are several, the lowest.
    pub open spec fn king(self, color: Color) -> Option<int> {
        self.king_from(0, color)
    }

    /// Whether the king of `color` is attacked. A color without a king is
    /// never in check.
    pub open spec fn checked(self, color: Color) -> bool {
        match self.king(color) {
            Some(k) => self.attacked(k, color.other()),
            None => false,
        }
    }

    /// Whether a castling move would take the king out of or through check.
    pub open spec fn castles_through_check(self, mv: Move) -> bool {
        mv.is_castling() && (self.attacked(mv.src(), self.side.other()) || self.attacked(
            mv.rook_to(),
            self.side.other(),
        ))
    }

    /// Whether a pseudo-legal move is legal: there is a piece that makes it, it
    /// does not leave the mover's own king attacked, and does not castle out of
    /// or through check.
    pub open spec fn allows(self, mv: Move) -> bool {
        self.board[mv.src()] is Some && !self.castles_through_check(mv) && !self.made(mv).checked(self.side)
    }

    /// The legal moves: the pseudo-legal ones that are allowed, in order.
    #[verifier::opaque]
    pub open spec fn legal_moves(self) -> Seq<Move> {
        self.pseudo_moves().filter(|mv: Move| self.allows(mv))
    }
}

/// Two boards with the kings of a color on the same squares agree on which is
/// the lowest of them.
proof fn lemma_same_king(p: PositionView, q: PositionView, i: int, color: Color)
    requires
        0 <= i,
        forall|j: int|
            i <= j < 64 ==> p.holds(j, PieceKind::King, color) == #[trigger] q.holds(
                j,
                PieceKind::King,
                color,
            ),
    ensures
        p.king_from(i, color) == q.king_from(i, color),
    decreases 64 - i,
{
    if i < 64 {
        assert(p.holds(i, PieceKind::King, color) == q.holds(i, PieceKind::King, color));
        lemma_same_king(p, q, i + 1, color);
    }
}

/// Walking back from where a slide arrives finds the square it came from, or
/// whatever lies beyond it if that square is empty.
proof fn lemma_slide_back(p: PositionView, cur: int, to: int, df: int, dr: int)
    requires
        p.board.len() == 64,
        super::movegen::is_direction(df, dr),
        0 <= cur < 64,
        p.reaches(cur, to, df, dr),
    ensures
        0 <= to < 64,
        p.first_seen(to, -df, -dr) == (if p.board[cur] is Some {
            Some(cur)
        } else {
            p.first_seen(cur, -df, -dr)
        }),
    decreases super::movegen::ray_room(cur, df, dr),
{
    let next = Square::shifted(cur, df, dr)->0;
    assert(Square::shifted(next, -df, -dr) == Some(cur));
    if next != to {
        lemma_slide_back(p, next, to, df, dr);
    }
}

/// The first piece seen from `to` attacks back along the same line.
proof fn lemma_seen_reaches(p: PositionView, cur: int, to: int, df: int, dr: int)
    requires
        p.board.len() == 64,
        super::movegen::is_direction(df, dr),
        0 <= cur < 64,
        0 <= to < 64,
        p.first_seen(cur, -df, -dr) is Some,
        cur == to || (p.board[cur] is None && p.reaches(cur, to, df, dr)),
    ensures
        0 <= p.first_seen(cur, -df, -dr)->0 < 64,
        p.board[p.first_seen(cur, -df, -dr)->0] is Some,
        p.reaches(p.first_seen(cur, -df, -dr)->0, to, df, dr),
    decreases super::movegen::ray_room(cur, -df, -dr),
{
    let next = Square::shifted(cur, -df, -dr)->0;
    assert(Square::shifted(next, df, dr) == Some(cur));
    assert(p.reaches(next, to, df, dr));
    if p.board[next] is None {
        lemma_seen_reaches(p, next, to, df, dr);
    }
}

/// A slide from `from` arrives at `to` exactly if `from` is the first occupied
/// square seen when looking back from `to`.
pub proof fn sliding_attack_is_symmetric(p: PositionView, from: int, to: int, df: int, dr: int)
    requires
        p.board.len() == 64,
        super::movegen::is_direction(df, dr),
        0 <= from < 64,
        0 <= to < 64,
        p.board[from] is Some,
    ensures
        p.reaches(from, to, df, dr) <==> p.first_seen(to, -df, -dr) == Some(from),
{
    if p.reaches(from, to, df, dr) {
        lemma_slide_back(p, from, to, df, dr);
    }
    if p.first_seen(to, -df, -dr) == Some(from) {
        lemma_seen_reaches(p, to, to, df, dr);
    }
}

/// What a jump scan finds is a square from which the piece jumps to `sq`, and
/// it finds nothing only if there is no such square.
proof fn lemma_jump_origin(
    p: PositionView,
    sq: int,
    offsets: Seq<(i8, i8)>,
    k: nat,
    kind: PieceKind,
    color: Color,
)
    ensures
        match p.jump_origin(sq, offsets, k, kind, color) {
            Some(from) => 0 <= from < 64 && p.holds(from, kind, color) && exists|m: int|
                k <= m < offsets.len() && Square::shifted(
                    sq,
                    (#[trigger] offsets[m]).0 as int,
                    offsets[m].1 as int,
                ) == Some(from),
            None => forall|m: int|
                k <= m < offsets.len() ==> match Square::shifted(
                    sq,
                    (#[trigger] offsets[m]).0 as int,
                    offsets[m].1 as int,
                ) {
                    Some(from) => !p.holds(from, kind, color),
                    None => true,
                },
        },
    decreases offsets.len() - k,
{
    if k < offsets.len() {
        lemma_jump_origin(p, sq, offsets, k + 1, kind, color);
    }
}

/// What a slide scan finds is the first piece seen in one of the directions,
/// and it finds nothing only if no direction shows this piece first.
proof fn lemma_slide_origin(
    p: PositionView,
    sq: int,
    directions: Seq<(i8, i8)>,
    k: nat,
    kind: PieceKind,
    color: Color,
)
    requires
        super::movegen::all_directions(directions),
        0 <= sq < 64,
    ensures
        match p.slide_origin(sq, directions, k, kind, color) {
            Some(from) => p.holds(from, kind, color) && exists|m: int|
                k <= m < directions.len() && p.first_seen(
                    sq,
                    (#[trigger] directions[m]).0 as int,
                    directions[m].1 as int,
                ) == Some(from),
            None => forall|m: int|
                k <= m < directions.len() ==> match p.first_seen(
                    sq,
                    (#[trigger] directions[m]).0 as int,
                    directions[m].1 as int,
                ) {
                    Some(from) => !p.holds(from, kind, color),
                    None => true,
                },
        },
    decreases directions.len() - k,
{
    if k < directions.len() {
        lemma_slide_origin(p, sq, directions, k + 1, kind, color);
    }
}

/// The first piece seen stands on the board.
proof fn lemma_first_seen(p: PositionView, cur: int, df: int, dr: int)
    requires
        super::movegen::is_direction(df, dr),
        0 <= cur < 64,
    ensures
        p.first_seen(cur, df, dr) matches Some(j) ==> 0 <= j < 64 && p.board[j] is Some,
    decreases super::movegen::ray_room(cur, df, dr),
{
    if let Some(next) = Square::shifted(cur, df, dr) {
        if p.board[next] is None {
            lemma_first_seen(p, next, df, dr);
        }
    }
}

/// Scanning for a pawn finds one exactly if a pawn attacks the square, and what
/// it finds is such a pawn.
pub proof fn lemma_pawn_scan(p: PositionView, sq: int, color: Color)
    requires
        p.board.len() == 64,
        0 <= sq < 64,
    ensures
        match p.jump_origin(sq, pawn_origins(color), 0, PieceKind::Pawn, color) {
            Some(from) => 0 <= from < 64 && p.holds(from, PieceKind::Pawn, color) && p.attacks(
                from,
                sq,
                color,
            ),
            None => forall|from: int|
                0 <= from < 64 && p.holds(from, PieceKind::Pawn, color) ==> !#[trigger] p.attacks(
                    from,
                    sq,
                    color,
                ),
        },
{
    let offsets = pawn_origins(color);
    lemma_jump_origin(p, sq, offsets, 0, PieceKind::Pawn, color);
    if p.jump_origin(sq, offsets, 0, PieceKind::Pawn, color) is None {
        assert forall|from: int|
            0 <= from < 64 && p.holds(from, PieceKind::Pawn, color) implies !#[trigger] p.attacks(
            from,
            sq,
            color,
        ) by {
            let df = from % 8 - sq % 8;
            assert(offsets[0].0 == -1 && offsets[1].0 == 1);
            if p.attacks(from, sq, color) {
                if df == -1 {
                    assert(Square::shifted(sq, offsets[0].0 as int, offsets[0].1 as int) == Some(
                        from,
                    ));
                } else {
                    assert(Square::shifted(sq, offsets[1].0 as int, offsets[1].1 as int) == Some(
                        from,
                    ));
                }
            }
        }
    }
}

/// Scanning for a knight, likewise.
pub proof fn lemma_knight_scan(p: PositionView, sq: int, color: Color)
    requires
        p.board.len() == 64,
        0 <= sq < 64,
    ensures
        match p.jump_origin(sq, KNIGHT_OFFSETS@, 0, PieceKind::Knight, color) {
            Some(from) => 0 <= from < 64 && p.holds(from, PieceKind::Knight, color) && p.attacks(
                from,
                sq,
                color,
            ),
            None => forall|from: int|
                0 <= from < 64 && p.holds(from, PieceKind::Knight, color) ==> !#[trigger] p.attacks(
                    from,
                    sq,
                    color,
                ),
        },
{
    let offsets = KNIGHT_OFFSETS@;
    lemma_jump_origin(p, sq, offsets, 0, PieceKind::Knight, color);
    assert(offsets[0] == (1i8, 2i8) && offsets[1] == (2i8, 1i8) && offsets[2] == (2i8, -1i8)
        && offsets[3] == (1i8, -2i8) && offsets[4] == (-1i8, -2i8) && offsets[5] == (-2i8, -1i8)
        && offsets[6] == (-2i8, 1i8) && offsets[7] == (-1i8, 2i8));
    match p.jump_origin(sq, offsets, 0, PieceKind::Knight, color) {
        Some(from) => {
            let m = choose|m: int|
                0 <= m < offsets.len() && Square::shifted(
                    sq,
                    (#[trigger] offsets[m]).0 as int,
                    offsets[m].1 as int,
                ) == Some(from);
            assert(m == 0 || m == 1 || m == 2 || m == 3 || m == 4 || m == 5 || m == 6 || m == 7);
        },
        None => {},
    }
}

/// Scanning for a king, likewise.
pub proof fn lemma_king_scan(p: PositionView, sq: int, color: Color)
    requires
        p.board.len() == 64,
        0 <= sq < 64,
    ensures
        match p.jump_origin(sq, KING_OFFSETS@, 0, PieceKind::King, color) {
            Some(from) => 0 <= from < 64 && p.holds(from, PieceKind::King, color) && p.attacks(
                from,
                sq,
                color,
            ),
            None => forall|from: int|
                0 <= from < 64 && p.holds(from, PieceKind::King, color) ==> !#[trigger] p.attacks(
                    from,
                    sq,
                    color,
                ),
        },
{
    let offsets = KING_OFFSETS@;
    lemma_jump_origin(p, sq, offsets, 0, PieceKind::King, color);
    assert(offsets[0] == (1i8, 0i8) && offsets[1] == (1i8, 1i8) && offsets[2] == (0i8, 1i8)
        && offsets[3] == (-1i8, 1i8) && offsets[4] == (-1i8, 0i8) && offsets[5] == (-1i8, -1i8)
        && offsets[6] == (0i8, -1i8) && offsets[7] == (1i8, -1i8));
    match p.jump_origin(sq, offsets, 0, PieceKind::King, color) {
        Some(from) => {
            let m = choose|m: int|
                0 <= m < offsets.len() && Square::shifted(
                    sq,
                    (#[trigger] offsets[m]).0 as int,
                    offsets[m].1 as int,
                ) == Some(from);
            assert(m == 0 || m == 1 || m == 2 || m == 3 || m == 4 || m == 5 || m == 6 || m == 7);
        },
        None => {},
    }
}

/// Scanning the diagonals for a piece finds one exactly if such a piece reaches
/// the square diagonally.
pub proof fn lemma_diagonal_scan(p: PositionView, sq: int, kind: PieceKind, color: Color)
    requires
        p.board.len() == 64,
        0 <= sq < 64,
    ensures
        match p.slide_origin(sq, BISHOP_DIRECTIONS@, 0, kind, color) {
            Some(from) => 0 <= from < 64 && p.holds(from, kind, color) && p.reaches_diagonally(
                from,
                sq,
            ),
            None => forall|from: int|
                0 <= from < 64 && p.holds(from, kind, color) ==> !#[trigger] p.reaches_diagonally(
                    from,
                    sq,
                ),
        },
{
    super::movegen::lemma_tables();
    let dirs = BISHOP_DIRECTIONS@;
    lemma_slide_origin(p, sq, dirs, 0, kind, color);
    assert(dirs[0] == (1i8, 1i8) && dirs[1] == (1i8, -1i8) && dirs[2] == (-1i8, 1i8) && dirs[3] == (
    -1i8,
    -1i8,
    ));
    match p.slide_origin(sq, dirs, 0, kind, color) {
        Some(from) => {
            let m = choose|m: int|
                0 <= m < dirs.len() && p.first_seen(
                    sq,
                    (#[trigger] dirs[m]).0 as int,
                    dirs[m].1 as int,
                ) == Some(from);
            lemma_first_seen(p, sq, dirs[m].0 as int, dirs[m].1 as int);
            sliding_attack_is_symmetric(p, from, sq, -dirs[m].0, -dirs[m].1);
            assert(m == 0 || m == 1 || m == 2 || m == 3);
        },
        None => {
            assert forall|from: int|
                0 <= from < 64 && p.holds(
                    from,
                    kind,
                    color,
                ) implies !#[trigger] p.reaches_diagonally(from, sq) by {
                sliding_attack_is_symmetric(p, from, sq, 1, 1);
                sliding_attack_is_symmetric(p, from, sq, 1, -1);
                sliding_attack_is_symmetric(p, from, sq, -1, 1);
                sliding_attack_is_symmetric(p, from, sq, -1, -1);
            }
        },
    }
}

/// Scanning the ranks and files, likewise.
pub proof fn lemma_straight_scan(p: PositionView, sq: int, kind: PieceKind, color: Color)
    requires
        p.board.len() == 64,
        0 <= sq < 64,
    ensures
        match p.slide_origin(sq, ROOK_DIRECTIONS@, 0, kind, color) {
            Some(from) => 0 <= from < 64 && p.holds(from, kind, color) && p.reaches_straight(
                from,
                sq,
            ),
            None => forall|from: int|
                0 <= from < 64 && p.holds(from, kind, color) ==> !#[trigger] p.reaches_straight(
                    from,
                    sq,
                ),
        },
{
    super::movegen::lemma_tables();
    let dirs = ROOK_DIRECTIONS@;
    lemma_slide_origin(p, sq, dirs, 0, kind, color);
    assert(dirs[0] == (1i8, 0i8) && dirs[1] == (-1i8, 0i8) && dirs[2] == (0i8, 1i8) && dirs[3] == (
    0i8,
    -1i8,
    ));
    match p.slide_origin(sq, dirs, 0, kind, color) {
        Some(from) => {
            let m = choose|m: int|
                0 <= m < dirs.len() && p.first_seen(
                    sq,
                    (#[trigger] dirs[m]).0 as int,
                    dirs[m].1 as int,
                ) == Some(from);
            lemma_first_seen(p, sq, dirs[m].0 as int, dirs[m].1 as int);
            sliding_attack_is_symmetric(p, from, sq, -dirs[m].0, -dirs[m].1);
            assert(m == 0 || m == 1 || m == 2 || m == 3);
        },
        None => {
            assert forall|from: int|
                0 <= from < 64 && p.holds(from, kind, color) implies !#[trigger] p.reaches_straight(
                from,
                sq,
            ) by {
                sliding_attack_is_symmetric(p, from, sq, 1, 0);
                sliding_attack_is_symmetric(p, from, sq, -1, 0);
                sliding_attack_is_symmetric(p, from, sq, 0, 1);
                sliding_attack_is_symmetric(p, from, sq, 0, -1);
            }
        },
    }
}

/// A square is attacked exactly if one of the scans outward from it finds an
/// attacker.
pub proof fn lemma_attacked_by_scans(p: PositionView, sq: int, color: Color)
    requires
        p.board.len() == 64,
        0 <= sq < 64,
    ensures
        p.attacked(sq, color) <==> {
            ||| p.jump_origin(sq, pawn_origins(color), 0, PieceKind::Pawn, color) is Some
            ||| p.jump_origin(sq, KNIGHT_OFFSETS@, 0, PieceKind::Knight, color) is Some
            ||| p.jump_origin(sq, KING_OFFSETS@, 0, PieceKind::King, color) is Some
            ||| p.slide_origin(sq, BISHOP_DIRECTIONS@, 0, PieceKind::Bishop, color) is Some
            ||| p.slide_origin(sq, BISHOP_DIRECTIONS@, 0, PieceKind::Queen, color) is Some
            ||| p.slide_origin(sq, ROOK_DIRECTIONS@, 0, PieceKind::Rook, color) is Some
            ||| p.slide_origin(sq, ROOK_DIRECTIONS@, 0, PieceKind::Queen, color) is Some
        },
{
    lemma_pawn_scan(p, sq, color);
    lemma_knight_scan(p, sq, color);
    lemma_king_scan(p, sq, color);
    lemma_diagonal_scan(p, sq, PieceKind::Bishop, color);
    lemma_diagonal_scan(p, sq, PieceKind::Queen, color);
    lemma_straight_scan(p, sq, PieceKind::Rook, color);
    lemma_straight_scan(p, sq, PieceKind::Queen, color);
    if p.attacked(sq, color) {
        let from = choose|from: int| 0 <= from < 64 && #[trigger] p.attacks(from, sq, color);
        let piece = p.board[from]->0;
        assert(p.holds(from, piece.kind, color));
        assert(piece.kind == PieceKind::Bishop ==> p.reaches_diagonally(from, sq));
        assert(piece.kind == PieceKind::Rook ==> p.reaches_straight(from, sq));
        assert(piece.kind == PieceKind::Queen ==> p.reaches_diagonally(from, sq)
            || p.reaches_straight(from, sq));
    } else {
        if let Some(from) = p.slide_origin(sq, BISHOP_DIRECTIONS@, 0, PieceKind::Bishop, color) {
            assert(p.attacks(from, sq, color));
        }
        if let Some(from) = p.slide_origin(sq, BISHOP_DIRECTIONS@, 0, PieceKind::Queen, color) {
            assert(p.attacks(from, sq, color));
        }
        if let Some(from) = p.slide_origin(sq, ROOK_DIRECTIONS@, 0, PieceKind::Rook, color) {
            assert(p.attacks(from, sq, color));
        }
        if let Some(from) = p.slide_origin(sq, ROOK_DIRECTIONS@, 0, PieceKind::Queen, color) {
            assert(p.attacks(from, sq, color));
        }
    }
}

/// Whether `q` is `p` with a piece of `side` moved from `from` to `dst`.
spec fn moved_piece(p: PositionView, q: PositionView, from: int, dst: int, side: Color) -> bool {
    &&& forall|i: int|
        0 <= i < 64 && i != from && i != dst ==> #[trigger] q.board[i] == p.board[i]
    &&& q.board[dst] matches Some(piece) && piece.color == side
    &&& from == dst || q.board[from] is None
}

/// Whether a piece of the given color slides along ranks, files or diagonals.
spec fn is_slider(content: Option<Piece>, color: Color) -> bool {
    content matches Some(piece) && piece.color == color && (piece.kind == PieceKind::Bishop
        || piece.kind == PieceKind::Rook || piece.kind == PieceKind::Queen)
}

/// Whether, looking from `to` in direction `(df, dr)`, the first piece seen is
/// on `from` and the next one behind it is a slider of `color`: moving the
/// piece on `from` may then uncover an attack on `to`.
spec fn is_shield(p: PositionView, from: int, to: int, df: int, dr: int, color: Color) -> bool {
    &&& p.first_seen(to, df, dr) == Some(from)
    &&& p.first_seen(from, df, dr) matches Some(behind) && is_slider(p.board[behind], color)
}

/// Whether `squares` has everything that shields `to` from sliders of `color`.
spec fn has_all_shields(squares: Seq<Square>, p: PositionView, to: int, color: Color) -> bool {
    forall|from: int, df: int, dr: int|
        super::movegen::is_direction(df, dr) && #[trigger] is_shield(p, from, to, df, dr, color)
            ==> exists|k: int| 0 <= k < squares.len() && (#[trigger] squares[k]).idx() == from
}

/// Whether a move can be seen to leave the mover's king safe without trying it:
/// that king is known to be unattacked, and a piece of its side other than the
/// king moves, neither castling nor en passant nor onto a king of its side,
/// from a square that is not one of `squares`.
spec fn clearly_safe(p: PositionView, mv: Move, safe_king: bool, squares: Seq<Square>) -> bool {
    &&& safe_king
    &&& mv.kind() != MoveFlag::EnPassant && !mv.is_castling()
    &&& p.board[mv.src()] matches Some(piece) && piece.color == p.side && piece.kind
        != PieceKind::King
    &&& !p.holds(mv.dst(), PieceKind::King, p.side)
    &&& !exists|k: int| 0 <= k < squares.len() && (#[trigger] squares[k]).idx() == mv.src()
}

/// A slide over squares that lie ahead of where a piece left from was possible
/// before it left.
proof fn lemma_slide_ahead(
    p: PositionView,
    q: PositionView,
    from: int,
    dst: int,
    side: Color,
    cur: int,
    to: int,
    df: int,
    dr: int,
)
    requires
        moved_piece(p, q, from, dst, side),
        super::movegen::is_direction(df, dr),
        0 <= cur < 64,
        super::movegen::ray_room(cur, df, dr) <= super::movegen::ray_room(from, df, dr),
        q.reaches(cur, to, df, dr),
    ensures
        p.reaches(cur, to, df, dr),
    decreases super::movegen::ray_room(cur, df, dr),
{
    let next = Square::shifted(cur, df, dr)->0;
    assert(super::movegen::ray_room(next, df, dr) < super::movegen::ray_room(cur, df, dr));
    if next != to {
        lemma_slide_ahead(p, q, from, dst, side, next, to, df, dr);
        assert(q.board[next] == p.board[next]);
    }
}

/// A slide that is possible after a piece has moved was possible before, or
/// passes over the square that the piece left.
proof fn lemma_slide_before(
    p: PositionView,
    q: PositionView,
    from: int,
    dst: int,
    side: Color,
    cur: int,
    to: int,
    df: int,
    dr: int,
)
    requires
        moved_piece(p, q, from, dst, side),
        super::movegen::is_direction(df, dr),
        0 <= cur < 64,
        q.reaches(cur, to, df, dr),
    ensures
        p.reaches(cur, to, df, dr) || (q.reaches(from, to, df, dr) && p.first_seen(from, -df, -dr)
            == (if p.board[cur] is Some {
            Some(cur)
        } else {
            p.first_seen(cur, -df, -dr)
        })),
    decreases super::movegen::ray_room(cur, df, dr),
{
    let next = Square::shifted(cur, df, dr)->0;
    assert(Square::shifted(next, -df, -dr) == Some(cur));
    if next != to && next != from {
        lemma_slide_before(p, q, from, dst, side, next, to, df, dr);
        assert(q.board[next] == p.board[next]);
    }
}

/// A slider that attacks a square after a piece has moved attacked it before,
/// unless that piece shielded the square.
proof fn lemma_slider_before(
    p: PositionView,
    q: PositionView,
    from: int,
    dst: int,
    side: Color,
    a: int,
    to: int,
    df: int,
    dr: int,
)
    requires
        p.board.len() == 64,
        moved_piece(p, q, from, dst, side),
        super::movegen::is_direction(df, dr),
        0 <= from < 64,
        0 <= to < 64,
        0 <= a < 64,
        p.board[from] is Some,
        is_slider(p.board[a], side.other()),
        !is_shield(p, from, to, -df, -dr, side.other()),
        q.reaches(a, to, df, dr),
    ensures
        p.reaches(a, to, df, dr),
{
    lemma_slide_before(p, q, from, dst, side, a, to, df, dr);
    if !p.reaches(a, to, df, dr) {
        lemma_slide_ahead(p, q, from, dst, side, from, to, df, dr);
        sliding_attack_is_symmetric(p, from, to, df, dr);
    }
}

/// A square does not come under attack by the departure of a piece that does
/// not shield it.
proof fn lemma_no_new_attack(
    p: PositionView,
    q: PositionView,
    from: int,
    dst: int,
    side: Color,
    to: int,
)
    requires
        p.board.len() == 64,
        moved_piece(p, q, from, dst, side),
        0 <= from < 64,
        0 <= to < 64,
        p.board[from] is Some,
        forall|df: int, dr: int|
            super::movegen::is_direction(df, dr) ==> !#[trigger] is_shield(
                p,
                from,
                to,
                df,
                dr,
                side.other(),
            ),
        !p.attacked(to, side.other()),
    ensures
        !q.attacked(to, side.other()),
{
    let color = side.other();
    assert forall|a: int| 0 <= a < 64 implies !#[trigger] q.attacks(a, to, color) by {
        if q.attacks(a, to, color) {
            assert(q.board[a] == p.board[a]);
            if is_slider(p.board[a], color) {
                if q.reaches(a, to, 1, 1) {
                    lemma_slider_before(p, q, from, dst, side, a, to, 1, 1);
                }
                if q.reaches(a, to, 1, -1) {
                    lemma_slider_before(p, q, from, dst, side, a, to, 1, -1);
                }
                if q.reaches(a, to, -1, 1) {
                    lemma_slider_before(p, q, from, dst, side, a, to, -1, 1);
                }
                if q.reaches(a, to, -1, -1) {
                    lemma_slider_before(p, q, from, dst, side, a, to, -1, -1);
                }
                if q.reaches(a, to, 1, 0) {
                    lemma_slider_before(p, q, from, dst, side, a, to, 1, 0);
                }
                if q.reaches(a, to, -1, 0) {
                    lemma_slider_before(p, q, from, dst, side, a, to, -1, 0);
                }
                if q.reaches(a, to, 0, 1) {
                    lemma_slider_before(p, q, from, dst, side, a, to, 0, 1);
                }
                if q.reaches(a, to, 0, -1) {
                    lemma_slider_before(p, q, from, dst, side, a, to, 0, -1);
                }
            }
            assert(p.attacks(a, to, color));
        }
    }
}

/// The king's offsets are the eight directions.
pub(crate) proof fn lemma_king_offsets(m: int)
    requires
        0 <= m < 8,
    ensures
        super::movegen::is_direction(KING_OFFSETS@[m].0 as int, KING_OFFSETS@[m].1 as int),
{
    let offsets = KING_OFFSETS@;
    assert(offsets[0] == (1i8, 0i8) && offsets[1] == (1i8, 1i8) && offsets[2] == (0i8, 1i8)
        && offsets[3] == (-1i8, 1i8) && offsets[4] == (-1i8, 0i8) && offsets[5] == (-1i8, -1i8)
        && offsets[6] == (0i8, -1i8) && offsets[7] == (1i8, -1i8));
    assert(m == 0 || m == 1 || m == 2 || m == 3 || m == 4 || m == 5 || m == 6 || m == 7);
}

/// Which of the king's offsets a direction is.
pub(crate) proof fn lemma_direction_index(df: int, dr: int) -> (m: int)
    requires
        super::movegen::is_direction(df, dr),
    ensures
        0 <= m < 8,
        KING_OFFSETS@[m].0 == df,
        KING_OFFSETS@[m].1 == dr,
{
    let offsets = KING_OFFSETS@;
    assert(offsets[0] == (1i8, 0i8) && offsets[1] == (1i8, 1i8) && offsets[2] == (0i8, 1i8)
        && offsets[3] == (-1i8, 1i8) && offsets[4] == (-1i8, 0i8) && offsets[5] == (-1i8, -1i8)
        && offsets[6] == (0i8, -1i8) && offsets[7] == (1i8, -1i8));
    if dr == 0 {
        if df == 1 {
            0
        } else {
            4
        }
    } else if dr == 1 {
        if df == 1 {
            1
        } else if df == 0 {
            2
        } else {
            3
        }
    } else {
        if df == -1 {
            5
        } else if df == 0 {
            6
        } else {
            7
        }
    }
}

/// Whether `square` is one of `squares`.
fn contains_square(squares: &Vec<Square>, square: Square) -> (found: bool)
    ensures
        found == exists|k: int| 0 <= k < squares@.len() && (#[trigger] squares@[k]).idx()
            == square.idx(),
{
    let mut k: usize = 0;
    while k < squares.len()
        invariant
            k <= squares.len(),
            forall|j: int| 0 <= j < k ==> (#[trigger] squares@[j]).idx() != square.idx(),
        decreases squares.len() - k,
    {
        if squares[k].index() == square.index() {
            assert(squares@[k as int].idx() == square.idx());
            return true;
        }
        k += 1;
    }
    false
}

impl Position {
    /// Whether `square` is attacked by any piece of `by_color`.
    ///
    /// This does not care whether `by_color` is the side to move; it is
    /// a pure board query, which is what makes it reusable both for "is
    /// my king in check" (asking about the opponent's color) and for
    /// "would my king pass through an attacked square while castling"
    /// (same thing, at a different square).
    #[must_use]
    pub fn is_square_attacked(&self, square: Square, by_color: Color) -> (attacked: bool)
        ensures
            attacked == self@.attacked(square.idx(), by_color),
    {
        let index: u8 = square.index();
        proof {
            super::movegen::lemma_tables();
            lemma_attacked_by_scans(self@, square.idx(), by_color);
        }
        self.pawn_attacker(square, by_color).is_some() || self.jump_attacker(
            square,
            by_color,
            &KNIGHT_OFFSETS,
            PieceKind::Knight,
        ).is_some() || self.jump_attacker(
            square,
            by_color,
            &KING_OFFSETS,
            PieceKind::King,
        ).is_some() || self.attacked_by_sliding(
            square,
            by_color,
            &BISHOP_DIRECTIONS,
            PieceKind::Bishop,
        ) || self.attacked_by_sliding(square, by_color, &ROOK_DIRECTIONS, PieceKind::Rook)
    }

    /// Whether `square` is attacked by a sliding piece of `by_color`
    /// moving along `directions` -- either a piece of exactly `kind`,
    /// or a queen (which attacks along both bishop and rook lines).
    fn attacked_by_sliding(
        &self,
        square: Square,
        by_color: Color,
        directions: &[(i8, i8)],
        kind: PieceKind,
    ) -> (attacked: bool)
        requires
            super::movegen::all_directions(directions@),
        ensures
            attacked == (self@.slide_origin(square.idx(), directions@, 0, kind, by_color) is Some
                || self@.slide_origin(
                square.idx(),
                directions@,
                0,
                PieceKind::Queen,
                by_color,
            ) is Some),
    {
        let ghost sq = square.idx();
        let mut k: usize = 0;
        while k < directions.len()
            invariant
                k <= directions.len(),
                sq == square.idx(),
                super::movegen::all_directions(directions@),
                self@.slide_origin(sq, directions@, 0, kind, by_color) == self@.slide_origin(
                    sq,
                    directions@,
                    k as nat,
                    kind,
                    by_color,
                ),
                self@.slide_origin(sq, directions@, 0, PieceKind::Queen, by_color)
                    == self@.slide_origin(sq, directions@, k as nat, PieceKind::Queen, by_color),
            decreases directions.len() - k,
        {
            let (df, dr) = directions[k];
            if let Some(from) = self.first_piece(square, df, dr) {
                if let Some(piece) = self.piece_at(from) {
                    if piece.color == by_color && (piece.kind == kind || piece.kind
                        == PieceKind::Queen) {
                        return true;
                    }
                }
            }
            k += 1;
        }
        false
    }

    /// Whether the side to move's king is currently attacked. A position
    /// with no king for the side to move is not a legal chess position, but
    /// attack detection treats it as "not in check" rather than failing on it.
    #[must_use]
    pub fn in_check(&self) -> (check: bool)
        ensures
            check == self@.checked(self@.side),
    {
        self.king_attacked(self.side_to_move())
    }

    /// Whether the king of `side` is attacked.
    pub(crate) fn king_attacked(&self, side: Color) -> (check: bool)
        ensures
            check == self@.checked(side),
    {
        match self.find_king(side) {
            Some(king_square) => self.is_square_attacked(king_square, side.opposite()),
            None => false,
        }
    }

    /// Generates all legal moves for the side to move: pseudo-legal
    /// moves, filtered down to those that don't leave the mover's own
    /// king attacked afterward.
    ///
    /// Castling moves get one extra check beyond "is the king attacked
    /// after the move": the square the king passes through (f1/f8 for
    /// kingside, d1/d8 for queenside) must also be unattacked, since
    /// make_move teleports the king directly to its landing square and
    /// would otherwise miss an attack on the transit square. Castling
    /// while currently in check is rejected too, by asking the same of the
    /// king's starting square. Without any piece on that square there is
    /// nobody to castle, whatever the castling rights say.
    #[must_use]
    pub fn generate_legal_moves(&self) -> (moves: Vec<Move>)
        ensures
            moves@ == self@.legal_moves(),
    {
        proof {
            reveal(PositionView::legal_moves);
        }
        let mut position = self.clone();
        let candidates: Vec<Move> = self.generate_pseudo_legal_moves();
        let mut moves: Vec<Move> = Vec::with_capacity(candidates.len());
        let own_king: Option<Square> = self.find_king(self.side_to_move());
        let safe_king: Option<Square> = match own_king {
            Some(square) if !self.is_square_attacked(square, self.side_to_move().opposite()) => {
                Some(square)
            },
            _ => None,
        };
        let shields: Vec<Square> = match safe_king {
            Some(square) => self.shields_of(square, self.side_to_move().opposite()),
            None => Vec::new(),
        };
        let ghost allowed = |mv: Move| self@.allows(mv);
        let _ = self.en_passant_square();
        let mut k: usize = 0;
        assert(candidates@.take(0).filter(allowed) =~= Seq::<Move>::empty()) by {
            reveal(Seq::filter);
        }
        while k < candidates.len()
            invariant
                k <= candidates.len(),
                candidates@ == self@.pseudo_moves(),
                self@.valid(),
                position@ == self@,
                Square::index_of(own_king) == self@.king(self@.side),
                safe_king matches Some(square) ==> Some(square.idx()) == self@.king(self@.side)
                    && !self@.checked(self@.side) && has_all_shields(shields@, self@, square.idx(), self@.side.other()),
                allowed == (|mv: Move| self@.allows(mv)),
                moves@ == candidates@.take(k as int).filter(allowed),
            decreases candidates.len() - k,
        {
            let mv = candidates[k];
            // Only castling without a king at home has nobody to make it.
            if self.piece_at(mv.from()).is_some() {
                proof {
                    super::legality::pseudo_moves_are_reversible(self@, k as int);
                }
                if self.is_clearly_safe(mv, safe_king, &shields) || position.move_is_allowed(
                    mv,
                    own_king,
                ) {
                    moves.push(mv);
                }
            }
            proof {
                assert(candidates@.take(k + 1).drop_last() =~= candidates@.take(k as int));
                reveal(Seq::filter);
                assert(allowed(mv) == self@.allows(mv));
            }
            k += 1;
        }
        assert(candidates@.take(k as int) =~= candidates@);
        moves
    }

    /// The squares of the pieces that shield `square` from a slider of `color`.
    fn shields_of(&self, square: Square, color: Color) -> (shields: Vec<Square>)
        ensures
            has_all_shields(shields@, self@, square.idx(), color),
    {
        let mut found: Vec<Square> = Vec::new();
        let mut m: usize = 0;
        proof {
            super::movegen::lemma_tables();
        }
        while m < KING_OFFSETS.len()
            invariant
                m <= 8,
                forall|from: int, j: int|
                    0 <= j < m && #[trigger] is_shield(
                        self@,
                        from,
                        square.idx(),
                        KING_OFFSETS@[j].0 as int,
                        KING_OFFSETS@[j].1 as int,
                        color,
                    ) ==> exists|k: int|
                        0 <= k < found@.len() && (#[trigger] found@[k]).idx() == from,
            decreases 8 - m,
        {
            let (df, dr) = KING_OFFSETS[m];
            let ghost before = found@;
            proof {
                lemma_king_offsets(m as int);
            }
            if let Some(from) = self.first_piece(square, df, dr) {
                if let Some(behind) = self.first_piece(from, df, dr) {
                    if let Some(piece) = self.piece_at(behind) {
                        if piece.color == color && (piece.kind == PieceKind::Bishop || piece.kind
                            == PieceKind::Rook || piece.kind == PieceKind::Queen) {
                            found.push(from);
                            assert(found@[found@.len() - 1].idx() == from.idx());
                        }
                    }
                }
            }
            assert forall|from: int, j: int|
                0 <= j < m + 1 && #[trigger] is_shield(
                    self@,
                    from,
                    square.idx(),
                    KING_OFFSETS@[j].0 as int,
                    KING_OFFSETS@[j].1 as int,
                    color,
                ) implies exists|k: int| 0 <= k < found@.len() && (#[trigger] found@[k]).idx()
                == from by {
                if j < m {
                    let k = choose|k: int|
                        0 <= k < before.len() && (#[trigger] before[k]).idx() == from;
                    assert(found@[k] == before[k]);
                }
            }
            m += 1;
        }
        assert forall|from: int, df: int, dr: int|
            super::movegen::is_direction(df, dr) && #[trigger] is_shield(
                self@,
                from,
                square.idx(),
                df,
                dr,
                color,
            ) implies exists|k: int| 0 <= k < found@.len() && (#[trigger] found@[k]).idx() == from by {
            let j = lemma_direction_index(df, dr);
        }
        found
    }

    /// Whether `mv` can be seen to leave the mover's king safe without trying
    /// it: some other piece than the king moves, in the plain way, and it is
    /// none of the king's shields. `safe_king` is where that king is, if it is
    /// not attacked.
    fn is_clearly_safe(&self, mv: Move, safe_king: Option<Square>, shields: &Vec<Square>) -> (safe:
        bool)
        requires
            self@.reversible(mv),
            safe_king matches Some(square) ==> Some(square.idx()) == self@.king(self@.side)
                && !self@.checked(self@.side) && has_all_shields(shields@, self@, square.idx(), self@.side.other()),
        ensures
            safe == clearly_safe(self@, mv, safe_king is Some, shields@),
            safe ==> self@.allows(mv),
    {
        let side = self.side_to_move();
        let king = Piece::new(PieceKind::King, side);
        match mv.flag() {
            MoveFlag::EnPassant | MoveFlag::CastleKingside | MoveFlag::CastleQueenside => {
                return false;
            },
            _ => {},
        }
        match (safe_king, self.piece_at(mv.from())) {
            (Some(square), Some(piece)) => {
                if piece.color == side && piece.kind != PieceKind::King && self.piece_at(mv.to())
                    != Some(king) && !contains_square(shields, mv.from()) {
                    proof {
                        use_type_invariant(&square);
                        let q = self@.made(mv);
                        lemma_same_king(self@, q, 0, side);
                        lemma_no_new_attack(self@, q, mv.src(), mv.dst(), side, square.idx());
                    }
                    true
                } else {
                    false
                }
            },
            _ => false,
        }
    }

    /// Whether making `mv` leaves the mover's king safe. The move is made and
    /// taken back again. `own_king` is where that king is before the move; it
    /// only has to be looked for again where the move may have changed that.
    fn move_is_allowed(&mut self, mv: Move, own_king: Option<Square>) -> (allowed: bool)
        requires
            old(self)@.reversible(mv),
            Square::index_of(own_king) == old(self)@.king(old(self)@.side),
        ensures
            allowed == old(self)@.allows(mv),
            final(self)@ == old(self)@,
    {
        let side = self.side_to_move();
        let opponent = side.opposite();
        if let Some(transit_square) = castling_transit_square(mv) {
            if self.is_square_attacked(mv.from(), opponent) || self.is_square_attacked(
                transit_square,
                opponent,
            ) {
                return false;
            }
        }
        proof {
            super::make_unmake::unmake_restores(self@, mv);
        }
        let king = Piece::new(PieceKind::King, side);
        let plain = match mv.flag() {
            MoveFlag::EnPassant | MoveFlag::CastleKingside | MoveFlag::CastleQueenside => false,
            _ => self.piece_at(mv.from()) != Some(king) && self.piece_at(mv.to()) != Some(king),
        };
        let ghost before = self@;
        let undo = self.make_move(mv);
        let left_in_check = if plain {
            proof {
                lemma_same_king(before, self@, 0, side);
            }
            match own_king {
                Some(king_square) => self.is_square_attacked(king_square, opponent),
                None => false,
            }
        } else {
            self.king_attacked(side)
        };
        self.unmake_move(mv, undo);
        !left_in_check
    }

    /// The square of the king of `color`, if it has one.
    pub(crate) fn find_king(&self, color: Color) -> (square: Option<Square>)
        ensures
            Square::index_of(square) == self@.king(color),
    {
        let mut index: u8 = 0;
        while index < 64
            invariant
                index <= 64,
                self@.king(color) == self@.king_from(index as int, color),
            decreases 64 - index,
        {
            let square = Square::new(index);
            if let Some(piece) = self.piece_at(square) {
                if piece.kind == PieceKind::King && piece.color == color {
                    return Some(square);
                }
            }
            index += 1;
        }
        None
    }

    /// The square of a pawn of `color` that attacks `square`: such a pawn sits
    /// one rank behind (from the pawn's perspective) and one file to either
    /// side.
    pub(crate) fn pawn_attacker(&self, square: Square, color: Color) -> (from: Option<Square>)
        ensures
            Square::index_of(from) == self@.jump_origin(
                square.idx(),
                pawn_origins(color),
                0,
                PieceKind::Pawn,
                color,
            ),
    {
        match color {
            Color::White => {
                let origins: [(i8, i8); 2] = [(-1, -1), (1, -1)];
                assert(origins@ =~= pawn_origins(color));
                self.jump_attacker(square, color, &origins, PieceKind::Pawn)
            },
            Color::Black => {
                let origins: [(i8, i8); 2] = [(-1, 1), (1, 1)];
                assert(origins@ =~= pawn_origins(color));
                self.jump_attacker(square, color, &origins, PieceKind::Pawn)
            },
        }
    }

    /// Looks from `square` by each offset in turn for exactly the given piece.
    pub(crate) fn jump_attacker(
        &self,
        square: Square,
        color: Color,
        offsets: &[(i8, i8)],
        kind: PieceKind,
    ) -> (from: Option<Square>)
        requires
            super::movegen::small_offsets(offsets@),
        ensures
            Square::index_of(from) == self@.jump_origin(square.idx(), offsets@, 0, kind, color),
    {
        let mut k: usize = 0;
        while k < offsets.len()
            invariant
                k <= offsets.len(),
                super::movegen::small_offsets(offsets@),
                self@.jump_origin(square.idx(), offsets@, 0, kind, color) == self@.jump_origin(
                    square.idx(),
                    offsets@,
                    k as nat,
                    kind,
                    color,
                ),
            decreases offsets.len() - k,
        {
            let (df, dr) = offsets[k];
            if let Some(from) = offset_square(square, df, dr) {
                if let Some(piece) = self.piece_at(from) {
                    if piece.kind == kind && piece.color == color {
                        return Some(from);
                    }
                }
            }
            k += 1;
        }
        None
    }

    /// Looks outward from `square` along `directions` for the first
    /// piece encountered, returning its square if it's `color` and
    /// matches `kind`. A queen does not count as a bishop or rook here, so
    /// that callers can tell the two apart.
    pub(crate) fn sliding_attacker(
        &self,
        square: Square,
        color: Color,
        directions: &[(i8, i8)],
        kind: PieceKind,
    ) -> (from: Option<Square>)
        requires
            super::movegen::all_directions(directions@),
        ensures
            Square::index_of(from) == self@.slide_origin(
                square.idx(),
                directions@,
                0,
                kind,
                color,
            ),
    {
        let mut k: usize = 0;
        while k < directions.len()
            invariant
                k <= directions.len(),
                super::movegen::all_directions(directions@),
                self@.slide_origin(square.idx(), directions@, 0, kind, color) == self@.slide_origin(
                    square.idx(),
                    directions@,
                    k as nat,
                    kind,
                    color,
                ),
            decreases directions.len() - k,
        {
            let (df, dr) = directions[k];
            if let Some(from) = self.first_piece(square, df, dr) {
                if let Some(piece) = self.piece_at(from) {
                    if piece.kind == kind && piece.color == color {
                        return Some(from);
                    }
                }
            }
            k += 1;
        }
        None
    }

    /// The first occupied square beyond `square` in one direction.
    fn first_piece(&self, square: Square, df: i8, dr: i8) -> (found: Option<Square>)
        requires
            super::movegen::is_direction(df as int, dr as int),
        ensures
            Square::index_of(found) == self@.first_seen(square.idx(), df as int, dr as int),
            found matches Some(s) ==> self@.board[s.idx()] is Some,
    {
        let index: u8 = square.index();
        let mut current = square;
        loop
            invariant
                super::movegen::is_direction(df as int, dr as int),
                0 <= current.idx() < 64,
                self@.first_seen(square.idx(), df as int, dr as int) == self@.first_seen(
                    current.idx(),
                    df as int,
                    dr as int,
                ),
            decreases super::movegen::ray_room(current.idx(), df as int, dr as int),
        {
            match offset_square(current, df, dr) {
                None => {
                    return None;
                },
                Some(next) => {
                    if self.piece_at(next).is_some() {
                        return Some(next);
                    }
                    current = next;
                },
            }
        }
    }
}

/// If `mv` is a castling move, returns the square the king passes
/// through on its way to the destination (f1/f8 for kingside, d1/d8 for
/// queenside) -- the square that `is_square_attacked` must also check,
/// since `make_move` teleports the king straight to its landing square
/// and never visits this square itself.
fn castling_transit_square(mv: Move) -> (square: Option<Square>)
    ensures
        Square::index_of(square) == (if mv.is_castling() {
            Some(mv.rook_to())
        } else {
            None
        }),
{
    let rank: u8 = mv.from().rank();
    match mv.flag() {
        MoveFlag::CastleKingside => Some(Square::from_file_rank(5, rank)),
        MoveFlag::CastleQueenside => Some(Square::from_file_rank(3, rank)),
        _ => None,
    }
}

} // verus!
