//! Board squares.

use vstd::prelude::*;

verus! {

/// A square on the board, encoded as `rank * 8 + file` (0 = a1, 63 = h8).
#[derive(Debug, Clone, Copy, PartialEq, Eq, PartialOrd, Ord, Hash, Structural)]
pub struct Square(u8);

/// The text was not the name of a square.
#[derive(Debug, Clone, Copy, PartialEq, Eq, Structural)]
pub struct ParseSquareError;

impl Square {
    /// How many squares there are.
    pub const COUNT: usize = 64;

    /// The square's index, 0 to 63.
    pub closed spec fn idx(self) -> int {
        self.0 as int
    }

    /// The square with index `i`.
    pub closed spec fn at(i: int) -> Square {
        Square(i as u8)
    }

    /// Every square is one of the 64.
    #[verifier::type_invariant]
    pub open spec fn on_board(self) -> bool {
        0 <= self.idx() < 64
    }

    /// The square `df` files to the right of and `dr` ranks above square `sq`,
    /// if that is still on the board.
    pub open spec fn shifted(sq: int, df: int, dr: int) -> Option<int> {
        let file = sq % 8 + df;
        let rank = sq / 8 + dr;
        if 0 <= file < 8 && 0 <= rank < 8 {
            Some(rank * 8 + file)
        } else {
            None
        }
    }

    /// The index of an optional square.
    pub open spec fn index_of(square: Option<Square>) -> Option<int> {
        match square {
            Some(s) => Some(s.idx()),
            None => None,
        }
    }

    /// The letter of file `file` (0 = a, 7 = h).
    pub open spec fn file_char(file: int) -> char {
        ('a' as int + file) as char
    }

    /// The digit of rank `rank` (0 = 1, 7 = 8).
    pub open spec fn rank_char(rank: int) -> char {
        ('1' as int + rank) as char
    }

    /// The algebraic name of the square with index `i`: file letter, then rank digit.
    pub open spec fn name_at(i: int) -> Seq<char> {
        seq![Self::file_char(i % 8), Self::rank_char(i / 8)]
    }

    /// The square that a text names, if it names one.
    pub open spec fn named(text: Seq<char>) -> Option<int> {
        if text.len() == 2 && 'a' <= text[0] <= 'h' && '1' <= text[1] <= '8' {
            Some((text[1] as int - '1' as int) * 8 + (text[0] as int - 'a' as int))
        } else {
            None
        }
    }

    /// Builds a square from a 0..64 index.
    #[must_use]
    pub fn new(index: u8) -> (square: Square)
        requires
            index < 64,
        ensures
            square.idx() == index,
            square == Square::at(index as int),
    {
        Square(index)
    }

    /// Builds a square from zero-based file (0=a..7=h) and rank (0=1..7=8).
    #[must_use]
    pub fn from_file_rank(file: u8, rank: u8) -> (square: Square)
        requires
            file < 8,
            rank < 8,
        ensures
            square.idx() == rank * 8 + file,
            square == Square::at(rank * 8 + file),
    {
        Square(rank * 8 + file)
    }

    /// The square's index: `rank * 8 + file`.
    #[must_use]
    pub fn index(self) -> (index: u8)
        ensures
            index == self.idx(),
            index < 64,
            self == Square::at(self.idx()),
    {
        proof {
            use_type_invariant(&self);
        }
        self.0
    }

    /// The zero-based file, 0 = a to 7 = h.
    #[must_use]
    pub fn file(self) -> (file: u8)
        ensures
            file == self.idx() % 8,
            file < 8,
    {
        self.0 % 8
    }

    /// The zero-based rank, 0 = rank 1 to 7 = rank 8.
    #[must_use]
    pub fn rank(self) -> (rank: u8)
        ensures
            rank == self.idx() / 8,
            rank < 8,
    {
        proof {
            use_type_invariant(&self);
        }
        self.0 / 8
    }

    /// The letter of this square's file.
    pub(crate) fn file_letter(self) -> (ch: char)
        ensures
            ch == Square::file_char(self.idx() % 8),
    {
        let file: u8 = self.file();
        (97u8 + file) as char
    }

    /// The digit of this square's rank.
    pub(crate) fn rank_digit(self) -> (ch: char)
        ensures
            ch == Square::rank_char(self.idx() / 8),
    {
        let rank: u8 = self.rank();
        (49u8 + rank) as char
    }

    /// The algebraic name, such as `e4`.
    #[must_use]
    pub fn to_string(self) -> (text: String)
        ensures
            text@ == Square::name_at(self.idx()),
    {
        let mut text = String::new();
        text.push(self.file_letter());
        text.push(self.rank_digit());
        text
    }

    /// The square with the given file letter and rank digit.
    pub(crate) fn from_chars(file: char, rank: char) -> (square: Option<Square>)
        ensures
            match square {
                Some(s) => Square::named(seq![file, rank]) == Some(s.idx()) && s == Square::at(
                    s.idx(),
                ),
                None => Square::named(seq![file, rank]) is None,
            },
    {
        if file < 'a' || file > 'h' || rank < '1' || rank > '8' {
            return None;
        }
        let file_index: u8 = (file as u32 - 'a' as u32) as u8;
        let rank_index: u8 = (rank as u32 - '1' as u32) as u8;
        Some(Square::from_file_rank(file_index, rank_index))
    }

    /// Parses an algebraic name such as `e4`: a lower-case file letter `a` to
    /// `h` and a rank digit `1` to `8`, and nothing else.
    #[must_use]
    pub fn parse(text: &str) -> (square: Option<Square>)
        ensures
            match square {
                Some(s) => Square::named(text@) == Some(s.idx()),
                None => Square::named(text@) is None,
            },
    {
        if text.unicode_len() != 2 {
            return None;
        }
        let file: char = text.get_char(0);
        let rank: char = text.get_char(1);
        assert(text@ =~= seq![file, rank]);
        Square::from_chars(file, rank)
    }
}

impl core::str::FromStr for Square {
    type Err = ParseSquareError;

    fn from_str(text: &str) -> (square: Result<Square, ParseSquareError>)
        ensures
            match square {
                Ok(s) => Square::named(text@) == Some(s.idx()),
                Err(_) => Square::named(text@) is None,
            },
    {
        match Square::parse(text) {
            Some(square) => Ok(square),
            None => Err(ParseSquareError),
        }
    }
}

/// Applies a file/rank offset to `square`, returning `None` if the
/// result falls off the board.
#[must_use]
pub fn offset_square(square: Square, df: i8, dr: i8) -> (result: Option<Square>)
    requires
        df <= 120,
        dr <= 120,
    ensures
        match result {
            Some(s) => Square::shifted(square.idx(), df as int, dr as int) == Some(s.idx()) && s == Square::at(
                s.idx(),
            ),
            None => Square::shifted(square.idx(), df as int, dr as int) is None,
        },
{
    let file: i8 = square.file() as i8 + df;
    let rank: i8 = square.rank() as i8 + dr;
    if file < 0 || file > 7 || rank < 0 || rank > 7 {
        return None;
    }
    Some(Square::from_file_rank(file as u8, rank as u8))
}

/// The square made from an index has that index.
pub broadcast proof fn lemma_at_idx(i: int)
    requires
        0 <= i < 64,
    ensures
        (#[trigger] Square::at(i)).idx() == i,
{
}

/// A square is the one that its own file and rank give: taking a square apart
/// and putting it together again changes nothing.
pub proof fn square_file_rank_round_trip(s: Square)
    requires
        s.on_board(),
    ensures
        0 <= s.idx() % 8 < 8,
        0 <= s.idx() / 8 < 8,
        Square::at((s.idx() / 8) * 8 + s.idx() % 8) == s,
{
}

/// Reading back the name of a square gives that square.
pub proof fn square_name_round_trip(i: int)
    requires
        0 <= i < 64,
    ensures
        Square::named(Square::name_at(i)) == Some(i),
{
}

/// Two squares with the same name are the same square.
pub proof fn square_name_injective(i: int, j: int)
    requires
        0 <= i < 64,
        0 <= j < 64,
        Square::name_at(i) == Square::name_at(j),
    ensures
        i == j,
{
    square_name_round_trip(i);
    square_name_round_trip(j);
}

} // verus!
