//! Material evaluation: a fixed value per piece kind, summed per side.

use vstd::prelude::*;

verus! {

/// The two sides of a game.
#[derive(Clone, Copy, Debug, PartialEq, Eq, Structural)]
pub enum Player {
    White,
    Black,
}

/// What stands on one square: a piece of either colour, or nothing.
#[derive(Clone, Copy, Debug, PartialEq, Eq, Structural)]
pub enum Piece {
    WPawn,
    WKnight,
    WBishop,
    WRook,
    WQueen,
    WKing,
    BPawn,
    BKnight,
    BBishop,
    BRook,
    BQueen,
    BKing,
    Empty,
}

/// The most pieces a placement can hold: one per square of the board.
pub const BOARD_SQUARES: usize = 64;

/// The greatest value any single piece has.
pub const MAX_PIECE_VALUE: i32 = 900;

/// The side a piece belongs to; an empty square belongs to nobody.
pub open spec fn owner_of(piece: Piece) -> Option<Player> {
    match piece {
        Piece::WPawn | Piece::WKnight | Piece::WBishop | Piece::WRook | Piece::WQueen
        | Piece::WKing => Some(Player::White),
        Piece::BPawn | Piece::BKnight | Piece::BBishop | Piece::BRook | Piece::BQueen
        | Piece::BKing => Some(Player::Black),
        Piece::Empty => None,
    }
}

/// The value of a piece, the same for both colours. Kings and empty squares
/// count for nothing.
pub open spec fn value_of(piece: Piece) -> int {
    match piece {
        Piece::WPawn | Piece::BPawn => 100,
        Piece::WKnight | Piece::BKnight => 320,
        Piece::WBishop | Piece::BBishop => 330,
        Piece::WRook | Piece::BRook => 500,
        Piece::WQueen | Piece::BQueen => 900,
        Piece::WKing | Piece::BKing | Piece::Empty => 0,
    }
}

/// What one piece adds to the material of `player`: its value if `player`
/// owns it, nothing otherwise.
pub open spec fn share_of(piece: Piece, player: Player) -> int {
    if owner_of(piece) == Some(player) {
        value_of(piece)
    } else {
        0
    }
}

/// The material of `player`: the sum of the values of the pieces it owns.
pub open spec fn material_of(pieces: Seq<Piece>, player: Player) -> int
    decreases pieces.len(),
{
    if pieces.len() == 0 {
        0
    } else {
        material_of(pieces.drop_last(), player) + share_of(pieces.last(), player)
    }
}

/// The score of a placement: White's material less Black's.
pub open spec fn balance_of(pieces: Seq<Piece>) -> int {
    material_of(pieces, Player::White) - material_of(pieces, Player::Black)
}

/// The material of a side lies between zero and the top piece value times the
/// number of pieces.
pub proof fn lemma_material_bounds(pieces: Seq<Piece>, player: Player)
    ensures
        0 <= material_of(pieces, player) <= MAX_PIECE_VALUE * pieces.len(),
    decreases pieces.len(),
{
    if pieces.len() > 0 {
        lemma_material_bounds(pieces.drop_last(), player);
    }
}

/// The same kind of piece in the other colour.
pub open spec fn recoloured(piece: Piece) -> Piece {
    match piece {
        Piece::WPawn => Piece::BPawn,
        Piece::WKnight => Piece::BKnight,
        Piece::WBishop => Piece::BBishop,
        Piece::WRook => Piece::BRook,
        Piece::WQueen => Piece::BQueen,
        Piece::WKing => Piece::BKing,
        Piece::BPawn => Piece::WPawn,
        Piece::BKnight => Piece::WKnight,
        Piece::BBishop => Piece::WBishop,
        Piece::BRook => Piece::WRook,
        Piece::BQueen => Piece::WQueen,
        Piece::BKing => Piece::WKing,
        Piece::Empty => Piece::Empty,
    }
}

/// The opponent of `player`.
pub open spec fn opponent_of(player: Player) -> Player {
    match player {
        Player::White => Player::Black,
        Player::Black => Player::White,
    }
}

/// With every piece recoloured, a side has the material its opponent had.
pub proof fn lemma_recoloured_material(pieces: Seq<Piece>, player: Player)
    ensures
        material_of(pieces.map_values(|piece: Piece| recoloured(piece)), opponent_of(player))
            == material_of(pieces, player),
    decreases pieces.len(),
{
    let swap = |piece: Piece| recoloured(piece);
    if pieces.len() > 0 {
        assert(pieces.map_values(swap).drop_last() =~= pieces.drop_last().map_values(swap));
        lemma_recoloured_material(pieces.drop_last(), player);
    }
}

/// A kind of piece is worth the same to both sides: with every piece
/// recoloured, the score is the opposite.
pub proof fn theorem_value_ignores_colour(pieces: Seq<Piece>)
    ensures
        balance_of(pieces.map_values(|piece: Piece| recoloured(piece))) == -balance_of(pieces),
{
    lemma_recoloured_material(pieces, Player::White);
    lemma_recoloured_material(pieces, Player::Black);
}

/// The pieces of a position, in any order. Holds at most one piece per
/// square, which keeps every score well inside `i32`.
#[derive(Debug)]
pub struct Placement {
    pieces: Vec<Piece>,
}

impl View for Placement {
    type V = Seq<Piece>;

    closed spec fn view(&self) -> Seq<Piece> {
        self.pieces@
    }
}

impl Placement {
    #[verifier::type_invariant]
    spec fn fits_board(&self) -> bool {
        self.pieces.len() <= BOARD_SQUARES
    }

    /// Takes the pieces of a position. `None` when there are more of them
    /// than the board has squares.
    pub fn new(pieces: Vec<Piece>) -> (placement: Option<Placement>)
        ensures
            placement is Some <==> pieces.len() <= BOARD_SQUARES,
            placement matches Some(p) ==> p@ == pieces@,
    {
        if pieces.len() <= BOARD_SQUARES {
            Some(Placement { pieces })
        } else {
            None
        }
    }

    /// The number of pieces held.
    pub fn len(&self) -> (n: usize)
        ensures
            n == self@.len(),
            n <= BOARD_SQUARES,
    {
        proof {
            use_type_invariant(self);
        }
        self.pieces.len()
    }

    /// The piece at position `index`.
    pub fn get(&self, index: usize) -> (piece: Piece)
        requires
            index < self@.len(),
        ensures
            piece == self@[index as int],
    {
        self.pieces[index]
    }
}

/// The side that owns `piece`, if any.
pub fn piece_owner(piece: Piece) -> (owner: Option<Player>)
    ensures
        owner == owner_of(piece),
{
    match piece {
        Piece::WPawn | Piece::WKnight | Piece::WBishop | Piece::WRook | Piece::WQueen
        | Piece::WKing => Some(Player::White),
        Piece::BPawn | Piece::BKnight | Piece::BBishop | Piece::BRook | Piece::BQueen
        | Piece::BKing => Some(Player::Black),
        Piece::Empty => None,
    }
}

/// The value of `piece`: pawn 100, knight 320, bishop 330, rook 500,
/// queen 900, king and empty square 0.
pub fn piece_to_value(piece: Piece) -> (value: i32)
    ensures
        value == value_of(piece),
        0 <= value <= MAX_PIECE_VALUE,
{
    match piece {
        Piece::WPawn | Piece::BPawn => 100,
        Piece::WKnight | Piece::BKnight => 320,
        Piece::WBishop | Piece::BBishop => 330,
        Piece::WRook | Piece::BRook => 500,
        Piece::WQueen | Piece::BQueen => 900,
        _ => 0,
    }
}

/// The material of `player` in `placement`.
pub fn material(placement: &Placement, player: Player) -> (total: i32)
    ensures
        total == material_of(placement@, player),
        0 <= total <= MAX_PIECE_VALUE * BOARD_SQUARES,
{
    let n: usize = placement.len();
    let mut total: i32 = 0;
    let mut i: usize = 0;
    while i < n
        invariant
            i <= n,
            n == placement@.len(),
            n <= BOARD_SQUARES,
            total == material_of(placement@.take(i as int), player),
            0 <= total <= MAX_PIECE_VALUE * i,
        decreases n - i,
    {
        let piece = placement.get(i);
        proof {
            assert(placement@.take(i + 1).drop_last() =~= placement@.take(i as int));
        }
        if piece_owner(piece) == Some(player) {
            total = total + piece_to_value(piece);
        }
        i = i + 1;
    }
    proof {
        assert(placement@.take(n as int) =~= placement@);
    }
    total
}

/// The score of `placement` from White's point of view: White's material
/// less Black's.
pub fn evaluate(placement: &Placement) -> (score: i32)
    ensures
        score == material_of(placement@, Player::White) - material_of(
            placement@,
            Player::Black,
        ),
        score == balance_of(placement@),
        -(MAX_PIECE_VALUE * BOARD_SQUARES) <= score <= MAX_PIECE_VALUE * BOARD_SQUARES,
{
    material(placement, Player::White) - material(placement, Player::Black)
}

} // verus!
