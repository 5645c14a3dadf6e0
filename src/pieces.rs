//! Chess pieces and the rules that decide whether a piece may move to a square.
use vstd::prelude::*;

verus! {

/// Color of a chess piece.
#[derive(Clone, Copy, Debug, PartialEq, Eq, Structural)]
pub enum PieceColor {
    White,
    Black,
}

/// Type of a chess piece.
#[derive(Clone, Copy, Debug, PartialEq, Eq, Structural)]
pub enum PieceType {
    King,
    Queen,
    Bishop,
    Knight,
    Rook,
    Pawn,
}

/// A chess piece: its color, its type and its square.
/// `x` is the rank (White's pawns advance towards larger `x`), `y` the file.
#[derive(Clone, Copy, Debug, PartialEq, Eq, Structural)]
pub struct Piece {
    pub color: PieceColor,
    pub piece_type: PieceType,
    pub x: u8,
    pub y: u8,
}

pub open spec fn abs(a: int) -> int {
    if a < 0 { -a } else { a }
}

/// `c` lies strictly between `a` and `b`.
pub open spec fn strictly_between(a: int, b: int, c: int) -> bool {
    (a < c && c < b) || (b < c && c < a)
}

pub open spec fn is_at(p: Piece, x: int, y: int) -> bool {
    p.x == x && p.y == y
}

/// Color of the first piece of `pieces` standing on `(x, y)`, if any.
pub open spec fn color_at(pieces: Seq<Piece>, x: int, y: int) -> Option<PieceColor>
    decreases pieces.len(),
{
    if pieces.len() == 0 {
        None
    } else if is_at(pieces[0], x, y) {
        Some(pieces[0].color)
    } else {
        color_at(pieces.drop_first(), x, y)
    }
}

/// No two pieces share a square.
pub open spec fn positions_unique(pieces: Seq<Piece>) -> bool {
    forall|i: int, j: int|
        0 <= i < pieces.len() && 0 <= j < pieces.len() && i != j ==> !(#[trigger] pieces[i].x
            == #[trigger] pieces[j].x && pieces[i].y == pieces[j].y)
}

/// Some piece of `pieces` stands on `(x, y)`.
pub open spec fn occupied(pieces: Seq<Piece>, x: int, y: int) -> bool {
    exists|i: int| 0 <= i < pieces.len() && #[trigger] is_at(pieces[i], x, y)
}

/// A piece on `(px, py)` stands strictly between `(x1, y1)` and `(x2, y2)`
/// on the column, row or diagonal that joins them.
pub open spec fn blocks(x1: int, y1: int, x2: int, y2: int, px: int, py: int) -> bool {
    (x1 == x2 && px == x1 && strictly_between(y1, y2, py))
    || (y1 == y2 && py == y1 && strictly_between(x1, x2, px))
    || (abs(x1 - x2) == abs(y1 - y2) && strictly_between(x1, x2, px)
        && strictly_between(y1, y2, py) && abs(px - x1) == abs(py - y1))
}

/// No piece stands strictly between the two squares.
pub open spec fn path_clear(x1: int, y1: int, x2: int, y2: int, pieces: Seq<Piece>) -> bool {
    forall|i: int|
        0 <= i < pieces.len() ==> !#[trigger] blocks(
            x1,
            y1,
            x2,
            y2,
            pieces[i].x as int,
            pieces[i].y as int,
        )
}

pub open spec fn king_legal(dx: int, dy: int) -> bool {
    (abs(dx) == 1 && abs(dy) <= 1) || (abs(dy) == 1 && abs(dx) <= 1)
}

pub open spec fn knight_legal(dx: int, dy: int) -> bool {
    (abs(dx) == 2 && abs(dy) == 1) || (abs(dx) == 1 && abs(dy) == 2)
}

pub open spec fn is_diagonal(dx: int, dy: int) -> bool {
    abs(dx) == abs(dy)
}

pub open spec fn is_straight(dx: int, dy: int) -> bool {
    dx == 0 || dy == 0
}

/// Rank on which the pawns of `color` start.
pub open spec fn pawn_start_rank(color: PieceColor) -> int {
    match color {
        PieceColor::White => 1,
        PieceColor::Black => 6,
    }
}

/// Pawn rules; `forward` is the distance moved towards the opponent, `side` the change of file.
pub open spec fn pawn_legal(p: Piece, tx: int, ty: int, pieces: Seq<Piece>) -> bool {
    let forward = match p.color {
        PieceColor::White => tx - p.x,
        PieceColor::Black => p.x - tx,
    };
    let side = ty - p.y;
    let target = color_at(pieces, tx, ty);
    (forward == 1 && side == 0 && target is None)
    || (p.x == pawn_start_rank(p.color) && forward == 2 && side == 0
        && path_clear(p.x as int, p.y as int, tx, ty, pieces) && target is None)
    || (forward == 1 && abs(side) == 1 && target is Some)
}

/// Whether `p` may move to `(tx, ty)` with `pieces` on the board.
pub open spec fn move_legal(p: Piece, tx: int, ty: int, pieces: Seq<Piece>) -> bool {
    let dx = tx - p.x;
    let dy = ty - p.y;
    let clear = path_clear(p.x as int, p.y as int, tx, ty, pieces);
    if color_at(pieces, tx, ty) == Some(p.color) {
        false
    } else {
        match p.piece_type {
            PieceType::King => king_legal(dx, dy),
            PieceType::Queen => clear && (is_diagonal(dx, dy) || is_straight(dx, dy)),
            PieceType::Bishop => clear && is_diagonal(dx, dy) && dx != 0,
            PieceType::Knight => knight_legal(dx, dy),
            PieceType::Rook => clear && ((dx == 0) != (dy == 0)),
            PieceType::Pawn => pawn_legal(p, tx, ty, pieces),
        }
    }
}

/// A piece stands on `(x, y)` exactly when `color_at` finds one there,
/// and the color it finds is that of a piece there.
pub proof fn lemma_color_at(pieces: Seq<Piece>, x: int, y: int)
    ensures
        (color_at(pieces, x, y) is None) <==> !occupied(pieces, x, y),
        color_at(pieces, x, y) is Some ==> exists|i: int|
            0 <= i < pieces.len() && #[trigger] is_at(pieces[i], x, y) && pieces[i].color
                == color_at(pieces, x, y)->Some_0,
    decreases pieces.len(),
{
    if pieces.len() > 0 {
        let rest = pieces.drop_first();
        lemma_color_at(rest, x, y);
        if !is_at(pieces[0], x, y) {
            if occupied(pieces, x, y) {
                let i = choose|i: int| 0 <= i < pieces.len() && #[trigger] is_at(pieces[i], x, y);
                assert(is_at(rest[i - 1], x, y));
            }
            if occupied(rest, x, y) {
                let i = choose|i: int| 0 <= i < rest.len() && #[trigger] is_at(rest[i], x, y);
                assert(is_at(pieces[i + 1], x, y));
            }
            if color_at(pieces, x, y) is Some {
                let i = choose|i: int|
                    0 <= i < rest.len() && #[trigger] is_at(rest[i], x, y) && rest[i].color
                        == color_at(rest, x, y)->Some_0;
                assert(is_at(pieces[i + 1], x, y));
            }
        } else {
            assert(is_at(pieces[0], x, y));
        }
    }
}

/// Color of the first piece standing on `position`, if any.
pub fn color_of_square(position: (u8, u8), pieces: &Vec<Piece>) -> (r: Option<PieceColor>)
    ensures
        r == color_at(pieces@, position.0 as int, position.1 as int),
{
    let n = pieces.len();
    let mut i: usize = 0;
    assert(pieces@.subrange(0, n as int) =~= pieces@);
    while i < n
        invariant
            n == pieces@.len(),
            i <= n,
            color_at(pieces@, position.0 as int, position.1 as int) == color_at(
                pieces@.subrange(i as int, n as int),
                position.0 as int,
                position.1 as int,
            ),
        decreases n - i,
    {
        let piece = pieces[i];
        assert(pieces@.subrange(i as int, n as int)[0] == piece);
        assert(pieces@.subrange(i as int, n as int).drop_first() =~= pieces@.subrange(
            i + 1,
            n as int,
        ));
        if piece.x == position.0 && piece.y == position.1 {
            return Some(piece.color);
        }
        i += 1;
    }
    None
}

/// `c` lies strictly between `a` and `b`.
fn is_between(a: u8, b: u8, c: u8) -> (r: bool)
    ensures
        r == strictly_between(a as int, b as int, c as int),
{
    (a < c && c < b) || (b < c && c < a)
}

/// Distance between two coordinates.
fn distance(a: u8, b: u8) -> (r: u8)
    ensures
        r as int == abs(a - b),
{
    if a >= b {
        a - b
    } else {
        b - a
    }
}

/// Check that no piece stands strictly between `start` and `end` on the
/// column, row or diagonal that joins them.
pub fn is_path_empty(start: (u8, u8), end: (u8, u8), pieces: &Vec<Piece>) -> (r: bool)
    ensures
        r == path_clear(start.0 as int, start.1 as int, end.0 as int, end.1 as int, pieces@),
{
    let x1 = start.0;
    let y1 = start.1;
    let x2 = end.0;
    let y2 = end.1;
    let diagonal = distance(x1, x2) == distance(y1, y2);
    let n = pieces.len();
    let mut i: usize = 0;
    while i < n
        invariant
            n == pieces@.len(),
            i <= n,
            start == (x1, y1),
            end == (x2, y2),
            diagonal == (abs(x1 - x2) == abs(y1 - y2)),
            forall|j: int|
                0 <= j < i ==> !#[trigger] blocks(
                    x1 as int,
                    y1 as int,
                    x2 as int,
                    y2 as int,
                    pieces@[j].x as int,
                    pieces@[j].y as int,
                ),
        decreases n - i,
    {
        let p = pieces[i];
        let in_column = x1 == x2 && p.x == x1 && is_between(y1, y2, p.y);
        let in_row = y1 == y2 && p.y == y1 && is_between(x1, x2, p.x);
        let on_diagonal = diagonal && is_between(x1, x2, p.x) && is_between(y1, y2, p.y)
            && distance(p.x, x1) == distance(p.y, y1);
        if in_column || in_row || on_diagonal {
            assert(blocks(x1 as int, y1 as int, x2 as int, y2 as int, p.x as int, p.y as int));
            return false;
        }
        i += 1;
    }
    true
}

/// Signed difference `a - b` of two coordinates.
fn delta(a: u8, b: u8) -> (r: i16)
    ensures
        r as int == a - b,
{
    a as i16 - b as i16
}

fn abs_delta(d: i16) -> (r: i16)
    requires
        -256 < d < 256,
    ensures
        r as int == abs(d as int),
{
    if d < 0 {
        -d
    } else {
        d
    }
}

impl Piece {
    /// Check if moving to `new_position` is valid with `pieces` on the board.
    pub fn is_move_valid(&self, new_position: (u8, u8), pieces: &Vec<Piece>) -> (r: bool)
        ensures
            r == move_legal(*self, new_position.0 as int, new_position.1 as int, pieces@),
    {
        let square_color = color_of_square(new_position, pieces);
        // Also rules out staying on the piece's own square.
        if let Some(color) = square_color {
            if color == self.color {
                return false;
            }
        }
        let dx = delta(new_position.0, self.x);
        let dy = delta(new_position.1, self.y);
        let adx = abs_delta(dx);
        let ady = abs_delta(dy);
        match self.piece_type {
            PieceType::King => (adx == 1 && ady <= 1) || (ady == 1 && adx <= 1),
            PieceType::Queen => {
                is_path_empty((self.x, self.y), new_position, pieces) && (adx == ady || dx == 0
                    || dy == 0)
            },
            PieceType::Bishop => {
                is_path_empty((self.x, self.y), new_position, pieces) && adx == ady && dx != 0
            },
            PieceType::Knight => (adx == 2 && ady == 1) || (adx == 1 && ady == 2),
            PieceType::Rook => {
                is_path_empty((self.x, self.y), new_position, pieces) && ((dx == 0) != (dy == 0))
            },
            PieceType::Pawn => {
                let forward = match self.color {
                    PieceColor::White => dx,
                    PieceColor::Black => -dx,
                };
                let start_rank = match self.color {
                    PieceColor::White => 1u8,
                    PieceColor::Black => 6u8,
                };
                // One square forward onto an empty square.
                if forward == 1 && dy == 0 && square_color.is_none() {
                    return true;
                }
                // Two squares forward from the starting rank, both squares empty.
                if self.x == start_rank && forward == 2 && dy == 0 && is_path_empty(
                    (self.x, self.y),
                    new_position,
                    pieces,
                ) && square_color.is_none() {
                    return true;
                }
                // One square diagonally forward, taking a piece; its color was checked above.
                forward == 1 && ady == 1 && square_color.is_some()
            },
        }
    }
}

} // verus!
