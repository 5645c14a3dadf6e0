//! What the move rules guarantee, stated over all pieces and all boards.
use vstd::prelude::*;

use crate::pieces::{
    Piece,
    PieceColor,
    PieceType,
    abs,
    blocks,
    color_at,
    is_at,
    king_legal,
    knight_legal,
    lemma_color_at,
    move_legal,
    occupied,
    positions_unique,
};

verus! {

/// On a board where no two pieces share a square, `color_at` reports the
/// color of the piece that stands there.
pub proof fn lemma_color_at_unique(pieces: Seq<Piece>, i: int)
    requires
        positions_unique(pieces),
        0 <= i < pieces.len(),
    ensures
        color_at(pieces, pieces[i].x as int, pieces[i].y as int) == Some(pieces[i].color),
{
    let (x, y) = (pieces[i].x as int, pieces[i].y as int);
    assert(is_at(pieces[i], x, y));
    lemma_color_at(pieces, x, y);
    let k = choose|k: int|
        0 <= k < pieces.len() && #[trigger] is_at(pieces[k], x, y) && pieces[k].color == color_at(
            pieces,
            x,
            y,
        )->Some_0;
    assert(pieces[k].x == pieces[i].x);
}

/// A piece never moves onto a square held by a piece of its own color.
pub proof fn lemma_own_color_target_illegal(p: Piece, pieces: Seq<Piece>, i: int)
    requires
        positions_unique(pieces),
        0 <= i < pieces.len(),
        pieces[i].color == p.color,
    ensures
        !move_legal(p, pieces[i].x as int, pieces[i].y as int, pieces),
{
    lemma_color_at_unique(pieces, i);
}

/// A piece on the board never moves onto its own square.
pub proof fn lemma_own_square_illegal(p: Piece, pieces: Seq<Piece>)
    requires
        positions_unique(pieces),
        pieces.contains(p),
    ensures
        !move_legal(p, p.x as int, p.y as int, pieces),
{
    let i = choose|i: int| 0 <= i < pieces.len() && pieces[i] == p;
    lemma_own_color_target_illegal(p, pieces, i);
}

/// Rooks, bishops and queens never move past or through another piece.
pub proof fn lemma_blocked_path_illegal(p: Piece, tx: int, ty: int, pieces: Seq<Piece>, i: int)
    requires
        p.piece_type == PieceType::Rook || p.piece_type == PieceType::Bishop || p.piece_type
            == PieceType::Queen,
        0 <= i < pieces.len(),
        blocks(p.x as int, p.y as int, tx, ty, pieces[i].x as int, pieces[i].y as int),
    ensures
        !move_legal(p, tx, ty, pieces),
{
}

/// A knight moves by one square along one axis and two along the other,
/// whatever stands in between: two boards that agree on the target square
/// allow the same knight moves.
pub proof fn lemma_knight_moves(p: Piece, tx: int, ty: int, pieces: Seq<Piece>, other: Seq<Piece>)
    requires
        p.piece_type == PieceType::Knight,
    ensures
        move_legal(p, tx, ty, pieces) == (color_at(pieces, tx, ty) != Some(p.color)
            && knight_legal(tx - p.x, ty - p.y)),
        knight_legal(tx - p.x, ty - p.y) <==> ({
            let (dx, dy) = (tx - p.x, ty - p.y);
            ((dx == 1 || dx == -1) && (dy == 2 || dy == -2)) || ((dx == 2 || dx == -2) && (dy == 1
                || dy == -1))
        }),
        color_at(pieces, tx, ty) == color_at(other, tx, ty) ==> move_legal(p, tx, ty, pieces)
            == move_legal(p, tx, ty, other),
{
}

/// A White pawn on its starting rank may advance two squares exactly when
/// both squares in front of it are empty.
pub proof fn lemma_pawn_double_step(p: Piece, pieces: Seq<Piece>)
    requires
        p.piece_type == PieceType::Pawn,
        p.color == PieceColor::White,
        p.x == 1,
    ensures
        !occupied(pieces, 2, p.y as int) && !occupied(pieces, 3, p.y as int) ==> move_legal(
            p,
            3,
            p.y as int,
            pieces,
        ),
        occupied(pieces, 2, p.y as int) ==> !move_legal(p, 3, p.y as int, pieces),
{
    let y = p.y as int;
    lemma_color_at(pieces, 3, y);
    if occupied(pieces, 2, y) {
        let i = choose|i: int| 0 <= i < pieces.len() && #[trigger] is_at(pieces[i], 2, y);
        assert(blocks(1, y, 3, y, pieces[i].x as int, pieces[i].y as int));
    }
    if !occupied(pieces, 2, y) {
        assert forall|i: int| 0 <= i < pieces.len() implies !#[trigger] blocks(
            1,
            y,
            3,
            y,
            pieces[i].x as int,
            pieces[i].y as int,
        ) by {
            if blocks(1, y, 3, y, pieces[i].x as int, pieces[i].y as int) {
                assert(is_at(pieces[i], 2, y));
            }
        }
    }
}

/// A pawn moves one square diagonally forward exactly when it takes a piece
/// of the other color there.
pub proof fn lemma_pawn_diagonal(p: Piece, tx: int, ty: int, pieces: Seq<Piece>)
    requires
        p.piece_type == PieceType::Pawn,
        tx - p.x == (if p.color == PieceColor::White { 1int } else { -1int }),
        abs(ty - p.y) == 1,
    ensures
        move_legal(p, tx, ty, pieces) == (color_at(pieces, tx, ty) is Some && color_at(
            pieces,
            tx,
            ty,
        )->Some_0 != p.color),
        !occupied(pieces, tx, ty) ==> !move_legal(p, tx, ty, pieces),
{
    lemma_color_at(pieces, tx, ty);
}

/// A king moves to exactly the eight squares around it.
pub proof fn lemma_king_moves(p: Piece, tx: int, ty: int, pieces: Seq<Piece>)
    requires
        p.piece_type == PieceType::King,
    ensures
        move_legal(p, tx, ty, pieces) == (color_at(pieces, tx, ty) != Some(p.color) && king_legal(
            tx - p.x,
            ty - p.y,
        )),
        king_legal(tx - p.x, ty - p.y) <==> (-1 <= tx - p.x <= 1 && -1 <= ty - p.y <= 1 && !(tx
            == p.x && ty == p.y)),
{
}

} // verus!
