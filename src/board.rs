//! The board: its pieces, whose turn it is, and the selection protocol that
//! turns picked squares into moves, captures and the end of the game.
use vstd::prelude::*;

use crate::lemmas::lemma_color_at_unique;
use crate::pieces::{Piece, PieceColor, PieceType, is_at, move_legal, positions_unique};

verus! {

/// A square of the board.
#[derive(Clone, Copy, Debug, PartialEq, Eq, Structural)]
pub struct Square {
    pub x: u8,
    pub y: u8,
}

/// What the user did to a square during one update.
#[derive(Clone, Copy, Debug, PartialEq, Eq, Structural)]
pub enum SquareEvent {
    /// The square was picked.
    Chosen(Square),
    /// The square was let go.
    Cleared(Square),
}

/// The square picked last, if any.
#[derive(Clone, Copy, Debug, PartialEq, Eq, Structural)]
pub struct SelectedSquare {
    pub square: Option<Square>,
}

/// The piece picked to be moved, as its index among the board's pieces.
#[derive(Clone, Copy, Debug, PartialEq, Eq, Structural)]
pub struct SelectedPiece {
    pub index: Option<usize>,
}

/// The color of the player to move.
#[derive(Clone, Copy, Debug, PartialEq, Eq, Structural)]
pub struct PlayerTurn(pub PieceColor);

pub open spec fn opponent(c: PieceColor) -> PieceColor {
    match c {
        PieceColor::White => PieceColor::Black,
        PieceColor::Black => PieceColor::White,
    }
}

impl PlayerTurn {
    /// Hand the move to the other player.
    pub fn toggle(&mut self)
        ensures
            final(self).0 == opponent(old(self).0),
    {
        self.0 = match self.0 {
            PieceColor::White => PieceColor::Black,
            PieceColor::Black => PieceColor::White,
        }
    }

    /// Name of the player to move.
    pub fn name(&self) -> (r: &'static str)
        ensures
            self.0 == PieceColor::White ==> r@ == "White"@,
            self.0 == PieceColor::Black ==> r@ == "Black"@,
    {
        match self.0 {
            PieceColor::White => "White",
            PieceColor::Black => "Black",
        }
    }
}

impl Default for PlayerTurn {
    /// White moves first.
    fn default() -> (r: Self)
        ensures
            r.0 == PieceColor::White,
    {
        PlayerTurn(PieceColor::White)
    }
}

/// `p` stands on `sq` and, where `color` is given, has that color.
pub open spec fn matches_square(p: Piece, sq: Square, color: Option<PieceColor>) -> bool {
    is_at(p, sq.x as int, sq.y as int) && (color is None || p.color == color->Some_0)
}

/// `i` is the first index of `pieces` that matches `sq` and `color`.
pub open spec fn is_first_match(
    pieces: Seq<Piece>,
    sq: Square,
    color: Option<PieceColor>,
    i: int,
) -> bool {
    &&& 0 <= i < pieces.len()
    &&& matches_square(pieces[i], sq, color)
    &&& forall|j: int| 0 <= j < i ==> !#[trigger] matches_square(pieces[j], sq, color)
}

/// Index of the first piece on `sq` (of `color`, where one is given), if any.
pub open spec fn first_match(pieces: Seq<Piece>, sq: Square, color: Option<PieceColor>) -> Option<
    int,
> {
    if exists|i: int| is_first_match(pieces, sq, color, i) {
        Some(choose|i: int| is_first_match(pieces, sq, color, i))
    } else {
        None
    }
}

/// Find the first piece on `sq`, of `color` where one is given.
pub fn find_piece(pieces: &Vec<Piece>, sq: Square, color: Option<PieceColor>) -> (r: Option<usize>)
    ensures
        match r {
            Some(i) => first_match(pieces@, sq, color) == Some(i as int),
            None => first_match(pieces@, sq, color) is None,
        },
{
    let n = pieces.len();
    let mut i: usize = 0;
    while i < n
        invariant
            n == pieces@.len(),
            i <= n,
            forall|j: int| 0 <= j < i ==> !#[trigger] matches_square(pieces@[j], sq, color),
        decreases n - i,
    {
        let p = pieces[i];
        let color_ok = match color {
            Some(c) => p.color == c,
            None => true,
        };
        if p.x == sq.x && p.y == sq.y && color_ok {
            proof {
                assert(is_first_match(pieces@, sq, color, i as int));
                let k = choose|k: int| is_first_match(pieces@, sq, color, k);
                assert(!(k < i as int));
                assert(!((i as int) < k));
            }
            return Some(i);
        }
        i += 1;
    }
    assert(!exists|k: int| is_first_match(pieces@, sq, color, k));
    None
}

/// The mathematical state of a board.
pub struct BoardView {
    pub pieces: Seq<Piece>,
    pub square: Option<Square>,
    pub piece: Option<int>,
    pub turn: PieceColor,
    /// The piece that has just been taken and waits to be removed.
    pub taken: Option<int>,
}

impl BoardView {
    /// Indices point at pieces, and the selected piece belongs to the player to move.
    pub open spec fn wf(self) -> bool {
        &&& (self.piece matches Some(i) ==> 0 <= i < self.pieces.len() && self.pieces[i].color
            == self.turn)
        &&& (self.taken matches Some(j) ==> 0 <= j < self.pieces.len())
    }

    /// The state between two updates: well formed, no two pieces on one
    /// square, and no capture waiting to be swept.
    pub open spec fn settled(self) -> bool {
        self.wf() && positions_unique(self.pieces) && self.taken is None
    }
}

/// Follow the square events in order: the selected square afterwards, and
/// whether it was touched.
pub open spec fn track(sel: Option<Square>, events: Seq<SquareEvent>) -> (Option<Square>, bool)
    decreases events.len(),
{
    if events.len() == 0 {
        (sel, false)
    } else {
        let (s, changed) = track(sel, events.drop_last());
        match events.last() {
            SquareEvent::Chosen(q) => (Some(q), true),
            SquareEvent::Cleared(q) => if s == Some(q) {
                (None, true)
            } else {
                (s, changed)
            },
        }
    }
}

/// After the selected square changed: drop the piece when the square was let
/// go, or pick the mover's piece on the new square when none is selected yet.
/// Also says whether the selected piece was touched.
pub open spec fn resolve(b: BoardView, square_changed: bool) -> (BoardView, bool) {
    if !square_changed {
        (b, false)
    } else {
        match b.square {
            None => (BoardView { piece: None, ..b }, true),
            Some(sq) => if b.piece is Some {
                (b, false)
            } else {
                match first_match(b.pieces, sq, Some(b.turn)) {
                    Some(i) => (BoardView { piece: Some(i), ..b }, true),
                    None => (b, false),
                }
            },
        }
    }
}

/// A move attempt, made when a new square was chosen while a piece selected
/// earlier waits: a legal move marks the piece on the target as taken, moves
/// the selected piece and hands the turn over. Either way both selections end.
pub open spec fn attempt(b: BoardView, square_changed: bool, piece_changed: bool) -> BoardView {
    if square_changed && b.square is Some && !piece_changed && b.piece is Some {
        let sq = b.square->Some_0;
        let i = b.piece->Some_0;
        let p = b.pieces[i];
        let cleared = BoardView { square: None, piece: None, ..b };
        if move_legal(p, sq.x as int, sq.y as int, b.pieces) {
            BoardView {
                pieces: b.pieces.update(i, Piece { x: sq.x, y: sq.y, ..p }),
                turn: opponent(b.turn),
                taken: first_match(b.pieces, sq, None),
                ..cleared
            }
        } else {
            cleared
        }
    } else {
        b
    }
}

/// Remove the taken piece; says whether it was a king, which ends the game.
pub open spec fn sweep(b: BoardView) -> (BoardView, bool) {
    match b.taken {
        Some(j) => (
            BoardView { pieces: b.pieces.remove(j), taken: None, ..b },
            b.pieces[j].piece_type == PieceType::King,
        ),
        None => (b, false),
    }
}

/// One update of the board for a batch of square events.
pub open spec fn step(b: BoardView, events: Seq<SquareEvent>) -> (BoardView, bool) {
    let (square, square_changed) = track(b.square, events);
    let (b1, piece_changed) = resolve(BoardView { square, ..b }, square_changed);
    sweep(attempt(b1, square_changed, piece_changed))
}

/// The board: the live pieces, the selections and the player to move.
pub struct Board {
    pub pieces: Vec<Piece>,
    pub selected_square: SelectedSquare,
    pub selected_piece: SelectedPiece,
    pub turn: PlayerTurn,
    /// Index of the piece that has just been taken and waits to be removed.
    pub taken: Option<usize>,
}

pub open spec fn index_view(i: Option<usize>) -> Option<int> {
    match i {
        Some(i) => Some(i as int),
        None => None,
    }
}

impl View for Board {
    type V = BoardView;

    open spec fn view(&self) -> BoardView {
        BoardView {
            pieces: self.pieces@,
            square: self.selected_square.square,
            piece: index_view(self.selected_piece.index),
            turn: self.turn.0,
            taken: index_view(self.taken),
        }
    }
}

impl Board {
    /// Follow the square events of one update in order; returns whether the
    /// selected square was touched.
    pub fn select_squares(&mut self, events: &Vec<SquareEvent>) -> (changed: bool)
        ensures
            (final(self)@.square, changed) == track(old(self)@.square, events@),
            final(self)@ == (BoardView { square: final(self)@.square, ..old(self)@ }),
    {
        let ghost start = self.selected_square.square;
        let n = events.len();
        let mut changed = false;
        let mut i: usize = 0;
        assert(events@.subrange(0, 0) =~= Seq::<SquareEvent>::empty());
        while i < n
            invariant
                n == events@.len(),
                i <= n,
                (self.selected_square.square, changed) == track(start, events@.subrange(0, i as int)),
                self@ == (BoardView { square: self@.square, ..old(self)@ }),
            decreases n - i,
        {
            assert(events@.subrange(0, i + 1).drop_last() =~= events@.subrange(0, i as int));
            match events[i] {
                SquareEvent::Chosen(q) => {
                    self.selected_square.square = Some(q);
                    changed = true;
                },
                SquareEvent::Cleared(q) => {
                    if let Some(cur) = self.selected_square.square {
                        if cur == q {
                            self.selected_square.square = None;
                            changed = true;
                        }
                    }
                },
            }
            i += 1;
        }
        assert(events@.subrange(0, n as int) =~= events@);
        changed
    }

    /// When the selected square changed: drop the selected piece if the
    /// square was let go, or select the mover's piece on the new square if no
    /// piece is selected yet. Returns whether the selected piece was touched.
    pub fn select_piece(&mut self, square_changed: bool) -> (piece_changed: bool)
        ensures
            (final(self)@, piece_changed) == resolve(old(self)@, square_changed),
    {
        if !square_changed {
            return false;
        }
        match self.selected_square.square {
            Some(sq) => {
                if self.selected_piece.index.is_none() {
                    if let Some(i) = find_piece(&self.pieces, sq, Some(self.turn.0)) {
                        self.selected_piece.index = Some(i);
                        return true;
                    }
                }
                false
            },
            None => {
                self.selected_piece.index = None;
                true
            },
        }
    }

    /// Try to move the selected piece to a newly chosen square. A legal move
    /// marks the piece on that square as taken, moves the selected piece and
    /// hands the turn over; legal or not, both selections are cleared.
    pub fn move_piece(&mut self, square_changed: bool, piece_changed: bool)
        requires
            old(self)@.settled(),
        ensures
            final(self)@ == attempt(old(self)@, square_changed, piece_changed),
    {
        if !square_changed || piece_changed {
            return;
        }
        let sq = match self.selected_square.square {
            Some(sq) => sq,
            None => return,
        };
        let i = match self.selected_piece.index {
            Some(i) => i,
            None => return,
        };
        let other = find_piece(&self.pieces, sq, None);
        let piece = self.pieces[i];
        if piece.is_move_valid((sq.x, sq.y), &self.pieces) {
            self.taken = other;
            self.pieces[i] = Piece { x: sq.x, y: sq.y, ..piece };
            self.turn.toggle();
        }
        self.selected_square.square = None;
        self.selected_piece.index = None;
    }

    /// Remove the piece taken by the last move, if any; returns whether it
    /// was a king, which ends the game.
    pub fn remove_taken_pieces(&mut self) -> (game_over: bool)
        requires
            old(self)@.wf(),
        ensures
            (final(self)@, game_over) == sweep(old(self)@),
    {
        match self.taken {
            Some(j) => {
                let piece = self.pieces.remove(j);
                self.taken = None;
                match piece.piece_type {
                    PieceType::King => true,
                    _ => false,
                }
            },
            None => false,
        }
    }

    /// One update for the square events gathered since the last one: track
    /// the selection, resolve the selected piece, attempt a move and sweep the
    /// taken piece. Returns whether a king was taken.
    pub fn update(&mut self, events: &Vec<SquareEvent>) -> (game_over: bool)
        requires
            old(self)@.settled(),
        ensures
            (final(self)@, game_over) == step(old(self)@, events@),
            final(self)@.settled(),
    {
        let square_changed = self.select_squares(events);
        let piece_changed = self.select_piece(square_changed);
        proof {
            lemma_attempt_keeps_unique(self@, square_changed, piece_changed);
        }
        self.move_piece(square_changed, piece_changed);
        self.remove_taken_pieces()
    }
}

/// Type of the piece that starts on file `y` of a back rank.
pub open spec fn back_rank(y: int) -> PieceType {
    if y == 0 || y == 7 {
        PieceType::Rook
    } else if y == 1 || y == 6 {
        PieceType::Knight
    } else if y == 2 || y == 5 {
        PieceType::Bishop
    } else if y == 3 {
        PieceType::Queen
    } else {
        PieceType::King
    }
}

/// The `i`-th piece of the starting position: White's back rank, White's
/// pawns, then Black's back rank and Black's pawns, each from file 0 to 7.
pub open spec fn starting_piece(i: int) -> Piece {
    let white = i < 16;
    let k = if white { i } else { i - 16 };
    let color = if white { PieceColor::White } else { PieceColor::Black };
    if k < 8 {
        Piece { color, piece_type: back_rank(k), x: if white { 0 } else { 7 }, y: k as u8 }
    } else {
        Piece { color, piece_type: PieceType::Pawn, x: if white { 1 } else { 6 }, y: (k - 8) as u8 }
    }
}

fn back_rank_type(y: u8) -> (r: PieceType)
    ensures
        r == back_rank(y as int),
{
    if y == 0 || y == 7 {
        PieceType::Rook
    } else if y == 1 || y == 6 {
        PieceType::Knight
    } else if y == 2 || y == 5 {
        PieceType::Bishop
    } else if y == 3 {
        PieceType::Queen
    } else {
        PieceType::King
    }
}

/// The 32 pieces of the starting position.
pub fn create_pieces() -> (r: Vec<Piece>)
    ensures
        r@.len() == 32,
        forall|i: int| 0 <= i < 32 ==> r@[i] == starting_piece(i),
{
    let mut pieces: Vec<Piece> = Vec::new();
    let mut i: u8 = 0;
    while i < 32
        invariant
            i <= 32,
            pieces@.len() == i,
            forall|j: int| 0 <= j < i ==> pieces@[j] == starting_piece(j),
        decreases 32 - i,
    {
        let white = i < 16;
        let k = if white { i } else { i - 16 };
        let color = if white { PieceColor::White } else { PieceColor::Black };
        let piece = if k < 8 {
            Piece { color, piece_type: back_rank_type(k), x: if white { 0 } else { 7 }, y: k }
        } else {
            Piece { color, piece_type: PieceType::Pawn, x: if white { 1 } else { 6 }, y: k - 8 }
        };
        pieces.push(piece);
        i += 1;
    }
    pieces
}

/// No two pieces of the starting position share a square.
pub proof fn lemma_starting_unique(pieces: Seq<Piece>)
    requires
        pieces.len() == 32,
        forall|i: int| 0 <= i < 32 ==> pieces[i] == starting_piece(i),
    ensures
        positions_unique(pieces),
{
    assert forall|a: int, c: int|
        0 <= a < pieces.len() && 0 <= c < pieces.len() && a != c implies !(
        #[trigger] pieces[a].x == #[trigger] pieces[c].x && pieces[a].y == pieces[c].y) by {
        assert(pieces[a] == starting_piece(a));
        assert(pieces[c] == starting_piece(c));
    }
}

impl Board {
    /// The starting position, White to move, nothing selected.
    pub fn new() -> (r: Board)
        ensures
            r@.pieces.len() == 32,
            forall|i: int| 0 <= i < 32 ==> r@.pieces[i] == starting_piece(i),
            r@.turn == PieceColor::White,
            r@.square is None,
            r@.piece is None,
            r@.taken is None,
            r@.settled(),
    {
        let pieces = create_pieces();
        proof {
            lemma_starting_unique(pieces@);
        }
        Board {
            pieces,
            selected_square: SelectedSquare { square: None },
            selected_piece: SelectedPiece { index: None },
            turn: PlayerTurn::default(),
            taken: None,
        }
    }
}

/// Letting go of a square twice is the same as letting go of it once: the
/// second time nothing is selected there, so the selection stays as it is
/// and no change is reported, and an update leaves the board as it was.
pub proof fn lemma_clear_twice(b: BoardView, q: Square)
    requires
        b.settled(),
    ensures
        step(step(b, seq![SquareEvent::Cleared(q)]).0, seq![SquareEvent::Cleared(q)]) == (step(
            b,
            seq![SquareEvent::Cleared(q)],
        ).0, false),
        track(track(b.square, seq![SquareEvent::Cleared(q)]).0, seq![SquareEvent::Cleared(q)])
            == (track(b.square, seq![SquareEvent::Cleared(q)]).0, false),
{
    let e = seq![SquareEvent::Cleared(q)];
    assert(e.drop_last() =~= Seq::<SquareEvent>::empty());
    assert(e.last() == SquareEvent::Cleared(q));
    let (s1, c1) = track(b.square, e);
    assert(track(b.square, e.drop_last()) == (b.square, false));
    assert(track(s1, e.drop_last()) == (s1, false));
    assert(s1 != Some(q));
    assert(track(s1, e) == (s1, false));
}

/// Where some piece matches, there is a first one.
pub proof fn lemma_first_match_some(pieces: Seq<Piece>, sq: Square, color: Option<PieceColor>, k: int)
    requires
        0 <= k < pieces.len(),
        matches_square(pieces[k], sq, color),
    ensures
        first_match(pieces, sq, color) is Some,
    decreases k,
{
    if exists|j: int| 0 <= j < k && #[trigger] matches_square(pieces[j], sq, color) {
        let j = choose|j: int| 0 <= j < k && #[trigger] matches_square(pieces[j], sq, color);
        lemma_first_match_some(pieces, sq, color, j);
    } else {
        assert(is_first_match(pieces, sq, color, k));
    }
}

/// A move attempt followed by the sweep keeps every piece on a square of its own.
pub proof fn lemma_attempt_keeps_unique(b: BoardView, square_changed: bool, piece_changed: bool)
    requires
        b.settled(),
    ensures
        positions_unique(sweep(attempt(b, square_changed, piece_changed)).0.pieces),
{
    if square_changed && b.square is Some && !piece_changed && b.piece is Some {
        let sq = b.square->Some_0;
        let i = b.piece->Some_0;
        let p = b.pieces[i];
        if move_legal(p, sq.x as int, sq.y as int, b.pieces) {
            let moved = b.pieces.update(i, Piece { x: sq.x, y: sq.y, ..p });
            lemma_color_at_unique(b.pieces, i);
            assert(!is_at(p, sq.x as int, sq.y as int));
            match first_match(b.pieces, sq, None) {
                None => {
                    assert forall|k: int| 0 <= k < b.pieces.len() implies !#[trigger] is_at(
                        b.pieces[k],
                        sq.x as int,
                        sq.y as int,
                    ) by {
                        if is_at(b.pieces[k], sq.x as int, sq.y as int) {
                            assert(matches_square(b.pieces[k], sq, None));
                            lemma_first_match_some(b.pieces, sq, None, k);
                        }
                    }
                    assert forall|a: int, c: int|
                        0 <= a < moved.len() && 0 <= c < moved.len() && a != c implies !(
                        #[trigger] moved[a].x == #[trigger] moved[c].x && moved[a].y == moved[c].y) by {
                        if a != i && c != i {
                            assert(moved[a] == b.pieces[a] && moved[c] == b.pieces[c]);
                        } else if a == i {
                            assert(!is_at(b.pieces[c], sq.x as int, sq.y as int));
                        } else {
                            assert(!is_at(b.pieces[a], sq.x as int, sq.y as int));
                        }
                    }
                },
                Some(j) => {
                    assert(is_first_match(b.pieces, sq, None, j));
                    assert(j != i);
                    let r = moved.remove(j);
                    assert forall|a: int, c: int|
                        0 <= a < r.len() && 0 <= c < r.len() && a != c implies !(
                        #[trigger] r[a].x == #[trigger] r[c].x && r[a].y == r[c].y) by {
                        let a0 = if a < j { a } else { a + 1 };
                        let c0 = if c < j { c } else { c + 1 };
                        assert(r[a] == moved[a0] && r[c] == moved[c0]);
                        if a0 != i && c0 != i {
                            assert(moved[a0] == b.pieces[a0] && moved[c0] == b.pieces[c0]);
                        } else if a0 == i {
                            assert(b.pieces[j].x == sq.x && b.pieces[j].y == sq.y);
                            assert(moved[c0] == b.pieces[c0]);
                        } else {
                            assert(b.pieces[j].x == sq.x && b.pieces[j].y == sq.y);
                            assert(moved[a0] == b.pieces[a0]);
                        }
                    }
                },
            }
        }
    }
}

impl Board {
    /// Indices point at pieces, and the selected piece belongs to the player to move.
    pub fn is_well_formed(&self) -> (r: bool)
        ensures
            r == self@.wf(),
    {
        let n = self.pieces.len();
        let piece_ok = match self.selected_piece.index {
            Some(i) => i < n && self.pieces[i].color == self.turn.0,
            None => true,
        };
        let taken_ok = match self.taken {
            Some(j) => j < n,
            None => true,
        };
        piece_ok && taken_ok
    }

    /// No two pieces stand on one square.
    pub fn has_unique_positions(&self) -> (r: bool)
        ensures
            r == positions_unique(self@.pieces),
    {
        let n = self.pieces.len();
        let mut a: usize = 0;
        while a < n
            invariant
                n == self.pieces@.len(),
                a <= n,
                forall|i: int, j: int|
                    0 <= i < a && 0 <= j < n && i != j ==> !(#[trigger] self.pieces@[i].x
                        == #[trigger] self.pieces@[j].x && self.pieces@[i].y == self.pieces@[j].y),
            decreases n - a,
        {
            let mut c: usize = 0;
            while c < n
                invariant
                    n == self.pieces@.len(),
                    a < n,
                    c <= n,
                    forall|i: int, j: int|
                        0 <= i < a && 0 <= j < n && i != j ==> !(#[trigger] self.pieces@[i].x
                            == #[trigger] self.pieces@[j].x && self.pieces@[i].y
                            == self.pieces@[j].y),
                    forall|j: int|
                        0 <= j < c && a != j ==> !(self.pieces@[a as int].x
                            == #[trigger] self.pieces@[j].x && self.pieces@[a as int].y
                            == self.pieces@[j].y),
                decreases n - c,
            {
                if a != c && self.pieces[a].x == self.pieces[c].x
                    && self.pieces[a].y == self.pieces[c].y {
                    return false;
                }
                c += 1;
            }
            a += 1;
        }
        true
    }

    /// The state between two updates: well formed, no two pieces on one
    /// square, and no capture waiting to be swept.
    pub fn is_settled(&self) -> (r: bool)
        ensures
            r == self@.settled(),
    {
        self.is_well_formed() && self.has_unique_positions() && self.taken.is_none()
    }
}

} // verus!
