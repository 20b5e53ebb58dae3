use crate::zobrist::{is_piece_code, ZobristTable, COLOR_HASH, PILES, PILE_LIMIT, SQUARES};
use shogi_core::{Color, PartialPosition, Piece, PieceKind, Square};
use vstd::prelude::*;

verus! {

/// A Zobrist hash of a position.
pub type Key = u64;

/// The kind of a king.
pub const KING: u8 = 8;

/// The largest kind that a hand holds: the kinds 1 to 7 are pawn, lance,
/// knight, silver, gold, bishop and rook.
pub const LAST_HAND_KIND: u8 = 7;

/// The largest kind of piece; the kinds 9 to 14 are the promoted pawn, lance,
/// knight, silver, bishop and rook.
pub const LAST_KIND: u8 = 14;

/// A move, in plain numbers. A square is `9 * file + rank - 9`, from 1 to 81;
/// a kind of piece is a number from 1 to 14.
#[derive(Clone, Copy, Debug, PartialEq, Eq, Structural, Hash)]
pub enum Move {
    /// A piece goes from one square to another, and may promote.
    Normal { from: u8, to: u8, promote: bool },
    /// A piece of `kind` comes from the hand of the second player (`white`) or
    /// of the first onto a square.
    Drop { kind: u8, white: bool, to: u8 },
}

impl Move {
    /// The squares of the move are on the board and its kind is a kind.
    pub open spec fn spec_is_well_formed(self) -> bool {
        match self {
            Move::Normal { from, to, promote } => 1 <= from <= SQUARES && 1 <= to <= SQUARES,
            Move::Drop { kind, white, to } => 1 <= kind <= LAST_KIND && 1 <= to <= SQUARES,
        }
    }

    /// The number by which the prover orders moves before it expands them:
    /// zero for a move on the board, sixty minus the kind for a drop.
    pub open spec fn spec_order_key(self) -> u32 {
        match self {
            Move::Normal { from, to, promote } => 0,
            Move::Drop { kind, white, to } => if kind <= 60 {
                (60 - kind) as u32
            } else {
                0
            },
        }
    }

    /// Whether the squares of the move are on the board and its kind is a kind.
    #[verifier::when_used_as_spec(spec_is_well_formed)]
    pub fn is_well_formed(self) -> (b: bool)
        ensures
            b == self.spec_is_well_formed(),
    {
        match self {
            Move::Normal { from, to, promote } => 1 <= from && from <= 81 && 1 <= to && to <= 81,
            Move::Drop { kind, white, to } => 1 <= kind && kind <= LAST_KIND && 1 <= to && to
                <= 81,
        }
    }

    /// The number by which the prover orders moves before it expands them.
    #[verifier::when_used_as_spec(spec_order_key)]
    pub fn order_key(self) -> (key: u32)
        ensures
            key == self.spec_order_key(),
    {
        match self {
            Move::Normal { from, to, promote } => 0,
            Move::Drop { kind, white, to } => if kind <= 60 {
                (60 - kind) as u32
            } else {
                0
            },
        }
    }
}

/// The kind of the piece with this code.
pub open spec fn code_kind(code: u8) -> u8 {
    code % 16
}

/// Whether the piece with this code is the second player's.
pub open spec fn code_white(code: u8) -> bool {
    code >= 16
}

/// The code of a player's piece of a kind.
pub open spec fn piece_code(kind: u8, white: bool) -> u8 {
    if white {
        (kind + 16) as u8
    } else {
        kind
    }
}

/// The code of the piece after it promotes, if a piece of its kind can.
pub open spec fn promoted_code(code: u8) -> Option<u8> {
    let kind = code_kind(code);
    if 1 <= kind <= 4 {
        Some((code + 8) as u8)
    } else if 6 <= kind <= 7 {
        Some((code + 7) as u8)
    } else {
        None
    }
}

/// The kind that a piece of `kind` has in a hand: a promoted piece goes back
/// to what it was.
pub open spec fn base_kind(kind: u8) -> u8 {
    if 9 <= kind <= 12 {
        (kind - 8) as u8
    } else if 13 <= kind <= 14 {
        (kind - 7) as u8
    } else {
        kind
    }
}

/// The pile of a player's pieces of a kind in hand.
pub open spec fn pile_of(white: bool, kind: u8) -> int {
    kind - 1 + if white {
        7int
    } else {
        0int
    }
}

/// No pile holds more than eighteen pieces.
pub open spec fn piles_in_limit(hands: Seq<u8>) -> bool {
    forall|pile: int| 0 <= pile < PILES ==> #[trigger] hands[pile] <= PILE_LIMIT
}

/// What a position holds, as the logic reads it: the 81 cells of the board
/// (zero for an empty cell, else the code of a piece), the fourteen piles of
/// pieces in hand, the side to move, and for each player the square on which
/// a king of theirs was last put (zero for none).
pub ghost struct Configuration {
    pub cells: Seq<u8>,
    pub hands: Seq<u8>,
    pub white_to_move: bool,
    pub kings: Seq<u8>,
}

/// The position after a move, or `None` where the move makes no sense in it:
/// no piece of the side to move stands on the square it leaves, the piece
/// cannot promote as asked, the square it goes to holds a piece of the same
/// side or a king; or, for a drop, the piece is not the side's, is promoted,
/// the square is taken, or the hand holds no such piece. No rule of the game
/// beyond these is looked at.
pub open spec fn after_move(c: Configuration, mv: Move) -> Option<Configuration> {
    match mv {
        Move::Normal { from, to, promote } => {
            let piece = c.cells[from - 1];
            let enemy = c.cells[to - 1];
            let target = if promote {
                promoted_code(piece)
            } else {
                Some(piece)
            };
            let pile = pile_of(c.white_to_move, base_kind(code_kind(enemy)));
            if piece == 0 || code_white(piece) != c.white_to_move || target is None {
                None
            } else if enemy != 0 && (code_white(enemy) == c.white_to_move || base_kind(
                code_kind(enemy),
            ) == KING) {
                None
            } else {
                Some(
                    Configuration {
                        cells: c.cells.update(from - 1, 0).update(to - 1, target.unwrap()),
                        hands: if enemy != 0 {
                            c.hands.update(
                                pile,
                                if c.hands[pile] == 255 {
                                    0u8
                                } else {
                                    (c.hands[pile] + 1) as u8
                                },
                            )
                        } else {
                            c.hands
                        },
                        white_to_move: !c.white_to_move,
                        kings: if code_kind(piece) == KING {
                            c.kings.update(
                                if c.white_to_move {
                                    1int
                                } else {
                                    0int
                                },
                                to,
                            )
                        } else {
                            c.kings
                        },
                    },
                )
            }
        },
        Move::Drop { kind, white, to } => {
            let pile = pile_of(white, kind);
            if white != c.white_to_move || kind > LAST_HAND_KIND || c.cells[to - 1] != 0
                || c.hands[pile] == 0 {
                None
            } else {
                Some(
                    Configuration {
                        cells: c.cells.update(to - 1, piece_code(kind, white)),
                        hands: c.hands.update(pile, (c.hands[pile] - 1) as u8),
                        white_to_move: !c.white_to_move,
                        kings: c.kings,
                    },
                )
            }
        },
    }
}

/// Whether a position with this content accepts a move: the move is well
/// formed, it makes sense in the position, and no pile outgrows its limit.
pub open spec fn acceptable(c: Configuration, mv: Move) -> bool {
    &&& mv.spec_is_well_formed()
    &&& after_move(c, mv) matches Some(next) && piles_in_limit(next.hands)
}

/// The position that a list of moves leads to, each move made in the
/// position that the one before it left; `None` where a move is not
/// accepted.
pub open spec fn played(c: Configuration, moves: Seq<Move>) -> Option<Configuration>
    decreases moves.len(),
{
    if moves.len() == 0 {
        Some(c)
    } else {
        match played(c, moves.drop_last()) {
            Some(before) => if moves.last().spec_is_well_formed() && piles_in_limit(
                before.hands,
            ) {
                match after_move(before, moves.last()) {
                    Some(next) => if piles_in_limit(next.hands) {
                        Some(next)
                    } else {
                        None
                    },
                    None => None,
                }
            } else {
                None
            },
            None => None,
        }
    }
}

/// `shogi_core::PartialPosition`, a board with two hands and a side to move.
#[verifier::external_type_specification]
#[verifier::external_body]
pub struct ExPartialPosition(shogi_core::PartialPosition);

/// The 81 cells of a position's board, by square minus one: zero for an empty
/// cell, else the code of the piece on it.
pub uninterp spec fn position_cells(position: PartialPosition) -> Seq<u8>;

/// The fourteen piles of a position's hands: the first player's seven kinds,
/// then the second player's.
pub uninterp spec fn position_hands(position: PartialPosition) -> Seq<u8>;

/// Whether the second player is to move in a position.
pub uninterp spec fn position_white_to_move(position: PartialPosition) -> bool;

/// The squares that a position records for the two kings: for each player the
/// square on which a king of theirs was last put, zero for none.
pub uninterp spec fn position_kings(position: PartialPosition) -> Seq<u8>;

/// The checks that the move generator lists, in its order, for a position
/// with these cells, hands, side to move and recorded kings.
pub uninterp spec fn checks_of(
    cells: Seq<u8>,
    hands: Seq<u8>,
    white_to_move: bool,
    kings: Seq<u8>,
) -> Seq<Move>;

/// The legal moves that the move generator lists, in its order, for a
/// position with these cells, hands, side to move and recorded kings.
pub uninterp spec fn evasions_of(
    cells: Seq<u8>,
    hands: Seq<u8>,
    white_to_move: bool,
    kings: Seq<u8>,
) -> Seq<Move>;

/// What a position holds: its 81 cells, its fourteen piles, its side to move
/// and its two recorded kings.
pub open spec fn configuration_of(position: PartialPosition) -> Configuration {
    Configuration {
        cells: Seq::new(SQUARES as nat, |i: int| position_cells(position)[i]),
        hands: Seq::new(PILES as nat, |i: int| position_hands(position)[i]),
        white_to_move: position_white_to_move(position),
        kings: Seq::new(2, |i: int| position_kings(position)[i]),
    }
}

/// The position with nothing on the board and nothing in the hands, the first
/// player to move.
pub open spec fn empty_configuration() -> Configuration {
    Configuration {
        cells: Seq::new(SQUARES as nat, |i: int| 0u8),
        hands: Seq::new(PILES as nat, |i: int| 0u8),
        white_to_move: false,
        kings: Seq::new(2, |i: int| 0u8),
    }
}

/// A position with one cell of its board set: to a piece of `kind` of the
/// second player (`white`) or the first, or to nothing where `kind` is zero.
/// Where a king is put, its square is recorded.
pub open spec fn with_cell(c: Configuration, square: u8, kind: u8, white: bool) -> Configuration {
    Configuration {
        cells: c.cells.update(
            square - 1,
            if kind == 0 {
                0u8
            } else {
                piece_code(kind, white)
            },
        ),
        hands: c.hands,
        white_to_move: c.white_to_move,
        kings: if kind == KING {
            c.kings.update(
                if white {
                    1int
                } else {
                    0int
                },
                square,
            )
        } else {
            c.kings
        },
    }
}

/// A position with one player's hand emptied.
pub open spec fn without_hand(c: Configuration, white: bool) -> Configuration {
    Configuration {
        cells: c.cells,
        hands: Seq::new(
            PILES as nat,
            |i: int|
                if (i >= 7) == white {
                    0u8
                } else {
                    c.hands[i]
                },
        ),
        white_to_move: c.white_to_move,
        kings: c.kings,
    }
}

/// `PartialPosition::empty`. The contract claims that the position holds
/// nothing, with the first player to move.
#[verifier::external_body]
pub(crate) fn empty_position() -> (position: PartialPosition)
    ensures
        configuration_of(position) == empty_configuration(),
{
    PartialPosition::empty()
}

/// `PartialPosition::piece_set`, with the piece given by its kind and player
/// and no piece as the kind zero. The contract claims that the cell of the
/// square changes, and the record of a king's square where a king is put.
#[verifier::external_body]
pub(crate) fn set_cell(position: &mut PartialPosition, square: u8, kind: u8, white: bool)
    requires
        1 <= square <= SQUARES,
        kind <= LAST_KIND,
    ensures
        configuration_of(*final(position)) == with_cell(
            configuration_of(*old(position)),
            square,
            kind,
            white,
        ),
{
    let piece = PieceKind::from_u8(kind).map(|k| Piece::new(k, Color::all()[white as usize]));
    position.piece_set(Square::from_u8(square).unwrap(), piece);
}

/// `Hand::new`, put in place of the hand that
/// `PartialPosition::hand_of_a_player_mut` gives. The contract claims that
/// the player's hand is empty afterwards and that nothing else changes.
#[verifier::external_body]
pub(crate) fn clear_hand(position: &mut PartialPosition, white: bool)
    ensures
        configuration_of(*final(position)) == without_hand(configuration_of(*old(position)), white),
{
    *position.hand_of_a_player_mut(Color::all()[white as usize]) = shogi_core::Hand::new();
}

/// `PartialPosition::piece_at`, with the piece given as its code
/// (`Piece::as_u8`) and an empty cell as zero. The contract claims that the
/// call reads the cell of the square, and that a cell holds a piece or none.
#[verifier::external_body]
fn cell_at(position: &PartialPosition, square: u8) -> (cell: u8)
    requires
        1 <= square <= SQUARES,
    ensures
        cell == position_cells(*position)[square - 1],
        cell == 0 || is_piece_code(cell),
{
    position.piece_at(Square::from_u8(square).unwrap()).map_or(0, |p| p.as_u8())
}

/// `PartialPosition::hand`, for a player's pieces of one kind. The contract
/// claims that the call reads the pile of that player and kind.
#[verifier::external_body]
fn hand_count(position: &PartialPosition, white: bool, kind: u8) -> (count: u8)
    requires
        1 <= kind <= LAST_HAND_KIND,
    ensures
        count == position_hands(*position)[pile_of(white, kind)],
{
    let color = Color::all()[white as usize];
    position.hand(Piece::new(PieceKind::from_u8(kind).unwrap(), color))
        .unwrap()
}

/// `PartialPosition::side_to_move`.
#[verifier::external_body]
fn white_to_move(position: &PartialPosition) -> (white: bool)
    ensures
        white == position_white_to_move(*position),
{
    position.side_to_move() == Color::White
}

/// `PartialPosition::make_move`. The contract claims that the call accepts a
/// move exactly where `after_move` gives a position, that the position then
/// holds what `after_move` says, and that a position which rejects a move
/// holds what it held.
#[verifier::external_body]
fn apply_move(position: &mut PartialPosition, mv: Move) -> (accepted: bool)
    requires
        mv.is_well_formed(),
    ensures
        accepted == after_move(configuration_of(*old(position)), mv).is_some(),
        configuration_of(*final(position)) == if accepted {
            after_move(configuration_of(*old(position)), mv).unwrap()
        } else {
            configuration_of(*old(position))
        },
{
    let square = |s: u8| Square::from_u8(s).unwrap();
    let outside = match mv {
        Move::Normal { from, to, promote } => {
            shogi_core::Move::Normal { from: square(from), to: square(to), promote }
        },
        Move::Drop { kind, white, to } => {
            let piece = Piece::new(PieceKind::from_u8(kind).unwrap(), Color::all()[white as usize]);
            shogi_core::Move::Drop { piece, to: square(to) }
        },
    };
    position.make_move(outside).is_some()
}

/// `Hand::removed` on the hand that `PartialPosition::hand_of_a_player_mut`
/// gives: one piece of a kind leaves a player's hand. The contract claims that
/// the pile shrinks by one and that nothing else changes.
#[verifier::external_body]
fn take_from_hand(position: &mut PartialPosition, white: bool, kind: u8)
    requires
        1 <= kind <= LAST_HAND_KIND,
        configuration_of(*old(position)).hands[pile_of(white, kind)] > 0,
    ensures
        configuration_of(*final(position)).hands == configuration_of(*old(position)).hands.update(
            pile_of(white, kind),
            (configuration_of(*old(position)).hands[pile_of(white, kind)] - 1) as u8,
        ),
        configuration_of(*final(position)).cells == configuration_of(*old(position)).cells,
        configuration_of(*final(position)).white_to_move == configuration_of(
            *old(position),
        ).white_to_move,
        configuration_of(*final(position)).kings == configuration_of(*old(position)).kings,
{
    let hand = position.hand_of_a_player_mut(Color::all()[white as usize]);
    *hand = hand.removed(PieceKind::from_u8(kind).unwrap()).unwrap();
}

/// `Hand::added` on the hand that `PartialPosition::hand_of_a_player_mut`
/// gives: one piece of a kind joins a player's hand. The contract claims that
/// the pile grows by one and that nothing else changes.
#[verifier::external_body]
pub(crate) fn put_in_hand(position: &mut PartialPosition, white: bool, kind: u8)
    requires
        1 <= kind <= LAST_HAND_KIND,
        configuration_of(*old(position)).hands[pile_of(white, kind)] < 255,
    ensures
        configuration_of(*final(position)).hands == configuration_of(*old(position)).hands.update(
            pile_of(white, kind),
            (configuration_of(*old(position)).hands[pile_of(white, kind)] + 1) as u8,
        ),
        configuration_of(*final(position)).cells == configuration_of(*old(position)).cells,
        configuration_of(*final(position)).white_to_move == configuration_of(
            *old(position),
        ).white_to_move,
        configuration_of(*final(position)).kings == configuration_of(*old(position)).kings,
{
    let hand = position.hand_of_a_player_mut(Color::all()[white as usize]);
    *hand = hand.added(PieceKind::from_u8(kind).unwrap()).unwrap();
}

/// `PartialPosition::clone`. The contract claims that the copy holds what the
/// position holds.
#[verifier::external_body]
fn clone_position(position: &PartialPosition) -> (copy: PartialPosition)
    ensures
        position_cells(copy) == position_cells(*position),
        position_hands(copy) == position_hands(*position),
        position_white_to_move(copy) == position_white_to_move(*position),
        position_kings(copy) == position_kings(*position),
{
    position.clone()
}

/// `shogi_legality_lite::all_checks_partial`, each move given in plain
/// numbers. The contract names the list, which depends on what the position
/// holds alone, and claims that every square and kind in it is one.
#[verifier::external_body]
fn generate_checks(position: &PartialPosition) -> (moves: Vec<Move>)
    ensures
        moves@ == checks_of(
            configuration_of(*position).cells,
            configuration_of(*position).hands,
            configuration_of(*position).white_to_move,
            configuration_of(*position).kings,
        ),
        forall|i: int| 0 <= i < moves@.len() ==> (#[trigger] moves@[i]).is_well_formed(),
{
    let plain = |mv: shogi_core::Move| match mv {
        shogi_core::Move::Normal { from, to, promote } => {
            Move::Normal { from: from.index(), to: to.index(), promote }
        },
        shogi_core::Move::Drop { piece, to } => {
            let white = piece.color() == Color::White;
            Move::Drop { kind: piece.piece_kind() as u8, white, to: to.index() }
        },
    };
    shogi_legality_lite::all_checks_partial(position).into_iter().map(plain).collect()
}

/// `shogi_legality_lite::all_legal_moves_partial`, each move given in plain
/// numbers. The contract names the list, which depends on what the position
/// holds alone, and claims that every square and kind in it is one.
#[verifier::external_body]
fn generate_evasions(position: &PartialPosition) -> (moves: Vec<Move>)
    ensures
        moves@ == evasions_of(
            configuration_of(*position).cells,
            configuration_of(*position).hands,
            configuration_of(*position).white_to_move,
            configuration_of(*position).kings,
        ),
        forall|i: int| 0 <= i < moves@.len() ==> (#[trigger] moves@[i]).is_well_formed(),
{
    let plain = |mv: shogi_core::Move| match mv {
        shogi_core::Move::Normal { from, to, promote } => {
            Move::Normal { from: from.index(), to: to.index(), promote }
        },
        shogi_core::Move::Drop { piece, to } => {
            let white = piece.color() == Color::White;
            Move::Drop { kind: piece.piece_kind() as u8, white, to: to.index() }
        },
    };
    shogi_legality_lite::all_legal_moves_partial(position).into_iter().map(plain).collect()
}

/// The code of the piece after it promotes, if a piece of its kind can.
fn promote_code(code: u8) -> (promoted: Option<u8>)
    requires
        is_piece_code(code),
    ensures
        promoted == promoted_code(code),
        promoted matches Some(p) ==> is_piece_code(p),
{
    let kind: u8 = code % 16;
    if 1 <= kind && kind <= 4 {
        Some(code + 8)
    } else if 6 <= kind && kind <= 7 {
        Some(code + 7)
    } else {
        None
    }
}

/// The kind that a piece of `kind` has in a hand.
fn hand_kind(kind: u8) -> (base: u8)
    requires
        1 <= kind <= LAST_KIND,
    ensures
        base == base_kind(kind),
        1 <= base <= KING,
{
    if 9 <= kind && kind <= 12 {
        kind - 8
    } else if 13 <= kind {
        kind - 7
    } else {
        kind
    }
}

/// The pile of a player's pieces of a kind in hand.
fn pile_index(white: bool, kind: u8) -> (pile: usize)
    requires
        1 <= kind <= LAST_HAND_KIND,
    ensures
        pile == pile_of(white, kind),
        pile < PILES,
{
    let offset: usize = if white {
        7
    } else {
        0
    };
    (kind - 1) as usize + offset
}

/// A position together with its Zobrist hash, which every change of the
/// position keeps up to date.
pub struct PositionWrapper {
    inner: PartialPosition,
    hash: Key,
}

impl Clone for PositionWrapper {
    /// A copy of the position, with its hash.
    fn clone(&self) -> (copy: Self)
        ensures
            copy@ == self@,
            copy.spec_zobrist_hash() == self.spec_zobrist_hash(),
    {
        PositionWrapper { inner: clone_position(&self.inner), hash: self.hash }
    }
}

impl PositionWrapper {
    /// The position that is wrapped.
    pub closed spec fn spec_inner(&self) -> PartialPosition {
        self.inner
    }

    /// The hash that is kept.
    pub closed spec fn spec_zobrist_hash(&self) -> Key {
        self.hash
    }

    /// What the position holds.
    pub open spec fn view(&self) -> Configuration {
        configuration_of(self.spec_inner())
    }

    /// The invariant: no pile holds more than eighteen pieces, and the hash
    /// that is kept is the one that hashing the position from scratch gives.
    pub open spec fn wf(&self, table: &ZobristTable) -> bool {
        &&& piles_in_limit(self@.hands)
        &&& self.spec_zobrist_hash() == table.hash_of(
            self@.cells,
            self@.hands,
            self@.white_to_move,
        )
    }

    /// Whether a move can be made: it makes sense in the position, and no pile
    /// outgrows its limit by it.
    pub open spec fn accepts(&self, mv: Move) -> bool {
        &&& mv.is_well_formed()
        &&& after_move(self@, mv) matches Some(c) && piles_in_limit(c.hands)
    }

    /// The hash of a position, computed over all of its board and hands.
    pub fn compute_hash(position: &PartialPosition, table: &ZobristTable) -> (hash: Key)
        requires
            table.wf(),
            piles_in_limit(configuration_of(*position).hands),
        ensures
            hash == table.hash_of(
                configuration_of(*position).cells,
                configuration_of(*position).hands,
                configuration_of(*position).white_to_move,
            ),
    {
        let ghost cells = configuration_of(*position).cells;
        let ghost hands = configuration_of(*position).hands;
        let mut x: u64 = 0;
        let mut square: u8 = 1;
        while square <= 81
            invariant
                1 <= square <= 82,
                table.wf(),
                cells == configuration_of(*position).cells,
                x == table.board_hash(cells, square - 1),
            decreases 82 - square,
        {
            let cell: u8 = cell_at(position, square);
            if cell != 0 {
                x = x ^ table.word_on_board((square - 1) as usize, cell);
            } else {
                assert(x ^ 0u64 == x) by (bit_vector);
            }
            square += 1;
        }
        let mut y: u64 = 0;
        let mut pile: usize = 0;
        while pile < 14
            invariant
                pile <= 14,
                table.wf(),
                hands == configuration_of(*position).hands,
                piles_in_limit(hands),
                y == table.hands_hash(hands, pile as int),
            decreases 14 - pile,
        {
            let white: bool = pile >= 7;
            let kind: u8 = if white {
                (pile - 6) as u8
            } else {
                (pile + 1) as u8
            };
            let count: u8 = hand_count(position, white, kind);
            assert(hands[pile as int] <= PILE_LIMIT);
            let mut z: u64 = 0;
            let mut place: usize = 0;
            while place < count as usize
                invariant
                    place <= count <= PILE_LIMIT,
                    pile < 14,
                    table.wf(),
                    z == table.pile_hash(pile as int, place as int),
                decreases count - place,
            {
                z = z ^ table.word_in_hand(pile, place);
                place += 1;
            }
            y = y ^ z;
            pile += 1;
        }
        let side: u64 = if white_to_move(position) {
            COLOR_HASH
        } else {
            0
        };
        x ^ y ^ side
    }

    /// Wraps a position, hashing it from scratch.
    pub fn new(position: PartialPosition, table: &ZobristTable) -> (wrapped: Self)
        requires
            table.wf(),
            piles_in_limit(configuration_of(position).hands),
        ensures
            wrapped.wf(table),
            wrapped.spec_inner() == position,
    {
        let hash: u64 = Self::compute_hash(&position, table);
        PositionWrapper { inner: position, hash }
    }

    /// Wraps a copy of a position, hashing it from scratch.
    pub fn wrap(position: &PartialPosition, table: &ZobristTable) -> (wrapped: Self)
        requires
            table.wf(),
            piles_in_limit(configuration_of(*position).hands),
        ensures
            wrapped.wf(table),
            wrapped@ == configuration_of(*position),
    {
        Self::new(clone_position(position), table)
    }

    /// Wraps a copy of a position if none of its piles holds more than
    /// eighteen pieces.
    pub fn try_wrap(position: &PartialPosition, table: &ZobristTable) -> (wrapped: Option<Self>)
        requires
            table.wf(),
        ensures
            wrapped is Some <==> piles_in_limit(configuration_of(*position).hands),
            wrapped matches Some(w) ==> w.wf(table) && w@ == configuration_of(*position),
    {
        Self::try_new(clone_position(position), table)
    }

    /// Wraps a position if none of its piles holds more than eighteen pieces.
    pub fn try_new(position: PartialPosition, table: &ZobristTable) -> (wrapped: Option<Self>)
        requires
            table.wf(),
        ensures
            wrapped is Some <==> piles_in_limit(configuration_of(position).hands),
            wrapped matches Some(w) ==> w.wf(table) && w.spec_inner() == position,
    {
        let ghost hands = configuration_of(position).hands;
        let mut pile: usize = 0;
        while pile < 14
            invariant
                pile <= 14,
                hands == configuration_of(position).hands,
                forall|p: int| 0 <= p < pile ==> #[trigger] hands[p] <= PILE_LIMIT,
            decreases 14 - pile,
        {
            let white: bool = pile >= 7;
            let kind: u8 = if white {
                (pile - 6) as u8
            } else {
                (pile + 1) as u8
            };
            if hand_count(&position, white, kind) > 18 {
                assert(hands[pile as int] > PILE_LIMIT);
                return None;
            }
            pile += 1;
        }
        Some(Self::new(position, table))
    }

    /// The checks that the side to move can give, as the move generator lists
    /// them.
    pub fn all_checks(&self) -> (moves: Vec<Move>)
        ensures
            moves@ == checks_of(
                self@.cells,
                self@.hands,
                self@.white_to_move,
                self@.kings,
            ),
            forall|i: int| 0 <= i < moves@.len() ==> (#[trigger] moves@[i]).is_well_formed(),
    {
        generate_checks(&self.inner)
    }

    /// The legal moves of the side to move, as the move generator lists them.
    pub fn all_evasions(&self) -> (moves: Vec<Move>)
        ensures
            moves@ == evasions_of(
                self@.cells,
                self@.hands,
                self@.white_to_move,
                self@.kings,
            ),
            forall|i: int| 0 <= i < moves@.len() ==> (#[trigger] moves@[i]).is_well_formed(),
    {
        generate_evasions(&self.inner)
    }

    /// The hash of the position.
    #[verifier::when_used_as_spec(spec_zobrist_hash)]
    pub fn zobrist_hash(&self) -> (hash: Key)
        ensures
            hash == self.spec_zobrist_hash(),
    {
        self.hash
    }

    /// The position that is wrapped.
    pub fn inner(&self) -> (position: &PartialPosition)
        ensures
            *position == self.spec_inner(),
    {
        &self.inner
    }

    /// Whether the second player is to move.
    pub fn white_to_move(&self) -> (white: bool)
        ensures
            white == self@.white_to_move,
    {
        white_to_move(&self.inner)
    }

    /// How many pieces of a kind a player holds in hand.
    pub fn hand(&self, white: bool, kind: u8) -> (count: u8)
        requires
            1 <= kind <= LAST_HAND_KIND,
        ensures
            count == self@.hands[pile_of(white, kind)],
    {
        hand_count(&self.inner, white, kind)
    }


    /// Makes a move if the position accepts it, and says whether it did. The
    /// hash follows the move: the words of the cells and of the pile that
    /// change, and the word of the side to move.
    pub fn try_make_move(&mut self, mv: Move, table: &ZobristTable) -> (done: bool)
        requires
            table.wf(),
            old(self).wf(table),
        ensures
            done == old(self).accepts(mv),
            final(self).wf(table),
            done ==> Some(final(self)@) == after_move(old(self)@, mv),
            !done ==> final(self)@ == old(self)@ && final(self).spec_zobrist_hash() == old(
                self,
            ).spec_zobrist_hash(),
    {
        if !mv.is_well_formed() {
            return false;
        }
        let ghost c = self@;
        let ghost old_hash = self.hash;
        let mover: bool = white_to_move(&self.inner);
        match mv {
            Move::Normal { from, to, promote } => {
                let piece: u8 = cell_at(&self.inner, from);
                let enemy: u8 = cell_at(&self.inner, to);
                if piece == 0 {
                    return false;
                }
                let target: u8 = if promote {
                    match promote_code(piece) {
                        Some(p) => p,
                        None => {
                            return false;
                        },
                    }
                } else {
                    piece
                };
                let mut taken: u64 = 0;
                if enemy != 0 {
                    let kind: u8 = hand_kind(enemy % 16);
                    if kind == KING {
                        return false;
                    }
                    let count: u8 = hand_count(&self.inner, mover, kind);
                    let pile: usize = pile_index(mover, kind);
                    assert(c.hands[pile as int] == count);
                    if count >= 18 {
                        proof {
                            if after_move(c, mv) is Some {
                                let after = after_move(c, mv).unwrap();
                                assert(after.hands[pile as int] > PILE_LIMIT);
                            }
                        }
                        return false;
                    }
                    taken = table.word_in_hand(pile, count as usize) ^ table.word_on_board(
                        (to - 1) as usize,
                        enemy,
                    );
                }
                if !apply_move(&mut self.inner, mv) {
                    return false;
                }
                let left: u64 = table.word_on_board((from - 1) as usize, piece);
                let came: u64 = table.word_on_board((to - 1) as usize, target);
                proof {
                    let after = after_move(c, mv).unwrap();
                    let cleared = c.cells.update(from - 1, 0);
                    table.lemma_board_hash_update(c.cells, from - 1, 0, SQUARES as int);
                    table.lemma_board_hash_update(cleared, to - 1, target, SQUARES as int);
                    let b0 = table.board_hash(c.cells, SQUARES as int);
                    let b2 = table.board_hash(after.cells, SQUARES as int);
                    let h0 = table.hands_hash(c.hands, PILES as int);
                    let h2 = table.hands_hash(after.hands, PILES as int);
                    let we = table.board_word(to - 1, enemy);
                    assert(b2 == b0 ^ left ^ 0u64 ^ we ^ came);
                    let s0: u64 = if c.white_to_move {
                        COLOR_HASH
                    } else {
                        0
                    };
                    let s2: u64 = if after.white_to_move {
                        COLOR_HASH
                    } else {
                        0
                    };
                    assert(s2 == s0 ^ 1u64) by (bit_vector)
                        requires
                            (s0 == 0 && s2 == 1) || (s0 == 1 && s2 == 0),
                    ;
                    if enemy != 0 {
                        let pile = pile_of(mover, base_kind(code_kind(enemy)));
                        let count = c.hands[pile];
                        let hw = table.hand_word(pile, count as int);
                        table.lemma_hands_hash_update(
                            c.hands,
                            pile,
                            (count + 1) as u8,
                            PILES as int,
                        );
                        table.lemma_pile_step(pile, count as int);
                        let low = table.pile_hash(pile, count as int);
                        let high = table.pile_hash(pile, count + 1);
                        assert(h2 == h0 ^ low ^ high);
                        assert(taken == hw ^ we);
                        assert((b0 ^ left ^ 0u64 ^ we ^ came) ^ (h0 ^ low ^ high) ^ (s0 ^ 1u64) == (b0 ^ h0
                            ^ s0) ^ (1u64 ^ (hw ^ we) ^ left ^ came)) by (bit_vector)
                            requires
                                low ^ high == hw,
                        ;
                        assert forall|p: int| 0 <= p < PILES implies #[trigger] after.hands[p]
                            <= PILE_LIMIT by {
                            assert(c.hands[p] <= PILE_LIMIT);
                        }
                    } else {
                        assert(we == 0 && taken == 0);
                        assert((b0 ^ left ^ 0u64 ^ 0u64 ^ came) ^ h0 ^ (s0 ^ 1u64) == (b0 ^ h0 ^ s0) ^ (1u64
                            ^ 0u64 ^ left ^ came)) by (bit_vector);
                    }
                }
                self.hash = self.hash ^ (COLOR_HASH ^ taken ^ left ^ came);
                true
            },
            Move::Drop { kind, white, to } => {
                if !apply_move(&mut self.inner, mv) {
                    return false;
                }
                let now: u8 = hand_count(&self.inner, white, kind);
                let pile: usize = pile_index(white, kind);
                assert(self@.hands[pile as int] == now);
                let code: u8 = if white {
                    kind + 16
                } else {
                    kind
                };
                assert(c.hands[pile as int] <= PILE_LIMIT);
                let came: u64 = table.word_on_board((to - 1) as usize, code);
                let gone: u64 = table.word_in_hand(pile, now as usize);
                proof {
                    let after = after_move(c, mv).unwrap();
                    table.lemma_board_hash_update(c.cells, to - 1, code, SQUARES as int);
                    table.lemma_hands_hash_update(c.hands, pile as int, now, PILES as int);
                    table.lemma_pile_step(pile as int, now as int);
                    let b0 = table.board_hash(c.cells, SQUARES as int);
                    let b2 = table.board_hash(after.cells, SQUARES as int);
                    let h0 = table.hands_hash(c.hands, PILES as int);
                    let h2 = table.hands_hash(after.hands, PILES as int);
                    let low = table.pile_hash(pile as int, now as int);
                    let high = table.pile_hash(pile as int, now + 1);
                    let s0: u64 = if c.white_to_move {
                        COLOR_HASH
                    } else {
                        0
                    };
                    let s2: u64 = if after.white_to_move {
                        COLOR_HASH
                    } else {
                        0
                    };
                    assert(s2 == s0 ^ 1u64) by (bit_vector)
                        requires
                            (s0 == 0 && s2 == 1) || (s0 == 1 && s2 == 0),
                    ;
                    assert(b2 == b0 ^ 0u64 ^ came);
                    assert(h2 == h0 ^ high ^ low);
                    assert((b0 ^ 0u64 ^ came) ^ (h0 ^ high ^ low) ^ (s0 ^ 1u64) == (b0 ^ h0 ^ s0) ^ (1u64
                        ^ came ^ gone)) by (bit_vector)
                        requires
                            low ^ high == gone,
                    ;
                    assert forall|p: int| 0 <= p < PILES implies #[trigger] after.hands[p]
                        <= PILE_LIMIT by {
                        assert(c.hands[p] <= PILE_LIMIT);
                    }
                }
                self.hash = self.hash ^ (COLOR_HASH ^ came ^ gone);
                true
            },
        }
    }

    /// Makes a move that the position accepts, and brings the hash up to date.
    pub fn make_move(&mut self, mv: Move, table: &ZobristTable)
        requires
            table.wf(),
            old(self).wf(table),
            old(self).accepts(mv),
        ensures
            final(self).wf(table),
            Some(final(self)@) == after_move(old(self)@, mv),
    {
        let _ = self.try_make_move(mv, table);
    }

    /// Moves one piece of `kind` from the first player's hand to the second
    /// player's, and brings the hash up to date.
    pub fn give_piece(&mut self, kind: u8, table: &ZobristTable)
        requires
            table.wf(),
            old(self).wf(table),
            1 <= kind <= LAST_HAND_KIND,
            old(self)@.hands[pile_of(false, kind)] > 0,
            old(self)@.hands[pile_of(true, kind)] < PILE_LIMIT,
        ensures
            final(self).wf(table),
            final(self)@.cells == old(self)@.cells,
            final(self)@.white_to_move == old(self)@.white_to_move,
            final(self)@.kings == old(self)@.kings,
            final(self)@.hands == old(self)@.hands.update(
                pile_of(false, kind),
                (old(self)@.hands[pile_of(false, kind)] - 1) as u8,
            ).update(pile_of(true, kind), (old(self)@.hands[pile_of(true, kind)] + 1) as u8),
    {
        let ghost c = self@;
        let from: usize = pile_index(false, kind);
        let to: usize = pile_index(true, kind);
        assert(c.hands[from as int] <= PILE_LIMIT);
        take_from_hand(&mut self.inner, false, kind);
        let left: u8 = hand_count(&self.inner, false, kind);
        let held: u8 = hand_count(&self.inner, true, kind);
        assert(self@.hands[from as int] == left);
        assert(self@.hands[to as int] == held);
        assert(c.hands[to as int] == held);
        put_in_hand(&mut self.inner, true, kind);
        let gone: u64 = table.word_in_hand(from, left as usize);
        let came: u64 = table.word_in_hand(to, held as usize);
        proof {
            let taken = c.hands.update(from as int, left);
            let after = self@.hands;
            assert(after == taken.update(to as int, (held + 1) as u8));
            table.lemma_hands_hash_update(c.hands, from as int, left, PILES as int);
            table.lemma_hands_hash_update(taken, to as int, (held + 1) as u8, PILES as int);
            table.lemma_pile_step(from as int, left as int);
            table.lemma_pile_step(to as int, held as int);
            let b0 = table.board_hash(c.cells, SQUARES as int);
            let h0 = table.hands_hash(c.hands, PILES as int);
            let h2 = table.hands_hash(after, PILES as int);
            let low = table.pile_hash(from as int, left as int);
            let high = table.pile_hash(from as int, left + 1);
            let under = table.pile_hash(to as int, held as int);
            let over = table.pile_hash(to as int, held + 1);
            let s0: u64 = if c.white_to_move {
                COLOR_HASH
            } else {
                0
            };
            assert(h2 == h0 ^ high ^ low ^ under ^ over);
            assert(b0 ^ (h0 ^ high ^ low ^ under ^ over) ^ s0 == (b0 ^ h0 ^ s0) ^ gone ^ came)
                by (bit_vector)
                requires
                    low ^ high == gone,
                    under ^ over == came,
            ;
            assert forall|p: int| 0 <= p < PILES implies #[trigger] after[p] <= PILE_LIMIT by {
                assert(c.hands[p] <= PILE_LIMIT);
            }
        }
        self.hash = self.hash ^ gone ^ came;
    }

    /// The hash that is kept equals the hash from scratch of what the position
    /// holds: two positions that hold the same board, hands and side to move
    /// have the same hash, whatever moves led to them.
    pub proof fn lemma_same_configuration_same_hash(
        &self,
        other: &PositionWrapper,
        table: &ZobristTable,
    )
        requires
            self.wf(table),
            other.wf(table),
            self@.cells == other@.cells,
            self@.hands == other@.hands,
            self@.white_to_move == other@.white_to_move,
        ensures
            self.spec_zobrist_hash() == other.spec_zobrist_hash(),
    {
    }

    /// A position with an empty board, empty hands and the first player to
    /// move has the hash zero.
    pub proof fn lemma_empty_position_hash(&self, table: &ZobristTable)
        requires
            self.wf(table),
            forall|i: int| 0 <= i < SQUARES ==> self@.cells[i] == 0,
            forall|i: int| 0 <= i < PILES ==> self@.hands[i] == 0,
            !self@.white_to_move,
        ensures
            self.spec_zobrist_hash() == 0,
    {
        table.lemma_empty_hash(self@.cells, self@.hands);
    }
}

} // verus!
