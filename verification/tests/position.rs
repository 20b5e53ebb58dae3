use shogi_core::{Color, PartialPosition, Piece, PieceKind, Square};
use shogi_mate_solver::position_wrapper::{Move, PositionWrapper};
use shogi_mate_solver::zobrist::ZobristTable;

fn plain(mv: shogi_core::Move) -> Move {
    match mv {
        shogi_core::Move::Normal { from, to, promote } => Move::Normal {
            from: from.index(),
            to: to.index(),
            promote,
        },
        shogi_core::Move::Drop { piece, to } => Move::Drop {
            kind: piece.piece_kind() as u8,
            white: piece.color() == Color::White,
            to: to.index(),
        },
    }
}

#[test]
fn empty_hash() {
    let zobrist = ZobristTable::new();
    let position = PartialPosition::empty();
    let position = PositionWrapper::new(position, &zobrist);
    assert_eq!(position.zobrist_hash(), 0);
}

#[test]
fn startpos_hash() {
    let zobrist = ZobristTable::new();
    let position = PartialPosition::startpos();
    let mut position = PositionWrapper::new(position, &zobrist);
    let init_hash = position.zobrist_hash();
    let moves = [
        shogi_core::Move::Normal {
            from: Square::SQ_5I,
            to: Square::SQ_5H,
            promote: false,
        },
        shogi_core::Move::Normal {
            from: Square::SQ_5A,
            to: Square::SQ_5B,
            promote: false,
        },
        shogi_core::Move::Normal {
            from: Square::SQ_5H,
            to: Square::SQ_5I,
            promote: false,
        },
        shogi_core::Move::Normal {
            from: Square::SQ_5B,
            to: Square::SQ_5A,
            promote: false,
        },
    ];
    for mv in moves {
        position.make_move(plain(mv), &zobrist);
    }
    assert_eq!(position.zobrist_hash(), init_hash);

    let moves = [
        shogi_core::Move::Normal {
            from: Square::SQ_7G,
            to: Square::SQ_7F,
            promote: false,
        },
        shogi_core::Move::Normal {
            from: Square::SQ_3C,
            to: Square::SQ_3D,
            promote: false,
        },
        shogi_core::Move::Normal {
            from: Square::SQ_8H,
            to: Square::SQ_2B,
            promote: true,
        },
        shogi_core::Move::Normal {
            from: Square::SQ_3A,
            to: Square::SQ_2B,
            promote: false,
        },
        shogi_core::Move::Drop {
            piece: Piece::B_B,
            to: Square::SQ_7G,
        },
        shogi_core::Move::Normal {
            from: Square::SQ_2B,
            to: Square::SQ_3A,
            promote: false,
        },
        shogi_core::Move::Normal {
            from: Square::SQ_7G,
            to: Square::SQ_8H,
            promote: false,
        },
        shogi_core::Move::Drop {
            piece: Piece::W_B,
            to: Square::SQ_2B,
        },
    ];
    let mut hashes = [init_hash; 9];
    for i in 0..8 {
        position.make_move(plain(moves[i]), &zobrist);
        hashes[i + 1] = position.zobrist_hash();
        assert_eq!(
            position.zobrist_hash(),
            PositionWrapper::compute_hash(position.inner(), &zobrist)
        );
    }
    assert_eq!(hashes[2], hashes[8]);
}

#[test]
fn give_piece_works() {
    let zobrist = ZobristTable::new();
    let piece_kind = PieceKind::Pawn;
    let mut position = PartialPosition::startpos();
    position
        .hand_of_a_player_mut(Color::Black)
        .Hand_add(piece_kind);
    let mut position = PositionWrapper::new(position, &zobrist);
    position.give_piece(piece_kind as u8, &zobrist);
    assert_eq!(
        position.zobrist_hash(),
        PositionWrapper::compute_hash(position.inner(), &zobrist),
    );
    assert_eq!(position.hand(false, 1), 0);
    assert_eq!(position.hand(true, 1), 1);
}
