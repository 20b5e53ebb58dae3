use shogi_core::{Color, PartialPosition, Piece, PieceKind, Square};
use shogi_mate_solver::position_wrapper::{Move, PositionWrapper};
use shogi_mate_solver::zobrist::ZobristTable;
use shogi_usi_parser::FromUsi;

fn wrapped(sfen: &str, zobrist: &ZobristTable) -> PositionWrapper {
    PositionWrapper::new(PartialPosition::from_usi(&format!("sfen {}", sfen)).unwrap(), zobrist)
}

#[test]
fn hash_is_the_xor_of_the_words() {
    let zobrist = ZobristTable::new();
    let king = wrapped("9/9/9/9/4k4/9/9/9/9 w - 1", &zobrist);
    let square = (Square::SQ_5E.index() - 1) as usize;
    assert_eq!(
        king.zobrist_hash(),
        zobrist.word_on_board(square, Piece::W_K.as_u8()) ^ 1
    );
    assert!(king.white_to_move());
    let pawn = wrapped("9/9/9/9/9/9/9/9/9 b P 1", &zobrist);
    assert_eq!(pawn.zobrist_hash(), zobrist.word_in_hand(0, 0));
    let pawns = wrapped("9/9/9/9/9/9/9/9/9 b 2Pr 1", &zobrist);
    assert_eq!(
        pawns.zobrist_hash(),
        zobrist.word_in_hand(0, 0) ^ zobrist.word_in_hand(0, 1) ^ zobrist.word_in_hand(13, 0)
    );
    assert_eq!(pawns.hand(false, 1), 2);
    assert_eq!(pawns.hand(true, 7), 1);
    assert_eq!(pawns.hand(true, 1), 0);
    assert!(!pawns.white_to_move());
}

#[test]
fn a_copy_goes_its_own_way() {
    let zobrist = ZobristTable::new();
    let start = PositionWrapper::new(PartialPosition::startpos(), &zobrist);
    let mut copy = start.clone();
    assert_eq!(copy.zobrist_hash(), start.zobrist_hash());
    copy.make_move(
        Move::Normal {
            from: Square::SQ_7G.index(),
            to: Square::SQ_7F.index(),
            promote: false,
        },
        &zobrist,
    );
    assert_ne!(copy.zobrist_hash(), start.zobrist_hash());
    assert_eq!(
        start.zobrist_hash(),
        PositionWrapper::compute_hash(start.inner(), &zobrist)
    );
    assert_eq!(start.inner(), &PartialPosition::startpos());
    assert_eq!(copy.inner().piece_at(Square::SQ_7F), Some(Piece::B_P));
    assert!(copy.white_to_move());
}

#[test]
fn moves_that_make_no_sense_are_not_made() {
    let zobrist = ZobristTable::new();
    let mut position = wrapped("4k4/9/4P4/9/9/9/9/9/4K4 b Gp 1", &zobrist);
    let hash = position.zobrist_hash();
    let refused = [
        // nothing stands on the square
        Move::Normal { from: Square::SQ_1A.index(), to: Square::SQ_1B.index(), promote: false },
        // the piece is the other player's
        Move::Normal { from: Square::SQ_5A.index(), to: Square::SQ_5B.index(), promote: false },
        // a king does not promote
        Move::Normal { from: Square::SQ_5I.index(), to: Square::SQ_5H.index(), promote: true },
        // the square holds a piece of the same player
        Move::Normal { from: Square::SQ_5I.index(), to: Square::SQ_5I.index(), promote: false },
        // a king is not taken
        Move::Normal { from: Square::SQ_5C.index(), to: Square::SQ_5A.index(), promote: false },
        // the hand holds no silver
        Move::Drop { kind: PieceKind::Silver as u8, white: false, to: Square::SQ_1A.index() },
        // the pawn in hand is the other player's
        Move::Drop { kind: PieceKind::Pawn as u8, white: true, to: Square::SQ_1A.index() },
        // the square is taken
        Move::Drop { kind: PieceKind::Gold as u8, white: false, to: Square::SQ_5C.index() },
        // no promoted piece and no king comes from a hand
        Move::Drop { kind: PieceKind::ProPawn as u8, white: false, to: Square::SQ_1A.index() },
        Move::Drop { kind: PieceKind::King as u8, white: false, to: Square::SQ_1A.index() },
        // squares and kinds that there are not
        Move::Normal { from: 0, to: 5, promote: false },
        Move::Normal { from: 5, to: 82, promote: false },
        Move::Drop { kind: 0, white: false, to: 5 },
        Move::Drop { kind: 15, white: false, to: 5 },
        Move::Drop { kind: 5, white: false, to: 0 },
    ];
    for mv in refused {
        assert!(!position.try_make_move(mv, &zobrist), "{:?}", mv);
        assert_eq!(position.zobrist_hash(), hash);
        assert!(!position.white_to_move());
    }
    assert!(position.try_make_move(
        Move::Drop { kind: PieceKind::Gold as u8, white: false, to: Square::SQ_5B.index() },
        &zobrist
    ));
    assert_eq!(position.hand(false, PieceKind::Gold as u8), 0);
    assert_eq!(
        position.zobrist_hash(),
        PositionWrapper::compute_hash(position.inner(), &zobrist)
    );
}

#[test]
fn a_capture_fills_the_hand_with_the_unpromoted_piece() {
    let zobrist = ZobristTable::new();
    let mut position = wrapped("4k4/9/9/9/4+p4/4R4/9/9/4K4 b - 1", &zobrist);
    assert!(position.try_make_move(
        Move::Normal { from: Square::SQ_5F.index(), to: Square::SQ_5E.index(), promote: false },
        &zobrist
    ));
    assert_eq!(position.hand(false, PieceKind::Pawn as u8), 1);
    assert_eq!(position.inner().piece_at(Square::SQ_5E), Some(Piece::B_R));
    assert_eq!(position.inner().piece_at(Square::SQ_5F), None);
    assert_eq!(
        position.zobrist_hash(),
        PositionWrapper::compute_hash(position.inner(), &zobrist)
    );
}

#[test]
fn a_full_pile_takes_no_more() {
    let zobrist = ZobristTable::new();
    let mut outside = PartialPosition::from_usi("sfen 4k4/9/9/9/4p4/4R4/9/9/4K4 b - 1").unwrap();
    for _ in 0..18 {
        outside.hand_of_a_player_mut(Color::Black).Hand_add(PieceKind::Pawn);
    }
    let mut position = PositionWrapper::try_new(outside.clone(), &zobrist).unwrap();
    let hash = position.zobrist_hash();
    assert!(!position.try_make_move(
        Move::Normal { from: Square::SQ_5F.index(), to: Square::SQ_5E.index(), promote: false },
        &zobrist
    ));
    assert_eq!(position.zobrist_hash(), hash);
    assert_eq!(position.inner(), &outside);
    outside.hand_of_a_player_mut(Color::Black).Hand_add(PieceKind::Pawn);
    assert!(PositionWrapper::try_new(outside.clone(), &zobrist).is_none());
    assert!(PositionWrapper::try_wrap(&outside, &zobrist).is_none());
}

#[test]
fn order_keys_and_well_formed_moves() {
    let walk = Move::Normal { from: 1, to: 2, promote: true };
    assert_eq!(walk.order_key(), 0);
    assert!(walk.is_well_formed());
    assert_eq!(Move::Drop { kind: 1, white: false, to: 81 }.order_key(), 59);
    assert_eq!(Move::Drop { kind: 7, white: true, to: 81 }.order_key(), 53);
    assert_eq!(Move::Drop { kind: 61, white: true, to: 81 }.order_key(), 0);
    assert!(Move::Drop { kind: 14, white: true, to: 81 }.is_well_formed());
    assert!(!Move::Drop { kind: 14, white: true, to: 82 }.is_well_formed());
}

#[test]
fn checks_and_evasions_come_from_the_move_generator() {
    let zobrist = ZobristTable::new();
    let position = wrapped("7kl/9/6G1p/9/9/9/9/9/9 b S 1", &zobrist);
    let checks = position.all_checks();
    assert_eq!(
        checks.len(),
        shogi_legality_lite::all_checks_partial(position.inner()).len()
    );
    assert!(checks.contains(&Move::Drop { kind: 4, white: false, to: Square::SQ_3B.index() }));
    assert!(!checks.contains(&Move::Drop { kind: 4, white: false, to: Square::SQ_9I.index() }));
    let evasions = position.all_evasions();
    assert_eq!(
        evasions.len(),
        shogi_legality_lite::all_legal_moves_partial(position.inner()).len()
    );
    assert!(evasions.len() > checks.len());
    let start = PositionWrapper::new(PartialPosition::startpos(), &zobrist);
    assert!(start.all_checks().is_empty());
    assert_eq!(start.all_evasions().len(), 30);
}
