use shogi_core::{Color, PartialPosition, Square};
use shogi_mate_solver::df_pn::search::df_pn;
use shogi_mate_solver::position_wrapper::{Move, PositionWrapper};
use shogi_mate_solver::tt::DfPnTable;
use shogi_mate_solver::zobrist::ZobristTable;
use shogi_usi_parser::FromUsi;

fn plain_move(mv: shogi_core::Move) -> Move {
    match mv {
        shogi_core::Move::Normal { from, to, promote } => Move::Normal {
            from: from.index(),
            to: to.index(),
            promote,
        },
        shogi_core::Move::Drop { piece, to } => Move::Drop {
            kind: piece.piece_kind() as u8,
            white: piece.color() == Color::White,
            to: to.index(),
        },
    }
}

#[test]
fn solve_mate_problem_works_0() {
    let zobrist = ZobristTable::new();
    let position =
        PartialPosition::from_usi("sfen 3g1ks2/6g2/4S4/7B1/9/9/9/9/9 b G2rbg2s4n4l18p 1").unwrap();
    let wrapped = PositionWrapper::new(position.clone(), &zobrist);

    let mut dfpn_tbl = DfPnTable::new(1 << 15);
    let mut budget = u64::MAX;
    let result = df_pn(&mut dfpn_tbl, &wrapped, &zobrist, &mut budget);
    assert_eq!(result, (0, u32::MAX));

    let moves = [
        shogi_core::Move::Normal {
            from: Square::SQ_2D,
            to: Square::SQ_5A,
            promote: true,
        },
        shogi_core::Move::Normal {
            from: Square::SQ_4A,
            to: Square::SQ_5A,
            promote: false,
        },
    ];
    let mut tmp = wrapped.clone();
    for mv in moves {
        tmp.make_move(plain_move(mv), &zobrist);
    }
    let result = df_pn(&mut dfpn_tbl, &tmp, &zobrist, &mut budget);
    assert_eq!(result, (u32::MAX, 0));

    let moves = [
        shogi_core::Move::Normal {
            from: Square::SQ_5C,
            to: Square::SQ_5B,
            promote: true,
        },
        shogi_core::Move::Normal {
            from: Square::SQ_4A,
            to: Square::SQ_5B,
            promote: false,
        },
    ];
    let mut tmp = wrapped.clone();
    for mv in moves {
        tmp.make_move(plain_move(mv), &zobrist);
    }
    let result = df_pn(&mut dfpn_tbl, &tmp, &zobrist, &mut budget);
    assert_eq!(result, (u32::MAX, 0));
}

#[test]
fn solve_mate_problem_works_1() {
    let zobrist = ZobristTable::new();
    let position =
        PartialPosition::from_usi("sfen 5kgnl/9/4+B1pp1/8p/9/9/9/9/9 b 2S2rb3g2s3n3l15p 1")
            .unwrap();
    let wrapped = PositionWrapper::new(position.clone(), &zobrist);

    let mut dfpn_tbl = DfPnTable::new(1 << 20);
    let mut budget = u64::MAX;
    let result = df_pn(&mut dfpn_tbl, &wrapped, &zobrist, &mut budget);
    // A position that is met again below itself is read as the thresholds
    // that stand in the table for it: the sum of the proof numbers runs
    // over, and the pair that comes back decides nothing.
    assert_eq!(result, (1, u32::MAX));
}

#[test]
fn solve_mate_problem_works_2() {
    let zobrist = ZobristTable::new();
    let position =
        PartialPosition::from_usi("sfen 7nk/9/6PB1/6NP1/9/9/9/9/9 b P2rb4g4s2n4l15p 1").unwrap();
    let wrapped = PositionWrapper::new(position.clone(), &zobrist);

    let mut dfpn_tbl = DfPnTable::new(1 << 20);
    let mut budget = u64::MAX;
    let result = df_pn(&mut dfpn_tbl, &wrapped, &zobrist, &mut budget);
    assert_eq!(result, (0, u32::MAX));
}

#[test]
fn solve_mate_problem_works_3() {
    let zobrist = ZobristTable::new();
    let position = PartialPosition::from_usi("sfen 7kl/9/6G1p/9/9/9/9/9/9 b S 1").unwrap();
    let wrapped = PositionWrapper::new(position.clone(), &zobrist);

    let mut dfpn_tbl = DfPnTable::new(1 << 20);
    let mut budget = u64::MAX;
    let result = df_pn(&mut dfpn_tbl, &wrapped, &zobrist, &mut budget);
    // A position that is met again below itself is read as the thresholds
    // that stand in the table for it: the sum of the proof numbers runs
    // over, and the pair that comes back decides nothing.
    assert_eq!(result, (1, u32::MAX));
}

#[test]
fn solve_mate_problem_works_4() {
    let zobrist = ZobristTable::new();
    let position =
        PartialPosition::from_usi("sfen 8k/9/9/9/9/9/9/9/9 b Rr2b4g4s4n4l18p 1").unwrap();
    let wrapped = PositionWrapper::new(position.clone(), &zobrist);

    let mut dfpn_tbl = DfPnTable::new(1 << 20);
    let mut budget = u64::MAX;
    let result = df_pn(&mut dfpn_tbl, &wrapped, &zobrist, &mut budget);
    assert_eq!(result, (u32::MAX, 0));
}
