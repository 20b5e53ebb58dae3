use shogi_core::{Color, PartialPosition, Piece, PieceKind, Square, ToUsi};
use shogi_mate_solver::df_pn::search::df_pn;
use shogi_mate_solver::eval::search::{
    alpha_beta_me, alpha_beta_you, nearer, one_less, search, EvalTable, SearchCtx,
};
use shogi_mate_solver::eval::Value;
use shogi_mate_solver::position_wrapper::{Move, PositionWrapper};
use shogi_mate_solver::tt::DfPnTable;
use shogi_mate_solver::zobrist::ZobristTable;
use shogi_usi_parser::FromUsi;
use std::collections::BTreeSet;

fn outside_move(mv: Move) -> shogi_core::Move {
    match mv {
        Move::Normal { from, to, promote } => shogi_core::Move::Normal {
            from: Square::from_u8(from).unwrap(),
            to: Square::from_u8(to).unwrap(),
            promote,
        },
        Move::Drop { kind, white, to } => shogi_core::Move::Drop {
            piece: Piece::new(
                PieceKind::from_u8(kind).unwrap(),
                if white { Color::White } else { Color::Black },
            ),
            to: Square::from_u8(to).unwrap(),
        },
    }
}

fn find_mate_sequence(
    df_pn: &DfPnTable,
    evals: &mut EvalTable,
    position: &PartialPosition,
    zobrist: &ZobristTable,
    opt: Value,
) -> Vec<Move> {
    let mut turn = 0;
    let mut beta = opt.plies_added_unchecked(1);
    let mut position = PositionWrapper::new(position.clone(), zobrist);
    let mut result = Vec::new();
    let mut ctx = SearchCtx::default();
    loop {
        let (_value, mv) = if turn % 2 == 0 {
            alpha_beta_me(
                &position,
                zobrist,
                df_pn,
                evals,
                Value::zero(),
                beta,
                &mut BTreeSet::new(),
                &mut ctx,
            )
        } else {
            alpha_beta_you(
                &position,
                zobrist,
                df_pn,
                evals,
                Value::zero(),
                beta,
                &mut BTreeSet::new(),
                &mut ctx,
            )
        };
        if let Some(mv) = mv {
            result.push(mv);
            position.make_move(mv, zobrist);
        } else {
            return result;
        }
        turn += 1;
        beta = beta.plies_added_unchecked(-1);
    }
}

#[test]
fn search_solve_mate_problem_works_0() {
    let zobrist = ZobristTable::new();
    let mut position =
        PartialPosition::from_usi("sfen 3g1ks2/6g2/4S4/7B1/9/9/9/9/9 b G2rbg2s4n4l18p 1").unwrap();

    let mut df_tbl = DfPnTable::new(1 << 15);
    let mut eval = EvalTable::new(1 << 20);
    let mut budget = u64::MAX;

    let _mate_result = df_pn(
        &mut df_tbl,
        &PositionWrapper::new(position.clone(), &zobrist),
        &zobrist,
        &mut budget,
    );

    let result = search(&position, &zobrist, &df_tbl, &mut eval);
    println!("result = {:?}", result);
    let sequence = find_mate_sequence(&df_tbl, &mut eval, &position, &zobrist, result);
    for &mv in &sequence {
        println!("{}", outside_move(mv).to_usi_owned());
        position.make_move(outside_move(mv)).unwrap();
    }
    assert_eq!(sequence.len(), 5);
}

#[test]
fn search_solve_mate_problem_works_1() {
    let zobrist = ZobristTable::new();
    let mut position =
        PartialPosition::from_usi("sfen 5kgnl/9/4+B1pp1/8p/9/9/9/9/9 b 2S2rb3g2s3n3l15p 1")
            .unwrap();

    let moves = [
        shogi_core::Move::Drop {
            piece: Piece::B_S,
            to: Square::SQ_5B,
        },
        shogi_core::Move::Normal {
            from: Square::SQ_4A,
            to: Square::SQ_3B,
            promote: false,
        },
    ];

    let mut df_tbl = DfPnTable::new(1 << 15);
    let mut evals = EvalTable::new(1 << 15);
    let mut budget = u64::MAX;

    let _mate_result = df_pn(
        &mut df_tbl,
        &PositionWrapper::new(position.clone(), &zobrist),
        &zobrist,
        &mut budget,
    );

    let result = search(&position, &zobrist, &df_tbl, &mut evals);
    println!("result = {:?}", result);
    let sequence = find_mate_sequence(&df_tbl, &mut evals, &position, &zobrist, result);
    {
        let mut tmp = position.clone();
        for &mv in &sequence {
            println!("{}", outside_move(mv).to_usi_owned());
            tmp.make_move(outside_move(mv)).unwrap();
        }
    }
    assert_eq!(sequence.len(), 9);

    for &mv in &moves {
        position.make_move(mv).unwrap();
    }
    let result = search(&position, &zobrist, &df_tbl, &mut evals);
    assert_eq!(result.plies(), 7);
}

#[test]
fn search_solve_mate_problem_works_3() {
    let zobrist = ZobristTable::new();
    let mut position = PartialPosition::from_usi("sfen 7kl/9/6G1p/9/9/9/9/9/9 b S 1").unwrap();

    let mut df_tbl = DfPnTable::new(1 << 15);
    let mut eval = EvalTable::new(1 << 15);
    let mut budget = u64::MAX;

    let _mate_result = df_pn(
        &mut df_tbl,
        &PositionWrapper::new(position.clone(), &zobrist),
        &zobrist,
        &mut budget,
    );

    let result = search(&position, &zobrist, &df_tbl, &mut eval);
    println!("result = {:?}", result);
    let sequence = find_mate_sequence(&df_tbl, &mut eval, &position, &zobrist, result);
    let expected = ["S*3b", "2a1b", "3c2c"];
    for (index, &mv) in sequence.iter().enumerate() {
        assert_eq!(outside_move(mv).to_usi_owned(), expected[index]);
        position.make_move(outside_move(mv)).unwrap();
    }
    assert_eq!(sequence.len(), 3);
}

#[test]
fn evaluator_answers_twice_alike() {
    let zobrist = ZobristTable::new();
    let position = PartialPosition::from_usi("sfen 7kl/9/6G1p/9/9/9/9/9/9 b S 1").unwrap();
    let wrapped = PositionWrapper::new(position.clone(), &zobrist);
    let mut df_tbl = DfPnTable::new(1 << 15);
    let mut evals = EvalTable::new(1 << 15);
    let mut budget = u64::MAX;
    df_pn(&mut df_tbl, &wrapped, &zobrist, &mut budget);
    let beta = Value::new(12, 0, 0);
    let mut ctx = SearchCtx::new();
    let first = alpha_beta_me(
        &wrapped,
        &zobrist,
        &df_tbl,
        &mut evals,
        Value::zero(),
        beta,
        &mut BTreeSet::new(),
        &mut ctx,
    );
    let second = alpha_beta_me(
        &wrapped,
        &zobrist,
        &df_tbl,
        &mut evals,
        Value::zero(),
        beta,
        &mut BTreeSet::new(),
        &mut ctx,
    );
    assert_eq!(first, second);
    assert_eq!(first.0.plies(), 3);
    assert_eq!(first.0.pieces(), 0);
    assert_eq!(evals.fetch(wrapped.zobrist_hash()), Some(first));
    assert_eq!(ctx.depth(), 0);
}

#[test]
fn one_less_takes_a_ply() {
    assert_eq!(one_less(Value::new(5, 3, 2)), Value::new(4, 3, 2));
    assert_eq!(one_less(Value::new(0, 3, 2)), Value::zero());
    assert_eq!(one_less(Value::inf()), Value::inf());
}

#[test]
fn no_mate_in_zero_plies() {
    let zobrist = ZobristTable::new();
    let position = PartialPosition::from_usi("sfen 7kl/9/6G1p/9/9/9/9/9/9 b S 1").unwrap();
    let wrapped = PositionWrapper::new(position, &zobrist);
    let df_tbl = DfPnTable::new(1 << 4);
    let mut evals = EvalTable::new(1 << 4);
    let answer = alpha_beta_me(
        &wrapped,
        &zobrist,
        &df_tbl,
        &mut evals,
        Value::zero(),
        Value::new(0, 0, 0),
        &mut BTreeSet::new(),
        &mut SearchCtx::new(),
    );
    assert_eq!(answer, (Value::inf(), None));
    assert_eq!(evals.fetch(wrapped.zobrist_hash()), None);
}

#[test]
fn the_next_ply_gets_a_nearer_bound() {
    assert_eq!(nearer(Value::new(5, 3, 2)), Value::new(4, 3, 2));
    assert_eq!(nearer(Value::new(0, 3, 2)), Value::zero());
    assert_eq!(nearer(Value::inf()), Value::new(0xffe, 0, 0));
    assert_eq!(nearer(Value(0xfff0_0000)), Value(0xffef_ffff));
}

#[test]
fn a_bound_that_is_no_mate_finds_the_mate() {
    let zobrist = ZobristTable::new();
    let position = PartialPosition::from_usi("sfen 8k/9/6GP1/9/9/9/9/9/9 b - 1").unwrap();
    let wrapped = PositionWrapper::new(position.clone(), &zobrist);
    let df_tbl = DfPnTable::new(1 << 15);
    let mut evals = EvalTable::new(1 << 15);
    let mut ctx = SearchCtx::new();
    let first = alpha_beta_me(
        &wrapped,
        &zobrist,
        &df_tbl,
        &mut evals,
        Value::zero(),
        Value::inf(),
        &mut BTreeSet::new(),
        &mut ctx,
    );
    let mate = Move::Normal {
        from: Square::SQ_2C.index(),
        to: Square::SQ_2B.index(),
        promote: true,
    };
    assert_eq!(first, (Value::new(1, 0, 0), Some(mate)));
    assert_eq!(evals.fetch(wrapped.zobrist_hash()), Some(first));
    let second = alpha_beta_me(
        &wrapped,
        &zobrist,
        &df_tbl,
        &mut evals,
        Value::zero(),
        Value::inf(),
        &mut BTreeSet::new(),
        &mut ctx,
    );
    assert_eq!(second, first);

    let mut mated = wrapped.clone();
    mated.make_move(mate, &zobrist);
    let reply = alpha_beta_you(
        &mated,
        &zobrist,
        &df_tbl,
        &mut evals,
        Value::zero(),
        Value::inf(),
        &mut BTreeSet::new(),
        &mut ctx,
    );
    assert_eq!(reply, (Value::new(0, 0, 0), None));
    assert_eq!(ctx.depth(), 0);
}
