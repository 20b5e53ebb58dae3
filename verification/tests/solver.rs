use shogi_mate_solver::eval::search::{search as evaluate, EvalTable};
use shogi_mate_solver::position_wrapper::PositionWrapper;
use shogi_mate_solver::solver::{find_branches, follow_moves, Options};
use shogi_mate_solver::tt::DfPnTable;
use shogi_core::{Color, PartialPosition, PieceKind};
use shogi_mate_solver::position_wrapper::Move;
use shogi_mate_solver::{search, Eval, Resolution};
use shogi_usi_parser::FromUsi;

#[test]
fn search_finds_the_five_ply_mate() {
    let position =
        PartialPosition::from_usi("sfen 3g1ks2/6g2/4S4/7B1/9/9/9/9/9 b G2rbg2s4n4l18p 1").unwrap();
    let answer = search(&position, 0);
    let ok = answer.inner.unwrap();
    assert_eq!(ok.resolution, Resolution::Mate);
    let root = ok.branches.last().unwrap();
    assert!(root.moves.is_empty());
    assert_eq!(root.eval.unwrap().num_moves, 5);
    assert!(root.possible_next_moves.len() <= 1);
    for entry in &ok.branches {
        assert!(entry.moves.len() <= 5);
        assert!(entry.eval.is_some());
    }
    let longer = search(&position, 1_000_000);
    assert_eq!(longer.inner.unwrap().branches.len(), ok.branches.len());
}

#[test]
fn search_leaves_the_three_ply_mate_undecided() {
    let position = PartialPosition::from_usi("sfen 7kl/9/6G1p/9/9/9/9/9/9 b S 1").unwrap();
    let answer = search(&position, 0);
    let ok = answer.inner.unwrap();
    assert_eq!(ok.resolution, Resolution::Unknown);
    assert!(ok.branches.is_empty());
}

#[test]
fn search_says_no_mate_from_the_start() {
    let answer = search(&PartialPosition::startpos(), 0);
    let ok = answer.inner.unwrap();
    assert_eq!(ok.resolution, Resolution::NoMate);
    assert!(ok.branches.is_empty());
}

#[test]
fn search_refuses_an_overfull_hand() {
    let mut position = PartialPosition::startpos();
    for _ in 0..19 {
        position
            .hand_of_a_player_mut(Color::Black)
            .Hand_add(PieceKind::Pawn);
    }
    let answer = search(&position, 0);
    let err = answer.inner.unwrap_err();
    assert_eq!(err.resolution, Resolution::Invalid);
    assert!(!err.reason.is_empty());
}

#[test]
fn a_small_budget_leaves_the_answer_unknown() {
    let zobrist = shogi_mate_solver::zobrist::ZobristTable::new();
    let position =
        PartialPosition::from_usi("sfen 5kgnl/9/4+B1pp1/8p/9/9/9/9/9 b 2S2rb3g2s3n3l15p 1")
            .unwrap();
    let answer = shogi_mate_solver::search_within(&position, &zobrist, 2);
    let ok = answer.inner.unwrap();
    assert_eq!(ok.resolution, Resolution::Unknown);
    assert!(ok.branches.is_empty());
    let decided =
        PartialPosition::from_usi("sfen 3g1ks2/6g2/4S4/7B1/9/9/9/9/9 b G2rbg2s4n4l18p 1").unwrap();
    let answer = shogi_mate_solver::search_with(&decided, &zobrist, 1);
    assert_eq!(answer.inner.unwrap().resolution, Resolution::Mate);
    let answer = shogi_mate_solver::search_within(&decided, &zobrist, 2);
    assert_eq!(answer.inner.unwrap().resolution, Resolution::Unknown);
}

#[test]
fn branches_are_walked_move_by_move() {
    let zobrist = shogi_mate_solver::zobrist::ZobristTable::new();
    let position = PartialPosition::from_usi("sfen 7kl/9/6G1p/9/9/9/9/9/9 b S 1").unwrap();
    let wrapped = PositionWrapper::new(position.clone(), &zobrist);
    let mut df_tbl = DfPnTable::new(1 << 12);
    let mut evals = EvalTable::new(1 << 12);
    let mut budget = u64::MAX;
    let opt = evaluate(&position, &zobrist, &df_tbl, &mut evals);
    assert_eq!(opt.plies(), 3);
    let opts = Options { verbose: false };

    // deeper than the plies of the mate: not kept, nothing recorded
    let mut memo = Vec::new();
    let deep = vec![Move::Normal { from: 1, to: 2, promote: false }; 4];
    assert!(!find_branches(
        &mut df_tbl, &mut evals, &wrapped, &zobrist, opt, &opts, &mut memo, deep, &mut budget
    ));
    assert!(memo.is_empty());

    // no move to follow: nothing kept, nothing recorded
    let kept = follow_moves(
        &mut df_tbl, &mut evals, &wrapped, &zobrist, opt, &opts, &mut memo, &Vec::new(),
        &mut budget, &Vec::new(),
    );
    assert!(kept.is_empty());
    assert!(memo.is_empty());

    // a move that the position does not accept is passed over
    let refused = vec![Move::Drop { kind: 7, white: false, to: 20 }];
    let kept = follow_moves(
        &mut df_tbl, &mut evals, &wrapped, &zobrist, opt, &opts, &mut memo, &Vec::new(),
        &mut budget, &refused,
    );
    assert!(kept.is_empty());
    assert!(memo.is_empty());

    // the silver drop is followed and kept, with the nodes below it
    let drop = Move::Drop { kind: 4, white: false, to: 20 };
    let kept = follow_moves(
        &mut df_tbl, &mut evals, &wrapped, &zobrist, opt, &opts, &mut memo, &Vec::new(),
        &mut budget, &vec![drop],
    );
    assert_eq!(kept, vec![drop]);
    assert_eq!(memo.last().unwrap().moves, vec![drop]);
    assert!(memo.iter().all(|e| e.moves.first() == Some(&drop)));
    let below = memo.len();

    // from the root: the root is recorded last, with the drop as its move
    assert!(find_branches(
        &mut df_tbl, &mut evals, &wrapped, &zobrist, opt, &opts, &mut memo, Vec::new(),
        &mut budget
    ));
    let root = memo.last().unwrap();
    assert!(root.moves.is_empty());
    assert_eq!(root.possible_next_moves, vec![drop]);
    assert_eq!(root.eval, Some(Eval { num_moves: 3, pieces: 0, futile: 0 }));
    assert_eq!(memo.len(), 2 * below + 1);
}
