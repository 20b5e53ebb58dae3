use shogi_core::{PartialPosition, ToUsi};
use shogi_mate_solver::df_pn::search::{
    child_thresholds, delta_min, df_pn, expand, look_up_hash, phi_sum, put_in_hash, select_child,
    NodeKind,
};
use shogi_mate_solver::position_wrapper::{Move, PositionWrapper};
use shogi_mate_solver::solver::{copy_moves, find_mate_sequence, pivot, solve_myself};
use shogi_mate_solver::sort::sort_by_key;
use shogi_mate_solver::tt::DfPnTable;
use shogi_mate_solver::zobrist::ZobristTable;
use shogi_mate_solver::Options;
use shogi_usi_parser::FromUsi;

const MAX: u32 = u32::MAX;

fn step(to: u8) -> Move {
    Move::Normal {
        from: 1,
        to,
        promote: false,
    }
}

#[test]
fn flip_alternates() {
    assert_eq!(NodeKind::Or.flip(), NodeKind::And);
    assert_eq!(NodeKind::And.flip(), NodeKind::Or);
}

#[test]
fn a_position_without_an_entry_reads_as_one_one() {
    let mut table = DfPnTable::new(16);
    assert_eq!(look_up_hash(&table, 7), (1, 1));
    put_in_hash(&mut table, 7, (3, 9));
    assert_eq!(look_up_hash(&table, 7), (3, 9));
}

#[test]
fn sums_minima_and_the_child_to_go_into() {
    let mut table = DfPnTable::new(16);
    let children = vec![(step(2), 100u64), (step(3), 101), (step(4), 102), (step(5), 103)];
    put_in_hash(&mut table, 100, (4, 7));
    put_in_hash(&mut table, 101, (2, 3));
    put_in_hash(&mut table, 103, (6, 3));
    assert_eq!(phi_sum(&table, &children), 4 + 2 + 1 + 6);
    assert_eq!(delta_min(&table, &children), 1);
    assert_eq!(
        select_child(&table, &children),
        ((step(4), 102, 1, 1), 3)
    );
    put_in_hash(&mut table, 102, (5, 3));
    assert_eq!(
        select_child(&table, &children),
        ((step(3), 101, 2, 3), 3)
    );
    put_in_hash(&mut table, 103, (MAX - 1, 9));
    assert_eq!(phi_sum(&table, &children), MAX);
    let none: Vec<(Move, u64)> = Vec::new();
    assert_eq!(phi_sum(&table, &none), 0);
    assert_eq!(delta_min(&table, &none), MAX);
}

#[test]
fn thresholds_for_the_child() {
    assert_eq!(child_thresholds((10, 20), (3, 4), 9, 6), (14, 7));
    assert_eq!(child_thresholds((5, 20), (3, 4), 9, 6), (14, 5));
    assert_eq!(child_thresholds((10, 20), (3, 4), 9, MAX), (14, 10));
    assert_eq!(child_thresholds((10, MAX - 1), (3, 4), 9, 6), (MAX - 1, 7));
    assert_eq!(child_thresholds((10, MAX), (3, 4), 9, 6), (MAX - 1, 7));
    assert_eq!(child_thresholds((10, 20), (3, MAX - 1), 9, 6), (MAX, 7));
    assert_eq!(child_thresholds((10, 20), (MAX - 1, 4), 9, 6).1, MAX);
    assert_eq!(child_thresholds((10, 2), (3, 4), 9, 6), (0, 7));
}

#[test]
fn drops_come_behind_moves_on_the_board() {
    let zobrist = ZobristTable::new();
    let position = PartialPosition::from_usi("sfen 7kl/9/6G1p/9/9/9/9/9/9 b S 1").unwrap();
    let wrapped = PositionWrapper::new(position, &zobrist);
    let children = expand(&wrapped, &zobrist, NodeKind::Or);
    let moves: Vec<Move> = children.iter().map(|c| c.0).collect();
    assert_eq!(
        moves,
        vec![
            Move::Normal { from: 21, to: 11, promote: false },
            Move::Normal { from: 21, to: 20, promote: false },
            Move::Drop { kind: 4, white: false, to: 2 },
            Move::Drop { kind: 4, white: false, to: 11 },
            Move::Drop { kind: 4, white: false, to: 20 },
        ]
    );
    for (mv, key) in children {
        let mut next = wrapped.clone();
        assert!(next.try_make_move(mv, &zobrist));
        assert_eq!(next.zobrist_hash(), key);
    }
    assert!(expand(&wrapped, &zobrist, NodeKind::And).len() > 5);
}

#[test]
fn the_prover_says_no_mate_from_the_start() {
    let zobrist = ZobristTable::new();
    let wrapped = PositionWrapper::new(PartialPosition::startpos(), &zobrist);
    let mut table = DfPnTable::new(1 << 10);
    let mut budget = u64::MAX;
    assert_eq!(df_pn(&mut table, &wrapped, &zobrist, &mut budget), (MAX, 0));
    assert_eq!(table.fetch(wrapped.zobrist_hash()), Some((MAX, 0)));
    assert_eq!(budget, u64::MAX);
}

#[test]
fn the_root_holds_the_pair_that_came_back() {
    let zobrist = ZobristTable::new();
    let position =
        PartialPosition::from_usi("sfen 3g1ks2/6g2/4S4/7B1/9/9/9/9/9 b G2rbg2s4n4l18p 1").unwrap();
    let wrapped = PositionWrapper::new(position, &zobrist);
    let mut table = DfPnTable::new(1 << 10);
    let mut budget = u64::MAX;
    let pair = df_pn(&mut table, &wrapped, &zobrist, &mut budget);
    assert_eq!(pair, (0, MAX));
    assert_eq!(table.fetch(wrapped.zobrist_hash()), Some(pair));
    assert!(budget < u64::MAX);
    let left = budget;
    assert_eq!(df_pn(&mut table, &wrapped, &zobrist, &mut budget), (0, MAX));
    assert_eq!(budget, left);
}

#[test]
fn a_budget_that_runs_out_leaves_the_search_undecided() {
    let zobrist = ZobristTable::new();
    let position =
        PartialPosition::from_usi("sfen 5kgnl/9/4+B1pp1/8p/9/9/9/9/9 b 2S2rb3g2s3n3l15p 1")
            .unwrap();
    let wrapped = PositionWrapper::new(position, &zobrist);
    let mut table = DfPnTable::new(1 << 10);
    let mut budget = 3;
    let pair = df_pn(&mut table, &wrapped, &zobrist, &mut budget);
    assert_eq!(budget, 0);
    assert_ne!(pair, (0, MAX));
    assert_ne!(pair, (MAX, 0));
    assert_eq!(table.fetch(wrapped.zobrist_hash()), Some(pair));
}

#[test]
fn sort_is_stable() {
    let list = vec![(3u32, 'a'), (1, 'b'), (3, 'c'), (0, 'd'), (1, 'e'), (3, 'f')];
    assert_eq!(
        sort_by_key(&list),
        vec![(0, 'd'), (1, 'b'), (1, 'e'), (3, 'a'), (3, 'c'), (3, 'f')]
    );
    let none: Vec<(u32, u8)> = Vec::new();
    assert_eq!(sort_by_key(&none), none);
}

#[test]
fn pivot_brings_the_best_move_to_the_front() {
    let moves = vec![step(2), step(3), step(4), step(3)];
    assert_eq!(pivot(copy_moves(&moves), None), moves);
    assert_eq!(
        pivot(copy_moves(&moves), Some(step(3))),
        vec![step(3), step(2), step(4), step(3)]
    );
    assert_eq!(
        pivot(copy_moves(&moves), Some(step(9))),
        vec![step(9), step(2), step(3), step(4), step(3)]
    );
}

#[test]
fn solve_myself_gives_the_sequence() {
    let position = PartialPosition::from_usi("sfen 7kl/9/6G1p/9/9/9/9/9/9 b S 1").unwrap();
    let moves = solve_myself(&position, &Options { verbose: false }).unwrap();
    assert_eq!(
        moves,
        vec![
            Move::Drop { kind: 4, white: false, to: 20 },
            Move::Normal { from: 10, to: 2, promote: false },
            Move::Normal { from: 21, to: 12, promote: false },
        ]
    );
    assert_eq!(solve_myself(&PartialPosition::startpos(), &Options { verbose: false }), None);
    let no_mate = PartialPosition::from_usi("sfen 8k/9/9/9/9/9/9/9/9 b Rr2b4g4s4n4l18p 1").unwrap();
    assert_eq!(solve_myself(&no_mate, &Options { verbose: true }), None);
}

#[test]
fn find_mate_sequence_stops_without_a_mate() {
    let zobrist = ZobristTable::new();
    let position = PartialPosition::startpos();
    let table = DfPnTable::new(1 << 4);
    let mut evals = shogi_mate_solver::eval::search::EvalTable::new(1 << 4);
    let sequence = find_mate_sequence(
        &table,
        &mut evals,
        &position,
        &zobrist,
        shogi_mate_solver::eval::Value::inf(),
    );
    assert!(sequence.is_empty());
}

#[test]
fn sfen_goes_round() {
    for sfen in [
        "lnsgkgsnl/1r5b1/ppppppppp/9/9/9/PPPPPPPPP/1B5R1/LNSGKGSNL b - 1",
        "5kgnl/9/4+B1pp1/8p/9/9/9/9/9 b 2S2rb3g2s3n3l15p 1",
        "7kl/9/6G1p/9/9/9/9/9/9 b S 1",
    ] {
        let position = PartialPosition::from_usi(&format!("sfen {}", sfen)).unwrap();
        assert_eq!(position.to_sfen_owned(), sfen);
        let again = PartialPosition::from_usi(&format!("sfen {}", position.to_sfen_owned())).unwrap();
        assert_eq!(again, position);
    }
    assert_eq!(
        shogi_core::Move::Drop { piece: shogi_core::Piece::B_S, to: shogi_core::Square::SQ_3B }.to_usi_owned(),
        "S*3b"
    );
}
