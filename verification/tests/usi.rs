use shogi_core::{PartialPosition, Position};
use shogi_mate_solver::position_wrapper::Move;
use shogi_mate_solver::usi::{
    engine_script_for, read_engine_moves, read_position, rewrite_sfen, write_position, UsiError,
};
use shogi_usi_parser::FromUsi;

const PROBLEMS: [&str; 4] = [
    "lnsgkgsnl/1r5b1/ppppppppp/9/9/9/PPPPPPPPP/1B5R1/LNSGKGSNL b - 1",
    "3g1ks2/6g2/4S4/7B1/9/9/9/9/9 b G2rbg2s4n4l18p 1",
    "5kgnl/9/4+B1pp1/8p/9/9/9/9/9 b 2S2rb3g2s3n3l15p 1",
    "7kl/9/6G1p/9/9/9/9/9/9 w S 12",
];

#[test]
fn read_position_reads_what_the_parser_reads() {
    for sfen in PROBLEMS {
        let expected = PartialPosition::from_usi(&format!("sfen {}", sfen)).unwrap();
        assert_eq!(read_position(sfen), Ok(expected.clone()));
        assert_eq!(read_position(&format!("  {}\r\n", sfen)), Ok(expected));
    }
}

#[test]
fn read_position_refuses_what_is_no_sfen() {
    assert_eq!(read_position(""), Err(UsiError::Malformed));
    assert_eq!(read_position("7kl/9/6G1p b S 1"), Err(UsiError::Malformed));
    assert_eq!(read_position("startpos"), Err(UsiError::Malformed));
    assert_eq!(
        read_position("7kl/9/6G1p/9/9/9/9/9/9 b S 1 and more"),
        Err(UsiError::Malformed)
    );
    assert_eq!(rewrite_sfen("x"), Err(UsiError::Malformed));
}

#[test]
fn write_position_writes_what_the_position_writes() {
    for sfen in PROBLEMS {
        let position = PartialPosition::from_usi(&format!("sfen {}", sfen)).unwrap();
        assert_eq!(write_position(&position), position.to_sfen_owned());
        assert_eq!(write_position(&position), sfen);
    }
    assert_ne!(
        write_position(&PartialPosition::startpos()),
        write_position(&PartialPosition::empty())
    );
}

#[test]
fn reading_and_writing_an_sfen_gives_it_back() {
    for sfen in PROBLEMS {
        assert_eq!(rewrite_sfen(sfen), Ok(sfen.to_string()));
        assert_eq!(rewrite_sfen(&format!(" {} \n", sfen)), Ok(sfen.to_string()));
        let once = rewrite_sfen(sfen).unwrap();
        assert_eq!(rewrite_sfen(&once), Ok(once.clone()));
    }
    // hands are written in the order of the notation
    assert_eq!(
        rewrite_sfen("9/9/9/9/9/9/9/9/9 b PR 1"),
        Ok("9/9/9/9/9/9/9/9/9 b RP 1".to_string())
    );
}

#[test]
fn engine_script_for_a_position() {
    let position = PartialPosition::from_usi("sfen 7kl/9/6G1p/9/9/9/9/9/9 b S 1").unwrap();
    assert_eq!(
        engine_script_for(&position),
        "setoption name USI_Hash value 128\nisready\nusinewgame\nposition sfen 7kl/9/6G1p/9/9/9/9/9/9 b S 1\ngo\n"
    );
}

#[test]
fn engine_moves_are_read_in_turn() {
    let position = PartialPosition::from_usi("sfen 7kl/9/6G1p/9/9/9/9/9/9 b S 1").unwrap();
    let moves = read_engine_moves(&position, "S*3b 2a1b 3c2c").unwrap();
    assert_eq!(
        moves,
        vec![
            Move::Drop { kind: 4, white: false, to: 20 },
            Move::Normal { from: 10, to: 2, promote: false },
            Move::Normal { from: 21, to: 12, promote: false },
        ]
    );
    let by_parser = Position::from_usi("sfen 7kl/9/6G1p/9/9/9/9/9/9 b S 1 moves S*3b 2a1b 3c2c")
        .unwrap();
    assert_eq!(by_parser.moves().len(), moves.len());
    assert_eq!(read_engine_moves(&position, "S*3b"), Ok(vec![moves[0]]));
    assert_eq!(read_engine_moves(&position, "what"), Err(UsiError::Malformed));
}
