use shogi_core::{Color, Hand, PartialPosition, Piece, PieceKind, Square};
use shogi_mate_solver::kif::{
    add, parse_hand, parse_hand_kind, parse_kansuji, parse_kif, parse_piece_kind, set_hand,
};
use shogi_mate_solver::{check_record_type, parse, RecordType};
use shogi_usi_parser::FromUsi;

fn counts_of(hand: Hand) -> Vec<u8> {
    Hand::all_hand_pieces()
        .map(|kind| hand.count(kind).unwrap())
        .collect()
}

#[test]
fn parse_hand_works() {
    let hands = <[Hand; 2]>::from_usi("S2r4gs3n3l15p").unwrap();
    assert_eq!(parse_hand("\u{9280}"), counts_of(hands[0]));
    assert_eq!(
        parse_hand("\u{98db}\u{4e8c}\u{3000}\u{91d1}\u{56db}\u{3000}\u{9280}\u{3000}\u{6842}\u{4e09}\u{3000}\u{9999}\u{4e09}\u{3000}\u{6b69}\u{5341}\u{4e94}"),
        counts_of(hands[1])
    );
}

#[test]
fn parse_hand_of_nothing_is_empty() {
    assert_eq!(parse_hand(""), vec![0u8; 7]);
    assert_eq!(parse_hand("\u{306a}\u{3057}"), vec![0u8; 7]);
}

#[test]
fn kansuji_are_read() {
    let numerals = [
        '\u{4e00}', '\u{4e8c}', '\u{4e09}', '\u{56db}', '\u{4e94}', '\u{516d}', '\u{4e03}',
        '\u{516b}', '\u{4e5d}', '\u{5341}',
    ];
    for (i, c) in numerals.iter().enumerate() {
        assert_eq!(parse_kansuji(*c), Some(i as u8 + 1));
    }
    assert_eq!(parse_kansuji('1'), None);
    assert_eq!(parse_kansuji('\u{6b69}'), None);
}

#[test]
fn piece_kinds_are_read() {
    assert_eq!(parse_piece_kind('\u{7adc}'), Some(PieceKind::ProRook as u8));
    assert_eq!(parse_piece_kind('\u{9f8d}'), Some(PieceKind::ProRook as u8));
    assert_eq!(parse_piece_kind('\u{99ac}'), Some(PieceKind::ProBishop as u8));
    assert_eq!(parse_piece_kind('\u{5168}'), Some(PieceKind::ProSilver as u8));
    assert_eq!(parse_piece_kind('\u{572d}'), Some(PieceKind::ProKnight as u8));
    assert_eq!(parse_piece_kind('\u{674f}'), Some(PieceKind::ProLance as u8));
    assert_eq!(parse_piece_kind('\u{3068}'), Some(PieceKind::ProPawn as u8));
    assert_eq!(parse_piece_kind('\u{7389}'), Some(PieceKind::King as u8));
    assert_eq!(parse_piece_kind('\u{98db}'), Some(PieceKind::Rook as u8));
    assert_eq!(parse_piece_kind('\u{89d2}'), Some(PieceKind::Bishop as u8));
    assert_eq!(parse_piece_kind('\u{91d1}'), Some(PieceKind::Gold as u8));
    assert_eq!(parse_piece_kind('\u{9280}'), Some(PieceKind::Silver as u8));
    assert_eq!(parse_piece_kind('\u{6842}'), Some(PieceKind::Knight as u8));
    assert_eq!(parse_piece_kind('\u{9999}'), Some(PieceKind::Lance as u8));
    assert_eq!(parse_piece_kind('\u{6b69}'), Some(PieceKind::Pawn as u8));
    assert_eq!(parse_piece_kind('x'), None);
    assert_eq!(parse_hand_kind('\u{7389}'), None);
    assert_eq!(parse_hand_kind('\u{98db}'), Some(7));
}

#[test]
fn add_goes_round_at_256() {
    let mut hand = vec![0u8; 7];
    add(&mut hand, 1, 200);
    add(&mut hand, 1, 100);
    add(&mut hand, 7, 2);
    assert_eq!(hand, vec![44, 0, 0, 0, 0, 0, 2]);
}

#[test]
fn set_hand_replaces_one_hand() {
    let mut position = PartialPosition::startpos();
    position.hand_of_a_player_mut(Color::Black).Hand_add(PieceKind::Rook);
    position.hand_of_a_player_mut(Color::White).Hand_add(PieceKind::Gold);
    set_hand(&mut position, false, &vec![3, 0, 1, 0, 0, 0, 0]);
    assert_eq!(
        counts_of(position.hand_of_a_player(Color::Black)),
        vec![3, 0, 1, 0, 0, 0, 0]
    );
    assert_eq!(
        counts_of(position.hand_of_a_player(Color::White)),
        vec![0, 0, 0, 0, 1, 0, 0]
    );
    assert_eq!(position.piece_at(Square::SQ_5I), Some(Piece::B_K));
}

const PROBLEM: &str = "# --- Kifu for Windows\n\u{5f8c}\u{624b}\u{306e}\u{6301}\u{99d2}\u{ff1a}\u{98db}\u{4e8c}\u{3000}\u{89d2}\u{4e8c}\u{3000}\u{91d1}\u{56db}\u{3000}\u{9280}\u{4e09}\u{3000}\u{6842}\u{56db}\u{3000}\u{9999}\u{4e09}\u{3000}\u{6b69}\u{5341}\u{4e03}\n  \u{ff19} \u{ff18} \u{ff17} \u{ff16} \u{ff15} \u{ff14} \u{ff13} \u{ff12} \u{ff11}\n+---------------------------+\n| \u{30fb} \u{30fb} \u{30fb} \u{30fb} \u{30fb} \u{30fb} \u{30fb}v\u{7389}v\u{9999}|\u{4e00}\n| \u{30fb} \u{30fb} \u{30fb} \u{30fb} \u{30fb} \u{30fb} \u{30fb} \u{30fb} \u{30fb}|\u{4e8c}\n| \u{30fb} \u{30fb} \u{30fb} \u{30fb} \u{30fb} \u{30fb} \u{91d1} \u{30fb}v\u{6b69}|\u{4e09}\n+---------------------------+\n\u{5148}\u{624b}\u{306e}\u{6301}\u{99d2}\u{ff1a}\u{9280}\n";

#[test]
fn parse_kif_reads_board_and_hands() {
    let position = parse_kif(PROBLEM);
    let mut expected = PartialPosition::from_usi("sfen 7kl/9/6G1p/9/9/9/9/9/9 b S2r2b4g3s4n3l17p 1")
        .unwrap();
    assert_eq!(position.to_sfen_owned(), expected.to_sfen_owned());
    assert_eq!(position.piece_at(Square::SQ_2A), Some(Piece::W_K));
    assert_eq!(position.piece_at(Square::SQ_3C), Some(Piece::B_G));
    assert_eq!(position.hand(Piece::B_S), Some(1));
    assert_eq!(position.hand(Piece::W_P), Some(17));
    assert_eq!(position.king_position(Color::White), Some(Square::SQ_2A));
    expected.side_to_move_set(Color::Black);
    assert_eq!(position.side_to_move(), Color::Black);
    let same = parse(PROBLEM, RecordType::Kif);
    assert_eq!(same.to_sfen_owned(), position.to_sfen_owned());
}

#[test]
fn parse_kif_of_nothing_is_the_empty_position() {
    assert_eq!(parse_kif(""), PartialPosition::empty());
    assert_eq!(parse_kif("\n\n"), PartialPosition::empty());
    assert_eq!(parse_kif("| \u{30fb} \u{30fb}|\u{4e00}"), PartialPosition::empty());
}

#[test]
fn record_types_are_told_by_their_header() {
    assert_eq!(check_record_type("#KIF version=2.0 encoding=UTF-8"), RecordType::Kif);
    assert_eq!(check_record_type(PROBLEM), RecordType::Kif);
    assert_eq!(check_record_type("#KIF"), RecordType::Psn);
    assert_eq!(check_record_type(""), RecordType::Psn);
    assert_eq!(check_record_type("[Sente \"x\"]"), RecordType::Psn);
    assert_eq!(check_record_type(" #KIF version="), RecordType::Psn);
}
