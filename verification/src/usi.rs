use crate::cli::{engine_script, position_with_moves};
use crate::position_wrapper::{configuration_of, Move};
use crate::text::{to_chars, trim_range, trimmed};
use shogi_core::PartialPosition;
use shogi_usi_parser::FromUsi;
use vstd::prelude::*;
use vstd::string::StrSliceExecFns;
use vstd::string::StringExecFns;

verus! {

/// `shogi_usi_parser::Error`, what the parser of USI texts fails with.
#[verifier::external_type_specification]
#[verifier::external_body]
pub struct ExUsiParserError(shogi_usi_parser::Error);

/// Why a text in the notation of USI could not be read.
#[derive(Clone, Copy, Debug, PartialEq, Eq, Structural)]
pub enum UsiError {
    /// The text is not what the notation asks for.
    Malformed,
}

/// The number of the move that is to be made next in a position, as SFEN
/// writes it behind the hands.
pub uninterp spec fn position_ply(position: PartialPosition) -> u16;

/// The SFEN text of a position with these cells, hands, side to move and
/// number of the next move.
pub uninterp spec fn sfen_text(cells: Seq<u8>, hands: Seq<u8>, white_to_move: bool, ply: u16) -> Seq<
    char,
>;

/// The record of the position that a USI text describes, or `None` where the
/// text describes none.
pub uninterp spec fn usi_position(text: Seq<char>) -> Option<Seq<u8>>;

/// The moves behind the position in a USI text, each made in turn, or `None`
/// where the text describes no position.
pub uninterp spec fn usi_moves(text: Seq<char>) -> Option<Seq<Move>>;

/// What a position holds, as one list of numbers: the 81 cells, the
/// fourteen piles, the side to move (one for the second player), the two
/// recorded kings, and the number of the next move in two bytes, the low
/// one first.
pub open spec fn position_record(position: PartialPosition) -> Seq<u8> {
    let c = configuration_of(position);
    let ply = position_ply(position);
    c.cells + c.hands + seq![
        if c.white_to_move {
            1u8
        } else {
            0u8
        },
    ] + c.kings + seq![(ply % 256) as u8, (ply / 256) as u8]
}

/// The SFEN text of the position that a record stands for.
pub open spec fn record_sfen(record: Seq<u8>) -> Seq<char> {
    sfen_text(
        record.subrange(0, 81),
        record.subrange(81, 95),
        record[95] == 1,
        (record[98] + 256 * record[99]) as u16,
    )
}

/// The SFEN text of a position is that of its record.
pub proof fn lemma_record_sfen(position: PartialPosition)
    ensures
        record_sfen(position_record(position)) == sfen_text(
            configuration_of(position).cells,
            configuration_of(position).hands,
            configuration_of(position).white_to_move,
            position_ply(position),
        ),
{
    let c = configuration_of(position);
    let record = position_record(position);
    let ply = position_ply(position);
    assert(record.subrange(0, 81) =~= c.cells);
    assert(record.subrange(81, 95) =~= c.hands);
    assert(record[95] == if c.white_to_move {
        1u8
    } else {
        0u8
    });
    assert(record[98] == (ply % 256) as u8 && record[99] == (ply / 256) as u8);
    assert((ply % 256) as u8 + 256 * ((ply / 256) as u8) == ply);
}

/// `PartialPosition::to_sfen_owned`. The contract names the text, which
/// depends on the board, the hands, the side to move and the number of the
/// next move alone.
#[verifier::external_body]
fn sfen_of(position: &PartialPosition) -> (text: String)
    ensures
        text@ == sfen_text(
            configuration_of(*position).cells,
            configuration_of(*position).hands,
            configuration_of(*position).white_to_move,
            position_ply(*position),
        ),
{
    position.to_sfen_owned()
}

/// `<PartialPosition as FromUsi>::from_usi`. The contract names what the
/// position holds, which depends on the text alone, and claims that the
/// parser fails exactly where the text describes no position.
#[verifier::external_body]
fn position_from_usi(text: &str) -> (parsed: Result<PartialPosition, shogi_usi_parser::Error>)
    ensures
        match parsed {
            Ok(position) => usi_position(text@) == Some(position_record(position)),
            Err(_) => usi_position(text@) is None,
        },
{
    PartialPosition::from_usi(text)
}

/// `<Position as FromUsi>::from_usi` and `Position::moves`, each move given
/// in plain numbers. The contract names the list, which depends on the text
/// alone, and claims that every square and kind in it is one.
#[verifier::external_body]
fn moves_from_usi(text: &str) -> (parsed: Result<Vec<Move>, shogi_usi_parser::Error>)
    ensures
        match parsed {
            Ok(moves) => usi_moves(text@) == Some(moves@) && forall|i: int|
                0 <= i < moves@.len() ==> (#[trigger] moves@[i]).spec_is_well_formed(),
            Err(_) => usi_moves(text@) is None,
        },
{
    let plain = |mv: &shogi_core::Move| match *mv {
        shogi_core::Move::Normal { from, to, promote } => {
            Move::Normal { from: from.index(), to: to.index(), promote }
        },
        shogi_core::Move::Drop { piece, to } => {
            let white = piece.color() == shogi_core::Color::White;
            Move::Drop { kind: piece.piece_kind() as u8, white, to: to.index() }
        },
    };
    shogi_core::Position::from_usi(text).map(|p| p.moves().iter().map(plain).collect())
}

/// The USI text for a position whose SFEN stands in a line: `sfen `, and the
/// line without the white space around it.
pub open spec fn usi_line(line: Seq<char>) -> Seq<char> {
    "sfen "@ + trimmed(line)
}

/// Reads the position whose SFEN stands in a line.
pub fn read_position(line: &str) -> (position: Result<PartialPosition, UsiError>)
    ensures
        match position {
            Ok(p) => usi_position(usi_line(line@)) == Some(position_record(p)),
            Err(e) => e == UsiError::Malformed && usi_position(usi_line(line@)) is None,
        },
{
    let chars: Vec<char> = to_chars(line);
    let n: usize = chars.len();
    assert(chars@.subrange(0, n as int) =~= line@);
    let bounds: (usize, usize) = trim_range(&chars, 0, n);
    let mut text: String = "sfen ".to_owned();
    text.append(line.substring_char(bounds.0, bounds.1));
    match position_from_usi(text.as_str()) {
        Ok(p) => Ok(p),
        Err(_) => Err(UsiError::Malformed),
    }
}

/// The SFEN text of a position.
pub fn write_position(position: &PartialPosition) -> (text: String)
    ensures
        text@ == record_sfen(position_record(*position)),
{
    proof {
        lemma_record_sfen(*position);
    }
    sfen_of(position)
}

/// Reads the position whose SFEN stands in a line and writes it again.
pub fn rewrite_sfen(line: &str) -> (text: Result<String, UsiError>)
    ensures
        match text {
            Ok(t) => usi_position(usi_line(line@)) matches Some(record) && t@ == record_sfen(
                record,
            ),
            Err(e) => e == UsiError::Malformed && usi_position(usi_line(line@)) is None,
        },
{
    match read_position(line) {
        Ok(p) => Ok(write_position(&p)),
        Err(e) => Err(e),
    }
}

/// What an outside engine is told to make it solve a position.
pub fn engine_script_for(position: &PartialPosition) -> (script: String)
    ensures
        script@ == "setoption name USI_Hash value 128\nisready\nusinewgame\nposition sfen "@
            + record_sfen(position_record(*position)) + "\ngo\n"@,
{
    let sfen: String = write_position(position);
    engine_script(sfen.as_str())
}

/// Reads the moves of a mate sequence that an outside engine gave for a
/// position: the moves behind the position in the USI text of both.
pub fn read_engine_moves(position: &PartialPosition, mate_sequence: &str) -> (moves: Result<
    Vec<Move>,
    UsiError,
>)
    ensures
        match moves {
            Ok(list) => usi_moves(
                "sfen "@ + trimmed(record_sfen(position_record(*position))) + " moves "@
                    + mate_sequence@,
            ) == Some(list@) && forall|i: int|
                0 <= i < list@.len() ==> (#[trigger] list@[i]).spec_is_well_formed(),
            Err(e) => e == UsiError::Malformed && usi_moves(
                "sfen "@ + trimmed(record_sfen(position_record(*position))) + " moves "@
                    + mate_sequence@,
            ) is None,
        },
{
    let sfen: String = write_position(position);
    let text: String = position_with_moves(sfen.as_str(), mate_sequence);
    match moves_from_usi(text.as_str()) {
        Ok(list) => Ok(list),
        Err(_) => Err(UsiError::Malformed),
    }
}

} // verus!
