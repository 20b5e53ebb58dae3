use crate::position_wrapper::{
    clear_hand, configuration_of, empty_configuration, empty_position, pile_of, put_in_hand,
    set_cell, with_cell, without_hand, Configuration,
};
use crate::text::{has_prefix, to_chars};
use shogi_core::PartialPosition;
use vstd::prelude::*;

verus! {

/// The kind of piece that a character of a KIF board stands for: the dragon
/// (in two spellings), the horse, the promoted silver, knight, lance and
/// pawn, the king, the rook, bishop, gold, silver, knight, lance and pawn.
pub open spec fn spec_piece_kind(c: char) -> Option<u8> {
    if c == '\u{7adc}' || c == '\u{9f8d}' {
        Some(14u8)
    } else if c == '\u{99ac}' {
        Some(13u8)
    } else if c == '\u{5168}' {
        Some(12u8)
    } else if c == '\u{572d}' {
        Some(11u8)
    } else if c == '\u{674f}' {
        Some(10u8)
    } else if c == '\u{3068}' {
        Some(9u8)
    } else if c == '\u{7389}' {
        Some(8u8)
    } else {
        spec_hand_kind(c)
    }
}

/// The kind of piece that a character of a KIF hand stands for: the rook,
/// bishop, gold, silver, knight, lance and pawn.
pub open spec fn spec_hand_kind(c: char) -> Option<u8> {
    if c == '\u{98db}' {
        Some(7u8)
    } else if c == '\u{89d2}' {
        Some(6u8)
    } else if c == '\u{91d1}' {
        Some(5u8)
    } else if c == '\u{9280}' {
        Some(4u8)
    } else if c == '\u{6842}' {
        Some(3u8)
    } else if c == '\u{9999}' {
        Some(2u8)
    } else if c == '\u{6b69}' {
        Some(1u8)
    } else {
        None
    }
}

/// The number that a kanji numeral stands for: ten, and one to nine.
pub open spec fn spec_kansuji(c: char) -> Option<u8> {
    if c == '\u{5341}' {
        Some(10u8)
    } else if c == '\u{4e00}' {
        Some(1u8)
    } else if c == '\u{4e8c}' {
        Some(2u8)
    } else if c == '\u{4e09}' {
        Some(3u8)
    } else if c == '\u{56db}' {
        Some(4u8)
    } else if c == '\u{4e94}' {
        Some(5u8)
    } else if c == '\u{516d}' {
        Some(6u8)
    } else if c == '\u{4e03}' {
        Some(7u8)
    } else if c == '\u{516b}' {
        Some(8u8)
    } else if c == '\u{4e5d}' {
        Some(9u8)
    } else {
        None
    }
}

/// The sum of two counts, kept in eight bits.
pub open spec fn wrapped_sum(a: u8, b: u8) -> u8 {
    ((a + b) % 256) as u8
}

/// Seven counts with `count` pieces of `kind` more.
pub open spec fn spec_add(hand: Seq<u8>, kind: u8, count: u8) -> Seq<u8> {
    hand.update(kind - 1, wrapped_sum(hand[kind - 1], count))
}

/// One step of reading a hand from its end: a piece takes the number that
/// was read behind it, or one; the wide space starts a new number; a numeral
/// adds to the number.
pub open spec fn hand_step(state: (Seq<u8>, u8), c: char) -> (Seq<u8>, u8) {
    let amount = if state.1 > 1 {
        state.1
    } else {
        1u8
    };
    let hand = match spec_hand_kind(c) {
        Some(kind) => spec_add(state.0, kind, amount),
        None => state.0,
    };
    let count = if c == '\u{3000}' {
        0u8
    } else {
        state.1
    };
    (
        hand,
        match spec_kansuji(c) {
            Some(num) => wrapped_sum(count, num),
            None => count,
        },
    )
}

/// The hand and the number read from the characters from `i` on, last
/// character first.
pub open spec fn hand_scan(s: Seq<char>, i: int) -> (Seq<u8>, u8)
    decreases s.len() - i,
{
    if i >= s.len() {
        (Seq::new(7, |k: int| 0u8), 0u8)
    } else {
        hand_step(hand_scan(s, i + 1), s[i])
    }
}

/// The seven counts of a hand that is written as in KIF, by kind minus one.
pub open spec fn hand_counts(s: Seq<char>) -> Seq<u8> {
    hand_scan(s, 0).0
}

/// A position with one player's hand replaced.
pub open spec fn with_hand(c: Configuration, white: bool, counts: Seq<u8>) -> Configuration {
    Configuration {
        cells: c.cells,
        hands: Seq::new(
            14,
            |i: int|
                if (i >= 7) == white {
                    counts[i % 7]
                } else {
                    c.hands[i]
                },
        ),
        white_to_move: c.white_to_move,
        kings: c.kings,
    }
}

/// What reading a row of a KIF board keeps: the cells read so far, each as
/// a kind and a player, whose piece the next one is, and the position.
pub ghost struct RowState {
    pub cells: Seq<(u8, bool)>,
    pub white: bool,
    pub position: Configuration,
}

/// The square of column `i` from the left in the rank `rank`.
pub open spec fn row_square(i: int, rank: u8) -> u8 {
    (9 * (9 - i) + rank - 9) as u8
}

/// A position with the first `n` cells of a row put on the board in the rank
/// `rank`, leftmost cell on the ninth file.
pub open spec fn place_row(c: Configuration, cells: Seq<(u8, bool)>, rank: u8, n: int) -> Configuration
    decreases n,
{
    if n <= 0 {
        c
    } else {
        with_cell(
            place_row(c, cells, rank, n - 1),
            row_square(n - 1, rank),
            cells[n - 1].0,
            cells[n - 1].1,
        )
    }
}

/// One step of reading a row: a piece is the next cell, and so is the dot
/// for an empty cell; a blank makes the next piece the first player's and
/// `v` the second player's; a numeral from one to nine behind at least nine
/// cells puts the first nine on the board in that rank.
pub open spec fn row_step(state: RowState, c: char) -> RowState {
    let cells = match spec_piece_kind(c) {
        Some(kind) => state.cells.push((kind, state.white)),
        None => if c == '\u{30fb}' {
            state.cells.push((0u8, false))
        } else {
            state.cells
        },
    };
    let white = if c == ' ' {
        false
    } else if c == 'v' {
        true
    } else {
        state.white
    };
    let position = match spec_kansuji(c) {
        Some(rank) => if rank <= 9 && cells.len() >= 9 {
            place_row(state.position, cells, rank, 9)
        } else {
            state.position
        },
        None => state.position,
    };
    RowState { cells, white, position }
}

/// The state after the first `n` characters of a row.
pub open spec fn row_scan(s: Seq<char>, n: int, start: RowState) -> RowState
    decreases n,
{
    if n <= 0 {
        start
    } else {
        row_step(row_scan(s, n - 1, start), s[n - 1])
    }
}

/// The header of the line that holds the first player's hand.
pub open spec fn black_hand_header() -> Seq<char> {
    "\u{5148}\u{624b}\u{306e}\u{6301}\u{99d2}\u{ff1a}"@
}

/// The header of the line that holds the second player's hand.
pub open spec fn white_hand_header() -> Seq<char> {
    "\u{5f8c}\u{624b}\u{306e}\u{6301}\u{99d2}\u{ff1a}"@
}

/// A position after one line of KIF: a line that begins with the header of
/// a hand replaces that hand, a line that begins with a bar is a row of the
/// board, and any other line changes nothing.
pub open spec fn apply_line(c: Configuration, line: Seq<char>) -> Configuration {
    let c1 = if black_hand_header().is_prefix_of(line) {
        with_hand(c, false, hand_counts(line.skip(black_hand_header().len() as int)))
    } else {
        c
    };
    let c2 = if white_hand_header().is_prefix_of(line) {
        with_hand(c1, true, hand_counts(line.skip(white_hand_header().len() as int)))
    } else {
        c1
    };
    if "|"@.is_prefix_of(line) {
        row_scan(
            line.skip(1),
            line.len() - 1,
            RowState { cells: Seq::empty(), white: false, position: c2 },
        ).position
    } else {
        c2
    }
}

/// Where the line that begins at `start` ends: at the next line feed, or at
/// the end of the text.
pub open spec fn line_end(s: Seq<char>, start: int) -> int
    decreases s.len() - start,
{
    if start >= s.len() || s[start] == '\n' {
        start
    } else {
        line_end(s, start + 1)
    }
}

/// A position after the lines of a text from `start` on.
pub open spec fn kif_lines(s: Seq<char>, start: int, c: Configuration) -> Configuration
    decreases s.len() - start,
{
    if start > s.len() || start < 0 {
        c
    } else {
        let end = line_end(s, start);
        let next = apply_line(c, s.subrange(start, end));
        if end >= s.len() || end < start {
            next
        } else {
            kif_lines(s, end + 1, next)
        }
    }
}

/// The position that a KIF text describes: the empty position, changed by
/// each line of the text in turn.
pub open spec fn kif_configuration(s: Seq<char>) -> Configuration {
    kif_lines(s, 0, empty_configuration())
}

/// The kind of piece that a character of a KIF board stands for.
pub fn parse_piece_kind(c: char) -> (kind: Option<u8>)
    ensures
        kind == spec_piece_kind(c),
        kind matches Some(k) ==> 1 <= k <= 14,
{
    if c == '\u{7adc}' || c == '\u{9f8d}' {
        Some(14)
    } else if c == '\u{99ac}' {
        Some(13)
    } else if c == '\u{5168}' {
        Some(12)
    } else if c == '\u{572d}' {
        Some(11)
    } else if c == '\u{674f}' {
        Some(10)
    } else if c == '\u{3068}' {
        Some(9)
    } else if c == '\u{7389}' {
        Some(8)
    } else {
        parse_hand_kind(c)
    }
}

/// The kind of piece that a character of a KIF hand stands for.
pub fn parse_hand_kind(c: char) -> (kind: Option<u8>)
    ensures
        kind == spec_hand_kind(c),
        kind matches Some(k) ==> 1 <= k <= 7,
{
    if c == '\u{98db}' {
        Some(7)
    } else if c == '\u{89d2}' {
        Some(6)
    } else if c == '\u{91d1}' {
        Some(5)
    } else if c == '\u{9280}' {
        Some(4)
    } else if c == '\u{6842}' {
        Some(3)
    } else if c == '\u{9999}' {
        Some(2)
    } else if c == '\u{6b69}' {
        Some(1)
    } else {
        None
    }
}

/// The number that a kanji numeral stands for.
pub fn parse_kansuji(c: char) -> (num: Option<u8>)
    ensures
        num == spec_kansuji(c),
        num matches Some(n) ==> 1 <= n <= 10,
{
    if c == '\u{5341}' {
        Some(10)
    } else if c == '\u{4e00}' {
        Some(1)
    } else if c == '\u{4e8c}' {
        Some(2)
    } else if c == '\u{4e09}' {
        Some(3)
    } else if c == '\u{56db}' {
        Some(4)
    } else if c == '\u{4e94}' {
        Some(5)
    } else if c == '\u{516d}' {
        Some(6)
    } else if c == '\u{4e03}' {
        Some(7)
    } else if c == '\u{516b}' {
        Some(8)
    } else if c == '\u{4e5d}' {
        Some(9)
    } else {
        None
    }
}

/// Adds `count` pieces of `kind` to seven counts; a count goes round at 256.
pub fn add(hand: &mut Vec<u8>, kind: u8, count: u8)
    requires
        old(hand)@.len() == 7,
        1 <= kind <= 7,
    ensures
        final(hand)@ == spec_add(old(hand)@, kind, count),
{
    let at: usize = (kind - 1) as usize;
    let sum: u16 = hand[at] as u16 + count as u16;
    let kept: u8 = (sum % 256) as u8;
    hand.set(at, kept);
}

/// The seven counts of the hand that the characters from `start` up to
/// `end` describe.
pub fn parse_hand_range(chars: &Vec<char>, start: usize, end: usize) -> (hand: Vec<u8>)
    requires
        start <= end <= chars@.len(),
    ensures
        hand@ == hand_counts(chars@.subrange(start as int, end as int)),
        hand@.len() == 7,
{
    let ghost line = chars@.subrange(start as int, end as int);
    let mut hand: Vec<u8> = vec![0u8; 7];
    assert(hand@ =~= Seq::new(7, |k: int| 0u8));
    let mut count: u8 = 0;
    let mut i: usize = end;
    while i > start
        invariant
            start <= i <= end <= chars@.len(),
            line == chars@.subrange(start as int, end as int),
            hand@.len() == 7,
            (hand@, count) == hand_scan(line, i - start),
        decreases i,
    {
        i -= 1;
        let c: char = chars[i];
        assert(line[i - start] == c);
        let amount: u8 = if count > 1 {
            count
        } else {
            1
        };
        match parse_hand_kind(c) {
            Some(kind) => {
                self::add(&mut hand, kind, amount);
            },
            None => {},
        }
        if c == '\u{3000}' {
            count = 0;
        }
        match parse_kansuji(c) {
            Some(num) => {
                count = ((count as u16 + num as u16) % 256) as u8;
            },
            None => {},
        }
    }
    hand
}

/// The seven counts of a hand that is written as in KIF, by kind minus one:
/// pawns first, rooks last.
pub fn parse_hand(a: &str) -> (hand: Vec<u8>)
    ensures
        hand@ == hand_counts(a@),
        hand@.len() == 7,
{
    let chars: Vec<char> = to_chars(a);
    assert(chars@.subrange(0, chars@.len() as int) =~= a@);
    parse_hand_range(&chars, 0, chars.len())
}

/// Replaces one player's hand in a position by seven counts.
pub fn set_hand(position: &mut PartialPosition, white: bool, counts: &Vec<u8>)
    requires
        counts@.len() == 7,
    ensures
        configuration_of(*final(position)) == with_hand(
            configuration_of(*old(position)),
            white,
            counts@,
        ),
{
    let ghost before = configuration_of(*position);
    clear_hand(position, white);
    let mut kind: u8 = 1;
    while kind <= 7
        invariant
            1 <= kind <= 8,
            counts@.len() == 7,
            configuration_of(*position).cells == before.cells,
            configuration_of(*position).white_to_move == before.white_to_move,
            configuration_of(*position).kings == before.kings,
            configuration_of(*position).hands.len() == 14,
            forall|i: int|
                0 <= i < 14 ==> configuration_of(*position).hands[i] == if (i >= 7) == white {
                    if i % 7 < kind - 1 {
                        counts@[i % 7]
                    } else {
                        0u8
                    }
                } else {
                    before.hands[i]
                },
        decreases 8 - kind,
    {
        let goal: u8 = counts[(kind - 1) as usize];
        let ghost pile = pile_of(white, kind);
        let ghost entered = configuration_of(*position).hands;
        let mut held: u8 = 0;
        while held < goal
            invariant
                1 <= kind <= 7,
                held <= goal,
                pile == pile_of(white, kind),
                configuration_of(*position).cells == before.cells,
                configuration_of(*position).white_to_move == before.white_to_move,
                configuration_of(*position).kings == before.kings,
                configuration_of(*position).hands == entered.update(pile, held),
                entered.len() == 14,
            decreases goal - held,
        {
            put_in_hand(position, white, kind);
            held += 1;
            assert(configuration_of(*position).hands =~= entered.update(pile, held));
        }
        kind += 1;
    }
    assert(configuration_of(*position).hands =~= with_hand(before, white, counts@).hands);
}

/// Puts the first nine cells of a row on the board in the rank `rank`.
fn put_row(position: &mut PartialPosition, cells: &Vec<(u8, bool)>, rank: u8)
    requires
        cells@.len() >= 9,
        1 <= rank <= 9,
        forall|k: int| 0 <= k < cells@.len() ==> (#[trigger] cells@[k]).0 <= 14,
    ensures
        configuration_of(*final(position)) == place_row(
            configuration_of(*old(position)),
            cells@,
            rank,
            9,
        ),
{
    let ghost before = configuration_of(*position);
    let mut i: u8 = 0;
    while i < 9
        invariant
            i <= 9,
            cells@.len() >= 9,
            1 <= rank <= 9,
            forall|k: int| 0 <= k < cells@.len() ==> (#[trigger] cells@[k]).0 <= 14,
            configuration_of(*position) == place_row(before, cells@, rank, i as int),
        decreases 9 - i,
    {
        let square: u8 = 9 * (9 - i) + rank - 9;
        let cell: (u8, bool) = cells[i as usize];
        set_cell(position, square, cell.0, cell.1);
        i += 1;
    }
}

/// Reads the row of a KIF board that the characters from `start` up to
/// `end` hold, and puts it on the board.
fn read_row(position: &mut PartialPosition, chars: &Vec<char>, start: usize, end: usize)
    requires
        start <= end <= chars@.len(),
    ensures
        configuration_of(*final(position)) == row_scan(
            chars@.subrange(start as int, end as int),
            end - start,
            RowState {
                cells: Seq::empty(),
                white: false,
                position: configuration_of(*old(position)),
            },
        ).position,
{
    let ghost line = chars@.subrange(start as int, end as int);
    let ghost first = RowState {
        cells: Seq::empty(),
        white: false,
        position: configuration_of(*position),
    };
    let mut cells: Vec<(u8, bool)> = Vec::new();
    let mut white: bool = false;
    let mut i: usize = start;
    while i < end
        invariant
            start <= i <= end <= chars@.len(),
            line == chars@.subrange(start as int, end as int),
            forall|k: int| 0 <= k < cells@.len() ==> (#[trigger] cells@[k]).0 <= 14,
            row_scan(line, i - start, first) == (RowState {
                cells: cells@,
                white,
                position: configuration_of(*position),
            }),
        decreases end - i,
    {
        let c: char = chars[i];
        assert(line[i - start] == c);
        match parse_piece_kind(c) {
            Some(kind) => {
                cells.push((kind, white));
            },
            None => {
                if c == '\u{30fb}' {
                    cells.push((0, false));
                }
            },
        }
        if c == ' ' {
            white = false;
        } else if c == 'v' {
            white = true;
        }
        match parse_kansuji(c) {
            Some(rank) => {
                if rank <= 9 && cells.len() >= 9 {
                    put_row(position, &cells, rank);
                }
            },
            None => {},
        }
        i += 1;
    }
}

/// The position that a KIF text describes. A row of the board with fewer
/// than nine cells, or with the numeral ten behind it, is left out.
pub fn parse_kif(a: &str) -> (position: PartialPosition)
    ensures
        configuration_of(position) == kif_configuration(a@),
{
    let chars: Vec<char> = to_chars(a);
    let n: usize = chars.len();
    let mut position: PartialPosition = empty_position();
    let mut start: usize = 0;
    loop
        invariant
            chars@ == a@,
            n == chars@.len(),
            start <= n,
            kif_configuration(a@) == kif_lines(chars@, start as int, configuration_of(position)),
        decreases n - start,
    {
        let mut end: usize = start;
        while end < n && chars[end] != '\n'
            invariant
                start <= end <= n,
                n == chars@.len(),
                line_end(chars@, start as int) == line_end(chars@, end as int),
            decreases n - end,
        {
            end += 1;
        }
        let ghost line = chars@.subrange(start as int, end as int);
        let ghost entered = configuration_of(position);
        proof {
            reveal_strlit("\u{5148}\u{624b}\u{306e}\u{6301}\u{99d2}\u{ff1a}");
            reveal_strlit("\u{5f8c}\u{624b}\u{306e}\u{6301}\u{99d2}\u{ff1a}");
            reveal_strlit("|");
        }
        if has_prefix(&chars, start, end, "\u{5148}\u{624b}\u{306e}\u{6301}\u{99d2}\u{ff1a}") {
            let hand: Vec<u8> = parse_hand_range(&chars, start + 6, end);
            assert(line.skip(6) =~= chars@.subrange(start + 6, end as int));
            set_hand(&mut position, false, &hand);
        }
        if has_prefix(&chars, start, end, "\u{5f8c}\u{624b}\u{306e}\u{6301}\u{99d2}\u{ff1a}") {
            let hand: Vec<u8> = parse_hand_range(&chars, start + 6, end);
            assert(line.skip(6) =~= chars@.subrange(start + 6, end as int));
            set_hand(&mut position, true, &hand);
        }
        if has_prefix(&chars, start, end, "|") {
            assert(line.skip(1) =~= chars@.subrange(start + 1, end as int));
            read_row(&mut position, &chars, start + 1, end);
        }
        assert(configuration_of(position) == apply_line(entered, line));
        if end >= n {
            return position;
        }
        start = end + 1;
    }
}

} // verus!
