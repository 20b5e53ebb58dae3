use rand::Rng;
use rand::SeedableRng;
use vstd::prelude::*;

verus! {

/// The seed of the table.
pub const ZOBRIST_SEED: u64 = 0xe964;

/// The word that is part of the hash when the second player is to move.
pub const COLOR_HASH: u64 = 1;

/// Squares of the board.
pub const SQUARES: usize = 81;

/// Kinds of pieces on the board.
pub const PIECE_KINDS: usize = 14;

/// Piles of pieces in hand: seven kinds for each of the two players.
pub const PILES: usize = 14;

/// The most pieces that one pile holds.
pub const PILE_LIMIT: usize = 18;

/// Words for the board: one per square, owner and kind.
pub const BOARD_WORDS: usize = 2268;

/// Words for the hands: one per pile and place in the pile.
pub const HAND_WORDS: usize = 252;

/// The 64-bit word that a ChaCha8 generator seeded with `seed` gives when it
/// is set to the 32-bit word position `word_pos` of its stream.
pub uninterp spec fn chacha8_word_at(seed: u64, word_pos: u64) -> u64;

/// `rand_chacha::ChaCha8Rng`: seeds a generator with `seed_from_u64`, moves it
/// with `set_word_pos` and draws one `u64` with `random`. The contract claims
/// only that the word drawn depends on the seed and the position alone.
#[verifier::external_body]
fn seeded_word(seed: u64, word_pos: u64) -> (word: u64)
    ensures
        word == chacha8_word_at(seed, word_pos),
{
    let mut rng = rand_chacha::ChaCha8Rng::seed_from_u64(seed);
    rng.set_word_pos(u128::from(word_pos));
    rng.random()
}

/// A code of a piece on the board: 1 to 14 for the first player's pieces, by
/// kind, and 17 to 30 for the second player's.
pub open spec fn is_piece_code(code: u8) -> bool {
    1 <= code <= 14 || 17 <= code <= 30
}

/// The words of Zobrist hashing: one for every square, owner and kind of piece
/// on the board, and one for every pile of pieces in hand and place in it.
pub struct ZobristTable {
    board: Vec<u64>,
    hands: Vec<u64>,
}

impl ZobristTable {
    /// The words for the board, by `(square * 2 + owner) * 14 + kind - 1`.
    pub closed spec fn board_words(&self) -> Seq<u64> {
        self.board@
    }

    /// The words for the hands, by `pile * 18 + place`.
    pub closed spec fn hand_words(&self) -> Seq<u64> {
        self.hands@
    }

    /// The table has a word for every place that is hashed.
    pub open spec fn wf(&self) -> bool {
        &&& self.board_words().len() == BOARD_WORDS
        &&& self.hand_words().len() == HAND_WORDS
    }

    /// The words are the first 2520 that the seeded generator gives: those for
    /// the board first, then those for the hands.
    pub open spec fn is_seeded(&self) -> bool {
        &&& forall|i: int|
            0 <= i < BOARD_WORDS ==> #[trigger] self.board_words()[i] == chacha8_word_at(
                ZOBRIST_SEED,
                (2 * i) as u64,
            )
        &&& forall|i: int|
            0 <= i < HAND_WORDS ==> #[trigger] self.hand_words()[i] == chacha8_word_at(
                ZOBRIST_SEED,
                (2 * (BOARD_WORDS + i)) as u64,
            )
    }

    /// The word of a cell of the board: zero for an empty cell.
    pub open spec fn board_word(&self, square: int, code: u8) -> u64 {
        if code == 0 {
            0
        } else {
            self.board_words()[(square * 2 + (if code >= 16 {
                1int
            } else {
                0int
            })) * 14 + (code % 16 - 1)]
        }
    }

    /// The hash of the first `n` cells of a board.
    pub open spec fn board_hash(&self, cells: Seq<u8>, n: int) -> u64
        decreases n,
    {
        if n <= 0 {
            0
        } else {
            self.board_hash(cells, n - 1) ^ self.board_word(n - 1, cells[n - 1])
        }
    }

    /// The word of one place in a pile.
    pub open spec fn hand_word(&self, pile: int, place: int) -> u64 {
        self.hand_words()[pile * 18 + place]
    }

    /// The hash of a pile of `count` pieces: the words of its places below
    /// `count`.
    pub open spec fn pile_hash(&self, pile: int, count: int) -> u64
        decreases count,
    {
        if count <= 0 {
            0
        } else {
            self.pile_hash(pile, count - 1) ^ self.hand_word(pile, count - 1)
        }
    }

    /// The hash of the first `n` piles.
    pub open spec fn hands_hash(&self, hands: Seq<u8>, n: int) -> u64
        decreases n,
    {
        if n <= 0 {
            0
        } else {
            self.hands_hash(hands, n - 1) ^ self.pile_hash(n - 1, hands[n - 1] as int)
        }
    }

    /// The hash of a board, the hands and the side to move, from scratch.
    pub open spec fn hash_of(&self, cells: Seq<u8>, hands: Seq<u8>, white_to_move: bool) -> u64 {
        self.board_hash(cells, SQUARES as int) ^ self.hands_hash(hands, PILES as int) ^ (
        if white_to_move {
            COLOR_HASH
        } else {
            0
        })
    }

    /// The table, filled from the generator seeded with `ZOBRIST_SEED`.
    pub fn new() -> (table: Self)
        ensures
            table.wf(),
            table.is_seeded(),
    {
        let mut board: Vec<u64> = Vec::new();
        let mut i: u64 = 0;
        while i < BOARD_WORDS as u64
            invariant
                i <= BOARD_WORDS,
                board@.len() == i,
                forall|k: int|
                    0 <= k < i ==> #[trigger] board@[k] == chacha8_word_at(
                        ZOBRIST_SEED,
                        (2 * k) as u64,
                    ),
            decreases BOARD_WORDS - i,
        {
            board.push(seeded_word(ZOBRIST_SEED, 2 * i));
            i += 1;
        }
        let mut hands: Vec<u64> = Vec::new();
        let mut j: u64 = 0;
        while j < HAND_WORDS as u64
            invariant
                j <= HAND_WORDS,
                hands@.len() == j,
                forall|k: int|
                    0 <= k < j ==> #[trigger] hands@[k] == chacha8_word_at(
                        ZOBRIST_SEED,
                        (2 * (BOARD_WORDS + k)) as u64,
                    ),
            decreases HAND_WORDS - j,
        {
            hands.push(seeded_word(ZOBRIST_SEED, 2 * (BOARD_WORDS as u64 + j)));
            j += 1;
        }
        ZobristTable { board, hands }
    }

    /// The word of the piece `code` on `square`, counted from zero.
    pub fn word_on_board(&self, square: usize, code: u8) -> (word: u64)
        requires
            self.wf(),
            square < SQUARES,
            is_piece_code(code),
        ensures
            word == self.board_word(square as int, code),
    {
        let owner: usize = if code >= 16 {
            1
        } else {
            0
        };
        let kind: usize = (code % 16) as usize;
        self.board[(square * 2 + owner) * 14 + (kind - 1)]
    }

    /// The word of place `place` in pile `pile`.
    pub fn word_in_hand(&self, pile: usize, place: usize) -> (word: u64)
        requires
            self.wf(),
            pile < PILES,
            place < PILE_LIMIT,
        ensures
            word == self.hand_word(pile as int, place as int),
    {
        self.hands[pile * 18 + place]
    }

    /// The hash of a board depends on the cells that it covers only.
    pub proof fn lemma_board_hash_same(&self, a: Seq<u8>, b: Seq<u8>, n: int)
        requires
            forall|i: int| 0 <= i < n ==> a[i] == b[i],
        ensures
            self.board_hash(a, n) == self.board_hash(b, n),
        decreases n,
    {
        if n > 0 {
            self.lemma_board_hash_same(a, b, n - 1);
        }
    }

    /// Changing one cell changes the hash of the board by the word of what the
    /// cell held and the word of what it holds now.
    pub proof fn lemma_board_hash_update(&self, cells: Seq<u8>, i: int, code: u8, n: int)
        requires
            0 <= i < n <= cells.len(),
        ensures
            self.board_hash(cells.update(i, code), n) == self.board_hash(cells, n)
                ^ self.board_word(i, cells[i]) ^ self.board_word(i, code),
        decreases n,
    {
        let after = cells.update(i, code);
        let rest = self.board_hash(cells, n - 1);
        let was = self.board_word(i, cells[i]);
        let now = self.board_word(i, code);
        if n - 1 == i {
            self.lemma_board_hash_same(after, cells, n - 1);
            assert(rest ^ now == (rest ^ was) ^ was ^ now) by (bit_vector);
        } else {
            self.lemma_board_hash_update(cells, i, code, n - 1);
            let last = self.board_word(n - 1, cells[n - 1]);
            assert((rest ^ was ^ now) ^ last == (rest ^ last) ^ was ^ now) by (bit_vector);
        }
    }

    /// The hash of the hands depends on the piles that it covers only.
    pub proof fn lemma_hands_hash_same(&self, a: Seq<u8>, b: Seq<u8>, n: int)
        requires
            forall|i: int| 0 <= i < n ==> a[i] == b[i],
        ensures
            self.hands_hash(a, n) == self.hands_hash(b, n),
        decreases n,
    {
        if n > 0 {
            self.lemma_hands_hash_same(a, b, n - 1);
        }
    }

    /// Changing one pile changes the hash of the hands by the hash of the pile
    /// as it was and the hash of the pile as it is now.
    pub proof fn lemma_hands_hash_update(&self, hands: Seq<u8>, pile: int, count: u8, n: int)
        requires
            0 <= pile < n <= hands.len(),
        ensures
            self.hands_hash(hands.update(pile, count), n) == self.hands_hash(hands, n)
                ^ self.pile_hash(pile, hands[pile] as int) ^ self.pile_hash(pile, count as int),
        decreases n,
    {
        let after = hands.update(pile, count);
        let rest = self.hands_hash(hands, n - 1);
        let was = self.pile_hash(pile, hands[pile] as int);
        let now = self.pile_hash(pile, count as int);
        if n - 1 == pile {
            self.lemma_hands_hash_same(after, hands, n - 1);
            assert(rest ^ now == (rest ^ was) ^ was ^ now) by (bit_vector);
        } else {
            self.lemma_hands_hash_update(hands, pile, count, n - 1);
            let last = self.pile_hash(n - 1, hands[n - 1] as int);
            assert((rest ^ was ^ now) ^ last == (rest ^ last) ^ was ^ now) by (bit_vector);
        }
    }

    /// A pile that grows or shrinks by one piece changes its hash by the word
    /// of the place that the piece takes or leaves.
    pub proof fn lemma_pile_step(&self, pile: int, count: int)
        requires
            count >= 0,
        ensures
            self.pile_hash(pile, count) ^ self.pile_hash(pile, count + 1) == self.hand_word(
                pile,
                count,
            ),
    {
        let a = self.pile_hash(pile, count);
        let w = self.hand_word(pile, count);
        assert(a ^ (a ^ w) == w) by (bit_vector);
    }

    /// A board with no piece on it and empty hands, with the first player to
    /// move, hash to zero.
    pub proof fn lemma_empty_hash(&self, cells: Seq<u8>, hands: Seq<u8>)
        requires
            forall|i: int| 0 <= i < SQUARES ==> cells[i] == 0,
            forall|i: int| 0 <= i < PILES ==> hands[i] == 0,
        ensures
            self.hash_of(cells, hands, false) == 0,
    {
        self.lemma_empty_board(cells, SQUARES as int);
        self.lemma_empty_hands(hands, PILES as int);
        assert(0u64 ^ 0u64 ^ 0u64 == 0u64) by (bit_vector);
    }

    proof fn lemma_empty_board(&self, cells: Seq<u8>, n: int)
        requires
            forall|i: int| 0 <= i < n ==> cells[i] == 0,
        ensures
            self.board_hash(cells, n) == 0,
        decreases n,
    {
        if n > 0 {
            self.lemma_empty_board(cells, n - 1);
            assert(0u64 ^ 0u64 == 0u64) by (bit_vector);
        }
    }

    proof fn lemma_empty_hands(&self, hands: Seq<u8>, n: int)
        requires
            forall|i: int| 0 <= i < n ==> hands[i] == 0,
        ensures
            self.hands_hash(hands, n) == 0,
        decreases n,
    {
        if n > 0 {
            self.lemma_empty_hands(hands, n - 1);
            assert(0u64 ^ 0u64 == 0u64) by (bit_vector);
        }
    }
}

} // verus!
