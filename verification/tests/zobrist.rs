use rand::{Rng, SeedableRng};
use shogi_mate_solver::zobrist::ZobristTable;

#[test]
fn words_follow_the_seeded_stream() {
    let table = ZobristTable::new();
    let mut rng = rand_chacha::ChaCha8Rng::seed_from_u64(0xe964);
    for square in 0..81usize {
        for owner in 0..2u8 {
            for kind in 1..=14u8 {
                let expected: u64 = rng.random();
                assert_eq!(table.word_on_board(square, kind + 16 * owner), expected);
            }
        }
    }
    for pile in 0..14usize {
        for place in 0..18usize {
            let expected: u64 = rng.random();
            assert_eq!(table.word_in_hand(pile, place), expected);
        }
    }
}

#[test]
fn words_differ() {
    let table = ZobristTable::new();
    assert_ne!(table.word_on_board(0, 1), table.word_on_board(0, 2));
    assert_ne!(table.word_on_board(0, 1), table.word_on_board(1, 1));
    assert_ne!(table.word_in_hand(0, 0), table.word_in_hand(0, 1));
}
