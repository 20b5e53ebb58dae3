use crate::df_pn::mate::{collision_free, hash, kind_for, mates, reachable};
use crate::df_pn::search::{
    child_of, children_from, generated, is_child, led_to, lemma_children_members, NodeKind,
};
use crate::eval::search::{by_delta, ordered_children, spec_one_less, unkeyed};
use crate::eval::value::Value;
use crate::position_wrapper::{Configuration, Key, Move};
use crate::sort::{lemma_sort_members, lemma_stable_sort, stable_sort};
use crate::tt::{
    lemma_fetch_after_insert, lemma_fetch_other_after_insert, table_fetch, table_insert,
    BUCKET_SLOTS,
};
use crate::zobrist::ZobristTable;
use vstd::prelude::*;

verus! {

/// What a value claims of a position: a value that is a mate says that the
/// attacker forces the mate within its plies.
pub open spec fn value_claim(
    value: Value,
    c: Configuration,
    zobrist: ZobristTable,
    attacker_white: bool,
) -> bool {
    value.spec_is_mate() ==> mates(
        c,
        zobrist,
        kind_for(attacker_white, c),
        value.spec_plies() as nat,
    )
}

/// Every value of the evaluator's table that is a mate, for a position that
/// can be reached from `root`, is true: the attacker forces the mate within
/// its plies.
pub open spec fn values_sound(
    evals: Seq<Seq<(u64, (Value, Option<Move>))>>,
    zobrist: ZobristTable,
    root: Configuration,
    attacker_white: bool,
) -> bool {
    forall|c: Configuration| #[trigger]
        reachable(root, c) ==> (table_fetch(evals, hash(zobrist, c)) matches Some(entry)
            ==> value_claim(entry.0, c, zobrist, attacker_white))
}

/// The premise under which the evaluator's answers are shown to be true:
/// the values of its table are, and no two positions that can be reached
/// have the same hash.
pub open spec fn premise(
    evals: Seq<Seq<(u64, (Value, Option<Move>))>>,
    zobrist: ZobristTable,
    root: Configuration,
    attacker_white: bool,
) -> bool {
    values_sound(evals, zobrist, root, attacker_white) && collision_free(zobrist, root)
}

/// A table that holds nothing holds no value that is not true.
pub proof fn lemma_values_sound_empty(
    evals: Seq<Seq<(u64, (Value, Option<Move>))>>,
    zobrist: ZobristTable,
    root: Configuration,
    attacker_white: bool,
)
    requires
        forall|key: u64| table_fetch(evals, key) is None,
    ensures
        values_sound(evals, zobrist, root, attacker_white),
{
}

/// Writing a value that is true keeps the values of the table true, where
/// no two positions have the same hash.
pub proof fn lemma_values_sound_insert(
    evals: Seq<Seq<(u64, (Value, Option<Move>))>>,
    zobrist: ZobristTable,
    root: Configuration,
    attacker_white: bool,
    c: Configuration,
    entry: (Value, Option<Move>),
)
    requires
        evals.len() > 0,
        forall|b: int| 0 <= b < evals.len() ==> (#[trigger] evals[b]).len() <= BUCKET_SLOTS,
        premise(evals, zobrist, root, attacker_white),
        reachable(root, c),
        value_claim(entry.0, c, zobrist, attacker_white),
    ensures
        values_sound(table_insert(evals, hash(zobrist, c), entry), zobrist, root, attacker_white),
{
    let key = hash(zobrist, c);
    let after = table_insert(evals, key, entry);
    assert forall|d: Configuration| #[trigger] reachable(root, d) implies (table_fetch(
        after,
        hash(zobrist, d),
    ) matches Some(e) ==> value_claim(e.0, d, zobrist, attacker_white)) by {
        if hash(zobrist, d) == key {
            lemma_fetch_after_insert(evals, key, entry);
            assert(d == c);
        } else {
            lemma_fetch_other_after_insert(evals, key, entry, hash(zobrist, d));
        }
    }
}

/// The children that the evaluator looks at are those that a move which the
/// move generator lists leads to.
pub proof fn lemma_ordered_children_members(
    c: Configuration,
    zobrist: ZobristTable,
    kind: NodeKind,
    df: Seq<Seq<(u64, (u32, u32))>>,
    x: (Move, Key),
)
    ensures
        (exists|k: int|
            0 <= k < ordered_children(c, zobrist, kind, df).len() && (#[trigger] ordered_children(
                c,
                zobrist,
                kind,
                df,
            )[k]).1 == x) <==> is_child(c, zobrist, kind, x),
{
    let listed = generated(c, kind);
    let moves = unkeyed(listed);
    let n = moves.len() as int;
    let plain = children_from(c, zobrist, moves, n);
    let with_delta = by_delta(df, plain);
    let ordered = ordered_children(c, zobrist, kind, df);
    lemma_stable_sort(with_delta, with_delta.len() as int);
    lemma_children_members(c, zobrist, moves, n, x);
    if exists|k: int| 0 <= k < ordered.len() && (#[trigger] ordered[k]).1 == x {
        let k = choose|k: int| 0 <= k < ordered.len() && (#[trigger] ordered[k]).1 == x;
        lemma_sort_members(with_delta, ordered[k]);
        assert(ordered.contains(ordered[k]));
        let i = choose|i: int| 0 <= i < with_delta.len() && with_delta[i] == ordered[k];
        assert(plain[i] == x);
        assert(plain.contains(x));
        let j = choose|j: int|
            0 <= j < n && #[trigger] child_of(c, zobrist, moves[j].1) == Some(x);
        assert(child_of(c, zobrist, listed[j]) == Some(x));
    }
    if is_child(c, zobrist, kind, x) {
        let j = choose|j: int|
            0 <= j < listed.len() && #[trigger] child_of(c, zobrist, listed[j]) == Some(x);
        assert(child_of(c, zobrist, moves[j].1) == Some(x));
        assert(led_to(c, zobrist, moves, n, x));
        let i = choose|i: int| 0 <= i < plain.len() && plain[i] == x;
        lemma_sort_members(with_delta, with_delta[i]);
        assert(with_delta.contains(with_delta[i]));
        let k = choose|k: int| 0 <= k < ordered.len() && ordered[k] == with_delta[i];
        assert(ordered[k].1 == x);
    }
}

/// A value that is still a mate one ply further on was a mate, and its
/// packed word grew by one ply.
pub proof fn lemma_one_ply_more(v: Value)
    requires
        v.spec_plies_added(1).spec_is_mate(),
    ensures
        v.spec_is_mate(),
        v.spec_plies_added(1).0 == v.0 + 0x10_0000,
        v.spec_plies_added(1).spec_plies() == v.spec_plies() + 1,
{
    v.lemma_fields();
    Value::lemma_pack(v.spec_plies() as int, v.spec_pieces() as int, v.spec_futile() as int);
    Value::lemma_pack(v.spec_plies() + 1, v.spec_pieces() as int, v.spec_futile() as int);
}

/// A bound that is a mate with a ply to lose loses it: its packed word
/// shrinks by one ply.
pub proof fn lemma_one_ply_less(b: Value)
    requires
        b.spec_is_mate(),
        b.spec_plies() >= 1,
    ensures
        spec_one_less(b).0 == b.0 - 0x10_0000,
        spec_one_less(b).spec_plies() == b.spec_plies() - 1,
{
    b.lemma_fields();
    Value::lemma_pack(b.spec_plies() as int, b.spec_pieces() as int, b.spec_futile() as int);
    Value::lemma_pack(b.spec_plies() - 1, b.spec_pieces() as int, b.spec_futile() as int);
}

/// Of two values the one with the smaller packed word has no more plies.
pub proof fn lemma_plies_ascend(a: Value, b: Value)
    requires
        a.0 <= b.0,
    ensures
        a.spec_plies() <= b.spec_plies(),
{
    a.lemma_order(b);
    b.lemma_order(a);
}

} // verus!
