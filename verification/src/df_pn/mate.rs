use crate::df_pn::search::{
    child_pairs, lemma_best, lemma_children_hashes, lemma_phi_sum, look_up, node_children,
    spec_best, spec_delta_min, spec_phi_sum, NodeKind, MAX,
};
use crate::position_wrapper::{after_move, piles_in_limit, played, Configuration, Key, Move};
use crate::tt::{
    lemma_fetch_after_insert, lemma_fetch_other_after_insert, table_fetch, table_insert,
    BUCKET_SLOTS,
};
use crate::zobrist::ZobristTable;
use vstd::prelude::*;

verus! {

/// The position that a move leads to.
pub open spec fn next_configuration(c: Configuration, mv: Move) -> Configuration {
    after_move(c, mv).unwrap()
}

/// The hash of a position.
pub open spec fn hash(zobrist: ZobristTable, c: Configuration) -> Key {
    zobrist.hash_of(c.cells, c.hands, c.white_to_move)
}

/// The position that the child `i` of a node stands for.
pub open spec fn child_configuration(
    c: Configuration,
    zobrist: ZobristTable,
    kind: NodeKind,
    i: int,
) -> Configuration {
    next_configuration(c, node_children(c, zobrist, kind)[i].0)
}

/// Whether the attacker forces the mate within `n` plies. At an `Or` node
/// one child has to lead to the mate within one ply less; at an `And` node
/// every child has to, and a node without children is the mate.
pub open spec fn mates(c: Configuration, zobrist: ZobristTable, kind: NodeKind, n: nat) -> bool
    decreases n,
{
    let children = node_children(c, zobrist, kind);
    if n == 0 {
        kind == NodeKind::And && children.len() == 0
    } else {
        match kind {
            NodeKind::Or => exists|i: int|
                0 <= i < children.len() && mates(
                    #[trigger] child_configuration(c, zobrist, kind, i),
                    zobrist,
                    NodeKind::And,
                    (n - 1) as nat,
                ),
            NodeKind::And => forall|i: int|
                0 <= i < children.len() ==> mates(
                    #[trigger] child_configuration(c, zobrist, kind, i),
                    zobrist,
                    NodeKind::Or,
                    (n - 1) as nat,
                ),
        }
    }
}

/// Whether the attacker forces the mate.
pub open spec fn forced_mate(c: Configuration, zobrist: ZobristTable, kind: NodeKind) -> bool {
    exists|n: nat| mates(c, zobrist, kind, n)
}

/// Whether moves that the positions accept lead from `root` to `c`.
pub open spec fn reachable(root: Configuration, c: Configuration) -> bool {
    exists|moves: Seq<Move>| played(root, moves) == Some(c)
}

/// No two positions that can be reached from `root` have the same hash.
pub open spec fn collision_free(zobrist: ZobristTable, root: Configuration) -> bool {
    forall|a: Configuration, b: Configuration|
        #[trigger] reachable(root, a) && #[trigger] reachable(root, b) && hash(zobrist, a) == hash(
            zobrist,
            b,
        ) ==> a == b
}

/// The kind of the node of a position, the attacker being the second player
/// (`attacker_white`) or the first.
pub open spec fn kind_for(attacker_white: bool, c: Configuration) -> NodeKind {
    if c.white_to_move == attacker_white {
        NodeKind::Or
    } else {
        NodeKind::And
    }
}

/// Whether a node is part of the search from `root` in which the attacker
/// is the second player (`attacker_white`) or the first: its position can be
/// reached from the root, and its kind is that of the side to move.
pub open spec fn in_search(
    root: Configuration,
    attacker_white: bool,
    c: Configuration,
    kind: NodeKind,
) -> bool {
    reachable(root, c) && kind == kind_for(attacker_white, c)
}

/// What a pair claims of a position: a proof number of zero at an `Or` node
/// and a disproof number of zero at an `And` node say that the attacker
/// forces the mate.
pub open spec fn claim(
    pair: (u32, u32),
    c: Configuration,
    zobrist: ZobristTable,
    attacker_white: bool,
) -> bool {
    match kind_for(attacker_white, c) {
        NodeKind::Or => pair.0 == 0 ==> forced_mate(c, zobrist, NodeKind::Or),
        NodeKind::And => pair.1 == 0 ==> forced_mate(c, zobrist, NodeKind::And),
    }
}

/// Every claim of a mate that the table makes of a position that can be
/// reached from `root` is true.
pub open spec fn sound(
    buckets: Seq<Seq<(u64, (u32, u32))>>,
    zobrist: ZobristTable,
    root: Configuration,
    attacker_white: bool,
) -> bool {
    forall|c: Configuration| #[trigger]
        reachable(root, c) ==> claim(look_up(buckets, hash(zobrist, c)), c, zobrist, attacker_white)
}

/// What a pair denies of a position: a disproof number of zero at an `Or`
/// node and a proof number of zero at an `And` node say that the attacker
/// does not force the mate.
pub open spec fn denial(
    pair: (u32, u32),
    c: Configuration,
    zobrist: ZobristTable,
    attacker_white: bool,
) -> bool {
    match kind_for(attacker_white, c) {
        NodeKind::Or => pair.1 == 0 ==> !forced_mate(c, zobrist, NodeKind::Or),
        NodeKind::And => pair.0 == 0 ==> !forced_mate(c, zobrist, NodeKind::And),
    }
}

/// Whenever the table denies a mate of a position that can be reached from
/// `root`, the attacker does not force it.
pub open spec fn denials_sound(
    buckets: Seq<Seq<(u64, (u32, u32))>>,
    zobrist: ZobristTable,
    root: Configuration,
    attacker_white: bool,
) -> bool {
    forall|c: Configuration| #[trigger]
        reachable(root, c) ==> denial(
            look_up(buckets, hash(zobrist, c)),
            c,
            zobrist,
            attacker_white,
        )
}

/// The root can be reached from itself.
pub proof fn lemma_reach_root(root: Configuration)
    ensures
        reachable(root, root),
{
    assert(played(root, Seq::<Move>::empty()) == Some(root));
}

/// What a move leads to from a position that can be reached can be reached.
pub proof fn lemma_reach_step(root: Configuration, c: Configuration, mv: Move)
    requires
        reachable(root, c),
        piles_in_limit(c.hands),
        mv.spec_is_well_formed(),
        after_move(c, mv) is Some,
        piles_in_limit(next_configuration(c, mv).hands),
    ensures
        reachable(root, next_configuration(c, mv)),
{
    let moves = choose|moves: Seq<Move>| played(root, moves) == Some(c);
    let longer = moves.push(mv);
    assert(longer.drop_last() =~= moves);
    assert(played(root, longer) == Some(next_configuration(c, mv)));
}

/// A mate within some plies is a mate within more plies.
pub proof fn lemma_mates_later(
    c: Configuration,
    zobrist: ZobristTable,
    kind: NodeKind,
    n: nat,
    m: nat,
)
    requires
        mates(c, zobrist, kind, n),
        n <= m,
    ensures
        mates(c, zobrist, kind, m),
    decreases m,
{
    let children = node_children(c, zobrist, kind);
    if n < m {
        if n == 0 {
            assert(children.len() == 0);
        } else {
            match kind {
                NodeKind::Or => {
                    let i = choose|i: int|
                        0 <= i < children.len() && mates(
                            #[trigger] child_configuration(c, zobrist, kind, i),
                            zobrist,
                            NodeKind::And,
                            (n - 1) as nat,
                        );
                    lemma_mates_later(
                        child_configuration(c, zobrist, kind, i),
                        zobrist,
                        NodeKind::And,
                        (n - 1) as nat,
                        (m - 1) as nat,
                    );
                },
                NodeKind::And => {
                    assert forall|i: int| 0 <= i < children.len() implies mates(
                        #[trigger] child_configuration(c, zobrist, kind, i),
                        zobrist,
                        NodeKind::Or,
                        (m - 1) as nat,
                    ) by {
                        lemma_mates_later(
                            child_configuration(c, zobrist, kind, i),
                            zobrist,
                            NodeKind::Or,
                            (n - 1) as nat,
                            (m - 1) as nat,
                        );
                    }
                },
            }
        }
    }
}

/// Where the attacker forces the mate below each of the first `k` children
/// of an `And` node, there is a number of plies within which it does so
/// below all of them.
pub proof fn lemma_all_mate(c: Configuration, zobrist: ZobristTable, k: int) -> (plies: nat)
    requires
        0 <= k <= node_children(c, zobrist, NodeKind::And).len(),
        forall|i: int|
            0 <= i < k ==> forced_mate(
                #[trigger] child_configuration(c, zobrist, NodeKind::And, i),
                zobrist,
                NodeKind::Or,
            ),
    ensures
        forall|i: int|
            0 <= i < k ==> mates(
                #[trigger] child_configuration(c, zobrist, NodeKind::And, i),
                zobrist,
                NodeKind::Or,
                plies,
            ),
    decreases k,
{
    if k == 0 {
        0
    } else {
        let before = lemma_all_mate(c, zobrist, k - 1);
        let last = child_configuration(c, zobrist, NodeKind::And, k - 1);
        assert(forced_mate(last, zobrist, NodeKind::Or));
        let own = choose|n: nat| mates(last, zobrist, NodeKind::Or, n);
        let plies = if before < own {
            own
        } else {
            before
        };
        assert forall|i: int| 0 <= i < k implies mates(
            #[trigger] child_configuration(c, zobrist, NodeKind::And, i),
            zobrist,
            NodeKind::Or,
            plies,
        ) by {
            if i < k - 1 {
                lemma_mates_later(
                    child_configuration(c, zobrist, NodeKind::And, i),
                    zobrist,
                    NodeKind::Or,
                    before,
                    plies,
                );
            } else {
                lemma_mates_later(last, zobrist, NodeKind::Or, own, plies);
            }
        }
        plies
    }
}

/// A table that holds nothing makes no claim.
pub proof fn lemma_sound_empty(
    buckets: Seq<Seq<(u64, (u32, u32))>>,
    zobrist: ZobristTable,
    root: Configuration,
    attacker_white: bool,
)
    requires
        forall|key: u64| table_fetch(buckets, key) is None,
    ensures
        sound(buckets, zobrist, root, attacker_white),
{
}

/// A table that holds nothing denies nothing.
pub proof fn lemma_denials_empty(
    buckets: Seq<Seq<(u64, (u32, u32))>>,
    zobrist: ZobristTable,
    root: Configuration,
    attacker_white: bool,
)
    requires
        forall|key: u64| table_fetch(buckets, key) is None,
    ensures
        denials_sound(buckets, zobrist, root, attacker_white),
{
}

/// Writing a pair whose claim is true keeps the claims of the table true,
/// where no two positions have the same hash.
pub proof fn lemma_sound_insert(
    buckets: Seq<Seq<(u64, (u32, u32))>>,
    zobrist: ZobristTable,
    root: Configuration,
    attacker_white: bool,
    c: Configuration,
    pair: (u32, u32),
)
    requires
        buckets.len() > 0,
        forall|b: int| 0 <= b < buckets.len() ==> (#[trigger] buckets[b]).len() <= BUCKET_SLOTS,
        sound(buckets, zobrist, root, attacker_white),
        collision_free(zobrist, root),
        reachable(root, c),
        claim(pair, c, zobrist, attacker_white),
    ensures
        sound(table_insert(buckets, hash(zobrist, c), pair), zobrist, root, attacker_white),
{
    let key = hash(zobrist, c);
    let after = table_insert(buckets, key, pair);
    assert forall|d: Configuration| #[trigger] reachable(root, d) implies claim(
        look_up(after, hash(zobrist, d)),
        d,
        zobrist,
        attacker_white,
    ) by {
        if hash(zobrist, d) == key {
            lemma_fetch_after_insert(buckets, key, pair);
            assert(d == c);
        } else {
            lemma_fetch_other_after_insert(buckets, key, pair, hash(zobrist, d));
        }
    }
}

/// Writing a pair whose denial is true keeps the denials of the table true,
/// where no two positions have the same hash.
pub proof fn lemma_denials_insert(
    buckets: Seq<Seq<(u64, (u32, u32))>>,
    zobrist: ZobristTable,
    root: Configuration,
    attacker_white: bool,
    c: Configuration,
    pair: (u32, u32),
)
    requires
        buckets.len() > 0,
        forall|b: int| 0 <= b < buckets.len() ==> (#[trigger] buckets[b]).len() <= BUCKET_SLOTS,
        denials_sound(buckets, zobrist, root, attacker_white),
        collision_free(zobrist, root),
        reachable(root, c),
        denial(pair, c, zobrist, attacker_white),
    ensures
        denials_sound(table_insert(buckets, hash(zobrist, c), pair), zobrist, root, attacker_white),
{
    let key = hash(zobrist, c);
    let after = table_insert(buckets, key, pair);
    assert forall|d: Configuration| #[trigger] reachable(root, d) implies denial(
        look_up(after, hash(zobrist, d)),
        d,
        zobrist,
        attacker_white,
    ) by {
        if hash(zobrist, d) == key {
            lemma_fetch_after_insert(buckets, key, pair);
            assert(d == c);
        } else {
            lemma_fetch_other_after_insert(buckets, key, pair, hash(zobrist, d));
        }
    }
}

/// A node without children has the pair `(MAX, 0)` rightly: at an `And` node
/// it is the mate, and at an `Or` node the attacker has no check and does
/// not mate.
pub proof fn lemma_terminal(c: Configuration, zobrist: ZobristTable, attacker_white: bool)
    requires
        node_children(c, zobrist, kind_for(attacker_white, c)).len() == 0,
    ensures
        claim((MAX, 0u32), c, zobrist, attacker_white),
        denial((MAX, 0u32), c, zobrist, attacker_white),
{
    if kind_for(attacker_white, c) == NodeKind::And {
        assert(mates(c, zobrist, NodeKind::And, 0));
    } else {
        assert forall|n: nat| !mates(c, zobrist, NodeKind::Or, n) by {
            if mates(c, zobrist, NodeKind::Or, n) {
                let i = choose|i: int|
                    0 <= i < node_children(c, zobrist, NodeKind::Or).len() && mates(
                        #[trigger] child_configuration(c, zobrist, NodeKind::Or, i),
                        zobrist,
                        NodeKind::And,
                        (n - 1) as nat,
                    );
            }
        }
    }
}

/// What is known of the children of a node that can be reached: each can
/// be reached, is a node of the other kind, and has in the list of pairs
/// the pair that the table holds for its hash.
pub proof fn lemma_children_read(
    buckets: Seq<Seq<(u64, (u32, u32))>>,
    zobrist: ZobristTable,
    root: Configuration,
    attacker_white: bool,
    c: Configuration,
    kind: NodeKind,
)
    requires
        reachable(root, c),
        piles_in_limit(c.hands),
        kind == kind_for(attacker_white, c),
    ensures
        forall|i: int|
            0 <= i < node_children(c, zobrist, kind).len() ==> reachable(
                root,
                #[trigger] child_configuration(c, zobrist, kind, i),
            ) && kind_for(attacker_white, child_configuration(c, zobrist, kind, i))
                == kind.spec_flip() && child_pairs(buckets, node_children(c, zobrist, kind))[i]
                == look_up(buckets, hash(zobrist, child_configuration(c, zobrist, kind, i))),
{
    let children = node_children(c, zobrist, kind);
    assert forall|i: int| 0 <= i < children.len() implies reachable(
        root,
        #[trigger] child_configuration(c, zobrist, kind, i),
    ) && kind_for(attacker_white, child_configuration(c, zobrist, kind, i)) == kind.spec_flip()
        && child_pairs(buckets, children)[i] == look_up(
        buckets,
        hash(zobrist, child_configuration(c, zobrist, kind, i)),
    ) by {
        lemma_children_hashes(c, zobrist, kind, i);
        lemma_reach_step(root, c, children[i].0);
    }
}

/// The pair that a node gets from the pairs that the table holds for its
/// children claims nothing that is not true, where the claims of the table
/// are true: a proof number of zero at an `Or` node comes from a child
/// below which the attacker forces the mate, a disproof number of zero at
/// an `And` node from children below all of which the attacker does.
pub proof fn lemma_commit(
    buckets: Seq<Seq<(u64, (u32, u32))>>,
    zobrist: ZobristTable,
    root: Configuration,
    attacker_white: bool,
    c: Configuration,
    kind: NodeKind,
)
    requires
        sound(buckets, zobrist, root, attacker_white),
        reachable(root, c),
        piles_in_limit(c.hands),
        kind == kind_for(attacker_white, c),
    ensures
        claim(
            (
                spec_delta_min(
                    child_pairs(buckets, node_children(c, zobrist, kind)),
                    node_children(c, zobrist, kind).len() as int,
                ),
                spec_phi_sum(
                    child_pairs(buckets, node_children(c, zobrist, kind)),
                    node_children(c, zobrist, kind).len() as int,
                ),
            ),
            c,
            zobrist,
            attacker_white,
        ),
{
    let children = node_children(c, zobrist, kind);
    let pairs = child_pairs(buckets, children);
    let n = children.len() as int;
    let least = spec_delta_min(pairs, n);
    let sum = spec_phi_sum(pairs, n);
    lemma_children_read(buckets, zobrist, root, attacker_white, c, kind);
    match kind {
        NodeKind::Or => {
            if least == 0 {
                if n == 0 {
                    assert(spec_delta_min(pairs, 0) == MAX);
                } else {
                    lemma_best(pairs, n);
                    let best = spec_best(pairs, n);
                    let d = child_configuration(c, zobrist, kind, best);
                    assert(pairs[best].1 == 0);
                    assert(reachable(root, d));
                    assert(forced_mate(d, zobrist, NodeKind::And));
                    let plies = choose|plies: nat| mates(d, zobrist, NodeKind::And, plies);
                    assert(mates(c, zobrist, NodeKind::Or, plies + 1));
                }
            }
        },
        NodeKind::And => {
            if sum == 0 {
                lemma_phi_sum(pairs, n);
                assert forall|i: int| 0 <= i < n implies forced_mate(
                    #[trigger] child_configuration(c, zobrist, NodeKind::And, i),
                    zobrist,
                    NodeKind::Or,
                ) by {
                    let d = child_configuration(c, zobrist, kind, i);
                    assert(pairs[i].0 == 0);
                    assert(reachable(root, d));
                }
                let plies = lemma_all_mate(c, zobrist, n);
                assert(mates(c, zobrist, NodeKind::And, plies + 1));
            }
        },
    }
}

/// The pair that a node gets from the pairs that the table holds for its
/// children denies nothing that is true, where the denials of the table are
/// true: a disproof number of zero at an `Or` node comes from children
/// below none of which the attacker forces the mate, a proof number of zero
/// at an `And` node from a child below which the attacker does not.
pub proof fn lemma_commit_denial(
    buckets: Seq<Seq<(u64, (u32, u32))>>,
    zobrist: ZobristTable,
    root: Configuration,
    attacker_white: bool,
    c: Configuration,
    kind: NodeKind,
)
    requires
        denials_sound(buckets, zobrist, root, attacker_white),
        reachable(root, c),
        piles_in_limit(c.hands),
        kind == kind_for(attacker_white, c),
    ensures
        denial(
            (
                spec_delta_min(
                    child_pairs(buckets, node_children(c, zobrist, kind)),
                    node_children(c, zobrist, kind).len() as int,
                ),
                spec_phi_sum(
                    child_pairs(buckets, node_children(c, zobrist, kind)),
                    node_children(c, zobrist, kind).len() as int,
                ),
            ),
            c,
            zobrist,
            attacker_white,
        ),
{
    let children = node_children(c, zobrist, kind);
    let pairs = child_pairs(buckets, children);
    let n = children.len() as int;
    let least = spec_delta_min(pairs, n);
    let sum = spec_phi_sum(pairs, n);
    lemma_children_read(buckets, zobrist, root, attacker_white, c, kind);
    match kind {
        NodeKind::Or => {
            if sum == 0 {
                lemma_phi_sum(pairs, n);
                assert forall|m: nat| !mates(c, zobrist, NodeKind::Or, m) by {
                    if mates(c, zobrist, NodeKind::Or, m) {
                        let i = choose|i: int|
                            0 <= i < n && mates(
                                #[trigger] child_configuration(c, zobrist, NodeKind::Or, i),
                                zobrist,
                                NodeKind::And,
                                (m - 1) as nat,
                            );
                        let d = child_configuration(c, zobrist, NodeKind::Or, i);
                        assert(pairs[i].0 == 0);
                        assert(reachable(root, d));
                        assert(forced_mate(d, zobrist, NodeKind::And));
                    }
                }
            }
        },
        NodeKind::And => {
            if least == 0 {
                if n == 0 {
                    assert(spec_delta_min(pairs, 0) == MAX);
                } else {
                    lemma_best(pairs, n);
                    let best = spec_best(pairs, n);
                    let d = child_configuration(c, zobrist, NodeKind::And, best);
                    assert(pairs[best].1 == 0);
                    assert(reachable(root, d));
                    assert forall|m: nat| !mates(c, zobrist, NodeKind::And, m) by {
                        if mates(c, zobrist, NodeKind::And, m) {
                            assert(m > 0);
                            assert(mates(d, zobrist, NodeKind::Or, (m - 1) as nat));
                            assert(forced_mate(d, zobrist, NodeKind::Or));
                        }
                    }
                }
            }
        },
    }
}

} // verus!
