use crate::df_pn::mate::{
    collision_free, denials_sound, forced_mate, in_search, lemma_commit, lemma_commit_denial,
    lemma_denials_empty, lemma_denials_insert, lemma_reach_root, lemma_reach_step,
    lemma_sound_empty, lemma_sound_insert, lemma_terminal, reachable, sound,
};
use crate::df_pn::model::{df_pn_result, mid_result, rounds_result, Proved};
use crate::position_wrapper::{
    after_move, checks_of, evasions_of, piles_in_limit, Configuration, Key, Move, PositionWrapper,
};
use crate::sort::{sort_by_key, stable_sort};
use crate::tt::{table_fetch, table_insert, DfPnTable};
use crate::zobrist::ZobristTable;
use vstd::prelude::*;

verus! {

/// The proof number or disproof number of a node that is decided.
pub const MAX: u32 = 0xffff_ffff;

/// The threshold of the first run at the root: a number that no sum reaches
/// before it saturates, so that it tells a loop from a decision.
pub const ALMOST_MAX: u32 = 0xffff_fffe;

/// Whose turn it is at a node: at an `Or` node the attacker moves and one
/// child that mates is enough; at an `And` node the defender moves and every
/// child has to mate.
#[derive(Clone, Copy, Debug, PartialEq, Eq, Structural)]
pub enum NodeKind {
    Or,
    And,
}

impl NodeKind {
    /// The kind of the children of a node of this kind.
    pub open spec fn spec_flip(self) -> NodeKind {
        match self {
            NodeKind::Or => NodeKind::And,
            NodeKind::And => NodeKind::Or,
        }
    }

    /// The kind of the children of a node of this kind.
    #[verifier::when_used_as_spec(spec_flip)]
    pub fn flip(self) -> (kind: NodeKind)
        ensures
            kind == self.spec_flip(),
    {
        match self {
            NodeKind::Or => NodeKind::And,
            NodeKind::And => NodeKind::Or,
        }
    }
}

/// What the table says of a position: the pair it holds, or `(1, 1)` for a
/// position that it does not hold.
pub open spec fn look_up(buckets: Seq<Seq<(u64, (u32, u32))>>, key: Key) -> (u32, u32) {
    match table_fetch(buckets, key) {
        Some(pair) => pair,
        None => (1, 1),
    }
}

/// Whether a pair of proof and disproof numbers reaches one of the
/// thresholds.
pub open spec fn reaches(thresholds: (u32, u32), pair: (u32, u32)) -> bool {
    thresholds.0 <= pair.0 || thresholds.1 <= pair.1
}

/// The moves that the move generator lists at a node: the checks at an `Or`
/// node, the legal moves at an `And` node.
pub open spec fn generated(c: Configuration, kind: NodeKind) -> Seq<Move> {
    match kind {
        NodeKind::Or => checks_of(c.cells, c.hands, c.white_to_move, c.kings),
        NodeKind::And => evasions_of(c.cells, c.hands, c.white_to_move, c.kings),
    }
}

/// Each move with the key by which the prover orders it.
pub open spec fn keyed(moves: Seq<Move>) -> Seq<(u32, Move)> {
    Seq::new(moves.len(), |i: int| (moves[i].spec_order_key(), moves[i]))
}

/// The child that a move leads to, with its hash, if the position accepts
/// the move.
pub open spec fn child_of(c: Configuration, zobrist: ZobristTable, mv: Move) -> Option<
    (Move, Key),
> {
    match after_move(c, mv) {
        Some(next) => if mv.spec_is_well_formed() && piles_in_limit(next.hands) {
            Some((mv, zobrist.hash_of(next.cells, next.hands, next.white_to_move)))
        } else {
            None
        },
        None => None,
    }
}

/// The children that the first `n` of a list of moves lead to, in the order
/// of the list.
pub open spec fn children_from(
    c: Configuration,
    zobrist: ZobristTable,
    moves: Seq<(u32, Move)>,
    n: int,
) -> Seq<(Move, Key)>
    decreases n,
{
    if n <= 0 {
        Seq::empty()
    } else {
        match child_of(c, zobrist, moves[n - 1].1) {
            Some(child) => children_from(c, zobrist, moves, n - 1).push(child),
            None => children_from(c, zobrist, moves, n - 1),
        }
    }
}

/// The children of a node in the order in which the prover looks at them:
/// moves on the board first, then drops, a drop of a larger kind before a
/// drop of a smaller one, and otherwise as the move generator lists them.
pub open spec fn node_children(c: Configuration, zobrist: ZobristTable, kind: NodeKind) -> Seq<
    (Move, Key),
> {
    let moves = keyed(generated(c, kind));
    children_from(c, zobrist, stable_sort(moves, moves.len() as int), moves.len() as int)
}

/// Every child of a node carries the hash of the position that its move leads
/// to, and the position accepts the move.
pub proof fn lemma_children_from(
    c: Configuration,
    zobrist: ZobristTable,
    moves: Seq<(u32, Move)>,
    n: int,
    i: int,
)
    requires
        0 <= n,
        0 <= i < children_from(c, zobrist, moves, n).len(),
    ensures
        child_of(c, zobrist, children_from(c, zobrist, moves, n)[i].0) == Some(
            children_from(c, zobrist, moves, n)[i],
        ),
    decreases n,
{
    if n > 0 {
        let rest = children_from(c, zobrist, moves, n - 1);
        if i < rest.len() {
            lemma_children_from(c, zobrist, moves, n - 1, i);
        }
    }
}

/// Every child of a node carries the hash of the position that its move leads
/// to, and the position accepts the move.
pub proof fn lemma_children_hashes(c: Configuration, zobrist: ZobristTable, kind: NodeKind, i: int)
    requires
        0 <= i < node_children(c, zobrist, kind).len(),
    ensures
        child_of(c, zobrist, node_children(c, zobrist, kind)[i].0) == Some(
            node_children(c, zobrist, kind)[i],
        ),
{
    let moves = keyed(generated(c, kind));
    lemma_children_from(
        c,
        zobrist,
        stable_sort(moves, moves.len() as int),
        moves.len() as int,
        i,
    );
}

/// Whether one of the first `n` moves of a list leads to the child `x`.
pub open spec fn led_to(
    c: Configuration,
    zobrist: ZobristTable,
    moves: Seq<(u32, Move)>,
    n: int,
    x: (Move, Key),
) -> bool {
    exists|k: int| 0 <= k < n && #[trigger] child_of(c, zobrist, moves[k].1) == Some(x)
}

/// Whether a move that the move generator lists at a node leads to the
/// child `x`.
pub open spec fn is_child(c: Configuration, zobrist: ZobristTable, kind: NodeKind, x: (Move, Key)) -> bool {
    exists|j: int|
        0 <= j < generated(c, kind).len() && #[trigger] child_of(c, zobrist, generated(c, kind)[j])
            == Some(x)
}

/// The children that a list of moves leads to are those that one of its
/// moves leads to.
pub proof fn lemma_children_members(
    c: Configuration,
    zobrist: ZobristTable,
    moves: Seq<(u32, Move)>,
    n: int,
    x: (Move, Key),
)
    requires
        0 <= n <= moves.len(),
    ensures
        children_from(c, zobrist, moves, n).contains(x) <==> led_to(c, zobrist, moves, n, x),
    decreases n,
{
    let all = children_from(c, zobrist, moves, n);
    if n > 0 {
        let rest = children_from(c, zobrist, moves, n - 1);
        lemma_children_members(c, zobrist, moves, n - 1, x);
        if all.contains(x) {
            let i = choose|i: int| 0 <= i < all.len() && all[i] == x;
            if i < rest.len() {
                assert(rest[i] == x);
                let k = choose|k: int|
                    0 <= k < n - 1 && #[trigger] child_of(c, zobrist, moves[k].1) == Some(x);
                assert(child_of(c, zobrist, moves[k].1) == Some(x));
            } else {
                assert(child_of(c, zobrist, moves[n - 1].1) == Some(x));
            }
        }
        if led_to(c, zobrist, moves, n, x) {
            let k = choose|k: int|
                0 <= k < n && #[trigger] child_of(c, zobrist, moves[k].1) == Some(x);
            if k < n - 1 {
                assert(child_of(c, zobrist, moves[k].1) == Some(x));
                assert(rest.contains(x));
                let i = choose|i: int| 0 <= i < rest.len() && rest[i] == x;
                assert(all[i] == x);
            } else {
                assert(all[all.len() - 1] == x);
            }
        }
    }
}

/// The children of a node are those that a move which the move generator
/// lists leads to.
pub proof fn lemma_node_children_members(
    c: Configuration,
    zobrist: ZobristTable,
    kind: NodeKind,
    x: (Move, Key),
)
    ensures
        node_children(c, zobrist, kind).contains(x) <==> is_child(c, zobrist, kind, x),
{
    let listed = generated(c, kind);
    let moves = keyed(listed);
    let n = moves.len() as int;
    let sorted = stable_sort(moves, n);
    crate::sort::lemma_stable_sort(moves, n);
    lemma_children_members(c, zobrist, sorted, n, x);
    if led_to(c, zobrist, sorted, n, x) {
        let k = choose|k: int|
            0 <= k < n && #[trigger] child_of(c, zobrist, sorted[k].1) == Some(x);
        crate::sort::lemma_sort_members(moves, sorted[k]);
        assert(sorted.contains(sorted[k]));
        let j = choose|j: int| 0 <= j < moves.len() && moves[j] == sorted[k];
        assert(child_of(c, zobrist, listed[j]) == Some(x));
    }
    if is_child(c, zobrist, kind, x) {
        let j = choose|j: int|
            0 <= j < listed.len() && #[trigger] child_of(c, zobrist, listed[j]) == Some(x);
        crate::sort::lemma_sort_members(moves, moves[j]);
        assert(moves.contains(moves[j]));
        let k = choose|k: int| 0 <= k < sorted.len() && sorted[k] == moves[j];
        assert(child_of(c, zobrist, sorted[k].1) == Some(x));
    }
}

/// The pairs that the table holds for the children of a node, `(1, 1)` for a
/// child that it does not hold.
pub open spec fn child_pairs(
    buckets: Seq<Seq<(u64, (u32, u32))>>,
    children: Seq<(Move, Key)>,
) -> Seq<(u32, u32)> {
    Seq::new(children.len(), |i: int| look_up(buckets, children[i].1))
}

/// The smallest disproof number among the first `n` pairs; `MAX` for none.
pub open spec fn spec_delta_min(pairs: Seq<(u32, u32)>, n: int) -> u32
    decreases n,
{
    if n <= 0 {
        MAX
    } else {
        let rest = spec_delta_min(pairs, n - 1);
        if pairs[n - 1].1 < rest {
            pairs[n - 1].1
        } else {
            rest
        }
    }
}

/// The sum of the proof numbers of the first `n` pairs, which stays at `MAX`
/// once it gets there.
pub open spec fn spec_phi_sum(pairs: Seq<(u32, u32)>, n: int) -> u32
    decreases n,
{
    if n <= 0 {
        0
    } else {
        let rest = spec_phi_sum(pairs, n - 1);
        if rest + pairs[n - 1].0 > MAX {
            MAX
        } else {
            (rest + pairs[n - 1].0) as u32
        }
    }
}

/// Which of the first `n` children the prover goes into: the first one with
/// the smallest disproof number.
pub open spec fn spec_best(pairs: Seq<(u32, u32)>, n: int) -> int
    decreases n,
{
    if n <= 1 {
        0
    } else {
        let best = spec_best(pairs, n - 1);
        if pairs[n - 1].1 < pairs[best].1 {
            n - 1
        } else {
            best
        }
    }
}

/// The smallest disproof number among the first `n` pairs without the one
/// that the prover goes into; `MAX` for none.
pub open spec fn spec_second(pairs: Seq<(u32, u32)>, n: int) -> u32
    decreases n,
{
    if n <= 1 {
        MAX
    } else {
        let best = spec_best(pairs, n - 1);
        let rest = spec_second(pairs, n - 1);
        if pairs[n - 1].1 < pairs[best].1 {
            pairs[best].1
        } else if pairs[n - 1].1 < rest {
            pairs[n - 1].1
        } else {
            rest
        }
    }
}

/// The thresholds with which the prover goes into a child. With `(phi_c,
/// delta_c)` the pair of the child, `phi_sum` the sum over all children and
/// `delta_2` the second smallest disproof number: the proof threshold is
/// `MAX` if `delta_c` is `MAX - 1`, else `MAX - 1` if the node's disproof
/// threshold is at least that, else the node's disproof threshold plus
/// `phi_c` minus `phi_sum`, kept within 32 bits; the disproof threshold is
/// `MAX` if `phi_c` is `MAX - 1`, else the smaller of the node's proof
/// threshold and `delta_2 + 1`.
pub open spec fn spec_child_thresholds(
    thresholds: (u32, u32),
    child: (u32, u32),
    phi_sum: u32,
    delta_2: u32,
) -> (u32, u32) {
    let raised = thresholds.1 + child.0 - phi_sum;
    let next = if delta_2 == MAX {
        MAX
    } else {
        (delta_2 + 1) as u32
    };
    (
        if child.1 == ALMOST_MAX {
            MAX
        } else if thresholds.1 >= ALMOST_MAX {
            ALMOST_MAX
        } else if raised < 0 {
            0
        } else if raised > MAX {
            MAX
        } else {
            raised as u32
        },
        if child.0 == ALMOST_MAX {
            MAX
        } else if thresholds.0 < next {
            thresholds.0
        } else {
            next
        },
    )
}

/// The child that the prover goes into has the smallest disproof number of
/// all, no child before it has one as small, and no other child has one
/// below the second smallest.
pub proof fn lemma_best(pairs: Seq<(u32, u32)>, n: int)
    requires
        1 <= n <= pairs.len(),
    ensures
        0 <= spec_best(pairs, n) < n,
        pairs[spec_best(pairs, n)].1 == spec_delta_min(pairs, n),
        forall|i: int| 0 <= i < n ==> spec_delta_min(pairs, n) <= (#[trigger] pairs[i]).1,
        forall|i: int|
            0 <= i < spec_best(pairs, n) ==> spec_delta_min(pairs, n) < (#[trigger] pairs[i]).1,
        forall|i: int|
            0 <= i < n && i != spec_best(pairs, n) ==> spec_second(pairs, n) <= (
            #[trigger] pairs[i]).1,
        spec_delta_min(pairs, n) <= spec_second(pairs, n),
    decreases n,
{
    if n > 1 {
        lemma_best(pairs, n - 1);
    } else {
        assert(spec_delta_min(pairs, 0) == MAX);
    }
}

/// The sum is at least every proof number that goes into it: below `MAX`, no
/// child is decided against its side.
pub proof fn lemma_phi_sum(pairs: Seq<(u32, u32)>, n: int)
    requires
        0 <= n <= pairs.len(),
    ensures
        forall|i: int| 0 <= i < n ==> (#[trigger] pairs[i]).0 <= spec_phi_sum(pairs, n),
    decreases n,
{
    if n > 0 {
        lemma_phi_sum(pairs, n - 1);
    }
}

/// The pair that a node gets from the pairs of its children is `(MAX, 0)`
/// exactly when each of its children has the pair `(0, MAX)`: when the side
/// to move has no move, or every move leads to a node that is decided for
/// the other side.
pub proof fn lemma_decided_against(pairs: Seq<(u32, u32)>, n: int)
    requires
        0 <= n <= pairs.len(),
    ensures
        (spec_delta_min(pairs, n) == MAX && spec_phi_sum(pairs, n) == 0) <==> (forall|i: int|
            0 <= i < n ==> #[trigger] pairs[i] == (0u32, MAX)),
    decreases n,
{
    if n > 0 {
        lemma_decided_against(pairs, n - 1);
        lemma_phi_sum(pairs, n - 1);
        if forall|i: int| 0 <= i < n ==> #[trigger] pairs[i] == (0u32, MAX) {
            assert(pairs[n - 1] == (0u32, MAX));
        }
    }
}

/// The pair that the table holds for a position, or `(1, 1)`.
pub fn look_up_hash(dfpn_tbl: &DfPnTable, position: Key) -> (pair: (u32, u32))
    requires
        dfpn_tbl.wf(),
    ensures
        pair == look_up(dfpn_tbl@, position),
{
    if let Some(x) = dfpn_tbl.fetch(position) {
        return x;
    }
    (1, 1)
}

/// Writes the pair of a position into the table.
pub fn put_in_hash(dfpn_tbl: &mut DfPnTable, position: Key, pair: (u32, u32))
    requires
        old(dfpn_tbl).wf(),
    ensures
        final(dfpn_tbl).wf(),
        final(dfpn_tbl).spec_len() == old(dfpn_tbl).spec_len(),
        final(dfpn_tbl)@ == table_insert(old(dfpn_tbl)@, position, pair),
        look_up(final(dfpn_tbl)@, position) == pair,
{
    dfpn_tbl.insert(position, pair);
}

/// The smallest disproof number that the table holds for the children;
/// `MAX` where there is no child.
pub fn delta_min(dfpn_tbl: &DfPnTable, children: &Vec<(Move, Key)>) -> (mi: u32)
    requires
        dfpn_tbl.wf(),
    ensures
        mi == spec_delta_min(child_pairs(dfpn_tbl@, children@), children@.len() as int),
        children@.len() == 0 ==> mi == MAX,
        forall|i: int|
            0 <= i < children@.len() ==> mi <= look_up(dfpn_tbl@, (#[trigger] children@[i]).1).1,
        children@.len() > 0 ==> exists|i: int|
            0 <= i < children@.len() && mi == look_up(dfpn_tbl@, (#[trigger] children@[i]).1).1,
{
    let ghost pairs = child_pairs(dfpn_tbl@, children@);
    proof {
        if children@.len() > 0 {
            lemma_best(pairs, children@.len() as int);
            let best = spec_best(pairs, children@.len() as int);
            assert(pairs[best] == look_up(dfpn_tbl@, children@[best].1));
            assert forall|i: int| 0 <= i < children@.len() implies spec_delta_min(
                pairs,
                children@.len() as int,
            ) <= look_up(dfpn_tbl@, (#[trigger] children@[i]).1).1 by {
                assert(pairs[i] == look_up(dfpn_tbl@, children@[i].1));
            }
        }
    }
    let mut mi: u32 = MAX;
    let mut i: usize = 0;
    while i < children.len()
        invariant
            dfpn_tbl.wf(),
            i <= children@.len(),
            pairs == child_pairs(dfpn_tbl@, children@),
            mi == spec_delta_min(pairs, i as int),
        decreases children@.len() - i,
    {
        let pair: (u32, u32) = look_up_hash(dfpn_tbl, children[i].1);
        if pair.1 < mi {
            mi = pair.1;
        }
        i += 1;
    }
    mi
}

/// The sum of the proof numbers that the table holds for the children, at
/// most `MAX`.
pub fn phi_sum(dfpn_tbl: &DfPnTable, children: &Vec<(Move, Key)>) -> (sum: u32)
    requires
        dfpn_tbl.wf(),
    ensures
        sum == spec_phi_sum(child_pairs(dfpn_tbl@, children@), children@.len() as int),
        children@.len() == 0 ==> sum == 0,
        forall|i: int|
            0 <= i < children@.len() ==> look_up(dfpn_tbl@, (#[trigger] children@[i]).1).0 <= sum,
{
    let ghost pairs = child_pairs(dfpn_tbl@, children@);
    proof {
        lemma_phi_sum(pairs, children@.len() as int);
        assert forall|i: int| 0 <= i < children@.len() implies look_up(
            dfpn_tbl@,
            (#[trigger] children@[i]).1,
        ).0 <= spec_phi_sum(pairs, children@.len() as int) by {
            assert(pairs[i] == look_up(dfpn_tbl@, children@[i].1));
        }
    }
    let mut sum: u32 = 0;
    let mut i: usize = 0;
    while i < children.len()
        invariant
            dfpn_tbl.wf(),
            i <= children@.len(),
            pairs == child_pairs(dfpn_tbl@, children@),
            sum == spec_phi_sum(pairs, i as int),
        decreases children@.len() - i,
    {
        let pair: (u32, u32) = look_up_hash(dfpn_tbl, children[i].1);
        sum = if sum > MAX - pair.0 {
            MAX
        } else {
            sum + pair.0
        };
        i += 1;
    }
    sum
}

/// The child to go into, as its move, its hash and the pair that the table
/// holds for it, and the second smallest disproof number among the
/// children. It is the first child with the smallest disproof number.
pub fn select_child(dfpn_tbl: &DfPnTable, children: &Vec<(Move, Key)>) -> (selected: (
    (Move, Key, u32, u32),
    u32,
))
    requires
        dfpn_tbl.wf(),
        children@.len() > 0,
    ensures
        ({
            let pairs = child_pairs(dfpn_tbl@, children@);
            let best = spec_best(pairs, children@.len() as int);
            &&& 0 <= best < children@.len()
            &&& selected.0 == (children@[best].0, children@[best].1, pairs[best].0, pairs[best].1)
            &&& selected.1 == spec_second(pairs, children@.len() as int)
            &&& selected.0.3 == spec_delta_min(pairs, children@.len() as int)
            &&& selected.0.3 <= selected.1
            &&& forall|i: int| 0 <= i < best ==> selected.0.3 < (#[trigger] pairs[i]).1
            &&& forall|i: int|
                0 <= i < children@.len() && i != best ==> selected.1 <= (#[trigger] pairs[i]).1
        }),
        (selected.0.2, selected.0.3) == look_up(dfpn_tbl@, selected.0.1),
{
    let ghost pairs = child_pairs(dfpn_tbl@, children@);
    proof {
        lemma_best(pairs, children@.len() as int);
    }
    let first: (u32, u32) = look_up_hash(dfpn_tbl, children[0].1);
    let mut best: usize = 0;
    let mut phi_c: u32 = first.0;
    let mut delta_c: u32 = first.1;
    let mut delta_2: u32 = MAX;
    let mut i: usize = 1;
    while i < children.len()
        invariant
            dfpn_tbl.wf(),
            1 <= i <= children@.len(),
            pairs == child_pairs(dfpn_tbl@, children@),
            best == spec_best(pairs, i as int),
            best < i,
            (phi_c, delta_c) == pairs[best as int],
            delta_2 == spec_second(pairs, i as int),
        decreases children@.len() - i,
    {
        let pair: (u32, u32) = look_up_hash(dfpn_tbl, children[i].1);
        if pair.1 < delta_c {
            best = i;
            delta_2 = delta_c;
            phi_c = pair.0;
            delta_c = pair.1;
        } else if pair.1 < delta_2 {
            delta_2 = pair.1;
        }
        i += 1;
    }
    ((children[best].0, children[best].1, phi_c, delta_c), delta_2)
}

/// The thresholds with which the prover goes into a child.
pub fn child_thresholds(thresholds: (u32, u32), child: (u32, u32), phi_sum: u32, delta_2: u32) -> (next: (
    u32,
    u32,
))
    ensures
        next == spec_child_thresholds(thresholds, child, phi_sum, delta_2),
{
    let phi: u32 = if child.1 == ALMOST_MAX {
        MAX
    } else if thresholds.1 >= ALMOST_MAX {
        ALMOST_MAX
    } else {
        let raised: i64 = thresholds.1 as i64 + child.0 as i64 - phi_sum as i64;
        if raised < 0 {
            0
        } else if raised > MAX as i64 {
            MAX
        } else {
            raised as u32
        }
    };
    let delta: u32 = if child.0 == ALMOST_MAX {
        MAX
    } else {
        let next: u32 = if delta_2 == MAX {
            MAX
        } else {
            delta_2 + 1
        };
        if thresholds.0 < next {
            thresholds.0
        } else {
            next
        }
    };
    (phi, delta)
}

/// The children that a list of moves leads to, each with the hash of the
/// position it leads to, in the order of the list. A move that the position
/// does not accept has no child.
pub fn children_of(
    position: &PositionWrapper,
    zobrist: &ZobristTable,
    moves: &Vec<(u32, Move)>,
) -> (children: Vec<(Move, Key)>)
    requires
        zobrist.wf(),
        position.wf(zobrist),
    ensures
        children@ == children_from(position@, *zobrist, moves@, moves@.len() as int),
{
    let mut children: Vec<(Move, Key)> = Vec::new();
    let mut j: usize = 0;
    while j < moves.len()
        invariant
            zobrist.wf(),
            position.wf(zobrist),
            j <= moves@.len(),
            children@ == children_from(position@, *zobrist, moves@, j as int),
        decreases moves@.len() - j,
    {
        let mv: Move = moves[j].1;
        let mut next: PositionWrapper = position.clone();
        if next.try_make_move(mv, zobrist) {
            children.push((mv, next.zobrist_hash()));
        }
        j += 1;
    }
    children
}

/// The moves that the move generator lists at a node.
pub fn generate(position: &PositionWrapper, node_kind: NodeKind) -> (moves: Vec<Move>)
    ensures
        moves@ == generated(position@, node_kind),
{
    match node_kind {
        NodeKind::Or => position.all_checks(),
        NodeKind::And => position.all_evasions(),
    }
}

/// The children of a node, each with the hash of the position it leads to,
/// in the order in which the prover looks at them.
pub fn expand(position: &PositionWrapper, zobrist: &ZobristTable, node_kind: NodeKind) -> (children: Vec<
    (Move, Key),
>)
    requires
        zobrist.wf(),
        position.wf(zobrist),
    ensures
        children@ == node_children(position@, *zobrist, node_kind),
{
    let moves: Vec<Move> = generate(position, node_kind);
    let mut with_keys: Vec<(u32, Move)> = Vec::new();
    let mut i: usize = 0;
    while i < moves.len()
        invariant
            i <= moves@.len(),
            with_keys@.len() == i,
            forall|k: int| 0 <= k < i ==> with_keys@[k] == keyed(moves@)[k],
        decreases moves@.len() - i,
    {
        with_keys.push((moves[i].order_key(), moves[i]));
        i += 1;
    }
    assert(with_keys@ =~= keyed(moves@));
    let ordered: Vec<(u32, Move)> = sort_by_key(&with_keys);
    children_of(position, zobrist, &ordered)
}

/// Expands a node: works on the children until the node's pair reaches one
/// of the thresholds or the budget of expansions is used up, writes the pair
/// into the table and gives it back. While the node is worked on, its
/// thresholds stand in the table in place of its pair: a node below it that
/// meets the position again reads them, and is cut off by them when it is
/// sent there. `root` and `attacker_white` say of which search the node is
/// part and who attacks in it: where the node is part of that search, what
/// the table says of the positions of the search stays true.
pub fn mid(
    dfpn_tbl: &mut DfPnTable,
    position: &PositionWrapper,
    zobrist: &ZobristTable,
    thresholds: (u32, u32),
    node_kind: NodeKind,
    budget: &mut u64,
    Ghost(root): Ghost<Configuration>,
    Ghost(attacker_white): Ghost<bool>,
) -> (pair: (u32, u32))
    requires
        old(dfpn_tbl).wf(),
        zobrist.wf(),
        position.wf(zobrist),
    ensures
        final(dfpn_tbl).wf(),
        final(dfpn_tbl).spec_len() == old(dfpn_tbl).spec_len(),
        *final(budget) <= *old(budget),
        pair == look_up(final(dfpn_tbl)@, position.spec_zobrist_hash()),
        reaches(thresholds, look_up(old(dfpn_tbl)@, position.spec_zobrist_hash())) ==> pair
            == look_up(old(dfpn_tbl)@, position.spec_zobrist_hash()) && final(dfpn_tbl)@ == old(
            dfpn_tbl,
        )@ && *final(budget) == *old(budget),
        !reaches(thresholds, look_up(old(dfpn_tbl)@, position.spec_zobrist_hash()))
            && node_children(position@, *zobrist, node_kind).len() == 0 ==> pair == (MAX, 0u32)
            && final(dfpn_tbl)@ == table_insert(
            old(dfpn_tbl)@,
            position.spec_zobrist_hash(),
            (MAX, 0u32),
        ) && *final(budget) == *old(budget),
        *final(budget) > 0 ==> reaches(thresholds, pair),
        mid_result(
            old(dfpn_tbl)@,
            position@,
            *zobrist,
            thresholds,
            node_kind,
            *old(budget) as nat,
        ) == (Proved { pair, table: final(dfpn_tbl)@, budget: *final(budget) as nat }),
        in_search(root, attacker_white, position@, node_kind) && sound(
            old(dfpn_tbl)@,
            *zobrist,
            root,
            attacker_white,
        ) && collision_free(*zobrist, root) ==> sound(
            final(dfpn_tbl)@,
            *zobrist,
            root,
            attacker_white,
        ),
        in_search(root, attacker_white, position@, node_kind) && denials_sound(
            old(dfpn_tbl)@,
            *zobrist,
            root,
            attacker_white,
        ) && collision_free(*zobrist, root) ==> denials_sound(
            final(dfpn_tbl)@,
            *zobrist,
            root,
            attacker_white,
        ),
    decreases *old(budget),
{
    let key: Key = position.zobrist_hash();
    let stored: (u32, u32) = look_up_hash(dfpn_tbl, key);
    if thresholds.0 <= stored.0 || thresholds.1 <= stored.1 {
        return stored;
    }
    let children: Vec<(Move, Key)> = expand(position, zobrist, node_kind);
    if children.len() == 0 {
        proof {
            dfpn_tbl.lemma_view();
            if in_search(root, attacker_white, position@, node_kind) {
                lemma_terminal(position@, *zobrist, attacker_white);
            }
            if in_search(root, attacker_white, position@, node_kind) && sound(
                dfpn_tbl@,
                *zobrist,
                root,
                attacker_white,
            ) && collision_free(*zobrist, root) {
                lemma_sound_insert(
                    dfpn_tbl@,
                    *zobrist,
                    root,
                    attacker_white,
                    position@,
                    (MAX, 0u32),
                );
            }
            if in_search(root, attacker_white, position@, node_kind) && denials_sound(
                dfpn_tbl@,
                *zobrist,
                root,
                attacker_white,
            ) && collision_free(*zobrist, root) {
                lemma_denials_insert(
                    dfpn_tbl@,
                    *zobrist,
                    root,
                    attacker_white,
                    position@,
                    (MAX, 0u32),
                );
            }
        }
        put_in_hash(dfpn_tbl, key, (MAX, 0));
        return (MAX, 0);
    }
    proof {
        dfpn_tbl.lemma_view();
        if in_search(root, attacker_white, position@, node_kind) && sound(
            dfpn_tbl@,
            *zobrist,
            root,
            attacker_white,
        ) && collision_free(*zobrist, root) {
            lemma_sound_insert(dfpn_tbl@, *zobrist, root, attacker_white, position@, thresholds);
        }
        if in_search(root, attacker_white, position@, node_kind) && denials_sound(
            dfpn_tbl@,
            *zobrist,
            root,
            attacker_white,
        ) && collision_free(*zobrist, root) {
            lemma_denials_insert(
                dfpn_tbl@,
                *zobrist,
                root,
                attacker_white,
                position@,
                thresholds,
            );
        }
    }
    put_in_hash(dfpn_tbl, key, thresholds);
    let ghost size = dfpn_tbl.spec_len();
    loop
        invariant
            dfpn_tbl.wf(),
            dfpn_tbl.spec_len() == size,
            zobrist.wf(),
            position.wf(zobrist),
            key == position.spec_zobrist_hash(),
            children@.len() > 0,
            children@ == node_children(position@, *zobrist, node_kind),
            !reaches(thresholds, look_up(old(dfpn_tbl)@, key)),
            size == old(dfpn_tbl).spec_len(),
            *budget <= *old(budget),
            in_search(root, attacker_white, position@, node_kind) && sound(
                old(dfpn_tbl)@,
                *zobrist,
                root,
                attacker_white,
            ) && collision_free(*zobrist, root) ==> sound(
                dfpn_tbl@,
                *zobrist,
                root,
                attacker_white,
            ),
            in_search(root, attacker_white, position@, node_kind) && denials_sound(
                old(dfpn_tbl)@,
                *zobrist,
                root,
                attacker_white,
            ) && collision_free(*zobrist, root) ==> denials_sound(
                dfpn_tbl@,
                *zobrist,
                root,
                attacker_white,
            ),
            mid_result(
                old(dfpn_tbl)@,
                position@,
                *zobrist,
                thresholds,
                node_kind,
                *old(budget) as nat,
            ) == rounds_result(
                dfpn_tbl@,
                position@,
                *zobrist,
                thresholds,
                node_kind,
                *budget as nat,
            ),
        decreases *budget,
    {
        let sum: u32 = phi_sum(dfpn_tbl, &children);
        let least: u32 = delta_min(dfpn_tbl, &children);
        if thresholds.0 <= least || thresholds.1 <= sum || *budget == 0 {
            proof {
                dfpn_tbl.lemma_view();
                if in_search(root, attacker_white, position@, node_kind) && sound(
                    old(dfpn_tbl)@,
                    *zobrist,
                    root,
                    attacker_white,
                ) && collision_free(*zobrist, root) {
                    lemma_commit(dfpn_tbl@, *zobrist, root, attacker_white, position@, node_kind);
                    lemma_sound_insert(
                        dfpn_tbl@,
                        *zobrist,
                        root,
                        attacker_white,
                        position@,
                        (least, sum),
                    );
                }
                if in_search(root, attacker_white, position@, node_kind) && denials_sound(
                    old(dfpn_tbl)@,
                    *zobrist,
                    root,
                    attacker_white,
                ) && collision_free(*zobrist, root) {
                    lemma_commit_denial(
                        dfpn_tbl@,
                        *zobrist,
                        root,
                        attacker_white,
                        position@,
                        node_kind,
                    );
                    lemma_denials_insert(
                        dfpn_tbl@,
                        *zobrist,
                        root,
                        attacker_white,
                        position@,
                        (least, sum),
                    );
                }
            }
            put_in_hash(dfpn_tbl, key, (least, sum));
            return (least, sum);
        }
        *budget = *budget - 1;
        let selected: ((Move, Key, u32, u32), u32) = select_child(dfpn_tbl, &children);
        let child: (Move, Key, u32, u32) = selected.0;
        let next_thresholds: (u32, u32) = child_thresholds(
            thresholds,
            (child.2, child.3),
            sum,
            selected.1,
        );
        let mut next: PositionWrapper = position.clone();
        let _ = next.try_make_move(child.0, zobrist);
        proof {
            let pairs = child_pairs(dfpn_tbl@, children@);
            let n = children@.len() as int;
            lemma_best(pairs, n);
            let best = spec_best(pairs, n);
            lemma_children_hashes(position@, *zobrist, node_kind, best);
            if in_search(root, attacker_white, position@, node_kind) {
                lemma_reach_step(root, position@, children@[best].0);
            }
        }
        let _ = mid(
            dfpn_tbl,
            &next,
            zobrist,
            next_thresholds,
            node_kind.flip(),
            budget,
            Ghost(root),
            Ghost(attacker_white),
        );
    }
}

/// The prover at the root. Runs the search with the thresholds `(MAX - 1,
/// MAX - 1)`; if neither number of the pair that comes back is `MAX`, the
/// table is emptied and the search runs again with `(MAX, MAX)`. `(0, MAX)`
/// says that the attacker mates, `(MAX, 0)` that the attacker does not; any
/// other pair says that the search was not decided. Where what the table
/// said was true and no two positions have the same hash, a proof number of
/// zero is a forced mate and a disproof number of zero is none; a table that
/// holds nothing says nothing that is not true. `budget`
/// bounds the number of times that the search goes into a child, and holds
/// what is left of it afterwards.
pub fn df_pn(
    dfpn_tbl: &mut DfPnTable,
    position: &PositionWrapper,
    zobrist: &ZobristTable,
    budget: &mut u64,
) -> (pair: (u32, u32))
    requires
        old(dfpn_tbl).wf(),
        zobrist.wf(),
        position.wf(zobrist),
    ensures
        final(dfpn_tbl).wf(),
        final(dfpn_tbl).spec_len() == old(dfpn_tbl).spec_len(),
        *final(budget) <= *old(budget),
        pair == look_up(final(dfpn_tbl)@, position.spec_zobrist_hash()),
        ({
            let stored = look_up(old(dfpn_tbl)@, position.spec_zobrist_hash());
            stored.0 == MAX || stored.1 == MAX ==> pair == stored && final(dfpn_tbl)@ == old(
                dfpn_tbl,
            )@ && *final(budget) == *old(budget)
        }),
        ({
            let stored = look_up(old(dfpn_tbl)@, position.spec_zobrist_hash());
            !reaches((ALMOST_MAX, ALMOST_MAX), stored) && node_children(
                position@,
                *zobrist,
                NodeKind::Or,
            ).len() == 0 ==> pair == (MAX, 0u32) && final(dfpn_tbl)@ == table_insert(
                old(dfpn_tbl)@,
                position.spec_zobrist_hash(),
                (MAX, 0u32),
            ) && *final(budget) == *old(budget)
        }),
        *final(budget) > 0 ==> pair.0 == MAX || pair.1 == MAX,
        df_pn_result(old(dfpn_tbl)@, position@, *zobrist, *old(budget) as nat) == (Proved {
            pair,
            table: final(dfpn_tbl)@,
            budget: *final(budget) as nat,
        }),
        sound(old(dfpn_tbl)@, *zobrist, position@, position@.white_to_move) && collision_free(
            *zobrist,
            position@,
        ) ==> sound(final(dfpn_tbl)@, *zobrist, position@, position@.white_to_move) && (pair.0
            == 0 ==> forced_mate(position@, *zobrist, NodeKind::Or)),
        denials_sound(old(dfpn_tbl)@, *zobrist, position@, position@.white_to_move)
            && collision_free(*zobrist, position@) ==> denials_sound(
            final(dfpn_tbl)@,
            *zobrist,
            position@,
            position@.white_to_move,
        ) && (pair.1 == 0 ==> !forced_mate(position@, *zobrist, NodeKind::Or)),
        (forall|key: u64| old(dfpn_tbl).spec_fetch(key) is None) && collision_free(
            *zobrist,
            position@,
        ) ==> (pair.0 == 0 ==> forced_mate(position@, *zobrist, NodeKind::Or)) && (pair.1 == 0
            ==> !forced_mate(position@, *zobrist, NodeKind::Or)),
{
    proof {
        lemma_reach_root(position@);
        if forall|key: u64| dfpn_tbl.spec_fetch(key) is None {
            assert forall|key: u64| table_fetch(dfpn_tbl@, key) is None by {
                assert(dfpn_tbl.spec_fetch(key) is None);
            }
            lemma_sound_empty(dfpn_tbl@, *zobrist, position@, position@.white_to_move);
            lemma_denials_empty(dfpn_tbl@, *zobrist, position@, position@.white_to_move);
        }
    }
    let first: (u32, u32) = mid(
        dfpn_tbl,
        position,
        zobrist,
        (ALMOST_MAX, ALMOST_MAX),
        NodeKind::Or,
        budget,
        Ghost(position@),
        Ghost(position@.white_to_move),
    );
    if first.0 != MAX && first.1 != MAX {
        proof {
            dfpn_tbl.lemma_view();
        }
        dfpn_tbl.clear();
        proof {
            assert forall|key: u64| table_fetch(dfpn_tbl@, key) is None by {
                assert(dfpn_tbl.spec_fetch(key) is None);
            }
            lemma_sound_empty(dfpn_tbl@, *zobrist, position@, position@.white_to_move);
            lemma_denials_empty(dfpn_tbl@, *zobrist, position@, position@.white_to_move);
        }
        return mid(
            dfpn_tbl,
            position,
            zobrist,
            (MAX, MAX),
            NodeKind::Or,
            budget,
            Ghost(position@),
            Ghost(position@.white_to_move),
        );
    }
    first
}

} // verus!
