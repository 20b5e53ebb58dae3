use crate::df_pn::mate::{hash, next_configuration};
use crate::df_pn::search::{
    child_pairs, look_up, node_children, reaches, spec_best, spec_child_thresholds,
    spec_delta_min, spec_phi_sum, spec_second, NodeKind, ALMOST_MAX, MAX,
};
use crate::position_wrapper::{Configuration, Key};
use crate::tt::table_insert;
use crate::zobrist::ZobristTable;
use vstd::prelude::*;

verus! {

/// What the prover leaves behind: the pair that it gives back, the table as
/// it is afterwards, and what is left of the budget.
pub ghost struct Proved {
    pub pair: (u32, u32),
    pub table: Seq<Seq<(u64, (u32, u32))>>,
    pub budget: nat,
}

/// What expanding a node gives. A pair of the table that reaches one of the
/// thresholds comes back as it is. A node without children gets the pair
/// `(MAX, 0)`. Any other node gets its thresholds written in place of its
/// pair and is worked on in rounds.
pub open spec fn mid_result(
    table: Seq<Seq<(u64, (u32, u32))>>,
    c: Configuration,
    zobrist: ZobristTable,
    thresholds: (u32, u32),
    kind: NodeKind,
    budget: nat,
) -> Proved
    decreases budget, 1nat,
{
    let key = hash(zobrist, c);
    let stored = look_up(table, key);
    if reaches(thresholds, stored) {
        Proved { pair: stored, table, budget }
    } else if node_children(c, zobrist, kind).len() == 0 {
        Proved { pair: (MAX, 0u32), table: table_insert(table, key, (MAX, 0u32)), budget }
    } else {
        rounds_result(table_insert(table, key, thresholds), c, zobrist, thresholds, kind, budget)
    }
}

/// What the rounds on a node give. In each round the node's pair is taken
/// from the pairs that the table holds for its children, `(1, 1)` for a
/// child that it does not hold: the smallest disproof number and the sum
/// of the proof numbers. Where the pair reaches one of the thresholds, or
/// the budget is used up, it is written into the table and given back. Else
/// one unit of the budget is spent on going into the first child with the
/// smallest disproof number, with the thresholds for the child, and the
/// next round starts from the table and the budget that this leaves.
pub open spec fn rounds_result(
    table: Seq<Seq<(u64, (u32, u32))>>,
    c: Configuration,
    zobrist: ZobristTable,
    thresholds: (u32, u32),
    kind: NodeKind,
    budget: nat,
) -> Proved
    decreases budget, 0nat,
{
    let key = hash(zobrist, c);
    let children = node_children(c, zobrist, kind);
    let pairs = child_pairs(table, children);
    let n = children.len() as int;
    let least = spec_delta_min(pairs, n);
    let sum = spec_phi_sum(pairs, n);
    if thresholds.0 <= least || thresholds.1 <= sum || budget == 0 {
        Proved { pair: (least, sum), table: table_insert(table, key, (least, sum)), budget }
    } else {
        let best = spec_best(pairs, n);
        let below = mid_result(
            table,
            next_configuration(c, children[best].0),
            zobrist,
            spec_child_thresholds(thresholds, pairs[best], sum, spec_second(pairs, n)),
            kind.spec_flip(),
            (budget - 1) as nat,
        );
        rounds_result(
            below.table,
            c,
            zobrist,
            thresholds,
            kind,
            if below.budget < budget {
                below.budget
            } else {
                (budget - 1) as nat
            },
        )
    }
}

/// What the prover gives at the root: what expanding the root gives with
/// the thresholds `(MAX - 1, MAX - 1)`; and where neither number of that
/// pair is `MAX`, what expanding it gives with `(MAX, MAX)` from an empty
/// table and the budget that the first run left.
pub open spec fn df_pn_result(
    table: Seq<Seq<(u64, (u32, u32))>>,
    c: Configuration,
    zobrist: ZobristTable,
    budget: nat,
) -> Proved {
    let first = mid_result(
        table,
        c,
        zobrist,
        (ALMOST_MAX, ALMOST_MAX),
        NodeKind::Or,
        budget,
    );
    if first.pair.0 != MAX && first.pair.1 != MAX {
        mid_result(
            Seq::new(first.table.len(), |b: int| Seq::<(u64, (u32, u32))>::empty()),
            c,
            zobrist,
            (MAX, MAX),
            NodeKind::Or,
            first.budget,
        )
    } else {
        first
    }
}

} // verus!
