use crate::df_pn::mate::{hash, next_configuration};
use crate::df_pn::search::NodeKind;
use crate::eval::search::{
    me_shortcut, ordered_children, shortcut_writes, spec_nearer, spec_one_less, you_shortcut,
};
use crate::eval::value::Value;
use crate::position_wrapper::{Configuration, Key, Move};
use crate::tt::table_insert;
use crate::zobrist::ZobristTable;
use vstd::prelude::*;

verus! {

/// What the evaluator leaves behind: the value and the move that it gives
/// back, and its table as it is afterwards.
pub ghost struct Evaluated {
    pub answer: (Value, Option<Move>),
    pub table: Seq<Seq<(u64, (Value, Option<Move>))>>,
}

/// What the attacker's search gives. Where it answers without looking at a
/// move, that answer, written into the table where the node has no check.
/// Else the position goes onto the path and the checks are looked at in
/// turn, from the bound `beta` and no best move.
pub open spec fn me_result(
    df: Seq<Seq<(u64, (u32, u32))>>,
    evals: Seq<Seq<(u64, (Value, Option<Move>))>>,
    c: Configuration,
    zobrist: ZobristTable,
    alpha: Value,
    beta: Value,
    seen: Set<Key>,
) -> Evaluated
    decreases 2 * beta.spec_plies(), 1nat, 0nat,
{
    let key = hash(zobrist, c);
    match me_shortcut(df, evals, seen, c, zobrist, key, beta) {
        Some(short) => Evaluated {
            answer: short,
            table: if shortcut_writes(df, evals, c, zobrist, NodeKind::Or, key, alpha, beta) {
                table_insert(evals, key, short)
            } else {
                evals
            },
        },
        None => me_rounds(df, evals, c, zobrist, alpha, beta, seen.insert(key), beta, None, 0),
    }
}

/// What the attacker's search gives from the check `i` on, with the bound
/// and the best move that the checks before it left. The defender's search
/// answers for the position behind the check, with both bounds one ply
/// nearer (in place of a bound that is no mate, the longest mate); its
/// value, one ply further, becomes the bound, and the check the
/// best move, where it is below the bound. Where the bound is no longer
/// above `alpha`, the search ends with it. Behind the last check the bound
/// and the best move are written into the table and given back, or "no
/// mate" where there is no best move.
pub open spec fn me_rounds(
    df: Seq<Seq<(u64, (u32, u32))>>,
    evals: Seq<Seq<(u64, (Value, Option<Move>))>>,
    c: Configuration,
    zobrist: ZobristTable,
    alpha: Value,
    beta: Value,
    seen: Set<Key>,
    bound: Value,
    best: Option<Move>,
    i: int,
) -> Evaluated
    decreases 2 * beta.spec_plies(), 0nat, ordered_children(c, zobrist, NodeKind::Or, df).len() - i,
{
    let key = hash(zobrist, c);
    let children = ordered_children(c, zobrist, NodeKind::Or, df);
    let near = spec_nearer(bound);
    if i < 0 || i >= children.len() {
        let answer = if best is None {
            (Value::spec_inf(), None)
        } else {
            (bound, best)
        };
        Evaluated { answer, table: table_insert(evals, key, answer) }
    } else if 2 * near.spec_plies() + 1 < 2 * beta.spec_plies() {
        let mv = children[i].1.0;
        let reply = you_result(
            df,
            evals,
            next_configuration(c, mv),
            zobrist,
            spec_one_less(alpha),
            near,
            seen,
        );
        let eval = reply.answer.0.spec_plies_added(1);
        let better = eval.0 < bound.0;
        let next_bound = if better {
            eval
        } else {
            bound
        };
        let next_best = if better {
            Some(mv)
        } else {
            best
        };
        if alpha.0 >= next_bound.0 {
            Evaluated { answer: (next_bound, next_best), table: reply.table }
        } else {
            me_rounds(
                df,
                reply.table,
                c,
                zobrist,
                alpha,
                beta,
                seen,
                next_bound,
                next_best,
                i + 1,
            )
        }
    } else {
        Evaluated { answer: (bound, best), table: evals }
    }
}

/// What the defender's search gives. Where it answers without looking at a
/// move, that answer, written into the table where the defender has no
/// move. Else the position goes onto the path and the legal moves are
/// looked at in turn, from the bound `alpha` and no best move.
pub open spec fn you_result(
    df: Seq<Seq<(u64, (u32, u32))>>,
    evals: Seq<Seq<(u64, (Value, Option<Move>))>>,
    c: Configuration,
    zobrist: ZobristTable,
    alpha: Value,
    beta: Value,
    seen: Set<Key>,
) -> Evaluated
    decreases 2 * beta.spec_plies() + 1, 1nat, 0nat,
{
    let key = hash(zobrist, c);
    match you_shortcut(df, evals, seen, c, zobrist, key, alpha, beta) {
        Some(short) => Evaluated {
            answer: short,
            table: if shortcut_writes(df, evals, c, zobrist, NodeKind::And, key, alpha, beta) {
                table_insert(evals, key, short)
            } else {
                evals
            },
        },
        None => you_rounds(df, evals, c, zobrist, alpha, beta, seen.insert(key), alpha, None, 0),
    }
}

/// What the defender's search gives from the move `i` on, with the bound
/// and the best move that the moves before it left. The attacker's search
/// answers for the position behind the move, with both bounds one ply
/// nearer (in place of a bound that is no mate, the longest mate); its
/// value, one ply further, becomes the bound, and the move the
/// best move, where it is above the bound. Where the bound is no longer
/// below `beta`, the search ends with it. Behind the last move the bound
/// and the best move are written into the table and given back.
pub open spec fn you_rounds(
    df: Seq<Seq<(u64, (u32, u32))>>,
    evals: Seq<Seq<(u64, (Value, Option<Move>))>>,
    c: Configuration,
    zobrist: ZobristTable,
    alpha: Value,
    beta: Value,
    seen: Set<Key>,
    bound: Value,
    best: Option<Move>,
    i: int,
) -> Evaluated
    decreases 2 * beta.spec_plies() + 1,
        0nat,
        ordered_children(c, zobrist, NodeKind::And, df).len() - i,
{
    let key = hash(zobrist, c);
    let children = ordered_children(c, zobrist, NodeKind::And, df);
    let near = spec_nearer(beta);
    if i < 0 || i >= children.len() {
        Evaluated { answer: (bound, best), table: table_insert(evals, key, (bound, best)) }
    } else if 2 * near.spec_plies() < 2 * beta.spec_plies() + 1 {
        let mv = children[i].1.0;
        let reply = me_result(
            df,
            evals,
            next_configuration(c, mv),
            zobrist,
            spec_one_less(bound),
            near,
            seen,
        );
        let eval = reply.answer.0.spec_plies_added(1);
        let better = eval.0 > bound.0;
        let next_bound = if better {
            eval
        } else {
            bound
        };
        let next_best = if better {
            Some(mv)
        } else {
            best
        };
        if next_bound.0 >= beta.0 {
            Evaluated { answer: (next_bound, next_best), table: reply.table }
        } else {
            you_rounds(
                df,
                reply.table,
                c,
                zobrist,
                alpha,
                beta,
                seen,
                next_bound,
                next_best,
                i + 1,
            )
        }
    } else {
        Evaluated { answer: (bound, best), table: evals }
    }
}

} // verus!
