use crate::df_pn::search::{children_from, generate, generated, look_up, NodeKind, MAX};
use crate::df_pn::mate::{
    child_configuration, lemma_mates_later, lemma_reach_root, lemma_reach_step, mates,
    next_configuration, reachable,
};
use crate::df_pn::search::{
    child_of, children_of, is_child, lemma_node_children_members, look_up_hash, node_children,
};
use crate::eval::mate::{
    lemma_one_ply_less, lemma_one_ply_more, lemma_ordered_children_members, lemma_plies_ascend,
    lemma_values_sound_insert, premise, value_claim, values_sound,
};
use crate::eval::model::{me_result, me_rounds, you_result, you_rounds, Evaluated};
use crate::eval::value::Value;
use crate::keys::{holds, put, take};
use crate::position_wrapper::{
    configuration_of, pile_of, piles_in_limit, Configuration, Key, Move, PositionWrapper,
};
use crate::sort::{sort_by_key, stable_sort};
use crate::tt::{table_fetch, table_insert, DfPnTable, Tt};
use crate::zobrist::ZobristTable;
use shogi_core::PartialPosition;
use std::collections::BTreeSet;
use vstd::prelude::*;

verus! {

/// The table of the evaluator: a value and the best move per position.
pub type EvalTable = Tt<(Value, Option<Move>)>;

/// The number of plies within which the evaluator looks for a mate from the
/// root.
pub const ROOT_PLIES: u32 = 12;

/// The moves from the root to the node that the search is at.
pub struct SearchCtx {
    seq: Vec<Move>,
}

impl SearchCtx {
    /// The moves from the root, first move first.
    pub closed spec fn view(&self) -> Seq<Move> {
        self.seq@
    }

    /// The context at the root.
    pub fn new() -> (ctx: Self)
        ensures
            ctx@ == Seq::<Move>::empty(),
    {
        SearchCtx { seq: Vec::new() }
    }

    /// Goes one move down.
    pub fn push(&mut self, mv: Move)
        ensures
            final(self)@ == old(self)@.push(mv),
    {
        self.seq.push(mv);
    }

    /// Goes one move up; at the root nothing changes.
    pub fn pop(&mut self)
        ensures
            final(self)@ == if old(self)@.len() > 0 {
                old(self)@.drop_last()
            } else {
                old(self)@
            },
    {
        let _ = self.seq.pop();
    }

    /// How many moves the node is away from the root.
    pub fn depth(&self) -> (n: usize)
        ensures
            n == self@.len(),
    {
        self.seq.len()
    }
}

impl Default for SearchCtx {
    fn default() -> (ctx: Self)
        ensures
            ctx@ == Seq::<Move>::empty(),
    {
        SearchCtx::new()
    }
}

/// A bound one ply nearer to the mate: one ply less, and the value that is
/// better than every mate where no ply is left.
pub open spec fn spec_one_less(x: Value) -> Value {
    if x.spec_plies() >= 1 {
        x.spec_plies_added(-1)
    } else {
        Value::spec_zero()
    }
}

/// A bound that is a mate stays one when it comes a ply nearer, and loses
/// its ply if it has one.
pub proof fn lemma_one_less(x: Value)
    requires
        x.spec_is_mate(),
    ensures
        spec_one_less(x).spec_is_mate(),
        spec_one_less(x).spec_plies() == if x.spec_plies() >= 1 {
            (x.spec_plies() - 1) as u32
        } else {
            0u32
        },
{
    x.lemma_fields();
    if x.spec_plies() >= 1 {
        Value::lemma_pack(x.spec_plies() - 1, x.spec_pieces() as int, x.spec_futile() as int);
        spec_one_less(x).lemma_fields();
    } else {
        Value::spec_zero().lemma_fields();
    }
}

/// The longest mate that a value can hold, with nothing in hand and no
/// futile interposition: the largest value that is a mate.
pub const LAST_PLIES: u32 = 0xffe;

/// The upper bound that a search hands on to the next ply. A bound that is a
/// mate comes one ply nearer. A bound that is no mate has no ply to lose: the
/// next ply gets the longest mate that a value can hold, so that the plies of
/// the bounds still limit the depth of the search.
pub open spec fn spec_nearer(x: Value) -> Value {
    if x.spec_is_mate() {
        spec_one_less(x)
    } else {
        Value::pack(LAST_PLIES as int, 0, 0)
    }
}

/// The bound that is handed on is a mate, with fewer plies than a bound that
/// is no mate has.
pub proof fn lemma_nearer(x: Value)
    ensures
        spec_nearer(x).spec_is_mate(),
        !x.spec_is_mate() ==> spec_nearer(x).0 == 0xffef_ffff && spec_nearer(x).spec_plies()
            == LAST_PLIES && x.spec_plies() == 0xfff,
{
    x.lemma_fields();
    if x.spec_is_mate() {
        lemma_one_less(x);
    } else {
        Value::lemma_pack(LAST_PLIES as int, 0, 0);
        spec_nearer(x).lemma_fields();
    }
}

/// A value with plies added is a mate or "no mate" itself.
pub proof fn lemma_added(x: Value, a: int)
    ensures
        x.spec_plies_added(a).spec_is_mate() || x.spec_plies_added(a) == Value::spec_inf(),
{
    x.lemma_fields();
    if x.spec_is_mate() && 0 <= x.spec_plies() + a < 0xfff {
        Value::lemma_pack(x.spec_plies() + a, x.spec_pieces() as int, x.spec_futile() as int);
        x.spec_plies_added(a).lemma_fields();
    }
}

/// A value one ply further from the mate, if it is still a mate, has at
/// least one ply.
pub proof fn lemma_one_more(x: Value)
    ensures
        x.spec_plies_added(1).spec_is_mate() ==> x.spec_plies_added(1).spec_plies() >= 1,
{
    x.lemma_fields();
    if x.spec_is_mate() && x.spec_plies() + 1 < 0xfff {
        Value::lemma_pack(x.spec_plies() + 1, x.spec_pieces() as int, x.spec_futile() as int);
    }
    x.spec_plies_added(1).lemma_fields();
}

/// Each move with the key zero: the order of the move generator.
pub open spec fn unkeyed(moves: Seq<Move>) -> Seq<(u32, Move)> {
    Seq::new(moves.len(), |i: int| (0u32, moves[i]))
}

/// Each child with the disproof number that the prover's table has for it,
/// one where it has none.
pub open spec fn by_delta(df: Seq<Seq<(u64, (u32, u32))>>, children: Seq<(Move, Key)>) -> Seq<
    (u32, (Move, Key)),
> {
    Seq::new(children.len(), |i: int| (look_up(df, children[i].1).1, children[i]))
}

/// The children of a node in the order in which the evaluator looks at
/// them: by the disproof number that the prover's table has for them,
/// smallest first, and otherwise as the move generator lists them.
pub open spec fn ordered_children(
    c: Configuration,
    zobrist: ZobristTable,
    kind: NodeKind,
    df: Seq<Seq<(u64, (u32, u32))>>,
) -> Seq<(u32, (Move, Key))> {
    let moves = unkeyed(generated(c, kind));
    let children = by_delta(df, children_from(c, zobrist, moves, moves.len() as int));
    stable_sort(children, children.len() as int)
}

/// How many pieces a player holds in hand.
pub open spec fn hand_total(hands: Seq<u8>, white: bool) -> int {
    hands[pile_of(white, 1)] + hands[pile_of(white, 2)] + hands[pile_of(white, 3)] + hands[pile_of(
        white,
        4,
    )] + hands[pile_of(white, 5)] + hands[pile_of(white, 6)] + hands[pile_of(white, 7)]
}

/// The value of a position in which the defender is mated: no ply, the
/// pieces that the attacker has left in hand, no futile interposition.
pub open spec fn mated_value(c: Configuration) -> Value {
    Value::pack(0, hand_total(c.hands, !c.white_to_move), 0)
}

/// The smaller of two values.
pub open spec fn lesser(a: Value, b: Value) -> Value {
    if a.0 < b.0 {
        a
    } else {
        b
    }
}

/// The larger of two values.
pub open spec fn greater(a: Value, b: Value) -> Value {
    if a.0 > b.0 {
        a
    } else {
        b
    }
}

/// What the attacker's search answers without looking at a move, if it
/// does: no mate where no ply is left, where the prover's table says that
/// there is none or where the position is already on the path; what the
/// evaluator's table holds, cut at `beta`; no mate where there is no check.
pub open spec fn me_shortcut(
    df: Seq<Seq<(u64, (u32, u32))>>,
    evals: Seq<Seq<(u64, (Value, Option<Move>))>>,
    seen: Set<Key>,
    c: Configuration,
    zobrist: ZobristTable,
    key: Key,
    beta: Value,
) -> Option<(Value, Option<Move>)> {
    if beta.spec_plies() == 0 {
        Some((Value::spec_inf(), None))
    } else if table_fetch(df, key) == Some((MAX, 0u32)) {
        Some((Value::spec_inf(), None))
    } else if table_fetch(evals, key) is Some {
        let memo = table_fetch(evals, key).unwrap();
        Some((lesser(memo.0, beta), memo.1))
    } else if ordered_children(c, zobrist, NodeKind::Or, df).len() == 0 {
        Some((Value::spec_inf(), None))
    } else if seen.contains(key) {
        Some((Value::spec_inf(), None))
    } else {
        None
    }
}

/// What the defender's search answers without looking at a move, if it
/// does: no mate where the prover's table says that the defender gets away
/// or where the position is already on the path; `alpha` where the bounds
/// have met; what the evaluator's table holds, raised to `alpha`; the value
/// of the mate where the defender has no move.
pub open spec fn you_shortcut(
    df: Seq<Seq<(u64, (u32, u32))>>,
    evals: Seq<Seq<(u64, (Value, Option<Move>))>>,
    seen: Set<Key>,
    c: Configuration,
    zobrist: ZobristTable,
    key: Key,
    alpha: Value,
    beta: Value,
) -> Option<(Value, Option<Move>)> {
    if table_fetch(df, key) == Some((0u32, MAX)) {
        Some((Value::spec_inf(), None))
    } else if alpha.0 >= beta.0 {
        Some((alpha, None))
    } else if table_fetch(evals, key) is Some {
        let memo = table_fetch(evals, key).unwrap();
        Some((greater(memo.0, alpha), memo.1))
    } else if ordered_children(c, zobrist, NodeKind::And, df).len() == 0 {
        Some((mated_value(c), None))
    } else if seen.contains(key) {
        Some((Value::spec_inf(), None))
    } else {
        None
    }
}

/// Whether a search that answers without looking at a move writes its
/// answer into the evaluator's table: it does where the node has no move,
/// and only there.
pub open spec fn shortcut_writes(
    df: Seq<Seq<(u64, (u32, u32))>>,
    evals: Seq<Seq<(u64, (Value, Option<Move>))>>,
    c: Configuration,
    zobrist: ZobristTable,
    kind: NodeKind,
    key: Key,
    alpha: Value,
    beta: Value,
) -> bool {
    &&& table_fetch(evals, key) is None
    &&& ordered_children(c, zobrist, kind, df).len() == 0
    &&& match kind {
        NodeKind::Or => beta.spec_plies() != 0 && table_fetch(df, key) != Some((MAX, 0u32)),
        NodeKind::And => table_fetch(df, key) != Some((0u32, MAX)) && alpha.0 < beta.0,
    }
}

/// A bound one ply nearer to the mate.
pub fn one_less(x: Value) -> (v: Value)
    ensures
        v == spec_one_less(x),
{
    if x.plies() >= 1 {
        x.plies_added_unchecked(-1)
    } else {
        Value::zero()
    }
}

/// The upper bound for the next ply.
pub fn nearer(x: Value) -> (v: Value)
    ensures
        v == spec_nearer(x),
{
    if x.is_mate() {
        one_less(x)
    } else {
        Value::new(LAST_PLIES, 0, 0)
    }
}

/// The children of a node in the order in which the evaluator looks at
/// them, each with the disproof number by which it was put in order.
pub fn order_children(
    position: &PositionWrapper,
    zobrist: &ZobristTable,
    node_kind: NodeKind,
    df_pn: &DfPnTable,
) -> (children: Vec<(u32, (Move, Key))>)
    requires
        zobrist.wf(),
        position.wf(zobrist),
        df_pn.wf(),
    ensures
        children@ == ordered_children(position@, *zobrist, node_kind, df_pn@),
{
    let moves: Vec<Move> = generate(position, node_kind);
    let mut listed: Vec<(u32, Move)> = Vec::new();
    let mut i: usize = 0;
    while i < moves.len()
        invariant
            i <= moves@.len(),
            listed@.len() == i,
            forall|k: int| 0 <= k < i ==> listed@[k] == unkeyed(moves@)[k],
        decreases moves@.len() - i,
    {
        listed.push((0, moves[i]));
        i += 1;
    }
    assert(listed@ =~= unkeyed(moves@));
    let children: Vec<(Move, Key)> = children_of(position, zobrist, &listed);
    let mut with_delta: Vec<(u32, (Move, Key))> = Vec::new();
    let mut j: usize = 0;
    while j < children.len()
        invariant
            df_pn.wf(),
            j <= children@.len(),
            with_delta@.len() == j,
            forall|k: int| 0 <= k < j ==> with_delta@[k] == by_delta(df_pn@, children@)[k],
        decreases children@.len() - j,
    {
        let pair: (u32, u32) = look_up_hash(df_pn, children[j].1);
        with_delta.push((pair.1, children[j]));
        j += 1;
    }
    assert(with_delta@ =~= by_delta(df_pn@, children@));
    sort_by_key(&with_delta)
}

/// How many pieces the player who is not to move holds in hand.
pub fn attacker_pieces(position: &PositionWrapper, zobrist: &ZobristTable) -> (pieces: u32)
    requires
        position.wf(zobrist),
    ensures
        pieces == hand_total(position@.hands, !position@.white_to_move),
        pieces <= 0xff,
{
    let white: bool = !position.white_to_move();
    let mut pieces: u32 = 0;
    let mut kind: u8 = 1;
    while kind <= 7
        invariant
            1 <= kind <= 8,
            position.wf(zobrist),
            white == !position@.white_to_move,
            pieces <= 18 * (kind - 1),
            kind == 1 ==> pieces == 0,
            kind == 2 ==> pieces == position@.hands[pile_of(white, 1)],
            kind == 3 ==> pieces == position@.hands[pile_of(white, 1)] + position@.hands[pile_of(
                white,
                2,
            )],
            kind == 4 ==> pieces == position@.hands[pile_of(white, 1)] + position@.hands[pile_of(
                white,
                2,
            )] + position@.hands[pile_of(white, 3)],
            kind == 5 ==> pieces == position@.hands[pile_of(white, 1)] + position@.hands[pile_of(
                white,
                2,
            )] + position@.hands[pile_of(white, 3)] + position@.hands[pile_of(white, 4)],
            kind == 6 ==> pieces == position@.hands[pile_of(white, 1)] + position@.hands[pile_of(
                white,
                2,
            )] + position@.hands[pile_of(white, 3)] + position@.hands[pile_of(white, 4)]
                + position@.hands[pile_of(white, 5)],
            kind == 7 ==> pieces == position@.hands[pile_of(white, 1)] + position@.hands[pile_of(
                white,
                2,
            )] + position@.hands[pile_of(white, 3)] + position@.hands[pile_of(white, 4)]
                + position@.hands[pile_of(white, 5)] + position@.hands[pile_of(white, 6)],
            kind == 8 ==> pieces == hand_total(position@.hands, white),
        decreases 8 - kind,
    {
        let count: u8 = position.hand(white, kind);
        assert(position@.hands[pile_of(white, kind)] <= 18);
        pieces = pieces + count as u32;
        kind += 1;
    }
    pieces
}

/// What the evaluator gives at the root: what the attacker's search gives
/// between the value that is better than every mate and the bound of twelve
/// plies, with nothing on the path.
pub open spec fn search_result(
    df: Seq<Seq<(u64, (u32, u32))>>,
    evals: Seq<Seq<(u64, (Value, Option<Move>))>>,
    c: Configuration,
    zobrist: ZobristTable,
) -> Evaluated {
    me_result(
        df,
        evals,
        c,
        zobrist,
        Value::spec_zero(),
        Value::pack(ROOT_PLIES as int, 0, 0),
        Set::<Key>::empty(),
    )
}

/// The evaluator at the root: the value that the attacker's search finds
/// within twelve plies, or "no mate". The table keeps the bound of a search
/// that was cut short as if it were its value, and a later search that meets
/// the position again takes it for one: the value that comes back need not
/// be the smallest that the attacker can force. Where the values of the
/// table are
/// true and no two positions have the same hash, a value below the bound of
/// twelve plies says that the attacker forces the mate within its plies.
pub fn search(
    position: &PartialPosition,
    zobrist: &ZobristTable,
    df_pn: &DfPnTable,
    evals: &mut EvalTable,
) -> (value: Value)
    requires
        zobrist.wf(),
        df_pn.wf(),
        old(evals).wf(),
        piles_in_limit(configuration_of(*position).hands),
    ensures
        final(evals).wf(),
        final(evals).spec_len() == old(evals).spec_len(),
        value == Value::spec_inf() || value.0 <= Value::pack(ROOT_PLIES as int, 0, 0).0,
        search_result(df_pn@, old(evals)@, configuration_of(*position), *zobrist) == (Evaluated {
            answer: (value, search_result(
                df_pn@,
                old(evals)@,
                configuration_of(*position),
                *zobrist,
            ).answer.1),
            table: final(evals)@,
        }),
        ({
            let wrapped = configuration_of(*position);
            let key = zobrist.hash_of(wrapped.cells, wrapped.hands, wrapped.white_to_move);
            table_fetch(old(evals)@, key) is None ==> value == Value::spec_inf() || value.0
                < Value::pack(ROOT_PLIES as int, 0, 0).0
        }),
        ({
            let wrapped = configuration_of(*position);
            let key = zobrist.hash_of(wrapped.cells, wrapped.hands, wrapped.white_to_move);
            table_fetch(old(evals)@, key) is None && value.spec_is_mate() ==> value.spec_plies()
                >= 1 && (table_fetch(final(evals)@, key) matches Some(entry) && entry.0 == value
                && entry.1 is Some)
        }),
        ({
            let wrapped = configuration_of(*position);
            let key = zobrist.hash_of(wrapped.cells, wrapped.hands, wrapped.white_to_move);
            me_shortcut(
                df_pn@,
                old(evals)@,
                Set::<Key>::empty(),
                wrapped,
                *zobrist,
                key,
                Value::pack(ROOT_PLIES as int, 0, 0),
            ) matches Some(answer) ==> value == answer.0
        }),
        ({
            let root = configuration_of(*position);
            premise(old(evals)@, *zobrist, root, root.white_to_move) ==> values_sound(
                final(evals)@,
                *zobrist,
                root,
                root.white_to_move,
            ) && (value.0 < Value::pack(ROOT_PLIES as int, 0, 0).0 ==> mates(
                root,
                *zobrist,
                NodeKind::Or,
                value.spec_plies() as nat,
            ))
        }),
{
    let wrapped: PositionWrapper = PositionWrapper::wrap(position, zobrist);
    let mut seen: BTreeSet<Key> = BTreeSet::new();
    let mut ctx: SearchCtx = SearchCtx::new();
    let beta: Value = Value::new(ROOT_PLIES, 0, 0);
    proof {
        beta.lemma_fields();
    }
    let answer: (Value, Option<Move>) = alpha_beta_me(
        &wrapped,
        zobrist,
        df_pn,
        evals,
        Value::zero(),
        beta,
        &mut seen,
        &mut ctx,
    );
    answer.0
}

/// The attacker's search: the smallest value among the checks, between
/// `alpha` and `beta`, with the check that gives it. The plies of `beta`
/// bound the depth of the search, which loses one of them with every move; a
/// bound that is no mate hands the longest mate on to the next ply. Where
/// the values of the table are true and no two positions have the same hash,
/// an answer that is a mate below `beta` says that the attacker forces the
/// mate within its plies.
pub fn alpha_beta_me(
    position: &PositionWrapper,
    zobrist: &ZobristTable,
    df_pn: &DfPnTable,
    evals: &mut EvalTable,
    alpha: Value,
    beta: Value,
    seen: &mut BTreeSet<Key>,
    ctx: &mut SearchCtx,
) -> (answer: (Value, Option<Move>))
    requires
        zobrist.wf(),
        position.wf(zobrist),
        df_pn.wf(),
        old(evals).wf(),
    ensures
        final(evals).wf(),
        final(evals).spec_len() == old(evals).spec_len(),
        final(seen)@ == old(seen)@,
        final(ctx)@ == old(ctx)@,
        me_result(df_pn@, old(evals)@, position@, *zobrist, alpha, beta, old(seen)@) == (Evaluated {
            answer,
            table: final(evals)@,
        }),
        answer.0 == Value::spec_inf() || answer.0.0 <= beta.0,
        alpha == Value::spec_zero() && table_fetch(old(evals)@, position.spec_zobrist_hash())
            is None ==> answer.0 == Value::spec_inf() || answer.0.0 < beta.0,
        alpha == Value::spec_zero() && table_fetch(old(evals)@, position.spec_zobrist_hash())
            is None && answer.0.spec_is_mate() ==> answer.0.spec_plies() >= 1 && answer.1 is Some
            && table_fetch(final(evals)@, position.spec_zobrist_hash()) == Some(answer),
        me_shortcut(
            df_pn@,
            old(evals)@,
            old(seen)@,
            position@,
            *zobrist,
            position.spec_zobrist_hash(),
            beta,
        ) matches Some(short) ==> answer == short && final(evals)@ == if shortcut_writes(
            df_pn@,
            old(evals)@,
            position@,
            *zobrist,
            NodeKind::Or,
            position.spec_zobrist_hash(),
            alpha,
            beta,
        ) {
            table_insert(old(evals)@, position.spec_zobrist_hash(), short)
        } else {
            old(evals)@
        },
        premise(old(evals)@, *zobrist, position@, position@.white_to_move) ==> values_sound(
            final(evals)@,
            *zobrist,
            position@,
            position@.white_to_move,
        ) && (answer.0.spec_is_mate() && answer.0.0 < beta.0 ==> mates(
            position@,
            *zobrist,
            NodeKind::Or,
            answer.0.spec_plies() as nat,
        )),
{
    proof {
        lemma_reach_root(position@);
    }
    me_at(
        position,
        zobrist,
        df_pn,
        evals,
        alpha,
        beta,
        seen,
        ctx,
        Ghost(position@),
        Ghost(position@.white_to_move),
    )
}

/// The defender's search: the largest value among the legal moves, between
/// `alpha` and `beta`, with the move that gives it; the value of the mate
/// where there is no legal move. The plies of `beta` bound the depth of the
/// search, which loses one of them with every move; a bound that is no mate
/// hands the longest mate on to the next ply. Where the values of the table
/// are true and no two positions have the same hash, an answer that is a
/// mate below `beta` says that the attacker forces the mate within its plies.
pub fn alpha_beta_you(
    position: &PositionWrapper,
    zobrist: &ZobristTable,
    df_pn: &DfPnTable,
    evals: &mut EvalTable,
    alpha: Value,
    beta: Value,
    seen: &mut BTreeSet<Key>,
    ctx: &mut SearchCtx,
) -> (answer: (Value, Option<Move>))
    requires
        zobrist.wf(),
        position.wf(zobrist),
        df_pn.wf(),
        old(evals).wf(),
    ensures
        final(evals).wf(),
        final(evals).spec_len() == old(evals).spec_len(),
        final(seen)@ == old(seen)@,
        final(ctx)@ == old(ctx)@,
        you_result(df_pn@, old(evals)@, position@, *zobrist, alpha, beta, old(seen)@) == (Evaluated {
            answer,
            table: final(evals)@,
        }),
        you_shortcut(
            df_pn@,
            old(evals)@,
            old(seen)@,
            position@,
            *zobrist,
            position.spec_zobrist_hash(),
            alpha,
            beta,
        ) matches Some(short) ==> answer == short && final(evals)@ == if shortcut_writes(
            df_pn@,
            old(evals)@,
            position@,
            *zobrist,
            NodeKind::And,
            position.spec_zobrist_hash(),
            alpha,
            beta,
        ) {
            table_insert(old(evals)@, position.spec_zobrist_hash(), short)
        } else {
            old(evals)@
        },
        you_shortcut(
            df_pn@,
            old(evals)@,
            old(seen)@,
            position@,
            *zobrist,
            position.spec_zobrist_hash(),
            alpha,
            beta,
        ) is None ==> answer.0.0 >= alpha.0,
        premise(old(evals)@, *zobrist, position@, !position@.white_to_move) ==> values_sound(
            final(evals)@,
            *zobrist,
            position@,
            !position@.white_to_move,
        ) && (answer.0.spec_is_mate() && answer.0.0 < beta.0 ==> mates(
            position@,
            *zobrist,
            NodeKind::And,
            answer.0.spec_plies() as nat,
        )),
{
    proof {
        lemma_reach_root(position@);
    }
    you_at(
        position,
        zobrist,
        df_pn,
        evals,
        alpha,
        beta,
        seen,
        ctx,
        Ghost(position@),
        Ghost(!position@.white_to_move),
    )
}

/// The attacker's search at a position that moves lead to from `root`.
fn me_at(
    position: &PositionWrapper,
    zobrist: &ZobristTable,
    df_pn: &DfPnTable,
    evals: &mut EvalTable,
    alpha: Value,
    beta: Value,
    seen: &mut BTreeSet<Key>,
    ctx: &mut SearchCtx,
    Ghost(root): Ghost<Configuration>,
    Ghost(attacker_white): Ghost<bool>,
) -> (answer: (Value, Option<Move>))
    requires
        zobrist.wf(),
        position.wf(zobrist),
        df_pn.wf(),
        old(evals).wf(),
        reachable(root, position@),
        position@.white_to_move == attacker_white,
    ensures
        final(evals).wf(),
        final(evals).spec_len() == old(evals).spec_len(),
        final(seen)@ == old(seen)@,
        final(ctx)@ == old(ctx)@,
        me_result(df_pn@, old(evals)@, position@, *zobrist, alpha, beta, old(seen)@) == (Evaluated {
            answer,
            table: final(evals)@,
        }),
        answer.0 == Value::spec_inf() || answer.0.0 <= beta.0,
        alpha == Value::spec_zero() && table_fetch(old(evals)@, position.spec_zobrist_hash())
            is None ==> answer.0 == Value::spec_inf() || answer.0.0 < beta.0,
        alpha == Value::spec_zero() && table_fetch(old(evals)@, position.spec_zobrist_hash())
            is None && answer.0.spec_is_mate() ==> answer.0.spec_plies() >= 1 && answer.1 is Some
            && table_fetch(final(evals)@, position.spec_zobrist_hash()) == Some(answer),
        me_shortcut(
            df_pn@,
            old(evals)@,
            old(seen)@,
            position@,
            *zobrist,
            position.spec_zobrist_hash(),
            beta,
        ) matches Some(short) ==> answer == short && final(evals)@ == if shortcut_writes(
            df_pn@,
            old(evals)@,
            position@,
            *zobrist,
            NodeKind::Or,
            position.spec_zobrist_hash(),
            alpha,
            beta,
        ) {
            table_insert(old(evals)@, position.spec_zobrist_hash(), short)
        } else {
            old(evals)@
        },
        premise(old(evals)@, *zobrist, root, attacker_white) ==> values_sound(
            final(evals)@,
            *zobrist,
            root,
            attacker_white,
        ) && (answer.0.spec_is_mate() && answer.0.0 < beta.0 ==> mates(
            position@,
            *zobrist,
            NodeKind::Or,
            answer.0.spec_plies() as nat,
        )),
    decreases 2 * beta.spec_plies(),
{
    let key: Key = position.zobrist_hash();
    if beta.plies() == 0 {
        return (Value::inf(), None);
    }
    if let Some(pair) = df_pn.fetch(key) {
        if pair.0 == MAX && pair.1 == 0 {
            return (Value::inf(), None);
        }
    }
    if let Some(memo) = evals.fetch(key) {
        let value: Value = if memo.0.0 < beta.0 {
            memo.0
        } else {
            beta
        };
        return (value, memo.1);
    }
    let children: Vec<(u32, (Move, Key))> = order_children(position, zobrist, NodeKind::Or, df_pn);
    if children.len() == 0 {
        proof {
            if premise(evals@, *zobrist, root, attacker_white) {
                evals.lemma_view();
                lemma_values_sound_insert(
                    evals@,
                    *zobrist,
                    root,
                    attacker_white,
                    position@,
                    (Value::spec_inf(), None),
                );
            }
        }
        evals.insert(key, (Value::inf(), None));
        return (Value::inf(), None);
    }
    if holds(seen, key) {
        return (Value::inf(), None);
    }
    put(seen, key);
    let mut best: Option<Move> = None;
    let mut bound: Value = beta;
    let mut i: usize = 0;
    while i < children.len()
        invariant
            zobrist.wf(),
            position.wf(zobrist),
            df_pn.wf(),
            evals.wf(),
            evals.spec_len() == old(evals).spec_len(),
            key == position.spec_zobrist_hash(),
            !old(seen)@.contains(key),
            seen@ == old(seen)@.insert(key),
            ctx@ == old(ctx)@,
            i <= children@.len(),
            children@ == ordered_children(position@, *zobrist, NodeKind::Or, df_pn@),
            bound.0 <= beta.0,
            bound.spec_plies() >= 1,
            me_shortcut(df_pn@, old(evals)@, old(seen)@, position@, *zobrist, key, beta) is None,
            reachable(root, position@),
            position@.white_to_move == attacker_white,
            best is None ==> bound == beta,
            best is Some ==> bound.0 < beta.0,
            me_result(df_pn@, old(evals)@, position@, *zobrist, alpha, beta, old(seen)@)
                == me_rounds(
                df_pn@,
                evals@,
                position@,
                *zobrist,
                alpha,
                beta,
                seen@,
                bound,
                best,
                i as int,
            ),
            premise(old(evals)@, *zobrist, root, attacker_white) ==> values_sound(
                evals@,
                *zobrist,
                root,
                attacker_white,
            ) && (best is Some ==> mates(
                position@,
                *zobrist,
                NodeKind::Or,
                bound.spec_plies() as nat,
            )),
        decreases children@.len() - i,
    {
        let mv: Move = children[i].1.0;
        let ghost child = children@[i as int].1;
        let new_alpha: Value = one_less(alpha);
        let new_beta: Value = nearer(bound);
        proof {
            lemma_nearer(bound);
            bound.lemma_fields();
            beta.lemma_fields();
            bound.lemma_order(beta);
            if bound.spec_is_mate() {
                lemma_one_less(bound);
                lemma_one_ply_less(bound);
            }
            lemma_ordered_children_members(position@, *zobrist, NodeKind::Or, df_pn@, child);
            assert(is_child(position@, *zobrist, NodeKind::Or, child));
            assert(child_of(position@, *zobrist, mv) == Some(child));
            lemma_reach_step(root, position@, mv);
        }
        let mut next: PositionWrapper = position.clone();
        let _ = next.try_make_move(mv, zobrist);
        ctx.push(mv);
        let reply: (Value, Option<Move>) = you_at(
            &next,
            zobrist,
            df_pn,
            evals,
            new_alpha,
            new_beta,
            seen,
            ctx,
            Ghost(root),
            Ghost(attacker_white),
        );
        ctx.pop();
        assert(ctx@ =~= old(ctx)@);
        let eval: Value = reply.0.plies_added_unchecked(1);
        if eval.0 < bound.0 {
            proof {
                lemma_added(reply.0, 1);
                lemma_one_more(reply.0);
                lemma_one_ply_more(reply.0);
                if premise(old(evals)@, *zobrist, root, attacker_white) {
                    lemma_node_children_members(position@, *zobrist, NodeKind::Or, child);
                    let all = node_children(position@, *zobrist, NodeKind::Or);
                    let at = choose|at: int| 0 <= at < all.len() && all[at] == child;
                    assert(child_configuration(position@, *zobrist, NodeKind::Or, at) == next@);
                    assert(mates(position@, *zobrist, NodeKind::Or, eval.spec_plies() as nat));
                }
            }
            best = Some(mv);
            bound = eval;
        }
        if alpha.0 >= bound.0 {
            take(seen, key);
            assert(seen@ =~= old(seen)@);
            return (bound, best);
        }
        i += 1;
    }
    take(seen, key);
    assert(seen@ =~= old(seen)@);
    if best.is_none() {
        proof {
            if premise(evals@, *zobrist, root, attacker_white) {
                evals.lemma_view();
                lemma_values_sound_insert(
                    evals@,
                    *zobrist,
                    root,
                    attacker_white,
                    position@,
                    (Value::spec_inf(), None),
                );
            }
        }
        evals.insert(key, (Value::inf(), None));
        return (Value::inf(), None);
    }
    proof {
        if premise(evals@, *zobrist, root, attacker_white) && premise(
            old(evals)@,
            *zobrist,
            root,
            attacker_white,
        ) {
            evals.lemma_view();
            lemma_values_sound_insert(
                evals@,
                *zobrist,
                root,
                attacker_white,
                position@,
                (bound, best),
            );
        }
    }
    evals.insert(key, (bound, best));
    (bound, best)
}

/// The defender's search at a position that moves lead to from `root`.
fn you_at(
    position: &PositionWrapper,
    zobrist: &ZobristTable,
    df_pn: &DfPnTable,
    evals: &mut EvalTable,
    alpha: Value,
    beta: Value,
    seen: &mut BTreeSet<Key>,
    ctx: &mut SearchCtx,
    Ghost(root): Ghost<Configuration>,
    Ghost(attacker_white): Ghost<bool>,
) -> (answer: (Value, Option<Move>))
    requires
        zobrist.wf(),
        position.wf(zobrist),
        df_pn.wf(),
        old(evals).wf(),
        reachable(root, position@),
        position@.white_to_move != attacker_white,
    ensures
        final(evals).wf(),
        final(evals).spec_len() == old(evals).spec_len(),
        final(seen)@ == old(seen)@,
        final(ctx)@ == old(ctx)@,
        you_result(df_pn@, old(evals)@, position@, *zobrist, alpha, beta, old(seen)@) == (Evaluated {
            answer,
            table: final(evals)@,
        }),
        you_shortcut(
            df_pn@,
            old(evals)@,
            old(seen)@,
            position@,
            *zobrist,
            position.spec_zobrist_hash(),
            alpha,
            beta,
        ) matches Some(short) ==> answer == short && final(evals)@ == if shortcut_writes(
            df_pn@,
            old(evals)@,
            position@,
            *zobrist,
            NodeKind::And,
            position.spec_zobrist_hash(),
            alpha,
            beta,
        ) {
            table_insert(old(evals)@, position.spec_zobrist_hash(), short)
        } else {
            old(evals)@
        },
        you_shortcut(
            df_pn@,
            old(evals)@,
            old(seen)@,
            position@,
            *zobrist,
            position.spec_zobrist_hash(),
            alpha,
            beta,
        ) is None ==> answer.0.0 >= alpha.0,
        premise(old(evals)@, *zobrist, root, attacker_white) ==> values_sound(
            final(evals)@,
            *zobrist,
            root,
            attacker_white,
        ) && (answer.0.spec_is_mate() && answer.0.0 < beta.0 ==> mates(
            position@,
            *zobrist,
            NodeKind::And,
            answer.0.spec_plies() as nat,
        )),
    decreases 2 * beta.spec_plies() + 1,
{
    let key: Key = position.zobrist_hash();
    if let Some(pair) = df_pn.fetch(key) {
        if pair.0 == 0 && pair.1 == MAX {
            return (Value::inf(), None);
        }
    }
    if alpha.0 >= beta.0 {
        return (alpha, None);
    }
    if let Some(memo) = evals.fetch(key) {
        let value: Value = if memo.0.0 > alpha.0 {
            memo.0
        } else {
            alpha
        };
        proof {
            if premise(evals@, *zobrist, root, attacker_white) && value.spec_is_mate() {
                lemma_plies_ascend(memo.0, value);
                lemma_mates_later(
                    position@,
                    *zobrist,
                    NodeKind::And,
                    memo.0.spec_plies() as nat,
                    value.spec_plies() as nat,
                );
            }
        }
        return (value, memo.1);
    }
    let children: Vec<(u32, (Move, Key))> = order_children(
        position,
        zobrist,
        NodeKind::And,
        df_pn,
    );
    if children.len() == 0 {
        let pieces: u32 = attacker_pieces(position, zobrist);
        let value: Value = Value::new(0, pieces, 0);
        proof {
            let all = node_children(position@, *zobrist, NodeKind::And);
            if all.len() > 0 {
                lemma_node_children_members(position@, *zobrist, NodeKind::And, all[0]);
                assert(all.contains(all[0]));
                lemma_ordered_children_members(
                    position@,
                    *zobrist,
                    NodeKind::And,
                    df_pn@,
                    all[0],
                );
            }
            assert(mates(position@, *zobrist, NodeKind::And, 0));
            if premise(evals@, *zobrist, root, attacker_white) {
                evals.lemma_view();
                lemma_values_sound_insert(
                    evals@,
                    *zobrist,
                    root,
                    attacker_white,
                    position@,
                    (value, None),
                );
            }
        }
        evals.insert(key, (value, None));
        return (value, None);
    }
    if holds(seen, key) {
        return (Value::inf(), None);
    }
    put(seen, key);
    let mut best: Option<Move> = None;
    let mut bound: Value = alpha;
    let mut i: usize = 0;
    while i < children.len()
        invariant
            zobrist.wf(),
            position.wf(zobrist),
            df_pn.wf(),
            evals.wf(),
            evals.spec_len() == old(evals).spec_len(),
            key == position.spec_zobrist_hash(),
            !old(seen)@.contains(key),
            seen@ == old(seen)@.insert(key),
            ctx@ == old(ctx)@,
            i <= children@.len(),
            children@ == ordered_children(position@, *zobrist, NodeKind::And, df_pn@),
            bound.0 >= alpha.0,
            bound.0 < beta.0,
            you_result(df_pn@, old(evals)@, position@, *zobrist, alpha, beta, old(seen)@)
                == you_rounds(
                df_pn@,
                evals@,
                position@,
                *zobrist,
                alpha,
                beta,
                seen@,
                bound,
                best,
                i as int,
            ),
            you_shortcut(df_pn@, old(evals)@, old(seen)@, position@, *zobrist, key, alpha, beta)
                is None,
            reachable(root, position@),
            position@.white_to_move != attacker_white,
            premise(old(evals)@, *zobrist, root, attacker_white) ==> values_sound(
                evals@,
                *zobrist,
                root,
                attacker_white,
            ) && (i > 0 ==> bound.spec_plies() >= 1) && (forall|k: int|
                0 <= k < i ==> mates(
                    next_configuration(position@, (#[trigger] children@[k]).1.0),
                    *zobrist,
                    NodeKind::Or,
                    (bound.spec_plies() - 1) as nat,
                )),
        decreases children@.len() - i,
    {
        let mv: Move = children[i].1.0;
        let ghost child = children@[i as int].1;
        let ghost before = bound;
        let new_alpha: Value = one_less(bound);
        let new_beta: Value = nearer(beta);
        proof {
            lemma_nearer(beta);
            beta.lemma_fields();
            if beta.spec_is_mate() {
                lemma_one_less(beta);
            }
            lemma_ordered_children_members(position@, *zobrist, NodeKind::And, df_pn@, child);
            assert(is_child(position@, *zobrist, NodeKind::And, child));
            assert(child_of(position@, *zobrist, mv) == Some(child));
            lemma_reach_step(root, position@, mv);
        }
        let mut next: PositionWrapper = position.clone();
        let _ = next.try_make_move(mv, zobrist);
        ctx.push(mv);
        let reply: (Value, Option<Move>) = me_at(
            &next,
            zobrist,
            df_pn,
            evals,
            new_alpha,
            new_beta,
            seen,
            ctx,
            Ghost(root),
            Ghost(attacker_white),
        );
        ctx.pop();
        assert(ctx@ =~= old(ctx)@);
        let eval: Value = reply.0.plies_added_unchecked(1);
        if eval.0 > bound.0 {
            best = Some(mv);
            bound = eval;
        }
        if bound.0 >= beta.0 {
            take(seen, key);
            assert(seen@ =~= old(seen)@);
            return (bound, best);
        }
        proof {
            if premise(old(evals)@, *zobrist, root, attacker_white) {
                lemma_added(reply.0, 1);
                lemma_nearer(beta);
                lemma_one_more(reply.0);
                lemma_one_ply_more(reply.0);
                lemma_plies_ascend(eval, bound);
                lemma_plies_ascend(eval, beta);
                lemma_plies_ascend(before, bound);
                if beta.spec_is_mate() {
                    lemma_one_ply_less(beta);
                }
                assert(next@ == next_configuration(position@, mv));
                assert(mates(next@, *zobrist, NodeKind::Or, reply.0.spec_plies() as nat));
                assert forall|k: int| 0 <= k < i + 1 implies mates(
                    next_configuration(position@, (#[trigger] children@[k]).1.0),
                    *zobrist,
                    NodeKind::Or,
                    (bound.spec_plies() - 1) as nat,
                ) by {
                    if k < i {
                        lemma_mates_later(
                            next_configuration(position@, children@[k].1.0),
                            *zobrist,
                            NodeKind::Or,
                            (before.spec_plies() - 1) as nat,
                            (bound.spec_plies() - 1) as nat,
                        );
                    } else {
                        lemma_mates_later(
                            next@,
                            *zobrist,
                            NodeKind::Or,
                            reply.0.spec_plies() as nat,
                            (bound.spec_plies() - 1) as nat,
                        );
                    }
                }
            }
        }
        i += 1;
    }
    proof {
        if premise(old(evals)@, *zobrist, root, attacker_white) {
            let all = node_children(position@, *zobrist, NodeKind::And);
            assert forall|at: int| 0 <= at < all.len() implies mates(
                #[trigger] child_configuration(position@, *zobrist, NodeKind::And, at),
                *zobrist,
                NodeKind::Or,
                (bound.spec_plies() - 1) as nat,
            ) by {
                lemma_node_children_members(position@, *zobrist, NodeKind::And, all[at]);
                assert(all.contains(all[at]));
                lemma_ordered_children_members(
                    position@,
                    *zobrist,
                    NodeKind::And,
                    df_pn@,
                    all[at],
                );
                let k = choose|k: int|
                    0 <= k < children@.len() && (#[trigger] children@[k]).1 == all[at];
                assert(next_configuration(position@, children@[k].1.0) == child_configuration(
                    position@,
                    *zobrist,
                    NodeKind::And,
                    at,
                ));
            }
            assert(mates(position@, *zobrist, NodeKind::And, bound.spec_plies() as nat));
            evals.lemma_view();
            lemma_values_sound_insert(
                evals@,
                *zobrist,
                root,
                attacker_white,
                position@,
                (bound, best),
            );
        }
    }
    evals.insert(key, (bound, best));
    take(seen, key);
    assert(seen@ =~= old(seen)@);
    (bound, best)
}

} // verus!
