use crate::df_pn::mate::{
    collision_free, forced_mate, lemma_denials_empty, lemma_mates_later, lemma_sound_empty, mates,
    next_configuration,
};
use crate::df_pn::model::{df_pn_result, Proved};
use crate::eval::model::{me_result, you_result, Evaluated};
use crate::eval::search::{me_shortcut, search_result};
use crate::eval::mate::lemma_values_sound_empty;
use crate::df_pn::search::{df_pn, look_up, NodeKind, MAX};
use crate::eval::search::{
    alpha_beta_me, alpha_beta_you, search as evaluate, EvalTable, SearchCtx, ROOT_PLIES,
};
use crate::eval::value::Value;
use crate::position_wrapper::{
    acceptable, configuration_of, evasions_of, piles_in_limit, played, Configuration, Key, Move,
    PositionWrapper,
};
use crate::tt::{table_fetch, DfPnTable};
use crate::zobrist::ZobristTable;
use shogi_core::PartialPosition;
use std::collections::BTreeSet;
use vstd::prelude::*;

verus! {

/// The number of buckets of each of the two tables of a search.
pub const TABLE_SIZE: usize = 65536;

/// What the search found.
#[derive(Clone, Copy, Debug, PartialEq, Eq, Structural)]
pub enum Resolution {
    /// The side to move mates.
    Mate,
    /// The side to move does not mate.
    NoMate,
    /// The prover did not decide.
    Unknown,
    /// The position cannot be searched.
    Invalid,
}

/// A value as three numbers.
#[derive(Clone, Copy, Debug, PartialEq, Eq, Structural)]
pub struct Eval {
    pub num_moves: i32,
    pub pieces: i32,
    pub futile: i32,
}

impl Eval {
    /// The three numbers of a value.
    pub open spec fn of(value: Value) -> Eval {
        Eval {
            num_moves: value.spec_plies() as i32,
            pieces: value.spec_pieces() as i32,
            futile: value.spec_futile() as i32,
        }
    }
}

impl vstd::std_specs::convert::FromSpecImpl<Value> for Eval {
    open spec fn obeys_from_spec() -> bool {
        true
    }

    open spec fn from_spec(value: Value) -> Eval {
        Eval::of(value)
    }
}

impl From<Value> for Eval {
    fn from(value: Value) -> (eval: Eval) {
        Eval {
            num_moves: value.plies() as i32,
            pieces: value.pieces() as i32,
            futile: value.futile() as i32,
        }
    }
}

/// A node of the tree of branches: the moves that lead to it from the root,
/// the moves from it that are kept, and the value of the node.
#[derive(Clone, Debug)]
pub struct BranchEntry {
    pub moves: Vec<Move>,
    pub possible_next_moves: Vec<Move>,
    pub eval: Option<Eval>,
}

/// The nodes that a search kept.
pub type Branches = Vec<BranchEntry>;

/// The answer of a search that ran.
#[derive(Clone, Debug)]
pub struct OkType {
    pub resolution: Resolution,
    pub branches: Branches,
}

/// The answer of a search that could not run.
#[derive(Clone, Debug)]
pub struct ErrType {
    pub resolution: Resolution,
    pub reason: String,
}

/// The answer of a search.
#[derive(Debug)]
pub struct Answer {
    pub inner: Result<OkType, ErrType>,
}

/// How a search runs.
#[derive(Clone, Debug)]
pub struct Options {
    pub verbose: bool,
}

/// A list of moves with `best` brought to its front: the list without the
/// first `best` in it, behind `best`; the list itself where there is no
/// `best`.
pub open spec fn pivoted(moves: Seq<Move>, best: Option<Move>) -> Seq<Move> {
    match best {
        Some(mv) => {
            let at = moves.index_of_first(mv);
            match at {
                Some(i) => seq![mv] + moves.remove(i),
                None => seq![mv] + moves,
            }
        },
        None => moves,
    }
}

/// Brings the best move to the front of a list of moves.
pub fn pivot(moves: Vec<Move>, best: Option<Move>) -> (ordered: Vec<Move>)
    ensures
        ordered@ == pivoted(moves@, best),
{
    let ghost before = moves@;
    let mut list: Vec<Move> = moves;
    match best {
        Some(mv) => {
            let mut i: usize = 0;
            while i < list.len()
                invariant
                    best == Some(mv),
                    before == moves@,
                    list@ == before,
                    i <= list@.len(),
                    forall|k: int| 0 <= k < i ==> list@[k] != mv,
                decreases list@.len() - i,
            {
                if list[i] == mv {
                    proof {
                        before.index_of_first_ensures(mv);
                        let found = before.index_of_first(mv);
                        assert(found is Some);
                        assert(found.unwrap() == i);
                    }
                    let _ = list.remove(i);
                    list.insert(0, mv);
                    assert(list@ =~= seq![mv] + before.remove(i as int));
                    return list;
                }
                i += 1;
            }
            proof {
                before.index_of_first_ensures(mv);
                assert(before.index_of_first(mv) is None);
            }
            list.insert(0, mv);
            assert(list@ =~= seq![mv] + before);
            list
        },
        None => list,
    }
}

/// A copy of a list of moves.
pub fn copy_moves(moves: &Vec<Move>) -> (copy: Vec<Move>)
    ensures
        copy@ == moves@,
{
    let mut copy: Vec<Move> = Vec::new();
    let mut i: usize = 0;
    while i < moves.len()
        invariant
            i <= moves@.len(),
            copy@ == moves@.take(i as int),
        decreases moves@.len() - i,
    {
        copy.push(moves[i]);
        assert(moves@.take(i + 1) =~= moves@.take(i as int).push(moves@[i as int]));
        i += 1;
    }
    assert(moves@.take(moves@.len() as int) =~= moves@);
    copy
}

/// A node of the tree of branches, its lists as what they hold.
pub ghost struct BranchView {
    pub moves: Seq<Move>,
    pub possible_next_moves: Seq<Move>,
    pub eval: Option<Eval>,
}

/// What a recorded node holds.
pub open spec fn entry_view(entry: BranchEntry) -> BranchView {
    BranchView {
        moves: entry.moves@,
        possible_next_moves: entry.possible_next_moves@,
        eval: entry.eval,
    }
}

/// What the recorded nodes hold, in the order in which they were recorded.
pub open spec fn memo_view(memo: Seq<BranchEntry>) -> Seq<BranchView> {
    Seq::new(memo.len(), |i: int| entry_view(memo[i]))
}

/// What walking the branches below a node leaves behind: whether the node
/// is kept, the two tables, the recorded nodes and the budget.
pub ghost struct Branched {
    pub worth: bool,
    pub df: Seq<Seq<(u64, (u32, u32))>>,
    pub evals: Seq<Seq<(u64, (Value, Option<Move>))>>,
    pub memo: Seq<BranchView>,
    pub budget: nat,
}

/// What following the moves of a node leaves behind: the two tables, the
/// recorded nodes, the budget, and the moves whose nodes are kept.
pub ghost struct Followed {
    pub df: Seq<Seq<(u64, (u32, u32))>>,
    pub evals: Seq<Seq<(u64, (Value, Option<Move>))>>,
    pub memo: Seq<BranchView>,
    pub budget: nat,
    pub kept: Seq<Move>,
}

/// A node recorded behind the nodes below it: with the moves that lead to
/// it, the moves from it whose nodes are kept, and its value.
pub open spec fn recorded(followed: Followed, current: Seq<Move>, value: Value) -> Branched {
    Branched {
        worth: true,
        df: followed.df,
        evals: followed.evals,
        memo: followed.memo.push(
            BranchView {
                moves: current,
                possible_next_moves: followed.kept,
                eval: Some(Eval::of(value)),
            },
        ),
        budget: followed.budget,
    }
}

/// What walking the branches below the node that `current` leads to gives.
/// A node deeper than the plies of `opt` is not kept. With the defender to
/// move the prover runs first, and the node is not kept unless its pair is
/// `(MAX, 0)`. Then the evaluator answers for the side to move, between the
/// value that is better than every mate and `opt` with one ply more for each
/// move of `current`. With the attacker to move the node is not kept where
/// the evaluator has no move, and else its one move is followed; with the
/// defender to move every legal move is followed, the evaluator's first.
/// The node is recorded behind the nodes below it.
pub open spec fn branches_result(
    df: Seq<Seq<(u64, (u32, u32))>>,
    evals: Seq<Seq<(u64, (Value, Option<Move>))>>,
    c: Configuration,
    zobrist: ZobristTable,
    opt: Value,
    memo: Seq<BranchView>,
    current: Seq<Move>,
    budget: nat,
) -> Branched
    decreases opt.spec_plies() + 1 - current.len(), 1nat, 0nat,
{
    let turn = current.len() as int;
    let attacker = turn % 2 == 0;
    let proved = if attacker {
        Proved { pair: (MAX, 0u32), table: df, budget }
    } else {
        df_pn_result(df, c, zobrist, budget)
    };
    let beta = opt.spec_plies_added(turn);
    let found = if attacker {
        me_result(proved.table, evals, c, zobrist, Value::spec_zero(), beta, Set::<Key>::empty())
    } else {
        you_result(proved.table, evals, c, zobrist, Value::spec_zero(), beta, Set::<Key>::empty())
    };
    if turn > opt.spec_plies() {
        Branched { worth: false, df, evals, memo, budget }
    } else if proved.pair != (MAX, 0u32) {
        Branched { worth: false, df: proved.table, evals, memo, budget: proved.budget }
    } else if attacker && found.answer.1 is None {
        Branched {
            worth: false,
            df: proved.table,
            evals: found.table,
            memo,
            budget: proved.budget,
        }
    } else {
        let moves = if attacker {
            seq![found.answer.1.unwrap()]
        } else {
            pivoted(evasions_of(c.cells, c.hands, c.white_to_move, c.kings), found.answer.1)
        };
        recorded(
            follow_result(
                proved.table,
                found.table,
                c,
                zobrist,
                opt,
                memo,
                current,
                proved.budget,
                moves,
                0,
                Seq::<Move>::empty(),
            ),
            current,
            found.answer.0,
        )
    }
}

/// What following the moves of a node from the move `i` on gives. A move
/// that the position accepts leads to a node whose branches are walked, and
/// is kept where that node is; a move that the position does not accept is
/// passed over.
pub open spec fn follow_result(
    df: Seq<Seq<(u64, (u32, u32))>>,
    evals: Seq<Seq<(u64, (Value, Option<Move>))>>,
    c: Configuration,
    zobrist: ZobristTable,
    opt: Value,
    memo: Seq<BranchView>,
    current: Seq<Move>,
    budget: nat,
    moves: Seq<Move>,
    i: int,
    kept: Seq<Move>,
) -> Followed
    decreases opt.spec_plies() + 1 - current.len(), 0nat, moves.len() - i,
{
    if i < 0 || i >= moves.len() {
        Followed { df, evals, memo, budget, kept }
    } else if acceptable(c, moves[i]) && current.len() <= opt.spec_plies() {
        let below = branches_result(
            df,
            evals,
            next_configuration(c, moves[i]),
            zobrist,
            opt,
            memo,
            current.push(moves[i]),
            budget,
        );
        follow_result(
            below.df,
            below.evals,
            c,
            zobrist,
            opt,
            below.memo,
            current,
            below.budget,
            moves,
            i + 1,
            if below.worth {
                kept.push(moves[i])
            } else {
                kept
            },
        )
    } else {
        follow_result(df, evals, c, zobrist, opt, memo, current, budget, moves, i + 1, kept)
    }
}

/// Walks the tree of branches below the node that `current` leads to and
/// records the nodes that are kept; says whether this node is one of them.
/// A node deeper than the plies of `opt` is not kept, nor a node with the
/// defender to move of which the prover does not say that the defender is
/// lost, nor a node with the attacker to move where the evaluator has no
/// move. At a node with the attacker to move only the best move is followed,
/// at a node with the defender to move every legal move, the best one first.
pub fn find_branches(
    df_tbl: &mut DfPnTable,
    evals: &mut EvalTable,
    position: &PositionWrapper,
    zobrist: &ZobristTable,
    opt: Value,
    opts: &Options,
    memo: &mut Vec<BranchEntry>,
    current: Vec<Move>,
    budget: &mut u64,
) -> (worth: bool)
    requires
        old(df_tbl).wf(),
        old(evals).wf(),
        zobrist.wf(),
        position.wf(zobrist),
    ensures
        final(df_tbl).wf(),
        final(df_tbl).spec_len() == old(df_tbl).spec_len(),
        final(evals).wf(),
        final(evals).spec_len() == old(evals).spec_len(),
        *final(budget) <= *old(budget),
        old(memo)@.is_prefix_of(final(memo)@),
        !worth ==> final(memo)@ == old(memo)@,
        current@.len() > opt.spec_plies() ==> !worth,
        current@.len() <= opt.spec_plies() && current@.len() % 2 == 0 && (me_shortcut(
            old(df_tbl)@,
            old(evals)@,
            Set::<Key>::empty(),
            position@,
            *zobrist,
            position.spec_zobrist_hash(),
            opt.spec_plies_added(current@.len() as int),
        ) matches Some(short) && short.1 is Some) ==> worth,
        worth ==> final(memo)@.len() > old(memo)@.len() && final(memo)@.last().moves@ == current@
            && final(memo)@.last().eval is Some,
        forall|i: int|
            old(memo)@.len() <= i < final(memo)@.len() ==> current@.is_prefix_of(
                (#[trigger] final(memo)@[i]).moves@,
            ) && final(memo)@[i].eval is Some,
        branches_result(
            old(df_tbl)@,
            old(evals)@,
            position@,
            *zobrist,
            opt,
            memo_view(old(memo)@),
            current@,
            *old(budget) as nat,
        ) == (Branched {
            worth,
            df: final(df_tbl)@,
            evals: final(evals)@,
            memo: memo_view(final(memo)@),
            budget: *final(budget) as nat,
        }),
    decreases opt.spec_plies() + 1 - current@.len(), 1nat,
{
    let turn: usize = current.len();
    if turn > opt.plies() as usize {
        return false;
    }
    let attacker: bool = turn % 2 == 0;
    if !attacker {
        let pair: (u32, u32) = df_pn(df_tbl, position, zobrist, budget);
        if !(pair.0 == MAX && pair.1 == 0) {
            return false;
        }
    }
    proof {
        opt.lemma_fields();
    }
    let beta: Value = opt.plies_added_unchecked(turn as i32);
    let mut seen: BTreeSet<Key> = BTreeSet::new();
    let mut ctx: SearchCtx = SearchCtx::new();
    let answer: (Value, Option<Move>) = if attacker {
        alpha_beta_me(position, zobrist, df_tbl, evals, Value::zero(), beta, &mut seen, &mut ctx)
    } else {
        alpha_beta_you(position, zobrist, df_tbl, evals, Value::zero(), beta, &mut seen, &mut ctx)
    };
    let all_moves: Vec<Move> = if attacker {
        match answer.1 {
            Some(mv) => vec![mv],
            None => {
                return false;
            },
        }
    } else {
        pivot(position.all_evasions(), answer.1)
    };
    let possible_next_moves: Vec<Move> = follow_moves(
        df_tbl,
        evals,
        position,
        zobrist,
        opt,
        opts,
        memo,
        &current,
        budget,
        &all_moves,
    );
    let ghost before = memo@;
    let ghost kept = possible_next_moves@;
    let ghost led = current@;
    let eval: Eval = Eval::from(answer.0);
    memo.push(BranchEntry { moves: current, possible_next_moves, eval: Some(eval) });
    proof {
        assert forall|k: int| old(memo)@.len() <= k < memo@.len() implies led.is_prefix_of(
            (#[trigger] memo@[k]).moves@,
        ) && memo@[k].eval is Some by {
            if k < before.len() {
                assert(memo@[k] == before[k]);
            }
        }
        assert(eval == Eval::of(answer.0));
        assert(memo_view(memo@) =~= memo_view(before).push(
            BranchView { moves: led, possible_next_moves: kept, eval: Some(Eval::of(answer.0)) },
        ));
        assert(attacker == (led.len() as int % 2 == 0));
        assert(beta == opt.spec_plies_added(led.len() as int));
        if !attacker {
            assert(all_moves@ == pivoted(
                evasions_of(
                    position@.cells,
                    position@.hands,
                    position@.white_to_move,
                    position@.kings,
                ),
                answer.1,
            ));
        } else {
            assert(all_moves@ =~= seq![answer.1.unwrap()]);
        }
    }
    true
}

/// Follows the moves of a node in turn: walks the branches below each move
/// that the position accepts, and gives the moves whose nodes are kept, in
/// the order of the list.
pub fn follow_moves(
    df_tbl: &mut DfPnTable,
    evals: &mut EvalTable,
    position: &PositionWrapper,
    zobrist: &ZobristTable,
    opt: Value,
    opts: &Options,
    memo: &mut Vec<BranchEntry>,
    current: &Vec<Move>,
    budget: &mut u64,
    all_moves: &Vec<Move>,
) -> (kept: Vec<Move>)
    requires
        old(df_tbl).wf(),
        old(evals).wf(),
        zobrist.wf(),
        position.wf(zobrist),
        current@.len() <= opt.spec_plies(),
    ensures
        final(df_tbl).wf(),
        final(df_tbl).spec_len() == old(df_tbl).spec_len(),
        final(evals).wf(),
        final(evals).spec_len() == old(evals).spec_len(),
        *final(budget) <= *old(budget),
        old(memo)@.is_prefix_of(final(memo)@),
        forall|i: int|
            old(memo)@.len() <= i < final(memo)@.len() ==> current@.is_prefix_of(
                (#[trigger] final(memo)@[i]).moves@,
            ) && final(memo)@[i].eval is Some,
        follow_result(
            old(df_tbl)@,
            old(evals)@,
            position@,
            *zobrist,
            opt,
            memo_view(old(memo)@),
            current@,
            *old(budget) as nat,
            all_moves@,
            0,
            Seq::<Move>::empty(),
        ) == (Followed {
            df: final(df_tbl)@,
            evals: final(evals)@,
            memo: memo_view(final(memo)@),
            budget: *final(budget) as nat,
            kept: kept@,
        }),
    decreases opt.spec_plies() + 1 - current@.len(), 0nat,
{
    let mut possible_next_moves: Vec<Move> = Vec::new();
    let mut i: usize = 0;
    while i < all_moves.len()
        invariant
            df_tbl.wf(),
            df_tbl.spec_len() == old(df_tbl).spec_len(),
            evals.wf(),
            evals.spec_len() == old(evals).spec_len(),
            zobrist.wf(),
            position.wf(zobrist),
            current@.len() <= opt.spec_plies(),
            *budget <= *old(budget),
            i <= all_moves@.len(),
            old(memo)@.is_prefix_of(memo@),
            forall|k: int|
                old(memo)@.len() <= k < memo@.len() ==> current@.is_prefix_of(
                    (#[trigger] memo@[k]).moves@,
                ) && memo@[k].eval is Some,
            follow_result(
                old(df_tbl)@,
                old(evals)@,
                position@,
                *zobrist,
                opt,
                memo_view(old(memo)@),
                current@,
                *old(budget) as nat,
                all_moves@,
                0,
                Seq::<Move>::empty(),
            ) == follow_result(
                df_tbl@,
                evals@,
                position@,
                *zobrist,
                opt,
                memo_view(memo@),
                current@,
                *budget as nat,
                all_moves@,
                i as int,
                possible_next_moves@,
            ),
        decreases all_moves@.len() - i,
    {
        let mv: Move = all_moves[i];
        let mut next: Vec<Move> = copy_moves(current);
        next.push(mv);
        let mut next_position: PositionWrapper = position.clone();
        if next_position.try_make_move(mv, zobrist) {
            let ghost before = memo@;
            if find_branches(
                df_tbl,
                evals,
                &next_position,
                zobrist,
                opt,
                opts,
                memo,
                next,
                budget,
            ) {
                possible_next_moves.push(mv);
            }
            proof {
                assert forall|k: int| old(memo)@.len() <= k < memo@.len() implies current@.is_prefix_of(
                    (#[trigger] memo@[k]).moves@,
                ) && memo@[k].eval is Some by {
                    if k < before.len() {
                        assert(memo@[k] == before[k]);
                    } else {
                        assert(current@.push(mv).is_prefix_of(memo@[k].moves@));
                        assert(current@ =~= current@.push(mv).take(current@.len() as int));
                    }
                }
            }
        }
        i += 1;
    }
    possible_next_moves
}

/// How many more moves a sequence can get while its bound is `beta`: one
/// for each ply of the bound and one more, none where the bound is no mate.
pub open spec fn moves_left(beta: Value) -> int {
    if beta.spec_is_mate() {
        beta.spec_plies() + 1
    } else {
        0
    }
}

/// What walking a mate sequence leaves behind: the moves, and the
/// evaluator's table as it is afterwards.
pub ghost struct Sequenced {
    pub moves: Seq<Move>,
    pub table: Seq<Seq<(u64, (Value, Option<Move>))>>,
}

/// The mate sequence from a position on, behind the moves `so_far`. While
/// the bound is a mate, the evaluator answers for the side to move: the
/// attacker's search or the defender's, between the value that is better
/// than every mate and the bound, with nothing on the path. Its move is made
/// and joins the sequence, the other side is to move, and the bound loses a
/// ply. The sequence ends where the evaluator gives no move, or a move that
/// the position does not accept.
pub open spec fn sequence_result(
    df: Seq<Seq<(u64, (u32, u32))>>,
    evals: Seq<Seq<(u64, (Value, Option<Move>))>>,
    c: Configuration,
    zobrist: ZobristTable,
    attacker: bool,
    beta: Value,
    so_far: Seq<Move>,
) -> Sequenced
    decreases moves_left(beta),
{
    if !beta.spec_is_mate() {
        Sequenced { moves: so_far, table: evals }
    } else {
        let found = if attacker {
            me_result(df, evals, c, zobrist, Value::spec_zero(), beta, Set::<Key>::empty())
        } else {
            you_result(df, evals, c, zobrist, Value::spec_zero(), beta, Set::<Key>::empty())
        };
        let near = beta.spec_plies_added(-1);
        match found.answer.1 {
            Some(mv) => if acceptable(c, mv) && moves_left(near) < moves_left(beta) {
                sequence_result(
                    df,
                    found.table,
                    next_configuration(c, mv),
                    zobrist,
                    !attacker,
                    near,
                    so_far.push(mv),
                )
            } else {
                Sequenced { moves: so_far, table: found.table }
            },
            None => Sequenced { moves: so_far, table: found.table },
        }
    }
}

/// A table of `size` buckets that holds nothing.
pub open spec fn empty_table<V>(size: nat) -> Seq<Seq<(u64, V)>> {
    Seq::new(size, |b: int| Seq::<(u64, V)>::empty())
}

/// What solving a position with fresh tables and these hashing words gives.
/// The prover runs with the largest budget: where it says that there is no
/// mate, nothing. Else the evaluator runs at the root: where its value is no
/// mate, nothing; else the mate sequence for that value.
pub open spec fn solve_result(c: Configuration, zobrist: ZobristTable) -> Option<Seq<Move>> {
    let proved = df_pn_result(
        empty_table::<(u32, u32)>(TABLE_SIZE as nat),
        c,
        zobrist,
        u64::MAX as nat,
    );
    let found = search_result(
        proved.table,
        empty_table::<(Value, Option<Move>)>(TABLE_SIZE as nat),
        c,
        zobrist,
    );
    if proved.pair == (MAX, 0u32) || !found.answer.0.spec_is_mate() {
        None
    } else {
        Some(
            sequence_result(
                proved.table,
                found.table,
                c,
                zobrist,
                true,
                found.answer.0.spec_plies_added(1),
                Seq::<Move>::empty(),
            ).moves,
        )
    }
}

/// The mate sequence below a position whose best value is `opt`: the best
/// move of the attacker, the best move of the defender, and so on in turn,
/// as the evaluator gives them with a bound that starts one ply above `opt`
/// and loses a ply with every move, until it gives no move.
pub fn find_mate_sequence(
    df_tbl: &DfPnTable,
    evals: &mut EvalTable,
    position: &PartialPosition,
    zobrist: &ZobristTable,
    opt: Value,
) -> (sequence: Vec<Move>)
    requires
        df_tbl.wf(),
        old(evals).wf(),
        zobrist.wf(),
        piles_in_limit(configuration_of(*position).hands),
    ensures
        final(evals).wf(),
        final(evals).spec_len() == old(evals).spec_len(),
        played(configuration_of(*position), sequence@) is Some,
        sequence@.len() <= moves_left(opt.spec_plies_added(1)),
        sequence_result(
            df_tbl@,
            old(evals)@,
            configuration_of(*position),
            *zobrist,
            true,
            opt.spec_plies_added(1),
            Seq::<Move>::empty(),
        ) == (Sequenced { moves: sequence@, table: final(evals)@ }),
{
    let mut attacker: bool = true;
    let mut beta: Value = opt.plies_added_unchecked(1);
    let mut current: PositionWrapper = PositionWrapper::wrap(position, zobrist);
    let mut sequence: Vec<Move> = Vec::new();
    let mut ctx: SearchCtx = SearchCtx::new();
    let ghost first = beta;
    while beta.is_mate()
        invariant
            df_tbl.wf(),
            evals.wf(),
            evals.spec_len() == old(evals).spec_len(),
            zobrist.wf(),
            current.wf(zobrist),
            played(configuration_of(*position), sequence@) == Some(current@),
            first == opt.spec_plies_added(1),
            sequence@.len() + moves_left(beta) <= moves_left(first),
            sequence_result(
                df_tbl@,
                old(evals)@,
                configuration_of(*position),
                *zobrist,
                true,
                first,
                Seq::<Move>::empty(),
            ) == sequence_result(
                df_tbl@,
                evals@,
                current@,
                *zobrist,
                attacker,
                beta,
                sequence@,
            ),
        decreases moves_left(beta),
    {
        let mut seen: BTreeSet<Key> = BTreeSet::new();
        let answer: (Value, Option<Move>) = if attacker {
            alpha_beta_me(&current, zobrist, df_tbl, evals, Value::zero(), beta, &mut seen, &mut ctx)
        } else {
            alpha_beta_you(
                &current,
                zobrist,
                df_tbl,
                evals,
                Value::zero(),
                beta,
                &mut seen,
                &mut ctx,
            )
        };
        let mv: Move = match answer.1 {
            Some(mv) => mv,
            None => {
                return sequence;
            },
        };
        let ghost before = current@;
        let ghost so_far = sequence@;
        if !current.try_make_move(mv, zobrist) {
            return sequence;
        }
        sequence.push(mv);
        proof {
            assert(sequence@.drop_last() =~= so_far);
            beta.lemma_fields();
            if beta.spec_plies() >= 1 {
                Value::lemma_pack(
                    beta.spec_plies() - 1,
                    beta.spec_pieces() as int,
                    beta.spec_futile() as int,
                );
                beta.spec_plies_added(-1).lemma_fields();
            }
        }
        attacker = !attacker;
        beta = beta.plies_added_unchecked(-1);
    }
    sequence
}

/// Solves a position with tables of its own: the mate sequence, or `None`
/// where the prover says that there is no mate or the evaluator finds none
/// within its plies.
pub fn solve_myself(position: &PartialPosition, opts: &Options) -> (solution: Option<Vec<Move>>)
    requires
        piles_in_limit(configuration_of(*position).hands),
    ensures
        solution matches Some(moves) ==> played(configuration_of(*position), moves@) is Some
            && moves@.len() <= ROOT_PLIES + 2,
        exists|zobrist: ZobristTable| #[trigger]
            zobrist.is_seeded() && zobrist.wf() && match solution {
                Some(moves) => solve_result(configuration_of(*position), zobrist) == Some(moves@),
                None => solve_result(configuration_of(*position), zobrist) is None,
            },
{
    let zobrist: ZobristTable = ZobristTable::new();
    assert(TABLE_SIZE >= 2 && (TABLE_SIZE as u64) & ((TABLE_SIZE - 1) as u64) == 0)
        by (bit_vector);
    let mut df_tbl: DfPnTable = DfPnTable::new(TABLE_SIZE);
    let mut evals: EvalTable = EvalTable::new(TABLE_SIZE);
    let mut budget: u64 = u64::MAX;
    let wrapped: PositionWrapper = PositionWrapper::wrap(position, &zobrist);
    let mate_result: (u32, u32) = df_pn(&mut df_tbl, &wrapped, &zobrist, &mut budget);
    if mate_result.0 == MAX && mate_result.1 == 0 {
        assert(zobrist.is_seeded() && zobrist.wf() && solve_result(
            configuration_of(*position),
            zobrist,
        ) is None);
        return None;
    }
    let result: Value = evaluate(position, &zobrist, &df_tbl, &mut evals);
    if !result.is_mate() {
        assert(zobrist.is_seeded() && zobrist.wf() && solve_result(
            configuration_of(*position),
            zobrist,
        ) is None);
        return None;
    }
    proof {
        result.lemma_fields();
        result.lemma_order(Value::pack(12, 0, 0));
        Value::lemma_pack(12, 0, 0);
        Value::lemma_pack(
            result.spec_plies() + 1,
            result.spec_pieces() as int,
            result.spec_futile() as int,
        );
        result.spec_plies_added(1).lemma_fields();
    }
    let sequence: Vec<Move> = find_mate_sequence(&df_tbl, &mut evals, position, &zobrist, result);
    assert(zobrist.is_seeded() && zobrist.wf() && solve_result(
        configuration_of(*position),
        zobrist,
    ) == Some(sequence@));
    Some(sequence)
}

/// What a search answers for a position that it can search: the resolution,
/// and what the recorded nodes hold.
pub ghost struct Searched {
    pub resolution: Resolution,
    pub branches: Seq<BranchView>,
}

/// What a search answers with fresh tables, these hashing words and this
/// budget for the prover. The prover's pair `(MAX, 0)` gives `NoMate`, and
/// any pair but `(0, MAX)` gives `Unknown`. With the pair `(0, MAX)` the
/// evaluator runs at the root: a value that is no mate gives `NoMate`, and a
/// value that is a mate gives `Mate` with the nodes that walking the
/// branches from the root records for that value. Only `Mate` has branches.
pub open spec fn search_answer(c: Configuration, zobrist: ZobristTable, budget: nat) -> Searched {
    let proved = df_pn_result(empty_table::<(u32, u32)>(TABLE_SIZE as nat), c, zobrist, budget);
    let found = search_result(
        proved.table,
        empty_table::<(Value, Option<Move>)>(TABLE_SIZE as nat),
        c,
        zobrist,
    );
    let none = Seq::<BranchView>::empty();
    if proved.pair == (MAX, 0u32) {
        Searched { resolution: Resolution::NoMate, branches: none }
    } else if proved.pair != (0u32, MAX) {
        Searched { resolution: Resolution::Unknown, branches: none }
    } else if !found.answer.0.spec_is_mate() {
        Searched { resolution: Resolution::NoMate, branches: none }
    } else {
        Searched {
            resolution: Resolution::Mate,
            branches: branches_result(
                proved.table,
                found.table,
                c,
                zobrist,
                found.answer.0,
                none,
                Seq::<Move>::empty(),
                proved.budget,
            ).memo,
        }
    }
}

/// Whether the prover, from an empty table and with this budget, gives a
/// position a disproof number of zero: the pair `(MAX, 0)`, by which a
/// search answers `NoMate`, is such a pair.
pub open spec fn prover_denies(c: Configuration, zobrist: ZobristTable, budget: nat) -> bool {
    df_pn_result(empty_table::<(u32, u32)>(TABLE_SIZE as nat), c, zobrist, budget).pair.1 == 0
}

/// Runs the prover on a position with a table that holds nothing yet. From
/// such a table a proof number of zero is a forced mate where no two
/// positions have the same hash, and a disproof number of zero is no forced
/// mate.
pub fn prove_afresh(
    df_tbl: &mut DfPnTable,
    position: &PositionWrapper,
    zobrist: &ZobristTable,
    budget: &mut u64,
) -> (pair: (u32, u32))
    requires
        old(df_tbl).wf(),
        forall|key: u64| old(df_tbl).spec_fetch(key) is None,
        zobrist.wf(),
        position.wf(zobrist),
    ensures
        final(df_tbl).wf(),
        final(df_tbl).spec_len() == old(df_tbl).spec_len(),
        *final(budget) <= *old(budget),
        pair == look_up(final(df_tbl)@, position.spec_zobrist_hash()),
        df_pn_result(old(df_tbl)@, position@, *zobrist, *old(budget) as nat) == (Proved {
            pair,
            table: final(df_tbl)@,
            budget: *final(budget) as nat,
        }),
        pair.0 == 0 && collision_free(*zobrist, position@) ==> forced_mate(
            position@,
            *zobrist,
            NodeKind::Or,
        ),
        pair.1 == 0 && collision_free(*zobrist, position@) ==> !forced_mate(
            position@,
            *zobrist,
            NodeKind::Or,
        ),
{
    proof {
        assert forall|key: u64| table_fetch(df_tbl@, key) is None by {
            assert(df_tbl.spec_fetch(key) is None);
        }
        lemma_sound_empty(df_tbl@, *zobrist, position@, position@.white_to_move);
        lemma_denials_empty(df_tbl@, *zobrist, position@, position@.white_to_move);
    }
    df_pn(df_tbl, position, zobrist, budget)
}

/// Whether an answer for a position that can be searched is what a search
/// answers with these hashing words and this budget: its resolution, and
/// what its branches hold.
pub open spec fn answers_as(
    answer: Answer,
    c: Configuration,
    zobrist: ZobristTable,
    budget: nat,
) -> bool {
    answer.inner matches Ok(ok) ==> ok.resolution == search_answer(c, zobrist, budget).resolution
        && memo_view(ok.branches@) == search_answer(c, zobrist, budget).branches
}

/// Decides whether the side to move mates, and if it does, gives the tree of
/// branches of a shortest mate. The prover runs first: where it says that
/// there is no mate, the answer is `NoMate`, and where it does not decide,
/// `Unknown`. Else the evaluator looks for the best mate within twelve
/// plies: the answer is `Mate` with the nodes that are kept, the root last,
/// or `NoMate` where the evaluator finds none. A position with more than
/// eighteen pieces in one pile of a hand is `Invalid`. The time limit is not
/// looked at. Where no two positions that can be reached have the same hash,
/// `Mate` is only said of a position in which the side to move forces the
/// mate, and forces it within twelve plies, and a disproof number of zero
/// from the prover is only given to a position in which the side to move
/// does not force the mate.
/// `budget` bounds the number of times that the prover goes into a child.
#[verifier::rlimit(50)]
pub fn search_within(position: &PartialPosition, zobrist: &ZobristTable, budget: u64) -> (answer: Answer)
    requires
        zobrist.wf(),
    ensures
        answer.inner is Err <==> !piles_in_limit(configuration_of(*position).hands),
        answer.inner matches Err(e) ==> e.resolution == Resolution::Invalid,
        answer.inner matches Ok(ok) ==> ok.resolution != Resolution::Invalid && (ok.resolution
            != Resolution::Mate ==> ok.branches@.len() == 0) && forall|i: int|
            0 <= i < ok.branches@.len() ==> (#[trigger] ok.branches@[i]).eval is Some,
        answers_as(answer, configuration_of(*position), *zobrist, budget as nat),
        says_mate(answer) ==> answer.inner.unwrap().branches@.len() > 0
            && answer.inner.unwrap().branches@.last().moves@.len() == 0,
        says_mate(answer) && collision_free(*zobrist, configuration_of(*position)) ==> forced_mate(
            configuration_of(*position),
            *zobrist,
            NodeKind::Or,
        ) && mates(configuration_of(*position), *zobrist, NodeKind::Or, ROOT_PLIES as nat),
        answer.inner is Ok && prover_denies(configuration_of(*position), *zobrist, budget as nat) && collision_free(
            *zobrist,
            configuration_of(*position),
        ) ==> !forced_mate(
            configuration_of(*position),
            *zobrist,
            NodeKind::Or,
        ),
{
    let wrapped: PositionWrapper = match PositionWrapper::try_wrap(position, zobrist) {
        Some(w) => w,
        None => {
            return Answer {
                inner: Err(
                    ErrType {
                        resolution: Resolution::Invalid,
                        reason: "a hand holds more than eighteen pieces of one kind".to_owned(),
                    },
                ),
            };
        },
    };
    assert(TABLE_SIZE >= 2 && (TABLE_SIZE as u64) & ((TABLE_SIZE - 1) as u64) == 0)
        by (bit_vector);
    let ghost c = configuration_of(*position);
    let ghost granted = budget as nat;
    let mut df_tbl: DfPnTable = DfPnTable::new(TABLE_SIZE);
    let mut evals: EvalTable = EvalTable::new(TABLE_SIZE);
    let mut budget: u64 = budget;
    proof {
        assert forall|key: u64| table_fetch(evals@, key) is None by {
            assert(evals.spec_fetch(key) is None);
        }
        lemma_values_sound_empty(evals@, *zobrist, wrapped@, wrapped@.white_to_move);
        assert(df_tbl@ == empty_table::<(u32, u32)>(TABLE_SIZE as nat));
        assert(evals@ == empty_table::<(Value, Option<Move>)>(TABLE_SIZE as nat));
    }
    let mate_result: (u32, u32) = prove_afresh(&mut df_tbl, &wrapped, zobrist, &mut budget);
    let ghost proved = df_pn_result(
        empty_table::<(u32, u32)>(TABLE_SIZE as nat),
        c,
        *zobrist,
        granted,
    );
    assert(proved == (Proved { pair: mate_result, table: df_tbl@, budget: budget as nat }));
    if mate_result.0 == MAX && mate_result.1 == 0 {
        let answer = Answer {
            inner: Ok(OkType { resolution: Resolution::NoMate, branches: Vec::new() }),
        };
        assert(memo_view(answer.inner.unwrap().branches@) =~= Seq::<BranchView>::empty());
        return answer;
    }
    if !(mate_result.0 == 0 && mate_result.1 == MAX) {
        let answer = Answer {
            inner: Ok(OkType { resolution: Resolution::Unknown, branches: Vec::new() }),
        };
        assert(memo_view(answer.inner.unwrap().branches@) =~= Seq::<BranchView>::empty());
        return answer;
    }
    let result: Value = evaluate(position, zobrist, &df_tbl, &mut evals);
    let ghost found = search_result(
        proved.table,
        empty_table::<(Value, Option<Move>)>(TABLE_SIZE as nat),
        c,
        *zobrist,
    );
    assert(found.answer.0 == result && found.table == evals@);
    if !result.is_mate() {
        let answer = Answer {
            inner: Ok(OkType { resolution: Resolution::NoMate, branches: Vec::new() }),
        };
        assert(memo_view(answer.inner.unwrap().branches@) =~= Seq::<BranchView>::empty());
        return answer;
    }
    proof {
        result.lemma_fields();
        result.lemma_order(Value::pack(12, 0, 0));
        Value::lemma_pack(12, 0, 0);
        if collision_free(*zobrist, c) {
            lemma_mates_later(
                c,
                *zobrist,
                NodeKind::Or,
                result.spec_plies() as nat,
                ROOT_PLIES as nat,
            );
        }
    }
    let mut branches: Vec<BranchEntry> = Vec::new();
    let opts: Options = Options { verbose: false };
    proof {
        assert(result.spec_plies_added(0) == result);
        assert(memo_view(branches@) =~= Seq::<BranchView>::empty());
        assert(table_fetch(df_tbl@, wrapped.spec_zobrist_hash()) != Some((MAX, 0u32)));
        assert(me_shortcut(
            df_tbl@,
            evals@,
            Set::<Key>::empty(),
            wrapped@,
            *zobrist,
            wrapped.spec_zobrist_hash(),
            result,
        ) matches Some(short) && short.1 is Some);
    }
    let worth: bool = find_branches(
        &mut df_tbl,
        &mut evals,
        &wrapped,
        zobrist,
        result,
        &opts,
        &mut branches,
        Vec::new(),
        &mut budget,
    );
    assert(worth);
    assert(memo_view(branches@) == search_answer(c, *zobrist, granted).branches);
    Answer { inner: Ok(OkType { resolution: Resolution::Mate, branches }) }
}

/// Decides whether the side to move mates, with a prover that goes into
/// children as often as it takes: what `search_within` answers with the
/// largest budget. The time limit is not looked at.
pub fn search_with(position: &PartialPosition, zobrist: &ZobristTable, _timeout_ms: u64) -> (answer: Answer)
    requires
        zobrist.wf(),
    ensures
        answer.inner is Err <==> !piles_in_limit(configuration_of(*position).hands),
        answer.inner matches Err(e) ==> e.resolution == Resolution::Invalid,
        answer.inner matches Ok(ok) ==> ok.resolution != Resolution::Invalid && (ok.resolution
            != Resolution::Mate ==> ok.branches@.len() == 0) && forall|i: int|
            0 <= i < ok.branches@.len() ==> (#[trigger] ok.branches@[i]).eval is Some,
        answers_as(answer, configuration_of(*position), *zobrist, u64::MAX as nat),
        says_mate(answer) ==> answer.inner.unwrap().branches@.len() > 0
            && answer.inner.unwrap().branches@.last().moves@.len() == 0,
        says_mate(answer) && collision_free(*zobrist, configuration_of(*position)) ==> forced_mate(
            configuration_of(*position),
            *zobrist,
            NodeKind::Or,
        ) && mates(configuration_of(*position), *zobrist, NodeKind::Or, ROOT_PLIES as nat),
        answer.inner is Ok && prover_denies(configuration_of(*position), *zobrist, u64::MAX as nat) && collision_free(
            *zobrist,
            configuration_of(*position),
        ) ==> !forced_mate(
            configuration_of(*position),
            *zobrist,
            NodeKind::Or,
        ),
{
    search_within(position, zobrist, u64::MAX)
}

/// Whether an answer says that the side to move mates.
pub open spec fn says_mate(answer: Answer) -> bool {
    answer.inner matches Ok(ok) && ok.resolution == Resolution::Mate
}

/// Decides whether the side to move mates, with hashing words of its own:
/// what `search_with` answers with the table of words that the seed gives.
pub fn search(position: &PartialPosition, timeout_ms: u64) -> (answer: Answer)
    ensures
        answer.inner is Err <==> !piles_in_limit(configuration_of(*position).hands),
        answer.inner matches Err(e) ==> e.resolution == Resolution::Invalid,
        answer.inner matches Ok(ok) ==> ok.resolution != Resolution::Invalid && (ok.resolution
            != Resolution::Mate ==> ok.branches@.len() == 0) && forall|i: int|
            0 <= i < ok.branches@.len() ==> (#[trigger] ok.branches@[i]).eval is Some,
        says_mate(answer) ==> answer.inner.unwrap().branches@.len() > 0
            && answer.inner.unwrap().branches@.last().moves@.len() == 0,
        exists|zobrist: ZobristTable| #[trigger]
            zobrist.is_seeded() && zobrist.wf() && answers_as(
                answer,
                configuration_of(*position),
                zobrist,
                u64::MAX as nat,
            ) && (says_mate(answer) && collision_free(zobrist, configuration_of(*position))
                ==> forced_mate(configuration_of(*position), zobrist, NodeKind::Or) && mates(
                configuration_of(*position),
                zobrist,
                NodeKind::Or,
                ROOT_PLIES as nat,
            )) && (answer.inner is Ok && prover_denies(
                configuration_of(*position),
                zobrist,
                u64::MAX as nat,
            )
                && collision_free(zobrist, configuration_of(*position)) ==> !forced_mate(configuration_of(*position), zobrist, NodeKind::Or)),
{
    let zobrist: ZobristTable = ZobristTable::new();
    let answer: Answer = search_with(position, &zobrist, timeout_ms);
    assert(zobrist.is_seeded() && zobrist.wf() && answers_as(
        answer,
        configuration_of(*position),
        zobrist,
        u64::MAX as nat,
    ) && (says_mate(answer) && collision_free(zobrist, configuration_of(*position))
        ==> forced_mate(configuration_of(*position), zobrist, NodeKind::Or) && mates(
        configuration_of(*position),
        zobrist,
        NodeKind::Or,
        ROOT_PLIES as nat,
    )) && (answer.inner is Ok && prover_denies(
        configuration_of(*position),
        zobrist,
        u64::MAX as nat,
    )
        && collision_free(zobrist, configuration_of(*position)) ==> !forced_mate(configuration_of(*position), zobrist, NodeKind::Or)));
    answer
}

} // verus!
