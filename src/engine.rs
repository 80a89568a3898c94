//! Iterative-deepening negamax search with alpha-beta pruning, a
//! transposition table, principal-move-first ordering at the root and
//! aspiration windows.
use vstd::prelude::*;
use crate::board::{Board, BoardState, Move, null_move, null_move_spec, lemma_make_unmake};
use crate::eval::{naive_eval, eval_spec};
use crate::movegen::{
    MoveGenerator, ordered_moves, all_legal, lemma_generated_moves_legal, lemma_generated_moves_distinct,
};
use crate::zobrist::ZobristKeys;
use crate::ttable::{
    Flag, TranspositionTable, TranspositionTableEntry, lemma_slot_in_range, lookup_in, slot_of,
};

verus! {

/// Half-width of the window a deepening iteration opens with, around the
/// previous iteration's score.
pub const ASPIRATION_WINDOW: i16 = 300;

/// Base of the score of a won position; the plies left are added to it so
/// that a quicker win scores higher.
pub const WIN_SCORE: i16 = 10000;

/// No score the search returns is larger than this in magnitude.
pub const SCORE_BOUND: i16 = 10255;

/// The search engine: how deep it searches, and the table it remembers
/// results in.
pub struct TaflAI {
    pub max_depth: u8,
    pub ttable: TranspositionTable,
}

/// The result of a search: the score of the position for the attackers, the
/// move to play and the number of positions visited.
pub struct EngineRecommendation {
    pub evaluation: i16,
    pub best_move: Move,
    pub nnodes: usize,
}

impl TaflAI {
    /// The table is well formed and every stored evaluation is a score the
    /// search can return.
    pub open spec fn wf(&self) -> bool {
        &&& self.ttable.wf()
        &&& forall|i: int| 0 <= i < self.ttable.table@.len() ==> -SCORE_BOUND <= (
        #[trigger] self.ttable.table@[i]).evaluation <= SCORE_BOUND
    }
}

/// The flag of a search result `value` found with window `(alpha, beta)`.
pub open spec fn flag_for(value: int, alpha: int, beta: int) -> Flag {
    if value <= alpha {
        Flag::UPPERBOUND
    } else if value >= beta {
        Flag::LOWERBOUND
    } else {
        Flag::EXACT
    }
}

/// Entry `e` settles a search of `depth` plies with window `(alpha, beta)`:
/// it is deep enough, and exact or a bound outside the window.
pub open spec fn entry_cutoff(e: Option<TranspositionTableEntry>, depth: int, alpha: int, beta: int) -> bool {
    match e {
        Some(e) => e.depth >= depth && (e.flag == Flag::EXACT || (e.flag == Flag::LOWERBOUND
            && e.evaluation >= beta) || (e.flag == Flag::UPPERBOUND && e.evaluation <= alpha)),
        None => false,
    }
}

/// What a search returns: its score, the table it leaves and the number of
/// positions it visits.
pub struct SearchOutcome {
    pub value: int,
    pub table: Seq<TranspositionTableEntry>,
    pub nodes: nat,
}

/// The node counter after `n` more counts from zero, held at its largest value.
pub open spec fn counted(n: int) -> int {
    if n > usize::MAX {
        usize::MAX as int
    } else {
        n
    }
}

/// The negamax search of `v` to `depth` plies with window `(alpha, beta)`
/// for side `color`, over the table `table` of capacity `capacity`. A leaf
/// scores its evaluation; a won position scores 10000 plus the plies left
/// for the winner; a drawn one 0. Otherwise a deep-enough table entry that
/// is exact, or a bound outside the window, is returned as it is. Otherwise
/// the moves are searched in order, each child with the window negated and
/// the side flipped, keeping the best negated child score and raising alpha
/// to it, until alpha reaches beta; a position without moves scores 0.
/// The score is stored with the flag it earns against the entry window.
pub open spec fn search(
    v: BoardState,
    table: Seq<TranspositionTableEntry>,
    capacity: usize,
    keys: ZobristKeys,
    depth: nat,
    alpha: int,
    beta: int,
    color: int,
) -> SearchOutcome
    decreases depth, 1nat, 0nat,
{
    if depth == 0 {
        SearchOutcome { value: eval_spec(v) * color, table, nodes: 1 }
    } else if v.attacker_win {
        SearchOutcome { value: (10000 + depth) * color, table, nodes: 1 }
    } else if v.defender_win {
        SearchOutcome { value: (-10000 - depth) * color, table, nodes: 1 }
    } else if v.stalemate {
        SearchOutcome { value: 0, table, nodes: 1 }
    } else if entry_cutoff(lookup_in(table, capacity, v.hash), depth as int, alpha, beta) {
        SearchOutcome { value: lookup_in(table, capacity, v.hash).unwrap().evaluation as int, table, nodes: 1 }
    } else if ordered_moves(v).len() == 0 {
        SearchOutcome { value: 0, table, nodes: 1 }
    } else {
        let r = search_moves(v, ordered_moves(v), 0, table, capacity, keys, depth, beta, color, i16::MIN as int, alpha);
        let entry = TranspositionTableEntry {
            evaluation: r.value as i16,
            depth: depth as u8,
            key: v.hash,
            flag: flag_for(r.value, alpha, beta),
        };
        SearchOutcome { value: r.value, table: r.table.update(slot_of(v.hash, capacity), entry), nodes: 1 + r.nodes }
    }
}

/// The search of the moves of `v` from the `i`-th on, with best score so
/// far `value` and lower bound `alpha`.
pub open spec fn search_moves(
    v: BoardState,
    moves: Seq<Move>,
    i: int,
    table: Seq<TranspositionTableEntry>,
    capacity: usize,
    keys: ZobristKeys,
    depth: nat,
    beta: int,
    color: int,
    value: int,
    alpha: int,
) -> SearchOutcome
    decreases depth, 0nat, moves.len() - i,
{
    if depth == 0 || i < 0 || i >= moves.len() {
        SearchOutcome { value, table, nodes: 0 }
    } else {
        let child = search(v.play(moves[i], keys), table, capacity, keys, (depth - 1) as nat, -beta, -alpha, -color);
        let here = -child.value;
        let value2 = if here > value {
            here
        } else {
            value
        };
        let alpha2 = if value2 > alpha {
            value2
        } else {
            alpha
        };
        if alpha2 >= beta {
            SearchOutcome { value: value2, table: child.table, nodes: child.nodes }
        } else {
            let rest = search_moves(v, moves, i + 1, child.table, capacity, keys, depth, beta, color, value2, alpha2);
            SearchOutcome { value: rest.value, table: rest.table, nodes: child.nodes + rest.nodes }
        }
    }
}

/// What a search of `depth` plies returns without expanding the position,
/// if it returns without expanding it.
pub open spec fn settled_value(v: BoardState, depth: int, color: int) -> int {
    if depth == 0 {
        eval_spec(v) * color
    } else if v.attacker_win {
        (10000 + depth) * color
    } else if v.defender_win {
        (-10000 - depth) * color
    } else {
        0
    }
}

/// The value of `m` for the side `color` one ply deep: the static
/// evaluation of the position it leads to, seen from that side.
pub open spec fn one_ply_value(v: BoardState, m: Move, keys: ZobristKeys, color: int) -> int {
    eval_spec(v.play(m, keys)) * color
}

/// The best one-ply value among the first `n` of `moves` (the lowest
/// score when `n` is 0).
pub open spec fn best_one_ply(v: BoardState, moves: Seq<Move>, keys: ZobristKeys, color: int, n: nat) -> int
    decreases n,
{
    if n == 0 {
        i16::MIN as int
    } else {
        let rest = best_one_ply(v, moves, keys, color, (n - 1) as nat);
        let here = one_ply_value(v, moves[n - 1], keys, color);
        if here > rest {
            here
        } else {
            rest
        }
    }
}

/// The first of the first `n` of `moves` that reaches the best one-ply value.
pub open spec fn best_one_ply_move(v: BoardState, moves: Seq<Move>, keys: ZobristKeys, color: int, n: nat) -> Move
    decreases n,
{
    if n == 0 {
        null_move_spec()
    } else if one_ply_value(v, moves[n - 1], keys, color) > best_one_ply(v, moves, keys, color, (n - 1) as nat) {
        moves[n - 1]
    } else {
        best_one_ply_move(v, moves, keys, color, (n - 1) as nat)
    }
}

/// Multiplying by a side of 1 or -1 keeps or negates a score.
proof fn lemma_signed(x: int, color: int)
    requires
        color == 1 || color == -1,
    ensures
        x * color == if color == 1 {
            x
        } else {
            -x
        },
{
    assert(x * color == if color == 1 {
        x
    } else {
        -x
    }) by (nonlinear_arith)
        requires
            color == 1 || color == -1,
    ;
}

/// Counts one more node, unless the counter is full.
fn count_node(nnodes: &mut usize)
    ensures
        *old(nnodes) < usize::MAX ==> *final(nnodes) == *old(nnodes) + 1,
        *old(nnodes) == usize::MAX ==> *final(nnodes) == usize::MAX,
{
    if *nnodes < usize::MAX {
        *nnodes = *nnodes + 1;
    }
}

/// The negamax value of `b` searched `depth` plies deep, from the point of
/// view of the side `color` (1 for the attackers, -1 for the defenders).
fn negamax(
    tafl_ai: &mut TaflAI,
    b: &mut Board,
    depth: u8,
    nnodes: &mut usize,
    alpha: i16,
    beta: i16,
    color: i16,
) -> (r: i16)
    requires
        old(tafl_ai).wf(),
        old(b)@.inv(old(tafl_ai).ttable.keys()),
        alpha > i16::MIN,
        beta > i16::MIN,
        color == 1 || color == -1,
    ensures
        final(b)@ == old(b)@,
        final(tafl_ai).wf(),
        final(tafl_ai).ttable.keys() == old(tafl_ai).ttable.keys(),
        final(tafl_ai).ttable.capacity == old(tafl_ai).ttable.capacity,
        final(tafl_ai).max_depth == old(tafl_ai).max_depth,
        -SCORE_BOUND <= r <= SCORE_BOUND,
        *final(nnodes) >= *old(nnodes),
        *old(nnodes) < usize::MAX ==> *final(nnodes) > *old(nnodes),
        depth == 0 || old(b)@.is_over() ==> r == settled_value(old(b)@, depth as int, color as int)
            && final(tafl_ai).ttable.table@ == old(tafl_ai).ttable.table@,
        ({
            let o = search(
                old(b)@,
                old(tafl_ai).ttable.table@,
                old(tafl_ai).ttable.capacity,
                old(tafl_ai).ttable.keys(),
                depth as nat,
                alpha as int,
                beta as int,
                color as int,
            );
            &&& r == o.value
            &&& final(tafl_ai).ttable.table@ == o.table
            &&& *final(nnodes) == counted(*old(nnodes) + o.nodes)
        }),
    decreases depth,
{
    let ghost v0 = b@;
    let ghost keys = tafl_ai.ttable.keys();
    let ghost n0 = *nnodes;
    count_node(nnodes);
    if depth == 0 {
        let e = naive_eval(b);
        proof {
            lemma_signed(e as int, color as int);
        }
        return if color == 1 {
            e
        } else {
            -e
        };
    }
    if b.attacker_win {
        let w = WIN_SCORE + depth as i16;
        proof {
            lemma_signed(w as int, color as int);
        }
        return if color == 1 {
            w
        } else {
            -w
        };
    } else if b.defender_win {
        let w = WIN_SCORE + depth as i16;
        proof {
            lemma_signed(-w as int, color as int);
        }
        return if color == 1 {
            -w
        } else {
            w
        };
    } else if b.stalemate {
        return 0;
    }
    let alpha_at_entry = alpha;
    let mut alpha = alpha;
    proof {
        lemma_slot_in_range(v0.hash, tafl_ai.ttable.capacity);
        assert(tafl_ai.ttable.table@[tafl_ai.ttable.slot(v0)].evaluation <= SCORE_BOUND);
    }
    if let Some(entry) = tafl_ai.ttable.retrieve(b) {
        if entry.depth >= depth {
            match entry.flag {
                Flag::EXACT => {
                    return entry.evaluation;
                },
                Flag::LOWERBOUND => {
                    if entry.evaluation >= beta {
                        return entry.evaluation;
                    }
                },
                Flag::UPPERBOUND => {
                    if entry.evaluation <= alpha {
                        return entry.evaluation;
                    }
                },
            }
        }
    }
    let moves = MoveGenerator::new(b);
    if moves.cached_moves.len() == 0 {
        return 0;
    }
    proof {
        lemma_generated_moves_legal(v0);
    }
    let ghost nodes0 = *nnodes;
    let ghost t0 = tafl_ai.ttable.table@;
    let ghost cap = tafl_ai.ttable.capacity;
    let ghost all = moves.cached_moves@;
    let ghost whole = search_moves(v0, all, 0, t0, cap, keys, depth as nat, beta as int, color as int, i16::MIN as int, alpha_at_entry as int);
    let ghost mut done: nat = 0;
    let mut value: i16 = i16::MIN;
    let mut i: usize = 0;
    while i < moves.cached_moves.len()
        invariant_except_break
            ({
                let rest = search_moves(v0, all, i as int, tafl_ai.ttable.table@, cap, keys, depth as nat, beta as int, color as int, value as int, alpha as int);
                &&& whole.value == rest.value
                &&& whole.table == rest.table
                &&& whole.nodes == done + rest.nodes
            }),
        invariant
            all == moves.cached_moves@,
            cap == tafl_ai.ttable.capacity,
            *nnodes == counted(n0 + 1 + done),
            v0.inv(keys),
            i <= moves.cached_moves@.len(),
            moves.cached_moves@.len() > 0,
            moves.cached_moves@ == ordered_moves(v0),
            all_legal(v0, moves.cached_moves@),
            b@ == v0,
            tafl_ai.wf(),
            tafl_ai.ttable.keys() == keys,
            tafl_ai.ttable.capacity == old(tafl_ai).ttable.capacity,
            tafl_ai.max_depth == old(tafl_ai).max_depth,
            depth > 0,
            color == 1 || color == -1,
            beta > i16::MIN,
            alpha >= alpha_at_entry,
            alpha_at_entry > i16::MIN,
            i == 0 ==> value == i16::MIN,
            i > 0 ==> -SCORE_BOUND <= value <= SCORE_BOUND && alpha == (if value > alpha_at_entry {
                value
            } else {
                alpha_at_entry
            }),
            i == 0 ==> alpha == alpha_at_entry,
            *nnodes >= nodes0,
        ensures
            whole.value == value,
            whole.table == tafl_ai.ttable.table@,
            whole.nodes == done,
            *nnodes == counted(n0 + 1 + done),
            i > 0,
            -SCORE_BOUND <= value <= SCORE_BOUND,
            b@ == v0,
            tafl_ai.wf(),
            tafl_ai.ttable.keys() == keys,
            tafl_ai.ttable.capacity == old(tafl_ai).ttable.capacity,
            tafl_ai.max_depth == old(tafl_ai).max_depth,
            *nnodes >= nodes0,
        decreases moves.cached_moves@.len() - i,
    {
        let mv = moves.cached_moves[i];
        assert(v0.legal(mv));
        let ghost child = search(v0.play(mv, keys), tafl_ai.ttable.table@, cap, keys, (depth - 1) as nat, -beta as int, -alpha as int, -color as int);
        b.make_move(mv, &tafl_ai.ttable);
        let eval = -negamax(tafl_ai, b, depth - 1, nnodes, -beta, -alpha, -color);
        b.unmake_move();
        proof {
            lemma_make_unmake(v0, mv, keys);
        }
        if eval > value {
            value = eval;
        }
        if value > alpha {
            alpha = value;
        }
        proof {
            done = done + child.nodes;
        }
        i += 1;
        if alpha >= beta {
            break;
        }
    }
    let flag = if value <= alpha_at_entry {
        Flag::UPPERBOUND
    } else if value >= beta {
        Flag::LOWERBOUND
    } else {
        Flag::EXACT
    };
    let ghost table0 = tafl_ai.ttable.table@;
    let ghost slot = tafl_ai.ttable.slot(v0);
    tafl_ai.ttable.store(b, value, depth, flag);
    proof {
        assert(tafl_ai.ttable.table@ == table0.update(slot, TranspositionTableEntry { evaluation: value, depth, key: v0.hash, flag }));
        assert forall|j: int| 0 <= j < tafl_ai.ttable.table@.len() implies -SCORE_BOUND <= (
        #[trigger] tafl_ai.ttable.table@[j]).evaluation <= SCORE_BOUND by {
            if j != slot {
                assert(tafl_ai.ttable.table@[j] == table0[j]);
            }
        }
    }
    value
}


/// What one or more passes over the root moves give: the best score and
/// move, the table left and the positions visited.
pub struct RootOutcome {
    pub best: int,
    pub best_move: Move,
    pub table: Seq<TranspositionTableEntry>,
    pub nodes: nat,
}

/// A pass over the root moves from the `k`-th on, each searched `depth - 1`
/// plies deep with the window `(alpha, beta)` for the other side; a move
/// replaces the best so far only with a strictly higher score.
pub open spec fn root_pass(
    v: BoardState,
    moves: Seq<Move>,
    k: int,
    table: Seq<TranspositionTableEntry>,
    capacity: usize,
    keys: ZobristKeys,
    depth: nat,
    alpha: int,
    beta: int,
    color: int,
    best: int,
    best_move: Move,
) -> RootOutcome
    decreases moves.len() - k,
{
    if k < 0 || k >= moves.len() {
        RootOutcome { best, best_move, table, nodes: 0 }
    } else {
        let child = search(v.play(moves[k], keys), table, capacity, keys, (depth - 1) as nat, alpha, beta, -color);
        let here = -child.value;
        let rest = if here > best {
            root_pass(v, moves, k + 1, child.table, capacity, keys, depth, alpha, beta, color, here, moves[k])
        } else {
            root_pass(v, moves, k + 1, child.table, capacity, keys, depth, alpha, beta, color, best, best_move)
        };
        RootOutcome { best: rest.best, best_move: rest.best_move, table: rest.table, nodes: child.nodes + rest.nodes }
    }
}

/// How many sides of the window `(alpha, beta)` a root score can still
/// fall outside of.
pub open spec fn window_fuel(alpha: int, beta: int) -> nat {
    ((if alpha >= -SCORE_BOUND {
        1int
    } else {
        0int
    }) + (if beta <= SCORE_BOUND {
        1int
    } else {
        0int
    })) as nat
}

/// Root passes with the window `(alpha, beta)`, widened to the lowest alpha
/// after a score at or below alpha and to the highest beta after a score at
/// or above beta, until the score falls inside.
pub open spec fn aspiration(
    v: BoardState,
    moves: Seq<Move>,
    table: Seq<TranspositionTableEntry>,
    capacity: usize,
    keys: ZobristKeys,
    depth: nat,
    alpha: int,
    beta: int,
    color: int,
    fuel: nat,
) -> RootOutcome
    decreases fuel,
{
    let p = root_pass(v, moves, 0, table, capacity, keys, depth, alpha, beta, color, i16::MIN as int, null_move_spec());
    if fuel == 0 {
        p
    } else if p.best <= alpha {
        let q = aspiration(v, moves, p.table, capacity, keys, depth, (i16::MIN + 1) as int, beta, color, (fuel - 1) as nat);
        RootOutcome { best: q.best, best_move: q.best_move, table: q.table, nodes: p.nodes + q.nodes }
    } else if p.best >= beta {
        let q = aspiration(v, moves, p.table, capacity, keys, depth, alpha, (i16::MAX - 1) as int, color, (fuel - 1) as nat);
        RootOutcome { best: q.best, best_move: q.best_move, table: q.table, nodes: p.nodes + q.nodes }
    } else {
        p
    }
}

/// The lower end of the window opened around the previous score.
pub open spec fn window_alpha(best: int) -> int {
    if best < i16::MIN + 1 + ASPIRATION_WINDOW {
        (i16::MIN + 1) as int
    } else {
        best - ASPIRATION_WINDOW
    }
}

/// The upper end of the window opened around the previous score.
pub open spec fn window_beta(best: int) -> int {
    if best > i16::MAX - ASPIRATION_WINDOW {
        i16::MAX as int
    } else {
        best + ASPIRATION_WINDOW
    }
}

/// The root moves of iteration `d`: from the second on, the previous best
/// move is taken to the front.
pub open spec fn root_order(moves: Seq<Move>, pv: Move, d: nat) -> Seq<Move> {
    if d > 1 && moves.contains(pv) {
        let j = choose|j: int| 0 <= j < moves.len() && moves[j] == pv;
        moves.remove(j).insert(0, pv)
    } else {
        moves
    }
}

/// The state of iterative deepening after `d` iterations: best score and
/// move, table, and node counter (which starts at 1 for the root).
pub struct DeepeningState {
    pub best_eval: int,
    pub best_move: Move,
    pub table: Seq<TranspositionTableEntry>,
    pub nodes: int,
}

/// Iterative deepening of `v` for side `color`: iteration `d` searches the
/// root moves, previous best first, `d` plies deep with aspiration windows
/// around the previous score.
pub open spec fn deepen(
    v: BoardState,
    table: Seq<TranspositionTableEntry>,
    capacity: usize,
    keys: ZobristKeys,
    color: int,
    d: nat,
) -> DeepeningState
    decreases d,
{
    if d == 0 {
        DeepeningState { best_eval: (i16::MIN + 1) as int, best_move: null_move_spec(), table, nodes: 1 }
    } else {
        let prev = deepen(v, table, capacity, keys, color, (d - 1) as nat);
        let moves = root_order(ordered_moves(v), prev.best_move, d);
        let a = window_alpha(prev.best_eval);
        let bt = window_beta(prev.best_eval);
        let r = aspiration(v, moves, prev.table, capacity, keys, d, a, bt, color, window_fuel(a, bt));
        DeepeningState {
            best_eval: r.best,
            best_move: r.best_move,
            table: r.table,
            nodes: counted(prev.nodes + counted(r.nodes as int)),
        }
    }
}

impl TaflAI {
    /// Searches `b` by iterative deepening to `max_depth` plies and reports
    /// the best move found, its evaluation (attackers positive) and the
    /// number of nodes visited. `b` is left as it was.
    pub fn find_best_move(&mut self, b: &mut Board) -> (r: EngineRecommendation)
        requires
            old(self).wf(),
            old(b)@.inv(old(self).ttable.keys()),
        ensures
            final(b)@ == old(b)@,
            final(self).wf(),
            final(self).ttable.keys() == old(self).ttable.keys(),
            final(self).ttable.capacity == old(self).ttable.capacity,
            final(self).max_depth == old(self).max_depth,
            old(self).max_depth == 0 ==> r == (EngineRecommendation {
                evaluation: if old(b).attacker_move {
                    -32767i16
                } else {
                    32767i16
                },
                best_move: null_move_spec(),
                nnodes: 1,
            }),
            old(self).max_depth > 0 && ordered_moves(old(b)@).len() == 0 ==> r == (EngineRecommendation {
                evaluation: 0,
                best_move: null_move_spec(),
                nnodes: 1,
            }),
            old(self).max_depth > 0 && ordered_moves(old(b)@).len() > 0 ==> {
                &&& ordered_moves(old(b)@).contains(r.best_move)
                &&& -SCORE_BOUND <= r.evaluation <= SCORE_BOUND
                &&& (r.nnodes >= 1 + ordered_moves(old(b)@).len() || r.nnodes == usize::MAX)
            },
            old(self).max_depth == 1 && ordered_moves(old(b)@).len() > 0 ==> {
                let color = if old(b).attacker_move {
                    1int
                } else {
                    -1int
                };
                let moves = ordered_moves(old(b)@);
                let keys = old(self).ttable.keys();
                &&& r.evaluation == best_one_ply(old(b)@, moves, keys, color, moves.len()) * color
                &&& r.best_move == best_one_ply_move(old(b)@, moves, keys, color, moves.len())
                &&& final(self).ttable.table@ == old(self).ttable.table@
            },
            old(self).max_depth > 0 && ordered_moves(old(b)@).len() > 0 ==> {
                let color = if old(b).attacker_move {
                    1int
                } else {
                    -1int
                };
                let st = deepen(
                    old(b)@,
                    old(self).ttable.table@,
                    old(self).ttable.capacity,
                    old(self).ttable.keys(),
                    color,
                    old(self).max_depth as nat,
                );
                &&& r.evaluation == st.best_eval * color
                &&& r.best_move == st.best_move
                &&& r.nnodes == st.nodes
                &&& final(self).ttable.table@ == st.table
                &&& (r.nnodes >= 1 + old(self).max_depth * ordered_moves(old(b)@).len() || r.nnodes == usize::MAX)
            },
            old(self).max_depth == 0 || ordered_moves(old(b)@).len() == 0 ==> final(self).ttable.table@ == old(
                self,
            ).ttable.table@,
    {
        let ghost v0 = b@;
        let ghost keys = self.ttable.keys();
        let color: i16 = if b.attacker_move {
            1
        } else {
            -1
        };
        let mut nnodes: usize = 1;
        let mut best_move = null_move();
        let mut best_eval: i16 = i16::MIN + 1;
        if self.max_depth == 0 {
            let evaluation = if color == 1 {
                best_eval
            } else {
                -best_eval
            };
            return EngineRecommendation { evaluation, best_move, nnodes };
        }
        if MoveGenerator::new(b).cached_moves.len() == 0 {
            return EngineRecommendation { evaluation: 0, best_move, nnodes };
        }
        proof {
            lemma_generated_moves_legal(v0);
            lemma_generated_moves_distinct(v0);
        }
        let ghost all = ordered_moves(v0);
        let ghost cap = self.ttable.capacity;
        let ghost t_start = self.ttable.table@;
        let mut current_depth: u8 = 0;
        while current_depth < self.max_depth
            invariant
                current_depth <= self.max_depth,
                self.max_depth == old(self).max_depth,
                b@ == v0,
                v0.inv(keys),
                self.wf(),
                self.ttable.keys() == keys,
                self.ttable.capacity == cap,
                cap == old(self).ttable.capacity,
                t_start == old(self).ttable.table@,
                color == (if v0.attacker_move {
                    1i16
                } else {
                    -1i16
                }),
                all == ordered_moves(v0),
                all.len() > 0,
                all.no_duplicates(),
                all_legal(v0, all),
                ({
                    let st = deepen(v0, t_start, cap, keys, color as int, current_depth as nat);
                    &&& best_eval == st.best_eval
                    &&& best_move == st.best_move
                    &&& self.ttable.table@ == st.table
                    &&& nnodes == st.nodes
                }),
                current_depth == 0 ==> best_eval == i16::MIN + 1 && nnodes == 1,
                current_depth == 1 ==> best_eval == best_one_ply(v0, all, keys, color as int, all.len())
                    && best_move == best_one_ply_move(v0, all, keys, color as int, all.len())
                    && self.ttable.table@ == old(self).ttable.table@,
                current_depth == 0 ==> self.ttable.table@ == old(self).ttable.table@,
                current_depth > 0 ==> all.contains(best_move) && -SCORE_BOUND <= best_eval <= SCORE_BOUND,
                nnodes >= 1 + current_depth * all.len() || nnodes == usize::MAX,
                nnodes >= 1,
            decreases self.max_depth - current_depth,
        {
            current_depth += 1;
            let mut root_moves = MoveGenerator::new(b).cached_moves;
            if current_depth > 1 {
                let mut j: usize = 0;
                while j < root_moves.len()
                    invariant
                        j <= root_moves@.len(),
                        root_moves@ == all,
                        forall|t: int| 0 <= t < j ==> all[t] != best_move,
                    ensures
                        j <= root_moves@.len(),
                        forall|t: int| 0 <= t < j ==> all[t] != best_move,
                        j < root_moves@.len() ==> all[j as int] == best_move,
                    decreases root_moves@.len() - j,
                {
                    if root_moves[j] == best_move {
                        break;
                    }
                    j += 1;
                }
                if j < root_moves.len() {
                    let ghost before = root_moves@;
                    let pv_move = root_moves.remove(j);
                    root_moves.insert(0, pv_move);
                    proof {
                        assert(all.contains(best_move));
                        let c = choose|c: int| 0 <= c < all.len() && all[c] == best_move;
                        assert(c == j);
                        assert(root_moves@ == root_order(all, best_move, current_depth as nat));
                        assert forall|t: int| 0 <= t < root_moves@.len() implies all.contains(#[trigger] root_moves@[t]) by {
                            if t == 0 {
                                assert(all[j as int] == pv_move);
                            } else if t <= j {
                                assert(root_moves@[t] == before[t - 1]);
                            } else {
                                assert(root_moves@[t] == before[t]);
                            }
                        }
                    }
                } else {
                    assert(!all.contains(best_move));
                }
            }
            assert(root_moves@ == root_order(all, best_move, current_depth as nat));
            assert(forall|t: int| 0 <= t < root_moves@.len() ==> all.contains(#[trigger] root_moves@[t]));
            assert(root_moves@.len() == all.len());
            assert forall|t: int| 0 <= t < root_moves@.len() implies v0.legal(#[trigger] root_moves@[t]) by {
                let idx = choose|i: int| 0 <= i < all.len() && all[i] == root_moves@[t];
                assert(v0.legal(all[idx]));
            }
            let alpha: i16 = if best_eval < i16::MIN + 1 + ASPIRATION_WINDOW {
                i16::MIN + 1
            } else {
                best_eval - ASPIRATION_WINDOW
            };
            let beta: i16 = if best_eval > i16::MAX - ASPIRATION_WINDOW {
                i16::MAX
            } else {
                best_eval + ASPIRATION_WINDOW
            };
            let ghost prev_nodes = nnodes as int;
            let mut nnodes_this_iter: usize = 0;
            let (best_eval_this_iter, best_move_this_iter) = self.aspiration_search(
                b,
                &root_moves,
                current_depth,
                alpha,
                beta,
                color,
                &mut nnodes_this_iter,
            );
            proof {
                if current_depth == 1 {
                    assert(root_moves@ == all);
                }
                assert forall|t: int| 0 <= t < root_moves@.len() implies all.contains(#[trigger] root_moves@[t]) by {}
                assert(all.contains(best_move_this_iter));
            }
            nnodes = if nnodes > usize::MAX - nnodes_this_iter {
                usize::MAX
            } else {
                nnodes + nnodes_this_iter
            };
            best_eval = best_eval_this_iter;
            best_move = best_move_this_iter;
            proof {
                assert((current_depth as int) * all.len() == (current_depth - 1) as int * all.len() + all.len())
                    by (nonlinear_arith);
            }
        }
        let evaluation = if color == 1 {
            best_eval
        } else {
            -best_eval
        };
        proof {
            lemma_signed(best_eval as int, color as int);
            assert((current_depth as int) * all.len() >= all.len()) by (nonlinear_arith)
                requires
                    current_depth >= 1,
            ;
        }
        EngineRecommendation { evaluation, best_move, nnodes }
    }

    /// One pass over `root_moves`: each is played and its position searched
    /// `depth - 1` plies deep with the window `(alpha, beta)` for the other
    /// side. Returns the best score and the first move reaching it.
    fn search_root(
        &mut self,
        b: &mut Board,
        root_moves: &Vec<Move>,
        depth: u8,
        alpha: i16,
        beta: i16,
        color: i16,
        nnodes: &mut usize,
    ) -> (r: (i16, Move))
        requires
            old(self).wf(),
            old(b)@.inv(old(self).ttable.keys()),
            depth >= 1,
            alpha > i16::MIN,
            beta > i16::MIN,
            color == 1 || color == -1,
            root_moves@.len() > 0,
            forall|t: int| 0 <= t < root_moves@.len() ==> old(b)@.legal(#[trigger] root_moves@[t]),
        ensures
            final(b)@ == old(b)@,
            final(self).wf(),
            final(self).ttable.keys() == old(self).ttable.keys(),
            final(self).ttable.capacity == old(self).ttable.capacity,
            final(self).max_depth == old(self).max_depth,
            ({
                let p = root_pass(
                    old(b)@,
                    root_moves@,
                    0,
                    old(self).ttable.table@,
                    old(self).ttable.capacity,
                    old(self).ttable.keys(),
                    depth as nat,
                    alpha as int,
                    beta as int,
                    color as int,
                    i16::MIN as int,
                    null_move_spec(),
                );
                &&& r.0 == p.best
                &&& r.1 == p.best_move
                &&& final(self).ttable.table@ == p.table
                &&& *final(nnodes) == counted(*old(nnodes) + p.nodes)
            }),
            -SCORE_BOUND <= r.0 <= SCORE_BOUND,
            root_moves@.contains(r.1),
            *final(nnodes) >= *old(nnodes) + root_moves@.len() || *final(nnodes) == usize::MAX,
            depth == 1 ==> r.0 == best_one_ply(old(b)@, root_moves@, old(self).ttable.keys(), color as int, root_moves@.len())
                && r.1 == best_one_ply_move(old(b)@, root_moves@, old(self).ttable.keys(), color as int, root_moves@.len())
                && final(self).ttable.table@ == old(self).ttable.table@,
    {
        let ghost v0 = b@;
        let ghost keys = self.ttable.keys();
        let ghost cap = self.ttable.capacity;
        let ghost n0 = *nnodes;
        let ghost pass = root_pass(v0, root_moves@, 0, self.ttable.table@, cap, keys, depth as nat, alpha as int, beta as int, color as int, i16::MIN as int, null_move_spec());
        let ghost mut done: nat = 0;
        let mut best_eval: i16 = i16::MIN;
        let mut best_move = null_move();
        let mut k: usize = 0;
        while k < root_moves.len()
            invariant
                ({
                    let rest = root_pass(v0, root_moves@, k as int, self.ttable.table@, cap, keys, depth as nat, alpha as int, beta as int, color as int, best_eval as int, best_move);
                    &&& pass.best == rest.best
                    &&& pass.best_move == rest.best_move
                    &&& pass.table == rest.table
                    &&& pass.nodes == done + rest.nodes
                }),
                *nnodes == counted(n0 + done),
                cap == self.ttable.capacity,
                k <= root_moves@.len(),
                depth >= 1,
                alpha > i16::MIN,
                beta > i16::MIN,
                b@ == v0,
                v0.inv(keys),
                self.wf(),
                self.ttable.keys() == keys,
                self.max_depth == old(self).max_depth,
                color == 1 || color == -1,
                forall|t: int| 0 <= t < root_moves@.len() ==> v0.legal(#[trigger] root_moves@[t]),
                k == 0 ==> best_eval == i16::MIN && best_move == null_move_spec(),
                depth == 1 ==> best_eval == best_one_ply(v0, root_moves@, keys, color as int, k as nat)
                    && best_move == best_one_ply_move(v0, root_moves@, keys, color as int, k as nat)
                    && self.ttable.table@ == old(self).ttable.table@,
                k > 0 ==> root_moves@.contains(best_move) && -SCORE_BOUND <= best_eval <= SCORE_BOUND,
                *nnodes >= n0 + k || *nnodes == usize::MAX,
            decreases root_moves@.len() - k,
        {
            let m = root_moves[k];
            let ghost child = search(v0.play(m, keys), self.ttable.table@, cap, keys, (depth - 1) as nat, alpha as int, beta as int, -color as int);
            b.make_move(m, &self.ttable);
            let eval = -negamax(self, b, depth - 1, nnodes, alpha, beta, -color);
            b.unmake_move();
            proof {
                lemma_make_unmake(v0, m, keys);
                lemma_signed(eval_spec(v0.play(m, keys)), color as int);
                lemma_signed(eval_spec(v0.play(m, keys)), -color as int);
            }
            if eval > best_eval {
                best_eval = eval;
                best_move = m;
            }
            proof {
                done = done + child.nodes;
            }
            k += 1;
        }
        (best_eval, best_move)
    }

    /// Root passes with the window `(alpha, beta)`, widened on the side the
    /// score falls outside of, until it falls inside.
    fn aspiration_search(
        &mut self,
        b: &mut Board,
        root_moves: &Vec<Move>,
        depth: u8,
        alpha: i16,
        beta: i16,
        color: i16,
        nnodes: &mut usize,
    ) -> (r: (i16, Move))
        requires
            old(self).wf(),
            old(b)@.inv(old(self).ttable.keys()),
            depth >= 1,
            alpha > i16::MIN,
            beta > i16::MIN,
            color == 1 || color == -1,
            root_moves@.len() > 0,
            forall|t: int| 0 <= t < root_moves@.len() ==> old(b)@.legal(#[trigger] root_moves@[t]),
        ensures
            final(b)@ == old(b)@,
            final(self).wf(),
            final(self).ttable.keys() == old(self).ttable.keys(),
            final(self).ttable.capacity == old(self).ttable.capacity,
            final(self).max_depth == old(self).max_depth,
            ({
                let a = aspiration(
                    old(b)@,
                    root_moves@,
                    old(self).ttable.table@,
                    old(self).ttable.capacity,
                    old(self).ttable.keys(),
                    depth as nat,
                    alpha as int,
                    beta as int,
                    color as int,
                    window_fuel(alpha as int, beta as int),
                );
                &&& r.0 == a.best
                &&& r.1 == a.best_move
                &&& final(self).ttable.table@ == a.table
                &&& *final(nnodes) == counted(*old(nnodes) + a.nodes)
            }),
            -SCORE_BOUND <= r.0 <= SCORE_BOUND,
            root_moves@.contains(r.1),
            *final(nnodes) >= *old(nnodes) + root_moves@.len() || *final(nnodes) == usize::MAX,
            depth == 1 ==> r.0 == best_one_ply(old(b)@, root_moves@, old(self).ttable.keys(), color as int, root_moves@.len())
                && r.1 == best_one_ply_move(old(b)@, root_moves@, old(self).ttable.keys(), color as int, root_moves@.len())
                && final(self).ttable.table@ == old(self).ttable.table@,
    {
        let ghost v0 = b@;
        let ghost keys = self.ttable.keys();
        let ghost cap = self.ttable.capacity;
        let ghost n0 = *nnodes;
        let ghost target = aspiration(v0, root_moves@, self.ttable.table@, cap, keys, depth as nat, alpha as int, beta as int, color as int, window_fuel(alpha as int, beta as int));
        let ghost mut done: nat = 0;
        let ghost alpha0 = alpha;
        let ghost beta0 = beta;
        let mut lo = alpha;
        let mut hi = beta;
        loop
            invariant_except_break
                ({
                    let rest = aspiration(v0, root_moves@, self.ttable.table@, cap, keys, depth as nat, lo as int, hi as int, color as int, window_fuel(lo as int, hi as int));
                    &&& target.best == rest.best
                    &&& target.best_move == rest.best_move
                    &&& target.table == rest.table
                    &&& target.nodes == done + rest.nodes
                }),
                depth == 1 ==> self.ttable.table@ == old(self).ttable.table@,
            invariant
                alpha0 == alpha,
                beta0 == beta,
                v0 == old(b)@,
                keys == old(self).ttable.keys(),
                cap == old(self).ttable.capacity,
                n0 == *old(nnodes),
                target == aspiration(v0, root_moves@, old(self).ttable.table@, cap, keys, depth as nat, alpha0 as int, beta0 as int, color as int, window_fuel(alpha0 as int, beta0 as int)),
                *nnodes == counted(n0 + done),
                *nnodes >= n0,
                cap == self.ttable.capacity,
                depth >= 1,
                lo > i16::MIN,
                hi > i16::MIN,
                b@ == v0,
                v0.inv(keys),
                self.wf(),
                self.ttable.keys() == keys,
                self.max_depth == old(self).max_depth,
                color == 1 || color == -1,
                root_moves@.len() > 0,
                forall|t: int| 0 <= t < root_moves@.len() ==> v0.legal(#[trigger] root_moves@[t]),
            decreases window_fuel(lo as int, hi as int),
        {
            let ghost before = self.ttable.table@;
            let ghost n_before = *nnodes;
            let result = self.search_root(b, root_moves, depth, lo, hi, color, nnodes);
            let ghost p = root_pass(v0, root_moves@, 0, before, cap, keys, depth as nat, lo as int, hi as int, color as int, i16::MIN as int, null_move_spec());
            proof {
                done = done + p.nodes;
            }
            if result.0 <= lo {
                lo = i16::MIN + 1;
            } else if result.0 >= hi {
                hi = i16::MAX - 1;
            } else {
                return result;
            }
        }
    }
}

} // verus!
