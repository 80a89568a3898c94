//! Move generation: every single orthogonal step of a piece of the side to
//! move onto a square it may enter, ordered by a static score, highest first.
use vstd::prelude::*;
use crate::bits::{sq_set, lemma_mask_test, lemma_or_and};
use crate::board::{
    Board, BoardState, Move, PieceType, Bitboard, EMPTY_BOARD, BOARD_SIZE, inbounds, index_to_rc,
    rc_to_index, valid_capture, direction, row_of, col_of, has_neighbor, neighbor, is_corner,
    king_sq, victim, lemma_neighbor,
};

verus! {

/// Score of a king move onto a corner.
pub const KING_ESCAPE_SCORE: i16 = 5000;

/// Score of an attacker move next to the king.
pub const MOVE_TO_KING_SCORE: i16 = 1000;

/// Score of each capture a move makes.
pub const CAPTURE_SCORE: i16 = 1000;

/// Score of any other move.
pub const NORMAL_MOVE_SCORE: i16 = 0;

/// The moves of the piece of kind `kind` on `s` in the first `n` directions.
pub open spec fn piece_moves(v: BoardState, s: int, kind: PieceType, n: nat) -> Seq<Move>
    decreases n,
{
    if n == 0 {
        Seq::empty()
    } else {
        let rest = piece_moves(v, s, kind, (n - 1) as nat);
        if has_neighbor(s, n - 1) && v.free_for(kind, neighbor(s, n - 1)) {
            rest.push(Move { start_index: s as usize, end_index: neighbor(s, n - 1) as usize, piece_type: kind })
        } else {
            rest
        }
    }
}

/// The moves of the pieces of `bb` standing on squares below `n`, square by square.
pub open spec fn board_moves(v: BoardState, bb: u64, kind: PieceType, n: nat) -> Seq<Move>
    decreases n,
{
    if n == 0 {
        Seq::empty()
    } else {
        let rest = board_moves(v, bb, kind, (n - 1) as nat);
        if sq_set(bb, n - 1) {
            rest + piece_moves(v, n - 1, kind, 4)
        } else {
            rest
        }
    }
}

/// All moves of the side to move in generation order: the attackers' by
/// square, or the defenders' by square and then the king's.
pub open spec fn raw_moves(v: BoardState) -> Seq<Move> {
    if v.attacker_move {
        board_moves(v, v.attackers, PieceType::Attacker, 49)
    } else {
        board_moves(v, v.defenders, PieceType::Defender, 49) + piece_moves(
            v,
            king_sq(v),
            PieceType::King,
            4,
        )
    }
}

/// Number of the first `n` directions around `e` in which a capture is made.
pub open spec fn capture_count(capturer: u64, capturee: u64, e: int, n: nat) -> int
    decreases n,
{
    if n == 0 {
        0
    } else {
        capture_count(capturer, capturee, e, (n - 1) as nat) + if victim(capturer, capturee, e, n - 1) {
            1int
        } else {
            0int
        }
    }
}

pub open spec fn abs_diff(a: int, b: int) -> int {
    if a >= b {
        a - b
    } else {
        b - a
    }
}

/// The static score of move `m` in position `v`: a king move onto a corner
/// scores 5000; otherwise an attacker move next to the king scores 1000, and
/// each capture the move makes adds 1000.
pub open spec fn score_spec(v: BoardState, m: Move) -> int {
    let e = m.end_index as int;
    let k = king_sq(v);
    if m.piece_type == PieceType::King && is_corner(e) {
        5000
    } else {
        let near = if m.piece_type == PieceType::Attacker && abs_diff(row_of(k), row_of(e)) + abs_diff(
            col_of(k),
            col_of(e),
        ) < 2 {
            1000int
        } else {
            0int
        };
        let (capturer, capturee) = if m.piece_type == PieceType::Attacker {
            (v.attackers, v.defenders)
        } else {
            (v.defenders | v.king, v.attackers)
        };
        near + 1000 * capture_count(capturer, capturee, e, 4)
    }
}

/// The moves among the first `n` of `moves` whose score is `score`, in order.
pub open spec fn with_score(v: BoardState, moves: Seq<Move>, score: int, n: nat) -> Seq<Move>
    decreases n,
{
    if n == 0 {
        Seq::empty()
    } else {
        let rest = with_score(v, moves, score, (n - 1) as nat);
        if score_spec(v, moves[n - 1]) == score {
            rest.push(moves[n - 1])
        } else {
            rest
        }
    }
}

/// The moves of score 5000, then 4000, and so on down to `1000 * j`.
pub open spec fn ordered_down_to(v: BoardState, moves: Seq<Move>, j: nat) -> Seq<Move>
    decreases 6 - j,
{
    if j >= 6 {
        Seq::empty()
    } else {
        ordered_down_to(v, moves, j + 1) + with_score(v, moves, 1000 * j as int, moves.len())
    }
}

/// The moves of the side to move, highest score first; moves of equal score
/// keep their generation order.
pub open spec fn ordered_moves(v: BoardState) -> Seq<Move> {
    ordered_down_to(v, raw_moves(v), 0)
}

/// A move with its static score.
struct ScoredMove {
    mv: Move,
    score: i16,
}

spec fn moves_of(s: Seq<ScoredMove>) -> Seq<Move> {
    s.map_values(|x: ScoredMove| x.mv)
}

spec fn scores_ok(v: BoardState, s: Seq<ScoredMove>) -> bool {
    forall|i: int| 0 <= i < s.len() ==> (#[trigger] s[i]).score == score_spec(v, s[i].mv)
}

/// The moves of a position, in the order to try them.
pub struct MoveGenerator {
    pub cached_moves: Vec<Move>,
}


fn score_move(board: &Board, m: &Move) -> (r: i16)
    requires
        m.end_index < 49,
    ensures
        r == score_spec(board@, *m),
{
    let ghost v = board@;
    let ghost e = m.end_index as int;
    let (end_row, end_col) = index_to_rc(m.end_index);
    if m.piece_type == PieceType::King {
        if (end_row == 0 || end_row == BOARD_SIZE - 1) && (end_col == 0 || end_col == BOARD_SIZE - 1) {
            return KING_ESCAPE_SCORE;
        }
    }
    let mut score = NORMAL_MOVE_SCORE;
    if m.piece_type == PieceType::Attacker {
        let (king_row, king_col) = board.king_coordinates();
        let row_diff = if king_row >= end_row {
            king_row - end_row
        } else {
            end_row - king_row
        };
        let col_diff = if king_col >= end_col {
            king_col - end_col
        } else {
            end_col - king_col
        };
        if row_diff + col_diff < 2 {
            score = score + MOVE_TO_KING_SCORE;
        }
    }
    let ghost near = score as int;
    let capturer_board: u64;
    let capturee_board: u64;
    match m.piece_type {
        PieceType::Attacker => {
            capturer_board = board.attacker_board;
            capturee_board = board.defender_board;
        },
        _ => {
            capturer_board = board.defender_board | board.king_board;
            capturee_board = board.attacker_board;
        },
    }
    let mut d: usize = 0;
    while d < 4
        invariant
            d <= 4,
            0 <= e < 49,
            end_row == row_of(e),
            end_col == col_of(e),
            0 <= near <= 1000,
            score == near + 1000 * capture_count(capturer_board, capturee_board, e, d as nat),
            capture_count(capturer_board, capturee_board, e, d as nat) <= d,
        decreases 4 - d,
    {
        let (dr, dc) = direction(d);
        if valid_capture(
            capturer_board,
            capturee_board,
            (end_row as isize, end_col as isize),
            (end_row as isize + dr, end_col as isize + dc),
        ) {
            score = score + CAPTURE_SCORE;
        }
        d += 1;
    }
    score
}

/// The steps of the piece of kind `kind` on `s` in the first `n`
/// directions onto squares not set in `blocked`.
pub open spec fn step_moves(s: int, blocked: u64, kind: PieceType, n: nat) -> Seq<Move>
    decreases n,
{
    if n == 0 {
        Seq::empty()
    } else {
        let rest = step_moves(s, blocked, kind, (n - 1) as nat);
        if has_neighbor(s, n - 1) && !sq_set(blocked, neighbor(s, n - 1)) {
            rest.push(Move { start_index: s as usize, end_index: neighbor(s, n - 1) as usize, piece_type: kind })
        } else {
            rest
        }
    }
}

/// The squares a piece of kind `kind` may not step onto.
pub open spec fn blocked_for(v: BoardState, kind: PieceType) -> u64 {
    (v.attackers | v.defenders | v.king) | (if kind == PieceType::King {
        0u64
    } else {
        v.offlimits
    })
}

/// With the board's own blocked squares, the steps are the moves of the piece.
proof fn lemma_step_moves_of_board(v: BoardState, s: int, kind: PieceType, n: nat)
    requires
        0 <= s < 49,
        n <= 4,
    ensures
        step_moves(s, blocked_for(v, kind), kind, n) == piece_moves(v, s, kind, n),
    decreases n,
{
    if n > 0 {
        let p = (n - 1) as nat;
        lemma_step_moves_of_board(v, s, kind, p);
        if has_neighbor(s, p as int) {
            lemma_neighbor(s, p as int);
            let j = neighbor(s, p as int) as u64;
            let occ = v.attackers | v.defenders | v.king;
            let off = if kind == PieceType::King {
                0u64
            } else {
                v.offlimits
            };
            lemma_or_and(occ, off, j);
            lemma_or_and(v.attackers | v.defenders, v.king, j);
            lemma_or_and(v.attackers, v.defenders, j);
            crate::bits::lemma_zero(j);
        }
    }
}

/// Appends, in direction order, a scored move of the piece of kind
/// `piece_type` on `start_index` to each neighbouring square not set in
/// `occupied | offlimits`.
fn gen_piece_moves(
    board: &Board,
    start_index: usize,
    occupied: u64,
    offlimits: u64,
    piece_type: PieceType,
    moves: &mut Vec<ScoredMove>,
)
    requires
        start_index < 49,
    ensures
        ({
            let added = step_moves(start_index as int, occupied | offlimits, piece_type, 4);
            &&& final(moves)@.len() == old(moves)@.len() + added.len()
            &&& forall|i: int| 0 <= i < old(moves)@.len() ==> #[trigger] final(moves)@[i] == old(moves)@[i]
            &&& forall|j: int| 0 <= j < added.len() ==> (#[trigger] final(moves)@[old(moves)@.len() + j]).mv == added[j]
                && final(moves)@[old(moves)@.len() + j].score == score_spec(board@, added[j])
        }),
{
    let ghost v = board@;
    let ghost old_moves = moves@;
    let ghost blocked = occupied | offlimits;
    let (start_row, start_col) = index_to_rc(start_index);
    let mut d: usize = 0;
    while d < 4
        invariant
            d <= 4,
            v == board@,
            start_index < 49,
            start_row == row_of(start_index as int),
            start_col == col_of(start_index as int),
            blocked == occupied | offlimits,
            ({
                let added = step_moves(start_index as int, blocked, piece_type, d as nat);
                &&& moves@.len() == old_moves.len() + added.len()
                &&& forall|i: int| 0 <= i < old_moves.len() ==> #[trigger] moves@[i] == old_moves[i]
                &&& forall|j: int| 0 <= j < added.len() ==> (#[trigger] moves@[old_moves.len() + j]).mv == added[j]
                    && moves@[old_moves.len() + j].score == score_spec(v, added[j])
            }),
        decreases 4 - d,
    {
        let (dr, dc) = direction(d);
        let end_row = start_row as isize + dr;
        let end_col = start_col as isize + dc;
        if inbounds(end_row, end_col) {
            let end_index = rc_to_index(end_row as usize, end_col as usize);
            proof {
                lemma_mask_test(occupied | offlimits, end_index as u64);
            }
            if (occupied | offlimits) & (1u64 << end_index as u64) == 0 {
                let mv = Move { start_index, end_index, piece_type };
                let sm = ScoredMove { mv, score: score_move(board, &mv) };
                let ghost before = moves@;
                moves.push(sm);
                proof {
                    let added = step_moves(start_index as int, blocked, piece_type, d as nat);
                    let added2 = step_moves(start_index as int, blocked, piece_type, (d + 1) as nat);
                    assert(added2 == added.push(mv));
                    assert forall|j: int| 0 <= j < added2.len() implies (#[trigger] moves@[old_moves.len() + j]).mv == added2[j]
                        && moves@[old_moves.len() + j].score == score_spec(v, added2[j]) by {
                        if j < added.len() {
                            assert(moves@[old_moves.len() + j] == before[old_moves.len() + j]);
                        }
                    }
                }
            }
        }
        d += 1;
    }
}

/// Appending a run of scored moves extends the move list by the run and
/// keeps every score right.
proof fn lemma_append_scored(v: BoardState, before: Seq<ScoredMove>, after: Seq<ScoredMove>, added: Seq<Move>)
    requires
        scores_ok(v, before),
        after.len() == before.len() + added.len(),
        forall|i: int| 0 <= i < before.len() ==> #[trigger] after[i] == before[i],
        forall|j: int| 0 <= j < added.len() ==> (#[trigger] after[before.len() + j]).mv == added[j]
            && after[before.len() + j].score == score_spec(v, added[j]),
    ensures
        moves_of(after) == moves_of(before) + added,
        scores_ok(v, after),
{
    assert forall|i: int| 0 <= i < after.len() implies (#[trigger] after[i]).score == score_spec(v, after[i].mv) by {
        if i >= before.len() {
            assert(after[before.len() + (i - before.len())] == after[i]);
        }
    }
    assert forall|i: int| 0 <= i < after.len() implies #[trigger] moves_of(after)[i] == (moves_of(before) + added)[i] by {
        if i >= before.len() {
            assert(after[before.len() + (i - before.len())] == after[i]);
        }
    }
    assert(moves_of(after) =~= moves_of(before) + added);
}

impl MoveGenerator {
    /// The moves of the side to move, highest score first.
    pub fn new(board: &Board) -> (r: Self)
        requires
            board@.wf(),
        ensures
            r.cached_moves@ == ordered_moves(board@),
    {
        let ghost v = board@;
        let mut all_moves: Vec<ScoredMove> = Vec::new();
        let occupied = board.attacker_board | board.defender_board | board.king_board;
        let own = if board.attacker_move {
            board.attacker_board
        } else {
            board.defender_board
        };
        let kind = if board.attacker_move {
            PieceType::Attacker
        } else {
            PieceType::Defender
        };
        let mut i: usize = 0;
        assert(moves_of(all_moves@) =~= board_moves(v, own, kind, 0));
        while i < 49
            invariant
                i <= 49,
                v == board@,
                board@.wf(),
                occupied == board.attacker_board | board.defender_board | board.king_board,
                kind == (if board.attacker_move {
                    PieceType::Attacker
                } else {
                    PieceType::Defender
                }),
                moves_of(all_moves@) == board_moves(v, own, kind, i as nat),
                scores_ok(v, all_moves@),
            decreases 49 - i,
        {
            proof {
                lemma_mask_test(own, i as u64);
            }
            if own & (1u64 << i as u64) != 0 {
                let ghost before = all_moves@;
                gen_piece_moves(board, i, occupied, board.offlimits_board, kind, &mut all_moves);
                proof {
                    lemma_step_moves_of_board(v, i as int, kind, 4);
                    lemma_append_scored(v, before, all_moves@, piece_moves(v, i as int, kind, 4));
                }
            }
            i += 1;
        }
        if !board.attacker_move {
            let ghost before = all_moves@;
            gen_piece_moves(board, board.king_index(), occupied, EMPTY_BOARD, PieceType::King, &mut all_moves);
            proof {
                lemma_step_moves_of_board(v, king_sq(v), PieceType::King, 4);
                lemma_append_scored(v, before, all_moves@, piece_moves(v, king_sq(v), PieceType::King, 4));
            }
        }
        let ghost raw = moves_of(all_moves@);
        assert(raw == raw_moves(v));

        let mut result: Vec<Move> = Vec::new();
        let mut level: usize = 6;
        assert(result@ =~= ordered_down_to(v, raw, 6));
        while level > 0
            invariant
                level <= 6,
                raw == moves_of(all_moves@),
                scores_ok(v, all_moves@),
                result@ == ordered_down_to(v, raw, level as nat),
            decreases level,
        {
            level -= 1;
            let target: i16 = 1000 * level as i16;
            let mut i: usize = 0;
            assert(result@ =~= ordered_down_to(v, raw, (level + 1) as nat) + with_score(v, raw, 1000 * level as int, 0));
            while i < all_moves.len()
                invariant
                    level < 6,
                    target == 1000 * level,
                    i <= all_moves@.len(),
                    raw == moves_of(all_moves@),
                    scores_ok(v, all_moves@),
                    result@ == ordered_down_to(v, raw, (level + 1) as nat) + with_score(v, raw, 1000 * level as int, i as nat),
                decreases all_moves@.len() - i,
            {
                let ghost before = result@;
                assert(raw[i as int] == all_moves@[i as int].mv);
                if all_moves[i].score == target {
                    result.push(all_moves[i].mv);
                }
                proof {
                    assert(result@ =~= ordered_down_to(v, raw, (level + 1) as nat) + with_score(v, raw, 1000 * level as int, (i + 1) as nat));
                }
                i += 1;
            }
        }
        MoveGenerator { cached_moves: result }
    }

    /// Takes the next move to try: the first of those left.
    pub fn next(&mut self) -> (r: Option<Move>)
        ensures
            old(self).cached_moves@.len() == 0 ==> r is None && final(self).cached_moves@ == old(self).cached_moves@,
            old(self).cached_moves@.len() > 0 ==> r == Some(old(self).cached_moves@[0])
                && final(self).cached_moves@ == old(self).cached_moves@.subrange(1, old(self).cached_moves@.len() as int),
    {
        if self.cached_moves.len() == 0 {
            None
        } else {
            let m = self.cached_moves.remove(0);
            proof {
                assert(self.cached_moves@ =~= old(self).cached_moves@.subrange(1, old(self).cached_moves@.len() as int));
            }
            Some(m)
        }
    }
}


/// Every move of `s` is legal in `v`.
pub open spec fn all_legal(v: BoardState, s: Seq<Move>) -> bool {
    forall|i: int| 0 <= i < s.len() ==> v.legal(#[trigger] s[i])
}

proof fn lemma_piece_moves_shape(v: BoardState, s: int, kind: PieceType, n: nat)
    requires
        0 <= s < 49,
        n <= 4,
    ensures
        forall|i: int| 0 <= i < piece_moves(v, s, kind, n).len() ==> {
            let m = #[trigger] piece_moves(v, s, kind, n)[i];
            &&& m.start_index == s
            &&& m.piece_type == kind
            &&& crate::board::adjacent(s, m.end_index as int)
            &&& v.free_for(kind, m.end_index as int)
        },
    decreases n,
{
    if n > 0 {
        let p = (n - 1) as nat;
        lemma_piece_moves_shape(v, s, kind, p);
        if has_neighbor(s, p as int) {
            lemma_neighbor(s, p as int);
        }
    }
}

proof fn lemma_board_moves_legal(v: BoardState, bb: u64, kind: PieceType, n: nat)
    requires
        n <= 49,
        bb == v.kind_board(kind),
        v.attacker_move <==> kind == PieceType::Attacker,
    ensures
        all_legal(v, board_moves(v, bb, kind, n)),
    decreases n,
{
    if n > 0 {
        let p = (n - 1) as nat;
        lemma_board_moves_legal(v, bb, kind, p);
        if sq_set(bb, p as int) {
            lemma_piece_moves_shape(v, p as int, kind, 4);
            let a = board_moves(v, bb, kind, p);
            let b = piece_moves(v, p as int, kind, 4);
            assert forall|i: int| 0 <= i < (a + b).len() implies v.legal(#[trigger] (a + b)[i]) by {
                if i >= a.len() {
                    assert((a + b)[i] == b[i - a.len()]);
                }
            }
        }
    }
}

proof fn lemma_with_score_legal(v: BoardState, moves: Seq<Move>, score: int, n: nat)
    requires
        n <= moves.len(),
        all_legal(v, moves),
    ensures
        all_legal(v, with_score(v, moves, score, n)),
    decreases n,
{
    if n > 0 {
        lemma_with_score_legal(v, moves, score, (n - 1) as nat);
    }
}

proof fn lemma_ordered_down_to_legal(v: BoardState, moves: Seq<Move>, j: nat)
    requires
        all_legal(v, moves),
    ensures
        all_legal(v, ordered_down_to(v, moves, j)),
    decreases 6 - j,
{
    if j < 6 {
        lemma_ordered_down_to_legal(v, moves, j + 1);
        lemma_with_score_legal(v, moves, 1000 * j as int, moves.len());
        let a = ordered_down_to(v, moves, j + 1);
        let b = with_score(v, moves, 1000 * j as int, moves.len());
        assert forall|i: int| 0 <= i < (a + b).len() implies v.legal(#[trigger] (a + b)[i]) by {
            if i >= a.len() {
                assert((a + b)[i] == b[i - a.len()]);
            }
        }
    }
}

/// Every generated move is a single orthogonal step of a piece of the side
/// to move, from a square of its own board onto a square it may enter.
pub proof fn lemma_generated_moves_legal(v: BoardState)
    requires
        v.wf(),
    ensures
        all_legal(v, ordered_moves(v)),
{
    if v.attacker_move {
        lemma_board_moves_legal(v, v.attackers, PieceType::Attacker, 49);
    } else {
        lemma_board_moves_legal(v, v.defenders, PieceType::Defender, 49);
        let k = king_sq(v);
        lemma_piece_moves_shape(v, k, PieceType::King, 4);
        crate::board::lemma_king_bits(v, k);
        let a = board_moves(v, v.defenders, PieceType::Defender, 49);
        let b = piece_moves(v, k, PieceType::King, 4);
        assert forall|i: int| 0 <= i < (a + b).len() implies v.legal(#[trigger] (a + b)[i]) by {
            if i >= a.len() {
                assert((a + b)[i] == b[i - a.len()]);
            }
        }
    }
    lemma_ordered_down_to_legal(v, raw_moves(v), 0);
}


proof fn lemma_concat_no_duplicates(a: Seq<Move>, b: Seq<Move>)
    requires
        a.no_duplicates(),
        b.no_duplicates(),
        forall|i: int, j: int| 0 <= i < a.len() && 0 <= j < b.len() ==> a[i] != b[j],
    ensures
        (a + b).no_duplicates(),
{
    assert forall|i: int, j: int| 0 <= i < (a + b).len() && 0 <= j < (a + b).len() && i != j implies (a
        + b)[i] != (a + b)[j] by {
        if i < a.len() && j >= a.len() {
            assert((a + b)[j] == b[j - a.len()]);
        } else if i >= a.len() && j < a.len() {
            assert((a + b)[i] == b[i - a.len()]);
        } else if i >= a.len() && j >= a.len() {
            assert((a + b)[i] == b[i - a.len()]);
            assert((a + b)[j] == b[j - a.len()]);
        }
    }
}

proof fn lemma_piece_moves_distinct(v: BoardState, s: int, kind: PieceType, n: nat)
    requires
        0 <= s < 49,
        n <= 4,
    ensures
        piece_moves(v, s, kind, n).no_duplicates(),
        forall|i: int| 0 <= i < piece_moves(v, s, kind, n).len() ==> exists|d: int| 0 <= d < n
            && has_neighbor(s, d) && #[trigger] piece_moves(v, s, kind, n)[i].end_index == neighbor(s, d),
    decreases n,
{
    if n > 0 {
        let p = (n - 1) as nat;
        lemma_piece_moves_distinct(v, s, kind, p);
        let prev = piece_moves(v, s, kind, p);
        if has_neighbor(s, p as int) && v.free_for(kind, neighbor(s, p as int)) {
            lemma_neighbor(s, p as int);
            let cur = piece_moves(v, s, kind, n);
            assert forall|i: int| 0 <= i < prev.len() implies prev[i] != cur[prev.len() as int] by {
                let d = choose|d: int| 0 <= d < p && has_neighbor(s, d) && prev[i].end_index == neighbor(s, d);
                crate::board::lemma_neighbors_distinct(s, d, p as int);
                lemma_neighbor(s, d);
            }
            assert forall|i: int| 0 <= i < cur.len() implies exists|d: int| 0 <= d < n
                && has_neighbor(s, d) && #[trigger] cur[i].end_index == neighbor(s, d) by {
                if i < prev.len() {
                    assert(cur[i] == prev[i]);
                    let d = choose|d: int| 0 <= d < p && has_neighbor(s, d) && prev[i].end_index == neighbor(s, d);
                } else {
                    assert(cur[i].end_index == neighbor(s, p as int));
                }
            }
        }
    }
}

proof fn lemma_board_moves_distinct(v: BoardState, bb: u64, kind: PieceType, n: nat)
    requires
        n <= 49,
    ensures
        board_moves(v, bb, kind, n).no_duplicates(),
        forall|i: int| 0 <= i < board_moves(v, bb, kind, n).len() ==> (#[trigger] board_moves(v, bb, kind, n)[i]).start_index < n
            && board_moves(v, bb, kind, n)[i].piece_type == kind,
    decreases n,
{
    if n > 0 {
        let p = (n - 1) as nat;
        lemma_board_moves_distinct(v, bb, kind, p);
        if sq_set(bb, p as int) {
            lemma_piece_moves_distinct(v, p as int, kind, 4);
            lemma_piece_moves_shape(v, p as int, kind, 4);
            let a = board_moves(v, bb, kind, p);
            let b = piece_moves(v, p as int, kind, 4);
            lemma_concat_no_duplicates(a, b);
            assert forall|i: int| 0 <= i < (a + b).len() implies (#[trigger] (a + b)[i]).start_index < n && (a + b)[i].piece_type == kind by {
                if i >= a.len() {
                    assert((a + b)[i] == b[i - a.len()]);
                }
            }
        }
    }
}

/// The generated moves in order of generation, each once.
proof fn lemma_raw_moves_distinct(v: BoardState)
    requires
        v.wf(),
    ensures
        raw_moves(v).no_duplicates(),
{
    if v.attacker_move {
        lemma_board_moves_distinct(v, v.attackers, PieceType::Attacker, 49);
    } else {
        let a = board_moves(v, v.defenders, PieceType::Defender, 49);
        let b = piece_moves(v, king_sq(v), PieceType::King, 4);
        lemma_board_moves_distinct(v, v.defenders, PieceType::Defender, 49);
        lemma_piece_moves_distinct(v, king_sq(v), PieceType::King, 4);
        lemma_piece_moves_shape(v, king_sq(v), PieceType::King, 4);
        lemma_concat_no_duplicates(a, b);
    }
}

proof fn lemma_with_score_members(v: BoardState, moves: Seq<Move>, score: int, n: nat)
    requires
        n <= moves.len(),
        moves.no_duplicates(),
    ensures
        with_score(v, moves, score, n).no_duplicates(),
        forall|i: int| 0 <= i < with_score(v, moves, score, n).len() ==> {
            &&& score_spec(v, #[trigger] with_score(v, moves, score, n)[i]) == score
            &&& exists|j: int| 0 <= j < n && moves[j] == with_score(v, moves, score, n)[i]
        },
    decreases n,
{
    if n > 0 {
        let p = (n - 1) as nat;
        lemma_with_score_members(v, moves, score, p);
        let prev = with_score(v, moves, score, p);
        let cur = with_score(v, moves, score, n);
        if score_spec(v, moves[p as int]) == score {
            assert forall|i: int| 0 <= i < prev.len() implies prev[i] != moves[p as int] by {
                let j = choose|j: int| 0 <= j < p && moves[j] == prev[i];
            }
            assert forall|i: int| 0 <= i < cur.len() implies {
                &&& score_spec(v, #[trigger] cur[i]) == score
                &&& exists|j: int| 0 <= j < n && moves[j] == cur[i]
            } by {
                if i < prev.len() {
                    assert(cur[i] == prev[i]);
                    let j = choose|j: int| 0 <= j < p && moves[j] == prev[i];
                } else {
                    assert(cur[i] == moves[p as int]);
                }
            }
        }
    }
}

proof fn lemma_ordered_down_to_distinct(v: BoardState, moves: Seq<Move>, j: nat)
    requires
        moves.no_duplicates(),
    ensures
        ordered_down_to(v, moves, j).no_duplicates(),
        forall|i: int| 0 <= i < ordered_down_to(v, moves, j).len() ==> score_spec(v, #[trigger] ordered_down_to(v, moves, j)[i]) >= 1000 * j,
    decreases 6 - j,
{
    if j < 6 {
        lemma_ordered_down_to_distinct(v, moves, j + 1);
        lemma_with_score_members(v, moves, 1000 * j as int, moves.len());
        let a = ordered_down_to(v, moves, j + 1);
        let b = with_score(v, moves, 1000 * j as int, moves.len());
        lemma_concat_no_duplicates(a, b);
        assert forall|i: int| 0 <= i < (a + b).len() implies score_spec(v, #[trigger] (a + b)[i]) >= 1000 * j by {
            if i >= a.len() {
                assert((a + b)[i] == b[i - a.len()]);
            }
        }
    }
}

/// The generated moves hold no move twice.
pub proof fn lemma_generated_moves_distinct(v: BoardState)
    requires
        v.wf(),
    ensures
        ordered_moves(v).no_duplicates(),
{
    lemma_raw_moves_distinct(v);
    lemma_ordered_down_to_distinct(v, raw_moves(v), 0);
}


proof fn lemma_ordered_down_to_sorted(v: BoardState, moves: Seq<Move>, j: nat)
    requires
        moves.no_duplicates(),
    ensures
        forall|a: int, b: int| 0 <= a < b < ordered_down_to(v, moves, j).len() ==> score_spec(v, #[trigger] ordered_down_to(v, moves, j)[a])
            >= score_spec(v, #[trigger] ordered_down_to(v, moves, j)[b]),
    decreases 6 - j,
{
    if j < 6 {
        lemma_ordered_down_to_sorted(v, moves, j + 1);
        lemma_ordered_down_to_distinct(v, moves, j + 1);
        lemma_with_score_members(v, moves, 1000 * j as int, moves.len());
        let x = ordered_down_to(v, moves, j + 1);
        let y = with_score(v, moves, 1000 * j as int, moves.len());
        assert forall|a: int, b: int| 0 <= a < b < (x + y).len() implies score_spec(v, #[trigger] (x + y)[a])
            >= score_spec(v, #[trigger] (x + y)[b]) by {
            if b < x.len() {
                assert((x + y)[a] == x[a]);
                assert((x + y)[b] == x[b]);
            } else if a < x.len() {
                assert((x + y)[a] == x[a]);
                assert((x + y)[b] == y[b - x.len()]);
            } else {
                assert((x + y)[a] == y[a - x.len()]);
                assert((x + y)[b] == y[b - x.len()]);
            }
        }
    }
}

/// The generated moves come highest score first.
pub proof fn lemma_generated_moves_sorted(v: BoardState)
    requires
        v.wf(),
    ensures
        forall|a: int, b: int| 0 <= a < b < ordered_moves(v).len() ==> score_spec(v, #[trigger] ordered_moves(v)[a])
            >= score_spec(v, #[trigger] ordered_moves(v)[b]),
{
    lemma_raw_moves_distinct(v);
    lemma_ordered_down_to_sorted(v, raw_moves(v), 0);
}

proof fn lemma_capture_count_range(capturer: u64, capturee: u64, e: int, n: nat)
    ensures
        0 <= capture_count(capturer, capturee, e, n) <= n,
    decreases n,
{
    if n > 0 {
        lemma_capture_count_range(capturer, capturee, e, (n - 1) as nat);
    }
}

/// Every score is one of 0, 1000, ..., 5000.
proof fn lemma_score_level(v: BoardState, m: Move)
    ensures
        score_spec(v, m) % 1000 == 0,
        0 <= score_spec(v, m) <= 5000,
{
    lemma_capture_count_range(v.attackers, v.defenders, m.end_index as int, 4);
    lemma_capture_count_range(v.defenders | v.king, v.attackers, m.end_index as int, 4);
}

proof fn lemma_with_score_complete(v: BoardState, moves: Seq<Move>, score: int, n: nat, t: int)
    requires
        n <= moves.len(),
        0 <= t < n,
        score_spec(v, moves[t]) == score,
    ensures
        with_score(v, moves, score, n).contains(moves[t]),
    decreases n,
{
    let p = (n - 1) as nat;
    if t < p {
        lemma_with_score_complete(v, moves, score, p, t);
        let prev = with_score(v, moves, score, p);
        let k = choose|k: int| 0 <= k < prev.len() && prev[k] == moves[t];
        if score_spec(v, moves[p as int]) == score {
            assert(with_score(v, moves, score, n)[k] == moves[t]);
        }
    } else {
        assert(with_score(v, moves, score, n).last() == moves[t]);
    }
}

proof fn lemma_ordered_down_to_complete(v: BoardState, moves: Seq<Move>, j: nat, t: int)
    requires
        0 <= t < moves.len(),
        j <= 6,
        score_spec(v, moves[t]) >= 1000 * j,
    ensures
        ordered_down_to(v, moves, j).contains(moves[t]),
    decreases 6 - j,
{
    lemma_score_level(v, moves[t]);
    let x = ordered_down_to(v, moves, j + 1);
    let y = with_score(v, moves, 1000 * j as int, moves.len());
    if score_spec(v, moves[t]) >= 1000 * (j + 1) {
        lemma_ordered_down_to_complete(v, moves, j + 1, t);
        let k = choose|k: int| 0 <= k < x.len() && x[k] == moves[t];
        assert((x + y)[k] == moves[t]);
    } else {
        lemma_with_score_complete(v, moves, 1000 * j as int, moves.len(), t);
        let k = choose|k: int| 0 <= k < y.len() && y[k] == moves[t];
        assert((x + y)[x.len() + k] == moves[t]);
    }
}

proof fn lemma_ordered_down_to_members(v: BoardState, moves: Seq<Move>, j: nat)
    requires
        moves.no_duplicates(),
    ensures
        forall|i: int| 0 <= i < ordered_down_to(v, moves, j).len() ==> moves.contains(#[trigger] ordered_down_to(v, moves, j)[i]),
    decreases 6 - j,
{
    if j < 6 {
        lemma_ordered_down_to_members(v, moves, j + 1);
        lemma_with_score_members(v, moves, 1000 * j as int, moves.len());
        let x = ordered_down_to(v, moves, j + 1);
        let y = with_score(v, moves, 1000 * j as int, moves.len());
        assert forall|i: int| 0 <= i < (x + y).len() implies moves.contains(#[trigger] (x + y)[i]) by {
            if i < x.len() {
                assert((x + y)[i] == x[i]);
            } else {
                assert((x + y)[i] == y[i - x.len()]);
                let t = choose|t: int| 0 <= t < moves.len() && moves[t] == y[i - x.len()];
            }
        }
    }
}

/// Ordering by score keeps every generated move: the ordered list holds
/// exactly the moves of the generation order.
pub proof fn lemma_generated_moves_complete(v: BoardState, m: Move)
    requires
        v.wf(),
    ensures
        ordered_moves(v).contains(m) <==> raw_moves(v).contains(m),
{
    lemma_raw_moves_distinct(v);
    lemma_ordered_down_to_members(v, raw_moves(v), 0);
    if raw_moves(v).contains(m) {
        let t = choose|t: int| 0 <= t < raw_moves(v).len() && raw_moves(v)[t] == m;
        lemma_score_level(v, m);
        lemma_ordered_down_to_complete(v, raw_moves(v), 0, t);
    }
}


proof fn lemma_piece_moves_contain(v: BoardState, s: int, kind: PieceType, n: nat, d: int)
    requires
        0 <= s < 49,
        0 <= d < n <= 4,
        has_neighbor(s, d),
        v.free_for(kind, neighbor(s, d)),
    ensures
        piece_moves(v, s, kind, n).contains(
            Move { start_index: s as usize, end_index: neighbor(s, d) as usize, piece_type: kind },
        ),
    decreases n,
{
    let p = (n - 1) as nat;
    let m = Move { start_index: s as usize, end_index: neighbor(s, d) as usize, piece_type: kind };
    if d < p {
        lemma_piece_moves_contain(v, s, kind, p, d);
        let prev = piece_moves(v, s, kind, p);
        let k = choose|k: int| 0 <= k < prev.len() && prev[k] == m;
        assert(piece_moves(v, s, kind, n)[k] == m);
    } else {
        assert(piece_moves(v, s, kind, n).last() == m);
    }
}

proof fn lemma_board_moves_contain(v: BoardState, bb: u64, kind: PieceType, n: nat, s: int, m: Move)
    requires
        0 <= s < n <= 49,
        sq_set(bb, s),
        piece_moves(v, s, kind, 4).contains(m),
    ensures
        board_moves(v, bb, kind, n).contains(m),
    decreases n,
{
    let p = (n - 1) as nat;
    let x = board_moves(v, bb, kind, p);
    if s < p {
        lemma_board_moves_contain(v, bb, kind, p, s, m);
        let k = choose|k: int| 0 <= k < x.len() && x[k] == m;
        if sq_set(bb, p as int) {
            assert((x + piece_moves(v, p as int, kind, 4))[k] == m);
        }
    } else {
        let y = piece_moves(v, s, kind, 4);
        let k = choose|k: int| 0 <= k < y.len() && y[k] == m;
        assert((x + y)[x.len() + k] == m);
    }
}

/// Every legal move is generated: the generator misses no single step of a
/// piece of the side to move onto a square it may enter.
pub proof fn lemma_legal_moves_generated(v: BoardState, m: Move)
    requires
        v.wf(),
        v.legal(m),
    ensures
        ordered_moves(v).contains(m),
{
    let s = m.start_index as int;
    let d = choose|d: int| 0 <= d < 4 && has_neighbor(s, d) && neighbor(s, d) == m.end_index as int;
    lemma_piece_moves_contain(v, s, m.piece_type, 4, d);
    let raw = raw_moves(v);
    if v.attacker_move {
        lemma_board_moves_contain(v, v.attackers, PieceType::Attacker, 49, s, m);
    } else if m.piece_type == PieceType::Defender {
        lemma_board_moves_contain(v, v.defenders, PieceType::Defender, 49, s, m);
        let x = board_moves(v, v.defenders, PieceType::Defender, 49);
        let k = choose|k: int| 0 <= k < x.len() && x[k] == m;
        assert(raw[k] == m);
    } else {
        crate::board::lemma_king_bits(v, s);
        let x = board_moves(v, v.defenders, PieceType::Defender, 49);
        let y = piece_moves(v, king_sq(v), PieceType::King, 4);
        let k = choose|k: int| 0 <= k < y.len() && y[k] == m;
        assert(raw[x.len() + k] == m);
    }
    lemma_generated_moves_complete(v, m);
}

} // verus!
