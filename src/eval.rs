//! Static evaluation of a position, from the attackers' point of view:
//! positive favours the attackers, negative the defenders.
use vstd::prelude::*;
use crate::bits::{sq_set, lemma_mask_test};
use crate::zobrist::ZobristKeys;
use crate::board::{
    Move, lemma_make_unmake,
    Bitboard, Board, BoardState, BOARD_SIZE, inbounds, rc_to_index, direction, row_of, col_of,
    has_neighbor, neighbor, king_sq,
};

verus! {

/// Weight of the king's presence.
pub const KING_VALUE: i16 = 100;

/// Weight of each defender.
pub const DEFENDER_VALUE: i16 = 100;

/// Weight of each attacker.
pub const ATTACKER_VALUE: i16 = 100;

/// Number of squares below `n` set in `bb`.
pub open spec fn popcount(bb: u64, n: nat) -> int
    decreases n,
{
    if n == 0 {
        0
    } else {
        popcount(bb, (n - 1) as nat) + if sq_set(bb, n - 1) {
            1int
        } else {
            0int
        }
    }
}

/// Number of the first `n` neighbours of the king that hold an attacker.
pub open spec fn adjacent_attackers(v: BoardState, n: nat) -> int
    decreases n,
{
    if n == 0 {
        0
    } else {
        adjacent_attackers(v, (n - 1) as nat) + if has_neighbor(king_sq(v), n - 1) && sq_set(
            v.attackers,
            neighbor(king_sq(v), n - 1),
        ) {
            1int
        } else {
            0int
        }
    }
}

/// Distance from a row or column to the nearer edge.
pub open spec fn folded(x: int) -> int {
    if x > 6 - x {
        6 - x
    } else {
        x
    }
}

/// Manhattan distance from the king to the nearest corner.
pub open spec fn corner_distance(v: BoardState) -> int {
    folded(row_of(king_sq(v))) + folded(col_of(king_sq(v)))
}

/// The evaluation: 0 in a drawn position; otherwise 100 per attacker,
/// minus 100 per defender, plus 100 for the king, plus the attackers next
/// to the king, minus the king's distance to the nearest corner.
pub open spec fn eval_spec(v: BoardState) -> int {
    if v.stalemate {
        0
    } else {
        100 * popcount(v.attackers, 64) - 100 * popcount(v.defenders, 64) + 100
            + adjacent_attackers(v, 4) - corner_distance(v)
    }
}

/// Number of set bits of `b`.
fn total_board(b: Bitboard) -> (r: i16)
    ensures
        r == popcount(b, 64),
        0 <= r <= 64,
{
    let mut count: i16 = 0;
    let mut i: usize = 0;
    while i < 64
        invariant
            i <= 64,
            count == popcount(b, i as nat),
            0 <= count <= i,
        decreases 64 - i,
    {
        proof {
            lemma_mask_test(b, i as u64);
        }
        if b & (1u64 << i as u64) != 0 {
            count = count + 1;
        }
        i += 1;
    }
    count
}

fn attackers_next_to_king(b: &Board) -> (r: i16)
    requires
        b@.king_ok(),
    ensures
        r == adjacent_attackers(b@, 4),
        0 <= r <= 4,
{
    let mut s: i16 = 0;
    let (king_row, king_col) = b.king_coordinates();
    let ghost k = king_sq(b@);
    let mut d: usize = 0;
    while d < 4
        invariant
            d <= 4,
            k == king_sq(b@),
            0 <= k < 49,
            king_row == row_of(k),
            king_col == col_of(k),
            s == adjacent_attackers(b@, d as nat),
            0 <= s <= d,
        decreases 4 - d,
    {
        let (dr, dc) = direction(d);
        let new_row = king_row as isize + dr;
        let new_col = king_col as isize + dc;
        if inbounds(new_row, new_col) {
            let new_index = rc_to_index(new_row as usize, new_col as usize);
            proof {
                lemma_mask_test(b.attacker_board, new_index as u64);
            }
            if b.attacker_board & (1u64 << new_index as u64) != 0 {
                s = s + 1;
            }
        }
        d += 1;
    }
    s
}

fn dist_to_corner(b: &Board) -> (r: i16)
    requires
        b@.king_ok(),
    ensures
        r == corner_distance(b@),
        0 <= r <= 6,
{
    let (mut king_row, mut king_col) = b.king_coordinates();
    if king_row > BOARD_SIZE - 1 - king_row {
        king_row = BOARD_SIZE - 1 - king_row;
    }
    if king_col > BOARD_SIZE - 1 - king_col {
        king_col = BOARD_SIZE - 1 - king_col;
    }
    (king_row + king_col) as i16
}

/// The static evaluation of `b`, attackers positive.
pub fn naive_eval(b: &Board) -> (r: i16)
    requires
        b@.wf(),
    ensures
        r == eval_spec(b@),
        -6510 <= r <= 6510,
{
    if b.stalemate {
        return 0;
    }
    let attackers = total_board(b.attacker_board);
    let defenders = total_board(b.defender_board);
    let next_to_king = attackers_next_to_king(b);
    let distance = dist_to_corner(b);
    attackers * ATTACKER_VALUE - defenders * DEFENDER_VALUE + KING_VALUE + next_to_king - distance
}


/// Making a legal move and taking it back leaves the evaluation unchanged.
pub proof fn lemma_eval_make_unmake(v: BoardState, m: Move, keys: ZobristKeys)
    requires
        v.inv(keys),
        v.legal(m),
    ensures
        eval_spec(v.play(m, keys).undo()) == eval_spec(v),
{
    lemma_make_unmake(v, m, keys);
}

} // verus!
