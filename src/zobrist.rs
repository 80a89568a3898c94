//! Zobrist hashing of a position: the hash is the XOR of one random key per
//! occupied (square, piece kind) pair, and of one more key when the attackers
//! are to move. Toggling one bit of one piece board changes the hash by
//! exactly the key of that square and kind, which is what lets moves update
//! the hash incrementally.
use vstd::prelude::*;
use crate::bits::{is_set, sq_set, lemma_toggle};

verus! {

/// Index of the attacker keys in each square's triple of keys.
pub const PIECE_TYPE_ATTACKER_IDX: usize = 0;
/// Index of the defender keys in each square's triple of keys.
pub const PIECE_TYPE_DEFENDER_IDX: usize = 1;
/// Index of the king keys in each square's triple of keys.
pub const PIECE_TYPE_KING_IDX: usize = 2;

/// The random keys a position's hash is made of.
pub struct ZobristKeys {
    /// One key per square and piece kind.
    pub squares: Seq<[u64; 3]>,
    /// The key that marks "attackers to move".
    pub side: u64,
}

/// The key of square `sq` for piece kind `kind`.
pub open spec fn key_of(keys: ZobristKeys, sq: int, kind: int) -> u64 {
    keys.squares[sq][kind]
}

/// XOR of the keys of the squares below `n` that are set in `bb`.
pub open spec fn key_sum(bb: u64, squares: Seq<[u64; 3]>, kind: int, n: nat) -> u64
    decreases n,
{
    if n == 0 {
        0
    } else {
        let rest = key_sum(bb, squares, kind, (n - 1) as nat);
        if sq_set(bb, n - 1) {
            rest ^ squares[n - 1][kind]
        } else {
            rest
        }
    }
}

/// The hash of a position given by its three piece boards and side to move.
pub open spec fn zobrist_parts(
    attackers: u64,
    defenders: u64,
    king: u64,
    attacker_move: bool,
    keys: ZobristKeys,
) -> u64 {
    (((if attacker_move {
        keys.side
    } else {
        0u64
    }) ^ key_sum(attackers, keys.squares, 0, 49)) ^ key_sum(defenders, keys.squares, 1, 49)) ^ key_sum(king, keys.squares, 2, 49)
}

proof fn lemma_xor_swap(a: u64, b: u64, c: u64)
    ensures
        (a ^ b) ^ c == (a ^ c) ^ b,
        (a ^ b) ^ b == a,
{
    assert((a ^ b) ^ c == (a ^ c) ^ b) by (bit_vector);
    assert((a ^ b) ^ b == a) by (bit_vector);
}

/// Toggling bit `j` of a board changes its key sum by the key of `j`.
pub proof fn lemma_key_sum_toggle(bb: u64, keys: ZobristKeys, kind: int, j: u64, n: nat)
    requires
        j < 64,
        n <= 64,
    ensures
        key_sum(bb ^ (1u64 << j), keys.squares, kind, n) == if (j as int) < n {
            key_sum(bb, keys.squares, kind, n) ^ key_of(keys, j as int, kind)
        } else {
            key_sum(bb, keys.squares, kind, n)
        },
    decreases n,
{
    if n > 0 {
        let p = (n - 1) as nat;
        lemma_key_sum_toggle(bb, keys, kind, j, p);
        lemma_toggle(bb, j, p as u64);
        let s = key_sum(bb, keys.squares, kind, p);
        let kj = key_of(keys, j as int, kind);
        let kp = key_of(keys, p as int, kind);
        lemma_xor_swap(s, kj, kp);
        lemma_xor_swap(s, kp, kj);
    }
}

/// The hash after toggling bit `j` of one of the three piece boards.
pub proof fn lemma_zobrist_toggle(
    attackers: u64,
    defenders: u64,
    king: u64,
    attacker_move: bool,
    keys: ZobristKeys,
    j: u64,
)
    requires
        j < 49,
    ensures
        zobrist_parts(attackers ^ (1u64 << j), defenders, king, attacker_move, keys)
            == zobrist_parts(attackers, defenders, king, attacker_move, keys) ^ key_of(
            keys,
            j as int,
            0,
        ),
        zobrist_parts(attackers, defenders ^ (1u64 << j), king, attacker_move, keys)
            == zobrist_parts(attackers, defenders, king, attacker_move, keys) ^ key_of(
            keys,
            j as int,
            1,
        ),
        zobrist_parts(attackers, defenders, king ^ (1u64 << j), attacker_move, keys)
            == zobrist_parts(attackers, defenders, king, attacker_move, keys) ^ key_of(
            keys,
            j as int,
            2,
        ),
{
    lemma_key_sum_toggle(attackers, keys, 0, j, 49);
    lemma_key_sum_toggle(defenders, keys, 1, j, 49);
    lemma_key_sum_toggle(king, keys, 2, j, 49);
    let s = if attacker_move {
        keys.side
    } else {
        0u64
    };
    let a = key_sum(attackers, keys.squares, 0, 49);
    let d = key_sum(defenders, keys.squares, 1, 49);
    let k = key_sum(king, keys.squares, 2, 49);
    let ka = key_of(keys, j as int, 0);
    let kd = key_of(keys, j as int, 1);
    let kk = key_of(keys, j as int, 2);
    assert(((s ^ (a ^ ka)) ^ d) ^ k == (((s ^ a) ^ d) ^ k) ^ ka) by (bit_vector);
    assert(((s ^ a) ^ (d ^ kd)) ^ k == (((s ^ a) ^ d) ^ k) ^ kd) by (bit_vector);
    assert(((s ^ a) ^ d) ^ (k ^ kk) == (((s ^ a) ^ d) ^ k) ^ kk) by (bit_vector);
}

/// Passing the move to the other side changes the hash by the side key.
pub proof fn lemma_zobrist_side(
    attackers: u64,
    defenders: u64,
    king: u64,
    attacker_move: bool,
    keys: ZobristKeys,
)
    ensures
        zobrist_parts(attackers, defenders, king, !attacker_move, keys) == zobrist_parts(
            attackers,
            defenders,
            king,
            attacker_move,
            keys,
        ) ^ keys.side,
{
    let a = key_sum(attackers, keys.squares, 0, 49);
    let d = key_sum(defenders, keys.squares, 1, 49);
    let k = key_sum(king, keys.squares, 2, 49);
    let t = keys.side;
    assert(((t ^ a) ^ d) ^ k == (((0u64 ^ a) ^ d) ^ k) ^ t) by (bit_vector);
    assert(((0u64 ^ a) ^ d) ^ k == (((t ^ a) ^ d) ^ k) ^ t) by (bit_vector);
}

} // verus!
