//! The transposition table: a fixed-size, direct-mapped cache of search
//! results indexed by the low bits of a position's Zobrist hash, together with
//! the random keys that the hash is made of.
use vstd::prelude::*;
use crate::board::{Bitboard, Board, BoardState};
use crate::bits::{sq_set, lemma_mask_test};
use crate::zobrist::{
    ZobristKeys, key_sum, zobrist_parts, PIECE_TYPE_ATTACKER_IDX, PIECE_TYPE_DEFENDER_IDX,
    PIECE_TYPE_KING_IDX,
};

verus! {

/// How a stored evaluation relates to the true value of the position.
#[derive(Clone, Copy, PartialEq, Eq, Debug, Structural)]
pub enum Flag {
    EXACT,
    LOWERBOUND,
    UPPERBOUND,
}

/// A stored search result: its score, the depth it was searched to, the
/// full hash of its position and how the score bounds the true value.
#[derive(Clone, Copy, PartialEq, Eq, Debug, Structural)]
pub struct TranspositionTableEntry {
    pub evaluation: i16,
    pub depth: u8,
    pub key: u64,
    pub flag: Flag,
}

/// A direct-mapped table of search results, and the keys positions are
/// hashed with.
pub struct TranspositionTable {
    pub table: Vec<TranspositionTableEntry>,
    /// One key per square for each piece kind: attacker, defender, king.
    pub init_hash: Vec<[u64; 3]>,
    /// The key that marks "attackers to move".
    pub attacker_bits_seed: u64,
    pub capacity: usize,
}

impl TranspositionTable {
    /// The hashing keys of this table.
    pub open spec fn keys(&self) -> ZobristKeys {
        ZobristKeys { squares: self.init_hash@, side: self.attacker_bits_seed }
    }

    /// A key for each of the 49 squares, and as many slots as the capacity.
    pub open spec fn wf(&self) -> bool {
        &&& self.init_hash@.len() == 49
        &&& self.capacity > 0
        &&& self.table@.len() == self.capacity
    }
}


/// The slot of the table of capacity `capacity` that key `key` maps to.
pub open spec fn slot_of(key: u64, capacity: usize) -> int {
    (key & ((capacity - 1) as u64)) as int
}

/// Every key maps to a slot of the table.
pub proof fn lemma_slot_in_range(key: u64, capacity: usize)
    requires
        capacity > 0,
    ensures
        0 <= slot_of(key, capacity) < capacity,
{
    let m = (capacity - 1) as u64;
    assert(key & m <= m) by (bit_vector);
}

/// What a probe for `hash` finds in `table` of capacity `capacity`: the
/// entry of its slot if it carries that hash.
pub open spec fn lookup_in(table: Seq<TranspositionTableEntry>, capacity: usize, hash: u64) -> Option<
    TranspositionTableEntry,
> {
    let e = table[slot_of(hash, capacity)];
    if e.key == hash {
        Some(e)
    } else {
        None
    }
}

impl TranspositionTable {
    /// The slot that position `b` maps to.
    pub open spec fn slot(&self, b: BoardState) -> int {
        slot_of(b.hash, self.capacity)
    }

    /// What a probe for `b` finds: the entry of its slot if it carries `b`'s hash.
    pub open spec fn lookup(&self, b: BoardState) -> Option<TranspositionTableEntry> {
        lookup_in(self.table@, self.capacity, b.hash)
    }

    fn slot_index(&self, key: u64) -> (r: usize)
        requires
            self.wf(),
        ensures
            r == slot_of(key, self.capacity),
            r < self.table@.len(),
    {
        proof {
            lemma_slot_in_range(key, self.capacity);
        }
        (key & ((self.capacity - 1) as u64)) as usize
    }

    pub fn haskey(&self, b: &Board) -> (r: bool)
        requires
            self.wf(),
        ensures
            r == self.lookup(b@).is_some(),
    {
        let hash = b.current_hash;
        let index = self.slot_index(hash);
        self.table[index].key == hash
    }

    pub fn retrieve(&self, b: &Board) -> (r: Option<&TranspositionTableEntry>)
        requires
            self.wf(),
        ensures
            match r {
                Some(e) => self.lookup(b@) == Some(*e),
                None => self.lookup(b@) is None,
            },
    {
        let key = b.current_hash;
        let entry = &self.table[self.slot_index(key)];
        if entry.key == key {
            Some(entry)
        } else {
            None
        }
    }

    /// Overwrites the slot of `b` with an entry for `b`.
    pub fn store(&mut self, b: &Board, evaluation: i16, depth: u8, flag: Flag)
        requires
            old(self).wf(),
        ensures
            final(self).table@ == old(self).table@.update(
                old(self).slot(b@),
                TranspositionTableEntry { evaluation, depth, key: b.current_hash, flag },
            ),
            final(self).init_hash@ == old(self).init_hash@,
            final(self).attacker_bits_seed == old(self).attacker_bits_seed,
            final(self).capacity == old(self).capacity,
    {
        let key = b.current_hash;
        let index = self.slot_index(key);
        self.table.set(index, TranspositionTableEntry { evaluation, depth, key, flag });
    }

    /// The hash of `b`'s position computed from scratch.
    pub fn hash_from_board(&self, b: &Board) -> (r: u64)
        requires
            self.wf(),
        ensures
            r == zobrist_parts(b.attacker_board, b.defender_board, b.king_board, b.attacker_move, self.keys()),
    {
        zobrist_hash(b, self.attacker_bits_seed, &self.init_hash)
    }
}

/// XORs into `h` the keys of kind `piece_type_idx` of the squares set in `board`.
fn update_hash_with_board(
    h: &mut u64,
    board: Bitboard,
    init_board: &Vec<[u64; 3]>,
    piece_type_idx: usize,
)
    requires
        init_board@.len() == 49,
        piece_type_idx < 3,
    ensures
        *final(h) == *old(h) ^ key_sum(board, init_board@, piece_type_idx as int, 49),
{
    let ghost h0 = *h;
    assert(h0 ^ 0u64 == h0) by (bit_vector);
    let mut i: usize = 0;
    while i < 49
        invariant
            i <= 49,
            init_board@.len() == 49,
            piece_type_idx < 3,
            *h == h0 ^ key_sum(board, init_board@, piece_type_idx as int, i as nat),
        decreases 49 - i,
    {
        proof {
            lemma_mask_test(board, i as u64);
        }
        if board & (1u64 << i as u64) != 0 {
            let k = init_board[i][piece_type_idx];
            let ghost s = key_sum(board, init_board@, piece_type_idx as int, i as nat);
            assert((h0 ^ s) ^ k == h0 ^ (s ^ k)) by (bit_vector);
            *h = *h ^ k;
        }
        i += 1;
    }
}

fn zobrist_hash(b: &Board, attacker_bits: u64, init_board: &Vec<[u64; 3]>) -> (r: u64)
    requires
        init_board@.len() == 49,
    ensures
        r == zobrist_parts(
            b.attacker_board,
            b.defender_board,
            b.king_board,
            b.attacker_move,
            ZobristKeys { squares: init_board@, side: attacker_bits },
        ),
{
    let mut hash: u64 = 0;
    if b.attacker_move {
        hash = hash ^ attacker_bits;
    }
    proof {
        assert(0u64 ^ attacker_bits == attacker_bits) by (bit_vector);
    }
    update_hash_with_board(&mut hash, b.attacker_board, init_board, PIECE_TYPE_ATTACKER_IDX);
    update_hash_with_board(&mut hash, b.defender_board, init_board, PIECE_TYPE_DEFENDER_IDX);
    update_hash_with_board(&mut hash, b.king_board, init_board, PIECE_TYPE_KING_IDX);
    hash
}


/// Number of slots of a table made by `TranspositionTable::new`, as a power of two.
pub const TTABLE_SIZE_LOG2: u32 = 20;

/// The content of a slot nothing has been stored in.
pub open spec fn empty_entry() -> TranspositionTableEntry {
    TranspositionTableEntry { evaluation: 0, depth: 0, key: 0, flag: Flag::EXACT }
}

/// Relies on rand::random: a value drawn from the thread-local generator.
/// Nothing is known of which value comes back.
#[verifier::external_body]
fn random_key() -> u64 {
    rand::random::<u64>()
}

impl TranspositionTable {
    /// A table of `2^size_log2` empty slots hashing with the given keys.
    pub fn from_keys(init_hash: Vec<[u64; 3]>, attacker_bits_seed: u64, size_log2: u32) -> (r: Self)
        requires
            init_hash@.len() == 49,
            size_log2 <= 30,
        ensures
            r.wf(),
            r.init_hash@ == init_hash@,
            r.attacker_bits_seed == attacker_bits_seed,
            r.capacity == 1usize << size_log2,
            forall|i: int| 0 <= i < r.table@.len() ==> #[trigger] r.table@[i] == empty_entry(),
    {
        let capacity: usize = 1usize << size_log2;
        assert(1usize << size_log2 > 0) by (bit_vector)
            requires
                size_log2 <= 30,
        ;
        let mut table: Vec<TranspositionTableEntry> = Vec::new();
        let mut i: usize = 0;
        while i < capacity
            invariant
                i <= capacity,
                table@.len() == i,
                forall|j: int| 0 <= j < i ==> #[trigger] table@[j] == empty_entry(),
            decreases capacity - i,
        {
            table.push(TranspositionTableEntry { evaluation: 0, depth: 0, key: 0, flag: Flag::EXACT });
            i += 1;
        }
        TranspositionTable { table, init_hash, attacker_bits_seed, capacity }
    }

    /// A table of `2^20` empty slots with freshly drawn random keys.
    pub fn new() -> (r: Self)
        ensures
            r.wf(),
            r.capacity == 1usize << TTABLE_SIZE_LOG2,
            forall|i: int| 0 <= i < r.table@.len() ==> #[trigger] r.table@[i] == empty_entry(),
    {
        let init_hash = make_init_hash();
        let attacker_bits_seed = random_key();
        TranspositionTable::from_keys(init_hash, attacker_bits_seed, TTABLE_SIZE_LOG2)
    }
}

/// Draws the three keys of each of the 49 squares.
fn make_init_hash() -> (r: Vec<[u64; 3]>)
    ensures
        r@.len() == 49,
{
    let mut init_board: Vec<[u64; 3]> = Vec::new();
    let mut i: usize = 0;
    while i < 49
        invariant
            i <= 49,
            init_board@.len() == i,
        decreases 49 - i,
    {
        init_board.push([random_key(), random_key(), random_key()]);
        i += 1;
    }
    init_board
}
} // verus!
