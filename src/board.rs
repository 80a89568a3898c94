//! The position: bitboards for each piece kind, geometry of the 7x7 board,
//! capture and win rules, and reversible moves that keep the Zobrist hash
//! current.
use vstd::prelude::*;
use vstd::std_specs::bits::u64_trailing_zeros;
use crate::bits::{is_set, sq_set, lemma_mask_test, lemma_single, lemma_or_and};
use crate::zobrist::{
    ZobristKeys, zobrist_parts, lemma_zobrist_toggle, lemma_zobrist_side, PIECE_TYPE_ATTACKER_IDX,
    PIECE_TYPE_DEFENDER_IDX, PIECE_TYPE_KING_IDX,
};
use crate::ttable::TranspositionTable;

verus! {

/// Side length of the board.
pub const BOARD_SIZE: usize = 7;

/// Number of squares on the board.
pub const NUM_SQUARES: usize = 49;

/// A set of squares: bit `i` stands for square `i = row * 7 + col`.
pub type Bitboard = u64;

/// The bitboard with no square set.
pub const EMPTY_BOARD: Bitboard = 0;

/// Every bitboard of a position is below this value: bits 49 to 63 are clear.
pub const BOARD_LIMIT: u64 = 0x2_0000_0000_0000;

/// The attackers of the starting position.
pub const STARTING_ATTACKERS: Bitboard = 123437837206556;

/// The defenders of the starting position.
pub const STARTING_DEFENDERS: Bitboard = 7558594560;

/// The king of the starting position, on the centre square.
pub const STARTING_KING: Bitboard = 16777216;

/// The throne and the four corners.
pub const STARTING_OFFLIMITS: Bitboard = 285873039999041;

/// The three kinds of piece.
#[derive(Clone, Copy, PartialEq, Eq, Debug, Structural)]
pub enum PieceType {
    Attacker,
    Defender,
    King,
}

/// A step of the piece of kind `piece_type` from `start_index` to `end_index`.
#[derive(Clone, Copy, PartialEq, Eq, Debug, Structural)]
pub struct Move {
    pub start_index: usize,
    pub end_index: usize,
    pub piece_type: PieceType,
}

/// The placeholder move reported when there is nothing to play.
pub open spec fn null_move_spec() -> Move {
    Move { start_index: 0, end_index: 0, piece_type: PieceType::Attacker }
}

/// The placeholder move reported when there is nothing to play.
pub fn null_move() -> (r: Move)
    ensures
        r == null_move_spec(),
{
    Move { start_index: 0, end_index: 0, piece_type: PieceType::Attacker }
}

/// What a move overwrites, kept so that the move can be taken back.
#[derive(Clone, Copy, Debug)]
pub struct MoveHistoryElement {
    pub attacker_board: Bitboard,
    pub defender_board: Bitboard,
    pub king_board: Bitboard,
    pub attacker_move: bool,
    pub attacker_win: bool,
    pub defender_win: bool,
    pub stalemate: bool,
    pub current_hash: u64,
}

/// A position: one bitboard per piece kind and one of the squares only the
/// king may enter, the side to move, the result if the game is decided, the
/// Zobrist hash of the position, and the record of the moves played.
#[derive(Clone, Debug)]
pub struct Board {
    pub attacker_board: Bitboard,
    pub defender_board: Bitboard,
    pub king_board: Bitboard,
    pub offlimits_board: Bitboard,
    pub attacker_move: bool,
    pub attacker_win: bool,
    pub defender_win: bool,
    pub stalemate: bool,
    pub current_hash: u64,
    pub history: Vec<MoveHistoryElement>,
}

/// The mathematical value of a board.
pub struct BoardState {
    pub attackers: u64,
    pub defenders: u64,
    pub king: u64,
    pub offlimits: u64,
    pub attacker_move: bool,
    pub attacker_win: bool,
    pub defender_win: bool,
    pub stalemate: bool,
    pub hash: u64,
    pub history: Seq<MoveHistoryElement>,
}

impl View for Board {
    type V = BoardState;

    open spec fn view(&self) -> BoardState {
        BoardState {
            attackers: self.attacker_board,
            defenders: self.defender_board,
            king: self.king_board,
            offlimits: self.offlimits_board,
            attacker_move: self.attacker_move,
            attacker_win: self.attacker_win,
            defender_win: self.defender_win,
            stalemate: self.stalemate,
            hash: self.current_hash,
            history: self.history@,
        }
    }
}

// ---------------------------------------------------------------- geometry

pub open spec fn row_of(s: int) -> int {
    s / 7
}

pub open spec fn col_of(s: int) -> int {
    s % 7
}

pub open spec fn on_board(r: int, c: int) -> bool {
    0 <= r < 7 && 0 <= c < 7
}

pub open spec fn square(r: int, c: int) -> int {
    r * 7 + c
}

/// Row step of direction `d`; the directions are right, left, up, down.
pub open spec fn dir_row(d: int) -> int {
    if d == 2 {
        1
    } else if d == 3 {
        -1
    } else {
        0
    }
}

/// Column step of direction `d`.
pub open spec fn dir_col(d: int) -> int {
    if d == 0 {
        1
    } else if d == 1 {
        -1
    } else {
        0
    }
}

/// Square `s` has a neighbour on the board in direction `d`.
pub open spec fn has_neighbor(s: int, d: int) -> bool {
    on_board(row_of(s) + dir_row(d), col_of(s) + dir_col(d))
}

/// The neighbour of square `s` in direction `d`.
pub open spec fn neighbor(s: int, d: int) -> int {
    square(row_of(s) + dir_row(d), col_of(s) + dir_col(d))
}

/// Square `s` lies on the outer ring of the board.
pub open spec fn on_edge(s: int) -> bool {
    row_of(s) == 0 || row_of(s) == 6 || col_of(s) == 0 || col_of(s) == 6
}

/// Square `s` is one of the four corners.
pub open spec fn is_corner(s: int) -> bool {
    (row_of(s) == 0 || row_of(s) == 6) && (col_of(s) == 0 || col_of(s) == 6)
}

pub proof fn lemma_neighbor(s: int, d: int)
    requires
        0 <= s < 49,
        0 <= d < 4,
        has_neighbor(s, d),
    ensures
        0 <= neighbor(s, d) < 49,
        neighbor(s, d) != s,
        row_of(neighbor(s, d)) == row_of(s) + dir_row(d),
        col_of(neighbor(s, d)) == col_of(s) + dir_col(d),
{
}

/// Neighbours in two different directions are different squares.
pub proof fn lemma_neighbors_distinct(s: int, d1: int, d2: int)
    requires
        0 <= s < 49,
        0 <= d1 < 4,
        0 <= d2 < 4,
        d1 != d2,
        has_neighbor(s, d1),
        has_neighbor(s, d2),
    ensures
        neighbor(s, d1) != neighbor(s, d2),
{
}

/// The step of direction `d < 4` as (row, column).
pub(crate) fn direction(d: usize) -> (r: (isize, isize))
    requires
        d < 4,
    ensures
        r.0 == dir_row(d as int),
        r.1 == dir_col(d as int),
{
    if d == 0 {
        (0, 1)
    } else if d == 1 {
        (0, -1)
    } else if d == 2 {
        (1, 0)
    } else {
        (-1, 0)
    }
}

pub fn rc_to_index(row: usize, col: usize) -> (r: usize)
    requires
        row * 7 + col <= usize::MAX,
    ensures
        r == square(row as int, col as int),
{
    row * BOARD_SIZE + col
}

pub fn index_to_rc(index: usize) -> (r: (usize, usize))
    ensures
        r.0 == row_of(index as int),
        r.1 == col_of(index as int),
{
    (index / BOARD_SIZE, index % BOARD_SIZE)
}

pub fn inbounds(row: isize, col: isize) -> (r: bool)
    ensures
        r == on_board(row as int, col as int),
{
    row >= 0 && row < BOARD_SIZE as isize && col >= 0 && col < BOARD_SIZE as isize
}

/// Custodian capture: the victim at `(vr, vc)` belongs to `capturee` and the
/// square beyond it, seen from `(cr, cc)`, belongs to `capturer`.
pub open spec fn capture_spec(capturer: u64, capturee: u64, cr: int, cc: int, vr: int, vc: int) -> bool {
    &&& on_board(vr, vc)
    &&& on_board(cr, cc)
    &&& sq_set(capturee, square(vr, vc))
    &&& on_board(2 * vr - cr, 2 * vc - cc)
    &&& sq_set(capturer, square(2 * vr - cr, 2 * vc - cc))
}

pub fn valid_capture(
    capturer_bitboard: Bitboard,
    capturee_bitboard: Bitboard,
    capturer_coords: (isize, isize),
    capturee_coords: (isize, isize),
) -> (r: bool)
    ensures
        r == capture_spec(
            capturer_bitboard,
            capturee_bitboard,
            capturer_coords.0 as int,
            capturer_coords.1 as int,
            capturee_coords.0 as int,
            capturee_coords.1 as int,
        ),
{
    if !inbounds(capturee_coords.0, capturee_coords.1) {
        return false;
    }
    if !inbounds(capturer_coords.0, capturer_coords.1) {
        return false;
    }
    let capturee_index = rc_to_index(capturee_coords.0 as usize, capturee_coords.1 as usize);
    proof {
        lemma_mask_test(capturee_bitboard, capturee_index as u64);
    }
    if capturee_bitboard & (1u64 << capturee_index as u64) == 0 {
        return false;
    }
    let ally_coords = (
        2 * capturee_coords.0 - capturer_coords.0,
        2 * capturee_coords.1 - capturer_coords.1,
    );
    if !inbounds(ally_coords.0, ally_coords.1) {
        return false;
    }
    let ally_index = rc_to_index(ally_coords.0 as usize, ally_coords.1 as usize);
    proof {
        lemma_mask_test(capturer_bitboard, ally_index as u64);
    }
    capturer_bitboard & (1u64 << ally_index as u64) != 0
}


// ---------------------------------------------------------------- the model

/// Square of the king of position `v`.
pub open spec fn king_sq(v: BoardState) -> int {
    king_square(v.king)
}

/// Square `s` and `e` are orthogonally adjacent squares of the board.
pub open spec fn adjacent(s: int, e: int) -> bool {
    exists|d: int| 0 <= d < 4 && has_neighbor(s, d) && neighbor(s, d) == e
}

/// The board `bb` with the piece on `m.start_index` moved to `m.end_index`.
pub open spec fn moved(bb: u64, m: Move) -> u64 {
    bb ^ ((1u64 << (m.start_index as u64)) | (1u64 << (m.end_index as u64)))
}

/// The piece next to `e` in direction `d` is caught between the piece that
/// arrived on `e` and a piece of `capturer` beyond it.
pub open spec fn victim(capturer: u64, capturee: u64, e: int, d: int) -> bool {
    capture_spec(
        capturer,
        capturee,
        row_of(e),
        col_of(e),
        row_of(e) + dir_row(d),
        col_of(e) + dir_col(d),
    )
}

/// `board` once the victims in the first `n` directions around `e` are removed.
pub open spec fn after_captures(board: u64, capturer: u64, capturee: u64, e: int, n: nat) -> u64
    decreases n,
{
    if n == 0 {
        board
    } else {
        let rest = after_captures(board, capturer, capturee, e, (n - 1) as nat);
        if victim(capturer, capturee, e, n - 1) {
            rest ^ (1u64 << (neighbor(e, n - 1) as u64))
        } else {
            rest
        }
    }
}

/// Square `i` holds a victim in one of the first `n` directions around `e`.
pub open spec fn captured_at(capturer: u64, capturee: u64, e: int, n: nat, i: int) -> bool
    decreases n,
{
    if n == 0 {
        false
    } else {
        captured_at(capturer, capturee, e, (n - 1) as nat, i) || (victim(capturer, capturee, e, n - 1)
            && neighbor(e, n - 1) == i)
    }
}

/// The position recorded in `h` recurs: same three boards, same side to move.
pub open spec fn same_position(h: MoveHistoryElement, a: u64, d: u64, k: u64, atm: bool) -> bool {
    h.attacker_board == a && h.defender_board == d && h.king_board == k && h.attacker_move == atm
}

/// The position given by the boards and side to move occurs in `history`.
pub open spec fn repeats_in(a: u64, d: u64, k: u64, atm: bool, history: Seq<MoveHistoryElement>) -> bool {
    exists|i: int| 0 <= i < history.len() && same_position(#[trigger] history[i], a, d, k, atm)
}

/// Side `d` of the king on `k` does not save it: there is no square on that
/// side, or that square is off limits or holds an attacker.
pub open spec fn hostile_side(attackers: u64, offlimits: u64, k: int, d: int) -> bool {
    has_neighbor(k, d) ==> (sq_set(offlimits, neighbor(k, d)) || sq_set(attackers, neighbor(k, d)))
}

/// Square of the king: the index of the lowest set bit of the king board.
pub open spec fn king_square(king: u64) -> int {
    u64_trailing_zeros(king) as int
}

/// The king board holds exactly one square of the board.
pub open spec fn king_ok(king: u64) -> bool {
    &&& king_square(king) < 49
    &&& king == 1u64 << (king_square(king) as u64)
}

/// No two kinds share square `i`, and only the king stands off limits.
pub open spec fn cell_ok(a: u64, d: u64, k: u64, off: u64, i: int) -> bool {
    &&& !(sq_set(a, i) && sq_set(d, i))
    &&& !(sq_set(a, i) && sq_set(k, i))
    &&& !(sq_set(d, i) && sq_set(k, i))
    &&& !(sq_set(off, i) && (sq_set(a, i) || sq_set(d, i)))
}

/// The invariants of a position that do not involve the hash: all boards
/// below `2^49`, one king, no shared squares, at most one result.
pub open spec fn board_ok(a: u64, d: u64, k: u64, off: u64, aw: bool, dw: bool, sm: bool) -> bool {
    &&& a < BOARD_LIMIT
    &&& d < BOARD_LIMIT
    &&& k < BOARD_LIMIT
    &&& off < BOARD_LIMIT
    &&& king_ok(k)
    &&& forall|i: int| 0 <= i < 49 ==> #[trigger] cell_ok(a, d, k, off, i)
    &&& !(aw && dw)
    &&& !(aw && sm)
    &&& !(dw && sm)
}

impl BoardState {
    /// The bitboard of one piece kind.
    pub open spec fn kind_board(self, kind: PieceType) -> u64 {
        match kind {
            PieceType::Attacker => self.attackers,
            PieceType::Defender => self.defenders,
            PieceType::King => self.king,
        }
    }

    /// The invariants of a position that do not involve the hash.
    pub open spec fn wf(self) -> bool {
        board_ok(
            self.attackers,
            self.defenders,
            self.king,
            self.offlimits,
            self.attacker_win,
            self.defender_win,
            self.stalemate,
        )
    }

    /// The king board holds exactly one square of the board.
    pub open spec fn king_ok(self) -> bool {
        king_ok(self.king)
    }

    /// The game is decided.
    pub open spec fn is_over(self) -> bool {
        self.attacker_win || self.defender_win || self.stalemate
    }

    /// The stored hash is the hash of the position under `keys`.
    pub open spec fn hash_ok(self, keys: ZobristKeys) -> bool {
        self.hash == zobrist_parts(self.attackers, self.defenders, self.king, self.attacker_move, keys)
    }

    /// The record of this position that a move leaves in the history.
    pub open spec fn snapshot(self) -> MoveHistoryElement {
        MoveHistoryElement {
            attacker_board: self.attackers,
            defender_board: self.defenders,
            king_board: self.king,
            attacker_move: self.attacker_move,
            attacker_win: self.attacker_win,
            defender_win: self.defender_win,
            stalemate: self.stalemate,
            current_hash: self.hash,
        }
    }

    /// This board with the position recorded in `h` put back.
    pub open spec fn restored(self, h: MoveHistoryElement) -> BoardState {
        BoardState {
            attackers: h.attacker_board,
            defenders: h.defender_board,
            king: h.king_board,
            offlimits: self.offlimits,
            attacker_move: h.attacker_move,
            attacker_win: h.attacker_win,
            defender_win: h.defender_win,
            stalemate: h.stalemate,
            hash: h.current_hash,
            history: self.history,
        }
    }

    /// History record `h` is a well-formed position with a correct hash.
    pub open spec fn frame_ok(self, h: MoveHistoryElement, keys: ZobristKeys) -> bool {
        &&& board_ok(
            h.attacker_board,
            h.defender_board,
            h.king_board,
            self.offlimits,
            h.attacker_win,
            h.defender_win,
            h.stalemate,
        )
        &&& h.current_hash == zobrist_parts(
            h.attacker_board,
            h.defender_board,
            h.king_board,
            h.attacker_move,
            keys,
        )
    }

    /// The full invariant: the position and every recorded one are
    /// well-formed and carry their hash under `keys`.
    pub open spec fn inv(self, keys: ZobristKeys) -> bool {
        &&& self.wf()
        &&& self.hash_ok(keys)
        &&& forall|i: int| 0 <= i < self.history.len() ==> self.frame_ok(#[trigger] self.history[i], keys)
    }

    /// A piece may step onto square `t`: no piece is there, and unless it is
    /// the king, the square is not off limits.
    pub open spec fn free_for(self, kind: PieceType, t: int) -> bool {
        &&& !sq_set(self.attackers, t)
        &&& !sq_set(self.defenders, t)
        &&& !sq_set(self.king, t)
        &&& (kind == PieceType::King || !sq_set(self.offlimits, t))
    }

    /// `m` is a single orthogonal step of a piece of the side to move onto a
    /// square it may enter.
    pub open spec fn legal(self, m: Move) -> bool {
        &&& (self.attacker_move <==> m.piece_type == PieceType::Attacker)
        &&& m.start_index < 49
        &&& sq_set(self.kind_board(m.piece_type), m.start_index as int)
        &&& adjacent(m.start_index as int, m.end_index as int)
        &&& self.free_for(m.piece_type, m.end_index as int)
    }

    /// The king is surrounded: each neighbour on the board is off limits or
    /// holds an attacker.
    pub open spec fn king_surrounded(self) -> bool {
        &&& hostile_side(self.attackers, self.offlimits, king_sq(self), 0)
        &&& hostile_side(self.attackers, self.offlimits, king_sq(self), 1)
        &&& hostile_side(self.attackers, self.offlimits, king_sq(self), 2)
        &&& hostile_side(self.attackers, self.offlimits, king_sq(self), 3)
    }

    /// The current position occurs earlier in the history with the same side
    /// to move.
    pub open spec fn repetition(self) -> bool {
        repeats_in(self.attackers, self.defenders, self.king, self.attacker_move, self.history)
    }

    /// The attacker, defender and king boards after `m` and its captures.
    pub open spec fn boards_after(self, m: Move) -> (u64, u64, u64) {
        let e = m.end_index as int;
        match m.piece_type {
            PieceType::Attacker => {
                let a = moved(self.attackers, m);
                (a, after_captures(self.defenders, a, self.defenders, e, 4), self.king)
            },
            PieceType::Defender => {
                let d = moved(self.defenders, m);
                (after_captures(self.attackers, d | self.king, self.attackers, e, 4), d, self.king)
            },
            PieceType::King => {
                let k = moved(self.king, m);
                (after_captures(self.attackers, self.defenders | k, self.attackers, e, 4), self.defenders, k)
            },
        }
    }

    /// The position after playing `m`. The pieces move and capture; the hash
    /// is that of the new position; the old position goes on the history.
    /// A decided game stays decided; otherwise an attacker move that
    /// surrounds the king wins for the attackers, a king move onto the edge
    /// wins for the defenders, and any other move that repeats a position
    /// with the same side to move is a draw.
    pub open spec fn play(self, m: Move, keys: ZobristKeys) -> BoardState {
        let (a, d, k) = self.boards_after(m);
        let next = BoardState {
            attackers: a,
            defenders: d,
            king: k,
            offlimits: self.offlimits,
            attacker_move: !self.attacker_move,
            attacker_win: self.attacker_win,
            defender_win: self.defender_win,
            stalemate: self.stalemate,
            hash: zobrist_parts(a, d, k, !self.attacker_move, keys),
            history: self.history.push(self.snapshot()),
        };
        if self.is_over() {
            next
        } else {
            let aw = m.piece_type == PieceType::Attacker && next.king_surrounded();
            let dw = m.piece_type == PieceType::King && on_edge(m.end_index as int);
            let sm = !aw && !dw && repeats_in(a, d, k, !self.attacker_move, self.history);
            BoardState { attacker_win: aw, defender_win: dw, stalemate: sm, ..next }
        }
    }

    /// The position before the last move.
    pub open spec fn undo(self) -> BoardState {
        let h = self.history.last();
        BoardState { history: self.history.drop_last(), ..self.restored(h) }
    }
}

// ---------------------------------------------------------------- lemmas

/// The lowest set bit of `1 << e` is `e`.
pub proof fn lemma_tz_single(e: u64)
    requires
        e < 64,
    ensures
        u64_trailing_zeros(1u64 << e) == e,
{
    let x = 1u64 << e;
    vstd::std_specs::bits::axiom_u64_trailing_zeros(x);
    let t = u64_trailing_zeros(x);
    assert(x != 0) by (bit_vector)
        requires
            x == 1u64 << e,
            e < 64,
    ;
    lemma_single(e, e);
    if (t as u64) < e {
        assert(is_set(x, t as u64));
        lemma_single(e, t as u64);
    } else if (t as u64) > e {
        assert((x >> e) & 1u64 == 0u64);
    }
}

/// Facts about square `i` of a well-formed board's king.
pub proof fn lemma_king_bits(v: BoardState, i: int)
    requires
        v.king_ok(),
        0 <= i < 64,
    ensures
        sq_set(v.king, i) == (i == king_sq(v)),
{
    lemma_single(king_sq(v) as u64, i as u64);
}

/// The victims around `e` are distinct squares of `capturee`, so removing
/// them one after another clears exactly those squares.
pub proof fn lemma_after_captures(capturee: u64, capturer: u64, e: int, n: nat, i: int)
    requires
        0 <= e < 49,
        n <= 4,
        0 <= i < 64,
    ensures
        sq_set(after_captures(capturee, capturer, capturee, e, n), i) == (sq_set(capturee, i)
            && !captured_at(capturer, capturee, e, n, i)),
    decreases n,
{
    if n > 0 {
        let p = (n - 1) as nat;
        lemma_after_captures(capturee, capturer, e, p, i);
        if victim(capturer, capturee, e, p as int) {
            let nb = neighbor(e, p as int);
            lemma_neighbor(e, p as int);
            crate::bits::lemma_toggle(after_captures(capturee, capturer, capturee, e, p), nb as u64, i as u64);
            if nb == i {
                lemma_after_captures_not_yet(capturee, capturer, e, p, p as int);
            }
        }
    }
}

/// No victim of an earlier direction sits where direction `d`'s victim is.
proof fn lemma_after_captures_not_yet(capturee: u64, capturer: u64, e: int, n: nat, d: int)
    requires
        0 <= e < 49,
        n <= d < 4,
        victim(capturer, capturee, e, d),
    ensures
        !captured_at(capturer, capturee, e, n, neighbor(e, d)),
    decreases n,
{
    if n > 0 {
        let p = (n - 1) as nat;
        lemma_after_captures_not_yet(capturee, capturer, e, p, d);
        if victim(capturer, capturee, e, p as int) {
            lemma_neighbors_distinct(e, p as int, d);
        }
    }
}

/// Removing victims keeps a board below `2^49`.
pub proof fn lemma_after_captures_bound(board: u64, capturer: u64, capturee: u64, e: int, n: nat)
    requires
        0 <= e < 49,
        n <= 4,
        board < BOARD_LIMIT,
    ensures
        after_captures(board, capturer, capturee, e, n) < BOARD_LIMIT,
    decreases n,
{
    if n > 0 {
        let p = (n - 1) as nat;
        lemma_after_captures_bound(board, capturer, capturee, e, p);
        if victim(capturer, capturee, e, p as int) {
            lemma_neighbor(e, p as int);
            crate::bits::lemma_toggle_bound(after_captures(board, capturer, capturee, e, p), neighbor(e, p as int) as u64);
        }
    }
}


/// A legal move's end square is a board square other than its start.
pub proof fn lemma_legal_squares(v: BoardState, m: Move)
    requires
        v.legal(m),
    ensures
        m.end_index < 49,
        m.start_index != m.end_index,
{
    let d = choose|d: int| 0 <= d < 4 && has_neighbor(m.start_index as int, d) && neighbor(m.start_index as int, d) == m.end_index as int;
    lemma_neighbor(m.start_index as int, d);
}

/// The bits of a board after a piece moves from `s` to `e`.
proof fn lemma_moved_bits(bb: u64, m: Move, i: int)
    requires
        m.start_index < 49,
        m.end_index < 49,
        m.start_index != m.end_index,
        0 <= i < 64,
    ensures
        sq_set(moved(bb, m), i) == if i == m.start_index as int {
            !sq_set(bb, i)
        } else if i == m.end_index as int {
            !sq_set(bb, i)
        } else {
            sq_set(bb, i)
        },
{
    let s = m.start_index as u64;
    let e = m.end_index as u64;
    crate::bits::lemma_two_bits(bb, s, e);
    crate::bits::lemma_toggle(bb, e, i as u64);
    crate::bits::lemma_toggle(bb ^ (1u64 << e), s, i as u64);
}

/// Moving keeps a board below `2^49`.
proof fn lemma_moved_bound(bb: u64, m: Move)
    requires
        m.start_index < 49,
        m.end_index < 49,
        m.start_index != m.end_index,
        bb < BOARD_LIMIT,
    ensures
        moved(bb, m) < BOARD_LIMIT,
{
    let s = m.start_index as u64;
    let e = m.end_index as u64;
    crate::bits::lemma_two_bits(bb, s, e);
    crate::bits::lemma_toggle_bound(bb, e);
    crate::bits::lemma_toggle_bound(bb ^ (1u64 << e), s);
}

/// Playing a legal move keeps the invariant.
pub proof fn lemma_play_inv(v: BoardState, m: Move, keys: ZobristKeys)
    requires
        v.inv(keys),
        v.legal(m),
    ensures
        v.play(m, keys).inv(keys),
{
    let w = v.play(m, keys);
    let s = m.start_index as int;
    let e = m.end_index as int;
    lemma_legal_squares(v, m);
    lemma_king_bits(v, s);
    lemma_king_bits(v, e);
    match m.piece_type {
        PieceType::Attacker => {
            lemma_moved_bound(v.attackers, m);
            lemma_after_captures_bound(v.defenders, w.attackers, v.defenders, e, 4);
        },
        PieceType::Defender => {
            lemma_moved_bound(v.defenders, m);
            lemma_after_captures_bound(v.attackers, w.defenders | w.king, v.attackers, e, 4);
        },
        PieceType::King => {
            lemma_after_captures_bound(v.attackers, v.defenders | w.king, v.attackers, e, 4);
            let su = m.start_index as u64;
            let eu = m.end_index as u64;
            assert(v.king == 1u64 << su);
            assert((1u64 << su) ^ ((1u64 << su) | (1u64 << eu)) == 1u64 << eu) by (bit_vector)
                requires
                    su < 64,
                    eu < 64,
                    su != eu,
            ;
            lemma_tz_single(eu);
            assert((1u64 << eu) < BOARD_LIMIT) by (bit_vector)
                requires
                    eu < 49,
            ;
        },
    }
    assert(w.king_ok());
    assert forall|i: int| 0 <= i < 49 implies #[trigger] cell_ok(w.attackers, w.defenders, w.king, w.offlimits, i) by {
        assert(cell_ok(v.attackers, v.defenders, v.king, v.offlimits, i));
        lemma_king_bits(v, i);
        lemma_king_bits(w, i);
        match m.piece_type {
            PieceType::Attacker => {
                lemma_moved_bits(v.attackers, m, i);
                lemma_after_captures(v.defenders, w.attackers, e, 4, i);
            },
            PieceType::Defender => {
                lemma_moved_bits(v.defenders, m, i);
                lemma_after_captures(v.attackers, w.defenders | w.king, e, 4, i);
            },
            PieceType::King => {
                lemma_after_captures(v.attackers, v.defenders | w.king, e, 4, i);
            },
        }
    }
    assert(w.wf());
    assert forall|i: int| 0 <= i < w.history.len() implies w.frame_ok(#[trigger] w.history[i], keys) by {
        if i < v.history.len() {
            assert(w.history[i] == v.history[i]);
            assert(v.frame_ok(v.history[i], keys));
        } else {
            assert(w.history[i] == v.snapshot());
        }
    }
}

/// Taking back the last move keeps the invariant.
pub proof fn lemma_undo_inv(v: BoardState, keys: ZobristKeys)
    requires
        v.inv(keys),
        v.history.len() > 0,
    ensures
        v.undo().inv(keys),
{
    let w = v.undo();
    assert(v.frame_ok(v.history[v.history.len() - 1], keys));
    assert forall|i: int| 0 <= i < w.history.len() implies w.frame_ok(#[trigger] w.history[i], keys) by {
        assert(w.history[i] == v.history[i]);
        assert(v.frame_ok(v.history[i], keys));
    }
}


/// A position with no move played yet.
pub open spec fn fresh_state(
    a: u64,
    d: u64,
    k: u64,
    off: u64,
    attacker_move: bool,
    keys: ZobristKeys,
) -> BoardState {
    BoardState {
        attackers: a,
        defenders: d,
        king: k,
        offlimits: off,
        attacker_move,
        attacker_win: false,
        defender_win: false,
        stalemate: false,
        hash: zobrist_parts(a, d, k, attacker_move, keys),
        history: Seq::empty(),
    }
}

/// Boards that share no square, with no attacker or defender off limits,
/// satisfy the per-square invariant.
proof fn lemma_disjoint_cells(a: u64, d: u64, k: u64, off: u64)
    requires
        a & d == 0,
        a & k == 0,
        d & k == 0,
        (a | d) & off == 0,
    ensures
        forall|i: int| 0 <= i < 49 ==> #[trigger] cell_ok(a, d, k, off, i),
{
    assert forall|i: int| 0 <= i < 49 implies #[trigger] cell_ok(a, d, k, off, i) by {
        let j = i as u64;
        lemma_or_and(a, d, j);
        lemma_or_and(a, k, j);
        lemma_or_and(d, k, j);
        lemma_or_and(a | d, off, j);
        crate::bits::lemma_zero(j);
    }
}

impl Board {
    /// A position with no move played yet, its hash computed from scratch.
    pub fn new(
        attacker_board: Bitboard,
        defender_board: Bitboard,
        king_board: Bitboard,
        offlimits_board: Bitboard,
        attacker_move: bool,
        tt: &TranspositionTable,
    ) -> (r: Board)
        requires
            tt.wf(),
            attacker_board < BOARD_LIMIT,
            defender_board < BOARD_LIMIT,
            offlimits_board < BOARD_LIMIT,
            king_ok(king_board),
            attacker_board & defender_board == 0,
            attacker_board & king_board == 0,
            defender_board & king_board == 0,
            (attacker_board | defender_board) & offlimits_board == 0,
        ensures
            r@ == fresh_state(
                attacker_board,
                defender_board,
                king_board,
                offlimits_board,
                attacker_move,
                tt.keys(),
            ),
            r@.inv(tt.keys()),
    {
        proof {
            lemma_disjoint_cells(attacker_board, defender_board, king_board, offlimits_board);
            let ks = king_square(king_board) as u64;
            assert((1u64 << ks) < BOARD_LIMIT) by (bit_vector)
                requires
                    ks < 49,
            ;
        }
        let mut b = Board {
            attacker_board,
            defender_board,
            king_board,
            offlimits_board,
            attacker_move,
            attacker_win: false,
            defender_win: false,
            stalemate: false,
            current_hash: 0,
            history: Vec::new(),
        };
        b.current_hash = tt.hash_from_board(&b);
        b
    }

    /// The canonical starting position, defenders to move.
    pub fn starting(tt: &TranspositionTable) -> (r: Board)
        requires
            tt.wf(),
        ensures
            r@ == fresh_state(
                STARTING_ATTACKERS,
                STARTING_DEFENDERS,
                STARTING_KING,
                STARTING_OFFLIMITS,
                false,
                tt.keys(),
            ),
            r@.inv(tt.keys()),
    {
        proof {
            lemma_tz_single(24);
            assert(STARTING_KING == 1u64 << 24u64) by (bit_vector);
            assert(STARTING_ATTACKERS & STARTING_DEFENDERS == 0) by (bit_vector);
            assert(STARTING_ATTACKERS & STARTING_KING == 0) by (bit_vector);
            assert(STARTING_DEFENDERS & STARTING_KING == 0) by (bit_vector);
            assert((STARTING_ATTACKERS | STARTING_DEFENDERS) & STARTING_OFFLIMITS == 0) by (bit_vector);
        }
        Board::new(
            STARTING_ATTACKERS,
            STARTING_DEFENDERS,
            STARTING_KING,
            STARTING_OFFLIMITS,
            false,
            tt,
        )
    }

    pub fn king_index(&self) -> (r: usize)
        ensures
            r == king_sq(self@),
    {
        self.king_board.trailing_zeros() as usize
    }

    pub fn king_coordinates(&self) -> (r: (usize, usize))
        ensures
            r.0 == row_of(king_sq(self@)),
            r.1 == col_of(king_sq(self@)),
    {
        index_to_rc(self.king_index())
    }

    /// Every neighbour of the king on the board is off limits or holds an
    /// attacker; squares off the board do not count as hostile.
    pub fn king_captured(&self) -> (r: bool)
        requires
            self@.king_ok(),
        ensures
            r == self@.king_surrounded(),
    {
        let (king_row, king_col) = self.king_coordinates();
        let ghost k = king_sq(self@);
        let mut d: usize = 0;
        while d < 4
            invariant
                d <= 4,
                k == king_sq(self@),
                0 <= k < 49,
                king_row == row_of(k),
                king_col == col_of(k),
                forall|j: int| 0 <= j < d ==> #[trigger] hostile_side(self.attacker_board, self.offlimits_board, k, j),
            decreases 4 - d,
        {
            let (dr, dc) = direction(d);
            let new_row = king_row as isize + dr;
            let new_col = king_col as isize + dc;
            if inbounds(new_row, new_col) {
                let new_index = rc_to_index(new_row as usize, new_col as usize);
                proof {
                    lemma_mask_test(self.offlimits_board, new_index as u64);
                    lemma_mask_test(self.attacker_board, new_index as u64);
                }
                if self.offlimits_board & (1u64 << new_index as u64) == 0 {
                    if self.attacker_board & (1u64 << new_index as u64) == 0 {
                        assert(!hostile_side(self.attacker_board, self.offlimits_board, k, d as int));
                        assert(self@.attackers == self.attacker_board);
                        assert(self@.offlimits == self.offlimits_board);
                        assert(!self@.king_surrounded()) by {
                            if d == 0 {
                            } else if d == 1 {
                            } else if d == 2 {
                            } else {
                            }
                        }
                        return false;
                    }
                }
            }
            d += 1;
        }
        true
    }

    /// The current position was reached before with the same side to move.
    pub fn is_repetition(&self) -> (r: bool)
        ensures
            r == self@.repetition(),
    {
        let mut i: usize = 0;
        while i < self.history.len()
            invariant
                i <= self.history@.len(),
                forall|j: int| 0 <= j < i ==> !same_position(
                    #[trigger] self.history@[j],
                    self.attacker_board,
                    self.defender_board,
                    self.king_board,
                    self.attacker_move,
                ),
            decreases self.history@.len() - i,
        {
            let p = &self.history[i];
            if self.defender_board == p.defender_board && self.attacker_board == p.attacker_board
                && self.king_board == p.king_board && self.attacker_move == p.attacker_move {
                return true;
            }
            i += 1;
        }
        false
    }

    /// Takes the last move back, restoring the position recorded before it.
    pub fn unmake_move(&mut self)
        requires
            old(self).history@.len() > 0,
        ensures
            final(self)@ == old(self)@.undo(),
            forall|keys: ZobristKeys| old(self)@.inv(keys) ==> #[trigger] final(self)@.inv(keys),
    {
        proof {
            assert forall|keys: ZobristKeys| old(self)@.inv(keys) implies #[trigger] old(self)@.undo().inv(keys) by {
                lemma_undo_inv(old(self)@, keys);
            }
        }
        let m = self.history.pop().unwrap();
        self.defender_board = m.defender_board;
        self.attacker_board = m.attacker_board;
        self.king_board = m.king_board;
        self.current_hash = m.current_hash;
        self.attacker_win = m.attacker_win;
        self.defender_win = m.defender_win;
        self.stalemate = m.stalemate;
        self.attacker_move = m.attacker_move;
    }
}


impl Board {
    /// Plays a legal move: moves the piece, removes the pieces it captures,
    /// decides the game where the move wins or repeats, passes the move to
    /// the other side, and updates the hash with the keys that changed.
    pub fn make_move(&mut self, m: Move, tt: &TranspositionTable)
        requires
            tt.wf(),
            old(self)@.inv(tt.keys()),
            old(self)@.legal(m),
        ensures
            final(self)@ == old(self)@.play(m, tt.keys()),
            final(self)@.inv(tt.keys()),
            final(self).current_hash == zobrist_parts(
                final(self).attacker_board,
                final(self).defender_board,
                final(self).king_board,
                final(self).attacker_move,
                tt.keys(),
            ),
    {
        let ghost v0 = self@;
        let ghost keys = tt.keys();
        proof {
            lemma_legal_squares(v0, m);
            lemma_play_inv(v0, m, keys);
        }
        let hist_move = MoveHistoryElement {
            attacker_board: self.attacker_board,
            defender_board: self.defender_board,
            king_board: self.king_board,
            attacker_move: self.attacker_move,
            attacker_win: self.attacker_win,
            defender_win: self.defender_win,
            stalemate: self.stalemate,
            current_hash: self.current_hash,
        };
        let s = m.start_index;
        let e = m.end_index;
        let piece_mask: u64 = (1u64 << s as u64) | (1u64 << e as u64);
        let capturer_board: u64;
        let capturee_board: u64;
        match m.piece_type {
            PieceType::Attacker => {
                proof {
                    crate::bits::lemma_two_bits(self.attacker_board, s as u64, e as u64);
                    lemma_zobrist_toggle(self.attacker_board, self.defender_board, self.king_board, self.attacker_move, keys, e as u64);
                    lemma_zobrist_toggle(self.attacker_board ^ (1u64 << e as u64), self.defender_board, self.king_board, self.attacker_move, keys, s as u64);
                }
                self.attacker_board = self.attacker_board ^ piece_mask;
                self.current_hash = self.current_hash ^ tt.init_hash[e][PIECE_TYPE_ATTACKER_IDX];
                self.current_hash = self.current_hash ^ tt.init_hash[s][PIECE_TYPE_ATTACKER_IDX];
                capturer_board = self.attacker_board;
                capturee_board = self.defender_board;
            },
            PieceType::Defender => {
                proof {
                    crate::bits::lemma_two_bits(self.defender_board, s as u64, e as u64);
                    lemma_zobrist_toggle(self.attacker_board, self.defender_board, self.king_board, self.attacker_move, keys, e as u64);
                    lemma_zobrist_toggle(self.attacker_board, self.defender_board ^ (1u64 << e as u64), self.king_board, self.attacker_move, keys, s as u64);
                }
                self.defender_board = self.defender_board ^ piece_mask;
                self.current_hash = self.current_hash ^ tt.init_hash[e][PIECE_TYPE_DEFENDER_IDX];
                self.current_hash = self.current_hash ^ tt.init_hash[s][PIECE_TYPE_DEFENDER_IDX];
                capturer_board = self.defender_board | self.king_board;
                capturee_board = self.attacker_board;
            },
            PieceType::King => {
                proof {
                    crate::bits::lemma_two_bits(self.king_board, s as u64, e as u64);
                    lemma_zobrist_toggle(self.attacker_board, self.defender_board, self.king_board, self.attacker_move, keys, e as u64);
                    lemma_zobrist_toggle(self.attacker_board, self.defender_board, self.king_board ^ (1u64 << e as u64), self.attacker_move, keys, s as u64);
                }
                self.king_board = self.king_board ^ piece_mask;
                self.current_hash = self.current_hash ^ tt.init_hash[e][PIECE_TYPE_KING_IDX];
                self.current_hash = self.current_hash ^ tt.init_hash[s][PIECE_TYPE_KING_IDX];
                capturer_board = self.defender_board | self.king_board;
                capturee_board = self.attacker_board;
            },
        }

        let (end_row, end_col) = index_to_rc(e);
        let ghost a1 = self.attacker_board;
        let ghost d1 = self.defender_board;
        let ghost k1 = self.king_board;
        let mut dir: usize = 0;
        while dir < 4
            invariant
                dir <= 4,
                e < 49,
                e == m.end_index,
                end_row == row_of(e as int),
                end_col == col_of(e as int),
                tt.wf(),
                keys == tt.keys(),
                self.king_board == k1,
                self.offlimits_board == v0.offlimits,
                self.attacker_move == v0.attacker_move,
                self.attacker_win == v0.attacker_win,
                self.defender_win == v0.defender_win,
                self.stalemate == v0.stalemate,
                self.history@ == v0.history,
                m.piece_type == PieceType::Attacker ==> self.attacker_board == a1 && capturee_board == d1
                    && self.defender_board == after_captures(d1, capturer_board, capturee_board, e as int, dir as nat),
                m.piece_type != PieceType::Attacker ==> self.defender_board == d1 && capturee_board == a1
                    && self.attacker_board == after_captures(a1, capturer_board, capturee_board, e as int, dir as nat),
                self.current_hash == zobrist_parts(
                    self.attacker_board,
                    self.defender_board,
                    self.king_board,
                    self.attacker_move,
                    keys,
                ),
            decreases 4 - dir,
        {
            let (dr, dc) = direction(dir);
            let capturee_row = end_row as isize + dr;
            let capturee_col = end_col as isize + dc;
            if valid_capture(
                capturer_board,
                capturee_board,
                (end_row as isize, end_col as isize),
                (capturee_row, capturee_col),
            ) {
                let captured_index = rc_to_index(capturee_row as usize, capturee_col as usize);
                let captured_piece_mask = 1u64 << captured_index as u64;
                proof {
                    lemma_zobrist_toggle(self.attacker_board, self.defender_board, self.king_board, self.attacker_move, keys, captured_index as u64);
                }
                match m.piece_type {
                    PieceType::Attacker => {
                        self.defender_board = self.defender_board ^ captured_piece_mask;
                        self.current_hash = self.current_hash ^ tt.init_hash[captured_index][PIECE_TYPE_DEFENDER_IDX];
                    },
                    _ => {
                        self.attacker_board = self.attacker_board ^ captured_piece_mask;
                        self.current_hash = self.current_hash ^ tt.init_hash[captured_index][PIECE_TYPE_ATTACKER_IDX];
                    },
                }
            }
            dir += 1;
        }

        proof {
            lemma_zobrist_side(self.attacker_board, self.defender_board, self.king_board, self.attacker_move, keys);
        }
        let over = self.attacker_win || self.defender_win || self.stalemate;
        self.attacker_move = !self.attacker_move;
        self.current_hash = self.current_hash ^ tt.attacker_bits_seed;
        proof {
            assert(self.attacker_board == v0.play(m, keys).attackers);
            assert(self.defender_board == v0.play(m, keys).defenders);
            assert(self.king_board == v0.play(m, keys).king);
        }
        if !over {
            let aw = m.piece_type == PieceType::Attacker && self.king_captured();
            let dw = m.piece_type == PieceType::King && (end_row == 0 || end_row == BOARD_SIZE - 1
                || end_col == 0 || end_col == BOARD_SIZE - 1);
            let sm = !aw && !dw && self.is_repetition();
            self.attacker_win = aw;
            self.defender_win = dw;
            self.stalemate = sm;
        }
        self.history.push(hist_move);
    }
}


/// Making a legal move and taking it back restores the position exactly:
/// pieces, side to move, results, hash and history.
pub proof fn lemma_make_unmake(v: BoardState, m: Move, keys: ZobristKeys)
    requires
        v.inv(keys),
        v.legal(m),
    ensures
        v.play(m, keys).undo() == v,
{
    let w = v.play(m, keys);
    assert(w.history.last() == v.snapshot());
    assert(w.history.drop_last() =~= v.history);
}

/// The hash is a function of the position alone: two positions with the
/// same pieces and side to move carry the same hash, whatever sequence of
/// moves produced them.
pub proof fn lemma_transposition(v: BoardState, w: BoardState, keys: ZobristKeys)
    requires
        v.inv(keys),
        w.inv(keys),
        v.attackers == w.attackers,
        v.defenders == w.defenders,
        v.king == w.king,
        v.attacker_move == w.attacker_move,
    ensures
        v.hash == w.hash,
{
}


/// The position after playing `moves` in order.
pub open spec fn play_all(v: BoardState, moves: Seq<Move>, keys: ZobristKeys) -> BoardState
    decreases moves.len(),
{
    if moves.len() == 0 {
        v
    } else {
        play_all(v, moves.drop_last(), keys).play(moves.last(), keys)
    }
}

/// Each of `moves` is legal in the position the earlier ones lead to.
pub open spec fn legal_sequence(v: BoardState, moves: Seq<Move>, keys: ZobristKeys) -> bool
    decreases moves.len(),
{
    moves.len() == 0 || (legal_sequence(v, moves.drop_last(), keys) && play_all(
        v,
        moves.drop_last(),
        keys,
    ).legal(moves.last()))
}

/// The position after taking back the last `n` moves.
pub open spec fn undo_times(v: BoardState, n: nat) -> BoardState
    decreases n,
{
    if n == 0 {
        v
    } else {
        undo_times(v.undo(), (n - 1) as nat)
    }
}

/// Playing a sequence of legal moves keeps the invariant.
pub proof fn lemma_play_all_inv(v: BoardState, moves: Seq<Move>, keys: ZobristKeys)
    requires
        v.inv(keys),
        legal_sequence(v, moves, keys),
    ensures
        play_all(v, moves, keys).inv(keys),
    decreases moves.len(),
{
    if moves.len() > 0 {
        lemma_play_all_inv(v, moves.drop_last(), keys);
        lemma_play_inv(play_all(v, moves.drop_last(), keys), moves.last(), keys);
    }
}

/// Playing any sequence of legal moves and taking each back restores the
/// position exactly: pieces, side to move, results, hash and history.
pub proof fn lemma_make_unmake_sequence(v: BoardState, moves: Seq<Move>, keys: ZobristKeys)
    requires
        v.inv(keys),
        legal_sequence(v, moves, keys),
    ensures
        undo_times(play_all(v, moves, keys), moves.len()) == v,
    decreases moves.len(),
{
    if moves.len() > 0 {
        let before = play_all(v, moves.drop_last(), keys);
        lemma_play_all_inv(v, moves.drop_last(), keys);
        lemma_make_unmake(before, moves.last(), keys);
        lemma_make_unmake_sequence(v, moves.drop_last(), keys);
    }
}

} // verus!
