//! Text forms: a move as `<col><row><col><row>` (`k<col><row>` for the
//! king, destination only), the board as a grid of glyphs, and the parsing
//! of a typed move.
use vstd::prelude::*;
use vstd::string::StrSliceExecFns;
use vstd::string::StringExecFns;
use crate::bits::{sq_set, lemma_mask_test};
use crate::board::{Board, BoardState, Move, PieceType, BOARD_SIZE, index_to_rc, rc_to_index, row_of, col_of, square};

verus! {

/// The letter of column `c`: 'a' for 0 up to 'g' for 6.
pub open spec fn col_char(c: int) -> char {
    if c == 0 {
        'a'
    } else if c == 1 {
        'b'
    } else if c == 2 {
        'c'
    } else if c == 3 {
        'd'
    } else if c == 4 {
        'e'
    } else if c == 5 {
        'f'
    } else {
        'g'
    }
}

/// The digit of row `r`: '1' for 0 up to '7' for 6.
pub open spec fn row_char(r: int) -> char {
    if r == 0 {
        '1'
    } else if r == 1 {
        '2'
    } else if r == 2 {
        '3'
    } else if r == 3 {
        '4'
    } else if r == 4 {
        '5'
    } else if r == 5 {
        '6'
    } else {
        '7'
    }
}

/// The name of square `s`, as in "d4".
pub open spec fn square_text(s: int) -> Seq<char> {
    seq![col_char(col_of(s)), row_char(row_of(s))]
}

/// The text of a move: origin and destination, or `k` and the destination
/// for a king move.
pub open spec fn move_text(m: Move) -> Seq<char> {
    if m.piece_type == PieceType::King {
        seq!['k'] + square_text(m.end_index as int)
    } else {
        square_text(m.start_index as int) + square_text(m.end_index as int)
    }
}

fn col_str(c: usize) -> (r: &'static str)
    requires
        c < 7,
    ensures
        r@ == seq![col_char(c as int)],
{
    if c == 0 {
        proof { reveal_strlit("a"); }
        "a"
    } else if c == 1 {
        proof { reveal_strlit("b"); }
        "b"
    } else if c == 2 {
        proof { reveal_strlit("c"); }
        "c"
    } else if c == 3 {
        proof { reveal_strlit("d"); }
        "d"
    } else if c == 4 {
        proof { reveal_strlit("e"); }
        "e"
    } else if c == 5 {
        proof { reveal_strlit("f"); }
        "f"
    } else {
        proof { reveal_strlit("g"); }
        "g"
    }
}

fn row_str(r: usize) -> (s: &'static str)
    requires
        r < 7,
    ensures
        s@ == seq![row_char(r as int)],
{
    if r == 0 {
        proof { reveal_strlit("1"); }
        "1"
    } else if r == 1 {
        proof { reveal_strlit("2"); }
        "2"
    } else if r == 2 {
        proof { reveal_strlit("3"); }
        "3"
    } else if r == 3 {
        proof { reveal_strlit("4"); }
        "4"
    } else if r == 4 {
        proof { reveal_strlit("5"); }
        "5"
    } else if r == 5 {
        proof { reveal_strlit("6"); }
        "6"
    } else {
        proof { reveal_strlit("7"); }
        "7"
    }
}

impl Move {
    pub fn to_string(&self) -> (r: String)
        requires
            self.start_index < 49,
            self.end_index < 49,
        ensures
            r@ == move_text(*self),
    {
        let (start_row, start_col) = index_to_rc(self.start_index);
        let (end_row, end_col) = index_to_rc(self.end_index);
        let mut s = String::new();
        if self.piece_type == PieceType::King {
            proof { reveal_strlit("k"); }
            s.append("k");
        } else {
            s.append(col_str(start_col));
            s.append(row_str(start_row));
        }
        s.append(col_str(end_col));
        s.append(row_str(end_row));
        proof {
            if self.piece_type == PieceType::King {
                assert(s@ =~= move_text(*self));
            } else {
                assert(s@ =~= move_text(*self));
            }
        }
        s
    }
}


/// The glyph of square `i`: `V` attacker, `K` king, `O` defender, `#` an
/// empty off-limits square, `.` an empty square.
pub open spec fn glyph(v: BoardState, i: int) -> char {
    if sq_set(v.attackers, i) {
        'V'
    } else if sq_set(v.king, i) {
        'K'
    } else if sq_set(v.defenders, i) {
        'O'
    } else if sq_set(v.offlimits, i) {
        '#'
    } else {
        '.'
    }
}

/// The first `n` cells of row `r`, each glyph followed by a space.
pub open spec fn row_cells(v: BoardState, r: int, n: nat) -> Seq<char>
    decreases n,
{
    if n == 0 {
        Seq::empty()
    } else {
        row_cells(v, r, (n - 1) as nat) + seq![glyph(v, square(r, n - 1)), ' ']
    }
}

/// Row `r` as printed: its digit, a space, its cells, a newline.
pub open spec fn row_text(v: BoardState, r: int) -> Seq<char> {
    seq![row_char(r), ' '] + row_cells(v, r, 7) + seq!['\n']
}

/// The top `n` rows, from row 6 down.
pub open spec fn rows_text(v: BoardState, n: nat) -> Seq<char>
    decreases n,
{
    if n == 0 {
        Seq::empty()
    } else {
        rows_text(v, (n - 1) as nat) + row_text(v, 7 - n)
    }
}

/// The column header printed below the rows.
pub open spec fn footer_text() -> Seq<char> {
    seq![' ', ' ', 'a', ' ', 'b', ' ', 'c', ' ', 'd', ' ', 'e', ' ', 'f', ' ', 'g', ' ', '\n']
}

/// The board as printed: rows top-down, then the column header.
pub open spec fn board_text(v: BoardState) -> Seq<char> {
    rows_text(v, 7) + footer_text()
}

fn glyph_str(b: &Board, index: usize) -> (r: &'static str)
    requires
        index < 49,
    ensures
        r@ == seq![glyph(b@, index as int), ' '],
{
    proof {
        lemma_mask_test(b.attacker_board, index as u64);
        lemma_mask_test(b.king_board, index as u64);
        lemma_mask_test(b.defender_board, index as u64);
        lemma_mask_test(b.offlimits_board, index as u64);
    }
    let bit = 1u64 << index as u64;
    if b.attacker_board & bit != 0 {
        proof { reveal_strlit("V "); }
        "V "
    } else if b.king_board & bit != 0 {
        proof { reveal_strlit("K "); }
        "K "
    } else if b.defender_board & bit != 0 {
        proof { reveal_strlit("O "); }
        "O "
    } else if b.offlimits_board & bit != 0 {
        proof { reveal_strlit("# "); }
        "# "
    } else {
        proof { reveal_strlit(". "); }
        ". "
    }
}

impl Board {
    /// The board as a grid of glyphs, row 7 at the top, with the column
    /// letters underneath.
    pub fn to_string(&self) -> (r: String)
        ensures
            r@ == board_text(self@),
    {
        let mut s = String::new();
        let mut n: usize = 0;
        while n < BOARD_SIZE
            invariant
                n <= 7,
                s@ == rows_text(self@, n as nat),
            decreases 7 - n,
        {
            let i = BOARD_SIZE - 1 - n;
            let ghost before = s@;
            s.append(row_str(i));
            proof { reveal_strlit(" "); }
            s.append(" ");
            let mut j: usize = 0;
            proof {
                assert(s@ =~= before + seq![row_char(i as int), ' '] + row_cells(self@, i as int, 0));
            }
            while j < BOARD_SIZE
                invariant
                    j <= 7,
                    i < 7,
                    s@ == before + seq![row_char(i as int), ' '] + row_cells(self@, i as int, j as nat),
                decreases 7 - j,
            {
                let index = rc_to_index(i, j);
                s.append(glyph_str(self, index));
                proof {
                    assert(s@ =~= before + seq![row_char(i as int), ' '] + row_cells(self@, i as int, (j + 1) as nat));
                }
                j += 1;
            }
            proof { reveal_strlit("\n"); }
            s.append("\n");
            proof {
                assert(s@ =~= rows_text(self@, (n + 1) as nat));
            }
            n += 1;
        }
        proof { reveal_strlit("  a b c d e f g \n"); }
        s.append("  a b c d e f g \n");
        proof {
            assert(s@ =~= board_text(self@));
        }
        s
    }
}

/// The value of digit `c` counted from `first`, if it is one of the seven
/// characters from `first` on.
pub open spec fn digit_value(c: char, first: char) -> Option<int> {
    let d = c as u32 as int - first as u32 as int;
    if 0 <= d < 7 {
        Some(d)
    } else {
        None
    }
}

/// The move typed as `s`. A king move is `k` and the destination column
/// and row: the king steps from `king_index`, the square it stands on. Any
/// other move is the origin column and row and the destination column and
/// row, and belongs to the side to move. Columns are `a` to `g`, rows `1` to
/// `7`; anything after the move is ignored.
pub open spec fn parse_spec(s: Seq<char>, attacker_move: bool, king_index: usize) -> Option<Move> {
    if s.len() > 0 && s[0] == 'k' {
        if s.len() < 3 {
            None
        } else {
            match (digit_value(s[1], 'a'), digit_value(s[2], '1')) {
                (Some(c), Some(r)) => Some(
                    Move {
                        start_index: king_index,
                        end_index: square(r, c) as usize,
                        piece_type: PieceType::King,
                    },
                ),
                _ => None,
            }
        }
    } else if s.len() < 4 {
        None
    } else {
        match (
            digit_value(s[0], 'a'),
            digit_value(s[1], '1'),
            digit_value(s[2], 'a'),
            digit_value(s[3], '1'),
        ) {
            (Some(c1), Some(r1), Some(c2), Some(r2)) => Some(
                Move {
                    start_index: square(r1, c1) as usize,
                    end_index: square(r2, c2) as usize,
                    piece_type: if attacker_move {
                        PieceType::Attacker
                    } else {
                        PieceType::Defender
                    },
                },
            ),
            _ => None,
        }
    }
}

fn validate_move_num(c: char, first: char) -> (r: Option<usize>)
    ensures
        match r {
            Some(v) => digit_value(c, first) == Some(v as int),
            None => digit_value(c, first) is None,
        },
{
    let value = c as u32;
    let base = first as u32;
    if value >= base && value - base < 7 {
        Some((value - base) as usize)
    } else {
        None
    }
}

/// The value of character `i` of `text` as a digit counted from `first`.
fn parse_num(text: &str, i: usize, first: char) -> (r: Option<usize>)
    requires
        i < text@.len(),
    ensures
        match r {
            Some(v) => digit_value(text@[i as int], first) == Some(v as int),
            None => digit_value(text@[i as int], first) is None,
        },
{
    validate_move_num(text.get_char(i), first)
}

/// Reads a typed move; `king_index` is the square the king stands on,
/// which a king move starts from.
pub fn parse_move(s: &String, attacker_move: bool, king_index: usize) -> (r: Option<Move>)
    ensures
        r == parse_spec(s@, attacker_move, king_index),
{
    let text = s.as_str();
    let len = text.unicode_len();
    if len > 0 && text.get_char(0) == 'k' {
        if len < 3 {
            return None;
        }
        let end_col = parse_num(text, 1, 'a');
        let end_row = parse_num(text, 2, '1');
        return match (end_col, end_row) {
            (Some(c), Some(r)) => Some(
                Move { start_index: king_index, end_index: rc_to_index(r, c), piece_type: PieceType::King },
            ),
            _ => None,
        };
    }
    if len < 4 {
        return None;
    }
    let start_col = parse_num(text, 0, 'a');
    let start_row = parse_num(text, 1, '1');
    let end_col = parse_num(text, 2, 'a');
    let end_row = parse_num(text, 3, '1');
    match (start_col, start_row, end_col, end_row) {
        (Some(c1), Some(r1), Some(c2), Some(r2)) => {
            let piece_type = if attacker_move {
                PieceType::Attacker
            } else {
                PieceType::Defender
            };
            Some(Move { start_index: rc_to_index(r1, c1), end_index: rc_to_index(r2, c2), piece_type })
        },
        _ => None,
    }
}

/// Reading back the text of a move gives the move, provided the king stands
/// on the origin of a king move.
pub proof fn lemma_parse_move_text(m: Move, attacker_move: bool)
    requires
        m.start_index < 49,
        m.end_index < 49,
        m.piece_type != PieceType::King ==> (attacker_move <==> m.piece_type == PieceType::Attacker),
    ensures
        parse_spec(move_text(m), attacker_move, m.start_index) == Some(m),
{
    let t = move_text(m);
    let s = m.start_index as int;
    let e = m.end_index as int;
    assert(col_char(col_of(e)) as u32 as int - 'a' as u32 as int == col_of(e));
    assert(row_char(row_of(e)) as u32 as int - '1' as u32 as int == row_of(e));
    assert(col_char(col_of(s)) as u32 as int - 'a' as u32 as int == col_of(s));
    assert(row_char(row_of(s)) as u32 as int - '1' as u32 as int == row_of(s));
    if m.piece_type == PieceType::King {
        assert(t[0] == 'k');
        assert(t[1] == col_char(col_of(e)));
        assert(t[2] == row_char(row_of(e)));
    } else {
        assert(t[0] == col_char(col_of(s)));
        assert(t[0] != 'k');
        assert(t[2] == col_char(col_of(e)));
        assert(t[3] == row_char(row_of(e)));
    }
}

} // verus!
