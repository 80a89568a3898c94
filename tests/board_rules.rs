use tafl::board::{
    index_to_rc, inbounds, rc_to_index, valid_capture, Board, Move, PieceType, STARTING_ATTACKERS,
    STARTING_DEFENDERS, STARTING_KING, STARTING_OFFLIMITS,
};
use tafl::eval::naive_eval;
use tafl::movegen::MoveGenerator;
use tafl::ttable::TranspositionTable;

fn fixed_table() -> TranspositionTable {
    let mut state: u64 = 0x9E37_79B9_7F4A_7C15;
    let mut next = || {
        state = state.wrapping_add(0x9E37_79B9_7F4A_7C15);
        let mut z = state;
        z = (z ^ (z >> 30)).wrapping_mul(0xBF58_476D_1CE4_E5B9);
        z = (z ^ (z >> 27)).wrapping_mul(0x94D0_49BB_1331_11EB);
        z ^ (z >> 31)
    };
    let mut keys = Vec::new();
    for _ in 0..49 {
        keys.push([next(), next(), next()]);
    }
    let side = next();
    TranspositionTable::from_keys(keys, side, 12)
}

fn bits(squares: &[usize]) -> u64 {
    squares.iter().fold(0u64, |acc, &s| acc | (1u64 << s))
}

#[test]
fn starting_position_bitboards() {
    let tt = fixed_table();
    let b = Board::starting(&tt);
    assert_eq!(b.attacker_board, 123437837206556);
    assert_eq!(b.defender_board, 7558594560);
    assert_eq!(b.king_board, 16777216);
    assert_eq!(b.offlimits_board, 285873039999041);
    assert!(!b.attacker_move);
    assert!(!b.attacker_win && !b.defender_win && !b.stalemate);
    assert_eq!(b.king_index(), 24);
    assert_eq!(b.king_coordinates(), (3, 3));
    assert_eq!(b.current_hash, tt.hash_from_board(&b));
    assert!(b.history.is_empty());
    assert_eq!(STARTING_ATTACKERS | STARTING_DEFENDERS | STARTING_KING | STARTING_OFFLIMITS, b.attacker_board | b.defender_board | b.king_board | b.offlimits_board);
}

#[test]
fn square_index_round_trip() {
    for i in 0..49 {
        let (r, c) = index_to_rc(i);
        assert!(r < 7 && c < 7);
        assert_eq!(rc_to_index(r, c), i);
    }
    assert_eq!(rc_to_index(3, 3), 24);
    assert_eq!(index_to_rc(31), (4, 3));
}

#[test]
fn inbounds_edges() {
    assert!(inbounds(0, 0));
    assert!(inbounds(6, 6));
    assert!(!inbounds(-1, 3));
    assert!(!inbounds(3, 7));
    assert!(!inbounds(7, 0));
}

#[test]
fn custodian_capture_needs_far_ally() {
    // attacker on c4 (row 3, col 2), capturer arriving at c3 (row 2, col 2)
    let capturee = bits(&[23]);
    assert!(valid_capture(bits(&[30]), capturee, (2, 2), (3, 2)));
    assert!(!valid_capture(0, capturee, (2, 2), (3, 2)));
    assert!(!valid_capture(bits(&[30]), 0, (2, 2), (3, 2)));
    // far square off the board
    assert!(!valid_capture(u64::MAX, bits(&[6]), (0, 5), (0, 6)));
}

#[test]
fn king_capture_completes_surround() {
    let tt = fixed_table();
    let mut b = Board::new(bits(&[17, 23, 25, 30]), 0, bits(&[24]), bits(&[0, 6, 42, 48]), true, &tt);
    assert!(!b.king_captured());
    b.make_move(Move { start_index: 30, end_index: 31, piece_type: PieceType::Attacker }, &tt);
    assert!(b.attacker_win);
    assert!(!b.defender_win && !b.stalemate);
    assert!(b.king_captured());
}

#[test]
fn king_at_edge_captured_by_board_neighbours_only() {
    let tt = fixed_table();
    // king on b1 (index 1): neighbours a1 (corner, off limits), c1 and b2
    let b = Board::new(bits(&[2, 8]), 0, bits(&[1]), bits(&[0, 6, 42, 48]), false, &tt);
    assert!(b.king_captured());
    let b2 = Board::new(bits(&[2]), 0, bits(&[1]), bits(&[0, 6, 42, 48]), false, &tt);
    assert!(!b2.king_captured());
}

#[test]
fn king_escape_to_edge() {
    let tt = fixed_table();
    let mut b = Board::new(bits(&[40]), bits(&[20]), bits(&[1]), bits(&[0, 6, 42, 48]), false, &tt);
    b.make_move(Move { start_index: 1, end_index: 0, piece_type: PieceType::King }, &tt);
    assert!(b.defender_win);
    assert!(!b.attacker_win);
    assert_eq!(b.king_index(), 0);
}

#[test]
fn king_move_to_inner_square_does_not_win() {
    let tt = fixed_table();
    let mut b = Board::new(bits(&[40]), 0, bits(&[9]), bits(&[0, 6, 42, 48]), false, &tt);
    b.make_move(Move { start_index: 9, end_index: 16, piece_type: PieceType::King }, &tt);
    assert!(!b.defender_win);
}

#[test]
fn custodian_capture_of_attacker() {
    let tt = fixed_table();
    // defender b3 -> c3 sandwiches the attacker on c4 against the king on c5
    let mut b = Board::new(bits(&[23]), bits(&[15]), bits(&[30]), bits(&[0, 6, 42, 48]), false, &tt);
    b.make_move(Move { start_index: 15, end_index: 16, piece_type: PieceType::Defender }, &tt);
    assert_eq!(b.attacker_board, 0);
    assert_eq!(b.defender_board, bits(&[16]));
    assert_eq!(b.current_hash, tt.hash_from_board(&b));
    b.unmake_move();
    assert_eq!(b.attacker_board, bits(&[23]));
    assert_eq!(b.defender_board, bits(&[15]));
}

#[test]
fn attacker_captures_defender_and_several_at_once() {
    let tt = fixed_table();
    // attacker moving onto d4 (24) catches defenders on c4 and e4 against b4 and f4
    let mut b = Board::new(bits(&[22, 26, 17]), bits(&[23, 25]), bits(&[45]), bits(&[0, 6, 42, 48]), true, &tt);
    b.make_move(Move { start_index: 17, end_index: 24, piece_type: PieceType::Attacker }, &tt);
    assert_eq!(b.defender_board, 0);
    assert_eq!(b.current_hash, tt.hash_from_board(&b));
}

#[test]
fn offlimits_square_is_not_a_capturer() {
    let tt = fixed_table();
    // attacker on b1 next to the corner a1: a defender arriving at c1 does not capture it
    let mut b = Board::new(bits(&[1]), bits(&[9]), bits(&[30]), bits(&[0, 6, 42, 48]), false, &tt);
    b.make_move(Move { start_index: 9, end_index: 2, piece_type: PieceType::Defender }, &tt);
    assert_eq!(b.attacker_board, bits(&[1]));
}

#[test]
fn make_unmake_restores_everything() {
    let tt = fixed_table();
    let mut b = Board::starting(&tt);
    let before = b.clone();
    let mut played = 0;
    for _ in 0..6 {
        let moves = MoveGenerator::new(&b).cached_moves;
        let m = moves[moves.len() / 2];
        b.make_move(m, &tt);
        assert_eq!(b.current_hash, tt.hash_from_board(&b));
        played += 1;
    }
    assert_eq!(b.history.len(), played);
    for _ in 0..played {
        b.unmake_move();
    }
    assert_eq!(b.attacker_board, before.attacker_board);
    assert_eq!(b.defender_board, before.defender_board);
    assert_eq!(b.king_board, before.king_board);
    assert_eq!(b.attacker_move, before.attacker_move);
    assert_eq!(b.current_hash, before.current_hash);
    assert_eq!(b.attacker_win, before.attacker_win);
    assert_eq!(b.defender_win, before.defender_win);
    assert_eq!(b.stalemate, before.stalemate);
    assert!(b.history.is_empty());
}

#[test]
fn unmake_restores_terminal_flags() {
    let tt = fixed_table();
    let mut b = Board::new(bits(&[40]), bits(&[20]), bits(&[1]), bits(&[0, 6, 42, 48]), false, &tt);
    b.make_move(Move { start_index: 1, end_index: 0, piece_type: PieceType::King }, &tt);
    assert!(b.defender_win);
    b.make_move(Move { start_index: 40, end_index: 41, piece_type: PieceType::Attacker }, &tt);
    assert!(b.defender_win);
    b.unmake_move();
    assert!(b.defender_win);
    b.unmake_move();
    assert!(!b.defender_win);
}

#[test]
fn hash_matches_recomputation_after_every_move() {
    let tt = fixed_table();
    let mut b = Board::starting(&tt);
    for k in 0..10 {
        let moves = MoveGenerator::new(&b).cached_moves;
        if moves.is_empty() || b.attacker_win || b.defender_win {
            break;
        }
        b.make_move(moves[k % moves.len()], &tt);
        assert_eq!(b.current_hash, tt.hash_from_board(&b));
    }
}

#[test]
fn transposition_gives_same_hash() {
    let tt = fixed_table();
    let d1 = Move { start_index: 16, end_index: 15, piece_type: PieceType::Defender };
    let d2 = Move { start_index: 18, end_index: 19, piece_type: PieceType::Defender };
    let a1 = Move { start_index: 44, end_index: 43, piece_type: PieceType::Attacker };
    let a2 = Move { start_index: 4, end_index: 5, piece_type: PieceType::Attacker };
    let mut x = Board::starting(&tt);
    x.make_move(d1, &tt);
    x.make_move(a1, &tt);
    x.make_move(d2, &tt);
    x.make_move(a2, &tt);
    let mut y = Board::starting(&tt);
    y.make_move(d2, &tt);
    y.make_move(a2, &tt);
    y.make_move(d1, &tt);
    y.make_move(a1, &tt);
    assert_eq!(x.attacker_board, y.attacker_board);
    assert_eq!(x.defender_board, y.defender_board);
    assert_eq!(x.current_hash, y.current_hash);
    assert_ne!(x.current_hash, Board::starting(&tt).current_hash);
}

#[test]
fn side_to_move_changes_hash() {
    let tt = fixed_table();
    let a = Board::new(bits(&[2]), bits(&[16]), bits(&[24]), 0, false, &tt);
    let b = Board::new(bits(&[2]), bits(&[16]), bits(&[24]), 0, true, &tt);
    assert_eq!(a.current_hash ^ b.current_hash, tt.attacker_bits_seed);
}

#[test]
fn repetition_is_a_draw() {
    let tt = fixed_table();
    let mut b = Board::new(bits(&[40]), bits(&[20]), bits(&[24]), bits(&[0, 6, 42, 48]), false, &tt);
    let d_out = Move { start_index: 20, end_index: 19, piece_type: PieceType::Defender };
    let a_out = Move { start_index: 40, end_index: 39, piece_type: PieceType::Attacker };
    let d_back = Move { start_index: 19, end_index: 20, piece_type: PieceType::Defender };
    let a_back = Move { start_index: 39, end_index: 40, piece_type: PieceType::Attacker };
    b.make_move(d_out, &tt);
    b.make_move(a_out, &tt);
    b.make_move(d_back, &tt);
    assert!(!b.stalemate);
    assert!(!b.is_repetition());
    b.make_move(a_back, &tt);
    assert!(b.stalemate);
    assert!(b.is_repetition());
    b.unmake_move();
    assert!(!b.stalemate);
}

#[test]
fn starting_evaluation() {
    let tt = fixed_table();
    let b = Board::starting(&tt);
    // 100 * 16 - 100 * 8 + 100 + 0 adjacent attackers - 6 from the corners
    assert_eq!(naive_eval(&b), 894);
}

#[test]
fn evaluation_terms() {
    let tt = fixed_table();
    // king on b2 (index 8): nearest corner distance 2; attackers on a2 and b3 next to it
    let b = Board::new(bits(&[7, 15, 40]), bits(&[30]), bits(&[8]), bits(&[0, 6, 42, 48]), false, &tt);
    assert_eq!(naive_eval(&b), 300 - 100 + 100 + 2 - 2);
}

#[test]
fn evaluation_of_stalemate_is_zero() {
    let tt = fixed_table();
    let mut b = Board::new(bits(&[40]), bits(&[20]), bits(&[24]), bits(&[0, 6, 42, 48]), false, &tt);
    b.stalemate = true;
    assert_eq!(naive_eval(&b), 0);
}

#[test]
fn evaluation_unchanged_by_make_unmake() {
    let tt = fixed_table();
    let mut b = Board::starting(&tt);
    let before = naive_eval(&b);
    for m in MoveGenerator::new(&b).cached_moves {
        b.make_move(m, &tt);
        b.unmake_move();
        assert_eq!(naive_eval(&b), before);
    }
}
