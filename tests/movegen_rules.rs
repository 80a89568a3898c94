use tafl::board::{Board, Move, PieceType};
use tafl::movegen::MoveGenerator;
use tafl::ttable::TranspositionTable;

fn small_table() -> TranspositionTable {
    let mut keys = Vec::new();
    let mut x: u64 = 88172645463325252;
    for _ in 0..49 {
        let mut k = [0u64; 3];
        for slot in k.iter_mut() {
            x ^= x << 13;
            x ^= x >> 7;
            x ^= x << 17;
            *slot = x;
        }
        keys.push(k);
    }
    TranspositionTable::from_keys(keys, 0x5555_0000_aaaa_1111, 10)
}

fn bits(squares: &[usize]) -> u64 {
    squares.iter().fold(0u64, |acc, &s| acc | (1u64 << s))
}

fn adjacent(a: usize, b: usize) -> bool {
    let (ra, ca) = (a / 7, a % 7);
    let (rb, cb) = (b / 7, b % 7);
    ra.abs_diff(rb) + ca.abs_diff(cb) == 1
}

#[test]
fn starting_moves_are_defender_steps() {
    let tt = small_table();
    let b = Board::starting(&tt);
    let moves = MoveGenerator::new(&b).cached_moves;
    // every defender on the second ring has two free neighbours; the inner ones none, the king none
    assert_eq!(moves.len(), 8);
    let occupied = b.attacker_board | b.defender_board | b.king_board;
    for m in &moves {
        assert!(m.start_index < 49 && m.end_index < 49);
        assert!(adjacent(m.start_index, m.end_index));
        assert_eq!(occupied & (1u64 << m.end_index), 0);
        assert_eq!(b.offlimits_board & (1u64 << m.end_index), 0);
        match m.piece_type {
            PieceType::Defender => assert_ne!(b.defender_board & (1u64 << m.start_index), 0),
            PieceType::King => assert_ne!(b.king_board & (1u64 << m.start_index), 0),
            PieceType::Attacker => panic!("attacker move generated for the defenders"),
        }
    }
    for i in 0..moves.len() {
        for j in (i + 1)..moves.len() {
            assert_ne!(moves[i], moves[j]);
        }
    }
}

#[test]
fn attacker_moves_after_defender_move() {
    let tt = small_table();
    let mut b = Board::starting(&tt);
    let first = MoveGenerator::new(&b).cached_moves[0];
    b.make_move(first, &tt);
    let moves = MoveGenerator::new(&b).cached_moves;
    assert!(!moves.is_empty());
    for m in &moves {
        assert_eq!(m.piece_type, PieceType::Attacker);
        assert_ne!(b.attacker_board & (1u64 << m.start_index), 0);
        assert_eq!(b.offlimits_board & (1u64 << m.end_index), 0);
    }
    for i in 0..moves.len() {
        for j in (i + 1)..moves.len() {
            assert_ne!(moves[i], moves[j]);
        }
    }
}

#[test]
fn king_may_cross_offlimits_squares() {
    let tt = small_table();
    // king next to the corner a1 and the throne is not involved
    let b = Board::new(bits(&[40]), 0, bits(&[1]), bits(&[0, 6, 24, 42, 48]), false, &tt);
    let moves = MoveGenerator::new(&b).cached_moves;
    assert!(moves.contains(&Move { start_index: 1, end_index: 0, piece_type: PieceType::King }));
    assert_eq!(moves.len(), 3);
    // the corner move scores highest and comes first
    assert_eq!(moves[0], Move { start_index: 1, end_index: 0, piece_type: PieceType::King });
}

#[test]
fn defender_may_not_enter_offlimits() {
    let tt = small_table();
    let b = Board::new(bits(&[40]), bits(&[1]), bits(&[24]), bits(&[0, 6, 24, 42, 48]), false, &tt);
    let moves = MoveGenerator::new(&b).cached_moves;
    assert!(!moves.contains(&Move { start_index: 1, end_index: 0, piece_type: PieceType::Defender }));
    assert!(moves.contains(&Move { start_index: 1, end_index: 2, piece_type: PieceType::Defender }));
    assert!(moves.contains(&Move { start_index: 1, end_index: 8, piece_type: PieceType::Defender }));
}

#[test]
fn capturing_move_is_tried_first() {
    let tt = small_table();
    // defender on b3 can capture the attacker on c4 by stepping to c3 (king on c5)
    let b = Board::new(bits(&[23, 47]), bits(&[15]), bits(&[30]), bits(&[0, 6, 42, 48]), false, &tt);
    let moves = MoveGenerator::new(&b).cached_moves;
    assert_eq!(moves[0], Move { start_index: 15, end_index: 16, piece_type: PieceType::Defender });
}

#[test]
fn attacker_move_next_to_king_is_preferred() {
    let tt = small_table();
    // the attacker on c1 may step to b1, d1 or c2; only c2 touches the king on c3
    let b = Board::new(bits(&[2]), 0, bits(&[16]), bits(&[0, 6, 42, 48]), true, &tt);
    let moves = MoveGenerator::new(&b).cached_moves;
    assert_eq!(moves[0], Move { start_index: 2, end_index: 9, piece_type: PieceType::Attacker });
    assert_eq!(moves.len(), 3);
}

#[test]
fn next_yields_in_order() {
    let tt = small_table();
    let b = Board::starting(&tt);
    let mut g = MoveGenerator::new(&b);
    let all = g.cached_moves.clone();
    let mut seen = Vec::new();
    while let Some(m) = g.next() {
        seen.push(m);
    }
    assert_eq!(seen, all);
    assert!(g.next().is_none());
}

#[test]
fn no_moves_when_blocked() {
    let tt = small_table();
    // a lone attacker in the corner region hemmed in by defenders; attackers to move
    let b = Board::new(bits(&[1]), bits(&[2, 8]), bits(&[24]), bits(&[0, 6, 42, 48]), true, &tt);
    assert!(MoveGenerator::new(&b).cached_moves.is_empty());
}
