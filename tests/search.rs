use tafl::board::{Board, Move, PieceType};
use tafl::engine::TaflAI;
use tafl::eval::naive_eval;
use tafl::movegen::MoveGenerator;
use tafl::ttable::{Flag, TranspositionTable};

fn keyed_table(seed: u64) -> TranspositionTable {
    let mut state = seed;
    let mut next = || {
        state = state.wrapping_add(0x9E37_79B9_7F4A_7C15);
        let mut z = state;
        z = (z ^ (z >> 30)).wrapping_mul(0xBF58_476D_1CE4_E5B9);
        z = (z ^ (z >> 27)).wrapping_mul(0x94D0_49BB_1331_11EB);
        z ^ (z >> 31)
    };
    let mut keys = Vec::new();
    for _ in 0..49 {
        keys.push([next(), next(), next()]);
    }
    let side = next();
    TranspositionTable::from_keys(keys, side, 16)
}

fn bits(squares: &[usize]) -> u64 {
    squares.iter().fold(0u64, |acc, &s| acc | (1u64 << s))
}

#[test]
fn depth_one_from_start_returns_defender_move() {
    let mut ai = TaflAI { max_depth: 1, ttable: keyed_table(1) };
    let mut b = Board::starting(&ai.ttable);
    let moves = MoveGenerator::new(&b).cached_moves;
    let rec = ai.find_best_move(&mut b);
    assert!(moves.contains(&rec.best_move));
    assert!(rec.best_move.piece_type != PieceType::Attacker);
    assert!(rec.nnodes >= 1 + moves.len());
    assert_eq!(b.attacker_board, 123437837206556);
    assert_eq!(b.defender_board, 7558594560);
    assert!(b.history.is_empty());
}

#[test]
fn depth_one_picks_best_static_reply() {
    let mut ai = TaflAI { max_depth: 1, ttable: keyed_table(2) };
    let mut b = Board::starting(&ai.ttable);
    let moves = MoveGenerator::new(&b).cached_moves;
    let mut best = i16::MAX;
    for m in &moves {
        b.make_move(*m, &ai.ttable);
        best = best.min(naive_eval(&b));
        b.unmake_move();
    }
    let rec = ai.find_best_move(&mut b);
    assert_eq!(rec.evaluation, best);
    b.make_move(rec.best_move, &ai.ttable);
    assert_eq!(naive_eval(&b), best);
}

#[test]
fn zero_depth_searches_nothing() {
    let mut ai = TaflAI { max_depth: 0, ttable: keyed_table(3) };
    let mut b = Board::starting(&ai.ttable);
    let rec = ai.find_best_move(&mut b);
    assert_eq!(rec.nnodes, 1);
    assert_eq!(rec.evaluation, 32767);
    assert_eq!(rec.best_move, Move { start_index: 0, end_index: 0, piece_type: PieceType::Attacker });
}

#[test]
fn no_moves_is_a_draw() {
    let mut ai = TaflAI { max_depth: 3, ttable: keyed_table(4) };
    let mut b = Board::new(bits(&[1]), bits(&[2, 8]), bits(&[24]), bits(&[0, 6, 42, 48]), true, &ai.ttable);
    let rec = ai.find_best_move(&mut b);
    assert_eq!(rec.evaluation, 0);
    assert_eq!(rec.nnodes, 1);
}

#[test]
fn finds_king_escape() {
    let mut ai = TaflAI { max_depth: 2, ttable: keyed_table(5) };
    // king on b2 can reach b1 (an edge square) at once
    let mut b = Board::new(bits(&[40, 44]), bits(&[30]), bits(&[8]), bits(&[0, 6, 24, 42, 48]), false, &ai.ttable);
    let rec = ai.find_best_move(&mut b);
    assert_eq!(rec.best_move.piece_type, PieceType::King);
    b.make_move(rec.best_move, &ai.ttable);
    assert!(b.defender_win);
    assert!(rec.evaluation <= -10000);
}

#[test]
fn finds_king_capture() {
    let mut ai = TaflAI { max_depth: 2, ttable: keyed_table(6) };
    let mut b = Board::new(bits(&[17, 23, 25, 30]), bits(&[46]), bits(&[24]), bits(&[0, 6, 42, 48]), true, &ai.ttable);
    let rec = ai.find_best_move(&mut b);
    assert_eq!(rec.best_move, Move { start_index: 30, end_index: 31, piece_type: PieceType::Attacker });
    assert!(rec.evaluation >= 10000);
}

#[test]
fn second_search_uses_table() {
    let mut ai = TaflAI { max_depth: 3, ttable: keyed_table(7) };
    let mut b = Board::starting(&ai.ttable);
    let first = ai.find_best_move(&mut b);
    let second = ai.find_best_move(&mut b);
    assert_eq!(second.evaluation, first.evaluation);
    assert!(second.nnodes < first.nnodes);
}

#[test]
fn search_is_deterministic_for_fixed_keys() {
    let mut ai1 = TaflAI { max_depth: 3, ttable: keyed_table(8) };
    let mut ai2 = TaflAI { max_depth: 3, ttable: keyed_table(8) };
    let mut b1 = Board::starting(&ai1.ttable);
    let mut b2 = Board::starting(&ai2.ttable);
    let r1 = ai1.find_best_move(&mut b1);
    let r2 = ai2.find_best_move(&mut b2);
    assert_eq!(r1.best_move, r2.best_move);
    assert_eq!(r1.evaluation, r2.evaluation);
    assert_eq!(r1.nnodes, r2.nnodes);
}

#[test]
fn search_leaves_board_unchanged() {
    let mut ai = TaflAI { max_depth: 3, ttable: keyed_table(9) };
    let mut b = Board::starting(&ai.ttable);
    let first = MoveGenerator::new(&b).cached_moves[0];
    b.make_move(first, &ai.ttable);
    let before_hash = b.current_hash;
    let before_len = b.history.len();
    let rec = ai.find_best_move(&mut b);
    assert_eq!(b.current_hash, before_hash);
    assert_eq!(b.history.len(), before_len);
    assert_eq!(rec.best_move.piece_type, PieceType::Attacker);
}

#[test]
fn table_store_and_probe() {
    let mut tt = keyed_table(10);
    let b = Board::starting(&tt);
    assert!(!tt.haskey(&b));
    tt.store(&b, 123, 4, Flag::LOWERBOUND);
    assert!(tt.haskey(&b));
    let e = *tt.retrieve(&b).unwrap();
    assert_eq!(e.evaluation, 123);
    assert_eq!(e.depth, 4);
    assert_eq!(e.flag, Flag::LOWERBOUND);
    assert_eq!(e.key, b.current_hash);
    tt.store(&b, -5, 2, Flag::EXACT);
    assert_eq!(tt.retrieve(&b).unwrap().evaluation, -5);
}

#[test]
fn table_collision_is_a_miss() {
    let mut tt = keyed_table(11);
    let mut a = Board::starting(&tt);
    let mut b = Board::starting(&tt);
    a.current_hash = 5;
    b.current_hash = 5 + (tt.capacity as u64);
    tt.store(&a, 42, 3, Flag::EXACT);
    assert!(tt.haskey(&a));
    assert!(!tt.haskey(&b));
    assert!(tt.retrieve(&b).is_none());
    tt.store(&b, 7, 1, Flag::UPPERBOUND);
    assert!(tt.retrieve(&a).is_none());
}

#[test]
fn random_tables_differ() {
    let t1 = TranspositionTable::new();
    let t2 = TranspositionTable::new();
    assert_eq!(t1.capacity, 1 << 20);
    assert_eq!(t1.table.len(), 1 << 20);
    assert_eq!(t1.init_hash.len(), 49);
    assert!(t1.init_hash != t2.init_hash || t1.attacker_bits_seed != t2.attacker_bits_seed);
}

#[test]
fn every_iteration_searches_every_root_move() {
    let mut ai = TaflAI { max_depth: 3, ttable: keyed_table(12) };
    let mut b = Board::starting(&ai.ttable);
    let n = MoveGenerator::new(&b).cached_moves.len();
    let rec = ai.find_best_move(&mut b);
    assert!(rec.nnodes >= 1 + 3 * n);
}

#[test]
fn zero_depth_leaves_table_alone() {
    let mut ai = TaflAI { max_depth: 0, ttable: keyed_table(13) };
    let mut b = Board::starting(&ai.ttable);
    let before = ai.ttable.table.clone();
    ai.find_best_move(&mut b);
    assert!(ai.ttable.table == before);
}

#[test]
fn parse_king_move_from_board() {
    let ai = TaflAI { max_depth: 1, ttable: keyed_table(14) };
    let b = Board::new(bits(&[40]), 0, bits(&[9]), bits(&[0, 6, 42, 48]), false, &ai.ttable);
    let m = tafl::notation::parse_move(&String::from("kc3"), b.attacker_move, b.king_index()).unwrap();
    assert_eq!(m, Move { start_index: 9, end_index: 16, piece_type: PieceType::King });
    assert!(MoveGenerator::new(&b).cached_moves.contains(&m));
}
