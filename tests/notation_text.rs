use tafl::board::{Board, Move, PieceType};
use tafl::notation::parse_move;
use tafl::ttable::TranspositionTable;

fn table() -> TranspositionTable {
    let keys: Vec<[u64; 3]> = (0..49u64)
        .map(|i| [i.wrapping_mul(0x1234_5678_9abc_def1), i ^ 0xdead_beef_0000_0001, i.rotate_left(17) | 1])
        .collect();
    TranspositionTable::from_keys(keys, 77, 8)
}

#[test]
fn move_text_plain_and_king() {
    let m = Move { start_index: 24, end_index: 31, piece_type: PieceType::Defender };
    assert_eq!(m.to_string(), "d4d5");
    let a = Move { start_index: 0, end_index: 48, piece_type: PieceType::Attacker };
    assert_eq!(a.to_string(), "a1g7");
    let k = Move { start_index: 24, end_index: 31, piece_type: PieceType::King };
    assert_eq!(k.to_string(), "kd5");
}

#[test]
fn parse_plain_moves() {
    let s = String::from("d4d5");
    assert_eq!(
        parse_move(&s, false, 24),
        Some(Move { start_index: 24, end_index: 31, piece_type: PieceType::Defender })
    );
    assert_eq!(
        parse_move(&s, true, 24),
        Some(Move { start_index: 24, end_index: 31, piece_type: PieceType::Attacker })
    );
    assert_eq!(
        parse_move(&String::from("a1g7\n"), true, 24),
        Some(Move { start_index: 0, end_index: 48, piece_type: PieceType::Attacker })
    );
}

#[test]
fn parse_king_move() {
    let s = String::from("kd5");
    assert_eq!(
        parse_move(&s, false, 24),
        Some(Move { start_index: 24, end_index: 31, piece_type: PieceType::King })
    );
    assert_eq!(
        parse_move(&s, true, 24),
        Some(Move { start_index: 24, end_index: 31, piece_type: PieceType::King })
    );
}

#[test]
fn parse_rejects_malformed() {
    assert_eq!(parse_move(&String::from(""), false, 24), None);
    assert_eq!(parse_move(&String::from("d4d"), false, 24), None);
    assert_eq!(parse_move(&String::from("h1a1"), false, 24), None);
    assert_eq!(parse_move(&String::from("a8a7"), false, 24), None);
    assert_eq!(parse_move(&String::from("a0a1"), false, 24), None);
    assert_eq!(parse_move(&String::from("k"), false, 24), None);
    assert_eq!(parse_move(&String::from("1a2a"), false, 24), None);
}

#[test]
fn parse_reads_back_plain_move_text() {
    let m = Move { start_index: 16, end_index: 15, piece_type: PieceType::Defender };
    assert_eq!(parse_move(&m.to_string(), false, 24), Some(m));
    let k = Move { start_index: 24, end_index: 23, piece_type: PieceType::King };
    assert_eq!(k.to_string(), "kc4");
    assert_eq!(parse_move(&k.to_string(), true, 24), Some(k));
}

#[test]
fn parse_rejects_malformed_king_moves() {
    assert_eq!(parse_move(&String::from("kd"), false, 24), None);
    assert_eq!(parse_move(&String::from("kz5"), false, 24), None);
    assert_eq!(parse_move(&String::from("kd9"), false, 24), None);
}

#[test]
fn starting_board_rendering() {
    let tt = table();
    let b = Board::starting(&tt);
    let expected = "7 # . V V V . # \n\
                    6 . . . V . . . \n\
                    5 V . O O O . V \n\
                    4 V V O K O V V \n\
                    3 V . O O O . V \n\
                    2 . . . V . . . \n\
                    1 # . V V V . # \n  a b c d e f g \n";
    assert_eq!(b.to_string(), expected);
}

#[test]
fn king_on_offlimits_square_shows_as_king() {
    let tt = table();
    let b = Board::new(0, 0, 1u64 << 24, (1u64 << 24) | 1, false, &tt);
    let text = b.to_string();
    let lines: Vec<&str> = text.lines().collect();
    assert_eq!(lines[3], "4 . . . K . . . ");
    assert_eq!(lines[6], "1 # . . . . . . ");
}
