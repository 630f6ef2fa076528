use naughts::board::Board;
use naughts::world::{World, WorldState};

#[test]
fn test_result() {
    let b = Board::new();
    let state1 = b.data();
    println!("State1 = {}", state1);
    let b2 = Board::from_data(&state1);

    assert_eq!(b.data(), state1, "State was exported the same twice");
    assert_eq!(b2.data(), state1, "State was imported correctly");
}

#[test]
fn empty_board_text_is_nine_dashes() {
    assert_eq!(Board::new().data(), "---------");
}

#[test]
fn malformed_board_text_gives_empty_board() {
    assert_eq!(Board::from_data("XO").data(), "---------");
}

#[test]
fn board_detects_lines_and_draws() {
    let mut b = Board::new();
    assert_eq!(b.get_game_state(), 0);
    assert!(!b.is_ended());
    b.setat(0, 'X');
    b.setat(4, 'X');
    b.setat(8, 'X');
    assert_eq!(b.get_game_state(), 1);
    assert_eq!(b.get_winner(), 'X');
    let o = Board::from_data("OOO-XX-X-");
    assert_eq!(o.get_game_state(), 2);
    assert_eq!(o.get_winner(), 'O');
    let d = Board::from_data("XOXXOOOXX");
    assert_eq!(d.get_game_state(), 3);
    assert_eq!(d.get_winner(), ' ');
    assert!(d.is_ended());
}

#[test]
fn board_cells_and_moves() {
    let b = Board::from_data("X-O-X-O--");
    assert_eq!(b.getat(0), 'X');
    assert_eq!(b.getat(1), ' ');
    assert_eq!(b.getat_multi("012"), "X O");
    assert_eq!(b.get_possible_moves(), vec![1, 3, 5, 7, 8]);
    assert_eq!(b.get_first_empty_space("0246"), None);
    assert_eq!(b.get_first_empty_space("0423"), Some(3));
}

#[test]
fn board_rotation() {
    let b = Board::from_data("XO-------");
    assert_eq!(b.get_rotated_board(1).data(), "--X--O---");
    assert_eq!(b.get_rotated_board(4).data(), "XO-------");
    assert_eq!(b.get_rotated_board(2).data(), "-------OX");
}

#[test]
fn board_clear_and_copy() {
    let mut b = Board::from_data("XOXOXOXOX");
    let c = b.copy();
    b.clear();
    assert_eq!(b.data(), "---------");
    assert_eq!(c.data(), "XOXOXOXOX");
}

#[test]
fn world_gravity_and_moves() {
    let mut w = World::new();
    assert_eq!(w.get_possible_moves(), vec![0, 1, 2, 3, 4, 5, 6]);
    w.setat(3, 'X');
    w.setat(3, 'O');
    assert_eq!(w.getat(3, 0), 'X');
    assert_eq!(w.getat(3, 1), 'O');
    assert_eq!(w.getat(3, 2), ' ');
    assert_eq!(w.getindex(3, 1), 10);
    assert_eq!(w.getrow(0), vec![' ', ' ', ' ', 'X', ' ', ' ', ' ']);
    assert_eq!(w.get_game_state(), WorldState::InProgress);
}

#[test]
fn world_full_column_closes() {
    let mut w = World::new();
    for i in 0..7 {
        w.setat(0, if i % 2 == 0 { 'X' } else { 'O' });
    }
    assert_eq!(w.get_possible_moves(), vec![1, 2, 3, 4, 5, 6]);
}

#[test]
fn world_detects_wins() {
    let mut w = World::new();
    for c in 0..4 {
        w.setat(c, 'O');
    }
    assert_eq!(w.get_game_state(), WorldState::OWin);
    assert_eq!(w.get_winner(), Some('O'));
    let mut v = World::new();
    for _ in 0..4 {
        v.setat(6, 'X');
    }
    assert_eq!(v.get_game_state(), WorldState::XWin);
    let mut d = World::new();
    d.setat_raw(0, 0, 'X');
    d.setat_raw(1, 1, 'X');
    d.setat_raw(2, 2, 'X');
    d.setat_raw(3, 3, 'X');
    assert!(d.is_ended());
    assert_eq!(World::empty_world().len(), 49);
}

#[test]
fn board_display_lines() {
    let lines = Board::from_data("XO-------").show(2);
    assert_eq!(lines.len(), 6);
    assert_eq!(lines[0], "   X | O |   ");
    assert_eq!(lines[1], "  -----------");
    assert_eq!(lines[2], "     |   |   ");
    assert_eq!(lines[5], "");
    assert_eq!(Board::new().show(0)[1], " -----------");
}

#[test]
fn world_display_lines() {
    let mut w = World::new();
    w.setat(2, 'X');
    let lines = w.show(0);
    assert_eq!(lines.len(), 15);
    assert_eq!(lines[0], " |   |   |   |   |   |   |   |");
    assert_eq!(lines[1], format!(" |{}|", "-".repeat(27)));
    assert_eq!(lines[12], " |   |   | X |   |   |   |   |");
    assert_eq!(lines[13], format!(" \\{}/", "-".repeat(27)));
    assert_eq!(lines[14], "");
}
