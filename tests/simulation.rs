use naughts::circuit::GenBot3;
use naughts::connect4::Connect4Game;
use naughts::game::{GameInfo, GameTrait};
use naughts::naughts::NaughtsGame;
use naughts::player::{GamePlayer, OmniBot, RandomBot};
use naughts::result::{GameResult, GameStatus, NULL_SCORE};
use naughts::simulator::{
    run_batch, run_magic_batch, run_one_game, FitnessRecord, MatchError,
};

/// A player that always answers with one fixed move.
struct FixedBot {
    answer: u32,
}

impl GamePlayer for FixedBot {
    fn magic(&self) -> bool {
        false
    }
    fn is_magic(&self) -> bool {
        false
    }
    fn is_genetic(&self) -> bool {
        false
    }
    fn process(&mut self, _inputs: &Vec<bool>, _available_moves: &Vec<u32>) -> u32 {
        self.answer
    }
    fn process_magic(&mut self, _inputs: &Vec<bool>, _available_moves: &Vec<u32>) -> Vec<u32> {
        vec![self.answer]
    }
}

#[test]
fn lowest_move_genomes_on_empty_board() {
    // Both sides play the lowest legal move: X takes 0, 2, 4, 6 and
    // completes the 2-4-6 diagonal on the seventh turn.
    let mut game = NaughtsGame::new();
    let mut a = GenBot3::empty();
    let mut b = GenBot3::empty();
    let r = run_one_game(&mut game, &mut a, &mut b);
    assert_eq!(game.data(), "XOXOXOX--");
    assert_eq!(game.num_turns(0), 4);
    assert_eq!(game.num_turns(1), 3);
    assert_eq!(r.status, GameStatus::Win);
    assert_eq!(r.get_score1(), 6);
    assert_eq!(r.get_score2(), -70);
    assert_eq!(r.get_winner(), Some(0));
    assert_eq!(r.get_winner_identity(), Some('X'));
}

#[test]
fn full_board_draw_scores_zero() {
    let game = NaughtsGame::from_parts("XOXXOOOXX", 5, 4);
    assert!(game.is_ended());
    let r = game.get_result();
    assert_eq!(r.status, GameStatus::Tie);
    assert_eq!(r.get_score1(), 0);
    assert_eq!(r.get_score2(), 0);
    assert_eq!(r.get_winner(), None);
}

#[test]
fn illegal_move_disqualifies() {
    // Only cells 0, 1 and 2 are free and X is to move.
    let mut game = NaughtsGame::from_parts("---XOXOXO", 3, 3);
    let (_, legal) = game.get_inputs(0);
    assert_eq!(legal, vec![0, 1, 2]);
    let mut cheat = FixedBot { answer: 5 };
    let mut other = GenBot3::empty();
    let r = run_one_game(&mut game, &mut cheat, &mut other);
    assert_eq!(r.get_score1(), NULL_SCORE);
    assert_eq!(r.get_score2(), 0);
    assert_eq!(r.get_winner(), Some(1));
    assert_eq!(r.get_winner_identity(), Some('O'));
    assert_eq!(game.data(), "---XOXOXO");
}

#[test]
fn nearest_legal_move_is_played() {
    let mut game = NaughtsGame::from_parts("X--------", 1, 0);
    game.update(1, 0);
    assert_eq!(game.data(), "XO-------");
    game.update(0, 100);
    assert_eq!(game.data(), "XO------X");
}

#[test]
fn naughts_inputs_split_own_and_other_marks() {
    let game = NaughtsGame::from_parts("XO-------", 1, 1);
    let (inputs, moves) = game.get_inputs(0);
    assert_eq!(inputs.len(), 18);
    assert!(inputs[0] && !inputs[1] && !inputs[9] && inputs[10]);
    assert_eq!(moves.len(), 7);
    let (inputs_o, _) = game.get_inputs(1);
    assert!(!inputs_o[0] && inputs_o[1] && inputs_o[9] && !inputs_o[10]);
    assert_eq!(game.get_game_info(), GameInfo { input_count: 18, output_count: 9 });
    assert_eq!(Connect4Game::new().get_game_info(), GameInfo { input_count: 98, output_count: 7 });
}

#[test]
fn connect4_match_ends() {
    let mut game = Connect4Game::new();
    let mut a = GenBot3::empty();
    let mut b = GenBot3::empty();
    let r = run_one_game(&mut game, &mut a, &mut b);
    assert!(game.is_ended());
    assert!(r.get_winner().is_some() || r.status == GameStatus::Tie);
    assert_eq!(game.get_game_info().input_count, 98);
}

#[test]
fn batch_counts_every_match() {
    let template = NaughtsGame::new();
    let mut a = RandomBot::new();
    let mut b = RandomBot::new();
    let rec = run_batch(&template, &mut a, &mut b, 20);
    assert_eq!(rec.count, 20);
    assert_eq!(rec.wins1 + rec.wins2 + rec.draws, 20);
}

fn count_leaves(game: &NaughtsGame, side: usize, oracle: usize) -> u64 {
    if game.is_ended() {
        return 1;
    }
    let (_, moves) = game.get_inputs(side);
    if side == oracle {
        let mut total = 0;
        for m in moves {
            let mut next = game.copy();
            next.update(side, m);
            total += count_leaves(&next, 1 - side, oracle);
        }
        total
    } else {
        let mut next = game.copy();
        next.update(side, moves[0]);
        count_leaves(&next, 1 - side, oracle)
    }
}

#[test]
fn exhaustive_mode_visits_every_leaf() {
    let template = NaughtsGame::new();
    let mut a = GenBot3::empty();
    let mut oracle = OmniBot::new();
    let rec = run_magic_batch(&template, &mut a, &mut oracle).unwrap();
    assert_eq!(rec.count, count_leaves(&template, 0, 1));
    assert_eq!(rec.wins1 + rec.wins2 + rec.draws, rec.count);
}

#[test]
fn exhaustive_mode_multiplies_branch_counts() {
    // Three free cells with the oracle (X) to move: two of its moves win at
    // once, the third leaves one reply and one last winning move.
    let template = NaughtsGame::from_parts("XOXOXO---", 3, 3);
    let mut oracle = OmniBot::new();
    let mut b = GenBot3::empty();
    let rec = run_magic_batch(&template, &mut oracle, &mut b).unwrap();
    assert_eq!(rec.count, count_leaves(&template, 0, 0));
    assert_eq!(rec.count, 3);
}

#[test]
fn exhaustive_mode_sums_leaf_scores() {
    // X (oracle) to move with cells 6, 7, 8 free: X at 6 wins (X 4 turns,
    // O 3), X at 8 wins the same way, X at 7 lets O take 6 and X then wins
    // at 8 (X 5 turns, O 4).
    let template = NaughtsGame::from_parts("XOXOXO---", 3, 3);
    let mut oracle = OmniBot::new();
    let mut b = GenBot3::empty();
    let rec = run_magic_batch(&template, &mut oracle, &mut b).unwrap();
    assert_eq!(rec.count, 3);
    assert_eq!(rec.wins1, 3);
    assert_eq!(rec.total1, 6 + 6 + 5);
    assert_eq!(rec.total2, -70 - 70 - 60);
}

#[test]
fn exhaustive_mode_oracle_may_be_first_or_second() {
    let template = NaughtsGame::from_parts("XOXOXO---", 3, 3);
    let mut a = GenBot3::empty();
    let mut oracle = OmniBot::new();
    let rec = run_magic_batch(&template, &mut a, &mut oracle).unwrap();
    assert_eq!(rec.count, count_leaves(&template, 0, 1));
}

#[test]
fn exhaustive_mode_needs_one_oracle() {
    let template = NaughtsGame::new();
    let mut a = GenBot3::empty();
    let mut b = GenBot3::empty();
    assert_eq!(run_magic_batch(&template, &mut a, &mut b).unwrap_err(), MatchError::NoMagicBot);
    let mut c = OmniBot::new();
    let mut d = OmniBot::new();
    assert_eq!(run_magic_batch(&template, &mut c, &mut d).unwrap_err(), MatchError::BothMagic);
}

fn result(s1: i64, s2: i64) -> GameResult {
    let mut r = GameResult::new(['X', 'O']);
    r.set_score1(s1);
    r.set_score2(s2);
    r
}

#[test]
fn record_is_order_independent() {
    let results = vec![result(6, -70), result(0, 0), result(-999, 0), result(7, -60)];
    let mut forward = FitnessRecord::new();
    for r in &results {
        forward.record(r);
    }
    let mut backward = FitnessRecord::new();
    for r in results.iter().rev() {
        backward.record(r);
    }
    assert_eq!(forward.total1, backward.total1);
    assert_eq!(forward.total2, backward.total2);
    assert_eq!(forward.wins1, backward.wins1);
    assert_eq!(forward.wins2, backward.wins2);
    assert_eq!(forward.draws, backward.draws);
    assert_eq!(forward.count, 4);
    assert_eq!(forward.total1, -986);
    assert_eq!(forward.wins1, 2);
    assert_eq!(forward.wins2, 1);
    assert_eq!(forward.draws, 1);
}

#[test]
fn mean_score_rounds_down() {
    let mut rec = FitnessRecord::new();
    rec.record(&result(1, -1));
    rec.record(&result(0, 0));
    rec.record(&result(0, 0));
    assert_eq!(rec.mean_milli(0), 333);
    assert_eq!(rec.mean_milli(1), -334);
    assert_eq!(FitnessRecord::new().mean_milli(0), 0);
}

#[test]
fn result_status_flags() {
    let mut r = GameResult::new(['X', 'O']);
    assert!(!r.is_win() && !r.is_tie() && !r.is_batch());
    r.set_win();
    assert!(r.is_win());
    r.set_tie();
    assert!(r.is_tie());
    r.set_batch();
    assert!(r.is_batch());
    let d = GameResult::disqualified(['X', 'O'], 1);
    assert_eq!(d.get_score2(), NULL_SCORE);
    assert_eq!(d.get_winner(), Some(0));
}

#[test]
fn result_descriptions() {
    assert_eq!(GameResult::new(['X', 'O']).describe(), "Game in progress");
    assert_eq!(GameResult::disqualified(['X', 'O'], 0).describe(), "RESULT: O wins!");
    let mut b = result(6, -70);
    b.set_batch();
    assert_eq!(b.describe(), "BATCH RESULT: [6, -70]");
    let mut t = result(0, 0);
    t.set_win();
    assert_eq!(t.describe(), "RESULT: Tie");
}

#[test]
fn restored_world_must_rest_on_its_pieces() {
    // A piece floating above a blank cell is refused: an empty game comes back.
    let mut floating = String::from(" ").repeat(49);
    floating.replace_range(7..8, "X");
    let g = Connect4Game::from_parts(&floating, 1, 0);
    assert_eq!(g.data(), " ".repeat(49));
    let mut resting = String::from(" ").repeat(49);
    resting.replace_range(0..1, "X");
    let h = Connect4Game::from_parts(&resting, 1, 0);
    assert_eq!(h.data(), resting);
}
