use naughts::stack_search::{BotSample, BotStack};
use naughts::config::{
    bot_type_from, game_type_from, sanitise_args, BotType, CliOptions, ConfigError, Connect4Bot,
    GameType, NaughtsBot, RunMode,
};
use naughts::errors::StringError;
use naughts::evolution::{
    filter_samples, raise_threshold, GeneticRecipe, Generation, INITIAL_THRESHOLD,
};

fn cand(name: &str, score: i64, index: u32) -> GeneticRecipe {
    GeneticRecipe { recipe: String::from(name), genetic_score: score, index }
}

#[test]
fn filter_sorts_descending_and_truncates() {
    let mut v = vec![cand("a", 5, 0), cand("b", 9, 1), cand("c", 5, 2), cand("d", 1, 3)];
    filter_samples(&mut v, 3);
    let names: Vec<&str> = v.iter().map(|r| r.recipe.as_str()).collect();
    assert_eq!(names, vec!["b", "a", "c"]);
    let mut w = vec![cand("x", 1, 0)];
    filter_samples(&mut w, 5);
    assert_eq!(w.len(), 1);
    let mut e: Vec<GeneticRecipe> = Vec::new();
    filter_samples(&mut e, 2);
    assert!(e.is_empty());
}

#[test]
fn threshold_moves_a_fifth_of_the_gap() {
    assert_eq!(raise_threshold(0, 1000), 200);
    assert_eq!(raise_threshold(-999_000, 1000), -999_000 + 200_000);
    assert_eq!(raise_threshold(500, 100), 500);
    assert_eq!(raise_threshold(i64::MIN, i64::MAX), i64::MIN + ((i64::MAX as i128 - i64::MIN as i128) / 5) as i64);
}

#[test]
fn generation_without_passing_candidates_changes_nothing() {
    let mut g = Generation::new();
    assert_eq!(g.score_threshold, INITIAL_THRESHOLD);
    let persisted = g.process_results(vec![cand("low", -999_000, 0)], 3);
    assert!(persisted.is_empty());
    assert!(g.selected.is_empty());
    assert_eq!(g.score_threshold, INITIAL_THRESHOLD);
}

#[test]
fn threshold_never_falls_across_generations() {
    let mut g = Generation::new();
    let mut last = g.score_threshold;
    let batches = vec![
        vec![cand("a", 1000, 0), cand("b", -5000, 1)],
        vec![cand("c", -900_000, 0)],
        vec![cand("d", 4000, 0), cand("e", 3000, 1), cand("f", 2000, 2)],
        vec![cand("g", 10, 0)],
    ];
    for batch in batches {
        g.process_results(batch, 2);
        assert!(g.score_threshold >= last);
        assert!(g.selected.len() <= 2);
        last = g.score_threshold;
    }
}

#[test]
fn generation_keeps_best_and_persists_improvers() {
    let mut g = Generation::new();
    let persisted = g.process_results(vec![cand("a", 1000, 0), cand("b", 6000, 1), cand("c", 2000, 2)], 2);
    let names: Vec<&str> = g.selected.iter().map(|r| r.recipe.as_str()).collect();
    assert_eq!(names, vec!["b", "c"]);
    // Both survivors beat the old threshold; the threshold takes one fifth
    // of the step toward the best: -999000 + (6000 + 999000) / 5.
    assert_eq!(persisted, vec![String::from("b"), String::from("c")]);
    assert_eq!(g.score_threshold, -798_000);
    // Next generation: the old survivors compete with the new passers.
    g.process_results(vec![cand("d", 7000, 0)], 2);
    let names: Vec<&str> = g.selected.iter().map(|r| r.recipe.as_str()).collect();
    assert_eq!(names, vec!["d", "b"]);
}

#[test]
fn threshold_takes_one_step_toward_the_best() {
    let mut g = Generation::new();
    g.score_threshold = 0;
    let persisted = g.process_results(vec![cand("a", 100, 0), cand("b", 50, 1)], 5);
    assert_eq!(g.score_threshold, 20);
    assert_eq!(persisted.len(), 2);
    let mut h = Generation::new();
    h.score_threshold = 0;
    let persisted = h.process_results(vec![cand("a", 100, 0), cand("b", 10, 1)], 5);
    assert_eq!(persisted, vec![String::from("a"), String::from("b")]);
}

#[test]
fn bot_names_parse() {
    assert_eq!(bot_type_from("GenBot3"), Some(BotType::GenBot3));
    assert_eq!(bot_type_from("RANDOMBOT"), Some(BotType::RandomBot));
    assert_eq!(bot_type_from("nbot1"), Some(BotType::NBot1));
    assert_eq!(bot_type_from("OmniBot"), Some(BotType::OmniBot));
    assert_eq!(bot_type_from("Naughts.human"), Some(BotType::Naughts(NaughtsBot::Human)));
    assert_eq!(bot_type_from("connect4.human"), Some(BotType::Connect4(Connect4Bot::Human)));
    assert_eq!(bot_type_from("naughts.Human"), None);
    assert_eq!(bot_type_from("naughts"), None);
    assert_eq!(bot_type_from("whatever"), None);
}

#[test]
fn game_names_parse() {
    assert_eq!(game_type_from("Naughts"), GameType::Naughts);
    assert_eq!(game_type_from("CONNECT4"), GameType::Connect4);
    assert_eq!(game_type_from("chess"), GameType::Unknown);
}

fn opts(batch: u32, magic: bool, gens: u32, samples: u32, keep: u32, wild: u32) -> CliOptions {
    CliOptions {
        batch_size: batch,
        magic,
        num_generations: gens,
        num_samples: samples,
        keep_samples: keep,
        wild_samples: wild,
    }
}

#[test]
fn options_combine_into_modes() {
    let single = sanitise_args(&opts(1, false, 0, 0, 0, 0)).unwrap();
    assert_eq!(single.run_mode, RunMode::Single);
    assert!(!single.silent);
    let batch = sanitise_args(&opts(10, false, 0, 0, 0, 0)).unwrap();
    assert_eq!(batch.run_mode, RunMode::Batch);
    assert!(batch.silent && batch.batch_mode);
    let genetic = sanitise_args(&opts(10, false, 5, 4, 2, 1)).unwrap();
    assert_eq!(genetic.run_mode, RunMode::Genetic);
    assert!(genetic.no_batch_summary);
    let magic = sanitise_args(&opts(1, true, 3, 2, 2, 0)).unwrap();
    assert_eq!(magic.batch_size, 0);
    assert!(magic.batch_mode && magic.magic);
    assert_eq!(magic.run_mode, RunMode::Genetic);
}

#[test]
fn inconsistent_options_are_refused() {
    assert_eq!(sanitise_args(&opts(1, false, 3, 0, 0, 0)), Err(ConfigError::GeneticRequiresBatch));
    assert_eq!(sanitise_args(&opts(1, false, 0, 3, 0, 0)), Err(ConfigError::SamplesRequiresBatch));
    assert_eq!(sanitise_args(&opts(1, false, 0, 0, 3, 0)), Err(ConfigError::KeepRequiresBatch));
    assert_eq!(sanitise_args(&opts(1, false, 0, 0, 0, 3)), Err(ConfigError::WildRequiresBatch));
    assert_eq!(sanitise_args(&opts(5, false, 0, 3, 0, 0)), Err(ConfigError::SamplesRequiresGenetic));
    assert_eq!(sanitise_args(&opts(5, false, 0, 0, 3, 0)), Err(ConfigError::KeepRequiresGenetic));
    assert_eq!(sanitise_args(&opts(5, false, 0, 0, 0, 3)), Err(ConfigError::WildRequiresGenetic));
    assert_eq!(sanitise_args(&opts(5, true, 0, 0, 0, 0)), Err(ConfigError::BatchWithMagic));
    assert_eq!(ConfigError::BatchWithMagic.message(), "Cannot specify --batch with --magic");
    assert_eq!(ConfigError::KeepRequiresGenetic.message(), "Option --keep requires --genetic");
}

#[test]
fn string_error_keeps_message() {
    assert_eq!(StringError::new("Bot not found").message(), "Bot not found");
}

#[test]
fn child_score_averages_with_parent() {
    let s = BotSample::new_from(3, Some(1000), String::from("r"), 2001);
    assert_eq!(s.generation, 4);
    assert_eq!(s.children, 0);
    assert_eq!(s.score, Some(1500));
    assert_eq!(BotSample::new_from(0, Some(-3), String::from("r"), 0).score, Some(-2));
    assert_eq!(BotSample::new_from(0, None, String::from("r"), 7).score, Some(7));
    assert!(BotSample::null().is_null());
}

#[test]
fn stack_prefers_better_children_and_drops_exhausted() {
    let mut stack = BotStack::new(2);
    stack.push(BotSample::new(String::from("seed")));
    // No result yet: the seed is handed out and counts one child.
    let (s, persist) = stack.next(BotSample::null());
    let s = s.unwrap();
    assert_eq!(s.recipe, "seed");
    assert_eq!(s.children, 1);
    assert!(persist.is_none());
    // A scored child beats the unscored seed and is a new best.
    let child = BotSample::new_from(s.generation, s.score, String::from("child"), 500);
    let (s, persist) = stack.next(child);
    let s = s.unwrap();
    assert_eq!(s.recipe, "child");
    assert_eq!(s.children, 1);
    assert_eq!(persist, Some(String::from("child")));
    // A worse grandchild is not kept; the child counts its second child.
    let worse = BotSample::new_from(s.generation, s.score, String::from("worse"), -5000);
    let (s, persist) = stack.next(worse);
    assert_eq!(s.unwrap().recipe, "child");
    assert!(persist.is_none());
    // The third child exceeds the limit: the child leaves the stack.
    let (s, _) = stack.next(BotSample::null());
    assert_eq!(s.unwrap().children, 3);
    let (s, _) = stack.next(BotSample::null());
    assert_eq!(s.unwrap().recipe, "seed");
    let mut empty = BotStack::new(1);
    assert!(empty.next(BotSample::null()).0.is_none());
}

#[test]
fn back_fill_only_when_too_few_pass() {
    let mut g = Generation::new();
    g.process_results(vec![cand("a", 1000, 0), cand("b", 2000, 1)], 2);
    g.process_results(vec![cand("c", 500_000, 0), cand("d", 400_000, 1)], 2);
    let names: Vec<&str> = g.selected.iter().map(|r| r.recipe.as_str()).collect();
    assert_eq!(names, vec!["c", "d"]);
}

#[test]
fn equal_scores_rank_by_text_then_index() {
    let mut v = vec![cand("b", 5, 0), cand("a", 5, 2), cand("a", 5, 1)];
    filter_samples(&mut v, 3);
    let order: Vec<(String, u32)> = v.iter().map(|r| (r.recipe.clone(), r.index)).collect();
    assert_eq!(order, vec![(String::from("a"), 1), (String::from("a"), 2), (String::from("b"), 0)]);
}
