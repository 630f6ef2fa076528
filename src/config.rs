//! Run configuration: which game and bots a name selects, and how the
//! command-line options combine into a run mode.
use vstd::prelude::*;
use crate::text::chars_of;

verus! {

/// How the program runs.
#[derive(Clone, Copy, Debug, PartialEq, Eq, Structural)]
pub enum RunMode {
    Single,
    Batch,
    Genetic,
}

/// The game a name selects.
#[derive(Clone, Copy, Debug, PartialEq, Eq, Structural)]
pub enum GameType {
    Connect4,
    Naughts,
    Unknown,
}

/// Bots that belong to naughts and crosses.
#[derive(Clone, Copy, Debug, PartialEq, Eq, Structural)]
pub enum NaughtsBot {
    Human,
}

/// Bots that belong to connect four.
#[derive(Clone, Copy, Debug, PartialEq, Eq, Structural)]
pub enum Connect4Bot {
    Human,
}

/// The bot a name selects.
#[derive(Clone, Copy, Debug, PartialEq, Eq, Structural)]
pub enum BotType {
    RandomBot,
    GenBot3,
    NBot1,
    OmniBot,
    Naughts(NaughtsBot),
    Connect4(Connect4Bot),
}

/// Whether ASCII lower-casing turns `c` into `d`.
pub open spec fn lowers_to(c: char, d: char) -> bool {
    if 'A' <= c <= 'Z' { c as u32 + 32 == d as u32 } else { c == d }
}

/// Whether `s`, lower-cased, starts with `t`.
pub open spec fn lower_prefix(s: Seq<char>, t: Seq<char>) -> bool {
    t.len() <= s.len() && forall|i: int| 0 <= i < t.len() ==> lowers_to(#[trigger] s[i], t[i])
}

/// Whether `s`, lower-cased, is `t`.
pub open spec fn lower_equals(s: Seq<char>, t: Seq<char>) -> bool {
    s.len() == t.len() && lower_prefix(s, t)
}

/// The position of the first `.` of `s` at or after `k`, or `s.len()`.
pub open spec fn dot_from(s: Seq<char>, k: int) -> int
    decreases s.len() - k,
{
    if k >= s.len() {
        s.len() as int
    } else if s[k] == '.' {
        k
    } else {
        dot_from(s, k + 1)
    }
}

/// What follows the first `.` of `s`, if there is one.
pub open spec fn after_dot(s: Seq<char>) -> Option<Seq<char>> {
    let d = dot_from(s, 0);
    if d < s.len() { Some(s.subrange(d + 1, s.len() as int)) } else { None }
}

/// The bot named `s`, compared without regard to ASCII case; the part after
/// the dot of a game's own bot is compared exactly.
pub open spec fn bot_type_of(s: Seq<char>) -> Option<BotType> {
    if lower_equals(s, "randombot"@) {
        Some(BotType::RandomBot)
    } else if lower_equals(s, "genbot3"@) {
        Some(BotType::GenBot3)
    } else if lower_equals(s, "nbot1"@) {
        Some(BotType::NBot1)
    } else if lower_equals(s, "omnibot"@) {
        Some(BotType::OmniBot)
    } else if lower_prefix(s, "naughts"@) {
        if after_dot(s) == Some("human"@) { Some(BotType::Naughts(NaughtsBot::Human)) } else { None }
    } else if lower_prefix(s, "connect4"@) {
        if after_dot(s) == Some("human"@) { Some(BotType::Connect4(Connect4Bot::Human)) } else { None }
    } else {
        None
    }
}

/// The game named `s`, compared without regard to ASCII case.
pub open spec fn game_type_of(s: Seq<char>) -> GameType {
    if lower_equals(s, "naughts"@) {
        GameType::Naughts
    } else if lower_equals(s, "connect4"@) {
        GameType::Connect4
    } else {
        GameType::Unknown
    }
}

/// Whether `s`, lower-cased, starts with the characters of `t`.
fn lower_prefix_exec(s: &Vec<char>, t: &str) -> (r: bool)
    ensures
        r == lower_prefix(s@, t@),
{
    let n = t.unicode_len();
    if n > s.len() {
        return false;
    }
    let mut i: usize = 0;
    while i < n
        invariant
            n == t@.len(),
            n <= s@.len(),
            i <= n,
            forall|j: int| 0 <= j < i ==> lowers_to(#[trigger] s@[j], t@[j]),
        decreases n - i,
    {
        let c = s[i];
        let d = t.get_char(i);
        let ok = if 'A' <= c && c <= 'Z' { c as u32 + 32 == d as u32 } else { c == d };
        if !ok {
            assert(!lowers_to(s@[i as int], t@[i as int]));
            return false;
        }
        i = i + 1;
    }
    true
}

/// Whether `s`, lower-cased, is `t`.
fn lower_equals_exec(s: &Vec<char>, t: &str) -> (r: bool)
    ensures
        r == lower_equals(s@, t@),
{
    s.len() == t.unicode_len() && lower_prefix_exec(s, t)
}

/// Whether what follows the first `.` of `s` is exactly `t`.
fn after_dot_is(s: &Vec<char>, t: &str) -> (r: bool)
    ensures
        r == (after_dot(s@) == Some(t@)),
{
    let mut d: usize = 0;
    while d < s.len() && s[d] != '.'
        invariant
            d <= s@.len(),
            dot_from(s@, 0) == dot_from(s@, d as int),
        decreases s.len() - d,
    {
        d = d + 1;
    }
    if d >= s.len() {
        return false;
    }
    assert(dot_from(s@, 0) == d);
    let slen = s.len();
    let n = t.unicode_len();
    if s.len() - (d + 1) != n {
        assert(s@.subrange(d + 1, s@.len() as int).len() != t@.len());
        return false;
    }
    let mut i: usize = 0;
    while i < n
        invariant
            n == t@.len(),
            slen == s@.len(),
            d < s@.len(),
            dot_from(s@, 0) == d,
            s@.len() - (d + 1) == n,
            i <= n,
            forall|j: int| 0 <= j < i ==> s@[d + 1 + j] == t@[j],
        decreases n - i,
    {
        if s[d + 1 + i] != t.get_char(i) {
            assert(s@.subrange(d + 1, s@.len() as int)[i as int] != t@[i as int]);
            return false;
        }
        i = i + 1;
    }
    assert(s@.subrange(d + 1, s@.len() as int) =~= t@);
    true
}

/// The bot named `name`, `None` for an unknown name.
pub fn bot_type_from(name: &str) -> (r: Option<BotType>)
    ensures
        r == bot_type_of(name@),
{
    let s = chars_of(name);
    if lower_equals_exec(&s, "randombot") {
        Some(BotType::RandomBot)
    } else if lower_equals_exec(&s, "genbot3") {
        Some(BotType::GenBot3)
    } else if lower_equals_exec(&s, "nbot1") {
        Some(BotType::NBot1)
    } else if lower_equals_exec(&s, "omnibot") {
        Some(BotType::OmniBot)
    } else if lower_prefix_exec(&s, "naughts") {
        if after_dot_is(&s, "human") { Some(BotType::Naughts(NaughtsBot::Human)) } else { None }
    } else if lower_prefix_exec(&s, "connect4") {
        if after_dot_is(&s, "human") { Some(BotType::Connect4(Connect4Bot::Human)) } else { None }
    } else {
        None
    }
}

/// The game named `name`; an unknown name gives `GameType::Unknown`.
pub fn game_type_from(name: &str) -> (r: GameType)
    ensures
        r == game_type_of(name@),
{
    let s = chars_of(name);
    if lower_equals_exec(&s, "naughts") {
        GameType::Naughts
    } else if lower_equals_exec(&s, "connect4") {
        GameType::Connect4
    } else {
        GameType::Unknown
    }
}

/// The options as given on the command line.
#[derive(Clone, Copy, Debug, PartialEq, Eq, Structural)]
pub struct CliOptions {
    pub batch_size: u32,
    pub magic: bool,
    pub num_generations: u32,
    pub num_samples: u32,
    pub keep_samples: u32,
    pub wild_samples: u32,
}

/// The settings a run uses.
#[derive(Clone, Copy, Debug, PartialEq, Eq, Structural)]
pub struct RunSettings {
    pub batch_size: u32,
    pub magic: bool,
    pub batch_mode: bool,
    pub genetic_mode: bool,
    pub silent: bool,
    pub no_batch_summary: bool,
    pub run_mode: RunMode,
}

/// An inconsistent combination of options.
#[derive(Clone, Copy, Debug, PartialEq, Eq, Structural)]
pub enum ConfigError {
    GeneticRequiresBatch,
    SamplesRequiresBatch,
    KeepRequiresBatch,
    WildRequiresBatch,
    SamplesRequiresGenetic,
    KeepRequiresGenetic,
    WildRequiresGenetic,
    BatchWithMagic,
}

/// The message shown for each configuration error.
pub open spec fn config_message(e: ConfigError) -> Seq<char> {
    match e {
        ConfigError::GeneticRequiresBatch => "Option --genetic requires --batch"@,
        ConfigError::SamplesRequiresBatch => "Option --samples requires --batch"@,
        ConfigError::KeepRequiresBatch => "Option --keep requires --batch"@,
        ConfigError::WildRequiresBatch => "Option --wild requires --batch"@,
        ConfigError::SamplesRequiresGenetic => "Option --samples requires --genetic"@,
        ConfigError::KeepRequiresGenetic => "Option --keep requires --genetic"@,
        ConfigError::WildRequiresGenetic => "Option --wild requires --genetic"@,
        ConfigError::BatchWithMagic => "Cannot specify --batch with --magic"@,
    }
}

impl ConfigError {
    /// The message for this error.
    pub fn message(&self) -> (r: String)
        ensures
            r@ == config_message(*self),
    {
        match self {
            ConfigError::GeneticRequiresBatch => String::from_str("Option --genetic requires --batch"),
            ConfigError::SamplesRequiresBatch => String::from_str("Option --samples requires --batch"),
            ConfigError::KeepRequiresBatch => String::from_str("Option --keep requires --batch"),
            ConfigError::WildRequiresBatch => String::from_str("Option --wild requires --batch"),
            ConfigError::SamplesRequiresGenetic => String::from_str("Option --samples requires --genetic"),
            ConfigError::KeepRequiresGenetic => String::from_str("Option --keep requires --genetic"),
            ConfigError::WildRequiresGenetic => String::from_str("Option --wild requires --genetic"),
            ConfigError::BatchWithMagic => String::from_str("Cannot specify --batch with --magic"),
        }
    }
}

/// How options combine: a batch size above 1 means batch mode, a
/// generation count means genetic mode; the sample options need both
/// modes; magic mode excludes `--batch`, sets the batch size to 0 and
/// implies batch mode; batch runs are silent, and genetic batch runs skip
/// the batch summary. The first violated rule, in that order, is the error.
pub open spec fn sanitised(o: CliOptions) -> Result<RunSettings, ConfigError> {
    let batch_mode = o.batch_size > 1;
    let genetic_mode = o.num_generations > 0;
    if !batch_mode && !o.magic && genetic_mode {
        Err(ConfigError::GeneticRequiresBatch)
    } else if !batch_mode && !o.magic && o.num_samples > 0 {
        Err(ConfigError::SamplesRequiresBatch)
    } else if !batch_mode && !o.magic && o.keep_samples > 0 {
        Err(ConfigError::KeepRequiresBatch)
    } else if !batch_mode && !o.magic && o.wild_samples > 0 {
        Err(ConfigError::WildRequiresBatch)
    } else if !genetic_mode && o.num_samples > 0 {
        Err(ConfigError::SamplesRequiresGenetic)
    } else if !genetic_mode && o.keep_samples > 0 {
        Err(ConfigError::KeepRequiresGenetic)
    } else if !genetic_mode && o.wild_samples > 0 {
        Err(ConfigError::WildRequiresGenetic)
    } else if o.magic && batch_mode {
        Err(ConfigError::BatchWithMagic)
    } else {
        let batch = batch_mode || o.magic;
        Ok(RunSettings {
            batch_size: if o.magic { 0 } else { o.batch_size },
            magic: o.magic,
            batch_mode: batch,
            genetic_mode,
            silent: batch,
            no_batch_summary: batch && genetic_mode,
            run_mode: if genetic_mode { RunMode::Genetic } else if batch { RunMode::Batch } else { RunMode::Single },
        })
    }
}

/// Checks the options and derives the run settings.
pub fn sanitise_args(o: &CliOptions) -> (r: Result<RunSettings, ConfigError>)
    ensures
        r == sanitised(*o),
{
    let batch_mode = o.batch_size > 1;
    let genetic_mode = o.num_generations > 0;
    if !batch_mode && !o.magic {
        if genetic_mode {
            return Err(ConfigError::GeneticRequiresBatch);
        }
        if o.num_samples > 0 {
            return Err(ConfigError::SamplesRequiresBatch);
        }
        if o.keep_samples > 0 {
            return Err(ConfigError::KeepRequiresBatch);
        }
        if o.wild_samples > 0 {
            return Err(ConfigError::WildRequiresBatch);
        }
    }
    if !genetic_mode {
        if o.num_samples > 0 {
            return Err(ConfigError::SamplesRequiresGenetic);
        }
        if o.keep_samples > 0 {
            return Err(ConfigError::KeepRequiresGenetic);
        }
        if o.wild_samples > 0 {
            return Err(ConfigError::WildRequiresGenetic);
        }
    }
    let mut batch_size = o.batch_size;
    let mut batch = batch_mode;
    if o.magic {
        if batch_mode {
            return Err(ConfigError::BatchWithMagic);
        }
        batch_size = 0;
        batch = true;
    }
    let run_mode = if genetic_mode {
        RunMode::Genetic
    } else if batch {
        RunMode::Batch
    } else {
        RunMode::Single
    };
    Ok(RunSettings {
        batch_size,
        magic: o.magic,
        batch_mode: batch,
        genetic_mode,
        silent: batch,
        no_batch_summary: batch && genetic_mode,
        run_mode,
    })
}

} // verus!
