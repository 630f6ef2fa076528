//! What the match simulator asks of a game, and helpers the games share.
use vstd::prelude::*;
use crate::board::shown;
use crate::result::{score_ok, GameResult};

verus! {

/// The sizes a genome is built for: the length of the input vector and the
/// number of possible move identifiers.
#[derive(Clone, Copy, Debug, PartialEq, Eq, Structural)]
pub struct GameInfo {
    pub input_count: u32,
    pub output_count: u32,
}

/// A game state as numbers: the cells and the turns each side took.
pub struct GameModel {
    pub cells: Seq<char>,
    pub turns0: nat,
    pub turns1: nat,
}

/// The model after side `index` took one more turn on cells `cells`.
pub open spec fn model_after(m: GameModel, index: usize, cells: Seq<char>) -> GameModel {
    GameModel {
        cells,
        turns0: if index == 0 { m.turns0 + 1 } else { m.turns0 },
        turns1: if index == 0 { m.turns1 } else { m.turns1 + 1 },
    }
}

/// A two-player game as the simulator drives it. Its rules are stated on
/// the model of a state; the executable methods follow them.
pub trait GameTrait: Sized {
    /// The model of this state.
    spec fn model(&self) -> GameModel;

    /// The game's invariant on a model.
    spec fn wf_at(m: GameModel) -> bool;

    /// Whether the game has ended.
    spec fn ended_at(m: GameModel) -> bool;

    /// An upper bound on the moves still to be played; every move lowers it.
    spec fn moves_left_at(m: GameModel) -> nat;

    /// The moves the side to move may play.
    spec fn legal_at(m: GameModel) -> Seq<u32>;

    /// The input vector side `index` sees.
    spec fn inputs_at(m: GameModel, index: usize) -> Seq<bool>;

    /// The state after side `index` plays the legal move nearest to `output`.
    spec fn next_at(m: GameModel, index: usize, output: u32) -> GameModel;

    /// A move keeps the invariant and lowers the bound on moves left.
    proof fn lemma_next(m: GameModel, index: usize, output: u32)
        requires
            Self::wf_at(m),
            index < 2,
            Self::legal_at(m).len() > 0,
        ensures
            Self::wf_at(Self::next_at(m, index, output)),
            Self::moves_left_at(Self::next_at(m, index, output)) < Self::moves_left_at(m),
    ;

    /// A game that has not ended always offers a legal move.
    proof fn lemma_live(m: GameModel)
        requires
            Self::wf_at(m),
            !Self::ended_at(m),
        ensures
            Self::legal_at(m).len() > 0,
    ;

    /// The input and output counts.
    spec fn info() -> GameInfo;

    /// The two side labels.
    spec fn labels() -> [char; 2];

    /// The scores of an ended game.
    spec fn result_at(m: GameModel) -> GameResult;

    /// The two side labels.
    fn get_identities(&self) -> (r: [char; 2])
        ensures
            r == Self::labels(),
    ;

    /// Input and output counts of the game.
    fn get_game_info(&self) -> (r: GameInfo)
        ensures
            r == Self::info(),
    ;

    /// The input vector seen by side `index`, and the legal moves.
    fn get_inputs(&self, index: usize) -> (r: (Vec<bool>, Vec<u32>))
        requires
            Self::wf_at(self.model()),
            index < 2,
        ensures
            r.0@ == Self::inputs_at(self.model(), index),
            r.1@ == Self::legal_at(self.model()),
    ;

    /// Side `index` plays the legal move nearest to `output`.
    fn update(&mut self, index: usize, output: u32)
        requires
            Self::wf_at(old(self).model()),
            index < 2,
            Self::legal_at(old(self).model()).len() > 0,
        ensures
            final(self).model() == Self::next_at(old(self).model(), index, output),
    ;

    /// Whether the game has ended.
    fn is_ended(&self) -> (r: bool)
        requires
            Self::wf_at(self.model()),
        ensures
            r == Self::ended_at(self.model()),
    ;

    /// The scores of an ended game.
    fn get_result(&self) -> (r: GameResult)
        requires
            Self::wf_at(self.model()),
            Self::ended_at(self.model()),
        ensures
            r == Self::result_at(self.model()),
            score_ok(r),
    ;

    /// An independent copy of the game.
    fn copy(&self) -> (r: Self)
        ensures
            r.model() == self.model(),
    ;
}

/// Number of positions below `n` whose cell shows a blank.
pub open spec fn blank_count(d: Seq<char>, n: int) -> nat
    decreases n,
{
    if n <= 0 {
        0
    } else {
        blank_count(d, n - 1) + if shown(d[n - 1]) == ' ' { 1nat } else { 0nat }
    }
}

/// Marking one blank cell lowers the number of blanks by one.
pub proof fn lemma_blank_count_update(d: Seq<char>, n: int, p: int, c: char)
    requires
        0 <= p < n <= d.len(),
        shown(d[p]) == ' ',
        shown(c) != ' ',
    ensures
        blank_count(d.update(p, c), n) + 1 == blank_count(d, n),
    decreases n,
{
    if n - 1 > p {
        lemma_blank_count_update(d, n - 1, p, c);
    } else {
        lemma_blank_count_same(d, d.update(p, c), p);
    }
}

/// At most `n` blanks lie below `n`.
pub proof fn lemma_blank_count_bound(d: Seq<char>, n: int)
    ensures
        blank_count(d, n) <= if n > 0 { n } else { 0 },
    decreases n,
{
    if n > 0 {
        lemma_blank_count_bound(d, n - 1);
    }
}

/// Counts agree on a prefix where the cells agree.
pub proof fn lemma_blank_count_same(d: Seq<char>, e: Seq<char>, n: int)
    requires
        n <= d.len(),
        n <= e.len(),
        forall|i: int| 0 <= i < n ==> d[i] == e[i],
    ensures
        blank_count(d, n) == blank_count(e, n),
    decreases n,
{
    if n > 0 {
        lemma_blank_count_same(d, e, n - 1);
    }
}

/// How far `m` lies from `o`.
pub open spec fn distance(o: u32, m: u32) -> int {
    if o >= m { (o - m) as int } else { (m - o) as int }
}

/// The first move of `s` at least distance from `o`.
pub open spec fn nearest(s: Seq<u32>, o: u32) -> u32
    decreases s.len(),
{
    if s.len() <= 1 {
        s[0]
    } else {
        let b = nearest(s.drop_last(), o);
        if distance(o, s.last()) < distance(o, b) { s.last() } else { b }
    }
}

/// The nearest move is one of the moves.
pub proof fn lemma_nearest_in(s: Seq<u32>, o: u32)
    requires
        s.len() > 0,
    ensures
        s.contains(nearest(s, o)),
    decreases s.len(),
{
    if s.len() > 1 {
        lemma_nearest_in(s.drop_last(), o);
        let b = nearest(s.drop_last(), o);
        let j = choose|j: int| 0 <= j < s.drop_last().len() && s.drop_last()[j] == b;
        assert(s[j] == b);
        assert(s[s.len() - 1] == s.last());
    } else {
        assert(s[0] == nearest(s, o));
    }
}

/// The first of `moves` nearest to `output`.
pub fn nearest_move(moves: &Vec<u32>, output: u32) -> (r: u32)
    requires
        moves@.len() > 0,
    ensures
        r == nearest(moves@, output),
        moves@.contains(r),
{
    let mut target = moves[0];
    let mut lowest: u32 = if output >= target { output - target } else { target - output };
    let mut i: usize = 1;
    while i < moves.len()
        invariant
            1 <= i <= moves@.len(),
            target == nearest(moves@.subrange(0, i as int), output),
            lowest == distance(output, target),
        decreases moves.len() - i,
    {
        let m = moves[i];
        let diff: u32 = if output >= m { output - m } else { m - output };
        assert(moves@.subrange(0, i + 1).drop_last() =~= moves@.subrange(0, i as int));
        if diff < lowest {
            lowest = diff;
            target = m;
        }
        i = i + 1;
    }
    assert(moves@.subrange(0, moves@.len() as int) =~= moves@);
    proof {
        lemma_nearest_in(moves@, output);
    }
    target
}

/// The score of a side that took `num_turns` turns: `base - num_turns`
/// times 1 for a win, -10 for a loss and 0 for a draw.
pub open spec fn score_of(base: int, num_turns: int, outcome: i8) -> int {
    if outcome > 0 {
        base - num_turns
    } else if outcome < 0 {
        -10 * (base - num_turns)
    } else {
        0
    }
}

/// `score_of` on machine integers.
pub fn calculate_score(base: u32, num_turns: u32, outcome: i8) -> (r: i64)
    ensures
        r == score_of(base as int, num_turns as int, outcome),
        base <= 100 && num_turns <= 100 ==> -1000 <= r <= 1000,
{
    let score: i64 = base as i64 - num_turns as i64;
    if outcome > 0 {
        score
    } else if outcome < 0 {
        0 - score * 10
    } else {
        0
    }
}

} // verus!
