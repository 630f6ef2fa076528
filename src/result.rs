//! The outcome of one match, or the averaged outcome of a batch.
use vstd::prelude::*;
use crate::recipe::{digits, push_digits_u64};
use crate::text::{push_str, string_of};

verus! {

/// A per-side score.
pub type GameScore = i64;

/// The score that marks "no score yet", and the score of a disqualified side.
pub const NULL_SCORE: GameScore = -999;

/// The largest score magnitude a game may report.
pub const MAX_ABS_SCORE: i64 = 1_000_000;

/// Whether both scores of `r` lie within `MAX_ABS_SCORE`.
pub open spec fn score_ok(r: GameResult) -> bool {
    -MAX_ABS_SCORE <= r.score1 <= MAX_ABS_SCORE && -MAX_ABS_SCORE <= r.score2 <= MAX_ABS_SCORE
}

/// Where a result stands.
#[derive(Clone, Copy, Debug, PartialEq, Eq, Structural)]
pub enum GameStatus {
    Open,
    Win,
    Tie,
    Batch,
}

/// One game's result: a score per side, the two identities and a status.
#[derive(Clone, Copy, Debug)]
pub struct GameResult {
    pub score1: GameScore,
    pub score2: GameScore,
    pub identities: [char; 2],
    pub status: GameStatus,
}

/// The side with the higher score, if the scores differ.
pub open spec fn winner_of(s1: int, s2: int) -> Option<usize> {
    if s1 > s2 { Some(0usize) } else if s2 > s1 { Some(1usize) } else { None }
}

/// The decimal text of `v`, with a leading `-` when negative.
pub open spec fn int_text(v: int) -> Seq<char> {
    if v < 0 { seq!['-'] + digits((-v) as nat) } else { digits(v as nat) }
}

/// Appends the decimal text of `v`.
fn push_int(out: &mut Vec<char>, v: i64)
    ensures
        final(out)@ == old(out)@ + int_text(v as int),
{
    if v < 0 {
        out.push('-');
        let m: u64 = (0i128 - v as i128) as u64;
        push_digits_u64(out, m);
        assert(final(out)@ =~= old(out)@ + int_text(v as int));
    } else {
        push_digits_u64(out, v as u64);
    }
}

/// How a result reads.
pub open spec fn result_text(r: GameResult) -> Seq<char> {
    match r.status {
        GameStatus::Open => "Game in progress"@,
        GameStatus::Tie => "RESULT: Tie"@,
        GameStatus::Win => match r.winner() {
            Some(i) => "RESULT: "@ + seq![r.identities[i as int]] + " wins!"@,
            None => "RESULT: Tie"@,
        },
        GameStatus::Batch => "BATCH RESULT: ["@ + int_text(r.score1 as int) + ", "@ + int_text(r.score2 as int) + "]"@,
    }
}

impl GameResult {
    /// The result as text.
    pub fn describe(&self) -> (r: String)
        ensures
            r@ == result_text(*self),
    {
        match self.status {
            GameStatus::Open => String::from_str("Game in progress"),
            GameStatus::Tie => String::from_str("RESULT: Tie"),
            GameStatus::Win => match self.get_winner_identity() {
                Some(x) => {
                    let mut out: Vec<char> = Vec::new();
                    push_str(&mut out, "RESULT: ");
                    out.push(x);
                    push_str(&mut out, " wins!");
                    assert(out@ =~= "RESULT: "@ + seq![x] + " wins!"@);
                    string_of(&out)
                },
                None => String::from_str("RESULT: Tie"),
            },
            GameStatus::Batch => {
                let mut out: Vec<char> = Vec::new();
                push_str(&mut out, "BATCH RESULT: [");
                push_int(&mut out, self.score1);
                push_str(&mut out, ", ");
                push_int(&mut out, self.score2);
                push_str(&mut out, "]");
                string_of(&out)
            },
        }
    }

    /// An open result with both scores 0.
    pub fn new(identities: [char; 2]) -> (r: GameResult)
        ensures
            r.score1 == 0 && r.score2 == 0,
            r.identities == identities,
            r.status == GameStatus::Open,
    {
        GameResult { score1: 0, score2: 0, identities, status: GameStatus::Open }
    }

    /// The result of a match in which side `side` played an illegal move:
    /// that side gets `NULL_SCORE`, the other side 0, and the other side wins.
    pub fn disqualified(identities: [char; 2], side: usize) -> (r: GameResult)
        requires
            side < 2,
        ensures
            r.identities == identities,
            r.status == GameStatus::Win,
            side == 0 ==> r.score1 == NULL_SCORE && r.score2 == 0,
            side == 1 ==> r.score2 == NULL_SCORE && r.score1 == 0,
            r.winner() == Some((1 - side) as usize),
            score_ok(r),
    {
        if side == 0 {
            GameResult { score1: NULL_SCORE, score2: 0, identities, status: GameStatus::Win }
        } else {
            GameResult { score1: 0, score2: NULL_SCORE, identities, status: GameStatus::Win }
        }
    }

    /// The winning side, by score.
    pub open spec fn winner(&self) -> Option<usize> {
        winner_of(self.score1 as int, self.score2 as int)
    }

    /// Sets the first side's score.
    pub fn set_score1(&mut self, score: GameScore)
        ensures
            *final(self) == (GameResult { score1: score, ..*old(self) }),
    {
        self.score1 = score;
    }

    /// Sets the second side's score.
    pub fn set_score2(&mut self, score: GameScore)
        ensures
            *final(self) == (GameResult { score2: score, ..*old(self) }),
    {
        self.score2 = score;
    }

    /// The first side's score.
    pub fn get_score1(&self) -> (r: GameScore)
        ensures
            r == self.score1,
    {
        self.score1
    }

    /// The second side's score.
    pub fn get_score2(&self) -> (r: GameScore)
        ensures
            r == self.score2,
    {
        self.score2
    }

    /// The side with the higher score, `None` on equal scores.
    pub fn get_winner(&self) -> (r: Option<usize>)
        ensures
            r == self.winner(),
    {
        if self.score1 > self.score2 {
            Some(0)
        } else if self.score2 > self.score1 {
            Some(1)
        } else {
            None
        }
    }

    /// The identity of the side with the higher score.
    pub fn get_winner_identity(&self) -> (r: Option<char>)
        ensures
            r == (match self.winner() {
                Some(i) => Some(self.identities[i as int]),
                None => None,
            }),
    {
        match self.get_winner() {
            Some(i) => Some(self.identities[i]),
            None => None,
        }
    }

    /// Marks the result as won.
    pub fn set_win(&mut self)
        ensures
            *final(self) == (GameResult { status: GameStatus::Win, ..*old(self) }),
    {
        self.status = GameStatus::Win;
    }

    /// Marks the result as tied.
    pub fn set_tie(&mut self)
        ensures
            *final(self) == (GameResult { status: GameStatus::Tie, ..*old(self) }),
    {
        self.status = GameStatus::Tie;
    }

    /// Marks the result as a batch average.
    pub fn set_batch(&mut self)
        ensures
            *final(self) == (GameResult { status: GameStatus::Batch, ..*old(self) }),
    {
        self.status = GameStatus::Batch;
    }

    /// Whether the result is a win.
    pub fn is_win(&self) -> (r: bool)
        ensures
            r == (self.status == GameStatus::Win),
    {
        self.status == GameStatus::Win
    }

    /// Whether the result is a tie.
    pub fn is_tie(&self) -> (r: bool)
        ensures
            r == (self.status == GameStatus::Tie),
    {
        self.status == GameStatus::Tie
    }

    /// Whether the result is a batch average.
    pub fn is_batch(&self) -> (r: bool)
        ensures
            r == (self.status == GameStatus::Batch),
    {
        self.status == GameStatus::Batch
    }
}

} // verus!
