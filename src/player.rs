//! What the match simulator asks of a player, and two players that need no genome.
use vstd::prelude::*;
use crate::rng::random_below;

verus! {

/// A decision source for one side of a match. A deterministic player
/// answers as its spec functions say and does not change.
pub trait GamePlayer: Sized {
    /// Whether the player's answers are a function of what it is shown;
    /// a player says nothing of itself unless it states so.
    open spec fn deterministic(&self) -> bool {
        false
    }

    /// Whether the player always answers with one of the legal moves; a
    /// player says nothing of itself unless it states so.
    open spec fn legal_answers(&self) -> bool {
        false
    }

    /// The move a deterministic player plays.
    open spec fn choice(&self, inputs: Seq<bool>, moves: Seq<u32>) -> u32 {
        moves[0]
    }

    /// The moves a deterministic player asks to explore.
    open spec fn choices(&self, inputs: Seq<bool>, moves: Seq<u32>) -> Seq<u32> {
        moves
    }

    /// Whether the player is an oracle that asks for moves to be explored.
    spec fn magic(&self) -> bool;

    /// Whether the player answers with every move it wants explored.
    fn is_magic(&self) -> (r: bool)
        ensures
            r == self.magic(),
    ;

    /// Whether the player has a genome that evolves.
    fn is_genetic(&self) -> bool;

    /// The player's move, given its input vector and the legal moves.
    fn process(&mut self, inputs: &Vec<bool>, available_moves: &Vec<u32>) -> (r: u32)
        requires
            available_moves@.len() > 0,
        ensures
            old(self).deterministic() ==> r == old(self).choice(inputs@, available_moves@)
                && *final(self) == *old(self),
            old(self).legal_answers() ==> available_moves@.contains(r) && final(self).legal_answers(),
    ;

    /// The moves a magic player wants explored.
    fn process_magic(&mut self, inputs: &Vec<bool>, available_moves: &Vec<u32>) -> (r: Vec<u32>)
        requires
            available_moves@.len() > 0,
        ensures
            old(self).deterministic() ==> r@ == old(self).choices(inputs@, available_moves@)
                && *final(self) == *old(self),
    ;
}

/// A player that picks a legal move uniformly at random.
pub struct RandomBot {}

impl RandomBot {
    /// A random player.
    pub fn new() -> (r: RandomBot) {
        RandomBot {}
    }

    /// A legal move drawn at random.
    pub fn pick_move(&self, available_moves: &Vec<u32>) -> (r: u32)
        requires
            available_moves@.len() > 0,
        ensures
            available_moves@.contains(r),
    {
        let idx = random_below(available_moves.len());
        assert(available_moves@[idx as int] == available_moves@[idx as int]);
        available_moves[idx]
    }
}

impl GamePlayer for RandomBot {
    open spec fn legal_answers(&self) -> bool {
        true
    }

    open spec fn magic(&self) -> bool {
        false
    }

    open spec fn deterministic(&self) -> bool {
        false
    }

    open spec fn choice(&self, inputs: Seq<bool>, moves: Seq<u32>) -> u32 {
        moves[0]
    }

    open spec fn choices(&self, inputs: Seq<bool>, moves: Seq<u32>) -> Seq<u32> {
        seq![moves[0]]
    }

    fn is_magic(&self) -> bool {
        false
    }

    fn is_genetic(&self) -> bool {
        false
    }

    fn process(&mut self, inputs: &Vec<bool>, available_moves: &Vec<u32>) -> u32 {
        self.pick_move(available_moves)
    }

    fn process_magic(&mut self, inputs: &Vec<bool>, available_moves: &Vec<u32>) -> Vec<u32> {
        vec![self.pick_move(available_moves)]
    }
}

/// The oracle player: it asks for every legal move to be explored.
pub struct OmniBot {}

impl OmniBot {
    /// An oracle player.
    pub fn new() -> (r: OmniBot) {
        OmniBot {}
    }

    /// Every legal move, in order.
    pub fn all_moves(&self, available_moves: &Vec<u32>) -> (r: Vec<u32>)
        ensures
            r@ == available_moves@,
    {
        available_moves.clone()
    }
}

impl GamePlayer for OmniBot {
    open spec fn legal_answers(&self) -> bool {
        true
    }

    open spec fn magic(&self) -> bool {
        true
    }

    open spec fn deterministic(&self) -> bool {
        true
    }

    open spec fn choice(&self, inputs: Seq<bool>, moves: Seq<u32>) -> u32 {
        moves[0]
    }

    open spec fn choices(&self, inputs: Seq<bool>, moves: Seq<u32>) -> Seq<u32> {
        moves
    }

    fn is_magic(&self) -> bool {
        true
    }

    fn is_genetic(&self) -> bool {
        false
    }

    fn process(&mut self, inputs: &Vec<bool>, available_moves: &Vec<u32>) -> u32 {
        assert(available_moves@[0] == available_moves@[0]);
        available_moves[0]
    }

    fn process_magic(&mut self, inputs: &Vec<bool>, available_moves: &Vec<u32>) -> Vec<u32> {
        self.all_moves(available_moves)
    }
}

} // verus!
