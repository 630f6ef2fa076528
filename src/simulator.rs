//! The match simulator: single-path matches, batches of them, and the
//! exhaustive traversal that forks a branch for every move of the oracle
//! side. Results are summed into a fitness record.
use vstd::prelude::*;
use crate::game::{GameModel, GameTrait};
use crate::player::GamePlayer;
use crate::result::{score_ok, GameResult, GameStatus, MAX_ABS_SCORE, NULL_SCORE};

verus! {

/// The most matches one fitness record can hold.
pub const MAX_MATCHES: u64 = 0xffff_ffff;

/// Why a match could not be played to its end.
#[derive(Clone, Copy, Debug, PartialEq, Eq, Structural)]
pub enum MatchError {
    /// Exhaustive mode needs exactly one magic side; neither is.
    NoMagicBot,
    /// Exhaustive mode needs exactly one magic side; both are.
    BothMagic,
    /// More matches than a record can hold.
    TooManyMatches,
}

/// A fitness record as numbers: the two score totals, the wins of each
/// side, the draws and the number of matches.
pub struct Tally {
    pub total1: int,
    pub total2: int,
    pub wins1: nat,
    pub wins2: nat,
    pub draws: nat,
    pub count: nat,
}

/// The empty tally.
pub open spec fn zero_tally() -> Tally {
    Tally { total1: 0, total2: 0, wins1: 0, wins2: 0, draws: 0, count: 0 }
}

/// `t` with one more match whose result is `r`.
pub open spec fn add_result(t: Tally, r: GameResult) -> Tally {
    Tally {
        total1: t.total1 + r.score1,
        total2: t.total2 + r.score2,
        wins1: t.wins1 + if r.score1 > r.score2 { 1nat } else { 0nat },
        wins2: t.wins2 + if r.score2 > r.score1 { 1nat } else { 0nat },
        draws: t.draws + if r.score1 == r.score2 { 1nat } else { 0nat },
        count: t.count + 1,
    }
}

/// The tally of the results `s`, in order.
pub open spec fn tally(s: Seq<GameResult>) -> Tally
    decreases s.len(),
{
    if s.len() == 0 {
        zero_tally()
    } else {
        add_result(tally(s.drop_last()), s.last())
    }
}

proof fn lemma_tally_remove(s: Seq<GameResult>, i: int)
    requires
        0 <= i < s.len(),
    ensures
        tally(s) == add_result(tally(s.remove(i)), s[i]),
    decreases s.len(),
{
    if i == s.len() - 1 {
        assert(s.remove(i) =~= s.drop_last());
    } else {
        let d = s.drop_last();
        lemma_tally_remove(d, i);
        assert(s.remove(i).drop_last() =~= d.remove(i));
        assert(s.remove(i).last() == s.last());
    }
}

/// A fitness record does not depend on the order in which the matches
/// completed: two sequences holding the same results, each as often,
/// have the same tally.
pub proof fn lemma_tally_order_independent(a: Seq<GameResult>, b: Seq<GameResult>)
    requires
        a.to_multiset() == b.to_multiset(),
    ensures
        tally(a) == tally(b),
    decreases a.len(),
{
    broadcast use vstd::seq_lib::group_to_multiset_ensures;
    if a.len() == 0 {
        vstd::seq_lib::to_multiset_len(a);
        vstd::seq_lib::to_multiset_len(b);
        assert(b.len() == 0);
        assert(b =~= Seq::<GameResult>::empty());
    } else {
        let x = a.last();
        let d = a.drop_last();
        assert(a =~= d.push(x));
        assert(a.to_multiset().count(x) > 0);
        assert(b.contains(x));
        let j = choose|j: int| 0 <= j < b.len() && b[j] == x;
        let e = b.remove(j);
        assert(e.to_multiset() == b.to_multiset().remove(x));
        assert(d.to_multiset() =~= a.to_multiset().remove(x));
        lemma_tally_order_independent(d, e);
        lemma_tally_remove(b, j);
    }
}

/// `t` with the results `s` added in order.
pub open spec fn tally_from(t: Tally, s: Seq<GameResult>) -> Tally
    decreases s.len(),
{
    if s.len() == 0 {
        t
    } else {
        add_result(tally_from(t, s.drop_last()), s.last())
    }
}

proof fn lemma_tally_from_zero(s: Seq<GameResult>)
    ensures
        tally_from(zero_tally(), s) == tally(s),
    decreases s.len(),
{
    if s.len() > 0 {
        lemma_tally_from_zero(s.drop_last());
    }
}

proof fn lemma_tally_from_concat(t: Tally, a: Seq<GameResult>, b: Seq<GameResult>)
    ensures
        tally_from(t, a + b) == tally_from(tally_from(t, a), b),
        tally_from(t, b).count == t.count + b.len(),
    decreases b.len(),
{
    if b.len() == 0 {
        assert(a + b =~= a);
    } else {
        lemma_tally_from_concat(t, a, b.drop_last());
        assert((a + b).drop_last() =~= a + b.drop_last());
        assert((a + b).last() == b.last());
    }
}

/// Running totals over finished matches.
#[derive(Clone, Copy, Debug)]
pub struct FitnessRecord {
    pub total1: i64,
    pub total2: i64,
    pub wins1: u64,
    pub wins2: u64,
    pub draws: u64,
    pub count: u64,
}

impl FitnessRecord {
    /// The record as numbers.
    pub open spec fn view(&self) -> Tally {
        Tally {
            total1: self.total1 as int,
            total2: self.total2 as int,
            wins1: self.wins1 as nat,
            wins2: self.wins2 as nat,
            draws: self.draws as nat,
            count: self.count as nat,
        }
    }

    /// Totals stay within what the match count allows.
    pub open spec fn wf(&self) -> bool {
        &&& self.count <= MAX_MATCHES
        &&& -MAX_ABS_SCORE * self.count <= self.total1 <= MAX_ABS_SCORE * self.count
        &&& -MAX_ABS_SCORE * self.count <= self.total2 <= MAX_ABS_SCORE * self.count
        &&& self.wins1 <= self.count && self.wins2 <= self.count && self.draws <= self.count
    }

    /// An empty record.
    pub fn new() -> (r: FitnessRecord)
        ensures
            r.wf(),
            r@ == zero_tally(),
    {
        FitnessRecord { total1: 0, total2: 0, wins1: 0, wins2: 0, draws: 0, count: 0 }
    }

    /// Whether the record can take another match.
    pub fn has_room(&self) -> (r: bool)
        ensures
            r == (self.count < MAX_MATCHES),
    {
        self.count < MAX_MATCHES
    }

    /// Adds one finished match.
    pub fn record(&mut self, r: &GameResult)
        requires
            old(self).wf(),
            old(self).count < MAX_MATCHES,
            score_ok(*r),
        ensures
            final(self).wf(),
            final(self)@ == add_result(old(self)@, *r),
    {
        assert(MAX_ABS_SCORE * (self.count + 1) == MAX_ABS_SCORE * self.count + MAX_ABS_SCORE) by (nonlinear_arith);
        assert(MAX_ABS_SCORE * self.count <= MAX_ABS_SCORE * MAX_MATCHES) by (nonlinear_arith)
            requires self.count <= MAX_MATCHES;
        self.total1 = self.total1 + r.score1;
        self.total2 = self.total2 + r.score2;
        if r.score1 > r.score2 {
            self.wins1 = self.wins1 + 1;
        } else if r.score2 > r.score1 {
            self.wins2 = self.wins2 + 1;
        } else {
            self.draws = self.draws + 1;
        }
        self.count = self.count + 1;
    }

    /// Side `side`'s mean score in thousandths, rounded down; 0 for an
    /// empty record.
    pub fn mean_milli(&self, side: usize) -> (r: i64)
        requires
            self.wf(),
            side < 2,
        ensures
            self.count == 0 ==> r == 0,
            self.count > 0 ==> r == (if side == 0 { self.total1 as int } else { self.total2 as int }) * 1000 / (self.count as int),
    {
        if self.count == 0 {
            return 0;
        }
        let t: i64 = if side == 0 { self.total1 } else { self.total2 };
        let c: i64 = self.count as i64;
        assert(MAX_ABS_SCORE * self.count <= MAX_ABS_SCORE * MAX_MATCHES) by (nonlinear_arith)
            requires self.count <= MAX_MATCHES;
        if t >= 0 {
            let q = (t * 1000) / c;
            q
        } else {
            let n = (-t) * 1000;
            let q = (n + c - 1) / c;
            proof {
                lemma_floor_neg(n as int, c as int);
            }
            -q
        }
    }
}

pub proof fn lemma_floor_neg(n: int, c: int)
    requires
        n >= 0,
        c > 0,
    ensures
        -((n + c - 1) / c) == (-n) / c,
{
    let q = (n + c - 1) / c;
    let r = (n + c - 1) % c;
    assert(n + c - 1 == q * c + r && 0 <= r < c) by {
        vstd::arithmetic::div_mod::lemma_fundamental_div_mod(n + c - 1, c);
    }
    let q2 = (-n) / c;
    let r2 = (-n) % c;
    assert(-n == q2 * c + r2 && 0 <= r2 < c) by {
        vstd::arithmetic::div_mod::lemma_fundamental_div_mod(-n, c);
    }
    assert(-q == q2) by (nonlinear_arith)
        requires n + c - 1 == q * c + r, 0 <= r < c, -n == q2 * c + r2, 0 <= r2 < c, c > 0;
}

/// Whether `m` is one of `moves`.
pub fn contains_move(moves: &Vec<u32>, m: u32) -> (r: bool)
    ensures
        r == moves@.contains(m),
{
    let mut k: usize = 0;
    while k < moves.len()
        invariant
            k <= moves@.len(),
            forall|j: int| 0 <= j < k ==> #[trigger] moves@[j] != m,
        decreases moves.len() - k,
    {
        if moves[k] == m {
            assert(moves@[k as int] == m);
            return true;
        }
        k = k + 1;
    }
    false
}

/// Plays `output` for side `side` when it is legal. An illegal move
/// changes nothing: the caller disqualifies that side.
pub fn apply_move<G: GameTrait>(game: &mut G, side: usize, legal: &Vec<u32>, output: u32) -> (r: bool)
    requires
        G::wf_at(old(game).model()),
        side < 2,
        legal@ == G::legal_at(old(game).model()),
    ensures
        r == legal@.contains(output),
        !r ==> *final(game) == *old(game),
        r ==> G::wf_at(final(game).model()) && G::moves_left_at(final(game).model()) < G::moves_left_at(old(game).model()),
        r ==> final(game).model() == G::next_at(old(game).model(), side, output),
{
    if contains_move(legal, output) {
        proof {
            G::lemma_next(game.model(), side, output);
        }
        game.update(side, output);
        true
    } else {
        false
    }
}

/// Whether `r` is the result of disqualifying one side.
pub open spec fn is_disqualification(r: GameResult) -> bool {
    &&& r.status == GameStatus::Win
    &&& (r.score1 == NULL_SCORE && r.score2 == 0) || (r.score2 == NULL_SCORE && r.score1 == 0)
}

/// Whether `r` is what a match can end with: a disqualification, or the
/// result of an ended state of the game.
pub open spec fn is_match_result<G: GameTrait>(r: GameResult) -> bool {
    is_disqualification(r) || exists|m: GameModel| G::wf_at(m) && G::ended_at(m) && r == #[trigger] G::result_at(m)
}

/// The move side `side` plays with players `a`, `b`.
pub open spec fn choice_of<A: GamePlayer, B: GamePlayer>(a: A, b: B, side: usize, inputs: Seq<bool>, moves: Seq<u32>) -> u32 {
    if side == 0 { a.choice(inputs, moves) } else { b.choice(inputs, moves) }
}

/// The result of a single-path match from `m`, side `side` to move, with
/// deterministic players `a`, `b`: the game's result once it has ended, or
/// a disqualification of the first side to answer with an illegal move.
pub open spec fn match_outcome<G: GameTrait, A: GamePlayer, B: GamePlayer>(
    m: GameModel,
    side: usize,
    a: A,
    b: B,
) -> GameResult
    decreases G::moves_left_at(m),
{
    if G::ended_at(m) {
        G::result_at(m)
    } else {
        let o = choice_of(a, b, side, G::inputs_at(m, side), G::legal_at(m));
        if !G::legal_at(m).contains(o) {
            disqualified_result(G::labels(), side)
        } else {
            let n = G::next_at(m, side, o);
            if G::moves_left_at(n) < G::moves_left_at(m) {
                match_outcome::<G, A, B>(n, (1 - side) as usize, a, b)
            } else {
                G::result_at(m)
            }
        }
    }
}

/// The result of disqualifying side `side`.
pub open spec fn disqualified_result(identities: [char; 2], side: usize) -> GameResult {
    GameResult {
        score1: if side == 0 { NULL_SCORE } else { 0 },
        score2: if side == 0 { 0 } else { NULL_SCORE },
        identities,
        status: GameStatus::Win,
    }
}

/// Plays one single-path match: sides move in turn, starting with the
/// first, until the game ends, and the result is the game's result there;
/// a side that plays an illegal move ends the match disqualified.
pub fn run_one_game<G: GameTrait, A: GamePlayer, B: GamePlayer>(
    game: &mut G,
    bot1: &mut A,
    bot2: &mut B,
) -> (r: GameResult)
    requires
        G::wf_at(old(game).model()),
    ensures
        G::wf_at(final(game).model()),
        G::ended_at(final(game).model()) ==> r == G::result_at(final(game).model()),
        !G::ended_at(final(game).model()) ==> is_disqualification(r),
        G::ended_at(old(game).model()) ==> final(game).model() == old(game).model()
            && r == G::result_at(old(game).model()),
        is_match_result::<G>(r),
        score_ok(r),
        old(bot1).deterministic() && old(bot2).deterministic() ==>
            r == match_outcome::<G, A, B>(old(game).model(), 0, *old(bot1), *old(bot2)),
        old(bot1).deterministic() && old(bot2).deterministic() ==>
            *final(bot1) == *old(bot1) && *final(bot2) == *old(bot2),
        old(bot1).legal_answers() && old(bot2).legal_answers() ==>
            G::ended_at(final(game).model()) && r == G::result_at(final(game).model()),
{
    let identities = game.get_identities();
    let ghost a0 = *bot1;
    let ghost b0 = *bot2;
    let ghost det = bot1.deterministic() && bot2.deterministic();
    let mut bot_index: usize = 0;
    while !game.is_ended()
        invariant
            G::wf_at(game.model()),
            bot_index < 2,
            identities == G::labels(),
            G::ended_at(old(game).model()) ==> game.model() == old(game).model(),
            det == (old(bot1).deterministic() && old(bot2).deterministic()),
            a0 == *old(bot1),
            b0 == *old(bot2),
            det ==> *bot1 == a0 && *bot2 == b0,
            det ==> match_outcome::<G, A, B>(old(game).model(), 0, a0, b0)
                == match_outcome::<G, A, B>(game.model(), bot_index, a0, b0),
            old(bot1).legal_answers() && old(bot2).legal_answers() ==> bot1.legal_answers() && bot2.legal_answers(),
        decreases G::moves_left_at(game.model()),
    {
        let (inputs, moves) = game.get_inputs(bot_index);
        proof {
            G::lemma_live(game.model());
        }
        let output = if bot_index == 0 {
            bot1.process(&inputs, &moves)
        } else {
            bot2.process(&inputs, &moves)
        };
        let ghost before = game.model();
        if !apply_move(game, bot_index, &moves, output) {
            let d = GameResult::disqualified(identities, bot_index);
            assert(d == disqualified_result(identities, bot_index));
            return d;
        }
        proof {
            G::lemma_next(before, bot_index, output);
            if det {
                assert(output == choice_of(a0, b0, bot_index, G::inputs_at(before, bot_index), G::legal_at(before)));
                assert(match_outcome::<G, A, B>(before, bot_index, a0, b0)
                    == match_outcome::<G, A, B>(game.model(), (1 - bot_index) as usize, a0, b0));
            }
        }
        bot_index = 1 - bot_index;
    }
    let res = game.get_result();
    assert(G::wf_at(game.model()) && G::ended_at(game.model()) && res == G::result_at(game.model()));
    res
}

/// Plays `batch_size` single-path matches, each from a copy of `template`,
/// and sums their results.
pub fn run_batch<G: GameTrait, A: GamePlayer, B: GamePlayer>(
    template: &G,
    bot1: &mut A,
    bot2: &mut B,
    batch_size: u32,
) -> (r: FitnessRecord)
    requires
        G::wf_at(template.model()),
    ensures
        r.wf(),
        r.count == batch_size,
        exists|results: Seq<GameResult>|
            results.len() == batch_size && r@ == #[trigger] tally(results)
                && (forall|k: int| 0 <= k < results.len() ==> is_match_result::<G>(#[trigger] results[k]))
                && (old(bot1).deterministic() && old(bot2).deterministic() ==> forall|k: int|
                    0 <= k < results.len() ==> #[trigger] results[k]
                        == match_outcome::<G, A, B>(template.model(), 0, *old(bot1), *old(bot2))),
{
    let ghost a0 = *bot1;
    let ghost b0 = *bot2;
    let ghost det = bot1.deterministic() && bot2.deterministic();
    let ghost mut results: Seq<GameResult> = Seq::empty();
    let mut rec = FitnessRecord::new();
    let mut i: u32 = 0;
    while i < batch_size
        invariant
            G::wf_at(template.model()),
            i <= batch_size,
            rec.wf(),
            rec.count == i,
            results.len() == i,
            rec@ == tally(results),
            forall|k: int| 0 <= k < results.len() ==> is_match_result::<G>(#[trigger] results[k]),
            det == (old(bot1).deterministic() && old(bot2).deterministic()),
            a0 == *old(bot1),
            b0 == *old(bot2),
            det ==> *bot1 == a0 && *bot2 == b0,
            det ==> forall|k: int| 0 <= k < results.len() ==> #[trigger] results[k]
                == match_outcome::<G, A, B>(template.model(), 0, a0, b0),
        decreases batch_size - i,
    {
        let mut game = template.copy();
        let res = run_one_game(&mut game, bot1, bot2);
        proof {
            assert(results.push(res).drop_last() =~= results);
            results = results.push(res);
        }
        rec.record(&res);
        i = i + 1;
    }
    rec
}

/// The moves a side answers with: every move the oracle asks for, or the
/// one move of the other side.
pub open spec fn answers<A: GamePlayer, B: GamePlayer>(
    a: A,
    b: B,
    side: usize,
    magic: usize,
    inputs: Seq<bool>,
    moves: Seq<u32>,
) -> Seq<u32> {
    if side == magic {
        if side == 0 { a.choices(inputs, moves) } else { b.choices(inputs, moves) }
    } else {
        seq![if side == 0 { a.choice(inputs, moves) } else { b.choice(inputs, moves) }]
    }
}

/// The results of the ended branches of the game tree from `m`, side
/// `side` to move, in traversal order, when the side `magic` forks a
/// branch for each of its answers and the other side plays its one answer.
/// An ended state is one leaf; an illegal answer is one leaf, a
/// disqualification of the side that gave it.
pub open spec fn leaf_results<G: GameTrait, A: GamePlayer, B: GamePlayer>(
    m: GameModel,
    side: usize,
    magic: usize,
    a: A,
    b: B,
) -> Seq<GameResult>
    decreases G::moves_left_at(m), 1nat, 0nat,
{
    if G::ended_at(m) {
        seq![G::result_at(m)]
    } else if G::legal_at(m).len() == 0 {
        Seq::empty()
    } else {
        branch_results::<G, A, B>(m, side, magic, a, b, answers(a, b, side, magic, G::inputs_at(m, side), G::legal_at(m)))
    }
}

/// The leaf results below the answers `outs` at state `m`, in order.
pub open spec fn branch_results<G: GameTrait, A: GamePlayer, B: GamePlayer>(
    m: GameModel,
    side: usize,
    magic: usize,
    a: A,
    b: B,
    outs: Seq<u32>,
) -> Seq<GameResult>
    decreases G::moves_left_at(m), 0nat, outs.len(),
{
    if outs.len() == 0 {
        Seq::empty()
    } else {
        let o = outs.last();
        let rest = branch_results::<G, A, B>(m, side, magic, a, b, outs.drop_last());
        if G::legal_at(m).contains(o) {
            let n = G::next_at(m, side, o);
            if G::moves_left_at(n) < G::moves_left_at(m) {
                rest + leaf_results::<G, A, B>(n, (1 - side) as usize, magic, a, b)
            } else {
                rest
            }
        } else {
            rest.push(disqualified_result(G::labels(), side))
        }
    }
}

/// The number of leaves of the game tree from `m`.
pub open spec fn leaves<G: GameTrait, A: GamePlayer, B: GamePlayer>(
    m: GameModel,
    side: usize,
    magic: usize,
    a: A,
    b: B,
) -> nat {
    leaf_results::<G, A, B>(m, side, magic, a, b).len()
}

/// Exhaustive completeness: where the oracle, to move, asks for every
/// legal move and each of the `k` moves leads to a subtree of `sub`
/// leaves, the state has `k × sub` leaves. Applied turn by turn along a
/// path, the leaves multiply to `m1 × m2 × ... × mk`.
pub proof fn lemma_leaves_product<G: GameTrait, A: GamePlayer, B: GamePlayer>(
    m: GameModel,
    side: usize,
    magic: usize,
    a: A,
    b: B,
    sub: nat,
)
    requires
        G::wf_at(m),
        !G::ended_at(m),
        side < 2,
        side == magic,
        answers(a, b, side, magic, G::inputs_at(m, side), G::legal_at(m)) == G::legal_at(m),
        forall|o: u32| G::legal_at(m).contains(o) ==>
            #[trigger] leaves::<G, A, B>(G::next_at(m, side, o), (1 - side) as usize, magic, a, b) == sub,
    ensures
        leaves::<G, A, B>(m, side, magic, a, b) == G::legal_at(m).len() * sub,
{
    let legal = G::legal_at(m);
    G::lemma_live(m);
    lemma_branch_prefix::<G, A, B>(m, side, magic, a, b, sub, legal.len() as int);
    assert(legal.subrange(0, legal.len() as int) =~= legal);
}

proof fn lemma_branch_prefix<G: GameTrait, A: GamePlayer, B: GamePlayer>(
    m: GameModel,
    side: usize,
    magic: usize,
    a: A,
    b: B,
    sub: nat,
    k: int,
)
    requires
        G::wf_at(m),
        !G::ended_at(m),
        side < 2,
        0 <= k <= G::legal_at(m).len(),
        forall|o: u32| G::legal_at(m).contains(o) ==>
            #[trigger] leaves::<G, A, B>(G::next_at(m, side, o), (1 - side) as usize, magic, a, b) == sub,
    ensures
        branch_results::<G, A, B>(m, side, magic, a, b, G::legal_at(m).subrange(0, k)).len() == k * sub,
    decreases k,
{
    let legal = G::legal_at(m);
    if k > 0 {
        lemma_branch_prefix::<G, A, B>(m, side, magic, a, b, sub, k - 1);
        let pre = legal.subrange(0, k);
        assert(pre.drop_last() =~= legal.subrange(0, k - 1));
        let o = pre.last();
        assert(legal[k - 1] == o);
        assert(legal.contains(o));
        G::lemma_live(m);
        G::lemma_next(m, side, o);
        let n = G::next_at(m, side, o);
        assert(G::moves_left_at(n) < G::moves_left_at(m));
        assert(leaves::<G, A, B>(n, (1 - side) as usize, magic, a, b) == sub);
        assert(branch_results::<G, A, B>(m, side, magic, a, b, pre) == branch_results::<G, A, B>(m, side, magic, a, b, pre.drop_last())
            + leaf_results::<G, A, B>(n, (1 - side) as usize, magic, a, b));
        assert((k - 1) * sub + sub == k * sub) by (nonlinear_arith);
        assert(leaf_results::<G, A, B>(n, (1 - side) as usize, magic, a, b).len() == sub);
    } else {
        assert(legal.subrange(0, 0).len() == 0);
        assert(0 * sub == 0);
    }
}

/// The product of `counts`.
pub open spec fn product(counts: Seq<nat>) -> nat
    decreases counts.len(),
{
    if counts.len() == 0 { 1 } else { counts[0] * product(counts.drop_first()) }
}

/// Whether the game tree from `m` has the oracle meet exactly `counts[i]`
/// legal moves at its `i`-th turn on every path, asking for all of them,
/// while the other side always answers legally, and every path ends right
/// after the oracle's last turn is played out.
pub open spec fn uniform<G: GameTrait, A: GamePlayer, B: GamePlayer>(
    m: GameModel,
    side: usize,
    magic: usize,
    a: A,
    b: B,
    counts: Seq<nat>,
) -> bool
    decreases G::moves_left_at(m),
{
    if counts.len() == 0 {
        G::ended_at(m)
    } else if G::ended_at(m) {
        false
    } else if side == magic {
        &&& answers(a, b, side, magic, G::inputs_at(m, side), G::legal_at(m)) == G::legal_at(m)
        &&& G::legal_at(m).len() == counts[0]
        &&& forall|o: u32| #![trigger G::next_at(m, side, o)] G::legal_at(m).contains(o) ==> {
            let n = G::next_at(m, side, o);
            G::moves_left_at(n) < G::moves_left_at(m)
                && uniform::<G, A, B>(n, (1 - side) as usize, magic, a, b, counts.drop_first())
        }
    } else {
        let o = choice_of(a, b, side, G::inputs_at(m, side), G::legal_at(m));
        let n = G::next_at(m, side, o);
        &&& answers(a, b, side, magic, G::inputs_at(m, side), G::legal_at(m)) == seq![o]
        &&& G::legal_at(m).contains(o)
        &&& G::moves_left_at(n) < G::moves_left_at(m)
        &&& uniform::<G, A, B>(n, (1 - side) as usize, magic, a, b, counts)
    }
}

/// Exhaustive completeness along paths: where the oracle meets `m1, m2,
/// ..., mk` legal moves at its successive turns on every path and asks for
/// all of them, the traversal has exactly `m1 × m2 × ... × mk` leaves.
pub proof fn lemma_leaves_path_product<G: GameTrait, A: GamePlayer, B: GamePlayer>(
    m: GameModel,
    side: usize,
    magic: usize,
    a: A,
    b: B,
    counts: Seq<nat>,
)
    requires
        G::wf_at(m),
        side < 2,
        magic < 2,
        uniform::<G, A, B>(m, side, magic, a, b, counts),
    ensures
        leaves::<G, A, B>(m, side, magic, a, b) == product(counts),
    decreases G::moves_left_at(m),
{
    if counts.len() == 0 {
        assert(leaf_results::<G, A, B>(m, side, magic, a, b) == seq![G::result_at(m)]);
    } else if side == magic {
        let rest = counts.drop_first();
        let sub = product(rest);
        assert forall|o: u32| G::legal_at(m).contains(o) implies
            #[trigger] leaves::<G, A, B>(G::next_at(m, side, o), (1 - side) as usize, magic, a, b) == sub by {
            G::lemma_live(m);
            G::lemma_next(m, side, o);
            let n = G::next_at(m, side, o);
            assert(uniform::<G, A, B>(n, (1 - side) as usize, magic, a, b, rest));
            lemma_leaves_path_product::<G, A, B>(n, (1 - side) as usize, magic, a, b, rest);
        }
        lemma_leaves_product::<G, A, B>(m, side, magic, a, b, sub);
    } else {
        let o = choice_of(a, b, side, G::inputs_at(m, side), G::legal_at(m));
        G::lemma_live(m);
        G::lemma_next(m, side, o);
        let n = G::next_at(m, side, o);
        lemma_leaves_path_product::<G, A, B>(n, (1 - side) as usize, magic, a, b, counts);
        let outs = seq![o];
        assert(outs.drop_last() =~= Seq::<u32>::empty());
        assert(branch_results::<G, A, B>(m, side, magic, a, b, outs)
            == branch_results::<G, A, B>(m, side, magic, a, b, outs.drop_last())
                + leaf_results::<G, A, B>(n, (1 - side) as usize, magic, a, b));
        assert(Seq::<GameResult>::empty() + leaf_results::<G, A, B>(n, (1 - side) as usize, magic, a, b)
            =~= leaf_results::<G, A, B>(n, (1 - side) as usize, magic, a, b));
    }
}

proof fn lemma_branch_grows<G: GameTrait, A: GamePlayer, B: GamePlayer>(
    m: GameModel,
    side: usize,
    magic: usize,
    a: A,
    b: B,
    outs: Seq<u32>,
    k: int,
    j: int,
)
    requires
        0 <= k <= j <= outs.len(),
    ensures
        branch_results::<G, A, B>(m, side, magic, a, b, outs.subrange(0, k)).len()
            <= branch_results::<G, A, B>(m, side, magic, a, b, outs.subrange(0, j)).len(),
    decreases j - k,
{
    if k < j {
        lemma_branch_grows::<G, A, B>(m, side, magic, a, b, outs, k, j - 1);
        assert(outs.subrange(0, j).drop_last() =~= outs.subrange(0, j - 1));
    }
}

/// Exhaustive traversal from `game` with side `side` to move: every move the
/// magic side asks for forks an independent branch, the other side plays
/// its one move, and every ended branch adds one result to `rec`. An
/// illegal move ends its branch with that side disqualified. With
/// deterministic players, exactly the `leaf_results` are added, and the
/// call fails only when they do not fit in the record.
pub fn explore<G: GameTrait, A: GamePlayer, B: GamePlayer>(
    game: &G,
    side: usize,
    magic_index: usize,
    identities: [char; 2],
    bot1: &mut A,
    bot2: &mut B,
    rec: &mut FitnessRecord,
) -> (r: Result<(), MatchError>)
    requires
        G::wf_at(game.model()),
        side < 2,
        magic_index < 2,
        identities == G::labels(),
        old(rec).wf(),
    ensures
        final(rec).wf(),
        final(rec).count >= old(rec).count,
        r.is_err() ==> r == Err::<(), MatchError>(MatchError::TooManyMatches) && final(rec).count == MAX_MATCHES,
        G::ended_at(game.model()) ==> (r.is_ok() <==> old(rec).count < MAX_MATCHES),
        G::ended_at(game.model()) && r.is_ok() ==> final(rec)@ == add_result(old(rec)@, G::result_at(game.model())),
        old(bot1).deterministic() && old(bot2).deterministic() ==>
            *final(bot1) == *old(bot1) && *final(bot2) == *old(bot2),
        old(bot1).deterministic() && old(bot2).deterministic() ==>
            (r.is_ok() <==> old(rec).count + leaves::<G, A, B>(game.model(), side, magic_index, *old(bot1), *old(bot2))
                <= MAX_MATCHES),
        old(bot1).deterministic() && old(bot2).deterministic() && r.is_ok() ==>
            final(rec)@ == tally_from(old(rec)@, leaf_results::<G, A, B>(game.model(), side, magic_index, *old(bot1), *old(bot2))),
    decreases G::moves_left_at(game.model()),
{
    if game.is_ended() {
        if !rec.has_room() {
            return Err(MatchError::TooManyMatches);
        }
        let res = game.get_result();
        let ghost before = rec@;
        rec.record(&res);
        proof {
            let s = seq![res];
            assert(s.drop_last() =~= Seq::<GameResult>::empty());
            assert(tally_from(before, s) == add_result(tally_from(before, s.drop_last()), res));
        }
        return Ok(());
    }
    let (inputs, moves) = game.get_inputs(side);
    proof {
        G::lemma_live(game.model());
    }
    let ghost a0 = *bot1;
    let ghost b0 = *bot2;
    let ghost det = bot1.deterministic() && bot2.deterministic();
    let ghost m = game.model();
    let outputs: Vec<u32> = if side == magic_index {
        if side == 0 {
            bot1.process_magic(&inputs, &moves)
        } else {
            bot2.process_magic(&inputs, &moves)
        }
    } else {
        let mv = if side == 0 {
            bot1.process(&inputs, &moves)
        } else {
            bot2.process(&inputs, &moves)
        };
        vec![mv]
    };
    assert(det ==> outputs@ == answers(a0, b0, side, magic_index, inputs@, moves@));
    let ghost rec0 = rec@;
    let ghost count0 = rec.count;
    let mut k: usize = 0;
    while k < outputs.len()
        invariant
            G::wf_at(game.model()),
            !G::ended_at(game.model()),
            m == game.model(),
            side < 2,
            magic_index < 2,
            identities == G::labels(),
            moves@ == G::legal_at(game.model()),
            moves@.len() > 0,
            k <= outputs@.len(),
            rec.wf(),
            rec.count >= old(rec).count,
            count0 == old(rec).count,
            rec0 == old(rec)@,
            det == (old(bot1).deterministic() && old(bot2).deterministic()),
            a0 == *old(bot1),
            b0 == *old(bot2),
            det ==> outputs@ == answers(a0, b0, side, magic_index, G::inputs_at(m, side), G::legal_at(m)),
            det ==> *bot1 == a0 && *bot2 == b0,
            det ==> rec@ == tally_from(rec0, branch_results::<G, A, B>(m, side, magic_index, a0, b0, outputs@.subrange(0, k as int))),
            det ==> rec.count == count0 + branch_results::<G, A, B>(m, side, magic_index, a0, b0, outputs@.subrange(0, k as int)).len(),
        decreases outputs.len() - k,
    {
        let output = outputs[k];
        let ghost pre = outputs@.subrange(0, k as int);
        let ghost before = rec@;
        proof {
            assert(outputs@.subrange(0, k + 1).drop_last() =~= pre);
            assert(outputs@.subrange(0, k + 1).last() == output);
            if det {
                lemma_branch_grows::<G, A, B>(m, side, magic_index, a0, b0, outputs@, k + 1, outputs@.len() as int);
                assert(outputs@.subrange(0, outputs@.len() as int) =~= outputs@);
            }
        }
        if contains_move(&moves, output) {
            let mut next = game.copy();
            proof {
                G::lemma_next(m, side, output);
            }
            next.update(side, output);
            match explore(&next, 1 - side, magic_index, identities, bot1, bot2, rec) {
                Ok(()) => {
                    proof {
                        if det {
                            let child = leaf_results::<G, A, B>(next.model(), (1 - side) as usize, magic_index, a0, b0);
                            let bp = branch_results::<G, A, B>(m, side, magic_index, a0, b0, pre);
                            lemma_tally_from_concat(rec0, bp, child);
                            lemma_tally_from_concat(before, Seq::empty(), child);
                            assert(next.model() == G::next_at(m, side, output));
                            assert(G::legal_at(m).contains(output));
                            assert(branch_results::<G, A, B>(m, side, magic_index, a0, b0, outputs@.subrange(0, k + 1))
                                == bp + child);
                        }
                    }
                },
                Err(e) => {
                    return Err(e);
                },
            }
        } else {
            if !rec.has_room() {
                return Err(MatchError::TooManyMatches);
            }
            let d = GameResult::disqualified(identities, side);
            assert(d == disqualified_result(G::labels(), side));
            rec.record(&d);
            proof {
                if det {
                    let bp = branch_results::<G, A, B>(m, side, magic_index, a0, b0, pre);
                    lemma_tally_from_concat(rec0, bp, seq![d]);
                    assert(bp.push(d) =~= bp + seq![d]);
                    assert(seq![d].drop_last() =~= Seq::<GameResult>::empty());
                    assert(tally_from(before, seq![d]) == add_result(tally_from(before, seq![d].drop_last()), d));
                    assert(!G::legal_at(m).contains(output));
                    assert(branch_results::<G, A, B>(m, side, magic_index, a0, b0, outputs@.subrange(0, k + 1))
                        == bp.push(d));
                }
            }
        }
        k = k + 1;
    }
    proof {
        assert(outputs@.subrange(0, outputs@.len() as int) =~= outputs@);
    }
    Ok(())
}

/// Which side is the oracle: exactly one of the two must be magic.
pub fn magic_side(magic1: bool, magic2: bool) -> (r: Result<usize, MatchError>)
    ensures
        magic1 && magic2 ==> r == Err::<usize, MatchError>(MatchError::BothMagic),
        !magic1 && !magic2 ==> r == Err::<usize, MatchError>(MatchError::NoMagicBot),
        magic1 && !magic2 ==> r == Ok::<usize, MatchError>(0),
        !magic1 && magic2 ==> r == Ok::<usize, MatchError>(1),
{
    if magic1 && magic2 {
        Err(MatchError::BothMagic)
    } else if magic1 {
        Ok(0)
    } else if magic2 {
        Ok(1)
    } else {
        Err(MatchError::NoMagicBot)
    }
}

/// The oracle side when exactly one player is magic.
pub open spec fn oracle_side<A: GamePlayer, B: GamePlayer>(a: A, b: B) -> usize {
    if a.magic() { 0 } else { 1 }
}

/// Runs one exhaustive traversal from `template`, the first side moving
/// first, the magic side as the oracle, and sums every ended branch.
pub fn run_magic_batch<G: GameTrait, A: GamePlayer, B: GamePlayer>(
    template: &G,
    bot1: &mut A,
    bot2: &mut B,
) -> (r: Result<FitnessRecord, MatchError>)
    requires
        G::wf_at(template.model()),
    ensures
        r.is_ok() ==> r.unwrap().wf(),
        old(bot1).magic() && old(bot2).magic() ==> r == Err::<FitnessRecord, MatchError>(MatchError::BothMagic),
        !old(bot1).magic() && !old(bot2).magic() ==> r == Err::<FitnessRecord, MatchError>(MatchError::NoMagicBot),
        old(bot1).magic() != old(bot2).magic() && r.is_err() ==> r == Err::<FitnessRecord, MatchError>(MatchError::TooManyMatches),
        G::ended_at(template.model()) && old(bot1).magic() != old(bot2).magic() ==>
            r.is_ok() && r.unwrap()@ == add_result(zero_tally(), G::result_at(template.model())),
        old(bot1).magic() != old(bot2).magic() && old(bot1).deterministic() && old(bot2).deterministic() ==> {
            let leaf = leaf_results::<G, A, B>(template.model(), 0, oracle_side(*old(bot1), *old(bot2)), *old(bot1), *old(bot2));
            &&& (r.is_ok() <==> leaf.len() <= MAX_MATCHES)
            &&& r.is_ok() ==> r.unwrap()@ == tally(leaf)
        },
{
    let magic_index = match magic_side(bot1.is_magic(), bot2.is_magic()) {
        Ok(i) => i,
        Err(e) => {
            return Err(e);
        },
    };
    let identities = template.get_identities();
    let mut rec = FitnessRecord::new();
    let ghost a0 = *bot1;
    let ghost b0 = *bot2;
    match explore(template, 0, magic_index, identities, bot1, bot2, &mut rec) {
        Ok(()) => {
            proof {
                lemma_tally_from_zero(leaf_results::<G, A, B>(template.model(), 0, magic_index, a0, b0));
            }
            Ok(rec)
        },
        Err(e) => Err(e),
    }
}

} // verus!
