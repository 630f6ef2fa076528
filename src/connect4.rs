//! Connect four as a game the simulator can drive.
use vstd::prelude::*;
use crate::board::shown;
use crate::game::{
    blank_count, calculate_score, lemma_blank_count_bound, lemma_blank_count_update, lemma_nearest_in,
    model_after, nearest, nearest_move, score_of, GameInfo, GameModel, GameTrait,
};
use crate::result::{GameResult, GameStatus};
use crate::text::chars_of;
use crate::world::{
    cell_at, empty_world_cells, has_blank, scan_from, landing_from, landing_row, open_columns, world_state, World,
    WorldState,
};

verus! {

/// Every column of `open_columns(d, n)` is below `n` and has a blank top cell.
pub proof fn lemma_open_columns_mem(d: Seq<char>, n: int, x: u32)
    requires
        open_columns(d, n).contains(x),
        n <= 7,
    ensures
        (x as int) < n,
        d[42 + x] == ' ',
    decreases n,
{
    if n > 0 {
        if d[42 + n - 1] == ' ' {
            let s = open_columns(d, n - 1);
            let t = s.push((n - 1) as u32);
            if x != (n - 1) as u32 {
                let j = choose|j: int| 0 <= j < t.len() && #[trigger] t[j] == x;
                assert(s[j] == x);
                lemma_open_columns_mem(d, n - 1, x);
            }
        } else {
            lemma_open_columns_mem(d, n - 1, x);
        }
    }
}

/// The row a piece lands on is blank, when it is one of rows `0..=r`.
pub proof fn lemma_landing_blank(d: Seq<char>, col: int, r: int)
    requires
        r >= -1,
        landing_from(d, col, r) <= r,
    ensures
        cell_at(d, col, landing_from(d, col, r)) == ' ',
    decreases r + 1,
{
    if r >= 0 && cell_at(d, col, r) == ' ' && landing_from(d, col, r - 1) <= r - 1 {
        lemma_landing_blank(d, col, r - 1);
    }
}

/// Whether every cell is a space or a mark.
pub open spec fn chars_ok(d: Seq<char>) -> bool {
    forall|i: int| 0 <= i < d.len() ==> (#[trigger] d[i] == ' ' || d[i] == 'X' || d[i] == 'O')
}

/// Whether pieces rest on each other: above a blank cell there is only blank.
pub open spec fn settled(d: Seq<char>) -> bool {
    forall|p: int| 0 <= p < 42 && #[trigger] d[p] == ' ' ==> d[p + 7] == ' '
}

proof fn lemma_top_blank(d: Seq<char>, r: int, c: int)
    requires
        d.len() == 49,
        settled(d),
        0 <= r <= 6,
        0 <= c < 7,
        d[r * 7 + c] == ' ',
    ensures
        d[42 + c] == ' ',
    decreases 6 - r,
{
    if r < 6 {
        assert(d[r * 7 + c + 7] == ' ');
        assert(r * 7 + c + 7 == (r + 1) * 7 + c);
        lemma_top_blank(d, r + 1, c);
    }
}

proof fn lemma_open_nonempty(d: Seq<char>, n: int, c: int)
    requires
        0 <= c < n <= 7,
        d[42 + c] == ' ',
    ensures
        open_columns(d, n).len() > 0,
    decreases n,
{
    if c < n - 1 {
        lemma_open_nonempty(d, n - 1, c);
    }
}

proof fn lemma_scan_blank(d: Seq<char>, k: int)
    requires
        scan_from(d, k) == WorldState::InProgress,
    ensures
        has_blank(d),
    decreases 49 - k,
{
    if k < 49 {
        lemma_scan_blank(d, k + 1);
    }
}

proof fn lemma_landing_rests(d: Seq<char>, col: int, r: int)
    requires
        r >= -1,
    ensures
        landing_from(d, col, r) == 0 || cell_at(d, col, landing_from(d, col, r) - 1) != ' ',
    decreases r + 1,
{
    if r >= 0 && cell_at(d, col, r) == ' ' {
        lemma_landing_rests(d, col, r - 1);
    }
}

/// The input vector side `id` sees: 49 cells holding its own mark, then 49
/// cells holding the other side's mark, each bottom row first.
pub open spec fn connect4_inputs(d: Seq<char>, id: char) -> Seq<bool> {
    Seq::new(
        98,
        |i: int|
            if i < 49 {
                shown(d[i]) == id
            } else {
                shown(d[i - 49]) != id && shown(d[i - 49]) != ' '
            },
    )
}

/// A game of connect four: the world and the turns each side took.
pub struct Connect4Game {
    world: World,
    num_turns: [u32; 2],
}

fn count_blanks(world: &World) -> (r: u32)
    requires
        world.wf(),
    ensures
        r == blank_count(world.cells(), 49),
        r <= 49,
{
    let mut n: u32 = 0;
    let mut p: usize = 0;
    while p < 49
        invariant
            world.wf(),
            p <= 49,
            n == blank_count(world.cells(), p as int),
            n <= p,
        decreases 49 - p,
    {
        if world.getat(p % 7, p / 7) == ' ' {
            n = n + 1;
        }
        p = p + 1;
    }
    n
}

/// The label of side `index`.
pub open spec fn connect4_identity(index: int) -> char {
    if index == 0 { 'X' } else { 'O' }
}

/// Whether the world's cells are spaces and marks resting on each other.
fn world_settled(world: &World) -> (r: bool)
    requires
        world.wf(),
    ensures
        r == (chars_ok(world.cells()) && settled(world.cells())),
{
    let d = chars_of(world.data().as_str());
    let mut i: usize = 0;
    while i < 49
        invariant
            d@ == world.cells(),
            d@.len() == 49,
            i <= 49,
            forall|j: int| 0 <= j < i ==> (#[trigger] d@[j] == ' ' || d@[j] == 'X' || d@[j] == 'O'),
        decreases 49 - i,
    {
        let c = d[i];
        if !(c == ' ' || c == 'X' || c == 'O') {
            return false;
        }
        i = i + 1;
    }
    let mut p: usize = 0;
    while p < 42
        invariant
            d@ == world.cells(),
            d@.len() == 49,
            chars_ok(d@),
            p <= 42,
            forall|q: int| 0 <= q < p && #[trigger] d@[q] == ' ' ==> d@[q + 7] == ' ',
        decreases 42 - p,
    {
        if d[p] == ' ' && d[p + 7] != ' ' {
            return false;
        }
        p = p + 1;
    }
    true
}

impl Connect4Game {
    /// A game on an empty world.
    pub fn new() -> (r: Connect4Game)
        ensures
            Connect4Game::wf_at(r.model()),
            r.model().cells == empty_world_cells(),
            r.model().turns0 == 0 && r.model().turns1 == 0,
    {
        let world = World::new();
        proof {
            lemma_blank_count_bound(world.cells(), 49);
        }
        Connect4Game { world, num_turns: [0, 0] }
    }

    /// A game restored from its cells and turn counts; a snapshot that
    /// breaks the game's invariant gives a new game.
    pub fn from_parts(data: &str, turns1: u32, turns2: u32) -> (r: Connect4Game)
        ensures
            Connect4Game::wf_at(r.model()),
            Connect4Game::wf_at(GameModel { cells: data@, turns0: turns1 as nat, turns1: turns2 as nat })
                ==> r.model() == (GameModel { cells: data@, turns0: turns1 as nat, turns1: turns2 as nat }),
    {
        let world = World::from_data(data);
        let blanks = count_blanks(&world);
        if turns1 <= 49 && turns2 <= 49 && turns1 + turns2 + blanks <= 49 && world_settled(&world) {
            Connect4Game { world, num_turns: [turns1, turns2] }
        } else {
            Connect4Game::new()
        }
    }

    /// The cells as text.
    pub fn data(&self) -> (r: String)
        ensures
            r@ == self.model().cells,
    {
        self.world.data()
    }

    /// Turns taken by side `index`.
    pub fn num_turns(&self, index: usize) -> (r: u32)
        requires
            index < 2,
        ensures
            r == if index == 0 { self.model().turns0 } else { self.model().turns1 },
    {
        self.num_turns[index]
    }

    /// The label of side `index`.
    pub fn get_identity(&self, index: usize) -> (r: char)
        requires
            index < 2,
        ensures
            r == connect4_identity(index as int),
    {
        if index == 0 { 'X' } else { 'O' }
    }

    /// The world.
    pub fn world(&self) -> (r: &World)
        ensures
            r.cells() == self.model().cells,
    {
        &self.world
    }
}

impl GameTrait for Connect4Game {
    closed spec fn model(&self) -> GameModel {
        GameModel {
            cells: self.world.cells(),
            turns0: self.num_turns[0] as nat,
            turns1: self.num_turns[1] as nat,
        }
    }

    open spec fn wf_at(m: GameModel) -> bool {
        &&& m.cells.len() == 49
        &&& chars_ok(m.cells)
        &&& settled(m.cells)
        &&& m.turns0 + m.turns1 + blank_count(m.cells, 49) <= 49
    }

    proof fn lemma_live(m: GameModel) {
        let d = m.cells;
        lemma_scan_blank(d, 0);
        let i = choose|i: int| 0 <= i < d.len() && d[i] == ' ';
        let c = i % 7;
        let r = i / 7;
        assert(i == r * 7 + c && 0 <= c < 7 && 0 <= r <= 6) by {
            vstd::arithmetic::div_mod::lemma_fundamental_div_mod(i, 7);
        }
        lemma_top_blank(d, r, c);
        lemma_open_nonempty(d, 7, c);
    }

    open spec fn ended_at(m: GameModel) -> bool {
        world_state(m.cells) != WorldState::InProgress
    }

    open spec fn moves_left_at(m: GameModel) -> nat {
        blank_count(m.cells, 49)
    }

    open spec fn legal_at(m: GameModel) -> Seq<u32> {
        open_columns(m.cells, 7)
    }

    open spec fn inputs_at(m: GameModel, index: usize) -> Seq<bool> {
        connect4_inputs(m.cells, connect4_identity(index as int))
    }

    open spec fn next_at(m: GameModel, index: usize, output: u32) -> GameModel {
        let col = nearest(open_columns(m.cells, 7), output) as int;
        model_after(m, index, m.cells.update(landing_row(m.cells, col) * 7 + col, connect4_identity(index as int)))
    }

    open spec fn info() -> GameInfo {
        GameInfo { input_count: 98, output_count: 7 }
    }

    open spec fn labels() -> [char; 2] {
        ['X', 'O']
    }

    open spec fn result_at(m: GameModel) -> GameResult {
        let st = world_state(m.cells);
        let o1: i8 = if st == WorldState::XWin { 1 } else if st == WorldState::OWin { -1i8 } else { 0i8 };
        let o2: i8 = if st == WorldState::XWin { -1i8 } else if st == WorldState::OWin { 1 } else { 0 };
        GameResult {
            score1: score_of(25, m.turns0 as int, o1) as i64,
            score2: score_of(25, m.turns1 as int, o2) as i64,
            identities: ['X', 'O'],
            status: if st == WorldState::Draw { GameStatus::Tie } else { GameStatus::Win },
        }
    }

    proof fn lemma_next(m: GameModel, index: usize, output: u32) {
        let d = m.cells;
        let target = nearest(open_columns(d, 7), output);
        lemma_nearest_in(open_columns(d, 7), output);
        lemma_open_columns_mem(d, 7, target);
        assert(cell_at(d, target as int, 6) == ' ');
        assert(landing_row(d, target as int) == landing_from(d, target as int, 5));
        crate::world::lemma_landing_bound(d, target as int, 5);
        lemma_landing_blank(d, target as int, 6);
        let l = landing_row(d, target as int);
        assert(0 <= l * 7 + target < 49) by (nonlinear_arith)
            requires 0 <= l <= 6, 0 <= target < 7;
        lemma_blank_count_update(d, 49, l * 7 + target, connect4_identity(index as int));
        lemma_landing_rests(d, target as int, 6);
        let id = connect4_identity(index as int);
        let e = d.update(l * 7 + target, id);
        assert forall|i: int| 0 <= i < e.len() implies (#[trigger] e[i] == ' ' || e[i] == 'X' || e[i] == 'O') by {
            assert(d[i] == ' ' || d[i] == 'X' || d[i] == 'O');
        }
        assert forall|p: int| 0 <= p < 42 && #[trigger] e[p] == ' ' implies e[p + 7] == ' ' by {
            assert(d[p] == ' ' || d[p] == 'X' || d[p] == 'O');
            if p + 7 == l * 7 + target {
                assert(p == (l - 1) * 7 + target);
                assert(d[(l - 1) * 7 + target] == ' ' || d[(l - 1) * 7 + target] == 'X' || d[(l - 1) * 7 + target] == 'O');
                assert(cell_at(d, target as int, l - 1) != ' ');
            }
        }
    }

    fn get_identities(&self) -> (r: [char; 2]) {
        ['X', 'O']
    }

    fn get_game_info(&self) -> (r: GameInfo) {
        GameInfo { input_count: 98, output_count: 7 }
    }

    fn get_inputs(&self, index: usize) -> (r: (Vec<bool>, Vec<u32>)) {
        let identity = self.get_identity(index);
        let mut inputs: Vec<bool> = Vec::new();
        let mut p: usize = 0;
        while p < 49
            invariant
                self.world.wf(),
                p <= 49,
                inputs@ == connect4_inputs(self.model().cells, identity).subrange(0, p as int),
            decreases 49 - p,
        {
            let c = self.world.getat(p % 7, p / 7);
            inputs.push(c == identity);
            p = p + 1;
            assert(inputs@ =~= connect4_inputs(self.model().cells, identity).subrange(0, p as int));
        }
        let mut p: usize = 0;
        while p < 49
            invariant
                self.world.wf(),
                p <= 49,
                inputs@ == connect4_inputs(self.model().cells, identity).subrange(0, 49 + p),
            decreases 49 - p,
        {
            let c = self.world.getat(p % 7, p / 7);
            inputs.push(c != identity && c != ' ');
            p = p + 1;
            assert(inputs@ =~= connect4_inputs(self.model().cells, identity).subrange(0, 49 + p));
        }
        (inputs, self.world.get_possible_moves())
    }

    fn update(&mut self, index: usize, output: u32) {
        let moves = self.world.get_possible_moves();
        let identity = self.get_identity(index);
        let target = nearest_move(&moves, output);
        proof {
            Connect4Game::lemma_next(self.model(), index, output);
            lemma_open_columns_mem(self.world.cells(), 7, target);
        }
        self.world.setat(target as usize, identity);
        self.num_turns[index] = self.num_turns[index] + 1;
    }

    fn is_ended(&self) -> (r: bool) {
        self.world.is_ended()
    }

    fn get_result(&self) -> (r: GameResult) {
        let outcome = self.world.get_game_state();
        let o1: i8 = match outcome {
            WorldState::XWin => 1,
            WorldState::OWin => -1,
            _ => 0,
        };
        let o2: i8 = match outcome {
            WorldState::XWin => -1,
            WorldState::OWin => 1,
            _ => 0,
        };
        let status = if outcome == WorldState::Draw { GameStatus::Tie } else { GameStatus::Win };
        GameResult {
            score1: calculate_score(25, self.num_turns[0], o1),
            score2: calculate_score(25, self.num_turns[1], o2),
            identities: ['X', 'O'],
            status,
        }
    }

    fn copy(&self) -> (r: Connect4Game) {
        Connect4Game { world: self.world.copy(), num_turns: self.num_turns }
    }
}

} // verus!
