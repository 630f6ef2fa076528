//! Naughts and crosses as a game the simulator can drive.
use vstd::prelude::*;
use crate::board::{blanks_below, empty_cells, full, game_state, shown, state_from, Board};
use crate::game::{
    blank_count, calculate_score, lemma_blank_count_bound, lemma_blank_count_update, lemma_nearest_in,
    model_after, nearest, nearest_move, score_of, GameInfo, GameModel, GameTrait,
};
use crate::result::{GameResult, GameStatus};
use crate::text::chars_of;

verus! {

/// Every position of `blanks_below(d, n)` is a blank cell below `n`.
pub proof fn lemma_blanks_below_mem(d: Seq<char>, n: int, x: u32)
    requires
        blanks_below(d, n).contains(x),
        n <= 49,
    ensures
        (x as int) < n,
        shown(d[x as int]) == ' ',
    decreases n,
{
    if n > 0 {
        if shown(d[n - 1]) == ' ' {
            let s = blanks_below(d, n - 1);
            let t = s.push((n - 1) as u32);
            if x != (n - 1) as u32 {
                let j = choose|j: int| 0 <= j < t.len() && #[trigger] t[j] == x;
                assert(s[j] == x);
                lemma_blanks_below_mem(d, n - 1, x);
            }
        } else {
            lemma_blanks_below_mem(d, n - 1, x);
        }
    }
}

/// Whether every cell holds a blank (`-` or a space) or a mark.
pub open spec fn marks_ok(d: Seq<char>) -> bool {
    forall|i: int| 0 <= i < d.len() ==> (#[trigger] d[i] == '-' || d[i] == ' ' || d[i] == 'X' || d[i] == 'O')
}

proof fn lemma_full_state(d: Seq<char>, k: int)
    requires
        full(d),
    ensures
        state_from(d, k) != 0,
    decreases 8 - k,
{
    if k < 8 {
        lemma_full_state(d, k + 1);
    }
}

proof fn lemma_blank_listed(d: Seq<char>, n: int, p: int)
    requires
        0 <= p < n,
        shown(d[p]) == ' ',
    ensures
        blanks_below(d, n).len() > 0,
    decreases n,
{
    if p < n - 1 {
        lemma_blank_listed(d, n - 1, p);
    }
}

/// The input vector side `id` sees: nine cells holding its own mark, then
/// nine cells holding the other side's mark.
pub open spec fn naughts_inputs(d: Seq<char>, id: char) -> Seq<bool> {
    Seq::new(
        18,
        |i: int|
            if i < 9 {
                shown(d[i]) == id
            } else {
                shown(d[i - 9]) != id && shown(d[i - 9]) != ' '
            },
    )
}

/// The label of side `index`.
pub open spec fn naughts_identity(index: int) -> char {
    if index == 0 { 'X' } else { 'O' }
}

/// A game of naughts and crosses: the board and the turns each side took.
pub struct NaughtsGame {
    board: Board,
    num_turns: [u32; 2],
}

impl NaughtsGame {
    /// A game on an empty board.
    pub fn new() -> (r: NaughtsGame)
        ensures
            NaughtsGame::wf_at(r.model()),
            r.model().cells == empty_cells(),
            r.model().turns0 == 0 && r.model().turns1 == 0,
    {
        let board = Board::new();
        proof {
            lemma_blank_count_bound(board.cells(), 9);
            assert(marks_ok(board.cells()));
        }
        NaughtsGame { board, num_turns: [0, 0] }
    }

    /// A game restored from its cells and turn counts; a snapshot that
    /// breaks the game's invariant gives a new game.
    pub fn from_parts(data: &str, turns1: u32, turns2: u32) -> (r: NaughtsGame)
        ensures
            NaughtsGame::wf_at(r.model()),
            NaughtsGame::wf_at(GameModel { cells: data@, turns0: turns1 as nat, turns1: turns2 as nat })
                ==> r.model() == (GameModel { cells: data@, turns0: turns1 as nat, turns1: turns2 as nat }),
    {
        let board = Board::from_data(data);
        let blanks = count_blanks(&board);
        if turns1 <= 9 && turns2 <= 9 && turns1 + turns2 + blanks <= 9 && board_marks_ok(&board) {
            NaughtsGame { board, num_turns: [turns1, turns2] }
        } else {
            NaughtsGame::new()
        }
    }

    /// The cells as text.
    pub fn data(&self) -> (r: String)
        ensures
            r@ == self.model().cells,
    {
        self.board.data()
    }

    /// Turns taken by side `index`.
    pub fn num_turns(&self, index: usize) -> (r: u32)
        requires
            index < 2,
        ensures
            r == if index == 0 { self.model().turns0 } else { self.model().turns1 },
    {
        self.num_turns[index]
    }

    /// The label of side `index`.
    pub fn get_identity(&self, index: usize) -> (r: char)
        requires
            index < 2,
        ensures
            r == naughts_identity(index as int),
    {
        if index == 0 { 'X' } else { 'O' }
    }

    /// The board.
    pub fn board(&self) -> (r: &Board)
        ensures
            r.cells() == self.model().cells,
    {
        &self.board
    }
}

fn board_marks_ok(board: &Board) -> (r: bool)
    requires
        board.wf(),
    ensures
        r == marks_ok(board.cells()),
{
    let d = chars_of(board.data().as_str());
    let mut i: usize = 0;
    while i < d.len()
        invariant
            d@ == board.cells(),
            i <= d@.len(),
            forall|j: int| 0 <= j < i ==> (#[trigger] d@[j] == '-' || d@[j] == ' ' || d@[j] == 'X' || d@[j] == 'O'),
        decreases d.len() - i,
    {
        let c = d[i];
        if !(c == '-' || c == ' ' || c == 'X' || c == 'O') {
            return false;
        }
        i = i + 1;
    }
    true
}

fn count_blanks(board: &Board) -> (r: u32)
    requires
        board.wf(),
    ensures
        r == blank_count(board.cells(), 9),
        r <= 9,
{
    let mut n: u32 = 0;
    let mut p: usize = 0;
    while p < 9
        invariant
            board.wf(),
            p <= 9,
            n == blank_count(board.cells(), p as int),
            n <= p,
        decreases 9 - p,
    {
        if board.getat(p) == ' ' {
            n = n + 1;
        }
        p = p + 1;
    }
    n
}

impl GameTrait for NaughtsGame {
    closed spec fn model(&self) -> GameModel {
        GameModel {
            cells: self.board.cells(),
            turns0: self.num_turns[0] as nat,
            turns1: self.num_turns[1] as nat,
        }
    }

    open spec fn wf_at(m: GameModel) -> bool {
        &&& m.cells.len() == 9
        &&& marks_ok(m.cells)
        &&& m.turns0 + m.turns1 + blank_count(m.cells, 9) <= 9
    }

    proof fn lemma_live(m: GameModel) {
        if full(m.cells) {
            lemma_full_state(m.cells, 0);
        }
        let p = choose|p: int| 0 <= p < 9 && !(shown(m.cells[p]) == 'X' || shown(m.cells[p]) == 'O');
        assert(m.cells[p] == '-' || m.cells[p] == ' ' || m.cells[p] == 'X' || m.cells[p] == 'O');
        lemma_blank_listed(m.cells, 9, p);
    }

    open spec fn ended_at(m: GameModel) -> bool {
        game_state(m.cells) != 0
    }

    open spec fn moves_left_at(m: GameModel) -> nat {
        blank_count(m.cells, 9)
    }

    open spec fn legal_at(m: GameModel) -> Seq<u32> {
        blanks_below(m.cells, 9)
    }

    open spec fn inputs_at(m: GameModel, index: usize) -> Seq<bool> {
        naughts_inputs(m.cells, naughts_identity(index as int))
    }

    open spec fn next_at(m: GameModel, index: usize, output: u32) -> GameModel {
        model_after(
            m,
            index,
            m.cells.update(nearest(blanks_below(m.cells, 9), output) as int, naughts_identity(index as int)),
        )
    }

    open spec fn info() -> GameInfo {
        GameInfo { input_count: 18, output_count: 9 }
    }

    open spec fn labels() -> [char; 2] {
        ['X', 'O']
    }

    open spec fn result_at(m: GameModel) -> GameResult {
        let st = game_state(m.cells);
        let o1: i8 = if st == 1 { 1 } else if st == 2 { -1i8 } else { 0i8 };
        let o2: i8 = if st == 1 { -1i8 } else if st == 2 { 1 } else { 0 };
        GameResult {
            score1: score_of(10, m.turns0 as int, o1) as i64,
            score2: score_of(10, m.turns1 as int, o2) as i64,
            identities: ['X', 'O'],
            status: if st == 3 { GameStatus::Tie } else { GameStatus::Win },
        }
    }

    proof fn lemma_next(m: GameModel, index: usize, output: u32) {
        let target = nearest(blanks_below(m.cells, 9), output);
        lemma_nearest_in(blanks_below(m.cells, 9), output);
        lemma_blanks_below_mem(m.cells, 9, target);
        lemma_blank_count_update(m.cells, 9, target as int, naughts_identity(index as int));
        let e = m.cells.update(target as int, naughts_identity(index as int));
        assert forall|i: int| 0 <= i < e.len() implies (#[trigger] e[i] == '-' || e[i] == ' ' || e[i] == 'X' || e[i] == 'O') by {
            assert(m.cells[i] == '-' || m.cells[i] == ' ' || m.cells[i] == 'X' || m.cells[i] == 'O');
        }
    }

    fn get_identities(&self) -> (r: [char; 2]) {
        ['X', 'O']
    }

    fn get_game_info(&self) -> (r: GameInfo) {
        GameInfo { input_count: 18, output_count: 9 }
    }

    fn get_inputs(&self, index: usize) -> (r: (Vec<bool>, Vec<u32>)) {
        let identity = self.get_identity(index);
        let mut inputs: Vec<bool> = Vec::new();
        let mut pos: usize = 0;
        while pos < 9
            invariant
                self.board.wf(),
                pos <= 9,
                inputs@ == naughts_inputs(self.model().cells, identity).subrange(0, pos as int),
            decreases 9 - pos,
        {
            let c = self.board.getat(pos);
            inputs.push(c == identity);
            pos = pos + 1;
            assert(inputs@ =~= naughts_inputs(self.model().cells, identity).subrange(0, pos as int));
        }
        let mut pos: usize = 0;
        while pos < 9
            invariant
                self.board.wf(),
                pos <= 9,
                inputs@ == naughts_inputs(self.model().cells, identity).subrange(0, 9 + pos),
            decreases 9 - pos,
        {
            let c = self.board.getat(pos);
            inputs.push(c != identity && c != ' ');
            pos = pos + 1;
            assert(inputs@ =~= naughts_inputs(self.model().cells, identity).subrange(0, 9 + pos));
        }
        (inputs, self.board.get_possible_moves())
    }

    fn update(&mut self, index: usize, output: u32) {
        let moves = self.board.get_possible_moves();
        let identity = self.get_identity(index);
        let target = nearest_move(&moves, output);
        proof {
            NaughtsGame::lemma_next(self.model(), index, output);
            lemma_blanks_below_mem(self.board.cells(), 9, target);
        }
        self.board.setat(target as usize, identity);
        self.num_turns[index] = self.num_turns[index] + 1;
    }

    fn is_ended(&self) -> (r: bool) {
        self.board.is_ended()
    }

    fn get_result(&self) -> (r: GameResult) {
        let outcome = self.board.get_game_state();
        let o1: i8 = if outcome == 1 { 1 } else if outcome == 2 { -1i8 } else { 0i8 };
        let o2: i8 = if outcome == 1 { -1 } else if outcome == 2 { 1 } else { 0 };
        let status = if outcome == 3 { GameStatus::Tie } else { GameStatus::Win };
        GameResult {
            score1: calculate_score(10, self.num_turns[0], o1),
            score2: calculate_score(10, self.num_turns[1], o2),
            identities: ['X', 'O'],
            status,
        }
    }

    fn copy(&self) -> (r: NaughtsGame) {
        NaughtsGame { board: self.board.copy(), num_turns: self.num_turns }
    }
}

} // verus!
