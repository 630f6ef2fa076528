//! The 3×3 naughts-and-crosses board.
use vstd::prelude::*;
use crate::text::{chars_of, pad, pad_exec, push_str, string_of};

verus! {

/// What a stored cell shows: `-` is shown as a blank.
pub open spec fn shown(c: char) -> char {
    if c == '-' { ' ' } else { c }
}

/// The eight winning lines, in the order they are checked.
pub open spec fn win_line(k: int) -> (int, int, int) {
    if k == 0 { (0, 1, 2) }
    else if k == 1 { (3, 4, 5) }
    else if k == 2 { (6, 7, 8) }
    else if k == 3 { (0, 3, 6) }
    else if k == 4 { (1, 4, 7) }
    else if k == 5 { (2, 5, 8) }
    else if k == 6 { (0, 4, 8) }
    else { (2, 4, 6) }
}

/// Whether every cell of line `k` shows `p`.
pub open spec fn line_of(d: Seq<char>, k: int, p: char) -> bool {
    let (a, b, c) = win_line(k);
    shown(d[a]) == p && shown(d[b]) == p && shown(d[c]) == p
}

/// Whether every cell holds a mark.
pub open spec fn full(d: Seq<char>) -> bool {
    forall|p: int| 0 <= p < 9 ==> (#[trigger] shown(d[p]) == 'X' || shown(d[p]) == 'O')
}

/// Game state from line `k` on: 1 when X owns the first completed line,
/// 2 when O does, else 3 for a full board and 0 for a game in progress.
pub open spec fn state_from(d: Seq<char>, k: int) -> u8
    decreases 8 - k,
{
    if k >= 8 {
        if full(d) { 3 } else { 0 }
    } else if line_of(d, k, 'X') {
        1
    } else if line_of(d, k, 'O') {
        2
    } else {
        state_from(d, k + 1)
    }
}

/// The game state of cells `d`.
pub open spec fn game_state(d: Seq<char>) -> u8 {
    state_from(d, 0)
}

/// The nine empty cells.
pub open spec fn empty_cells() -> Seq<char> {
    Seq::new(9, |i: int| '-')
}

/// The positions, ascending, among `0..n` whose cell shows a blank.
pub open spec fn blanks_below(d: Seq<char>, n: int) -> Seq<u32>
    decreases n,
{
    if n <= 0 {
        Seq::empty()
    } else if shown(d[n - 1]) == ' ' {
        blanks_below(d, n - 1).push((n - 1) as u32)
    } else {
        blanks_below(d, n - 1)
    }
}

/// The cell a rotated board takes its position `p` from.
pub open spec fn rotation_source(p: int) -> int {
    if p == 0 { 6 }
    else if p == 1 { 3 }
    else if p == 2 { 0 }
    else if p == 3 { 7 }
    else if p == 4 { 4 }
    else if p == 5 { 1 }
    else if p == 6 { 8 }
    else if p == 7 { 5 }
    else { 2 }
}

/// Cells `d` turned clockwise by a quarter, `r` times.
pub open spec fn rotated(d: Seq<char>, r: nat) -> Seq<char>
    decreases r,
{
    if r == 0 {
        d
    } else {
        let e = rotated(d, (r - 1) as nat);
        Seq::new(9, |p: int| e[rotation_source(p)])
    }
}

/// The value of a decimal digit character.
pub open spec fn digit_value(c: char) -> int {
    c as int - '0' as int
}

/// Whether every character of `s` is a digit naming a cell.
pub open spec fn cell_digits(s: Seq<char>) -> bool {
    forall|i: int| 0 <= i < s.len() ==> '0' <= #[trigger] s[i] <= '8'
}

/// Display line `r` of a row of cells `a`, `b`, `c`.
pub open spec fn row_line(indent: nat, a: char, b: char, c: char) -> Seq<char> {
    pad(indent) + seq![' ', a, ' ', '|', ' ', b, ' ', '|', ' ', c, ' ']
}

/// The divider between rows.
pub open spec fn divider_line(indent: nat) -> Seq<char> {
    pad(indent) + "-----------"@
}

/// The display lines of cells `d`: three rows with dividers between them,
/// then an empty line.
pub open spec fn board_lines(d: Seq<char>, indent: nat) -> Seq<Seq<char>> {
    seq![
        row_line(indent, shown(d[0]), shown(d[1]), shown(d[2])),
        divider_line(indent),
        row_line(indent, shown(d[3]), shown(d[4]), shown(d[5])),
        divider_line(indent),
        row_line(indent, shown(d[6]), shown(d[7]), shown(d[8])),
        Seq::empty(),
    ]
}

/// The board, as nine cells read left to right, top to bottom. A blank
/// cell is stored as `-`.
pub struct Board {
    data: Vec<char>,
}

impl Board {
    /// The cells.
    pub closed spec fn cells(&self) -> Seq<char> {
        self.data@
    }

    /// Whether the board holds nine cells.
    pub open spec fn wf(&self) -> bool {
        self.cells().len() == 9
    }

    /// An empty board.
    pub fn new() -> (r: Board)
        ensures
            r.wf(),
            r.cells() == empty_cells(),
    {
        let data: Vec<char> = vec!['-', '-', '-', '-', '-', '-', '-', '-', '-'];
        assert(data@ =~= empty_cells());
        Board { data }
    }

    /// A board of cells `data`; any text that is not nine cells gives an
    /// empty board.
    pub fn from_data(data: &str) -> (r: Board)
        ensures
            r.wf(),
            data@.len() == 9 ==> r.cells() == data@,
            data@.len() != 9 ==> r.cells() == empty_cells(),
    {
        let d = chars_of(data);
        if d.len() == 9 {
            Board { data: d }
        } else {
            Board::new()
        }
    }

    /// The cells as text.
    pub fn data(&self) -> (r: String)
        ensures
            r@ == self.cells(),
    {
        string_of(&self.data)
    }

    /// Empties every cell.
    pub fn clear(&mut self)
        ensures
            final(self).wf(),
            final(self).cells() == empty_cells(),
    {
        *self = Board::new();
    }

    /// A copy of this board.
    pub fn copy(&self) -> (r: Board)
        ensures
            r.cells() == self.cells(),
            r.wf() == self.wf(),
    {
        Board { data: self.data.clone() }
    }

    /// What cell `pos` shows:
    ///  0 | 1 | 2
    ///  3 | 4 | 5
    ///  6 | 7 | 8
    pub fn getat(&self, pos: usize) -> (r: char)
        requires
            self.wf(),
            pos < 9,
        ensures
            r == shown(self.cells()[pos as int]),
    {
        let c = self.data[pos];
        if c == '-' { ' ' } else { c }
    }

    /// Puts `turn` in cell `pos`.
    pub fn setat(&mut self, pos: usize, turn: char)
        requires
            old(self).wf(),
            pos < 9,
        ensures
            final(self).wf(),
            final(self).cells() == old(self).cells().update(pos as int, turn),
    {
        self.data.set(pos, turn);
    }

    /// The game state: 0 in progress, 1 X wins, 2 O wins, 3 draw.
    pub fn get_game_state(&self) -> (r: u8)
        requires
            self.wf(),
        ensures
            r == game_state(self.cells()),
    {
        let lines: [[usize; 3]; 8] = [
            [0, 1, 2],
            [3, 4, 5],
            [6, 7, 8],
            [0, 3, 6],
            [1, 4, 7],
            [2, 5, 8],
            [0, 4, 8],
            [2, 4, 6],
        ];
        let mut k: usize = 0;
        while k < 8
            invariant
                self.wf(),
                k <= 8,
                forall|j: int| 0 <= j < 8 ==>
                    #[trigger] lines@[j]@ == seq![win_line(j).0 as usize, win_line(j).1 as usize, win_line(j).2 as usize],
                state_from(self.cells(), 0) == state_from(self.cells(), k as int),
            decreases 8 - k,
        {
            let line = lines[k];
            assert(line@ == seq![win_line(k as int).0 as usize, win_line(k as int).1 as usize, win_line(k as int).2 as usize]);
            let a = self.getat(line[0]);
            let b = self.getat(line[1]);
            let c = self.getat(line[2]);
            if a == 'X' && b == 'X' && c == 'X' {
                return 1;
            } else if a == 'O' && b == 'O' && c == 'O' {
                return 2;
            }
            k = k + 1;
        }
        let mut is_draw = true;
        let mut p: usize = 0;
        while p < 9
            invariant
                self.wf(),
                p <= 9,
                is_draw == (forall|q: int| 0 <= q < p ==> (#[trigger] shown(self.cells()[q]) == 'X' || shown(self.cells()[q]) == 'O')),
            decreases 9 - p,
        {
            let v = self.getat(p);
            if v != 'X' && v != 'O' {
                is_draw = false;
            }
            p = p + 1;
        }
        if is_draw { 3 } else { 0 }
    }

    /// Whether the game has ended.
    pub fn is_ended(&self) -> (r: bool)
        requires
            self.wf(),
        ensures
            r == (game_state(self.cells()) != 0),
    {
        self.get_game_state() != 0
    }

    /// The winner's mark, or a blank when there is none.
    pub fn get_winner(&self) -> (r: char)
        requires
            self.wf(),
        ensures
            game_state(self.cells()) == 1 ==> r == 'X',
            game_state(self.cells()) == 2 ==> r == 'O',
            game_state(self.cells()) != 1 && game_state(self.cells()) != 2 ==> r == ' ',
    {
        let state = self.get_game_state();
        if state == 1 { 'X' } else if state == 2 { 'O' } else { ' ' }
    }

    /// What the cells named by the digits of `pos_str` show, in order.
    pub fn getat_multi(&self, pos_str: &str) -> (r: String)
        requires
            self.wf(),
            cell_digits(pos_str@),
        ensures
            r@.len() == pos_str@.len(),
            forall|i: int| 0 <= i < r@.len() ==>
                #[trigger] r@[i] == shown(self.cells()[digit_value(pos_str@[i])]),
    {
        let ps = chars_of(pos_str);
        let mut out: Vec<char> = Vec::new();
        let mut i: usize = 0;
        while i < ps.len()
            invariant
                self.wf(),
                ps@ == pos_str@,
                cell_digits(ps@),
                i <= ps@.len(),
                out@.len() == i,
                forall|j: int| 0 <= j < i ==>
                    #[trigger] out@[j] == shown(self.cells()[digit_value(ps@[j])]),
            decreases ps.len() - i,
        {
            let c = ps[i];
            assert('0' <= ps@[i as int] <= '8');
            let pos = (c as u32 - '0' as u32) as usize;
            out.push(self.getat(pos));
            i = i + 1;
        }
        string_of(&out)
    }

    /// A copy of the board turned clockwise by a quarter, `rotations` times
    /// (modulo four).
    pub fn get_rotated_board(&self, rotations: u8) -> (r: Board)
        requires
            self.wf(),
        ensures
            r.wf(),
            r.cells() == rotated(self.cells(), (rotations % 4) as nat),
    {
        let rot = rotations % 4;
        let transform_map: [usize; 9] = [6, 3, 0, 7, 4, 1, 8, 5, 2];
        let mut board_copy = self.copy();
        let mut n: u8 = 0;
        while n < rot
            invariant
                n <= rot,
                rot < 4,
                board_copy.wf(),
                board_copy.cells() == rotated(self.cells(), n as nat),
                forall|p: int| 0 <= p < 9 ==> #[trigger] transform_map@[p] == rotation_source(p),
            decreases rot - n,
        {
            let mut new_data: Vec<char> = Vec::new();
            let mut p: usize = 0;
            while p < 9
                invariant
                    p <= 9,
                    board_copy.wf(),
                    forall|q: int| 0 <= q < 9 ==> #[trigger] transform_map@[q] == rotation_source(q),
                    new_data@.len() == p,
                    forall|q: int| 0 <= q < p ==>
                        #[trigger] new_data@[q] == board_copy.cells()[rotation_source(q)],
                decreases 9 - p,
            {
                let src = transform_map[p];
                new_data.push(board_copy.data[src]);
                p = p + 1;
            }
            proof {
                let e = rotated(self.cells(), n as nat);
                assert(new_data@ =~= Seq::new(9, |q: int| e[rotation_source(q)]));
                assert(rotated(self.cells(), (n + 1) as nat) == Seq::new(9, |q: int| e[rotation_source(q)]));
            }
            board_copy = Board { data: new_data };
            n = n + 1;
        }
        board_copy
    }

    /// The first cell, in the order given by the digits of `positions`,
    /// that shows a blank.
    pub fn get_first_empty_space(&self, positions: &str) -> (r: Option<usize>)
        requires
            self.wf(),
            cell_digits(positions@),
        ensures
            r.is_none() ==> forall|i: int| 0 <= i < positions@.len() ==>
                shown(self.cells()[digit_value(#[trigger] positions@[i])]) != ' ',
            r.is_some() ==> exists|i: int| 0 <= i < positions@.len()
                && r.unwrap() == digit_value(#[trigger] positions@[i])
                && shown(self.cells()[r.unwrap() as int]) == ' '
                && forall|j: int| 0 <= j < i ==>
                    shown(self.cells()[digit_value(#[trigger] positions@[j])]) != ' ',
    {
        let ps = chars_of(positions);
        let mut i: usize = 0;
        while i < ps.len()
            invariant
                self.wf(),
                ps@ == positions@,
                cell_digits(ps@),
                i <= ps@.len(),
                forall|j: int| 0 <= j < i ==>
                    shown(self.cells()[digit_value(#[trigger] ps@[j])]) != ' ',
            decreases ps.len() - i,
        {
            assert('0' <= ps@[i as int] <= '8');
            let pos = (ps[i] as u32 - '0' as u32) as usize;
            if self.getat(pos) == ' ' {
                return Some(pos);
            }
            i = i + 1;
        }
        None
    }

    /// The blank cells, ascending.
    pub fn get_possible_moves(&self) -> (r: Vec<u32>)
        requires
            self.wf(),
        ensures
            r@ == blanks_below(self.cells(), 9),
    {
        let mut moves: Vec<u32> = Vec::new();
        let mut index: usize = 0;
        while index < 9
            invariant
                self.wf(),
                index <= 9,
                moves@ == blanks_below(self.cells(), index as int),
            decreases 9 - index,
        {
            if self.getat(index) == ' ' {
                moves.push(index as u32);
            }
            index = index + 1;
        }
        moves
    }

    /// One display row.
    fn row_text(&self, indent: u8, r: usize) -> (t: String)
        requires
            self.wf(),
            r < 3,
        ensures
            t@ == row_line(indent as nat, shown(self.cells()[3 * r]), shown(self.cells()[3 * r + 1]), shown(self.cells()[3 * r + 2])),
    {
        let mut line = pad_exec(indent);
        let ghost p = line@;
        line.push(' ');
        line.push(self.getat(3 * r));
        line.push(' ');
        line.push('|');
        line.push(' ');
        line.push(self.getat(3 * r + 1));
        line.push(' ');
        line.push('|');
        line.push(' ');
        line.push(self.getat(3 * r + 2));
        line.push(' ');
        assert(line@ =~= row_line(indent as nat, shown(self.cells()[3 * r]), shown(self.cells()[3 * r + 1]), shown(self.cells()[3 * r + 2])));
        string_of(&line)
    }

    /// The lines that display the board, each starting with `indent`
    /// spaces (at least one).
    pub fn show(&self, indent: u8) -> (r: Vec<String>)
        requires
            self.wf(),
        ensures
            r@.map_values(|l: String| l@) == board_lines(self.cells(), indent as nat),
    {
        let mut divider = pad_exec(indent);
        push_str(&mut divider, "-----------");
        let mut lines: Vec<String> = Vec::new();
        lines.push(self.row_text(indent, 0));
        lines.push(string_of(&divider));
        lines.push(self.row_text(indent, 1));
        lines.push(string_of(&divider));
        lines.push(self.row_text(indent, 2));
        lines.push(String::new());
        assert(lines@.map_values(|l: String| l@) =~= board_lines(self.cells(), indent as nat));
        lines
    }
}

} // verus!
