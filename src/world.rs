//! The 7×7 connect-four world: pieces drop to the lowest free row of a column.
use vstd::prelude::*;
use crate::board::shown;
use crate::text::{chars_of, pad, pad_exec, push_str, repeat_char, string_of};

verus! {

/// Number of columns.
pub const WORLD_WIDTH: usize = 7;
/// Number of rows.
pub const WORLD_HEIGHT: usize = 7;

/// The state of a connect-four game.
#[derive(Clone, Copy, Debug, PartialEq, Eq, Structural)]
pub enum WorldState {
    InProgress,
    XWin,
    OWin,
    Draw,
}

/// What the cell at `col`, `row` shows (row 0 is the bottom).
pub open spec fn cell_at(d: Seq<char>, col: int, row: int) -> char {
    shown(d[row * 7 + col])
}

/// The winner code of a mark: 1 for X, 2 for anything else.
pub open spec fn owner(c: char) -> u8 {
    if c == 'X' { 1 } else { 2 }
}

/// Whether the four cells from `col`, `row` in direction `dc`, `dr` all show `c`.
pub open spec fn four(d: Seq<char>, col: int, row: int, dc: int, dr: int, c: char) -> bool {
    cell_at(d, col + dc, row + dr) == c
        && cell_at(d, col + 2 * dc, row + 2 * dr) == c
        && cell_at(d, col + 3 * dc, row + 3 * dr) == c
}

/// The line found starting at `col`, `row`: 0 for none, else the owner of
/// its mark. Rows and diagonals are searched rightwards and upwards only.
pub open spec fn win_at(d: Seq<char>, col: int, row: int) -> u8 {
    let c = cell_at(d, col, row);
    if c == ' ' {
        0
    } else if col < 4 && four(d, col, row, 1, 0, c) {
        owner(c)
    } else if row > 3 {
        0
    } else if four(d, col, row, 0, 1, c) {
        owner(c)
    } else if col > 2 && four(d, col, row, -1, 1, c) {
        owner(c)
    } else if col < 4 && four(d, col, row, 1, 1, c) {
        owner(c)
    } else {
        0
    }
}

/// Whether some stored cell is a blank.
pub open spec fn has_blank(d: Seq<char>) -> bool {
    exists|i: int| 0 <= i < d.len() && d[i] == ' '
}

/// The state found scanning cells from position `p` on, bottom row first.
pub open spec fn scan_from(d: Seq<char>, p: int) -> WorldState
    decreases 49 - p,
{
    if p >= 49 {
        if has_blank(d) { WorldState::InProgress } else { WorldState::Draw }
    } else {
        let w = win_at(d, p % 7, p / 7);
        if w == 1 {
            WorldState::XWin
        } else if w == 2 {
            WorldState::OWin
        } else {
            scan_from(d, p + 1)
        }
    }
}

/// The state of cells `d`.
pub open spec fn world_state(d: Seq<char>) -> WorldState {
    scan_from(d, 0)
}

/// The row a piece dropped into `col` comes to rest on, searching rows
/// `0..=r` from the top: one above the highest occupied cell, or 0.
pub open spec fn landing_from(d: Seq<char>, col: int, r: int) -> int
    decreases r + 1,
{
    if r < 0 {
        0
    } else if cell_at(d, col, r) != ' ' {
        r + 1
    } else {
        landing_from(d, col, r - 1)
    }
}

pub proof fn lemma_landing_bound(d: Seq<char>, col: int, r: int)
    requires
        r >= -1,
    ensures
        0 <= landing_from(d, col, r) <= r + 1,
    decreases r + 1,
{
    if r >= 0 {
        lemma_landing_bound(d, col, r - 1);
    }
}

/// The row a piece dropped into `col` comes to rest on.
pub open spec fn landing_row(d: Seq<char>, col: int) -> int {
    landing_from(d, col, 6)
}

/// The columns, ascending, among `0..n` whose top cell is stored blank.
pub open spec fn open_columns(d: Seq<char>, n: int) -> Seq<u32>
    decreases n,
{
    if n <= 0 {
        Seq::empty()
    } else if d[42 + n - 1] == ' ' {
        open_columns(d, n - 1).push((n - 1) as u32)
    } else {
        open_columns(d, n - 1)
    }
}

/// Forty-nine blanks.
pub open spec fn empty_world_cells() -> Seq<char> {
    Seq::new(49, |i: int| ' ')
}

/// `| a | b | ... |` over the stored cells of row `row`, from column `k` on.
pub open spec fn row_cells_text(d: Seq<char>, row: int, k: int) -> Seq<char>
    decreases 7 - k,
{
    if k >= 7 {
        Seq::empty()
    } else {
        seq![' ', d[row * 7 + k], ' ', '|'] + row_cells_text(d, row, k + 1)
    }
}

/// Display line of row `row`.
pub open spec fn world_row_line(d: Seq<char>, indent: nat, row: int) -> Seq<char> {
    pad(indent) + seq!['|'] + row_cells_text(d, row, 0)
}

/// Twenty-seven dashes.
pub open spec fn dashes() -> Seq<char> {
    Seq::new(27, |i: int| '-')
}

/// The display lines of cells `d`: the rows from the top down with
/// dividers between them, a bottom edge and an empty line.
pub open spec fn world_lines(d: Seq<char>, indent: nat) -> Seq<Seq<char>> {
    Seq::new(
        15,
        |i: int|
            if i == 14 {
                Seq::empty()
            } else if i == 13 {
                pad(indent) + seq!['\\'] + dashes() + seq!['/']
            } else if i % 2 == 1 {
                pad(indent) + seq!['|'] + dashes() + seq!['|']
            } else {
                world_row_line(d, indent, 6 - i / 2)
            },
    )
}

/// The connect-four world: 49 cells, row by row from the bottom.
pub struct World {
    data: Vec<char>,
}

impl World {
    /// The cells.
    pub closed spec fn cells(&self) -> Seq<char> {
        self.data@
    }

    /// Whether the world holds 49 cells.
    pub open spec fn wf(&self) -> bool {
        self.cells().len() == 49
    }

    fn empty_cells() -> (r: Vec<char>)
        ensures
            r@ == empty_world_cells(),
    {
        let mut r: Vec<char> = Vec::new();
        let mut i: usize = 0;
        while i < WORLD_WIDTH * WORLD_HEIGHT
            invariant
                i <= 49,
                r@ == Seq::new(i as nat, |k: int| ' '),
            decreases 49 - i,
        {
            r.push(' ');
            i = i + 1;
            assert(r@ =~= Seq::new(i as nat, |k: int| ' '));
        }
        r
    }

    /// The text of an empty world.
    pub fn empty_world() -> (r: String)
        ensures
            r@ == empty_world_cells(),
    {
        string_of(&World::empty_cells())
    }

    /// An empty world.
    pub fn new() -> (r: World)
        ensures
            r.wf(),
            r.cells() == empty_world_cells(),
    {
        World { data: World::empty_cells() }
    }

    /// A world of cells `data`; any text that is not 49 cells gives an
    /// empty world.
    pub fn from_data(data: &str) -> (r: World)
        ensures
            r.wf(),
            data@.len() == 49 ==> r.cells() == data@,
            data@.len() != 49 ==> r.cells() == empty_world_cells(),
    {
        let d = chars_of(data);
        if d.len() == 49 {
            World { data: d }
        } else {
            World::new()
        }
    }

    /// The cells as text.
    pub fn data(&self) -> (r: String)
        ensures
            r@ == self.cells(),
    {
        string_of(&self.data)
    }

    /// Empties every cell.
    pub fn clear(&mut self)
        ensures
            final(self).wf(),
            final(self).cells() == empty_world_cells(),
    {
        self.data = World::empty_cells();
    }

    /// A copy of this world.
    pub fn copy(&self) -> (r: World)
        ensures
            r.cells() == self.cells(),
            r.wf() == self.wf(),
    {
        World { data: self.data.clone() }
    }

    /// The position of the cell at `col`, `row`.
    pub fn getindex(&self, col: usize, row: usize) -> (r: usize)
        requires
            col < 7,
            row < 7,
        ensures
            r == row * 7 + col,
    {
        (row * WORLD_HEIGHT) + col
    }

    /// The stored cells of row `row`.
    pub fn getrow(&self, row: usize) -> (r: Vec<char>)
        requires
            self.wf(),
            row < 7,
        ensures
            r@ == self.cells().subrange(row * 7, row * 7 + 7),
    {
        let start = row * WORLD_HEIGHT;
        let mut r: Vec<char> = Vec::new();
        let mut i: usize = 0;
        while i < WORLD_WIDTH
            invariant
                self.wf(),
                start == row * 7,
                row < 7,
                i <= 7,
                r@ == self.cells().subrange(start as int, start + i),
            decreases 7 - i,
        {
            r.push(self.data[start + i]);
            i = i + 1;
            assert(r@ =~= self.cells().subrange(start as int, start + i));
        }
        r
    }

    /// What the cell at `col`, `row` shows.
    pub fn getat(&self, col: usize, row: usize) -> (r: char)
        requires
            self.wf(),
            col < 7,
            row < 7,
        ensures
            r == cell_at(self.cells(), col as int, row as int),
    {
        let pos = self.getindex(col, row);
        let c = self.data[pos];
        if c == '-' { ' ' } else { c }
    }

    /// Puts `turn` at `col`, `row`, without gravity.
    pub fn setat_raw(&mut self, col: usize, row: usize, turn: char)
        requires
            old(self).wf(),
            col < 7,
            row < 7,
        ensures
            final(self).wf(),
            final(self).cells() == old(self).cells().update(row * 7 + col, turn),
    {
        let pos = self.getindex(col, row);
        self.data.set(pos, turn);
    }

    /// Drops `turn` into column `col`; it lands on the lowest free row.
    pub fn setat(&mut self, col: usize, turn: char)
        requires
            old(self).wf(),
            col < 7,
            cell_at(old(self).cells(), col as int, 6) == ' ',
        ensures
            final(self).wf(),
            landing_row(old(self).cells(), col as int) < 7,
            final(self).cells() == old(self).cells().update(
                landing_row(old(self).cells(), col as int) * 7 + col,
                turn,
            ),
    {
        let mut r: usize = 7;
        while r > 0 && self.getat(col, r - 1) == ' '
            invariant
                self.wf(),
                col < 7,
                r <= 7,
                landing_row(self.cells(), col as int) == landing_from(self.cells(), col as int, r - 1),
            decreases r,
        {
            r = r - 1;
        }
        let row = r;
        proof {
            lemma_landing_bound(self.cells(), col as int, 5);
            assert(landing_row(self.cells(), col as int) == landing_from(self.cells(), col as int, 5));
        }
        self.setat_raw(col, row, turn);
    }

    /// The state of the game.
    pub fn get_game_state(&self) -> (r: WorldState)
        requires
            self.wf(),
        ensures
            r == world_state(self.cells()),
    {
        let mut p: usize = 0;
        while p < 49
            invariant
                self.wf(),
                p <= 49,
                scan_from(self.cells(), 0) == scan_from(self.cells(), p as int),
            decreases 49 - p,
        {
            let col = p % 7;
            let row = p / 7;
            let c = self.getat(col, row);
            if c != ' ' {
                let won = if col < 4 && self.getat(col + 1, row) == c && self.getat(col + 2, row) == c
                    && self.getat(col + 3, row) == c {
                    true
                } else if row > 3 {
                    false
                } else if self.getat(col, row + 1) == c && self.getat(col, row + 2) == c
                    && self.getat(col, row + 3) == c {
                    true
                } else if col > 2 && self.getat(col - 1, row + 1) == c && self.getat(col - 2, row + 2)
                    == c && self.getat(col - 3, row + 3) == c {
                    true
                } else {
                    col < 4 && self.getat(col + 1, row + 1) == c && self.getat(col + 2, row + 2) == c
                        && self.getat(col + 3, row + 3) == c
                };
                if won {
                    return if c == 'X' { WorldState::XWin } else { WorldState::OWin };
                }
            }
            p = p + 1;
        }
        let mut i: usize = 0;
        while i < 49
            invariant
                self.wf(),
                i <= 49,
                scan_from(self.cells(), 0) == scan_from(self.cells(), 49),
                forall|k: int| 0 <= k < i ==> self.cells()[k] != ' ',
            decreases 49 - i,
        {
            if self.data[i] == ' ' {
                assert(self.cells()[i as int] == ' ');
                return WorldState::InProgress;
            }
            i = i + 1;
        }
        assert(!has_blank(self.cells()));
        WorldState::Draw
    }

    /// Whether the game has ended.
    pub fn is_ended(&self) -> (r: bool)
        requires
            self.wf(),
        ensures
            r == (world_state(self.cells()) != WorldState::InProgress),
    {
        match self.get_game_state() {
            WorldState::InProgress => false,
            _ => true,
        }
    }

    /// The winner's mark, `None` for a draw.
    pub fn get_winner(&self) -> (r: Option<char>)
        requires
            self.wf(),
            world_state(self.cells()) != WorldState::InProgress,
        ensures
            world_state(self.cells()) == WorldState::XWin ==> r == Some('X'),
            world_state(self.cells()) == WorldState::OWin ==> r == Some('O'),
            world_state(self.cells()) == WorldState::Draw ==> r.is_none(),
    {
        match self.get_game_state() {
            WorldState::XWin => Some('X'),
            WorldState::OWin => Some('O'),
            _ => None,
        }
    }

    /// The columns, ascending, that still take a piece.
    pub fn get_possible_moves(&self) -> (r: Vec<u32>)
        requires
            self.wf(),
        ensures
            r@ == open_columns(self.cells(), 7),
    {
        let top = self.getrow(6);
        let mut v: Vec<u32> = Vec::new();
        let mut i: usize = 0;
        while i < 7
            invariant
                self.wf(),
                top@ == self.cells().subrange(42, 49),
                i <= 7,
                v@ == open_columns(self.cells(), i as int),
            decreases 7 - i,
        {
            if top[i] == ' ' {
                v.push(i as u32);
            }
            i = i + 1;
        }
        v
    }

    /// Display line of row `row`.
    fn row_text(&self, indent: u8, row: usize) -> (t: String)
        requires
            self.wf(),
            row < 7,
        ensures
            t@ == world_row_line(self.cells(), indent as nat, row as int),
    {
        let mut line = pad_exec(indent);
        line.push('|');
        let ghost head = line@;
        let mut k: usize = 7;
        let mut tail: Vec<char> = Vec::new();
        while k > 0
            invariant
                self.wf(),
                row < 7,
                k <= 7,
                tail@ == row_cells_text(self.cells(), row as int, k as int),
            decreases k,
        {
            k = k - 1;
            let mut part: Vec<char> = vec![' ', self.data[row * 7 + k], ' ', '|'];
            let ghost before = tail@;
            let mut j: usize = 0;
            while j < tail.len()
                invariant
                    j <= tail@.len(),
                    part@ == seq![' ', self.cells()[row * 7 + k], ' ', '|'] + tail@.subrange(0, j as int),
                decreases tail.len() - j,
            {
                part.push(tail[j]);
                j = j + 1;
                assert(part@ =~= seq![' ', self.cells()[row * 7 + k], ' ', '|'] + tail@.subrange(0, j as int));
            }
            assert(tail@.subrange(0, tail@.len() as int) =~= tail@);
            tail = part;
        }
        let ghost t0 = tail@;
        let mut j: usize = 0;
        while j < tail.len()
            invariant
                j <= tail@.len(),
                line@ == head + tail@.subrange(0, j as int),
            decreases tail.len() - j,
        {
            line.push(tail[j]);
            j = j + 1;
            assert(line@ =~= head + tail@.subrange(0, j as int));
        }
        assert(tail@.subrange(0, tail@.len() as int) =~= tail@);
        assert(line@ =~= world_row_line(self.cells(), indent as nat, row as int));
        string_of(&line)
    }

    /// The lines that display the world, top row first, each starting with
    /// `indent` spaces (at least one).
    pub fn show(&self, indent: u8) -> (r: Vec<String>)
        requires
            self.wf(),
        ensures
            r@.map_values(|l: String| l@) == world_lines(self.cells(), indent as nat),
    {
        let dash = repeat_char('-', 27);
        let mut divider = pad_exec(indent);
        divider.push('|');
        let mut j: usize = 0;
        while j < 27
            invariant
                j <= 27,
                dash@ == dashes(),
                divider@ == pad(indent as nat) + seq!['|'] + dashes().subrange(0, j as int),
            decreases 27 - j,
        {
            divider.push(dash[j]);
            j = j + 1;
            assert(divider@ =~= pad(indent as nat) + seq!['|'] + dashes().subrange(0, j as int));
        }
        divider.push('|');
        assert(divider@ =~= pad(indent as nat) + seq!['|'] + dashes() + seq!['|']);
        let mut bottom = pad_exec(indent);
        bottom.push('\\');
        let mut j: usize = 0;
        while j < 27
            invariant
                j <= 27,
                dash@ == dashes(),
                bottom@ == pad(indent as nat) + seq!['\\'] + dashes().subrange(0, j as int),
            decreases 27 - j,
        {
            bottom.push(dash[j]);
            j = j + 1;
            assert(bottom@ =~= pad(indent as nat) + seq!['\\'] + dashes().subrange(0, j as int));
        }
        bottom.push('/');
        assert(bottom@ =~= pad(indent as nat) + seq!['\\'] + dashes() + seq!['/']);
        let ghost all = world_lines(self.cells(), indent as nat);
        let mut lines: Vec<String> = Vec::new();
        let mut r: usize = 7;
        while r > 0
            invariant
                self.wf(),
                r <= 7,
                all == world_lines(self.cells(), indent as nat),
                divider@ == pad(indent as nat) + seq!['|'] + dashes() + seq!['|'],
                lines@.len() == if r == 7 { 0 } else { 13 - 2 * r },
                lines@.map_values(|l: String| l@) == all.subrange(0, lines@.len() as int),
            decreases r,
        {
            r = r - 1;
            if r < 6 {
                lines.push(string_of(&divider));
                assert(lines@.map_values(|l: String| l@) =~= all.subrange(0, lines@.len() as int));
            }
            lines.push(self.row_text(indent, r));
            assert(lines@.map_values(|l: String| l@) =~= all.subrange(0, lines@.len() as int));
        }
        assert(lines@.len() == 13);
        let bottom_text = string_of(&bottom);
        let empty_text = String::new();
        assert(all[13] == bottom_text@);
        assert(all[14] == empty_text@);
        let ghost pre = lines@.map_values(|l: String| l@);
        lines.push(bottom_text);
        lines.push(empty_text);
        let ghost post = lines@.map_values(|l: String| l@);
        assert forall|i: int| 0 <= i < 15 implies #[trigger] post[i] == all[i] by {
            if i < 13 {
                assert(pre[i] == all.subrange(0, 13)[i]);
                assert(post[i] == lines@[i]@);
            }
        }
        assert(lines@.map_values(|l: String| l@) =~= all);
        lines
    }
}

} // verus!

