//! The grid and the execution engine: building the grid from program text,
//! locating the start marker, decoding instructions and their arguments, and
//! applying decoded commands to the agent and the variable store.

use vstd::prelude::*;
use crate::data::{Command, Direction, LangError};
use crate::digits::{
    decimal_of, digit_val, is_digit, lemma_number_of_digits_monotone, number_of_digits,
};
use crate::snake::{
    Snake, SnakeModel, decrease_model, increase_model, pos_model, set_length_model, shift_model,
};
use crate::vars::VarStore;

verus! {

// ---------------------------------------------------------------------------
// Program text and grid geometry
// ---------------------------------------------------------------------------

/// The index of the first line break at or after `i`, or the text's length
/// where none remains.
pub open spec fn first_newline_from(text: Seq<char>, i: int) -> int
    decreases text.len() - i,
{
    if i < 0 || i >= text.len() {
        text.len() as int
    } else if text[i] == '\n' {
        i
    } else {
        first_newline_from(text, i + 1)
    }
}

/// The first line break at or after an in-range `i` lies between `i` and the
/// text's end.
proof fn lemma_first_newline_bounds(text: Seq<char>, i: int)
    ensures
        0 <= i <= text.len() ==> i <= first_newline_from(text, i) <= text.len(),
    decreases text.len() - i,
{
    if 0 <= i < text.len() && text[i] != '\n' {
        lemma_first_newline_bounds(text, i + 1);
    }
}

/// The rows from position `i` on: the run up to the next line break, then the
/// rows after it. Text without a line break is a single row; text ending in
/// one has a final empty row.
pub open spec fn lines_from(text: Seq<char>, i: int) -> Seq<Seq<char>>
    decreases text.len() - i,
    via lines_from_decreases
{
    let nl = first_newline_from(text, i);
    if i < 0 || nl >= text.len() {
        seq![text.subrange(i, nl)]
    } else {
        seq![text.subrange(i, nl)] + lines_from(text, nl + 1)
    }
}

#[via_fn]
proof fn lines_from_decreases(text: Seq<char>, i: int) {
    lemma_first_newline_bounds(text, i);
}

/// The program text split into rows on line breaks, with no trimming.
pub open spec fn lines_of(text: Seq<char>) -> Seq<Seq<char>> {
    lines_from(text, 0)
}

/// The character at column `x` of row `y`, or `None` past the row count or
/// past that row's end. This is the single gate through which every
/// out-of-grid condition is observed.
pub open spec fn cell_at(rows: Seq<Seq<char>>, x: int, y: int) -> Option<char> {
    if 0 <= y < rows.len() && 0 <= x < rows[y].len() {
        Some(rows[y][x])
    } else {
        None
    }
}

///`(x, y)` holds the start marker `$`.
pub open spec fn is_marker(rows: Seq<Seq<char>>, x: int, y: int) -> bool {
    cell_at(rows, x, y) == Some('$')
}

/// Some cell holds the start marker.
pub open spec fn has_marker(rows: Seq<Seq<char>>) -> bool {
    exists|x: int, y: int| is_marker(rows, x, y)
}

/// Exactly one cell holds the start marker.
pub open spec fn unique_marker(rows: Seq<Seq<char>>) -> bool {
    has_marker(rows) && forall|x1: int, y1: int, x2: int, y2: int|
        is_marker(rows, x1, y1) && is_marker(rows, x2, y2) ==> x1 == x2 && y1 == y2
}

/// The direction a direction character denotes, if any.
pub open spec fn dir_of(c: char) -> Option<Direction> {
    if c == '^' {
        Some(Direction::Up)
    } else if c == '>' {
        Some(Direction::Right)
    } else if c == 'v' {
        Some(Direction::Down)
    } else if c == '<' {
        Some(Direction::Left)
    } else {
        None
    }
}

/// Reading the cell at `(x, y)` as a direction argument: an absent cell or a
/// character other than `^ > v <` is a fatal error.
pub open spec fn direction_result(rows: Seq<Seq<char>>, x: int, y: int) -> Result<
    Direction,
    LangError,
> {
    match cell_at(rows, x, y) {
        Option::None => Err(LangError::MissingDirection),
        Some(c) => match dir_of(c) {
            Some(d) => Ok(d),
            Option::None => Err(LangError::InvalidDirection(c)),
        },
    }
}

/// What loading a program text must produce: with no marker or more than one,
/// the corresponding fatal error; with exactly one, a fresh agent at the
/// marker whose direction is read from the cell to the marker's right, over
/// the split rows and an empty variable store.
pub open spec fn load_result(text: Seq<char>) -> Result<GridModel, LangError> {
    let rows = lines_of(text);
    if !has_marker(rows) {
        Err(LangError::NoStartPosition)
    } else if !unique_marker(rows) {
        Err(LangError::MultipleStartPositions)
    } else {
        let (x, y) = choose|x: int, y: int| is_marker(rows, x, y);
        match direction_result(rows, x + 1, y) {
            Ok(d) => Ok(
                GridModel {
                    slots: rows,
                    snake: SnakeModel {
                        position: (x, y),
                        direction: d,
                        tails: Seq::empty(),
                        needs_add: 0,
                        alive: true,
                    },
                    variables: Map::empty(),
                },
            ),
            Err(e) => Err(e),
        }
    }
}

// ---------------------------------------------------------------------------
// Instruction arguments
// ---------------------------------------------------------------------------

/// The maximal run of digit characters starting at `(x, y)` and extending to
/// the right, stopping at the first non-digit or absent cell.
pub open spec fn digit_run(rows: Seq<Seq<char>>, x: int, y: int) -> Seq<char>
    decreases (if 0 <= y < rows.len() && 0 <= x < rows[y].len() {
        rows[y].len() - x
    } else {
        0
    }),
{
    match cell_at(rows, x, y) {
        Some(c) => if is_digit(c) {
            seq![c] + digit_run(rows, x + 1, y)
        } else {
            Seq::empty()
        },
        Option::None => Seq::empty(),
    }
}

/// Reading a number argument at `(x, y)`: a non-digit or absent cell at the
/// argument position itself is a fatal error, and so is a value beyond the
/// platform's unsigned range.
pub open spec fn number_result(rows: Seq<Seq<char>>, x: int, y: int) -> Result<usize, LangError> {
    match cell_at(rows, x, y) {
        Option::None => Err(LangError::MissingNumber),
        Some(c) => if !is_digit(c) {
            Err(LangError::InvalidNumber(c))
        } else {
            let v = number_of_digits(digit_run(rows, x, y));
            if v > usize::MAX {
                Err(LangError::NumberOverflow)
            } else {
                Ok(v as usize)
            }
        },
    }
}

/// Reading a character argument at `(x, y)`. With escapes allowed, a
/// backslash looks one cell further: `n` becomes a newline, `t` a tab, `\`
/// a backslash, and anything else — an absent cell included — yields the
/// backslash character itself, unsubstituted.
pub open spec fn char_result(rows: Seq<Seq<char>>, x: int, y: int, allow_escape: bool) -> Result<
    char,
    LangError,
> {
    match cell_at(rows, x, y) {
        Option::None => Err(LangError::MissingCharacter),
        Some(c) => if c == '\\' && allow_escape {
            match cell_at(rows, x + 1, y) {
                Some('n') => Ok('\n'),
                Some('t') => Ok('\t'),
                Some('\\') => Ok('\\'),
                _ => Ok('\\'),
            }
        } else {
            Ok(c)
        },
    }
}

/// Decoding the cell at `(x, y)` under the variable mapping `vars`. An absent
/// or unrecognized cell decodes to no instruction. A conditional `?` reads a
/// variable name at `x + 1`; where the variable is present with a value of at
/// least one, the result is the decoding of the cell at `x + 2`, and
/// otherwise no instruction.
pub open spec fn decode_at(
    rows: Seq<Seq<char>>,
    vars: Map<char, nat>,
    x: int,
    y: int,
) -> Result<Command, LangError>
    decreases (if 0 <= y < rows.len() && 0 <= x < rows[y].len() {
        rows[y].len() - x
    } else {
        0
    }),
{
    match cell_at(rows, x, y) {
        Option::None => Ok(Command::Nop),
        Some(ch) => if ch == '+' {
            match number_result(rows, x + 1, y) {
                Ok(n) => Ok(Command::IncreaseLength(n)),
                Err(e) => Err(e),
            }
        } else if ch == '-' {
            match number_result(rows, x + 1, y) {
                Ok(n) => Ok(Command::DecreaseLength(n)),
                Err(e) => Err(e),
            }
        } else if ch == '=' {
            match number_result(rows, x + 1, y) {
                Ok(n) => Ok(Command::SetLength(n)),
                Err(e) => Err(e),
            }
        } else if ch == '^' {
            Ok(Command::SetDirection(Direction::Up))
        } else if ch == '>' {
            Ok(Command::SetDirection(Direction::Right))
        } else if ch == 'v' {
            Ok(Command::SetDirection(Direction::Down))
        } else if ch == '<' {
            Ok(Command::SetDirection(Direction::Left))
        } else if ch == '#' {
            match char_result(rows, x + 1, y, true) {
                Ok(c) => Ok(Command::Print(c)),
                Err(e) => Err(e),
            }
        } else if ch == '*' {
            Ok(Command::PrintLen)
        } else if ch == '@' {
            match char_result(rows, x + 1, y, false) {
                Ok(c) => Ok(Command::WriteVariable(c)),
                Err(e) => Err(e),
            }
        } else if ch == '%' {
            match char_result(rows, x + 1, y, false) {
                Ok(c) => Ok(Command::ReadVariable(c)),
                Err(e) => Err(e),
            }
        } else if ch == '?' {
            match char_result(rows, x + 1, y, false) {
                Ok(name) => if vars.contains_key(name) && vars[name] >= 1 {
                    decode_at(rows, vars, x + 2, y)
                } else {
                    Ok(Command::Nop)
                },
                Err(e) => Err(e),
            }
        } else if ch == '&' {
            Ok(Command::NumberInput)
        } else {
            Ok(Command::Nop)
        },
    }
}

/// The rows a vector of row vectors denotes.
pub open spec fn rows_model(rows: Seq<Vec<char>>) -> Seq<Seq<char>> {
    rows.map_values(|r: Vec<char>| r@)
}

/// The store's mapping with its recorded lengths as unbounded integers.
pub open spec fn vars_model(m: Map<char, usize>) -> Map<char, nat> {
    Map::new(|c: char| m.contains_key(c), |c: char| m[c] as nat)
}

/// Mathematical model of a [`Grid`]: the rows, the agent, and the variable
/// store.
#[verifier::ext_equal]
pub struct GridModel {
    pub slots: Seq<Seq<char>>,
    pub snake: SnakeModel,
    pub variables: Map<char, nat>,
}

/// The grid after the agent's movement, before the command under it runs.
pub open spec fn shifted(g: GridModel) -> GridModel {
    GridModel { snake: shift_model(g.snake), ..g }
}

/// The command decoded at the agent's current position.
pub open spec fn step_decode(g: GridModel) -> Result<Command, LangError> {
    decode_at(g.slots, g.variables, g.snake.position.0, g.snake.position.1)
}

/// What applying one decoded command does to the grid, and the characters it
/// emits. Interactive number input changes nothing here: its effect arrives
/// separately, once the number has been collected.
pub open spec fn command_effect(g: GridModel, cmd: Command) -> (GridModel, Seq<char>) {
    match cmd {
        Command::Nop => (g, Seq::empty()),
        Command::IncreaseLength(n) => (
            GridModel { snake: increase_model(g.snake, n as nat), ..g },
            Seq::empty(),
        ),
        Command::DecreaseLength(n) => (
            GridModel { snake: decrease_model(g.snake, n as nat), ..g },
            Seq::empty(),
        ),
        Command::SetLength(n) => (
            GridModel { snake: set_length_model(g.snake, n as nat), ..g },
            Seq::empty(),
        ),
        Command::SetDirection(d) => (
            GridModel { snake: SnakeModel { direction: d, ..g.snake }, ..g },
            Seq::empty(),
        ),
        Command::Print(c) => (g, seq![c]),
        Command::PrintLen => (g, decimal_of(g.snake.tails.len())),
        Command::WriteVariable(c) => (
            GridModel { variables: g.variables.insert(c, g.snake.tails.len()), ..g },
            Seq::empty(),
        ),
        Command::ReadVariable(c) => (
            GridModel {
                snake: set_length_model(
                    g.snake,
                    if g.variables.contains_key(c) {
                        g.variables[c]
                    } else {
                        0
                    },
                ),
                ..g
            },
            seq![c, '\n'],
        ),
        Command::NumberInput => (g, Seq::empty()),
    }
}

/// The run is over: the agent sits on an absent cell, died at a boundary, or
/// its head shares a cell with one of its own body segments.
pub open spec fn dead_model(g: GridModel) -> bool {
    ||| cell_at(g.slots, g.snake.position.0, g.snake.position.1) is None
    ||| !g.snake.alive
    ||| exists|i: int| 0 <= i < g.snake.tails.len() && g.snake.tails[i] == g.snake.position
}

/// What one simulation step reports back: the characters to emit, and
/// whether the step stopped at an interactive number input.
pub struct StepReport {
    /// Characters to write to the output stream, in order.
    pub output: Vec<char>,
    /// The command was an interactive number input: collect a number and
    /// hand it to [`Grid::supply_number`].
    pub awaiting_input: bool,
}

/// The engine: the 2D character storage (immutable after load), the agent,
/// and the named-variable store.
pub struct Grid {
    slots: Vec<Vec<char>>,
    snake: Snake,
    variables: VarStore,
}

impl View for Grid {
    type V = GridModel;

    closed spec fn view(&self) -> GridModel {
        GridModel {
            slots: rows_model(self.slots@),
            snake: self.snake@,
            variables: vars_model(self.variables@),
        }
    }
}

// ---------------------------------------------------------------------------
// Splitting the program text into rows
// ---------------------------------------------------------------------------

/// Where `[from, upto)` holds no line break, the first line break at or after
/// `from` is at `upto` — the line break there, or the end of the text.
proof fn lemma_first_newline(text: Seq<char>, from: int, upto: int)
    requires
        0 <= from <= upto <= text.len(),
        upto == text.len() || text[upto] == '\n',
        forall|j: int| from <= j < upto ==> text[j] != '\n',
    ensures
        first_newline_from(text, from) == upto,
    decreases upto - from,
{
    if from < upto {
        lemma_first_newline(text, from + 1, upto);
    }
}

/// Split the program text into rows on line breaks.
fn split_rows(script: &str) -> (rows: Vec<Vec<char>>)
    ensures
        rows_model(rows@) == lines_of(script@),
{
    let ghost text = script@;
    let n = script.unicode_len();
    let mut rows: Vec<Vec<char>> = Vec::new();
    let mut row: Vec<char> = Vec::new();
    let ghost mut ls: int = 0;
    let mut i: usize = 0;
    while i < n
        invariant
            i <= n,
            n == text.len(),
            text == script@,
            0 <= ls <= i,
            forall|j: int| ls <= j < i ==> text[j] != '\n',
            row@ == text.subrange(ls, i as int),
            lines_of(text) == rows_model(rows@) + lines_from(text, ls),
        decreases n - i,
    {
        let c = script.get_char(i);
        if c == '\n' {
            proof {
                lemma_first_newline(text, ls, i as int);
                assert(lines_from(text, ls) == seq![text.subrange(ls, i as int)] + lines_from(
                    text,
                    i as int + 1,
                ));
                assert(rows_model(rows@.push(row)) =~= rows_model(rows@) + seq![row@]);
                assert(rows_model(rows@.push(row)) + lines_from(text, i as int + 1)
                    =~= lines_of(text));
            }
            rows.push(row);
            row = Vec::new();
            proof {
                ls = i as int + 1;
                assert(row@ =~= text.subrange(ls, i as int + 1));
            }
        } else {
            row.push(c);
            proof {
                assert(row@ =~= text.subrange(ls, i as int + 1));
            }
        }
        i += 1;
    }
    proof {
        lemma_first_newline(text, ls, n as int);
        assert(rows_model(rows@.push(row)) =~= rows_model(rows@) + seq![row@]);
        assert(rows_model(rows@.push(row)) =~= lines_of(text));
    }
    rows.push(row);
    rows
}

// ---------------------------------------------------------------------------
// Locating the start marker
// ---------------------------------------------------------------------------

/// `(x1, y1)` comes before `(x2, y2)` in the left-to-right, top-to-bottom
/// scan.
pub open spec fn scans_before(x1: int, y1: int, x2: int, y2: int) -> bool {
    y1 < y2 || (y1 == y2 && x1 < x2)
}

/// Find the unique start marker `$`, scanning left to right, top to bottom.
fn find_marker(rows: &Vec<Vec<char>>) -> (r: Result<(usize, usize), LangError>)
    ensures
        ({
            let m = rows_model(rows@);
            &&& (r == Err::<(usize, usize), LangError>(LangError::NoStartPosition) <==> !has_marker(
                m,
            ))
            &&& (r == Err::<(usize, usize), LangError>(LangError::MultipleStartPositions) <==> (
            has_marker(m) && !unique_marker(m)))
            &&& r matches Ok(p) ==> unique_marker(m) && is_marker(m, p.0 as int, p.1 as int)
            &&& r matches Err(e) ==> (e == LangError::NoStartPosition || e
                == LangError::MultipleStartPositions)
        }),
{
    let ghost m = rows_model(rows@);
    let mut found: Option<(usize, usize)> = None;
    let ny = rows.len();
    let mut y: usize = 0;
    while y < ny
        invariant
            y <= ny,
            ny == rows@.len(),
            m == rows_model(rows@),
            found is None ==> forall|xx: int, yy: int|
                yy < y && #[trigger] is_marker(m, xx, yy) ==> false,
            found matches Some(p) ==> {
                &&& is_marker(m, p.0 as int, p.1 as int)
                &&& p.1 < y
                &&& forall|xx: int, yy: int|
                    yy < y && #[trigger] is_marker(m, xx, yy) ==> xx == p.0 && yy == p.1
            },
        decreases ny - y,
    {
        let nx = rows[y].len();
        let mut x: usize = 0;
        while x < nx
            invariant
                x <= nx,
                y < ny,
                ny == rows@.len(),
                nx == rows@[y as int]@.len(),
                m == rows_model(rows@),
                found is None ==> forall|xx: int, yy: int|
                    (yy < y || (yy == y && xx < x)) && #[trigger] is_marker(m, xx, yy) ==> false,
                found matches Some(p) ==> {
                    &&& is_marker(m, p.0 as int, p.1 as int)
                    &&& scans_before(p.0 as int, p.1 as int, x as int, y as int)
                    &&& forall|xx: int, yy: int|
                        (yy < y || (yy == y && xx < x)) && #[trigger] is_marker(m, xx, yy) ==> xx
                            == p.0 && yy == p.1
                },
            decreases nx - x,
        {
            if rows[y][x] == '$' {
                if found.is_some() {
                    proof {
                        let p = found->Some_0;
                        assert(is_marker(m, p.0 as int, p.1 as int));
                        assert(is_marker(m, x as int, y as int));
                        assert(!unique_marker(m));
                    }
                    return Err(LangError::MultipleStartPositions);
                }
                found = Some((x, y));
            }
            x += 1;
        }
        y += 1;
    }
    match found {
        Some(p) => {
            proof {
                assert(forall|xx: int, yy: int|
                    #[trigger] is_marker(m, xx, yy) ==> yy < ny && xx == p.0 && yy == p.1);
            }
            Ok(p)
        },
        None => {
            proof {
                assert(forall|xx: int, yy: int| #[trigger] is_marker(m, xx, yy) ==> yy < ny);
                assert(!has_marker(m));
            }
            Err(LangError::NoStartPosition)
        },
    }
}

// ---------------------------------------------------------------------------
// The engine
// ---------------------------------------------------------------------------

impl Grid {
    /// The cell at `(x, y)`, or `None` out of range.
    pub fn get(&self, x: usize, y: usize) -> (r: Option<char>)
        ensures
            r == cell_at(self@.slots, x as int, y as int),
    {
        if y < self.slots.len() {
            let row = &self.slots[y];
            if x < row.len() {
                return Some(row[x]);
            }
        }
        None
    }

    /// Build the grid from the raw program text. The text must hold exactly
    /// one start marker `$`, and the cell to the marker's right must be a
    /// direction character; anything else is a fatal load error. The marker
    /// cell itself stays in the grid as the literal character `$`.
    pub fn load(script: &str) -> (r: Result<Grid, LangError>)
        ensures
            r matches Ok(g) ==> load_result(script@) == Ok::<GridModel, LangError>(g@),
            r matches Err(e) ==> load_result(script@) == Err::<GridModel, LangError>(e),
    {
        let ghost rows = lines_of(script@);
        let slots = split_rows(script);
        let (mx, my) = match find_marker(&slots) {
            Ok(p) => p,
            Err(e) => {
                return Err(e);
            },
        };
        proof {
            let (cx, cy) = choose|x: int, y: int| is_marker(rows, x, y);
            assert(is_marker(rows, cx, cy));
            assert(cx == mx as int && cy == my as int);
        }
        let mut grid = Grid { slots, snake: Snake::new(mx, my), variables: VarStore::new() };
        // The marker lies inside row `my`, so the cell to its right is
        // addressable without overflowing the column index.
        let row_len = grid.slots[my].len();
        proof {
            assert(mx < row_len);
        }
        let d = match grid.argument_direction(mx + 1, my) {
            Ok(d) => d,
            Err(e) => {
                return Err(e);
            },
        };
        grid.snake.set_direction(d);
        proof {
            assert(grid@.variables =~= Map::<char, nat>::empty());
            assert(grid@.snake.tails =~= Seq::<(int, int)>::empty());
            assert(grid@ =~= load_result(script@)->Ok_0);
        }
        Ok(grid)
    }

    /// The run is over: the agent sits on an absent cell, died at a
    /// boundary, or its head shares a cell with a body segment.
    pub fn check_snake_dead(&self) -> (r: bool)
        ensures
            r == dead_model(self@),
    {
        let (x, y) = self.snake.position;
        match self.get(x, y) {
            None => {
                return true;
            },
            Some(_) => {},
        }
        if !self.snake.alive {
            return true;
        }
        let n = self.snake.tails.len();
        let mut i: usize = 0;
        while i < n
            invariant
                i <= n,
                n == self.snake.tails@.len(),
                (x, y) == self.snake.position,
                forall|j: int|
                    0 <= j < i ==> #[trigger] self@.snake.tails[j] != self@.snake.position,
            decreases n - i,
        {
            let t = self.snake.tails[i];
            if t.0 == x && t.1 == y {
                proof {
                    assert(self@.snake.tails[i as int] == self@.snake.position);
                }
                return true;
            }
            i += 1;
        }
        false
    }

    /// One simulation step: move the agent, decode the command at its new
    /// position, and apply it. A fatal decode error leaves the agent moved
    /// and the command unapplied. An interactive number input is reported
    /// back instead of being applied: collect the number and hand it to
    /// [`Grid::supply_number`].
    pub fn update_snake(&mut self) -> (r: Result<StepReport, LangError>)
        requires
            old(self)@.snake.direction is Right ==> old(self)@.snake.position.0 < usize::MAX,
            old(self)@.snake.direction is Down ==> old(self)@.snake.position.1 < usize::MAX,
        ensures
            ({
                let g1 = shifted(old(self)@);
                match step_decode(g1) {
                    Ok(cmd) => {
                        &&& r matches Ok(rep)
                        &&& rep.awaiting_input == (cmd is NumberInput)
                        &&& (cmd is NumberInput ==> final(self)@ == g1 && rep.output@
                            == Seq::<char>::empty())
                        &&& (!(cmd is NumberInput) ==> final(self)@ == command_effect(g1, cmd).0
                            && rep.output@ == command_effect(g1, cmd).1)
                    },
                    Err(e) => r == Err::<StepReport, LangError>(e) && final(self)@ == g1,
                }
            }),
    {
        self.snake.shift();
        proof {
            assert(self@ =~= shifted(old(self)@));
        }
        let ghost g1 = self@;
        let (x, y) = self.snake.position;
        let cmd = match self.get_command(x, y) {
            Ok(c) => c,
            Err(e) => {
                return Err(e);
            },
        };
        match cmd {
            Command::Nop => Ok(StepReport { output: Vec::new(), awaiting_input: false }),
            Command::IncreaseLength(n) => {
                self.snake.increase_length(n);
                proof {
                    assert(self@ =~= command_effect(g1, cmd).0);
                }
                Ok(StepReport { output: Vec::new(), awaiting_input: false })
            },
            Command::DecreaseLength(n) => {
                self.snake.decrease_length(n);
                proof {
                    assert(self@ =~= command_effect(g1, cmd).0);
                }
                Ok(StepReport { output: Vec::new(), awaiting_input: false })
            },
            Command::SetLength(n) => {
                self.snake.set_length(n);
                proof {
                    assert(self@ =~= command_effect(g1, cmd).0);
                }
                Ok(StepReport { output: Vec::new(), awaiting_input: false })
            },
            Command::SetDirection(d) => {
                self.snake.set_direction(d);
                proof {
                    assert(self@.snake =~= command_effect(g1, cmd).0.snake);
                    assert(self@ =~= command_effect(g1, cmd).0);
                }
                Ok(StepReport { output: Vec::new(), awaiting_input: false })
            },
            Command::Print(c) => {
                let mut output: Vec<char> = Vec::new();
                output.push(c);
                proof {
                    assert(output@ =~= seq![c]);
                }
                Ok(StepReport { output, awaiting_input: false })
            },
            Command::PrintLen => {
                let output = crate::digits::decimal_digits(self.snake.tails.len());
                Ok(StepReport { output, awaiting_input: false })
            },
            Command::WriteVariable(c) => {
                let len = self.snake.tails.len();
                self.variables.set(c, len);
                proof {
                    assert(vars_model(old(self).variables@.insert(c, len)) =~= vars_model(
                        old(self).variables@,
                    ).insert(c, len as nat));
                    assert(self@ =~= command_effect(g1, cmd).0);
                }
                Ok(StepReport { output: Vec::new(), awaiting_input: false })
            },
            Command::ReadVariable(c) => {
                let stored = match self.variables.get(c) {
                    Some(v) => v,
                    None => 0,
                };
                self.snake.set_length(stored);
                let mut output: Vec<char> = Vec::new();
                output.push(c);
                output.push('\n');
                proof {
                    assert(output@ =~= seq![c, '\n']);
                    assert(self@ =~= command_effect(g1, cmd).0);
                }
                Ok(StepReport { output, awaiting_input: false })
            },
            Command::NumberInput => {
                Ok(StepReport { output: Vec::new(), awaiting_input: true })
            },
        }
    }

    /// Complete an interactive number input: set the body length to the
    /// collected number, exactly as a direct length-setting command would.
    pub fn supply_number(&mut self, amount: usize)
        requires
            old(self)@.snake.needs_add + amount <= usize::MAX,
        ensures
            final(self)@ == (GridModel {
                snake: set_length_model(old(self)@.snake, amount as nat),
                ..old(self)@
            }),
    {
        self.snake.set_length(amount);
        proof {
            assert(self@ =~= (GridModel {
                snake: set_length_model(old(self)@.snake, amount as nat),
                ..old(self)@
            }));
        }
    }

    /// The agent's head coordinate.
    pub fn position(&self) -> (p: (usize, usize))
        ensures
            pos_model(p) == self@.snake.position,
    {
        self.snake.position
    }

    /// The agent's facing direction.
    pub fn direction(&self) -> (d: Direction)
        ensures
            d == self@.snake.direction,
    {
        self.snake.direction
    }

    /// The body's segment count: the "length" the language exposes.
    pub fn body_length(&self) -> (n: usize)
        ensures
            n as nat == self@.snake.tails.len(),
    {
        self.snake.tails.len()
    }

    /// Growth requested while the body was empty, not yet materialized.
    pub fn pending_growth(&self) -> (n: usize)
        ensures
            n as nat == self@.snake.needs_add,
    {
        self.snake.needs_add
    }

    /// Whether the agent survived every movement so far.
    pub fn is_alive(&self) -> (b: bool)
        ensures
            b == self@.snake.alive,
    {
        self.snake.alive
    }

    /// Read a number argument: digits from `(x, y)` rightward, parsed in
    /// base 10.
    fn argument_number(&self, x: usize, y: usize) -> (r: Result<usize, LangError>)
        ensures
            r == number_result(self@.slots, x as int, y as int),
    {
        let c0 = match self.get(x, y) {
            Some(c) => c,
            None => {
                return Err(LangError::MissingNumber);
            },
        };
        let u0 = c0 as u32;
        if !(48 <= u0 && u0 <= 57) {
            return Err(LangError::InvalidNumber(c0));
        }
        let ghost run = digit_run(self@.slots, x as int, y as int);
        let row_len = self.slots[y].len();
        let mut acc: usize = (u0 - 48) as usize;
        let mut i: usize = x + 1;
        let mut k: usize = 1;
        proof {
            assert(run == seq![c0] + digit_run(self@.slots, x as int + 1, y as int));
            assert(run.take(1).drop_last() =~= Seq::<char>::empty());
            assert(run.take(1) =~= seq![c0]);
            assert(number_of_digits(Seq::<char>::empty()) == 0);
            assert(number_of_digits(run.take(1)) == digit_val(c0));
            assert(digit_val(c0) == (u0 - 48) as nat);
        }
        loop
            invariant
                y < self@.slots.len(),
                row_len == self@.slots[y as int].len(),
                x < row_len,
                run == digit_run(self@.slots, x as int, y as int),
                1 <= k <= run.len(),
                i == x + k,
                i <= row_len,
                acc == number_of_digits(run.take(k as int)),
                run == run.take(k as int) + digit_run(self@.slots, i as int, y as int),
            ensures
                1 <= k <= run.len(),
                acc == number_of_digits(run.take(k as int)),
                run == run.take(k as int) + digit_run(self@.slots, (x + k) as int, y as int),
                digit_run(self@.slots, (x + k) as int, y as int) == Seq::<char>::empty(),
            decreases row_len - i,
        {
            let c = match self.get(i, y) {
                Some(c) => c,
                None => {
                    break ;
                },
            };
            let u = c as u32;
            if !(48 <= u && u <= 57) {
                break ;
            }
            proof {
                assert(digit_run(self@.slots, i as int, y as int) == seq![c] + digit_run(
                    self@.slots,
                    i as int + 1,
                    y as int,
                ));
                assert(run[k as int] == c);
                assert(run.take(k as int + 1) =~= run.take(k as int) + seq![c]);
                assert(run.take(k as int + 1).drop_last() =~= run.take(k as int));
                assert(run =~= run.take(k as int + 1) + digit_run(
                    self@.slots,
                    i as int + 1,
                    y as int,
                ));
            }
            let d = (u - 48) as usize;
            let step = match acc.checked_mul(10) {
                Some(t) => t.checked_add(d),
                None => None,
            };
            acc = match step {
                Some(v) => v,
                None => {
                    proof {
                        assert(number_of_digits(run.take(k as int + 1)) > usize::MAX);
                        lemma_number_of_digits_monotone(run, k as int + 1);
                    }
                    return Err(LangError::NumberOverflow);
                },
            };
            i += 1;
            k += 1;
        }
        proof {
            assert(run =~= run.take(k as int));
        }
        Ok(acc)
    }

    /// Read a character argument. With escapes allowed, resolve `\n`, `\t`
    /// and `\\`; any other escape yields the backslash itself.
    fn argument_character(&self, x: usize, y: usize, allow_escape: bool) -> (r: Result<
        char,
        LangError,
    >)
        ensures
            r == char_result(self@.slots, x as int, y as int, allow_escape),
    {
        let c = match self.get(x, y) {
            Some(c) => c,
            None => {
                return Err(LangError::MissingCharacter);
            },
        };
        if c == '\\' && allow_escape {
            // The backslash lies inside its row, so the column to its right
            // is addressable without overflow.
            let _row_len = self.slots[y].len();
            match self.get(x + 1, y) {
                Some(e) => {
                    if e == 'n' {
                        Ok('\n')
                    } else if e == 't' {
                        Ok('\t')
                    } else if e == '\\' {
                        Ok('\\')
                    } else {
                        Ok('\\')
                    }
                },
                None => Ok('\\'),
            }
        } else {
            Ok(c)
        }
    }

    /// Decode the cell at `(x, y)` into a command, reading any arguments from
    /// the cells to its right.
    pub fn get_command(&self, x: usize, y: usize) -> (r: Result<Command, LangError>)
        ensures
            r == decode_at(self@.slots, self@.variables, x as int, y as int),
        decreases (if 0 <= (y as int) < self@.slots.len() && 0 <= (x as int)
            < self@.slots[y as int].len() {
            self@.slots[y as int].len() - x as int
        } else {
            0
        }),
    {
        let ch = match self.get(x, y) {
            Some(c) => c,
            None => {
                return Ok(Command::Nop);
            },
        };
        // The instruction lies inside its row, so the argument columns to
        // its right are addressable without overflow.
        let _row_len = self.slots[y].len();
        if ch == '+' {
            match self.argument_number(x + 1, y) {
                Ok(n) => Ok(Command::IncreaseLength(n)),
                Err(e) => Err(e),
            }
        } else if ch == '-' {
            match self.argument_number(x + 1, y) {
                Ok(n) => Ok(Command::DecreaseLength(n)),
                Err(e) => Err(e),
            }
        } else if ch == '=' {
            match self.argument_number(x + 1, y) {
                Ok(n) => Ok(Command::SetLength(n)),
                Err(e) => Err(e),
            }
        } else if ch == '^' {
            Ok(Command::SetDirection(Direction::Up))
        } else if ch == '>' {
            Ok(Command::SetDirection(Direction::Right))
        } else if ch == 'v' {
            Ok(Command::SetDirection(Direction::Down))
        } else if ch == '<' {
            Ok(Command::SetDirection(Direction::Left))
        } else if ch == '#' {
            match self.argument_character(x + 1, y, true) {
                Ok(c) => Ok(Command::Print(c)),
                Err(e) => Err(e),
            }
        } else if ch == '*' {
            Ok(Command::PrintLen)
        } else if ch == '@' {
            match self.argument_character(x + 1, y, false) {
                Ok(c) => Ok(Command::WriteVariable(c)),
                Err(e) => Err(e),
            }
        } else if ch == '%' {
            match self.argument_character(x + 1, y, false) {
                Ok(c) => Ok(Command::ReadVariable(c)),
                Err(e) => Err(e),
            }
        } else if ch == '?' {
            let name = match self.argument_character(x + 1, y, false) {
                Ok(c) => c,
                Err(e) => {
                    return Err(e);
                },
            };
            let hot = match self.variables.get(name) {
                Some(v) => v >= 1,
                None => false,
            };
            if hot {
                match x.checked_add(2) {
                    Some(x2) => self.get_command(x2, y),
                    None => Ok(Command::Nop),
                }
            } else {
                Ok(Command::Nop)
            }
        } else if ch == '&' {
            Ok(Command::NumberInput)
        } else {
            Ok(Command::Nop)
        }
    }

    /// Read the cell at `(x, y)` as a direction argument.
    fn argument_direction(&self, x: usize, y: usize) -> (r: Result<Direction, LangError>)
        ensures
            r == direction_result(self@.slots, x as int, y as int),
    {
        match self.get(x, y) {
            Some(c) => {
                if c == '^' {
                    Ok(Direction::Up)
                } else if c == '>' {
                    Ok(Direction::Right)
                } else if c == 'v' {
                    Ok(Direction::Down)
                } else if c == '<' {
                    Ok(Direction::Left)
                } else {
                    Err(LangError::InvalidDirection(c))
                }
            },
            None => Err(LangError::MissingDirection),
        }
    }
}

} // verus!
