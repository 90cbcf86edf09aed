use vstd::prelude::*;

verus! {

/// A dead cell.
pub const CELL_DEAD: u8 = 0;

/// A live cell.
pub const CELL_ALIVE: u8 = 1;

/// The largest value that a numeral of the encoding may have (a width, a
/// height or a run count); a longer numeral is rejected.
pub const MAX_NUMBER: usize = 2147483647;

/// Where the decoder stands in the encoded text.
#[derive(PartialEq, Eq, Structural, Clone, Copy, Debug)]
pub enum ParserState {
    Begin,
    Comment,
    Width,
    Height,
    Rule,
    RunTag,
}

/// Why an encoded pattern was rejected. Decoding is all or nothing.
#[derive(PartialEq, Eq, Structural, Clone, Copy, Debug)]
pub enum DecodeError {
    /// `c` is not allowed in `state`.
    UnexpectedChar { state: ParserState, c: char },
    /// The width or height field was closed before any digit.
    EmptyField { state: ParserState },
    /// A numeral grew past `MAX_NUMBER`.
    NumberTooLarge { state: ParserState },
    /// A run tag `c` came while the row cursor was below the last row.
    RunOutsideGrid { c: char },
    /// The text ended before the height of the pattern was given.
    MissingDimensions,
}

/// The decoder's state as a mathematical value.
pub ghost struct DecodeModel {
    pub state: ParserState,
    pub width: nat,
    pub width_seen: bool,
    pub height: nat,
    pub height_seen: bool,
    pub run: nat,
    pub run_seen: bool,
    pub row: nat,
    pub col: nat,
    pub cells: Seq<Seq<u8>>,
}

/// A decoded pattern: `rows` rows of `columns` cells each.
pub ghost struct Pattern {
    pub rows: nat,
    pub columns: nat,
    pub cells: Seq<Seq<u8>>,
}

/// The characters of Unicode's White_Space property.
pub open spec fn is_space(c: char) -> bool {
    let u = c as u32;
    (9 <= u <= 13) || u == 32 || u == 0x85 || u == 0xA0 || u == 0x1680 || (0x2000 <= u <= 0x200A)
        || u == 0x2028 || u == 0x2029 || u == 0x202F || u == 0x205F || u == 0x3000
}

/// Whitespace other than a newline is skipped in every state.
pub open spec fn is_skipped(c: char) -> bool {
    is_space(c) && c != '\n'
}

pub open spec fn is_digit(c: char) -> bool {
    '0' as u32 <= c as u32 <= '9' as u32
}

pub open spec fn push_digit(acc: nat, c: char) -> nat {
    acc * 10 + (c as u32 - '0' as u32) as nat
}

/// `rows` rows of `columns` dead cells.
pub open spec fn dead_rows(rows: nat, columns: nat) -> Seq<Seq<u8>> {
    Seq::new(rows, |i: int| Seq::new(columns, |j: int| CELL_DEAD))
}

/// `line` with the cells at `from..to` set to `v`.
pub open spec fn fill_line(line: Seq<u8>, from: int, to: int, v: u8) -> Seq<u8> {
    Seq::new(line.len(), |j: int| if from <= j < to { v } else { line[j] })
}

pub open spec fn min_nat(a: nat, b: nat) -> nat {
    if a <= b { a } else { b }
}

/// The state before the first character.
pub open spec fn initial_model() -> DecodeModel {
    DecodeModel {
        state: ParserState::Begin,
        width: 0,
        width_seen: false,
        height: 0,
        height_seen: false,
        run: 0,
        run_seen: false,
        row: 0,
        col: 0,
        cells: Seq::empty(),
    }
}

/// The count that a run tag applies: the accumulated numeral, or 1 if none.
pub open spec fn run_length(m: DecodeModel) -> nat {
    if m.run_seen { m.run } else { 1 }
}

pub open spec fn step_begin(m: DecodeModel, c: char) -> Result<DecodeModel, DecodeError> {
    if c == '#' {
        Ok(DecodeModel { state: ParserState::Comment, ..m })
    } else if c == 'x' {
        Ok(DecodeModel { state: ParserState::Width, ..initial_model() })
    } else {
        Err(DecodeError::UnexpectedChar { state: ParserState::Begin, c })
    }
}

pub open spec fn step_comment(m: DecodeModel, c: char) -> Result<DecodeModel, DecodeError> {
    if c == '\n' {
        Ok(DecodeModel { state: ParserState::Begin, ..m })
    } else {
        Ok(m)
    }
}

pub open spec fn step_width(m: DecodeModel, c: char) -> Result<DecodeModel, DecodeError> {
    if c == ',' {
        if m.width_seen {
            Ok(DecodeModel { state: ParserState::Height, ..m })
        } else {
            Err(DecodeError::EmptyField { state: ParserState::Width })
        }
    } else if c == '=' {
        Ok(m)
    } else if is_digit(c) {
        let w = push_digit(m.width, c);
        if w > MAX_NUMBER {
            Err(DecodeError::NumberTooLarge { state: ParserState::Width })
        } else {
            Ok(DecodeModel { width: w, width_seen: true, ..m })
        }
    } else {
        Err(DecodeError::UnexpectedChar { state: ParserState::Width, c })
    }
}

pub open spec fn step_height(m: DecodeModel, c: char) -> Result<DecodeModel, DecodeError> {
    if c == '\n' || c == ',' {
        if m.height_seen {
            Ok(
                DecodeModel {
                    state: if c == '\n' { ParserState::Begin } else { ParserState::Rule },
                    ..m
                },
            )
        } else {
            Err(DecodeError::EmptyField { state: ParserState::Height })
        }
    } else if c == '=' || c == 'y' {
        Ok(m)
    } else if is_digit(c) {
        let h = push_digit(m.height, c);
        if h > MAX_NUMBER {
            Err(DecodeError::NumberTooLarge { state: ParserState::Height })
        } else {
            Ok(DecodeModel { height: h, height_seen: true, cells: dead_rows(h, m.width), ..m })
        }
    } else {
        Err(DecodeError::UnexpectedChar { state: ParserState::Height, c })
    }
}

pub open spec fn step_rule(m: DecodeModel, c: char) -> Result<DecodeModel, DecodeError> {
    if c == '\n' {
        Ok(
            DecodeModel {
                state: ParserState::RunTag,
                run: 0,
                run_seen: false,
                row: 0,
                col: 0,
                ..m
            },
        )
    } else {
        Ok(m)
    }
}

/// A run of `b` (dead) or `o` (alive) cells from the cursor, clamped to the
/// row: cells past the last column are dropped.
pub open spec fn step_run(m: DecodeModel, c: char) -> Result<DecodeModel, DecodeError> {
    if m.row >= m.height {
        Err(DecodeError::RunOutsideGrid { c })
    } else {
        let v = if c == 'o' { CELL_ALIVE } else { CELL_DEAD };
        let end = min_nat(m.col + run_length(m), m.width);
        Ok(
            DecodeModel {
                cells: m.cells.update(m.row as int, fill_line(m.cells[m.row as int], m.col as int, end as int, v)),
                col: end,
                run: 0,
                run_seen: false,
                ..m
            },
        )
    }
}

/// The end of a row: the rest of the row is cleared, the cursor moves down by
/// the run length (never past the last row plus one) and back to column 0.
pub open spec fn step_row_end(m: DecodeModel) -> DecodeModel {
    DecodeModel {
        cells: if m.row < m.height {
            m.cells.update(m.row as int, fill_line(m.cells[m.row as int], m.col as int, m.width as int, CELL_DEAD))
        } else {
            m.cells
        },
        row: min_nat(m.row + run_length(m), m.height),
        col: 0,
        run: 0,
        run_seen: false,
        ..m
    }
}

pub open spec fn step_body(m: DecodeModel, c: char) -> Result<DecodeModel, DecodeError> {
    if is_digit(c) {
        let n = push_digit(m.run, c);
        if n > MAX_NUMBER {
            Err(DecodeError::NumberTooLarge { state: ParserState::RunTag })
        } else {
            Ok(DecodeModel { run: n, run_seen: true, ..m })
        }
    } else if c == 'b' || c == 'o' {
        step_run(m, c)
    } else if c == '$' {
        Ok(step_row_end(m))
    } else if c == '!' || c == '\n' {
        Ok(m)
    } else {
        Err(DecodeError::UnexpectedChar { state: ParserState::RunTag, c })
    }
}

/// One character of input.
pub open spec fn step(m: DecodeModel, c: char) -> Result<DecodeModel, DecodeError> {
    if is_skipped(c) {
        Ok(m)
    } else {
        match m.state {
            ParserState::Begin => step_begin(m, c),
            ParserState::Comment => step_comment(m, c),
            ParserState::Width => step_width(m, c),
            ParserState::Height => step_height(m, c),
            ParserState::Rule => step_rule(m, c),
            ParserState::RunTag => step_body(m, c),
        }
    }
}

/// The state after reading all of `s`, or the first error.
pub open spec fn decode_prefix(s: Seq<char>) -> Result<DecodeModel, DecodeError>
    decreases s.len(),
{
    if s.len() == 0 {
        Ok(initial_model())
    } else {
        match decode_prefix(s.drop_last()) {
            Ok(m) => step(m, s.last()),
            Err(e) => Err(e),
        }
    }
}

/// What decoding the text `s` gives.
pub open spec fn decode(s: Seq<char>) -> Result<Pattern, DecodeError> {
    match decode_prefix(s) {
        Ok(m) => if m.height_seen {
            Ok(Pattern { rows: m.height, columns: m.width, cells: m.cells })
        } else {
            Err(DecodeError::MissingDimensions)
        },
        Err(e) => Err(e),
    }
}

/// `cells` has `rows` rows of `columns` cells, each dead or alive.
pub open spec fn well_shaped(cells: Seq<Seq<u8>>, rows: nat, columns: nat) -> bool {
    &&& cells.len() == rows
    &&& forall|i: int| 0 <= i < rows ==> #[trigger] cells[i].len() == columns
    &&& forall|i: int, j: int| 0 <= i < rows && 0 <= j < columns ==> #[trigger] cells[i][j] <= CELL_ALIVE
}

/// What holds of every state that the decoder reaches.
pub open spec fn model_inv(m: DecodeModel) -> bool {
    &&& well_shaped(m.cells, m.height, m.width)
    &&& m.width <= MAX_NUMBER
    &&& m.height <= MAX_NUMBER
    &&& m.run <= MAX_NUMBER
    &&& m.row <= m.height
    &&& m.col <= m.width
    &&& !m.height_seen ==> m.height == 0
    &&& m.state == ParserState::Width ==> !m.height_seen
    &&& (m.state == ParserState::Rule || m.state == ParserState::RunTag) ==> m.height_seen
}

pub proof fn lemma_step_inv(m: DecodeModel, c: char)
    requires
        model_inv(m),
    ensures
        step(m, c) matches Ok(m2) ==> model_inv(m2),
{
    if let Ok(m2) = step(m, c) {
        if !is_skipped(c) && m.state == ParserState::RunTag && (c == 'b' || c == 'o') {
            let v = if c == 'o' { CELL_ALIVE } else { CELL_DEAD };
            let end = min_nat(m.col + run_length(m), m.width);
            let line = fill_line(m.cells[m.row as int], m.col as int, end as int, v);
            assert(line.len() == m.width);
            assert forall|i: int, j: int| 0 <= i < m.height && 0 <= j < m.width implies #[trigger] m2.cells[i][j] <= CELL_ALIVE by {
                if i == m.row {
                    assert(m2.cells[i] == line);
                }
            }
        } else if !is_skipped(c) && m.state == ParserState::RunTag && c == '$' && m.row < m.height {
            let line = fill_line(m.cells[m.row as int], m.col as int, m.width as int, CELL_DEAD);
            assert forall|i: int, j: int| 0 <= i < m.height && 0 <= j < m.width implies #[trigger] m2.cells[i][j] <= CELL_ALIVE by {
                if i == m.row {
                    assert(m2.cells[i] == line);
                }
            }
        }
    }
}

pub proof fn lemma_prefix_inv(s: Seq<char>)
    ensures
        decode_prefix(s) matches Ok(m) ==> model_inv(m),
    decreases s.len(),
{
    if s.len() > 0 {
        lemma_prefix_inv(s.drop_last());
        if let Ok(m) = decode_prefix(s.drop_last()) {
            lemma_step_inv(m, s.last());
        }
    }
}

/// Once a prefix of the text fails, the whole text fails with the same error.
pub proof fn lemma_error_persists(s: Seq<char>, i: int)
    requires
        0 <= i <= s.len(),
        decode_prefix(s.take(i)) is Err,
    ensures
        decode_prefix(s) == decode_prefix(s.take(i)),
    decreases s.len() - i,
{
    if i < s.len() {
        assert(s.take(i + 1).drop_last() =~= s.take(i));
        lemma_error_persists(s, i + 1);
    } else {
        assert(s.take(i) =~= s);
    }
}


/// The number of live cells in a row.
pub open spec fn line_population(l: Seq<u8>) -> int
    decreases l.len(),
{
    if l.len() == 0 {
        0
    } else {
        line_population(l.drop_last()) + l.last() as int
    }
}

/// The number of live cells in a grid.
pub open spec fn population(g: Seq<Seq<u8>>) -> int
    decreases g.len(),
{
    if g.len() == 0 {
        0
    } else {
        population(g.drop_last()) + line_population(g.last())
    }
}

proof fn lemma_line_population_bounded(l: Seq<u8>)
    requires
        forall|j: int| 0 <= j < l.len() ==> #[trigger] l[j] <= CELL_ALIVE,
    ensures
        0 <= line_population(l) <= l.len(),
    decreases l.len(),
{
    if l.len() > 0 {
        lemma_line_population_bounded(l.drop_last());
    }
}

/// A well-shaped grid holds at most `rows * columns` live cells.
pub proof fn lemma_population_bounded(g: Seq<Seq<u8>>, rows: nat, columns: nat)
    requires
        well_shaped(g, rows, columns),
    ensures
        0 <= population(g) <= rows * columns,
    decreases rows,
{
    if rows > 0 {
        let last = g.last();
        assert(last.len() == columns);
        assert forall|j: int| 0 <= j < last.len() implies #[trigger] last[j] <= CELL_ALIVE by {
            assert(g[rows - 1][j] <= CELL_ALIVE);
        }
        lemma_line_population_bounded(last);
        let rest = g.drop_last();
        assert forall|i: int, j: int| 0 <= i < rows - 1 && 0 <= j < columns implies #[trigger] rest[i][j] <= CELL_ALIVE by {
            assert(g[i][j] <= CELL_ALIVE);
        }
        assert forall|i: int| 0 <= i < rows - 1 implies #[trigger] rest[i].len() == columns by {
            assert(g[i].len() == columns);
        }
        lemma_population_bounded(rest, (rows - 1) as nat, columns);
        assert((rows - 1) * columns + columns == rows * columns) by (nonlinear_arith)
            requires
                rows > 0,
        ;
    }
}

/// Every decoded pattern has exactly `rows` rows of exactly `columns` cells,
/// each dead or alive, and so at most `rows * columns` live cells.
pub proof fn lemma_decoded_shape(s: Seq<char>)
    ensures
        decode(s) matches Ok(p) ==> well_shaped(p.cells, p.rows, p.columns) && 0 <= population(p.cells) <= p.rows * p.columns,
{
    lemma_prefix_inv(s);
    if let Ok(p) = decode(s) {
        lemma_population_bounded(p.cells, p.rows, p.columns);
    }
}

/// Decoding depends on the text alone: the same text always gives the same
/// grid, or the same error.
pub proof fn lemma_decode_deterministic(a: Seq<char>, b: Seq<char>)
    requires
        a == b,
    ensures
        decode(a) == decode(b),
{
}

/// A run of `b` or `o` inside the grid never fails: it sets the cells from
/// the cursor up to the end of the run or of the row, whichever comes first,
/// drops the rest, leaves every other cell as it was, and keeps the cursor
/// within the row.
pub proof fn lemma_run_clamped(m: DecodeModel, c: char)
    requires
        model_inv(m),
        m.state == ParserState::RunTag,
        c == 'b' || c == 'o',
        m.row < m.height,
    ensures
        step(m, c) matches Ok(m2) && {
            let v = if c == 'o' { CELL_ALIVE } else { CELL_DEAD };
            let end = min_nat(m.col + run_length(m), m.width);
            &&& m2.col == end
            &&& end <= m.width
            &&& m2.row == m.row
            &&& well_shaped(m2.cells, m.height, m.width)
            &&& forall|j: int| m.col <= j < end ==> #[trigger] m2.cells[m.row as int][j] == v
            &&& forall|i: int, j: int|
                0 <= i < m.height && 0 <= j < m.width && !(i == m.row && m.col <= j < end)
                    ==> #[trigger] m2.cells[i][j] == m.cells[i][j]
        },
{
    lemma_step_inv(m, c);
}

/// `$` clears the rest of the current row, moves the cursor down by the run
/// length (by one if none was given) and back to column 0, and leaves every
/// other cell as it was.
pub proof fn lemma_row_end(m: DecodeModel)
    requires
        model_inv(m),
        m.state == ParserState::RunTag,
    ensures
        step(m, '$') matches Ok(m2) && {
            &&& m2.col == 0
            &&& m2.row == min_nat(m.row + run_length(m), m.height)
            &&& well_shaped(m2.cells, m.height, m.width)
            &&& forall|j: int| m.row < m.height && m.col <= j < m.width ==> #[trigger] m2.cells[m.row as int][j] == CELL_DEAD
            &&& forall|i: int, j: int|
                0 <= i < m.height && 0 <= j < m.width && !(i == m.row && m.col <= j)
                    ==> #[trigger] m2.cells[i][j] == m.cells[i][j]
        },
{
    lemma_step_inv(m, '$');
}


/// A decoded pattern: `height` rows of `width` cells.
#[derive(Debug)]
pub struct RLEParseEntity {
    pub width: usize,
    pub height: usize,
    pub grid: Vec<Vec<u8>>,
}

impl View for RLEParseEntity {
    type V = Pattern;

    open spec fn view(&self) -> Pattern {
        Pattern { rows: self.height as nat, columns: self.width as nat, cells: self.grid.deep_view() }
    }
}

impl RLEParseEntity {
    /// The grid has the declared shape and holds only dead and live cells.
    pub open spec fn wf(&self) -> bool {
        well_shaped(self.grid.deep_view(), self.height as nat, self.width as nat)
    }
}

/// The outcome of decoding, with the pattern seen as a mathematical value.
pub open spec fn result_view(r: Result<RLEParseEntity, DecodeError>) -> Result<Pattern, DecodeError> {
    match r {
        Ok(e) => Ok(e@),
        Err(e) => Err(e),
    }
}

/// `r` and `after` are what `expected` says one step gives.
pub open spec fn stepped(expected: Result<DecodeModel, DecodeError>, r: Result<(), DecodeError>, after: DecodeModel) -> bool {
    match expected {
        Ok(m) => r is Ok && after == m,
        Err(e) => r == Err::<(), DecodeError>(e),
    }
}

/// The decoder's working state. Allocating the grid waits until the height
/// field closes: while `grid_pending`, the grid stands for all-dead rows.
struct Decoder {
    state: ParserState,
    width: usize,
    width_seen: bool,
    height: usize,
    height_seen: bool,
    run: usize,
    run_seen: bool,
    row: usize,
    col: usize,
    grid: Vec<Vec<u8>>,
    grid_pending: bool,
}

impl View for Decoder {
    type V = DecodeModel;

    closed spec fn view(&self) -> DecodeModel {
        DecodeModel {
            state: self.state,
            width: self.width as nat,
            width_seen: self.width_seen,
            height: self.height as nat,
            height_seen: self.height_seen,
            run: self.run as nat,
            run_seen: self.run_seen,
            row: self.row as nat,
            col: self.col as nat,
            cells: if self.grid_pending {
                dead_rows(self.height as nat, self.width as nat)
            } else {
                self.grid.deep_view()
            },
        }
    }
}

fn is_space_char(c: char) -> (r: bool)
    ensures
        r == is_space(c),
{
    let u = c as u32;
    (9 <= u && u <= 13) || u == 32 || u == 0x85 || u == 0xA0 || u == 0x1680 || (0x2000 <= u && u <= 0x200A)
        || u == 0x2028 || u == 0x2029 || u == 0x202F || u == 0x205F || u == 0x3000
}

fn is_digit_char(c: char) -> (r: bool)
    ensures
        r == is_digit(c),
{
    '0' as u32 <= c as u32 && c as u32 <= '9' as u32
}

/// Appends the digit `c` to the numeral `acc`, unless the value would pass `MAX_NUMBER`.
fn accumulate(acc: usize, c: char) -> (r: Option<usize>)
    requires
        acc <= MAX_NUMBER,
        is_digit(c),
    ensures
        match r {
            Some(n) => n as nat == push_digit(acc as nat, c) && n <= MAX_NUMBER,
            None => push_digit(acc as nat, c) > MAX_NUMBER,
        },
{
    let d = (c as u32 - '0' as u32) as usize;
    if acc > (MAX_NUMBER - d) / 10 {
        None
    } else {
        Some(acc * 10 + d)
    }
}

/// Sets the cells of `line` at `from..to` to `v`.
fn fill_cells(line: &mut Vec<u8>, from: usize, to: usize, v: u8)
    requires
        from <= to <= old(line).len(),
    ensures
        final(line)@ == fill_line(old(line)@, from as int, to as int, v),
{
    let mut j = from;
    while j < to
        invariant
            from <= j <= to <= line.len(),
            line.len() == old(line).len(),
            forall|k: int| 0 <= k < line.len() ==> #[trigger] line@[k] == (if from <= k < j { v } else { old(line)@[k] }),
        decreases to - j,
    {
        line.set(j, v);
        j = j + 1;
    }
    assert(line@ =~= fill_line(old(line)@, from as int, to as int, v));
}

/// `rows` rows of `columns` dead cells.
fn dead_grid(rows: usize, columns: usize) -> (g: Vec<Vec<u8>>)
    ensures
        g.deep_view() == dead_rows(rows as nat, columns as nat),
{
    let mut g: Vec<Vec<u8>> = Vec::new();
    let mut i: usize = 0;
    while i < rows
        invariant
            i <= rows,
            g.deep_view() =~= dead_rows(i as nat, columns as nat),
        decreases rows - i,
    {
        let mut line: Vec<u8> = Vec::new();
        let mut j: usize = 0;
        while j < columns
            invariant
                j <= columns,
                line@ =~= Seq::new(j as nat, |k: int| CELL_DEAD),
            decreases columns - j,
        {
            line.push(CELL_DEAD);
            j = j + 1;
        }
        assert(line.deep_view() =~= Seq::new(columns as nat, |k: int| CELL_DEAD));
        let ghost before = g.deep_view();
        g.push(line);
        assert(g.deep_view() =~= before.push(line.deep_view()));
        i = i + 1;
    }
    g
}

impl Decoder {
    closed spec fn wf(&self) -> bool {
        &&& model_inv(self@)
        &&& self.grid_pending ==> self.state == ParserState::Height && self.height_seen
    }

    fn new() -> (d: Decoder)
        ensures
            d.wf(),
            d@ == initial_model(),
    {
        let d = Decoder {
            state: ParserState::Begin,
            width: 0,
            width_seen: false,
            height: 0,
            height_seen: false,
            run: 0,
            run_seen: false,
            row: 0,
            col: 0,
            grid: Vec::new(),
            grid_pending: false,
        };
        assert(d@.cells =~= Seq::empty());
        d
    }

    /// Allocates the grid if it is still pending; the state seen from outside stays.
    fn materialize(&mut self)
        requires
            old(self).wf(),
        ensures
            final(self).wf(),
            final(self)@ == old(self)@,
            !final(self).grid_pending,
    {
        if self.grid_pending {
            self.grid = dead_grid(self.height, self.width);
            self.grid_pending = false;
        }
    }

    fn begin(&mut self, c: char) -> (r: Result<(), DecodeError>)
        requires
            old(self).wf(),
            old(self)@.state == ParserState::Begin,
        ensures
            final(self).wf(),
            stepped(step_begin(old(self)@, c), r, final(self)@),
    {
        if c == '#' {
            self.state = ParserState::Comment;
            Ok(())
        } else if c == 'x' {
            *self = Decoder::new();
            self.state = ParserState::Width;
            Ok(())
        } else {
            Err(DecodeError::UnexpectedChar { state: ParserState::Begin, c })
        }
    }

    fn comment(&mut self, c: char) -> (r: Result<(), DecodeError>)
        requires
            old(self).wf(),
            old(self)@.state == ParserState::Comment,
        ensures
            final(self).wf(),
            stepped(step_comment(old(self)@, c), r, final(self)@),
    {
        if c == '\n' {
            self.state = ParserState::Begin;
        }
        Ok(())
    }

    fn width(&mut self, c: char) -> (r: Result<(), DecodeError>)
        requires
            old(self).wf(),
            old(self)@.state == ParserState::Width,
        ensures
            final(self).wf(),
            stepped(step_width(old(self)@, c), r, final(self)@),
    {
        if c == ',' {
            if self.width_seen {
                self.state = ParserState::Height;
                Ok(())
            } else {
                Err(DecodeError::EmptyField { state: ParserState::Width })
            }
        } else if c == '=' {
            Ok(())
        } else if is_digit_char(c) {
            match accumulate(self.width, c) {
                Some(w) => {
                    self.width = w;
                    self.width_seen = true;
                    Ok(())
                },
                None => Err(DecodeError::NumberTooLarge { state: ParserState::Width }),
            }
        } else {
            Err(DecodeError::UnexpectedChar { state: ParserState::Width, c })
        }
    }

    fn height(&mut self, c: char) -> (r: Result<(), DecodeError>)
        requires
            old(self).wf(),
            old(self)@.state == ParserState::Height,
        ensures
            final(self).wf(),
            stepped(step_height(old(self)@, c), r, final(self)@),
    {
        if c == '\n' || c == ',' {
            if self.height_seen {
                self.materialize();
                self.state = if c == '\n' { ParserState::Begin } else { ParserState::Rule };
                Ok(())
            } else {
                Err(DecodeError::EmptyField { state: ParserState::Height })
            }
        } else if c == '=' || c == 'y' {
            Ok(())
        } else if is_digit_char(c) {
            match accumulate(self.height, c) {
                Some(h) => {
                    self.height = h;
                    self.height_seen = true;
                    self.grid_pending = true;
                    Ok(())
                },
                None => Err(DecodeError::NumberTooLarge { state: ParserState::Height }),
            }
        } else {
            Err(DecodeError::UnexpectedChar { state: ParserState::Height, c })
        }
    }

    fn rule(&mut self, c: char) -> (r: Result<(), DecodeError>)
        requires
            old(self).wf(),
            old(self)@.state == ParserState::Rule,
        ensures
            final(self).wf(),
            stepped(step_rule(old(self)@, c), r, final(self)@),
    {
        if c == '\n' {
            self.state = ParserState::RunTag;
            self.run = 0;
            self.run_seen = false;
            self.row = 0;
            self.col = 0;
        }
        Ok(())
    }

    /// Writes a run of `b` or `o` cells from the cursor, clamped to the row.
    fn write_run(&mut self, c: char) -> (r: Result<(), DecodeError>)
        requires
            old(self).wf(),
            old(self)@.state == ParserState::RunTag,
            c == 'b' || c == 'o',
        ensures
            final(self).wf(),
            stepped(step_run(old(self)@, c), r, final(self)@),
    {
        proof {
            lemma_step_inv(self@, c);
        }
        if self.row >= self.height {
            return Err(DecodeError::RunOutsideGrid { c });
        }
        let v = if c == 'o' { CELL_ALIVE } else { CELL_DEAD };
        let n = if self.run_seen { self.run } else { 1 };
        let end = if n >= self.width - self.col { self.width } else { self.col + n };
        let row = self.row;
        let ghost cells = self.grid.deep_view();
        let mut line: Vec<u8> = Vec::new();
        self.grid.set_and_swap(row, &mut line);
        assert(line.deep_view() =~= line@);
        fill_cells(&mut line, self.col, end, v);
        assert(line.deep_view() =~= line@);
        self.grid.set_and_swap(row, &mut line);
        assert(self.grid.deep_view() =~= cells.update(
            row as int,
            fill_line(cells[row as int], self.col as int, end as int, v),
        ));
        self.col = end;
        self.run = 0;
        self.run_seen = false;
        Ok(())
    }

    /// Clears the rest of the row, then moves the cursor down and back to column 0.
    fn end_row(&mut self)
        requires
            old(self).wf(),
            old(self)@.state == ParserState::RunTag,
        ensures
            final(self).wf(),
            final(self)@ == step_row_end(old(self)@),
    {
        proof {
            lemma_step_inv(self@, '$');
        }
        if self.row < self.height {
            let row = self.row;
            let ghost cells = self.grid.deep_view();
            let mut line: Vec<u8> = Vec::new();
            self.grid.set_and_swap(row, &mut line);
            assert(line.deep_view() =~= line@);
            fill_cells(&mut line, self.col, self.width, CELL_DEAD);
            assert(line.deep_view() =~= line@);
            self.grid.set_and_swap(row, &mut line);
            assert(self.grid.deep_view() =~= cells.update(
                row as int,
                fill_line(cells[row as int], self.col as int, self.width as int, CELL_DEAD),
            ));
        }
        let n = if self.run_seen { self.run } else { 1 };
        self.row = if n >= self.height - self.row { self.height } else { self.row + n };
        self.col = 0;
        self.run = 0;
        self.run_seen = false;
    }

    fn run_count(&mut self, c: char) -> (r: Result<(), DecodeError>)
        requires
            old(self).wf(),
            old(self)@.state == ParserState::RunTag,
        ensures
            final(self).wf(),
            stepped(step_body(old(self)@, c), r, final(self)@),
    {
        if is_digit_char(c) {
            match accumulate(self.run, c) {
                Some(n) => {
                    self.run = n;
                    self.run_seen = true;
                    Ok(())
                },
                None => Err(DecodeError::NumberTooLarge { state: ParserState::RunTag }),
            }
        } else if c == 'b' || c == 'o' {
            self.write_run(c)
        } else if c == '$' {
            self.end_row();
            Ok(())
        } else if c == '!' || c == '\n' {
            Ok(())
        } else {
            Err(DecodeError::UnexpectedChar { state: ParserState::RunTag, c })
        }
    }

    /// Feeds one character to the handler of the current state.
    fn feed(&mut self, c: char) -> (r: Result<(), DecodeError>)
        requires
            old(self).wf(),
        ensures
            final(self).wf(),
            stepped(step(old(self)@, c), r, final(self)@),
    {
        if is_space_char(c) && c != '\n' {
            return Ok(());
        }
        match self.state {
            ParserState::Begin => self.begin(c),
            ParserState::Comment => self.comment(c),
            ParserState::Width => self.width(c),
            ParserState::Height => self.height(c),
            ParserState::Rule => self.rule(c),
            ParserState::RunTag => self.run_count(c),
        }
    }
} // impl Decoder

/// Decodes a pattern: its dimensions from the header, then its cells from
/// the run-length body.
pub fn parse(blob: String) -> (r: Result<RLEParseEntity, DecodeError>)
    ensures
        result_view(r) == decode(blob@),
        r matches Ok(e) ==> e.wf(),
{
    let mut d = Decoder::new();
    for c in it: blob.chars()
        invariant
            d.wf(),
            it.seq() == blob@,
            decode_prefix(blob@.take(it.index() as int)) == Ok::<DecodeModel, DecodeError>(d@),
    {
        let ghost i = it.index();
        assert(0 <= i < blob@.len() && c == blob@[i]);
        assert(blob@.take(i + 1).drop_last() =~= blob@.take(i));
        match d.feed(c) {
            Ok(()) => {},
            Err(e) => {
                proof {
                    lemma_error_persists(blob@, i + 1);
                }
                return Err(e);
            },
        }
    }
    assert(blob@.take(blob@.len() as int) =~= blob@);
    d.materialize();
    if d.height_seen {
        Ok(RLEParseEntity { width: d.width, height: d.height, grid: d.grid })
    } else {
        Err(DecodeError::MissingDimensions)
    }
}

} // verus!
