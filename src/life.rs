use vstd::prelude::*;
use crate::rle::{RLEParseEntity, dead_rows, well_shaped, CELL_ALIVE, CELL_DEAD};

verus! {

/// `g` has `rows` rows of `columns` cells, whatever the cells hold.
pub open spec fn has_shape(g: Seq<Seq<u8>>, rows: nat, columns: nat) -> bool {
    &&& g.len() == rows
    &&& forall|i: int| 0 <= i < rows ==> #[trigger] g[i].len() == columns
}

/// The cell at `(i, j)` as a count: 0 outside the grid.
pub open spec fn cell_at(g: Seq<Seq<u8>>, i: int, j: int) -> int {
    if 0 <= i < g.len() && 0 <= j < g[i].len() {
        g[i][j] as int
    } else {
        0
    }
}

/// The number of live cells among the up to eight neighbours of `(i, j)`;
/// the border does not wrap.
pub open spec fn neighbors(g: Seq<Seq<u8>>, i: int, j: int) -> int {
    cell_at(g, i - 1, j - 1) + cell_at(g, i - 1, j) + cell_at(g, i - 1, j + 1) + cell_at(g, i, j - 1)
        + cell_at(g, i, j + 1) + cell_at(g, i + 1, j - 1) + cell_at(g, i + 1, j) + cell_at(g, i + 1, j + 1)
}

/// The rule: a live cell lives on with two or three live neighbours, a dead
/// cell comes alive with exactly three.
pub open spec fn next_cell(cell: u8, n: int) -> u8 {
    if cell == CELL_ALIVE {
        if n < 2 {
            CELL_DEAD
        } else if n < 4 {
            CELL_ALIVE
        } else {
            CELL_DEAD
        }
    } else if n == 3 {
        CELL_ALIVE
    } else {
        CELL_DEAD
    }
}

/// The grid one generation later.
pub open spec fn next_generation(g: Seq<Seq<u8>>) -> Seq<Seq<u8>> {
    Seq::new(g.len(), |i: int| Seq::new(g[i].len(), |j: int| next_cell(g[i][j], neighbors(g, i, j))))
}

/// The grid `k` generations later.
pub open spec fn generations(g: Seq<Seq<u8>>, k: nat) -> Seq<Seq<u8>>
    decreases k,
{
    if k == 0 {
        g
    } else {
        next_generation(generations(g, (k - 1) as nat))
    }
}

/// A grid of vectors seen row by row.
pub proof fn lemma_grid_view(g: &Vec<Vec<u8>>)
    ensures
        g.deep_view().len() == g@.len(),
        forall|i: int| 0 <= i < g@.len() ==> g.deep_view()[i] == #[trigger] g@[i]@,
{
    assert forall|i: int| 0 <= i < g@.len() implies #[trigger] g.deep_view()[i] == g@[i]@ by {
        assert(g.deep_view()[i] =~= g@[i]@);
    }
}

/// Appends a copy of each row of `source` to `target`.
pub fn copy_buffer(source: &Vec<Vec<u8>>, target: &mut Vec<Vec<u8>>)
    ensures
        final(target).deep_view() == old(target).deep_view() + source.deep_view(),
{
    let mut i: usize = 0;
    while i < source.len()
        invariant
            i <= source.len(),
            target.deep_view() =~= old(target).deep_view() + source.deep_view().take(i as int),
        decreases source.len() - i,
    {
        let row = &source[i];
        let mut c: Vec<u8> = Vec::new();
        let mut j: usize = 0;
        while j < row.len()
            invariant
                j <= row.len(),
                c@ =~= row@.take(j as int),
            decreases row.len() - j,
        {
            c.push(row[j]);
            j = j + 1;
        }
        assert(c.deep_view() =~= row.deep_view());
        let ghost before = target.deep_view();
        target.push(c);
        assert(target.deep_view() =~= before.push(c.deep_view()));
        assert(source.deep_view().take(i + 1) =~= source.deep_view().take(i as int).push(row.deep_view()));
        i = i + 1;
    }
    assert(source.deep_view().take(i as int) =~= source.deep_view());
}

/// The number of live neighbours of `(i, j)` in `g`.
fn count_neighbors(g: &Vec<Vec<u8>>, rows: usize, columns: usize, i: usize, j: usize) -> (n: u8)
    requires
        well_shaped(g.deep_view(), rows as nat, columns as nat),
        i < rows,
        j < columns,
    ensures
        n == neighbors(g.deep_view(), i as int, j as int),
{
    proof {
        lemma_grid_view(g);
    }
    let mut n: u8 = 0;
    if i > 0 {
        n += g[i - 1][j];
        if j > 0 {
            n += g[i - 1][j - 1];
        }
        if j + 1 < columns {
            n += g[i - 1][j + 1];
        }
    }
    if i + 1 < rows {
        n += g[i + 1][j];
        if j > 0 {
            n += g[i + 1][j - 1];
        }
        if j + 1 < columns {
            n += g[i + 1][j + 1];
        }
    }
    if j > 0 {
        n += g[i][j - 1];
    }
    if j + 1 < columns {
        n += g[i][j + 1];
    }
    n
}

/// Computes the next generation of `back_buffer` into `front_buffer`, then
/// copies it back, so that both hold the new generation.
pub fn process_generation(back_buffer: &mut Vec<Vec<u8>>, front_buffer: &mut Vec<Vec<u8>>, rpe: &RLEParseEntity)
    requires
        well_shaped(old(back_buffer).deep_view(), rpe.height as nat, rpe.width as nat),
        has_shape(old(front_buffer).deep_view(), rpe.height as nat, rpe.width as nat),
    ensures
        final(front_buffer).deep_view() == next_generation(old(back_buffer).deep_view()),
        final(back_buffer).deep_view() == next_generation(old(back_buffer).deep_view()),
{
    let rows = rpe.height;
    let columns = rpe.width;
    let ghost g = back_buffer.deep_view();
    let ghost next = next_generation(g);
    proof {
        lemma_grid_view(back_buffer);
        lemma_grid_view(front_buffer);
    }
    let mut i: usize = 0;
    while i < rows
        invariant
            i <= rows,
            rows == rpe.height,
            columns == rpe.width,
            back_buffer.deep_view() == g,
            well_shaped(g, rows as nat, columns as nat),
            next == next_generation(g),
            front_buffer.len() == rows,
            forall|r: int| 0 <= r < rows ==> #[trigger] front_buffer@[r]@.len() == columns,
            forall|r: int| 0 <= r < i ==> #[trigger] front_buffer@[r]@ == next[r],
        decreases rows - i,
    {
        let mut line: Vec<u8> = Vec::new();
        front_buffer.set_and_swap(i, &mut line);
        let mut j: usize = 0;
        while j < columns
            invariant
                j <= columns,
                i < rows,
                rows == rpe.height,
                columns == rpe.width,
                back_buffer.deep_view() == g,
                well_shaped(g, rows as nat, columns as nat),
                next == next_generation(g),
                line.len() == columns,
                forall|k: int| 0 <= k < j ==> #[trigger] line@[k] == next[i as int][k],
            decreases columns - j,
        {
            let n = count_neighbors(back_buffer, rows, columns, i, j);
            proof {
                lemma_grid_view(back_buffer);
            }
            let v = if back_buffer[i][j] == CELL_ALIVE {
                if n < 2 {
                    CELL_DEAD
                } else if n < 4 {
                    CELL_ALIVE
                } else {
                    CELL_DEAD
                }
            } else if n == 3 {
                CELL_ALIVE
            } else {
                CELL_DEAD
            };
            line.set(j, v);
            j = j + 1;
        }
        assert(line@ =~= next[i as int]);
        front_buffer.set_and_swap(i, &mut line);
        i = i + 1;
    }
    proof {
        lemma_grid_view(front_buffer);
    }
    assert(front_buffer.deep_view() =~= next);
    let mut i: usize = 0;
    while i < rows
        invariant
            i <= rows,
            rows == rpe.height,
            columns == rpe.width,
            front_buffer.deep_view() == next,
            next == next_generation(g),
            well_shaped(g, rows as nat, columns as nat),
            back_buffer.len() == rows,
            forall|r: int| i <= r < rows ==> #[trigger] back_buffer@[r]@.len() == columns,
            forall|r: int| i <= r < rows ==> #[trigger] back_buffer@[r]@ == g[r],
            forall|r: int| 0 <= r < i ==> #[trigger] back_buffer@[r]@ == next[r],
        decreases rows - i,
    {
        let mut line: Vec<u8> = Vec::new();
        back_buffer.set_and_swap(i, &mut line);
        let mut j: usize = 0;
        while j < columns
            invariant
                j <= columns,
                i < rows,
                front_buffer.deep_view() == next,
                next == next_generation(g),
                well_shaped(g, rows as nat, columns as nat),
                line.len() == columns,
                forall|k: int| 0 <= k < j ==> #[trigger] line@[k] == next[i as int][k],
            decreases columns - j,
        {
            proof {
                lemma_grid_view(front_buffer);
            }
            line.set(j, front_buffer[i][j]);
            j = j + 1;
        }
        assert(line@ =~= next[i as int]);
        back_buffer.set_and_swap(i, &mut line);
        i = i + 1;
    }
    proof {
        lemma_grid_view(back_buffer);
    }
    assert(back_buffer.deep_view() =~= next);
}

/// An all-dead grid stays all dead.
pub proof fn lemma_dead_grid_stays_dead(rows: nat, columns: nat, k: nat)
    ensures
        next_generation(dead_rows(rows, columns)) == dead_rows(rows, columns),
        generations(dead_rows(rows, columns), k) == dead_rows(rows, columns),
    decreases k,
{
    let g = dead_rows(rows, columns);
    assert forall|i: int, j: int| 0 <= i < rows && 0 <= j < columns implies #[trigger] next_generation(g)[i][j] == g[i][j] by {
        assert(neighbors(g, i, j) == 0);
    }
    assert(next_generation(g) =~~= g);
    if k > 0 {
        lemma_dead_grid_stays_dead(rows, columns, (k - 1) as nat);
    }
}

/// A live cell with fewer than two live neighbours dies; an isolated one in
/// particular.
pub proof fn lemma_lonely_cell_dies(g: Seq<Seq<u8>>, i: int, j: int)
    requires
        0 <= i < g.len(),
        0 <= j < g[i].len(),
        g[i][j] == CELL_ALIVE,
        neighbors(g, i, j) < 2,
    ensures
        next_generation(g)[i][j] == CELL_DEAD,
{
}

/// A live cell with four or more live neighbours dies.
pub proof fn lemma_crowded_cell_dies(g: Seq<Seq<u8>>, i: int, j: int)
    requires
        0 <= i < g.len(),
        0 <= j < g[i].len(),
        g[i][j] == CELL_ALIVE,
        neighbors(g, i, j) >= 4,
    ensures
        next_generation(g)[i][j] == CELL_DEAD,
{
}

/// A grid of `rows` by `columns` whose live cells are those where `live` holds.
pub open spec fn pattern_grid(rows: nat, columns: nat, live: spec_fn(int, int) -> bool) -> Seq<Seq<u8>> {
    Seq::new(rows, |i: int| Seq::new(columns, |j: int| if live(i, j) { CELL_ALIVE } else { CELL_DEAD }))
}

/// A 2x2 block of live cells with its top left corner at `(r, c)`.
pub open spec fn block_grid(rows: nat, columns: nat, r: int, c: int) -> Seq<Seq<u8>> {
    pattern_grid(rows, columns, |i: int, j: int| r <= i <= r + 1 && c <= j <= c + 1)
}

/// Three live cells in a row, centred on `(r, c)`.
pub open spec fn blinker_across(rows: nat, columns: nat, r: int, c: int) -> Seq<Seq<u8>> {
    pattern_grid(rows, columns, |i: int, j: int| i == r && c - 1 <= j <= c + 1)
}

/// Three live cells in a column, centred on `(r, c)`.
pub open spec fn blinker_down(rows: nat, columns: nat, r: int, c: int) -> Seq<Seq<u8>> {
    pattern_grid(rows, columns, |i: int, j: int| j == c && r - 1 <= i <= r + 1)
}

/// Inside a pattern grid whose live cells all lie in the grid, a cell counts
/// as live exactly where the pattern says so.
proof fn lemma_pattern_cell(rows: nat, columns: nat, live: spec_fn(int, int) -> bool, a: int, b: int)
    requires
        forall|i: int, j: int| #[trigger] live(i, j) ==> 0 <= i < rows && 0 <= j < columns,
    ensures
        cell_at(pattern_grid(rows, columns, live), a, b) == if live(a, b) { 1int } else { 0int },
{
}

/// The live count around `(i, j)` in a pattern grid, read off the pattern.
proof fn lemma_pattern_neighbors(rows: nat, columns: nat, live: spec_fn(int, int) -> bool, i: int, j: int)
    requires
        forall|a: int, b: int| #[trigger] live(a, b) ==> 0 <= a < rows && 0 <= b < columns,
    ensures
        neighbors(pattern_grid(rows, columns, live), i, j) == (if live(i - 1, j - 1) { 1int } else { 0 })
            + (if live(i - 1, j) { 1int } else { 0 }) + (if live(i - 1, j + 1) { 1int } else { 0 })
            + (if live(i, j - 1) { 1int } else { 0 }) + (if live(i, j + 1) { 1int } else { 0 })
            + (if live(i + 1, j - 1) { 1int } else { 0 }) + (if live(i + 1, j) { 1int } else { 0 })
            + (if live(i + 1, j + 1) { 1int } else { 0 }),
{
    lemma_pattern_cell(rows, columns, live, i - 1, j - 1);
    lemma_pattern_cell(rows, columns, live, i - 1, j);
    lemma_pattern_cell(rows, columns, live, i - 1, j + 1);
    lemma_pattern_cell(rows, columns, live, i, j - 1);
    lemma_pattern_cell(rows, columns, live, i, j + 1);
    lemma_pattern_cell(rows, columns, live, i + 1, j - 1);
    lemma_pattern_cell(rows, columns, live, i + 1, j);
    lemma_pattern_cell(rows, columns, live, i + 1, j + 1);
}

/// A 2x2 block that lies in the grid is a still life: it is unchanged after
/// any number of generations.
pub proof fn lemma_block_still_life(rows: nat, columns: nat, r: int, c: int, k: nat)
    requires
        0 <= r,
        r + 1 < rows,
        0 <= c,
        c + 1 < columns,
    ensures
        next_generation(block_grid(rows, columns, r, c)) == block_grid(rows, columns, r, c),
        generations(block_grid(rows, columns, r, c), k) == block_grid(rows, columns, r, c),
    decreases k,
{
    let live = |i: int, j: int| r <= i <= r + 1 && c <= j <= c + 1;
    let g = block_grid(rows, columns, r, c);
    assert(g == pattern_grid(rows, columns, live));
    assert forall|i: int, j: int| 0 <= i < rows && 0 <= j < columns implies #[trigger] next_generation(g)[i][j] == g[i][j] by {
        lemma_pattern_neighbors(rows, columns, live, i, j);
    }
    assert(next_generation(g) =~~= g);
    if k > 0 {
        lemma_block_still_life(rows, columns, r, c, (k - 1) as nat);
    }
}

/// A blinker away from the border turns from a row into a column and back:
/// it repeats every two generations.
pub proof fn lemma_blinker_period_two(rows: nat, columns: nat, r: int, c: int, k: nat)
    requires
        1 <= r,
        r + 1 < rows,
        1 <= c,
        c + 1 < columns,
    ensures
        next_generation(blinker_across(rows, columns, r, c)) == blinker_down(rows, columns, r, c),
        next_generation(blinker_down(rows, columns, r, c)) == blinker_across(rows, columns, r, c),
        generations(blinker_across(rows, columns, r, c), 2 * k) == blinker_across(rows, columns, r, c),
    decreases k,
{
    let across = |i: int, j: int| i == r && c - 1 <= j <= c + 1;
    let down = |i: int, j: int| j == c && r - 1 <= i <= r + 1;
    let h = blinker_across(rows, columns, r, c);
    let v = blinker_down(rows, columns, r, c);
    assert(h =~~= pattern_grid(rows, columns, across));
    assert(v =~~= pattern_grid(rows, columns, down));
    assert forall|i: int, j: int| 0 <= i < rows && 0 <= j < columns implies #[trigger] next_generation(h)[i][j] == v[i][j] by {
        lemma_pattern_neighbors(rows, columns, across, i, j);
    }
    assert(next_generation(h) =~~= v);
    assert forall|i: int, j: int| 0 <= i < rows && 0 <= j < columns implies #[trigger] next_generation(v)[i][j] == h[i][j] by {
        lemma_pattern_neighbors(rows, columns, down, i, j);
    }
    assert(next_generation(v) =~~= h);
    if k > 0 {
        lemma_blinker_period_two(rows, columns, r, c, (k - 1) as nat);
        let k2 = (2 * k) as nat;
        assert(generations(h, k2) == next_generation(generations(h, (k2 - 1) as nat)));
        assert(generations(h, (k2 - 1) as nat) == next_generation(generations(h, (k2 - 2) as nat)));
        assert((k2 - 2) as nat == 2 * (k - 1) as nat);
    }
}

} // verus!
