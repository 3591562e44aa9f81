use vstd::prelude::*;
use crate::config::Cli;
use crate::entry::Entry;
use crate::matchers::Matchers;
use crate::names::{display_of, entry_to_output_with_frills, needs_quote, OutputName};

verus! {

/// Width of a row of `cols` cells of `cell` characters, `spacer` apart,
/// after a lead of `leader`.
pub open spec fn row_width(cell: nat, cols: nat, spacer: nat, leader: nat) -> int {
    cell * cols + spacer * (cols - 1) + leader
}

pub open spec fn fits(cell: nat, cols: nat, spacer: nat, leader: nat, width: nat) -> bool {
    row_width(cell, cols, spacer, leader) <= width
}

/// The largest column count up to `n` whose row fits in `width`; at least one.
pub open spec fn column_count(cell: nat, spacer: nat, leader: nat, width: nat, n: nat) -> nat
    decreases n,
{
    if n <= 1 {
        1
    } else if fits(cell, n, spacer, leader, width) {
        n
    } else {
        column_count(cell, spacer, leader, width, (n - 1) as nat)
    }
}

proof fn lemma_column_count_bounds(cell: nat, spacer: nat, leader: nat, width: nat, n: nat)
    ensures
        1 <= column_count(cell, spacer, leader, width, n),
        n >= 1 ==> column_count(cell, spacer, leader, width, n) <= n,
    decreases n,
{
    if n > 1 {
        lemma_column_count_bounds(cell, spacer, leader, width, (n - 1) as nat);
    }
}

/// No more columns than `n` fit beyond the count chosen, and the count
/// chosen fits unless it is the single column.
pub proof fn lemma_column_count_largest(cell: nat, spacer: nat, leader: nat, width: nat, n: nat)
    ensures
        ({
            let c = column_count(cell, spacer, leader, width, n);
            &&& c > 1 ==> fits(cell, c, spacer, leader, width)
            &&& forall|k: nat| c < k <= n ==> !fits(cell, k, spacer, leader, width)
        }),
    decreases n,
{
    if n > 1 && !fits(cell, n, spacer, leader, width) {
        lemma_column_count_largest(cell, spacer, leader, width, (n - 1) as nat);
    }
}

/// For a fixed width and at least one name, a wider cell never gives more
/// columns; and there is always at least one column.
pub proof fn lemma_columns_monotone(
    narrow: nat,
    wide: nat,
    spacer: nat,
    leader: nat,
    width: nat,
    n: nat,
)
    requires
        narrow <= wide,
        n >= 1,
    ensures
        column_count(wide, spacer, leader, width, n) <= column_count(
            narrow,
            spacer,
            leader,
            width,
            n,
        ),
        column_count(wide, spacer, leader, width, n) >= 1,
    decreases n,
{
    lemma_column_count_bounds(wide, spacer, leader, width, n);
    lemma_column_count_bounds(narrow, spacer, leader, width, n);
    if n > 1 {
        assert(narrow * n <= wide * n) by (nonlinear_arith)
            requires
                narrow <= wide,
        ;
        if !fits(wide, n, spacer, leader, width) {
            lemma_columns_monotone(narrow, wide, spacer, leader, width, (n - 1) as nat);
            lemma_column_count_bounds(narrow, spacer, leader, width, (n - 1) as nat);
        }
    }
}

/// Whether a row of `cols` cells fits in `width`.
fn row_fits(cell: usize, cols: usize, spacer: usize, leader: usize, width: usize) -> (r: bool)
    requires
        cols >= 1,
    ensures
        r == fits(cell as nat, cols as nat, spacer as nat, leader as nat, width as nat),
{
    let a = match cell.checked_mul(cols) {
        Some(v) => v,
        None => return false,
    };
    let b = match spacer.checked_mul(cols - 1) {
        Some(v) => v,
        None => {
            assert(spacer * (cols - 1) >= 0) by (nonlinear_arith)
                requires
                    cols >= 1,
            ;
            assert(cell * cols >= 0) by (nonlinear_arith);
            return false;
        },
    };
    assert(cell * cols >= 0) by (nonlinear_arith);
    let ab = match a.checked_add(b) {
        Some(v) => v,
        None => return false,
    };
    let all = match ab.checked_add(leader) {
        Some(v) => v,
        None => return false,
    };
    all <= width
}

/// The number of columns for `n` names, searched down from `n`.
pub fn columns_for(cell: usize, spacer: usize, leader: usize, width: usize, n: usize) -> (r: usize)
    ensures
        r == column_count(cell as nat, spacer as nat, leader as nat, width as nat, n as nat),
{
    let mut c: usize = if n == 0 { 1 } else { n };
    while c > 1 && !row_fits(cell, c, spacer, leader, width)
        invariant
            c >= 1,
            column_count(cell as nat, spacer as nat, leader as nat, width as nat, n as nat)
                == column_count(cell as nat, spacer as nat, leader as nat, width as nat, c as nat),
        decreases c,
    {
        c = c - 1;
    }
    c
}

/// Names laid out in a grid: name `i` stands in row `i / cols`, column
/// `i % cols`, every cell `cell` characters wide, cells `spacer` apart and
/// each row led by `leader` spaces.
pub struct Grid {
    pub names: Vec<String>,
    pub cols: usize,
    pub cell: usize,
    pub spacer: usize,
    pub leader: usize,
}

/// The widest of the first `k` sizes.
pub open spec fn widest_of(sizes: Seq<usize>, k: int) -> nat
    decreases k,
{
    if k <= 0 {
        0
    } else {
        let w = widest_of(sizes, k - 1);
        if sizes[k - 1] as nat > w {
            sizes[k - 1] as nat
        } else {
            w
        }
    }
}

/// Whether one of the entries' names asks for quoting.
pub open spec fn any_quoted(entries: Seq<Entry>) -> bool {
    exists|i: int| 0 <= i < entries.len() && needs_quote(#[trigger] entries[i].name@)
}

/// The lead before the first column: one space when some name is quoted by
/// content and quoting is not forced on all.
pub open spec fn leader_for(entries: Seq<Entry>, config: Cli) -> nat {
    if any_quoted(entries) && !config.quote_name {
        1
    } else {
        0
    }
}

/// Lays out the entries' formatted names in as many columns as fit in
/// `width` (zero: no limit), or in one column, without lead, when one name
/// per line or NUL separation is asked for.
pub fn output_names_simple(entries: &Vec<Entry>, width: u32, config: &Cli, m: &Matchers) -> (r: Grid)
    requires
        m.wf(),
    ensures
        grid_laid_out(r, entries@, width as nat, config.one || config.zero, *config),
{
    grid_of(entries, width as usize, config.one || config.zero, config, m)
}

/// Lays out one block under the options alone: in `config.width` columns'
/// worth of cells, or one name per line where no width is given.
pub fn layout_block(entries: &Vec<Entry>, config: &Cli) -> (r: Grid)
    ensures
        grid_laid_out(
            r,
            entries@,
            match config.width {
                Some(w) => w as nat,
                None => 0,
            },
            config.one || config.zero || config.width is None,
            *config,
        ),
{
    let m = Matchers::new();
    let width: usize = match config.width {
        Some(w) => w,
        None => 0,
    };
    grid_of(entries, width, config.one || config.zero || config.width.is_none(), config, &m)
}

/// `r` lays out the entries' names: their display text in order, cells as
/// wide as the widest, and either one column without lead (`single`) or the
/// general rule of lead, gap and column count.
pub open spec fn grid_laid_out(r: Grid, entries: Seq<Entry>, width: nat, single: bool, config: Cli) -> bool {
    &&& r.names@.len() == entries.len()
    &&& forall|i: int|
        0 <= i < entries.len() ==> #[trigger] r.names@[i]@ == display_of(
            entries[i].name@,
            config.quote_name,
        )
    &&& r.cell == widest_of(r.names@.map_values(|s: String| s@.len() as usize), entries.len() as int)
    &&& r.leader == if single {
        0
    } else {
        leader_for(entries, config)
    }
    &&& r.spacer == 2 + r.leader
    &&& r.cols >= 1
    &&& r.cols == if single {
        1
    } else if width == 0 {
        if entries.len() == 0 {
            1
        } else {
            entries.len()
        }
    } else {
        column_count(r.cell as nat, r.spacer as nat, r.leader as nat, width, entries.len())
    }
}

fn grid_of(entries: &Vec<Entry>, width: usize, single: bool, config: &Cli, m: &Matchers) -> (r: Grid)
    requires
        m.wf(),
    ensures
        grid_laid_out(r, entries@, width as nat, single, *config),
{
    let count = entries.len();
    let mut names: Vec<String> = Vec::new();
    let mut widest: usize = 0;
    let mut quoted_any = false;
    let mut i: usize = 0;
    while i < count
        invariant
            count == entries@.len(),
            i <= count,
            m.wf(),
            names@.len() == i,
            forall|k: int|
                0 <= k < i ==> #[trigger] names@[k]@ == display_of(
                    entries@[k].name@,
                    config.quote_name,
                ),
            widest == widest_of(names@.map_values(|s: String| s@.len() as usize), i as int),
            !config.quote_name ==> quoted_any == exists|k: int|
                0 <= k < i && needs_quote(#[trigger] entries@[k].name@),
        decreases count - i,
    {
        let out: OutputName = entry_to_output_with_frills(&entries[i], config, m);
        let ghost old_names = names@;
        if out.size > widest {
            widest = out.size;
        }
        quoted_any = quoted_any || out.quoted;
        names.push(out.name);
        proof {
            let f = |s: String| s@.len() as usize;
            assert(names@.map_values(f).subrange(0, i as int) =~= old_names.map_values(f));
            assert forall|j: int| 0 <= j <= i implies widest_of(names@.map_values(f), j)
                == widest_of(old_names.map_values(f), j) by {
                lemma_widest_prefix(names@.map_values(f), old_names.map_values(f), j);
            }
            if quoted_any && !out.quoted {
                let k = choose|k: int| 0 <= k < i && needs_quote(#[trigger] entries@[k].name@);
            }
        }
        i = i + 1;
    }
    let leader: usize = if !single && quoted_any && !config.quote_name { 1 } else { 0 };
    let spacer: usize = 2 + leader;
    let cols = if single {
        1
    } else if width == 0 {
        if count == 0 { 1 } else { count }
    } else {
        columns_for(widest, spacer, leader, width, count)
    };
    proof {
        lemma_column_count_bounds(widest as nat, spacer as nat, leader as nat, width as nat, count as nat);
    }
    Grid { names, cols, cell: widest, spacer, leader }
}

proof fn lemma_widest_prefix(a: Seq<usize>, b: Seq<usize>, j: int)
    requires
        0 <= j <= b.len(),
        b.len() <= a.len(),
        forall|k: int| 0 <= k < b.len() ==> a[k] == b[k],
    ensures
        widest_of(a, j) == widest_of(b, j),
    decreases j,
{
    if j > 0 {
        lemma_widest_prefix(a, b, j - 1);
    }
}

/// `n` spaces.
pub open spec fn spaces(n: nat) -> Seq<char> {
    Seq::new(n, |i: int| ' ')
}

/// `s` padded on the right with spaces to `w` characters.
pub open spec fn padded(s: Seq<char>, w: nat) -> Seq<char> {
    if s.len() < w {
        s + spaces((w - s.len()) as nat)
    } else {
        s
    }
}

/// The cells from `start` up to `k`, each padded and followed by the gap.
pub open spec fn cells_before(names: Seq<Seq<char>>, start: int, k: int, cell: nat, spacer: nat) -> Seq<
    char,
>
    decreases k - start,
{
    if k <= start {
        Seq::empty()
    } else {
        cells_before(names, start, k - 1, cell, spacer) + padded(names[k - 1], cell) + spaces(spacer)
    }
}

/// One row of the grid: the lead, then the names from `start` to `end`, all
/// but the last padded to the cell width and followed by the gap.
pub open spec fn row_text(
    names: Seq<Seq<char>>,
    start: int,
    end: int,
    cell: nat,
    spacer: nat,
    leader: nat,
) -> Seq<char> {
    spaces(leader) + cells_before(names, start, end - 1, cell, spacer) + names[end - 1]
}

pub open spec fn min(a: int, b: int) -> int {
    if a < b {
        a
    } else {
        b
    }
}

/// The text of the grid's names.
pub open spec fn grid_names(g: Grid) -> Seq<Seq<char>> {
    g.names@.map_values(|s: String| s@)
}

/// Appends `n` spaces.
fn push_spaces(s: &mut String, n: usize)
    ensures
        final(s)@ == old(s)@ + spaces(n as nat),
{
    let mut i: usize = 0;
    while i < n
        invariant
            i <= n,
            s@ == old(s)@ + spaces(i as nat),
        decreases n - i,
    {
        let ghost prev = s@;
        s.append(" ");
        proof {
            reveal_strlit(" ");
            assert(" "@ =~= seq![' ']);
        }
        i = i + 1;
        assert(s@ =~= old(s)@ + spaces(i as nat));
    }
}

/// The rows of the grid as lines: row `r` holds the names from `r * cols`
/// up to the next multiple of `cols` or the end.
pub fn render_grid(g: &Grid) -> (r: Vec<String>)
    requires
        g.cols >= 1,
    ensures
        g.names@.len() == 0 ==> r@.len() == 0,
        g.names@.len() > 0 ==> (r@.len() - 1) * g.cols < g.names@.len() <= r@.len() * g.cols,
        forall|k: int|
            0 <= k < r@.len() ==> #[trigger] r@[k]@ == row_text(
                grid_names(*g),
                k * g.cols,
                min(k * g.cols + g.cols, g.names@.len() as int),
                g.cell as nat,
                g.spacer as nat,
                g.leader as nat,
            ),
{
    let n = g.names.len();
    let cols = g.cols;
    let ghost names = grid_names(*g);
    let mut lines: Vec<String> = Vec::new();
    let mut start: usize = 0;
    assert(lines@.len() * cols == 0);
    while start < n
        invariant
            n == g.names@.len(),
            cols == g.cols,
            cols >= 1,
            names == grid_names(*g),
            start <= n,
            start == min(lines@.len() * cols, n as int),
            lines@.len() > 0 ==> (lines@.len() - 1) * cols < n,
            forall|k: int|
                0 <= k < lines@.len() ==> #[trigger] lines@[k]@ == row_text(
                    names,
                    k * cols,
                    min(k * cols + cols, n as int),
                    g.cell as nat,
                    g.spacer as nat,
                    g.leader as nat,
                ),
        decreases n - start,
    {
        assert(start == lines@.len() * cols);
        let end: usize = if n - start > cols { start + cols } else { n };
        let mut line = String::new();
        push_spaces(&mut line, g.leader);
        let mut k: usize = start;
        while k + 1 < end
            invariant
                start <= k < end,
                end <= n,
                n == g.names@.len(),
                names == grid_names(*g),
                line@ == spaces(g.leader as nat) + cells_before(names, start as int, k as int, g.cell as nat, g.spacer as nat),
            decreases end - k,
        {
            let name = &g.names[k];
            let ghost before = line@;
            line.append(name.as_str());
            if name.as_str().unicode_len() < g.cell {
                push_spaces(&mut line, g.cell - name.as_str().unicode_len());
            }
            push_spaces(&mut line, g.spacer);
            k = k + 1;
            assert(names[k - 1] == name@);
            assert(line@ =~= spaces(g.leader as nat) + cells_before(names, start as int, k as int, g.cell as nat, g.spacer as nat));
        }
        line.append(g.names[end - 1].as_str());
        assert(names[end - 1] == g.names@[end - 1]@);
        let ghost row = lines@.len() as int;
        lines.push(line);
        proof {
            assert((row + 1) * cols == row * cols + cols) by (nonlinear_arith);
            assert(lines@[row]@ =~= row_text(names, row * cols, min(row * cols + cols, n as int), g.cell as nat, g.spacer as nat, g.leader as nat));
        }
        start = end;
    }
    lines
}

} // verus!
