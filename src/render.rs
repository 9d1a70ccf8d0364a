//! What a frame shows: the glyph cells of each drawn body, clipped to the
//! work area, and the work area's size fitted to the terminal.
use vstd::prelude::*;
use crate::components::{Body, Position, body_rows};

verus! {

/// One glyph at a screen cell.
#[derive(Debug, Clone, Copy, PartialEq, Eq, Structural)]
pub struct Cell {
    pub x: u16,
    pub y: u16,
    pub ch: char,
}

/// Column `c` of `row`, drawn from column `sx`, exists and falls in
/// columns `0..w`.
pub open spec fn col_visible(row: Seq<char>, sx: int, w: int, c: int) -> bool {
    0 <= sx + c < w && 0 <= c < row.len()
}

/// The cell of column `c` of `row` drawn from column `sx` on line `y`.
pub open spec fn col_cell(row: Seq<char>, sx: int, y: int, c: int) -> Cell {
    Cell { x: (sx + c) as u16, y: y as u16, ch: row[c] }
}

/// The cells of columns `0..n` of `row`, drawn from column `sx` on line `y`,
/// keeping those with `0 <= x < w`.
pub open spec fn row_cells(row: Seq<char>, sx: int, y: int, w: int, n: nat) -> Seq<Cell>
    decreases n,
{
    if n == 0 {
        Seq::empty()
    } else {
        let prev = row_cells(row, sx, y, w, (n - 1) as nat);
        if col_visible(row, sx, w, n - 1) {
            prev.push(col_cell(row, sx, y, n - 1))
        } else {
            prev
        }
    }
}

/// The cells of rows `0..n` of `rows`, drawn from (`sx`, `sy`) with `width`
/// columns per row, keeping those inside a `w` by `h` area.
pub open spec fn body_cells(rows: Seq<Seq<char>>, sx: int, sy: int, width: nat, w: int, h: int, n: nat) -> Seq<
    Cell,
>
    decreases n,
{
    if n == 0 || n > rows.len() {
        Seq::empty()
    } else {
        let r = n - 1;
        let prev = body_cells(rows, sx, sy, width, w, h, (n - 1) as nat);
        if 0 <= sy + r < h {
            prev + row_cells(rows[r], sx, sy + r, w, width)
        } else {
            prev
        }
    }
}

/// The width of a glyph grid: the length of its first row.
pub open spec fn grid_width(rows: Seq<Seq<char>>) -> nat {
    if rows.len() == 0 {
        0
    } else {
        rows[0].len()
    }
}

/// The cells a grid drawn at `pos` leaves inside a `window` area, row by row
/// and left to right.
pub open spec fn draw_spec(rows: Seq<Seq<char>>, pos: Position, window: (u16, u16)) -> Seq<Cell> {
    body_cells(rows, pos.x as int, pos.y as int, grid_width(rows), window.0 as int, window.1 as int, rows.len())
}

/// The cells of the first `width` columns of `row`, drawn from column `sx`
/// on line `y`, that fall in columns `0..w`.
fn row_to_cells(row: &Vec<char>, sx: i32, y: i64, w: u16, width: usize) -> (out: Vec<Cell>)
    requires
        0 <= y <= u16::MAX,
    ensures
        out@ == row_cells(row@, sx as int, y as int, w as int, width as nat),
{
    let mut out: Vec<Cell> = Vec::new();
    let mut c: usize = 0;
    while c < width
        invariant
            0 <= c <= width,
            0 <= y <= u16::MAX,
            out@ == row_cells(row@, sx as int, y as int, w as int, c as nat),
        decreases width - c,
    {
        let dx: i128 = sx as i128 + c as i128;
        if 0 <= dx && dx < w as i128 && c < row.len() {
            out.push(Cell { x: dx as u16, y: y as u16, ch: row[c] });
        }
        c = c + 1;
    }
    out
}

/// Row `r`, column `c` of `rows`, drawn at `pos`, lands inside `window` as
/// `cell`.
pub open spec fn drawn_at(rows: Seq<Seq<char>>, pos: Position, window: (u16, u16), r: int, c: int, cell: Cell) -> bool {
    &&& 0 <= r < rows.len()
    &&& 0 <= c < grid_width(rows)
    &&& c < rows[r].len()
    &&& 0 <= pos.x + c < window.0
    &&& 0 <= pos.y + r < window.1
    &&& cell == Cell { x: (pos.x + c) as u16, y: (pos.y + r) as u16, ch: rows[r][c] }
}

proof fn lemma_push_contains<A>(s: Seq<A>, a: A, x: A)
    ensures
        s.push(a).contains(x) <==> (s.contains(x) || x == a),
{
    if s.push(a).contains(x) {
        let i = choose|i: int| 0 <= i < s.push(a).len() && s.push(a)[i] == x;
        if i < s.len() {
            assert(s[i] == x);
        }
    }
    if s.contains(x) {
        let i = choose|i: int| 0 <= i < s.len() && s[i] == x;
        assert(s.push(a)[i] == x);
    }
    if x == a {
        assert(s.push(a)[s.len() as int] == x);
    }
}

proof fn lemma_add_contains<A>(s: Seq<A>, t: Seq<A>, x: A)
    ensures
        (s + t).contains(x) <==> (s.contains(x) || t.contains(x)),
{
    if (s + t).contains(x) {
        let i = choose|i: int| 0 <= i < (s + t).len() && (s + t)[i] == x;
        if i < s.len() {
            assert(s[i] == x);
        } else {
            assert(t[i - s.len()] == x);
        }
    }
    if s.contains(x) {
        let i = choose|i: int| 0 <= i < s.len() && s[i] == x;
        assert((s + t)[i] == x);
    }
    if t.contains(x) {
        let i = choose|i: int| 0 <= i < t.len() && t[i] == x;
        assert((s + t)[s.len() + i] == x);
    }
}

proof fn lemma_row_cells_contains(row: Seq<char>, sx: int, y: int, w: int, n: nat, cell: Cell)
    ensures
        row_cells(row, sx, y, w, n).contains(cell) <==> exists|c: int|
            0 <= c < n && col_visible(row, sx, w, c) && cell == #[trigger] col_cell(row, sx, y, c),
    decreases n,
{
    if n > 0 {
        let c = n - 1;
        let prev = row_cells(row, sx, y, w, (n - 1) as nat);
        let full = row_cells(row, sx, y, w, n);
        lemma_row_cells_contains(row, sx, y, w, (n - 1) as nat, cell);
        lemma_push_contains(prev, col_cell(row, sx, y, c), cell);
        if col_visible(row, sx, w, c) {
            assert(full == prev.push(col_cell(row, sx, y, c)));
        } else {
            assert(full == prev);
        }
        if full.contains(cell) {
            if !prev.contains(cell) {
                assert(0 <= c < n && col_visible(row, sx, w, c) && cell == col_cell(row, sx, y, c));
            } else {
                let c2 = choose|c2: int| 0 <= c2 < n - 1 && col_visible(row, sx, w, c2) && cell == #[trigger] col_cell(row, sx, y, c2);
                assert(0 <= c2 < n && col_visible(row, sx, w, c2) && cell == col_cell(row, sx, y, c2));
            }
        }
        if exists|c2: int| 0 <= c2 < n && col_visible(row, sx, w, c2) && cell == #[trigger] col_cell(row, sx, y, c2) {
            let c2 = choose|c2: int| 0 <= c2 < n && col_visible(row, sx, w, c2) && cell == #[trigger] col_cell(row, sx, y, c2);
            if c2 < n - 1 {
                assert(prev.contains(cell));
            }
        }
    }
}

proof fn lemma_body_cells_contains(
    rows: Seq<Seq<char>>,
    sx: int,
    sy: int,
    width: nat,
    w: int,
    h: int,
    n: nat,
    cell: Cell,
)
    requires
        n <= rows.len(),
    ensures
        body_cells(rows, sx, sy, width, w, h, n).contains(cell) <==> exists|r: int|
            0 <= r < n && 0 <= sy + r < h && #[trigger] row_cells(rows[r], sx, sy + r, w, width).contains(cell),
    decreases n,
{
    if n > 0 {
        let r = n - 1;
        let prev = body_cells(rows, sx, sy, width, w, h, (n - 1) as nat);
        lemma_body_cells_contains(rows, sx, sy, width, w, h, (n - 1) as nat, cell);
        lemma_add_contains(prev, row_cells(rows[r], sx, sy + r, w, width), cell);
        if exists|r2: int|
            0 <= r2 < n && 0 <= sy + r2 < h && #[trigger] row_cells(rows[r2], sx, sy + r2, w, width).contains(cell) {
            let r2 = choose|r2: int|
                0 <= r2 < n && 0 <= sy + r2 < h && #[trigger] row_cells(rows[r2], sx, sy + r2, w, width).contains(
                    cell,
                );
            if r2 < n - 1 {
                assert(prev.contains(cell));
            }
        }
    }
}

/// The cells `draw` yields are exactly the glyphs of the grid that land
/// inside the window: cell (`pos.x + c`, `pos.y + r`) holds `rows[r][c]` for
/// each row `r`, and each column `c` below the grid's width and the row's
/// length, that falls inside.
pub proof fn lemma_drawn_cells(rows: Seq<Seq<char>>, pos: Position, window: (u16, u16), cell: Cell)
    ensures
        draw_spec(rows, pos, window).contains(cell) <==> exists|r: int, c: int|
            #[trigger] drawn_at(rows, pos, window, r, c, cell),
{
    let sx = pos.x as int;
    let sy = pos.y as int;
    let width = grid_width(rows);
    lemma_body_cells_contains(rows, sx, sy, width, window.0 as int, window.1 as int, rows.len(), cell);
    if draw_spec(rows, pos, window).contains(cell) {
        let r = choose|r: int|
            0 <= r < rows.len() && 0 <= sy + r < window.1 && #[trigger] row_cells(
                rows[r],
                sx,
                sy + r,
                window.0 as int,
                width,
            ).contains(cell);
        lemma_row_cells_contains(rows[r], sx, sy + r, window.0 as int, width, cell);
        let c = choose|c: int|
            0 <= c < width && col_visible(rows[r], sx, window.0 as int, c) && cell == #[trigger] col_cell(
                rows[r],
                sx,
                sy + r,
                c,
            );
        assert(drawn_at(rows, pos, window, r, c, cell));
    }
    if exists|r: int, c: int| #[trigger] drawn_at(rows, pos, window, r, c, cell) {
        let (r, c) = choose|r: int, c: int| #[trigger] drawn_at(rows, pos, window, r, c, cell);
        lemma_row_cells_contains(rows[r], sx, sy + r, window.0 as int, width, cell);
        assert(0 <= c < width && col_visible(rows[r], sx, window.0 as int, c) && cell == col_cell(rows[r], sx, sy + r, c));
        assert(row_cells(rows[r], sx, sy + r, window.0 as int, width).contains(cell));
    }
}

/// The cells of `body` drawn with its top-left corner at `pos`, leaving out
/// those outside the `window` area (and, in a ragged grid, those past the
/// end of a row).
pub fn draw(body: &Body, pos: &Position, window: &(u16, u16)) -> (r: Vec<Cell>)
    ensures
        r@ == draw_spec(body_rows(*body), *pos, *window),
{
    let ghost rows = body_rows(*body);
    let (win_w, win_h) = *window;
    let height = body.mat.len();
    let width = if height == 0 {
        0
    } else {
        body.mat[0].len()
    };
    let mut out: Vec<Cell> = Vec::new();
    let mut r: usize = 0;
    while r < height
        invariant
            rows == body_rows(*body),
            height == rows.len(),
            width == grid_width(rows),
            (win_w, win_h) == *window,
            0 <= r <= height,
            out@ == body_cells(rows, pos.x as int, pos.y as int, width as nat, win_w as int, win_h as int, r as nat),
        decreases height - r,
    {
        let dy: i128 = pos.y as i128 + r as i128;
        if 0 <= dy && dy < win_h as i128 {
            let row = &body.mat[r];
            assert(row@ == rows[r as int]);
            let mut cells = row_to_cells(row, pos.x, dy as i64, win_w, width);
            out.append(&mut cells);
            assert(out@ == body_cells(rows, pos.x as int, pos.y as int, width as nat, win_w as int, win_h as int, (r + 1) as nat));
        }
        r = r + 1;
    }
    out
}

/// The work area's size when `width` by `height` is asked for and the
/// terminal offers `cols` by `rows`: unchanged where it fits; otherwise both
/// sides are multiplied by the smaller of `cols / width` and `rows / height`
/// and truncated, so the side that overflows most becomes the terminal's.
pub open spec fn fitted(width: u16, height: u16, cols: u16, rows: u16) -> (u16, u16) {
    if width <= cols && height <= rows {
        (width, height)
    } else if width > 0 && cols as int * height as int <= rows as int * width as int {
        (cols, (height as int * cols as int / width as int) as u16)
    } else {
        ((width as int * rows as int / height as int) as u16, rows)
    }
}

/// Fits a requested work area into the terminal's capacity, keeping its
/// aspect ratio.
pub fn fit_window(width: u16, height: u16, cols: u16, rows: u16) -> (r: (u16, u16))
    ensures
        r == fitted(width, height, cols, rows),
{
    if width <= cols && height <= rows {
        return (width, height);
    }
    let w = width as u64;
    let h = height as u64;
    let cw = cols as u64;
    let ch = rows as u64;
    let ghost (wi, hi, cwi, chi) = (w as int, h as int, cw as int, ch as int);
    proof {
        assert(cwi * hi <= 65535 * 65535) by (nonlinear_arith)
            requires 0 <= cwi <= 65535, 0 <= hi <= 65535,
        {}
        assert(chi * wi <= 65535 * 65535) by (nonlinear_arith)
            requires 0 <= chi <= 65535, 0 <= wi <= 65535,
        {}
    }
    if width > 0 && cw * h <= ch * w {
        proof {
            assert(hi * cwi / wi <= hi) by (nonlinear_arith)
                requires wi > 0, cwi < wi || hi > chi, cwi * hi <= chi * wi, hi >= 0, cwi >= 0, chi >= 0,
            {
                if cwi < wi {
                    assert(hi * cwi <= hi * wi);
                } else {
                    assert(hi * cwi <= chi * wi);
                    assert(chi * wi < hi * wi);
                }
            }
        }
        (cols, (h * cw / w) as u16)
    } else {
        proof {
            assert(hi > 0) by (nonlinear_arith)
                requires !(wi > 0 && cwi * hi <= chi * wi), wi > cwi || hi > chi, wi >= 0, hi >= 0, cwi >= 0, chi >= 0,
            {}
            assert(wi * chi / hi <= wi) by (nonlinear_arith)
                requires hi > 0, cwi * hi > chi * wi || wi == 0, wi > cwi || hi > chi, wi >= 0, cwi >= 0, chi >= 0,
            {
                if hi > chi {
                    assert(wi * chi <= wi * hi);
                } else {
                    assert(wi * chi < cwi * hi);
                    assert(cwi * hi < wi * hi);
                }
            }
        }
        ((w * ch / h) as u16, rows)
    }
}

} // verus!
