use vstd::prelude::*;

verus! {

/// The row and column sizes of a grid of tiles inside one section.
#[derive(Clone, Debug)]
pub struct Grid {
    pub columns: usize,
    pub rows: usize,
    pub row_heights: Vec<u16>,
    pub col_widths: Vec<u16>,
}

pub open spec fn seq_sum(s: Seq<u16>) -> int
    decreases s.len(),
{
    if s.len() == 0 {
        0
    } else {
        seq_sum(s.drop_last()) + s.last()
    }
}

/// Column count: as many tiles of at least `min_tile_width` as fit across
/// `width`, but at least one and at most `tile_count` (a zero minimum width
/// puts every tile in one row).
pub open spec fn columns_spec(tile_count: nat, width: u16, min_tile_width: u16) -> nat {
    let fit: nat = if min_tile_width == 0 {
        tile_count
    } else {
        (width / min_tile_width) as nat
    };
    if fit < 1 {
        1
    } else if fit > tile_count {
        if tile_count < 1 {
            1
        } else {
            tile_count
        }
    } else {
        fit
    }
}

pub open spec fn rows_spec(tile_count: nat, columns: nat) -> nat {
    ((tile_count + columns - 1) / (columns as int)) as nat
}

/// Height of row `i`: an equal share of `height`, plus one for each of the
/// first `height % rows` rows.
pub open spec fn row_height_spec(height: u16, rows: nat, i: int) -> int {
    ((height as int) / (rows as int)) + if i < (height as int) % (rows as int) {
        1int
    } else {
        0int
    }
}

/// Width of column `i`: an equal share of `width`; the last column takes the
/// remainder.
pub open spec fn col_width_spec(width: u16, columns: nat, i: int) -> int {
    if i + 1 == columns {
        width - (columns - 1) * ((width as int) / (columns as int))
    } else {
        (width as int) / (columns as int)
    }
}

/// Whether a grid can be drawn: there is a tile, and every row gets at least
/// one line of height.
pub open spec fn grid_drawable(tile_count: nat, width: u16, height: u16, min_tile_width: u16) -> bool {
    tile_count > 0 && rows_spec(tile_count, columns_spec(tile_count, width, min_tile_width))
        <= height
}

pub open spec fn grid_spec(
    g: Grid,
    tile_count: nat,
    width: u16,
    height: u16,
    min_tile_width: u16,
) -> bool {
    let cols = columns_spec(tile_count, width, min_tile_width);
    let rows = rows_spec(tile_count, cols);
    &&& g.columns == cols
    &&& g.rows == rows
    &&& g.row_heights@.len() == rows
    &&& g.col_widths@.len() == cols
    &&& forall|i: int|
        0 <= i < rows ==> #[trigger] g.row_heights@[i] == row_height_spec(height, rows, i)
    &&& forall|i: int|
        0 <= i < cols ==> #[trigger] g.col_widths@[i] == col_width_spec(width, cols, i)
}

proof fn lemma_sum_push(s: Seq<u16>, x: u16)
    ensures
        seq_sum(s.push(x)) == seq_sum(s) + x,
{
    assert(s.push(x).drop_last() =~= s);
}

/// Lays out `tile_count` tiles in a grid over a section of `width` by
/// `height` cells. Returns `None` when there is nothing to draw: no tiles, or
/// fewer lines of height than rows.
pub fn grid_layout(tile_count: usize, width: u16, height: u16, min_tile_width: u16) -> (r: Option<Grid>)
    ensures
        r is None <==> !grid_drawable(tile_count as nat, width, height, min_tile_width),
        r matches Some(g) ==> {
            &&& grid_spec(g, tile_count as nat, width, height, min_tile_width)
            &&& seq_sum(g.col_widths@) == width
            &&& seq_sum(g.row_heights@) == height
        },
{
    if tile_count == 0 {
        return None;
    }
    let fit: usize = if min_tile_width == 0 {
        tile_count
    } else {
        (width / min_tile_width) as usize
    };
    let cols: usize = if fit < 1 {
        1
    } else if fit > tile_count {
        tile_count
    } else {
        fit
    };
    assert(cols == columns_spec(tile_count as nat, width, min_tile_width));
    let rows: usize = (tile_count - 1) / cols + 1;
    proof {
        let t = tile_count as int;
        let c = cols as int;
        assert(rows == (t + c - 1) / c) by (nonlinear_arith)
            requires
                c >= 1,
                t >= 1,
                rows == (t - 1) / c + 1,
        ;
    }
    if rows > height as usize {
        return None;
    }
    let base: u16 = height / (rows as u16);
    let extra: u16 = height % (rows as u16);
    proof {
        assert(base as int * rows as int + extra as int == height as int) by (nonlinear_arith)
            requires
                rows >= 1,
                base == (height as int) / (rows as int),
                extra == (height as int) % (rows as int),
        ;
        assert(extra < rows);
    }
    let mut heights: Vec<u16> = Vec::new();
    let mut i: usize = 0;
    while i < rows
        invariant
            i <= rows,
            1 <= rows <= height,
            base == (height as int) / (rows as int),
            extra == (height as int) % (rows as int),
            base as int * rows as int + extra as int == height as int,
            extra < rows,
            heights@.len() == i,
            forall|k: int|
                0 <= k < i ==> #[trigger] heights@[k] == row_height_spec(height, rows as nat, k),
            seq_sum(heights@) == i * base + if i < extra {
                i as int
            } else {
                extra as int
            },
        decreases rows - i,
    {
        proof {
            assert(i * base + base <= rows * base) by (nonlinear_arith)
                requires
                    i < rows,
            ;
        }
        let h: u16 = if (i as u16) < extra {
            base + 1
        } else {
            base
        };
        proof {
            lemma_sum_push(heights@, h);
            assert((i + 1) * base == i * base + base) by (nonlinear_arith);
        }
        heights.push(h);
        i = i + 1;
    }
    let per: usize = (width as usize) / cols;
    proof {
        assert(per as int * cols as int <= width as int) by (nonlinear_arith)
            requires
                cols >= 1,
                per == (width as int) / (cols as int),
        ;
    }
    let mut widths: Vec<u16> = Vec::new();
    let mut j: usize = 0;
    while j < cols
        invariant
            j <= cols,
            cols >= 1,
            cols <= tile_count,
            per == (width as int) / (cols as int),
            per as int * cols as int <= width as int,
            widths@.len() == j,
            forall|k: int| 0 <= k < j ==> #[trigger] widths@[k] == col_width_spec(width, cols as nat, k),
            j < cols ==> seq_sum(widths@) == j * per,
            j == cols ==> seq_sum(widths@) == width,
        decreases cols - j,
    {
        proof {
            assert(j * per + per <= cols * per) by (nonlinear_arith)
                requires
                    j < cols,
            ;
            assert((j + 1) * per == j * per + per) by (nonlinear_arith);
        }
        let w: u16 = if j + 1 == cols {
            (width as usize - j * per) as u16
        } else {
            per as u16
        };
        proof {
            lemma_sum_push(widths@, w);
        }
        widths.push(w);
        j = j + 1;
    }
    assert(seq_sum(heights@) == height) by {
        assert(rows * base == base as int * rows as int) by (nonlinear_arith);
    }
    let g = Grid { columns: cols, rows, row_heights: heights, col_widths: widths };
    Some(g)
}

} // verus!
