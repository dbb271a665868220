use vstd::prelude::*;

verus! {

/// The samples shown in a graph `width` columns wide, newest first: the newest
/// `width` entries of `history`, padded with the oldest one shown when the
/// history is shorter, and all zero when there is no history at all.
pub open spec fn window_spec(history: Seq<u64>, width: nat) -> Seq<u64> {
    Seq::new(
        width,
        |i: int|
            if history.len() == 0 {
                0u64
            } else if i < history.len() {
                history[i]
            } else {
                history[history.len() - 1]
            },
    )
}

/// Largest value of `s`, or 0 when `s` is empty.
pub open spec fn seq_max(s: Seq<u64>) -> u64
    decreases s.len(),
{
    if s.len() == 0 {
        0
    } else {
        let m = seq_max(s.drop_last());
        if s.last() > m {
            s.last()
        } else {
            m
        }
    }
}

/// The scale of a graph: its largest sample, never less than one.
pub open spec fn scale_max(s: Seq<u64>) -> u64 {
    if seq_max(s) == 0 {
        1
    } else {
        seq_max(s)
    }
}

pub open spec fn ceil_div(a: int, b: int) -> int {
    (a + b - 1) / b
}

/// Bar height in eighths of a row: `ceil(value / max * total_units)`, clamped
/// to `total_units`, and at least one for a positive value.
pub open spec fn scale_units_spec(value: u64, max: u64, total_units: u64) -> u64 {
    if total_units == 0 || max == 0 {
        0
    } else {
        let scaled = ceil_div(value * total_units, max as int);
        if value > 0 && scaled == 0 {
            1
        } else if scaled > total_units {
            total_units
        } else {
            scaled as u64
        }
    }
}

/// How many of the eight sub-levels of row `row` (counted from the baseline)
/// a bar of `units` eighths fills.
pub open spec fn row_level_spec(units: u64, row: u64) -> u64 {
    let base = row * 8;
    if units >= base + 8 {
        8
    } else if units >= base {
        (units - base) as u64
    } else {
        0
    }
}

/// The samples of `history` shown in a graph `width` columns wide, newest first.
pub fn sparkline_data(history: &[u64], width: u16) -> (r: Vec<u64>)
    ensures
        r@ == window_spec(history@, width as nat),
{
    let w = width as usize;
    let mut data: Vec<u64> = Vec::new();
    let n = history.len();
    let mut i: usize = 0;
    while i < w
        invariant
            i <= w,
            w == width as nat,
            n == history@.len(),
            data@.len() == i,
            forall|k: int| 0 <= k < i ==> #[trigger] data@[k] == window_spec(history@, width as nat)[k],
        decreases w - i,
    {
        let v = if n == 0 {
            0u64
        } else if i < n {
            history[i]
        } else {
            history[n - 1]
        };
        data.push(v);
        i = i + 1;
    }
    assert(data@ =~= window_spec(history@, width as nat));
    data
}

/// The largest value of `data`, floored at one so that it can scale a graph.
pub fn scale_of(data: &[u64]) -> (r: u64)
    ensures
        r == scale_max(data@),
        r >= 1,
{
    let mut m: u64 = 0;
    let mut i: usize = 0;
    while i < data.len()
        invariant
            i <= data@.len(),
            m == seq_max(data@.subrange(0, i as int)),
        decreases data@.len() - i,
    {
        proof {
            let s = data@.subrange(0, i as int + 1);
            assert(s.drop_last() =~= data@.subrange(0, i as int));
        }
        if data[i] > m {
            m = data[i];
        }
        i = i + 1;
    }
    assert(data@.subrange(0, data@.len() as int) =~= data@);
    if m == 0 {
        1
    } else {
        m
    }
}

/// Bar height in eighths of a row for `value` on a scale whose top is `max`
/// and which has `total_units` eighths of room.
pub fn scale_units(value: u64, max: u64, total_units: u64) -> (r: u64)
    ensures
        r == scale_units_spec(value, max, total_units),
        r <= total_units,
        value > 0 && max > 0 && total_units > 0 ==> r >= 1,
{
    if total_units == 0 || max == 0 {
        return 0;
    }
    proof {
        assert((value as int) * (total_units as int) <= (u64::MAX as int) * (u64::MAX as int))
            by (nonlinear_arith)
            requires
                value <= u64::MAX,
                total_units <= u64::MAX,
        ;
    }
    let prod: u128 = (value as u128) * (total_units as u128);
    let scaled: u128 = (prod + (max as u128) - 1) / (max as u128);
    if value > 0 && scaled == 0 {
        1
    } else if scaled > total_units as u128 {
        total_units
    } else {
        scaled as u64
    }
}

/// How many of the eight sub-levels of row `row`, counted outward from the
/// baseline, a bar of `units` eighths fills.
pub fn row_level(units: u64, row: u64) -> (r: u64)
    requires
        row < 0x1000_0000_0000_0000,
    ensures
        r == row_level_spec(units, row),
        r <= 8,
{
    let base = row * 8;
    if units >= base + 8 {
        8
    } else {
        units.saturating_sub(base)
    }
}


/// What one cell of a graph shows: nothing, a receive bar filled to a number of
/// eighths from the bottom, or a transmit bar drawn with the same glyph table at
/// the inverted level with foreground and background swapped.
#[derive(Clone, Copy, Debug, PartialEq, Eq, Structural)]
pub enum BarCell {
    Blank,
    Rx(u64),
    Tx(u64),
}

/// Cell `y` (from the top) of a column whose upper `up_rows` rows carry a bar
/// of `up_units` growing upward from the baseline, and whose remaining rows
/// carry a bar of `down_units` growing downward from it.
pub open spec fn cell_spec(up_units: u64, down_units: u64, up_rows: u64, y: u64) -> BarCell {
    if y < up_rows {
        let lvl = row_level_spec(up_units, (up_rows - 1 - y) as u64);
        if lvl == 0 {
            BarCell::Blank
        } else {
            BarCell::Rx(lvl)
        }
    } else {
        let lvl = row_level_spec(down_units, (y - up_rows) as u64);
        if lvl == 0 {
            BarCell::Blank
        } else {
            BarCell::Tx((8 - lvl) as u64)
        }
    }
}

pub open spec fn column_spec(up_units: u64, down_units: u64, up_rows: u64, height: u64) -> Seq<
    BarCell,
> {
    Seq::new(height as nat, |y: int| cell_spec(up_units, down_units, up_rows, y as u64))
}

/// The units of column `i` of a graph of `rows` rows drawn from `window`.
pub open spec fn units_spec(window: Seq<u64>, rows: u64, i: int) -> u64 {
    scale_units_spec(window[i], scale_max(window), (rows * 8) as u64)
}

/// Column `i` of the split graph of `rx` over `tx`, `width` by `height` cells.
pub open spec fn split_column_spec(
    rx: Seq<u64>,
    tx: Seq<u64>,
    width: u16,
    height: u16,
    i: int,
) -> Seq<BarCell> {
    let up = (height / 2) as u64;
    let down = (height - height / 2) as u64;
    column_spec(
        units_spec(window_spec(rx, width as nat), up, i),
        units_spec(window_spec(tx, width as nat), down, i),
        up,
        height as u64,
    )
}

/// Per-column sum of the receive and transmit samples shown, saturating at the
/// largest `u64`.
pub open spec fn combined_spec(rx: Seq<u64>, tx: Seq<u64>, width: nat) -> Seq<u64> {
    Seq::new(
        width,
        |i: int|
            if window_spec(rx, width)[i] + window_spec(tx, width)[i] > u64::MAX {
                u64::MAX
            } else {
                (window_spec(rx, width)[i] + window_spec(tx, width)[i]) as u64
            },
    )
}

/// Column `i` of the combined graph: one upward bar over the full height.
pub open spec fn combined_column_spec(
    rx: Seq<u64>,
    tx: Seq<u64>,
    width: u16,
    height: u16,
    i: int,
) -> Seq<BarCell> {
    column_spec(
        units_spec(combined_spec(rx, tx, width as nat), height as u64, i),
        0,
        height as u64,
        height as u64,
    )
}

/// The cells of one column, top to bottom.
pub fn bar_column(up_units: u64, down_units: u64, up_rows: u16, height: u16) -> (r: Vec<BarCell>)
    requires
        up_rows <= height,
    ensures
        r@ == column_spec(up_units, down_units, up_rows as u64, height as u64),
{
    let mut cells: Vec<BarCell> = Vec::new();
    let mut y: u16 = 0;
    while y < height
        invariant
            y <= height,
            up_rows <= height,
            cells@.len() == y,
            forall|k: int|
                0 <= k < y ==> #[trigger] cells@[k] == cell_spec(
                    up_units,
                    down_units,
                    up_rows as u64,
                    k as u64,
                ),
        decreases height - y,
    {
        let cell = if y < up_rows {
            let lvl = row_level(up_units, (up_rows - 1 - y) as u64);
            if lvl == 0 {
                BarCell::Blank
            } else {
                BarCell::Rx(lvl)
            }
        } else {
            let lvl = row_level(down_units, (y - up_rows) as u64);
            if lvl == 0 {
                BarCell::Blank
            } else {
                BarCell::Tx(8 - lvl)
            }
        };
        cells.push(cell);
        y = y + 1;
    }
    assert(cells@ =~= column_spec(up_units, down_units, up_rows as u64, height as u64));
    cells
}

/// The split graph of a receive and a transmit history, `width` columns of
/// `height` cells each. Column 0 is the newest sample and is drawn rightmost.
pub fn split_graph(rx: &[u64], tx: &[u64], width: u16, height: u16) -> (r: Vec<Vec<BarCell>>)
    ensures
        r@.len() == width,
        forall|i: int|
            0 <= i < width ==> #[trigger] r@[i]@ == split_column_spec(rx@, tx@, width, height, i),
{
    let rx_data = sparkline_data(rx, width);
    let tx_data = sparkline_data(tx, width);
    let max_rx = scale_of(rx_data.as_slice());
    let max_tx = scale_of(tx_data.as_slice());
    let up_rows: u16 = height / 2;
    let down_rows: u16 = height - up_rows;
    let up_units: u64 = up_rows as u64 * 8;
    let down_units: u64 = down_rows as u64 * 8;
    let mut columns: Vec<Vec<BarCell>> = Vec::new();
    let mut i: usize = 0;
    while i < width as usize
        invariant
            i <= width,
            rx_data@ == window_spec(rx@, width as nat),
            tx_data@ == window_spec(tx@, width as nat),
            max_rx == scale_max(rx_data@),
            max_tx == scale_max(tx_data@),
            up_rows == height / 2,
            down_rows == height - up_rows,
            up_units == up_rows * 8,
            down_units == down_rows * 8,
            columns@.len() == i,
            forall|k: int|
                0 <= k < i ==> #[trigger] columns@[k]@ == split_column_spec(
                    rx@,
                    tx@,
                    width,
                    height,
                    k,
                ),
        decreases width - i,
    {
        let rx_units = scale_units(rx_data[i], max_rx, up_units);
        let tx_units = scale_units(tx_data[i], max_tx, down_units);
        let col = bar_column(rx_units, tx_units, up_rows, height);
        columns.push(col);
        i = i + 1;
    }
    columns
}

/// Per-column sum of receive and transmit samples over a graph `width`
/// columns wide, saturating at the largest `u64`.
pub fn combined_data(rx: &[u64], tx: &[u64], width: u16) -> (r: Vec<u64>)
    ensures
        r@ == combined_spec(rx@, tx@, width as nat),
{
    let rx_data = sparkline_data(rx, width);
    let tx_data = sparkline_data(tx, width);
    let mut data: Vec<u64> = Vec::new();
    let mut i: usize = 0;
    while i < width as usize
        invariant
            i <= width,
            rx_data@ == window_spec(rx@, width as nat),
            tx_data@ == window_spec(tx@, width as nat),
            data@.len() == i,
            forall|k: int|
                0 <= k < i ==> #[trigger] data@[k] == combined_spec(rx@, tx@, width as nat)[k],
        decreases width - i,
    {
        data.push(rx_data[i].saturating_add(tx_data[i]));
        i = i + 1;
    }
    assert(data@ =~= combined_spec(rx@, tx@, width as nat));
    data
}

/// The combined graph: receive and transmit summed per column and drawn as
/// one upward bar chart over the full height. Column 0 is the newest sample.
pub fn combined_graph(rx: &[u64], tx: &[u64], width: u16, height: u16) -> (r: Vec<Vec<BarCell>>)
    ensures
        r@.len() == width,
        forall|i: int|
            0 <= i < width ==> #[trigger] r@[i]@ == combined_column_spec(
                rx@,
                tx@,
                width,
                height,
                i,
            ),
{
    let data = combined_data(rx, tx, width);
    let max = scale_of(data.as_slice());
    let units: u64 = height as u64 * 8;
    let mut columns: Vec<Vec<BarCell>> = Vec::new();
    let mut i: usize = 0;
    while i < width as usize
        invariant
            i <= width,
            data@ == combined_spec(rx@, tx@, width as nat),
            max == scale_max(data@),
            units == height * 8,
            columns@.len() == i,
            forall|k: int|
                0 <= k < i ==> #[trigger] columns@[k]@ == combined_column_spec(
                    rx@,
                    tx@,
                    width,
                    height,
                    k,
                ),
        decreases width - i,
    {
        let u = scale_units(data[i], max, units);
        let col = bar_column(u, 0, height, height);
        columns.push(col);
        i = i + 1;
    }
    columns
}

} // verus!
