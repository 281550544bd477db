//! Grid layout of the entries: three reserved slots in the first row, then
//! the applications row by row.

use vstd::prelude::*;

use crate::geometry::{Point, Size};

verus! {

/// Width of an entry at scale 1.
pub const ENTRY_WIDTH: u32 = 96;

/// Height of an entry at scale 1.
pub const ENTRY_HEIGHT: u32 = 112;

/// Minimum padding around entries at scale 1.
pub const MIN_PADDING: u32 = 8;

/// Icon size at scale 1.
pub const ICON_SIZE: u32 = 64;

/// `v` pixels at a scale given in 120ths, rounded to the nearest pixel.
pub open spec fn scaled(v: int, scale120: int) -> int {
    (v * scale120 + 60) / 120
}

pub open spec fn sat_sub(a: int, b: int) -> int {
    if a > b {
        a - b
    } else {
        0
    }
}

/// Column count: as many entries with their minimum padding as the width
/// holds, at least one.
pub open spec fn columns_spec(width: int, scale120: int) -> int {
    let mp = scaled(MIN_PADDING as int, scale120);
    let c = sat_sub(width, mp) / (scaled(ENTRY_WIDTH as int, scale120) + mp);
    if c < 1 {
        1
    } else {
        c
    }
}

/// Padding: the width left by the columns, shared by the gaps around them.
pub open spec fn padding_spec(width: int, scale120: int) -> int {
    let c = columns_spec(width, scale120);
    sat_sub(width, c * scaled(ENTRY_WIDTH as int, scale120)) / (c + 1)
}

/// Positions of the entries in a viewport of physical size `size`.
#[derive(Clone, Copy, Debug)]
pub struct Grid {
    pub entry_size: Size<u32>,
    pub padding: u32,
    pub columns: u32,
    /// Scale factor in 120ths.
    pub scale120: u32,
    pub size: Size<u32>,
}

/// Top-left corner of the entry at `index`: the power-off slot on the left
/// of the first row, the configuration slot centred, the reboot slot on the
/// right; then one entry per cell, row after row.
pub open spec fn origin_spec(g: Grid, index: int) -> (int, int) {
    let p = g.padding as int;
    let ew = g.entry_size.width as int;
    let eh = g.entry_size.height as int;
    let w = g.size.width as int;
    if index == 0 {
        (p, p)
    } else if index == 1 {
        (sat_sub(w, ew) / 2, p)
    } else if index == 2 {
        (sat_sub(w, p + ew), p)
    } else {
        let i = index - 3;
        let column = i % (g.columns as int);
        let row = i / (g.columns as int) + 1;
        ((ew + p) * column + p, (eh + p) * row + p)
    }
}

/// The entry under a point, if any: the configuration slot only within its
/// centred band, none in the padding between cells or right of the last
/// column.
pub open spec fn index_at_spec(g: Grid, px: int, py: int) -> Option<int> {
    let p = g.padding as int;
    let ew = g.entry_size.width as int;
    let eh = g.entry_size.height as int;
    let w = g.size.width as int;
    let cols = g.columns as int;
    if px < p || py < p {
        None
    } else {
        let x = px - p;
        let y = py - p;
        let column = x / (ew + p);
        let row = y / (eh + p);
        if row == 0 && column != 0 && column != cols - 1 {
            if px >= sat_sub(w, ew) / 2 && px < (w + ew) / 2 && y < eh {
                Some(1)
            } else {
                None
            }
        } else if x % (ew + p) >= ew || y % (eh + p) >= eh {
            None
        } else if row == 0 {
            if column == 0 {
                Some(0)
            } else {
                Some(2)
            }
        } else if column >= cols {
            None
        } else {
            Some((row - 1) * cols + column + 3)
        }
    }
}

/// Rows taken by `count` entries: the reserved row, then the application
/// rows that the entries beyond the three reserved slots fill.
pub open spec fn rows_spec(g: Grid, count: int) -> int {
    if count <= 3 {
        1
    } else {
        (count - 3 + g.columns as int - 1) / (g.columns as int) + 1
    }
}

/// Height of the content for `count` entries: every row with the padding
/// above it, and the padding below the last.
pub open spec fn total_height_spec(g: Grid, count: int) -> int {
    (g.entry_size.height as int + g.padding as int) * rows_spec(g, count) + g.padding as int
}

/// `v` pixels at a scale given in 120ths, rounded to the nearest pixel.
pub fn scale_px(v: u32, scale120: u32) -> (r: u32)
    requires
        v <= 112,
        scale120 <= 7680,
    ensures
        r as int == scaled(v as int, scale120 as int),
        r <= 7168,
{
    assert(v as u64 * scale120 as u64 <= 112 * 7680) by (nonlinear_arith)
        requires
            v <= 112,
            scale120 <= 7680,
    ;
    let r = ((v as u64 * scale120 as u64 + 60) / 120) as u32;
    r
}

impl Grid {
    pub open spec fn wf(&self) -> bool {
        &&& 1 <= self.columns
        &&& 1 <= self.entry_size.width <= 8192
        &&& 1 <= self.entry_size.height <= 8192
        &&& self.padding <= 0x8000_0000
        &&& 1 <= self.scale120 <= 7680
        &&& (self.entry_size.width + self.padding) * (self.columns - 1) + self.padding <= self.size.width
    }

    /// Layout for a viewport of physical size `size` at a scale factor given
    /// in 120ths (120 is scale 1), at most 64 so that positions fit 64 bits.
    pub fn new(size: Size<u32>, scale120: u32) -> (g: Self)
        requires
            1 <= scale120 <= 7680,
        ensures
            g.wf(),
            g.size == size,
            g.scale120 == scale120,
            g.entry_size.width == scaled(ENTRY_WIDTH as int, scale120 as int),
            g.entry_size.height == scaled(ENTRY_HEIGHT as int, scale120 as int),
            g.columns == columns_spec(size.width as int, scale120 as int),
            g.padding == padding_spec(size.width as int, scale120 as int),
    {
        let min_padding = scale_px(MIN_PADDING, scale120);
        let ew = scale_px(ENTRY_WIDTH, scale120);
        let eh = scale_px(ENTRY_HEIGHT, scale120);
        assert(ew >= 1 && eh >= 1) by (nonlinear_arith)
            requires
                ew as int == (96 * scale120 as int + 60) / 120,
                eh as int == (112 * scale120 as int + 60) / 120,
                scale120 >= 1,
        ;
        let avail: u32 = if size.width > min_padding {
            size.width - min_padding
        } else {
            0
        };
        let c = avail / (ew + min_padding);
        let columns: u32 = if c < 1 {
            1
        } else {
            c
        };
        assert(c as int * (ew as int + min_padding as int) <= avail) by (nonlinear_arith)
            requires
                c as int == avail as int / (ew as int + min_padding as int),
                ew + min_padding >= 1,
        ;
        assert(c as int * ew as int <= avail) by (nonlinear_arith)
            requires
                c as int * (ew as int + min_padding as int) <= avail,
                c >= 0,
                min_padding >= 0,
        ;
        assert(columns as u64 * ew as u64 <= 0xFFFF_FFFF * 8192) by (nonlinear_arith)
            requires
                columns <= 0xFFFF_FFFF,
                ew <= 8192,
        ;
        let used: u64 = columns as u64 * ew as u64;
        let rest: u64 = if size.width as u64 > used {
            size.width as u64 - used
        } else {
            0
        };
        let padding = (rest / (columns as u64 + 1)) as u32;
        assert(rest as int / (columns as int + 1) <= 0x8000_0000) by (nonlinear_arith)
            requires
                rest <= 0xFFFF_FFFF,
                columns >= 1,
        ;
        assert((ew as int + padding as int) * (columns as int - 1) + padding as int <= size.width as int) by (nonlinear_arith)
            requires
                padding as int == rest as int / (columns as int + 1),
                columns >= 1,
                columns == 1 || (columns as int * ew as int <= size.width as int && rest as int == size.width as int - columns as int * ew as int),
                rest <= size.width,
                ew >= 1,
        ;
        Grid { entry_size: Size::new(ew, eh), padding, columns, scale120, size }
    }

    /// Top-left corner of the entry at `index`.
    pub fn origin(&self, index: usize) -> (r: Point<u64>)
        requires
            self.wf(),
            index <= u32::MAX,
        ensures
            (r.x as int, r.y as int) == origin_spec(*self, index as int),
            r.x <= self.size.width,
    {
        let p = self.padding as u64;
        let ew = self.entry_size.width as u64;
        let eh = self.entry_size.height as u64;
        let w = self.size.width as u64;
        if index == 0 {
            Point::new(p, p)
        } else if index == 1 {
            let x = if w > ew {
                (w - ew) / 2
            } else {
                0
            };
            Point::new(x, p)
        } else if index == 2 {
            let x = if w > p + ew {
                w - (p + ew)
            } else {
                0
            };
            Point::new(x, p)
        } else {
            let i = index as u64 - 3;
            let cols = self.columns as u64;
            let column = i % cols;
            let row = i / cols + 1;
            assert((ew + p) * column + p <= w) by (nonlinear_arith)
                requires
                    (ew + p) * (cols - 1) + p <= w,
                    column < cols,
                    ew + p >= 0,
            ;
            assert((eh + p) * row + p <= 0x8000_2000 * 0x1_0000_0000 + 0x8000_0000) by (nonlinear_arith)
                requires
                    eh + p <= 0x8000_2000,
                    row as int == i as int / cols as int + 1,
                    i <= 0xFFFF_FFFF,
                    cols >= 1,
                    p <= 0x8000_0000,
            ;
            Point::new((ew + p) * column + p, (eh + p) * row + p)
        }
    }

    /// The entry under the physical point `point`, if any (and if its index
    /// fits a `usize`).
    pub fn index_at(&self, point: Point<u32>) -> (r: Option<usize>)
        requires
            self.wf(),
        ensures
            match r {
                Some(i) => index_at_spec(*self, point.x as int, point.y as int) == Some(i as int),
                None => index_at_spec(*self, point.x as int, point.y as int).is_none() || index_at_spec(
                    *self,
                    point.x as int,
                    point.y as int,
                ).unwrap() > usize::MAX,
            },
    {
        let p = self.padding as u64;
        let ew = self.entry_size.width as u64;
        let eh = self.entry_size.height as u64;
        let w = self.size.width as u64;
        let cols = self.columns as u64;
        let px = point.x as u64;
        let py = point.y as u64;
        if px < p || py < p {
            return None;
        }
        let x = px - p;
        let y = py - p;
        let column = x / (ew + p);
        let row = y / (eh + p);
        if row == 0 && column != 0 && column != cols - 1 {
            let low = if w > ew {
                (w - ew) / 2
            } else {
                0
            };
            if px >= low && px < (w + ew) / 2 && y < eh {
                return Some(1);
            } else {
                return None;
            }
        }
        if x % (ew + p) >= ew || y % (eh + p) >= eh {
            return None;
        }
        if row == 0 {
            if column == 0 {
                return Some(0);
            } else {
                return Some(2);
            }
        }
        if column >= cols {
            return None;
        }
        assert((row - 1) as int * cols as int <= 0xFFFF_FFFF * 0xFFFF_FFFF) by (nonlinear_arith)
            requires
                row as int == y as int / (eh as int + p as int),
                eh + p >= 1,
                y <= 0xFFFF_FFFF,
                row >= 1,
                cols <= 0xFFFF_FFFF,
        ;
        let index: u128 = (row - 1) as u128 * cols as u128 + column as u128 + 3;
        if index > usize::MAX as u128 {
            return None;
        }
        Some(index as usize)
    }

    /// Height of the content for `count` entries; every cell of those entries
    /// lies within it.
    pub fn total_height(&self, count: usize) -> (r: u64)
        requires
            self.wf(),
            count <= u32::MAX,
        ensures
            r as int == total_height_spec(*self, count as int),
            forall|i: int| 0 <= i < count ==> #[trigger] origin_spec(*self, i).1 + self.entry_size.height as int
                + self.padding as int <= r as int,
    {
        let cols = self.columns as u64;
        let rows: u64 = if count <= 3 {
            1
        } else {
            (count as u64 - 3 + cols - 1) / cols + 1
        };
        let eh = self.entry_size.height as u64;
        let p = self.padding as u64;
        assert(rows <= 0x1_0000_0000) by (nonlinear_arith)
            requires
                count <= 3 ==> rows == 1,
                count > 3 ==> rows as int == (count as int - 3 + cols as int - 1) / cols as int + 1,
                count <= 0xFFFF_FFFF,
                cols >= 1,
        ;
        assert((eh + p) * rows + p <= 0x8000_2000 * 0x1_0000_0000 + 0x8000_0000) by (nonlinear_arith)
            requires
                eh + p <= 0x8000_2000,
                rows <= 0x1_0000_0000,
                p <= 0x8000_0000,
        ;
        let r = (eh + p) * rows + p;
        assert forall|i: int| 0 <= i < count implies #[trigger] origin_spec(*self, i).1 + self.entry_size.height as int
            + self.padding as int <= r as int by {
            lemma_cell_within_height(*self, count as int, i);
        }
        r
    }
}

/// The cell of every one of `count` entries ends above the content height.
pub proof fn lemma_cell_within_height(g: Grid, count: int, i: int)
    requires
        g.wf(),
        0 <= i < count,
    ensures
        origin_spec(g, i).1 + g.entry_size.height as int + g.padding as int <= total_height_spec(g, count),
{
    let h = g.entry_size.height as int + g.padding as int;
    let p = g.padding as int;
    let cols = g.columns as int;
    let rows = rows_spec(g, count);
    if i < 3 {
        if count > 3 {
            assert((count - 3 + cols - 1) / cols >= 0) by (nonlinear_arith)
                requires
                    count > 3,
                    cols >= 1,
            ;
        }
        assert(h * rows >= h) by (nonlinear_arith)
            requires
                rows >= 1,
                h >= 0,
        ;
    } else {
        let row = (i - 3) / cols + 1;
        vstd::arithmetic::div_mod::lemma_div_plus_one(i - 3, cols);
        vstd::arithmetic::div_mod::lemma_div_is_ordered(cols + (i - 3), count - 3 + cols - 1, cols);
        assert(row + 1 <= rows);
        assert(h * row + h <= h * rows) by (nonlinear_arith)
            requires
                row + 1 <= rows,
                h >= 0,
        ;
    }
}

/// Hit-testing the origin of an application entry finds that entry.
pub proof fn lemma_hit_test_origin(g: Grid, i: int)
    requires
        g.wf(),
        3 <= i,
    ensures
        index_at_spec(g, origin_spec(g, i).0, origin_spec(g, i).1) == Some(i),
{
    let p = g.padding as int;
    let ew = g.entry_size.width as int;
    let eh = g.entry_size.height as int;
    let cols = g.columns as int;
    let k = i - 3;
    let column = k % cols;
    let q = k / cols;
    let row = q + 1;
    vstd::arithmetic::div_mod::lemma_fundamental_div_mod(k, cols);
    assert(0 <= column < cols) by {
        vstd::arithmetic::div_mod::lemma_mod_pos_bound(k, cols);
    }
    assert(q >= 0) by (nonlinear_arith)
        requires
            q == k / cols,
            k >= 0,
            cols >= 1,
    ;
    let x = (ew + p) * column;
    let y = (eh + p) * row;
    assert(x == column * (ew + p) + 0) by (nonlinear_arith)
        requires
            x == (ew + p) * column,
    ;
    assert(y == row * (eh + p) + 0) by (nonlinear_arith)
        requires
            y == (eh + p) * row,
    ;
    vstd::arithmetic::div_mod::lemma_fundamental_div_mod_converse(x, ew + p, column, 0);
    vstd::arithmetic::div_mod::lemma_fundamental_div_mod_converse(y, eh + p, row, 0);
    assert(x >= 0 && y >= 0) by (nonlinear_arith)
        requires
            x == (ew + p) * column,
            y == (eh + p) * row,
            ew + p >= 0,
            eh + p >= 0,
            column >= 0,
            row >= 0,
    ;
    assert((row - 1) * cols + column + 3 == i) by (nonlinear_arith)
        requires
            row == q + 1,
            k == cols * q + column,
            k == i - 3,
    ;
}

} // verus!
