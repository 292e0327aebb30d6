//! Screen fingerprints: a 20 by 20 block of pixels is reduced to the
//! average light of each pixel (a cell), and a stored selection of cells is
//! compared with what the screen shows now.
use vstd::prelude::*;
use crate::dynamo::div_toward_zero;
use crate::sorting::{insert_pos, insertion_sorted, law_insertion_sorted, lemma_insert_pos, sorted_by};
use crate::text::{dec_nat, push_dec, push_str};

verus! {

/// The number of pixels across and down a block.
pub const WIDTH: usize = 20;

/// The number of cells in a block.
pub const TOTAL_CELLS: usize = 400;

/// One pixel of a block: its position in the block and its average light.
#[derive(Debug, Clone, Copy, PartialEq, Eq, Structural)]
pub struct Cell {
    pub index: usize,
    pub avg_light: u8,
}

/// The average of the three colour bytes.
pub open spec fn avg3(b: u8, g: u8, r: u8) -> u8 {
    ((b + g + r) / 3) as u8
}

/// The cell at position `i` of a block whose pixels are stored four bytes
/// each, blue, green and red first.
pub open spec fn cell_of(pixels: Seq<u8>, i: int) -> Cell {
    Cell {
        index: i as usize,
        avg_light: avg3(pixels[4 * i], pixels[4 * i + 1], pixels[4 * i + 2]),
    }
}

fn average(b: u8, g: u8, r: u8) -> (a: u8)
    ensures
        a == avg3(b, g, r),
{
    ((b as u32 + g as u32 + r as u32) / 3) as u8
}

/// The cells of a 20 by 20 block of pixels.
pub fn pixels_to_cells(pixels: &Vec<u8>) -> (cells: Vec<Cell>)
    requires
        pixels@.len() >= 4 * (TOTAL_CELLS - 1) + 3,
    ensures
        cells@.len() == TOTAL_CELLS,
        forall|i: int| 0 <= i < TOTAL_CELLS ==> #[trigger] cells@[i] == cell_of(pixels@, i),
{
    let mut cells: Vec<Cell> = Vec::new();
    let mut i: usize = 0;
    while i < TOTAL_CELLS
        invariant
            pixels@.len() >= 4 * (TOTAL_CELLS - 1) + 3,
            i <= TOTAL_CELLS,
            cells@.len() == i,
            forall|m: int| 0 <= m < i ==> #[trigger] cells@[m] == cell_of(pixels@, m),
        decreases TOTAL_CELLS - i,
    {
        let pi = i * 4;
        let avg = average(pixels[pi], pixels[pi + 1], pixels[pi + 2]);
        cells.push(Cell { index: i, avg_light: avg });
        i = i + 1;
    }
    cells
}

/// A table cell painted in the colour `(r, g, b)`.
pub open spec fn color_td(r: u8, g: u8, b: u8) -> Seq<char> {
    "<td style=\"background-color:rgb("@ + dec_nat(r as nat) + ","@ + dec_nat(g as nat) + ","@
        + dec_nat(b as nat) + ");width:20;height:20\"></td>"@
}

/// The table cell for `cell`, painted with the colour of the pixel it names.
pub open spec fn cell_td(pixels: Seq<u8>, cell: Cell) -> Seq<char> {
    let pi = cell.index * 4;
    color_td(pixels[pi + 2], pixels[pi + 1], pixels[pi])
}

/// The rows of an HTML table for the first `n` cells, twenty to a row; a
/// row is opened before each twentieth cell and closed before the next
/// opens.
pub open spec fn html_rows(pixels: Seq<u8>, cells: Seq<Cell>, n: nat) -> Seq<char>
    decreases n,
{
    if n == 0 {
        Seq::empty()
    } else {
        let i = (n - 1) as nat;
        html_rows(pixels, cells, i) + (if i % 20 == 0 {
            (if i > 0 {
                "</tr>\n"@
            } else {
                Seq::empty()
            }) + "<tr>"@
        } else {
            Seq::empty()
        }) + cell_td(pixels, cells[i as int])
    }
}

fn push_td(s: &mut String, r: u8, g: u8, b: u8)
    ensures
        final(s)@ == old(s)@ + color_td(r, g, b),
{
    let ghost start = s@;
    push_str(s, "<td style=\"background-color:rgb(");
    push_dec(s, r as u128);
    push_str(s, ",");
    push_dec(s, g as u128);
    push_str(s, ",");
    push_dec(s, b as u128);
    push_str(s, ");width:20;height:20\"></td>");
    assert(s@ =~= start + color_td(r, g, b));
}

/// Every one of the first 400 cells names a pixel within `pixels`.
pub open spec fn cells_within(pixels: Seq<u8>, cells: Seq<Cell>) -> bool {
    cells.len() >= TOTAL_CELLS && forall|i: int|
        0 <= i < TOTAL_CELLS ==> (#[trigger] cells[i]).index * 4 + 2 < pixels.len()
}

/// An HTML table showing the pixels that the cells name, in the order of
/// the cells, twenty to a row.
pub fn rgb_to_html(pixels: &Vec<u8>, cells: &Vec<Cell>) -> (s: String)
    requires
        cells_within(pixels@, cells@),
    ensures
        s@ == html_rows(pixels@, cells@, TOTAL_CELLS as nat) + "</tr>\n"@,
{
    let mut s = String::new();
    let mut i: usize = 0;
    while i < TOTAL_CELLS
        invariant
            cells_within(pixels@, cells@),
            i <= TOTAL_CELLS,
            s@ == html_rows(pixels@, cells@, i as nat),
        decreases TOTAL_CELLS - i,
    {
        let ghost before = s@;
        if i % 20 == 0 {
            if i > 0 {
                push_str(&mut s, "</tr>\n");
            }
            push_str(&mut s, "<tr>");
        }
        let ghost mid = s@;
        let n = pixels.len();
        assert(cells@[i as int].index * 4 + 2 < n);
        let pi = cells[i].index * 4;
        push_td(&mut s, pixels[pi + 2], pixels[pi + 1], pixels[pi]);
        assert(s@ =~= html_rows(pixels@, cells@, (i + 1) as nat));
        i = i + 1;
    }
    push_str(&mut s, "</tr>\n");
    s
}

/// A locked screen surface: its pixels as 32-bit words (blue, green, red
/// and alpha bytes, lowest first) and the length of a row in bytes.
#[derive(Debug)]
pub struct LockedRect {
    pub bits: Vec<u32>,
    pub pitch: i32,
}

/// Byte `k` (0 is the lowest) of `v`.
pub open spec fn byte_of(v: u32, k: nat) -> u8 {
    if k == 0 {
        (v % 256) as u8
    } else if k == 1 {
        ((v / 256) % 256) as u8
    } else if k == 2 {
        ((v / 65536) % 256) as u8
    } else {
        (v / 16777216) as u8
    }
}

/// The position in `bits` of the pixel in row `i` and column `j`.
pub open spec fn pixel_index(pitch: i32, i: int, j: int) -> int {
    i * div_toward_zero(pitch as int, 4) + j
}

/// The pixel in row `i` and column `j` lies within the surface, and finding
/// it does not overflow.
pub open spec fn pixel_ok(rect: LockedRect, i: int, j: int) -> bool {
    &&& i32::MIN <= i * div_toward_zero(rect.pitch as int, 4) <= i32::MAX
    &&& 0 <= pixel_index(rect.pitch, i, j) < rect.bits@.len()
    &&& pixel_index(rect.pitch, i, j) <= i32::MAX
}

/// The block of `width` by `height` pixels at `(x, y)` lies within the
/// surface, and none of the `i32` arithmetic that finds its pixels
/// overflows.
pub open spec fn block_within(rect: LockedRect, x: i32, y: i32, width: u32, height: u32) -> bool {
    &&& width <= i32::MAX
    &&& height <= i32::MAX
    &&& width * height <= u32::MAX
    &&& x + width <= i32::MAX
    &&& y + height <= i32::MAX
    &&& forall|i: int, j: int|
        y <= i < y + height && x <= j < x + width ==> #[trigger] pixel_ok(rect, i, j)
}

/// The pixel that cell `ci` of the block at `(x, y)`, `width` pixels wide,
/// shows: cells run along the rows, row after row.
pub open spec fn block_pixel(rect: LockedRect, x: i32, y: i32, width: u32, ci: int) -> u32 {
    rect.bits@[pixel_index(rect.pitch, y + ci / (width as int), x + ci % (width as int))]
}

/// The cell `ci` of the block at `(x, y)`, `width` pixels wide.
pub open spec fn block_cell(rect: LockedRect, x: i32, y: i32, width: u32, ci: int) -> Cell {
    let v = block_pixel(rect, x, y, width, ci);
    Cell { index: ci as usize, avg_light: avg3(byte_of(v, 0), byte_of(v, 1), byte_of(v, 2)) }
}

fn quarter_pitch(pitch: i32) -> (q: i64)
    ensures
        q == div_toward_zero(pitch as int, 4),
{
    let p = pitch as i64;
    if p < 0 {
        0 - ((0 - p) / 4)
    } else {
        p / 4
    }
}

impl LockedRect {
    /// The position in `bits` of the pixel that cell `ci` shows.
    fn block_index(&self, x: i32, y: i32, width: u32, height: u32, ci: u32) -> (k: usize)
        requires
            block_within(*self, x, y, width, height),
            0 < width,
            ci < width * height,
        ensures
            k == pixel_index(self.pitch, y + (ci as int) / (width as int), x + (ci as int) % (width as int)),
            k < self.bits@.len(),
    {
        let row = ci / width;
        let col = ci % width;
        assert(row < height) by (nonlinear_arith)
            requires
                row == ci / width,
                ci < width * height,
                width > 0,
        ;
        let i = y as i64 + row as i64;
        let j = x as i64 + col as i64;
        let q = quarter_pitch(self.pitch);
        assert(y <= i < y + height && x <= j < x + width);
        assert(pixel_ok(*self, i as int, j as int));
        assert(i32::MIN <= i * div_toward_zero(self.pitch as int, 4) <= i32::MAX);
        let k = i * q + j;
        k as usize
    }

    /// Whether the block of `width` by `height` pixels at `(x, y)` lies
    /// within the surface, its arithmetic free of overflow (`block_within`).
    pub fn fits(&self, x: i32, y: i32, width: u32, height: u32) -> (b: bool)
        ensures
            b == block_within(*self, x, y, width, height),
    {
        if width > 2147483647u32 || height > 2147483647u32 {
            return false;
        }
        assert((width as u64) * (height as u64) <= 4611686014132420609u64) by (nonlinear_arith)
            requires
                width <= 2147483647,
                height <= 2147483647,
        ;
        if (width as u64) * (height as u64) > 4294967295u64 {
            return false;
        }
        if x as i64 + width as i64 > 2147483647i64 || y as i64 + height as i64 > 2147483647i64 {
            return false;
        }
        if width == 0 || height == 0 {
            return true;
        }
        let q = quarter_pitch(self.pitch);
        assert(-536870912 <= q <= 536870911);
        let len = self.bits.len() as u64;
        let end = y as i64 + height as i64;
        let mut i: i64 = y as i64;
        while i < end
            invariant
                y <= i <= end,
                end == y + height,
                end <= 2147483647,
                width > 0,
                q == div_toward_zero(self.pitch as int, 4),
                -536870912 <= q <= 536870911,
                len == self.bits@.len(),
                forall|r: int, j: int|
                    y <= r < i && x <= j < x + width ==> #[trigger] pixel_ok(*self, r, j),
            decreases end - i,
        {
            assert(-1152921504606846976 <= i * q <= 1152921504606846976) by (nonlinear_arith)
                requires
                    -2147483648 <= i <= 2147483647,
                    -536870912 <= q <= 536870911,
            ;
            let t = i * q;
            let lo = t + x as i64;
            let hi = t + x as i64 + width as i64 - 1;
            if t < -2147483648i64 || t > 2147483647i64 || lo < 0 || hi as u64 >= len || hi
                > 2147483647i64 {
                proof {
                    let jj: int = if t < -2147483648i64 || t > 2147483647i64 || lo < 0 {
                        x as int
                    } else {
                        x + width - 1
                    };
                    assert(pixel_index(self.pitch, i as int, jj) == t + jj);
                    assert(!pixel_ok(*self, i as int, jj));
                }
                return false;
            }
            assert forall|r: int, j: int| y <= r < i + 1 && x <= j < x + width implies #[trigger] pixel_ok(
                *self,
                r,
                j,
            ) by {
                if r == i {
                    assert(pixel_index(self.pitch, r, j) == t + j);
                }
            }
            i = i + 1;
        }
        true
    }

    /// The cells of the block of `width` by `height` pixels at `(x, y)`,
    /// row after row; the average light of a pixel is that of its blue,
    /// green and red bytes.
    pub fn list_cells(&self, x: i32, y: i32, width: u32, height: u32) -> (list: Vec<Cell>)
        requires
            block_within(*self, x, y, width, height),
        ensures
            list@.len() == width * height,
            forall|ci: int|
                0 <= ci < width * height ==> #[trigger] list@[ci] == block_cell(
                    *self,
                    x,
                    y,
                    width,
                    ci,
                ),
    {
        let mut list: Vec<Cell> = Vec::new();
        let n = width * height;
        let mut ci: u32 = 0;
        while ci < n
            invariant
                block_within(*self, x, y, width, height),
                n == width * height,
                ci <= n,
                list@.len() == ci,
                forall|m: int|
                    0 <= m < ci ==> #[trigger] list@[m] == block_cell(*self, x, y, width, m),
            decreases n - ci,
        {
            assert(width > 0) by (nonlinear_arith)
                requires
                    ci < width * height,
            ;
            let k = self.block_index(x, y, width, height, ci);
            let v = self.bits[k];
            let b = (v % 256) as u8;
            let g = ((v / 256) % 256) as u8;
            let r = ((v / 65536) % 256) as u8;
            let avg = average(b, g, r);
            list.push(Cell { index: ci as usize, avg_light: avg });
            ci = ci + 1;
        }
        list
    }

    /// An HTML page showing the block of `width` by `height` pixels at
    /// `(x, y)`, one table cell of one pixel for each, row after row.
    pub fn write_html(&self, x: i32, y: i32, width: u32, height: u32) -> (html: String)
        requires
            block_within(*self, x, y, width, height),
        ensures
            html@ == "<html><body><table border=\"0\" cellspacing=\"0\" cellpadding=\"0\">"@
                + block_rows(*self, x, y, width, height as nat) + "</table></body></html>"@,
    {
        let mut html = String::new();
        push_str(&mut html, "<html><body><table border=\"0\" cellspacing=\"0\" cellpadding=\"0\">");
        let ghost head = html@;
        let mut row: u32 = 0;
        while row < height
            invariant
                block_within(*self, x, y, width, height),
                row <= height,
                html@ == head + block_rows(*self, x, y, width, row as nat),
            decreases height - row,
        {
            let ghost before = html@;
            push_str(&mut html, "<tr>");
            let mut col: u32 = 0;
            while col < width
                invariant
                    block_within(*self, x, y, width, height),
                    row < height,
                    col <= width,
                    html@ == before + "<tr>"@ + row_cells(*self, x, y, row as nat, col as nat),
                decreases width - col,
            {
                let v = self.pixel_at(x, y, width, height, row, col);
                let b = (v % 256) as u8;
                let g = ((v / 256) % 256) as u8;
                let r = ((v / 65536) % 256) as u8;
                let a = (v / 16777216) as u8;
                push_rgba_td(&mut html, r, g, b, a);
                col = col + 1;
            }
            push_str(&mut html, "</tr>");
            row = row + 1;
            assert(html@ =~= head + block_rows(*self, x, y, width, row as nat));
        }
        push_str(&mut html, "</table></body></html>");
        html
    }

    /// The pixel in row `row` and column `col` of the block at `(x, y)`.
    fn pixel_at(&self, x: i32, y: i32, width: u32, height: u32, row: u32, col: u32) -> (v: u32)
        requires
            block_within(*self, x, y, width, height),
            row < height,
            col < width,
        ensures
            v == self.bits@[pixel_index(self.pitch, y + row, x + col)],
    {
        let i = y as i64 + row as i64;
        let j = x as i64 + col as i64;
        let q = quarter_pitch(self.pitch);
        assert(y <= i < y + height && x <= j < x + width);
        assert(pixel_ok(*self, i as int, j as int));
        assert(i32::MIN <= i * div_toward_zero(self.pitch as int, 4) <= i32::MAX);
        let k = i * q + j;
        self.bits[k as usize]
    }
}

/// A one-pixel table cell painted in the colour `(r, g, b, a)`.
pub open spec fn rgba_td(r: u8, g: u8, b: u8, a: u8) -> Seq<char> {
    "<td style=\"width:1px;height:1px;background-color:rgba("@ + dec_nat(r as nat) + ","@ + dec_nat(
        g as nat,
    ) + ","@ + dec_nat(b as nat) + ","@ + dec_nat(a as nat) + ")\"></td>"@
}

/// The table cell for a pixel.
pub open spec fn pixel_td(v: u32) -> Seq<char> {
    rgba_td(byte_of(v, 2), byte_of(v, 1), byte_of(v, 0), byte_of(v, 3))
}

/// The cells of the first `n` pixels of row `row` of the block at `(x, y)`.
pub open spec fn row_cells(rect: LockedRect, x: i32, y: i32, row: nat, n: nat) -> Seq<char>
    decreases n,
{
    if n == 0 {
        Seq::empty()
    } else {
        row_cells(rect, x, y, row, (n - 1) as nat) + pixel_td(
            rect.bits@[pixel_index(rect.pitch, y + row, x + n - 1)],
        )
    }
}

/// The first `n` rows of the block at `(x, y)`, `width` pixels wide.
pub open spec fn block_rows(rect: LockedRect, x: i32, y: i32, width: u32, n: nat) -> Seq<char>
    decreases n,
{
    if n == 0 {
        Seq::empty()
    } else {
        block_rows(rect, x, y, width, (n - 1) as nat) + "<tr>"@ + row_cells(
            rect,
            x,
            y,
            (n - 1) as nat,
            width as nat,
        ) + "</tr>"@
    }
}

fn push_rgba_td(s: &mut String, r: u8, g: u8, b: u8, a: u8)
    ensures
        final(s)@ == old(s)@ + rgba_td(r, g, b, a),
{
    let ghost start = s@;
    push_str(s, "<td style=\"width:1px;height:1px;background-color:rgba(");
    push_dec(s, r as u128);
    push_str(s, ",");
    push_dec(s, g as u128);
    push_str(s, ",");
    push_dec(s, b as u128);
    push_str(s, ",");
    push_dec(s, a as u128);
    push_str(s, ")\"></td>");
    assert(s@ =~= start + rgba_td(r, g, b, a));
}

/// Whether `a` may stand before `b` in a fingerprint's ordering: it is at
/// least as bright.
pub open spec fn brighter_first() -> spec_fn(Cell, Cell) -> bool {
    |a: Cell, b: Cell| a.avg_light >= b.avg_light
}

/// The cells ordered from the brightest to the darkest by a stable sort:
/// cells of equal light keep their order. The result is ordered and holds
/// each cell as often as `cells` does.
pub fn sort_cells(cells: &Vec<Cell>) -> (out: Vec<Cell>)
    ensures
        out@ == insertion_sorted(cells@, brighter_first()),
        sorted_by(out@, brighter_first()),
        out@.to_multiset() == cells@.to_multiset(),
{
    let ghost le = brighter_first();
    let mut out: Vec<Cell> = Vec::new();
    let mut i: usize = 0;
    while i < cells.len()
        invariant
            i <= cells@.len(),
            le == brighter_first(),
            out@ == insertion_sorted(cells@.take(i as int), le),
        decreases cells@.len() - i,
    {
        let x = cells[i];
        let ghost t = out@;
        proof {
            lemma_insert_pos(t, x, le, 0);
        }
        let mut p: usize = 0;
        while p < out.len() && out[p].avg_light >= x.avg_light
            invariant
                p <= out@.len(),
                t == out@,
                le == brighter_first(),
                0 <= p <= insert_pos(t, x, le, 0),
                insert_pos(t, x, le, 0) == insert_pos(t, x, le, p as int),
            decreases out@.len() - p,
        {
            proof {
                lemma_insert_pos(t, x, le, p + 1);
            }
            p = p + 1;
        }
        out.insert(p, x);
        proof {
            assert(cells@.take(i + 1).drop_last() =~= cells@.take(i as int));
            assert(cells@.take(i + 1).last() == x);
        }
        i = i + 1;
    }
    assert(cells@.take(i as int) =~= cells@);
    proof {
        law_insertion_sorted(cells@, le);
    }
    out
}

/// The cells a fingerprint keeps of a sorted block: the first fifty and the
/// last fifty.
pub fn fingerprint_table(sorted: &Vec<Cell>) -> (table: Vec<Cell>)
    requires
        sorted@.len() >= 50,
    ensures
        table@ == sorted@.take(50) + sorted@.skip(sorted@.len() - 50),
{
    let mut table: Vec<Cell> = Vec::new();
    let mut i: usize = 0;
    while i < 50
        invariant
            sorted@.len() >= 50,
            i <= 50,
            table@ == sorted@.take(i as int),
        decreases 50 - i,
    {
        table.push(sorted[i]);
        i = i + 1;
        assert(table@ =~= sorted@.take(i as int));
    }
    let n = sorted.len();
    let mut j: usize = n - 50;
    while j < n
        invariant
            n == sorted@.len(),
            n >= 50,
            n - 50 <= j <= n,
            table@ == sorted@.take(50) + sorted@.subrange(n - 50, j as int),
        decreases n - j,
    {
        table.push(sorted[j]);
        j = j + 1;
        assert(table@ =~= sorted@.take(50) + sorted@.subrange(n - 50, j as int));
    }
    assert(sorted@.subrange(n - 50, n as int) =~= sorted@.skip(n - 50));
    table
}

/// How close a stored cell's light is to the light of the cell it names:
/// what a cell scores is added up in floating point by the caller.
#[derive(Debug, Clone, Copy, PartialEq, Eq, Structural)]
pub enum Tier {
    /// Within 12 (a twentieth of 255).
    Close,
    /// Within 51 (a fifth of 255), but not within 12.
    Near,
    /// Further away.
    Far,
}

/// The tier of a stored cell of light `fp_avg` against a cell of light `avg`.
pub open spec fn tier(avg: int, fp_avg: int) -> Tier {
    if avg - 12 <= fp_avg <= avg + 12 {
        Tier::Close
    } else if avg - 51 <= fp_avg <= avg + 51 {
        Tier::Near
    } else {
        Tier::Far
    }
}

/// Every stored cell names a cell of the block.
pub open spec fn table_within(table: Seq<Cell>, n: nat) -> bool {
    forall|k: int| 0 <= k < table.len() ==> (#[trigger] table[k]).index < n
}

/// Whether every cell of `table` names one of the first `n` cells of a
/// block (`table_within`).
pub fn table_fits(table: &Vec<Cell>, n: usize) -> (b: bool)
    ensures
        b == table_within(table@, n as nat),
{
    let mut k: usize = 0;
    while k < table.len()
        invariant
            k <= table@.len(),
            forall|m: int| 0 <= m < k ==> (#[trigger] table@[m]).index < n,
        decreases table@.len() - k,
    {
        if table[k].index >= n {
            return false;
        }
        k = k + 1;
    }
    true
}

/// The tier of each stored cell of `table` against the cell of `cells` it
/// names, in the order of the table.
pub fn tiers(table: &Vec<Cell>, cells: &Vec<Cell>) -> (r: Vec<Tier>)
    requires
        table_within(table@, cells@.len()),
    ensures
        r@.len() == table@.len(),
        forall|k: int|
            0 <= k < table@.len() ==> #[trigger] r@[k] == tier(
                cells@[table@[k].index as int].avg_light as int,
                table@[k].avg_light as int,
            ),
{
    let mut r: Vec<Tier> = Vec::new();
    let mut k: usize = 0;
    while k < table.len()
        invariant
            table_within(table@, cells@.len()),
            k <= table@.len(),
            r@.len() == k,
            forall|m: int|
                0 <= m < k ==> #[trigger] r@[m] == tier(
                    cells@[table@[m].index as int].avg_light as int,
                    table@[m].avg_light as int,
                ),
        decreases table@.len() - k,
    {
        let fpcell = table[k];
        assert(fpcell.index < cells@.len());
        let a = cells[fpcell.index].avg_light as i32;
        let f = fpcell.avg_light as i32;
        let t = if f >= a - 12 && f <= a + 12 {
            Tier::Close
        } else if f >= a - 51 && f <= a + 51 {
            Tier::Near
        } else {
            Tier::Far
        };
        r.push(t);
        k = k + 1;
    }
    r
}

/// Law: the table cell written for a pixel word shows its red, green, blue
/// and alpha bytes (the third, second, first and fourth from the lowest),
/// in that order.
pub proof fn law_pixel_td_components(v: u32)
    ensures
        pixel_td(v) == "<td style=\"width:1px;height:1px;background-color:rgba("@ + dec_nat(
            ((v / 65536) % 256) as nat,
        ) + ","@ + dec_nat(((v / 256) % 256) as nat) + ","@ + dec_nat((v % 256) as nat) + ","@
            + dec_nat((v / 16777216) as nat) + ")\"></td>"@,
{
    assert(v / 16777216 < 256);
}

/// Law: the light of a cell listed from a surface is the mean of its
/// pixel's blue, green and red bytes, rounded down, and the cell carries
/// its own position.
pub proof fn law_block_cell_light(rect: LockedRect, x: i32, y: i32, width: u32, ci: int)
    requires
        0 <= ci <= usize::MAX,
    ensures
        block_cell(rect, x, y, width, ci).index == ci,
        block_cell(rect, x, y, width, ci).avg_light as int == ({
            let v = block_pixel(rect, x, y, width, ci);
            (v % 256 + (v / 256) % 256 + (v / 65536) % 256) / 3
        }),
{
}

/// Law: the light of a cell made from raw pixels is the mean of the blue,
/// green and red bytes of its four, rounded down.
pub proof fn law_cell_of_light(pixels: Seq<u8>, i: int)
    requires
        0 <= i <= usize::MAX,
        4 * i + 2 < pixels.len(),
    ensures
        cell_of(pixels, i).index == i,
        cell_of(pixels, i).avg_light as int == (pixels[4 * i] + pixels[4 * i + 1] + pixels[4 * i + 2]) / 3,
{
}

/// Law: the tier depends on the distance between the two lights alone:
/// close within 12, near from 13 to 51, far beyond.
pub proof fn law_tier_by_distance(avg: int, fp_avg: int)
    ensures
        ({
            let dist = if avg >= fp_avg {
                avg - fp_avg
            } else {
                fp_avg - avg
            };
            &&& (dist <= 12 <==> tier(avg, fp_avg) == Tier::Close)
            &&& (12 < dist <= 51 <==> tier(avg, fp_avg) == Tier::Near)
            &&& (51 < dist <==> tier(avg, fp_avg) == Tier::Far)
        }),
{
}

} // verus!
