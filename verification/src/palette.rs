//! The palette command: an image grows a strip below it that shows colours
//! sampled from its opaque pixels, in a grid of blocks.

use vstd::prelude::*;
use vstd::arithmetic::div_mod::{lemma_fundamental_div_mod, lemma_fundamental_div_mod_converse, lemma_mod_bound};
use crate::lisa::random_below;
use crate::text::{after_last_slash, decimal, last_segment, push_decimal, push_str, strip_whitespace, without_whitespace};

verus! {

/// Height of the empty band between the image and the palette.
pub const BORDER_WIDTH: u32 = 5;

/// How many colours a palette shows.
pub const NUM_COLORS: u32 = 8;

/// How many blocks one row of the palette holds.
pub const NUM_PER_COL: u32 = 4;

/// Directory that holds the images, under the working directory.
pub const DIRNAME: &'static str = "palette";

/// A pixel: red, green, blue and opacity.
#[derive(Clone, Copy, PartialEq, Eq, Structural, Debug)]
pub struct Rgba {
    pub r: u8,
    pub g: u8,
    pub b: u8,
    pub a: u8,
}

/// The pixel that a new canvas starts with.
pub open spec fn transparent() -> Rgba {
    Rgba { r: 0, g: 0, b: 0, a: 0 }
}

/// A rectangular image, held row by row.
pub struct Raster {
    width: u32,
    height: u32,
    rows: Vec<Vec<Rgba>>,
}

/// Every row has `width` pixels.
pub open spec fn rows_of_width(rows: Seq<Seq<Rgba>>, width: nat) -> bool {
    forall|y: int| 0 <= y < rows.len() ==> (#[trigger] rows[y]).len() == width
}

impl Raster {
    #[verifier::type_invariant]
    closed spec fn inv(self) -> bool {
        &&& self.rows.len() == self.height
        &&& forall|y: int| 0 <= y < self.rows.len() ==> (#[trigger] self.rows@[y])@.len() == self.width
    }

    /// The width in pixels.
    pub closed spec fn spec_width(self) -> nat {
        self.width as nat
    }

    /// The height in pixels.
    pub closed spec fn spec_height(self) -> nat {
        self.height as nat
    }

    /// The pixels, row by row from the top.
    pub closed spec fn spec_rows(self) -> Seq<Seq<Rgba>> {
        self.rows@.map_values(|row: Vec<Rgba>| row@)
    }

    /// `height` rows of `width` pixels each.
    pub open spec fn well_formed(self) -> bool {
        &&& self.spec_rows().len() == self.spec_height()
        &&& rows_of_width(self.spec_rows(), self.spec_width())
    }

    /// The pixel in column `x` of row `y`.
    pub open spec fn pixel(self, x: int, y: int) -> Rgba {
        self.spec_rows()[y][x]
    }

    /// An image from its rows: `None` unless every row has `width` pixels and
    /// the row count fits a `u32`.
    pub fn from_rows(width: u32, rows: Vec<Vec<Rgba>>) -> (image: Option<Raster>)
        ensures
            image is Some <==> (rows@.len() <= u32::MAX && rows_of_width(rows@.map_values(|row: Vec<Rgba>| row@), width as nat)),
            image matches Some(img) ==> {
                &&& img.well_formed()
                &&& img.spec_width() == width
                &&& img.spec_rows() == rows@.map_values(|row: Vec<Rgba>| row@)
            },
    {
        let ghost view = rows@.map_values(|row: Vec<Rgba>| row@);
        if rows.len() > u32::MAX as usize {
            return None;
        }
        let mut y: usize = 0;
        while y < rows.len()
            invariant
                y <= rows.len(),
                view == rows@.map_values(|row: Vec<Rgba>| row@),
                forall|k: int| 0 <= k < y ==> (#[trigger] rows@[k])@.len() == width,
            decreases rows.len() - y,
        {
            if rows[y].len() != width as usize {
                assert(view[y as int].len() != width);
                return None;
            }
            y = y + 1;
        }
        let height = rows.len() as u32;
        let img = Raster { width, height, rows };
        assert(img.spec_rows() == view);
        Some(img)
    }

    /// The width in pixels.
    pub fn width(&self) -> (w: u32)
        ensures
            w == self.spec_width(),
            self.well_formed(),
    {
        self.lemma_well_formed();
        self.width
    }

    /// The height in pixels.
    pub fn height(&self) -> (h: u32)
        ensures
            h == self.spec_height(),
    {
        self.height
    }

    /// Row `y`, from the left.
    pub fn row(&self, y: u32) -> (row: &Vec<Rgba>)
        requires
            y < self.spec_height(),
        ensures
            row@ == self.spec_rows()[y as int],
    {
        proof {
            use_type_invariant(self);
        }
        &self.rows[y as usize]
    }

    fn lemma_well_formed(&self)
        ensures
            self.well_formed(),
    {
        proof {
            use_type_invariant(self);
            assert forall|y: int| 0 <= y < self.spec_rows().len() implies (#[trigger] self.spec_rows()[y]).len() == self.spec_width() by {
                assert(self.spec_rows()[y] == self.rows@[y]@);
            }
        }
    }
}

/// Where the parts of a palettified image lie.
#[derive(Clone, Copy, PartialEq, Eq, Structural, Debug)]
pub struct PaletteLayout {
    /// Width of the whole canvas, that of the image.
    pub width: u32,
    /// Height of the whole canvas.
    pub height: u32,
    /// First row of the palette.
    pub palette_top: u32,
    /// Width of one colour block.
    pub block_width: u32,
    /// Height of one colour block.
    pub block_height: u32,
}

/// How many rows of blocks the palette has.
pub open spec fn num_rows() -> nat {
    (NUM_COLORS / NUM_PER_COL + if NUM_COLORS % NUM_PER_COL != 0 { 1nat } else { 0nat }) as nat
}

/// The layout for an image of `width` by `height` on a canvas `buffer_height` high.
pub open spec fn spec_layout(width: nat, height: nat, buffer_height: nat) -> PaletteLayout {
    let palette_height: int = buffer_height - height - BORDER_WIDTH;
    PaletteLayout {
        width: width as u32,
        height: buffer_height as u32,
        palette_top: (height + BORDER_WIDTH) as u32,
        block_width: (width / (NUM_PER_COL as nat)) as u32,
        block_height: (palette_height / (num_rows() as int)) as u32,
    }
}

/// Lays the palette out below an image of `width` by `height` on a canvas
/// `buffer_height` high, which leaves room for the border.
pub fn palette_layout(width: u32, height: u32, buffer_height: u32) -> (layout: PaletteLayout)
    requires
        buffer_height >= height + BORDER_WIDTH,
    ensures
        layout == spec_layout(width as nat, height as nat, buffer_height as nat),
{
    let palette_h = buffer_height - height - BORDER_WIDTH;
    let palette_loc = height + BORDER_WIDTH;
    let mut num_rows = NUM_COLORS / NUM_PER_COL;
    if NUM_COLORS % NUM_PER_COL != 0 {
        num_rows = num_rows + 1;
    }
    PaletteLayout {
        width,
        height: buffer_height,
        palette_top: palette_loc,
        block_width: width / NUM_PER_COL,
        block_height: palette_h / num_rows,
    }
}

/// Pixel `(x, y)` lies in block `n`: block `n` sits in column `n % NUM_PER_COL`
/// and row `n / NUM_PER_COL` of the palette grid.
pub open spec fn in_block(l: PaletteLayout, n: int, x: int, y: int) -> bool {
    let col = n % (NUM_PER_COL as int);
    let row = n / (NUM_PER_COL as int);
    &&& l.block_width * col <= x < l.block_width * (col + 1)
    &&& l.palette_top + l.block_height * row <= y < l.palette_top + l.block_height * (row + 1)
}

/// `out` is `input` with the palette of `colors` below it: the image on top,
/// block `n` filled with `colors[n]`, every other pixel transparent.
pub open spec fn paints(input: Seq<Seq<Rgba>>, l: PaletteLayout, colors: Seq<Rgba>, out: Seq<Seq<Rgba>>) -> bool {
    &&& out.len() == l.height
    &&& rows_of_width(out, l.width as nat)
    &&& forall|x: int, y: int| 0 <= x < l.width && 0 <= y < input.len() ==> #[trigger] out[y][x] == input[y][x]
    &&& forall|n: int, x: int, y: int| 0 <= n < NUM_COLORS && 0 <= x < l.width && 0 <= y < l.height
        && #[trigger] in_block(l, n, x, y) ==> out[y][x] == colors[n]
    &&& forall|x: int, y: int| 0 <= x < l.width && input.len() <= y < l.height
        && (forall|n: int| 0 <= n < NUM_COLORS ==> !#[trigger] in_block(l, n, x, y))
        ==> #[trigger] out[y][x] == transparent()
}

proof fn lemma_div_band(x: int, d: int, k: int)
    requires
        d > 0,
    ensures
        (d * k <= x && x < d * (k + 1)) <==> x / d == k,
{
    assert(d * (k + 1) == d * k + d) by (nonlinear_arith);
    assert(k * d == d * k) by (nonlinear_arith);
    lemma_fundamental_div_mod(x, d);
    lemma_mod_bound(x, d);
    if d * k <= x && x < d * (k + 1) {
        lemma_fundamental_div_mod_converse(x, d, k, x - d * k);
    }
}

/// The block that holds `(x, y)`, found by division.
pub open spec fn block_at(l: PaletteLayout, x: int, y: int) -> Option<int> {
    if l.block_width > 0 && l.block_height > 0 && y >= l.palette_top {
        let col = x / (l.block_width as int);
        let row = (y - l.palette_top) / (l.block_height as int);
        if col < NUM_PER_COL && row < num_rows() {
            Some(row * NUM_PER_COL + col)
        } else {
            None
        }
    } else {
        None
    }
}

proof fn lemma_block_at(l: PaletteLayout, x: int, y: int)
    requires
        x >= 0,
    ensures
        forall|n: int| 0 <= n < NUM_COLORS ==> (#[trigger] in_block(l, n, x, y) <==> block_at(l, x, y) == Some(n)),
        block_at(l, x, y) matches Some(n) ==> 0 <= n < NUM_COLORS,
{
    let bw = l.block_width as int;
    let bh = l.block_height as int;
    let top = l.palette_top as int;
    if block_at(l, x, y) matches Some(m) {
        lemma_div_pos(x, bw);
        lemma_div_pos(y - top, bh);
    }
    assert forall|n: int| 0 <= n < NUM_COLORS implies (#[trigger] in_block(l, n, x, y) <==> block_at(l, x, y) == Some(n)) by {
        let col = n % 4;
        let row = n / 4;
        assert(0 <= col < 4 && 0 <= row < 2 && n == row * 4 + col);
        if in_block(l, n, x, y) {
            if bw <= 0 {
                assert(bw * col == 0 && bw * (col + 1) == 0) by (nonlinear_arith)
                    requires bw == 0;
            }
            if bh <= 0 {
                assert(bh * row == 0 && bh * (row + 1) == 0) by (nonlinear_arith)
                    requires bh == 0;
            }
            assert(bw > 0 && bh > 0);
            assert(bh * row >= 0) by (nonlinear_arith)
                requires bh > 0, row >= 0;
            lemma_div_band(x, bw, col);
            lemma_div_band(y - top, bh, row);
        }
        if block_at(l, x, y) == Some(n) {
            let c = x / bw;
            let r = (y - top) / bh;
            lemma_div_pos(x, bw);
            lemma_div_pos(y - top, bh);
            assert(r * 4 + c == n);
            assert(c == col && r == row);
            lemma_div_band(x, bw, col);
            lemma_div_band(y - top, bh, row);
        }
    }
}

proof fn lemma_div_pos(x: int, d: int)
    requires
        x >= 0,
        d > 0,
    ensures
        x / d >= 0,
{
    lemma_fundamental_div_mod(x, d);
    lemma_mod_bound(x, d);
    if x / d < 0 {
        assert(d * (x / d) <= -d) by (nonlinear_arith)
            requires d > 0, x / d < 0;
    }
}

fn pixel_for(input: &Raster, l: PaletteLayout, colors: &Vec<Rgba>, x: u32, y: u32) -> (p: Rgba)
    requires
        colors.len() == NUM_COLORS,
        x < input.spec_width(),
        l.width == input.spec_width(),
        l.palette_top >= input.spec_height(),
    ensures
        y < input.spec_height() ==> p == input.pixel(x as int, y as int),
        y >= input.spec_height() ==> p == (match block_at(l, x as int, y as int) {
            Some(n) => colors@[n],
            None => transparent(),
        }),
{
    proof {
        use_type_invariant(input);
    }
    if y < input.height {
        return input.rows[y as usize][x as usize];
    }
    if l.block_width > 0 && l.block_height > 0 && y >= l.palette_top {
        let col = x / l.block_width;
        let row = (y - l.palette_top) / l.block_height;
        if col < NUM_PER_COL && row < 2 {
            return colors[(row * NUM_PER_COL + col) as usize];
        }
    }
    Rgba { r: 0, g: 0, b: 0, a: 0 }
}

/// What `paint_palette` puts at `(x, y)`.
pub open spec fn painted_pixel(input: Seq<Seq<Rgba>>, l: PaletteLayout, colors: Seq<Rgba>, x: int, y: int) -> Rgba {
    if y < input.len() {
        input[y][x]
    } else {
        match block_at(l, x, y) {
            Some(n) => colors[n],
            None => transparent(),
        }
    }
}

/// Draws the palettified image: `input` on a canvas `buffer_height` high,
/// with block `n` of the palette filled with `colors[n]`.
pub fn paint_palette(input: &Raster, buffer_height: u32, colors: &Vec<Rgba>) -> (out: Raster)
    requires
        colors.len() == NUM_COLORS,
        buffer_height >= input.spec_height() + BORDER_WIDTH,
    ensures
        out.well_formed(),
        out.spec_width() == input.spec_width(),
        out.spec_height() == buffer_height,
        paints(
            input.spec_rows(),
            spec_layout(input.spec_width(), input.spec_height(), buffer_height as nat),
            colors@,
            out.spec_rows(),
        ),
{
    proof {
        use_type_invariant(input);
    }
    input.lemma_well_formed();
    let w = input.width;
    let l = palette_layout(w, input.height, buffer_height);
    let ghost inp = input.spec_rows();
    let mut rows: Vec<Vec<Rgba>> = Vec::new();
    let mut y: u32 = 0;
    while y < buffer_height
        invariant
            y <= buffer_height,
            buffer_height >= input.spec_height() + BORDER_WIDTH,
            colors.len() == NUM_COLORS,
            l == spec_layout(input.spec_width(), input.spec_height(), buffer_height as nat),
            w == input.spec_width(),
            inp == input.spec_rows(),
            input.well_formed(),
            rows.len() == y,
            forall|yy: int, x: int| 0 <= yy < y && 0 <= x < w ==> (#[trigger] rows@[yy]@[x]) == painted_pixel(inp, l, colors@, x, yy),
            forall|yy: int| 0 <= yy < y ==> (#[trigger] rows@[yy])@.len() == w,
        decreases buffer_height - y,
    {
        let mut row: Vec<Rgba> = Vec::new();
        let mut x: u32 = 0;
        while x < w
            invariant
                x <= w,
                y < buffer_height,
                buffer_height >= input.spec_height() + BORDER_WIDTH,
                input.well_formed(),
                colors.len() == NUM_COLORS,
                l == spec_layout(input.spec_width(), input.spec_height(), buffer_height as nat),
                w == input.spec_width(),
                inp == input.spec_rows(),
                row.len() == x,
                forall|xx: int| 0 <= xx < x ==> (#[trigger] row@[xx]) == painted_pixel(inp, l, colors@, xx, y as int),
            decreases w - x,
        {
            let p = pixel_for(input, l, colors, x, y);
            row.push(p);
            x = x + 1;
        }
        rows.push(row);
        y = y + 1;
    }
    let out = Raster { width: w, height: buffer_height, rows };
    out.lemma_well_formed();
    proof {
        let o = out.spec_rows();
        assert forall|x: int, yy: int| 0 <= x < w && 0 <= yy < buffer_height implies #[trigger] o[yy][x] == painted_pixel(inp, l, colors@, x, yy) by {
            assert(o[yy] == out.rows@[yy]@);
        }
        assert forall|x: int, yy: int| 0 <= x < l.width && 0 <= yy < inp.len() implies #[trigger] o[yy][x] == inp[yy][x] by {
            assert(o[yy] == out.rows@[yy]@);
        }
        assert forall|n: int, x: int, yy: int| 0 <= n < NUM_COLORS && 0 <= x < l.width && 0 <= yy < l.height
            && #[trigger] in_block(l, n, x, yy) implies o[yy][x] == colors@[n] by {
            lemma_block_at(l, x, yy);
            assert(o[yy] == out.rows@[yy]@);
            assert(yy >= inp.len());
        }
        assert forall|x: int, yy: int| 0 <= x < l.width && inp.len() <= yy < l.height
            && (forall|n: int| 0 <= n < NUM_COLORS ==> !#[trigger] in_block(l, n, x, yy))
            implies #[trigger] o[yy][x] == transparent() by {
            lemma_block_at(l, x, yy);
            assert(o[yy] == out.rows@[yy]@);
            if let Some(n) = block_at(l, x, yy) {
                assert(in_block(l, n, x, yy));
            }
        }
    }
    out
}

/// The opaque pixels of a row, from the left.
pub open spec fn opaque_in_row(row: Seq<Rgba>) -> Seq<Rgba>
    decreases row.len(),
{
    if row.len() == 0 {
        row
    } else if row.last().a != 0 {
        opaque_in_row(row.drop_last()).push(row.last())
    } else {
        opaque_in_row(row.drop_last())
    }
}

/// The opaque pixels of an image, row by row from the top.
pub open spec fn opaque_in_rows(rows: Seq<Seq<Rgba>>) -> Seq<Rgba>
    decreases rows.len(),
{
    if rows.len() == 0 {
        Seq::empty()
    } else {
        opaque_in_rows(rows.drop_last()) + opaque_in_row(rows.last())
    }
}

/// Some pixel of the image is not fully transparent.
pub open spec fn has_opaque_pixel(rows: Seq<Seq<Rgba>>) -> bool {
    exists|y: int, x: int| 0 <= y < rows.len() && 0 <= x < rows[y].len() && (#[trigger] rows[y][x]).a != 0
}

/// `c` is the colour of some pixel of the image that is not fully transparent.
pub open spec fn is_opaque_pixel_of(rows: Seq<Seq<Rgba>>, c: Rgba) -> bool {
    &&& c.a != 0
    &&& exists|y: int, x: int| 0 <= y < rows.len() && 0 <= x < rows[y].len() && #[trigger] rows[y][x] == c
}

proof fn lemma_opaque_in_row(row: Seq<Rgba>)
    ensures
        forall|i: int| 0 <= i < opaque_in_row(row).len() ==> {
            &&& (#[trigger] opaque_in_row(row)[i]).a != 0
            &&& exists|x: int| 0 <= x < row.len() && row[x] == opaque_in_row(row)[i]
        },
        (exists|x: int| 0 <= x < row.len() && (#[trigger] row[x]).a != 0) ==> opaque_in_row(row).len() > 0,
    decreases row.len(),
{
    if row.len() > 0 {
        let prefix = row.drop_last();
        lemma_opaque_in_row(prefix);
        let list = opaque_in_row(row);
        let plist = opaque_in_row(prefix);
        assert forall|i: int| 0 <= i < list.len() implies {
            &&& (#[trigger] list[i]).a != 0
            &&& exists|x: int| 0 <= x < row.len() && row[x] == list[i]
        } by {
            if i < plist.len() {
                assert(list[i] == plist[i]);
                let x = choose|x: int| 0 <= x < prefix.len() && prefix[x] == plist[i];
                assert(row[x] == prefix[x]);
            } else {
                assert(row[row.len() - 1] == list[i]);
            }
        }
        if exists|x: int| 0 <= x < row.len() && (#[trigger] row[x]).a != 0 {
            let x = choose|x: int| 0 <= x < row.len() && (#[trigger] row[x]).a != 0;
            if x < row.len() - 1 {
                assert(prefix[x] == row[x]);
            }
        }
    }
}

proof fn lemma_opaque_in_rows(rows: Seq<Seq<Rgba>>)
    ensures
        forall|i: int| 0 <= i < opaque_in_rows(rows).len() ==> is_opaque_pixel_of(rows, #[trigger] opaque_in_rows(rows)[i]),
        has_opaque_pixel(rows) ==> opaque_in_rows(rows).len() > 0,
    decreases rows.len(),
{
    if rows.len() > 0 {
        let prefix = rows.drop_last();
        let last = rows.last();
        lemma_opaque_in_rows(prefix);
        lemma_opaque_in_row(last);
        let list = opaque_in_rows(rows);
        let plist = opaque_in_rows(prefix);
        let llist = opaque_in_row(last);
        assert(list == plist + llist);
        assert forall|i: int| 0 <= i < list.len() implies is_opaque_pixel_of(rows, #[trigger] list[i]) by {
            if i < plist.len() {
                assert(list[i] == plist[i]);
                assert(is_opaque_pixel_of(prefix, plist[i]));
                let (y, x) = choose|y: int, x: int| 0 <= y < prefix.len() && 0 <= x < prefix[y].len() && #[trigger] prefix[y][x] == plist[i];
                assert(rows[y] == prefix[y]);
                assert(rows[y][x] == list[i]);
            } else {
                assert(list[i] == llist[i - plist.len()]);
                let x = choose|x: int| 0 <= x < last.len() && last[x] == llist[i - plist.len()];
                assert(rows[rows.len() - 1] == last);
                assert(rows[rows.len() - 1][x] == list[i]);
            }
        }
        if has_opaque_pixel(rows) {
            let (y, x) = choose|y: int, x: int| 0 <= y < rows.len() && 0 <= x < rows[y].len() && (#[trigger] rows[y][x]).a != 0;
            if y < rows.len() - 1 {
                assert(prefix[y] == rows[y]);
                assert(prefix[y][x].a != 0);
                assert(has_opaque_pixel(prefix));
            } else {
                assert(last[x].a != 0);
            }
        }
    }
}

/// The colours of the image's opaque pixels, row by row from the top.
pub fn opaque_colors(image: &Raster) -> (colors: Vec<Rgba>)
    ensures
        colors@ == opaque_in_rows(image.spec_rows()),
{
    proof {
        use_type_invariant(image);
    }
    image.lemma_well_formed();
    let ghost rows = image.spec_rows();
    let mut colors: Vec<Rgba> = Vec::new();
    let mut y: usize = 0;
    while y < image.rows.len()
        invariant
            y <= image.rows.len(),
            rows == image.spec_rows(),
            rows.len() == image.rows.len(),
            colors@ == opaque_in_rows(rows.take(y as int)),
        decreases image.rows.len() - y,
    {
        let row = &image.rows[y];
        assert(rows[y as int] == row@);
        let mut x: usize = 0;
        while x < row.len()
            invariant
                x <= row.len(),
                colors@ == opaque_in_rows(rows.take(y as int)) + opaque_in_row(row@.take(x as int)),
            decreases row.len() - x,
        {
            assert(row@.take(x as int) == row@.take(x + 1).drop_last());
            let p = row[x];
            if p.a != 0 {
                colors.push(p);
            }
            assert(colors@ =~= opaque_in_rows(rows.take(y as int)) + opaque_in_row(row@.take(x + 1)));
            x = x + 1;
        }
        assert(row@.take(row.len() as int) == row@);
        assert(rows.take(y as int) == rows.take(y + 1).drop_last());
        y = y + 1;
    }
    assert(rows.take(rows.len() as int) == rows);
    colors
}

fn pick_color(colors: &Vec<Rgba>) -> (c: Rgba)
    requires
        colors.len() > 0,
    ensures
        colors@.contains(c),
{
    let k = random_below(colors.len() as u64) as usize;
    assert(colors@[k as int] == colors[k as int]);
    colors[k]
}

/// A colour drawn at random from the image's opaque pixels, each pixel as
/// likely as another. Whatever is drawn, it is the colour of an opaque pixel.
pub fn sample_color(image: &Raster) -> (c: Rgba)
    requires
        has_opaque_pixel(image.spec_rows()),
    ensures
        is_opaque_pixel_of(image.spec_rows(), c),
{
    let colors = opaque_colors(image);
    proof {
        lemma_opaque_in_rows(image.spec_rows());
    }
    let c = pick_color(&colors);
    proof {
        let i = choose|i: int| 0 <= i < colors@.len() && colors@[i] == c;
        assert(is_opaque_pixel_of(image.spec_rows(), opaque_in_rows(image.spec_rows())[i]));
    }
    c
}

/// The image with a palette of `NUM_COLORS` colours, each drawn at random from
/// its opaque pixels, on a canvas `buffer_height` high.
pub fn palettify_image(input: &Raster, buffer_height: u32) -> (out: Raster)
    requires
        has_opaque_pixel(input.spec_rows()),
        buffer_height >= input.spec_height() + BORDER_WIDTH,
    ensures
        out.well_formed(),
        out.spec_width() == input.spec_width(),
        out.spec_height() == buffer_height,
        exists|colors: Seq<Rgba>| {
            &&& colors.len() == NUM_COLORS
            &&& forall|n: int| 0 <= n < NUM_COLORS ==> is_opaque_pixel_of(input.spec_rows(), #[trigger] colors[n])
            &&& paints(
                input.spec_rows(),
                spec_layout(input.spec_width(), input.spec_height(), buffer_height as nat),
                colors,
                out.spec_rows(),
            )
        },
{
    let opaque = opaque_colors(input);
    proof {
        lemma_opaque_in_rows(input.spec_rows());
    }
    let mut colors: Vec<Rgba> = Vec::new();
    let mut n: u32 = 0;
    while n < NUM_COLORS
        invariant
            n <= NUM_COLORS,
            colors.len() == n,
            opaque@ == opaque_in_rows(input.spec_rows()),
            opaque.len() > 0,
            forall|i: int| 0 <= i < opaque@.len() ==> is_opaque_pixel_of(input.spec_rows(), #[trigger] opaque@[i]),
            forall|m: int| 0 <= m < n ==> is_opaque_pixel_of(input.spec_rows(), #[trigger] colors@[m]),
        decreases NUM_COLORS - n,
    {
        let c = pick_color(&opaque);
        proof {
            let i = choose|i: int| 0 <= i < opaque@.len() && opaque@[i] == c;
            assert(is_opaque_pixel_of(input.spec_rows(), opaque@[i]));
        }
        colors.push(c);
        n = n + 1;
    }
    paint_palette(input, buffer_height, &colors)
}

/// Where an image named `file_name` is kept: `./palette/<file_name>`.
pub open spec fn spec_image_path(file_name: Seq<char>) -> Seq<char> {
    "./"@ + DIRNAME@ + "/"@ + file_name
}

/// The path under which an image named `file_name` is kept.
pub fn image_path(file_name: &str) -> (path: String)
    ensures
        path@ == spec_image_path(file_name@),
{
    let mut path = String::new();
    push_str(&mut path, "./");
    push_str(&mut path, DIRNAME);
    push_str(&mut path, "/");
    push_str(&mut path, file_name);
    assert(path@ =~= spec_image_path(file_name@));
    path
}

/// What the palette command does with its argument: nothing where it is
/// empty; else it downloads from the argument with all white space removed,
/// into the image path named after the last `/`-separated piece of that address.
pub fn download_target(arg: &str) -> (target: Option<(String, String)>)
    ensures
        target is None <==> arg@.len() == 0,
        target matches Some((url, path)) ==> {
            &&& url@ == without_whitespace(arg@)
            &&& path@ == spec_image_path(after_last_slash(without_whitespace(arg@)))
        },
{
    if arg.is_empty() {
        return None;
    }
    let url = strip_whitespace(arg);
    let name = last_segment(url.as_str());
    let path = image_path(name.as_str());
    Some((url, path))
}

/// Where the palettified image is saved, named after the time in seconds.
pub open spec fn spec_output_path(seconds: nat) -> Seq<char> {
    "./palette/"@ + decimal(seconds) + ".jpg"@
}

/// The path for the palettified image made at `seconds` since the epoch.
pub fn output_path(seconds: u64) -> (path: String)
    ensures
        path@ == spec_output_path(seconds as nat),
{
    let mut path = String::new();
    push_str(&mut path, "./palette/");
    push_decimal(&mut path, seconds);
    push_str(&mut path, ".jpg");
    assert(path@ =~= spec_output_path(seconds as nat));
    path
}

} // verus!
