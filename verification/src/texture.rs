//! Texture buffers for the DMA2D engine: pixel addressing, and an atlas that
//! hands out fixed-size cells of a texture.

use vstd::prelude::*;

verus! {

/// DMA2D pixel formats.
#[derive(Debug, Clone, Copy, PartialEq, Eq)]
pub enum PixelFormat {
    Argb8888,
    Rgb888,
    Rgb565,
    Argb1555,
    Argb4444,
    L8,
    Al44,
    Al88,
    L4,
    A8,
    A4,
}

/// Bytes per row of a `width`-pixel texture, for the formats whose rows are
/// whole bytes that textures support.
pub open spec fn spec_stride_bytes(width: u32, format: PixelFormat) -> Option<nat> {
    match format {
        PixelFormat::A8 | PixelFormat::L8 => Some(width as nat),
        PixelFormat::Rgb565 => Some(width as nat * 2),
        PixelFormat::Argb8888 => Some(width as nat * 4),
        PixelFormat::A4 => Some((width as nat + 1) / 2),
        _ => None,
    }
}

/// Bytes per pixel of the formats with whole-byte pixels that textures support.
pub open spec fn spec_bytes_per_pixel(format: PixelFormat) -> Option<nat> {
    match format {
        PixelFormat::A8 | PixelFormat::L8 => Some(1),
        PixelFormat::Rgb565 => Some(2),
        PixelFormat::Argb8888 => Some(4),
        _ => None,
    }
}

/// The formats that pixels can be addressed in.
pub open spec fn addressable(format: PixelFormat) -> bool {
    match format {
        PixelFormat::A4 | PixelFormat::A8 | PixelFormat::L8 | PixelFormat::Rgb565 | PixelFormat::Argb8888 => true,
        _ => false,
    }
}

/// Byte offset of pixel column `px` within a row.
pub open spec fn column_offset(format: PixelFormat, px: nat) -> nat {
    match format {
        PixelFormat::A4 => px / 2,
        PixelFormat::Rgb565 => px * 2,
        PixelFormat::Argb8888 => px * 4,
        _ => px,
    }
}

/// A texture buffer at address `data`.
pub struct Texture {
    pub data: usize,
    pub width: u32,
    pub height: u32,
    pub stride_bytes: usize,
    pub format: PixelFormat,
}

impl Texture {
    /// A texture of `width` by `height` pixels at the non-null address `data`.
    pub fn new(data: usize, width: u32, height: u32, format: PixelFormat) -> (t: Self)
        requires
            data != 0,
            spec_stride_bytes(width, format) is Some,
            spec_stride_bytes(width, format)->Some_0 <= usize::MAX,
        ensures
            t.data == data,
            t.width == width,
            t.height == height,
            t.format == format,
            t.stride_bytes == spec_stride_bytes(width, format)->Some_0,
    {
        let stride_bytes = match Self::calc_stride_bytes(width, format) {
            Some(s) => s,
            None => 0,
        };
        Texture { data, width, height, stride_bytes, format }
    }

    /// The address of the pixel data.
    pub fn data_addr(&self) -> (r: usize)
        ensures
            r == self.data,
    {
        self.data
    }

    /// Bytes per row of a `width`-pixel texture in `format`; `None` for formats
    /// whose rows are not whole bytes or that textures do not support.
    pub fn calc_stride_bytes(width: u32, format: PixelFormat) -> (r: Option<usize>)
        requires
            spec_stride_bytes(width, format) matches Some(s) ==> s <= usize::MAX,
        ensures
            match spec_stride_bytes(width, format) {
                Some(s) => r == Some(s as usize),
                None => r is None,
            },
    {
        let width = width as usize;
        match format {
            PixelFormat::A8 | PixelFormat::L8 => Some(width),
            PixelFormat::Rgb565 => Some(width * 2),
            PixelFormat::Argb8888 => Some(width * 4),
            PixelFormat::A4 => Some(width / 2 + width % 2),
            _ => None,
        }
    }

    /// Bytes per pixel of this texture's format.
    pub fn bytes_per_pixel(&self) -> (r: Option<usize>)
        ensures
            match spec_bytes_per_pixel(self.format) {
                Some(b) => r == Some(b as usize),
                None => r is None,
            },
    {
        Self::bytes_per_pixel_for(self.format)
    }

    /// Bytes per pixel of `format`; `None` for sub-byte and unsupported formats.
    pub fn bytes_per_pixel_for(format: PixelFormat) -> (r: Option<usize>)
        ensures
            match spec_bytes_per_pixel(format) {
                Some(b) => r == Some(b as usize),
                None => r is None,
            },
    {
        match format {
            PixelFormat::A8 | PixelFormat::L8 => Some(1),
            PixelFormat::Rgb565 => Some(2),
            PixelFormat::Argb8888 => Some(4),
            PixelFormat::A4 => None,
            _ => None,
        }
    }

    /// Bytes the texture's buffer must hold.
    pub fn required_len(&self) -> (r: usize)
        requires
            self.stride_bytes * self.height <= usize::MAX,
        ensures
            r == self.stride_bytes * self.height,
    {
        self.stride_bytes * self.height as usize
    }

    /// Offset of pixel (`x`, `y`) from the start of the buffer.
    pub open spec fn spec_offset(&self, x: u32, y: u32) -> nat {
        y as nat * self.stride_bytes as nat + column_offset(self.format, x as nat)
    }

    /// Address of pixel (`x`, `y`).
    pub fn ptr_at(&self, x: u32, y: u32) -> (r: usize)
        requires
            x < self.width,
            y < self.height,
            addressable(self.format),
            self.data + self.spec_offset(x, y) <= usize::MAX,
        ensures
            r == self.data + self.spec_offset(x, y),
    {
        self.pixel_address(x, y)
    }

    /// Address of pixel (`x`, `y`), for writing.
    pub fn mut_ptr_at(&mut self, x: u32, y: u32) -> (r: usize)
        requires
            x < old(self).width,
            y < old(self).height,
            addressable(old(self).format),
            old(self).data + old(self).spec_offset(x, y) <= usize::MAX,
        ensures
            r == old(self).data + old(self).spec_offset(x, y),
            *final(self) == *old(self),
    {
        self.pixel_address(x, y)
    }

    fn pixel_address(&self, x: u32, y: u32) -> (r: usize)
        requires
            addressable(self.format),
            self.data + self.spec_offset(x, y) <= usize::MAX,
        ensures
            r == self.data + self.spec_offset(x, y),
    {
        proof {
            assert(y as nat * self.stride_bytes as nat <= self.spec_offset(x, y));
            assert(column_offset(self.format, x as nat) <= self.spec_offset(x, y));
        }
        let row = y as usize * self.stride_bytes;
        let col = match self.format {
            PixelFormat::A4 => (x as usize) / 2,
            PixelFormat::Rgb565 => x as usize * 2,
            PixelFormat::Argb8888 => x as usize * 4,
            _ => x as usize,
        };
        self.data + (row + col)
    }
}

/// A cell of a texture.
#[derive(Debug, Clone, Copy, PartialEq, Eq)]
pub struct TextureRegion {
    pub base: usize,
    pub parent_stride_bytes: usize,
    pub format: PixelFormat,
    pub x: u32,
    pub y: u32,
    pub width: u32,
    pub height: u32,
    pub index: usize,
}

impl TextureRegion {
    /// Offset of the region's pixel (`x`, `y`) from the start of the parent texture.
    pub open spec fn spec_offset_of(&self, x: u32, y: u32) -> nat {
        (self.y + y) as nat * self.parent_stride_bytes as nat + column_offset(self.format, (self.x + x) as nat)
    }

    /// Offset of the region's pixel (`x`, `y`) from the start of the parent texture.
    pub fn offset_of(&self, x: u32, y: u32) -> (r: usize)
        requires
            x < self.width,
            y < self.height,
            addressable(self.format),
            self.spec_offset_of(x, y) <= usize::MAX,
            self.x + x <= usize::MAX,
            self.y + y <= usize::MAX,
        ensures
            r == self.spec_offset_of(x, y),
    {
        let px = self.x as usize + x as usize;
        let py = self.y as usize + y as usize;
        proof {
            assert(py as nat * self.parent_stride_bytes as nat <= self.spec_offset_of(x, y));
            assert(column_offset(self.format, px as nat) <= self.spec_offset_of(x, y));
        }
        let col = match self.format {
            PixelFormat::A4 => px / 2,
            PixelFormat::Rgb565 => px * 2,
            PixelFormat::Argb8888 => px * 4,
            _ => px,
        };
        py * self.parent_stride_bytes + col
    }
}

/// The byte a pixel of a one-bit image is stored as: 255 for on, 0 for off.
pub open spec fn gray8_of(on: bool) -> u8 {
    if on {
        255
    } else {
        0
    }
}

/// The character a stored value is shown as when a region is dumped:
/// `.` for 0, `+` up to 127, `#` above.
pub open spec fn spec_shade(value: u8) -> char {
    if value == 0 {
        '.'
    } else if value <= 127 {
        '+'
    } else {
        '#'
    }
}

impl TextureRegion {
    /// The point (`x`, `y`) lies in the region.
    pub open spec fn contains_point(&self, x: i32, y: i32) -> bool {
        &&& x >= 0
        &&& y >= 0
        &&& (x as u32) < self.width
        &&& (y as u32) < self.height
    }

    /// Pixel `p` can be drawn: when it lies in the region, the format has
    /// whole-byte columns and the pixel's offset is representable.
    pub open spec fn pixel_writable(&self, p: (i32, i32, bool)) -> bool {
        self.contains_point(p.0, p.1) ==> {
            &&& addressable(self.format)
            &&& self.x + (p.0 as u32) <= usize::MAX
            &&& self.y + (p.1 as u32) <= usize::MAX
            &&& self.spec_offset_of(p.0 as u32, p.1 as u32) <= usize::MAX
        }
    }

    /// The bytes that drawing `pixels` stores: for each pixel inside the
    /// region, in order, its offset in the texture and its value; pixels
    /// outside are skipped.
    pub open spec fn spec_pixel_writes(&self, pixels: Seq<(i32, i32, bool)>) -> Seq<(usize, u8)>
        decreases pixels.len(),
    {
        if pixels.len() == 0 {
            Seq::empty()
        } else {
            let rest = self.spec_pixel_writes(pixels.drop_last());
            let p = pixels.last();
            if self.contains_point(p.0, p.1) {
                rest.push((self.spec_offset_of(p.0 as u32, p.1 as u32) as usize, gray8_of(p.2)))
            } else {
                rest
            }
        }
    }

    /// What drawing the one-bit `pixels` (`x`, `y`, on) into the region
    /// stores: offset and value of each pixel that lies in the region.
    pub fn pixel_writes(&self, pixels: &Vec<(i32, i32, bool)>) -> (r: Vec<(usize, u8)>)
        requires
            forall|k: int| 0 <= k < pixels@.len() ==> self.pixel_writable(#[trigger] pixels@[k]),
        ensures
            r@ == self.spec_pixel_writes(pixels@),
    {
        let mut r: Vec<(usize, u8)> = Vec::new();
        let mut i: usize = 0;
        while i < pixels.len()
            invariant
                i <= pixels@.len(),
                forall|k: int| 0 <= k < pixels@.len() ==> self.pixel_writable(#[trigger] pixels@[k]),
                r@ == self.spec_pixel_writes(pixels@.take(i as int)),
            decreases pixels@.len() - i,
        {
            let (x, y, on) = pixels[i];
            assert(self.pixel_writable(pixels@[i as int]));
            proof {
                assert(pixels@.take(i + 1).drop_last() =~= pixels@.take(i as int));
            }
            if x >= 0 && y >= 0 && (x as u32) < self.width && (y as u32) < self.height {
                let offset = self.offset_of(x as u32, y as u32);
                let value: u8 = if on {
                    255
                } else {
                    0
                };
                r.push((offset, value));
            }
            i += 1;
        }
        proof {
            assert(pixels@.take(pixels@.len() as int) =~= pixels@);
        }
        r
    }

    /// The character a stored value is shown as when the region is dumped.
    pub fn debug_char(value: u8) -> (r: char)
        ensures
            r == spec_shade(value),
    {
        if value == 0 {
            '.'
        } else if value <= 127 {
            '+'
        } else {
            '#'
        }
    }
}

/// Index of the first cell not in use (the number of cells when all are).
pub open spec fn first_unused(used: Seq<bool>) -> int
    decreases used.len(),
{
    if used.len() == 0 {
        0
    } else if !used[0] {
        0
    } else {
        1 + first_unused(used.drop_first())
    }
}

proof fn lemma_first_unused(used: Seq<bool>, i: int)
    requires
        0 <= i <= used.len(),
        forall|j: int| 0 <= j < i ==> used[j],
        i == used.len() || !used[i],
    ensures
        first_unused(used) == i,
    decreases i,
{
    if i > 0 {
        let rest = used.drop_first();
        assert forall|j: int| 0 <= j < i - 1 implies rest[j] by {
            assert(rest[j] == used[j + 1]);
        }
        if i < used.len() {
            assert(rest[i - 1] == used[i]);
        }
        lemma_first_unused(rest, i - 1);
    }
}

/// The first unused cell is unused, and every cell before it is in use.
pub proof fn lemma_first_unused_props(used: Seq<bool>)
    ensures
        0 <= first_unused(used) <= used.len(),
        first_unused(used) < used.len() ==> !used[first_unused(used)],
        forall|j: int| 0 <= j < first_unused(used) ==> used[j],
    decreases used.len(),
{
    if used.len() > 0 && used[0] {
        let rest = used.drop_first();
        lemma_first_unused_props(rest);
        assert forall|j: int| 0 <= j < first_unused(used) implies used[j] by {
            if j > 0 {
                assert(used[j] == rest[j - 1]);
            }
        }
    }
}

/// The row of a cell below the grid's last row starts inside the texture.
proof fn lemma_cell_row_fits(index: nat, cols: u32, rows: u32, cell_height: u32, height: u32)
    requires
        cols > 0,
        cell_height > 0,
        index < cols as nat * rows as nat,
        rows == height / cell_height,
    ensures
        (index / cols as nat) * cell_height as nat <= height,
{
    assert(index / cols as nat <= rows as nat) by (nonlinear_arith)
        requires
            index < cols as nat * rows as nat,
            cols > 0,
    ;
    assert(rows as nat * cell_height as nat <= height) by (nonlinear_arith)
        requires
            rows == height / cell_height,
            cell_height > 0,
    ;
    vstd::arithmetic::mul::lemma_mul_inequality((index / cols as nat) as int, rows as int, cell_height as int);
}

/// An atlas of `N` equally sized cells over a texture.
pub struct TextureAtlas<const N: usize> {
    pub texture: Texture,
    pub cell_width: u32,
    pub cell_height: u32,
    cols: u32,
    rows: u32,
    used: Vec<bool>,
}

impl<const N: usize> TextureAtlas<N> {
    /// The texture the cells are cut from.
    pub closed spec fn spec_texture(&self) -> Texture {
        self.texture
    }

    /// Width of a cell in pixels.
    pub closed spec fn spec_cell_width(&self) -> u32 {
        self.cell_width
    }

    /// Height of a cell in pixels.
    pub closed spec fn spec_cell_height(&self) -> u32 {
        self.cell_height
    }

    /// Which cells are in use.
    pub closed spec fn used(&self) -> Seq<bool> {
        self.used@
    }

    /// Cells per row.
    pub closed spec fn cols(&self) -> u32 {
        self.cols
    }

    /// Rows of cells.
    pub closed spec fn rows(&self) -> u32 {
        self.rows
    }

    /// The atlas's invariant: `N` cells, tracked, within a grid of at least
    /// `N` cells of non-zero size that fits in the texture.
    pub closed spec fn wf(&self) -> bool {
        &&& self.used@.len() == N
        &&& self.cell_width > 0
        &&& self.cell_height > 0
        &&& self.cols == self.texture.width / self.cell_width
        &&& self.rows == self.texture.height / self.cell_height
        &&& self.cols > 0
        &&& self.rows > 0
        &&& self.cols as nat * self.rows as nat >= N
    }

    /// Number of grid cells.
    pub open spec fn spec_capacity(&self) -> nat {
        self.cols() as nat * self.rows() as nat
    }

    /// The cell at `index`.
    pub open spec fn spec_region_for_index(&self, index: usize) -> TextureRegion {
        let col = (index as u32) % self.cols();
        let row = (index as u32) / self.cols();
        TextureRegion {
            base: self.spec_texture().data,
            parent_stride_bytes: self.spec_texture().stride_bytes,
            format: self.spec_texture().format,
            x: (col * self.spec_cell_width()) as u32,
            y: (row * self.spec_cell_height()) as u32,
            width: self.spec_cell_width(),
            height: self.spec_cell_height(),
            index,
        }
    }

    /// Computing the index of `region`, when it is one of the grid's cells,
    /// stays within `u32`.
    pub open spec fn region_index_fits(&self, region: TextureRegion) -> bool {
        let col = region.x / self.spec_cell_width();
        let row = region.y / self.spec_cell_height();
        (region.width == self.spec_cell_width() && region.height == self.spec_cell_height() && region.x
            % self.spec_cell_width() == 0 && region.y % self.spec_cell_height() == 0 && col < self.cols()
            && row < self.rows()) ==> row * self.cols() + col <= u32::MAX
    }

    /// The index of the cell a region covers, if it is one of this atlas's cells.
    pub open spec fn spec_index_for_region(&self, region: TextureRegion) -> Option<usize> {
        if region.width != self.spec_cell_width() || region.height != self.spec_cell_height() {
            None
        } else if region.x % self.spec_cell_width() != 0 || region.y % self.spec_cell_height() != 0 {
            None
        } else {
            let col = region.x / self.spec_cell_width();
            let row = region.y / self.spec_cell_height();
            if col >= self.cols() || row >= self.rows() {
                None
            } else {
                Some((row * self.cols() + col) as usize)
            }
        }
    }

    /// A well-formed atlas tracks `N` cells, and its grid has room for all of them.
    pub proof fn lemma_wf_cells(&self)
        requires
            self.wf(),
        ensures
            self.used().len() == N,
            self.spec_capacity() >= N,
    {
    }

    /// A cell of the grid can be looked up with `region_for_index`.
    pub proof fn lemma_cell_fits(&self, index: usize)
        requires
            self.wf(),
            index < self.spec_capacity(),
            self.spec_capacity() <= u32::MAX,
        ensures
            index <= u32::MAX,
            ((index as u32) / self.cols()) as nat * self.spec_cell_height() as nat <= u32::MAX,
    {
        lemma_cell_row_fits(index as nat, self.cols, self.rows, self.cell_height, self.texture.height);
    }

    /// The cell at `index` is found again at `index`, and giving back a cell
    /// that was just taken leaves the atlas as it was.
    pub proof fn lemma_region_index_round_trip(&self, index: usize)
        requires
            self.wf(),
            index < self.spec_capacity(),
            self.spec_capacity() <= u32::MAX,
        ensures
            self.spec_index_for_region(self.spec_region_for_index(index)) == Some(index),
            index < N && !self.used()[index as int] ==> self.used().update(index as int, true).update(
                index as int,
                false,
            ) == self.used(),
    {
        let cols = self.cols as int;
        let rows = self.rows as int;
        let cw = self.cell_width as int;
        let ch = self.cell_height as int;
        let i = index as int;
        let col = i % cols;
        let row = i / cols;
        vstd::arithmetic::div_mod::lemma_fundamental_div_mod(i, cols);
        vstd::arithmetic::div_mod::lemma_mod_bound(i, cols);
        vstd::arithmetic::div_mod::lemma_div_pos_is_pos(i, cols);
        assert(row < rows) by (nonlinear_arith)
            requires
                i < cols * rows,
                i == cols * row + col,
                0 <= col,
                cols > 0,
        ;
        assert(cols * cw <= self.texture.width) by (nonlinear_arith)
            requires
                cols == self.texture.width / self.cell_width,
                cw == self.cell_width,
                cw > 0,
        ;
        assert(rows * ch <= self.texture.height) by (nonlinear_arith)
            requires
                rows == self.texture.height / self.cell_height,
                ch == self.cell_height,
                ch > 0,
        ;
        assert(col * cw < cols * cw) by (nonlinear_arith)
            requires
                col < cols,
                cw > 0,
        ;
        assert(row * ch < rows * ch) by (nonlinear_arith)
            requires
                row < rows,
                ch > 0,
        ;
        assert(0 <= col * cw && 0 <= row * ch) by (nonlinear_arith)
            requires
                0 <= col,
                0 <= row,
                cw > 0,
                ch > 0,
        ;
        vstd::arithmetic::div_mod::lemma_mod_multiples_basic(col, cw);
        vstd::arithmetic::div_mod::lemma_mod_multiples_basic(row, ch);
        vstd::arithmetic::div_mod::lemma_div_multiples_vanish(col, cw);
        vstd::arithmetic::div_mod::lemma_div_multiples_vanish(row, ch);
        vstd::arithmetic::mul::lemma_mul_is_commutative(col, cw);
        vstd::arithmetic::mul::lemma_mul_is_commutative(row, ch);
        vstd::arithmetic::mul::lemma_mul_is_commutative(row, cols);
        let r = self.spec_region_for_index(index);
        assert((index as u32) == index);
        assert(r.x == col * cw);
        assert(r.y == row * ch);
        if index < N && !self.used()[index as int] {
            assert(self.used().update(index as int, true).update(index as int, false) =~= self.used());
        }
    }

    /// An atlas of cells of `cell_width` by `cell_height` pixels, all free.
    pub fn new(texture: Texture, cell_width: u32, cell_height: u32) -> (a: Self)
        requires
            cell_width > 0,
            cell_height > 0,
            texture.width / cell_width > 0,
            texture.height / cell_height > 0,
            (texture.width / cell_width) as nat * (texture.height / cell_height) as nat >= N,
        ensures
            a.wf(),
            a.spec_texture() == texture,
            a.spec_cell_width() == cell_width,
            a.spec_cell_height() == cell_height,
            a.cols() == texture.width / cell_width,
            a.rows() == texture.height / cell_height,
            a.used() == Seq::new(N as nat, |i: int| false),
    {
        let cols = texture.width / cell_width;
        let rows = texture.height / cell_height;
        let mut used: Vec<bool> = Vec::new();
        let mut i: usize = 0;
        while i < N
            invariant
                i <= N,
                used@ == Seq::new(i as nat, |j: int| false),
            decreases N - i,
        {
            used.push(false);
            i += 1;
            assert(used@ =~= Seq::new(i as nat, |j: int| false));
        }
        Self { texture, cell_width, cell_height, cols, rows, used }
    }

    /// Number of grid cells.
    pub fn capacity(&self) -> (r: usize)
        requires
            self.spec_capacity() <= u32::MAX,
        ensures
            r == self.spec_capacity(),
    {
        (self.cols * self.rows) as usize
    }

    /// The cell at `index`.
    pub fn region_for_index(&self, index: usize) -> (r: TextureRegion)
        requires
            self.wf(),
            ((index as u32) / self.cols()) as nat * self.spec_cell_height() as nat <= u32::MAX,
        ensures
            r == self.spec_region_for_index(index),
    {
        let col = (index as u32) % self.cols;
        let row = (index as u32) / self.cols;
        proof {
            assert(col < self.cols);
            assert(self.cols as nat * self.cell_width as nat <= self.texture.width) by (nonlinear_arith)
                requires
                    self.cols == self.texture.width / self.cell_width,
                    self.cell_width > 0,
            ;
            assert(col as nat * self.cell_width as nat <= self.cols as nat * self.cell_width as nat) by (nonlinear_arith)
                requires
                    col < self.cols,
            ;
        }
        TextureRegion {
            base: self.texture.data,
            parent_stride_bytes: self.texture.stride_bytes,
            format: self.texture.format,
            x: col * self.cell_width,
            y: row * self.cell_height,
            width: self.cell_width,
            height: self.cell_height,
            index,
        }
    }

    /// The index of the cell `region` covers, if it is one of this atlas's cells.
    pub fn index_for_region(&self, region: &TextureRegion) -> (r: Option<usize>)
        requires
            self.wf(),
            self.region_index_fits(*region),
        ensures
            r == self.spec_index_for_region(*region),
    {
        if region.width != self.cell_width || region.height != self.cell_height {
            return None;
        }
        if region.x % self.cell_width != 0 || region.y % self.cell_height != 0 {
            return None;
        }
        let col = region.x / self.cell_width;
        let row = region.y / self.cell_height;
        if col >= self.cols || row >= self.rows {
            return None;
        }
        Some((row * self.cols + col) as usize)
    }

    /// Whether a cell is free.
    pub fn has_free_cell(&self) -> (r: bool)
        requires
            self.wf(),
        ensures
            r == (first_unused(self.used()) < N),
    {
        let mut i: usize = 0;
        while i < N
            invariant
                self.wf(),
                i <= N,
                forall|j: int| 0 <= j < i ==> self.used@[j],
            decreases N - i,
        {
            if !self.used[i] {
                proof {
                    lemma_first_unused(self.used@, i as int);
                }
                return true;
            }
            i += 1;
        }
        proof {
            lemma_first_unused(self.used@, N as int);
        }
        false
    }

    /// Take the first free cell, if any.
    pub fn allocate(&mut self) -> (r: Option<TextureRegion>)
        requires
            old(self).wf(),
            old(self).spec_capacity() <= u32::MAX,
            old(self).spec_capacity() > N ==> first_unused(old(self).used()) < N,
        ensures
            final(self).wf(),
            final(self).spec_texture() == old(self).spec_texture(),
            final(self).spec_cell_width() == old(self).spec_cell_width(),
            final(self).spec_cell_height() == old(self).spec_cell_height(),
            final(self).cols() == old(self).cols(),
            final(self).rows() == old(self).rows(),
            ({
                let i = first_unused(old(self).used());
                if i < N {
                    &&& r == Some(old(self).spec_region_for_index(i as usize))
                    &&& final(self).used() == old(self).used().update(i, true)
                } else {
                    &&& r is None
                    &&& final(self).used() == old(self).used()
                }
            }),
    {
        let cap = self.capacity();
        let mut index: usize = 0;
        while index < cap
            invariant
                self.wf(),
                cap == self.spec_capacity(),
                cap >= N,
                cap > N ==> first_unused(self.used()) < N,
                index <= cap,
                index <= N,
                forall|j: int| 0 <= j < index ==> self.used@[j],
            ensures
                index == cap || (index < N && !self.used@[index as int]),
            decreases cap - index,
        {
            if index == N {
                proof {
                    lemma_first_unused(self.used@, N as int);
                }
                break;
            }
            if !self.used[index] {
                break;
            }
            index += 1;
        }
        if index < cap {
            proof {
                lemma_first_unused(self.used@, index as int);
                lemma_cell_row_fits(index as nat, self.cols, self.rows, self.cell_height, self.texture.height);
            }
            self.used.set(index, true);
            return Some(self.region_for_index(index));
        }
        proof {
            lemma_first_unused(self.used@, N as int);
        }
        None
    }

    /// Give a cell back; `false` when the region is not a cell of this atlas
    /// or the cell was already free.
    pub fn free(&mut self, region: TextureRegion) -> (r: bool)
        requires
            old(self).wf(),
            old(self).region_index_fits(region),
            old(self).spec_index_for_region(region) matches Some(i) ==> i < N,
        ensures
            final(self).wf(),
            final(self).spec_texture() == old(self).spec_texture(),
            final(self).spec_cell_width() == old(self).spec_cell_width(),
            final(self).spec_cell_height() == old(self).spec_cell_height(),
            final(self).cols() == old(self).cols(),
            final(self).rows() == old(self).rows(),
            match old(self).spec_index_for_region(region) {
                Some(i) => if old(self).used()[i as int] {
                    r && final(self).used() == old(self).used().update(i as int, false)
                } else {
                    !r && final(self).used() == old(self).used()
                },
                None => !r && final(self).used() == old(self).used(),
            },
    {
        if let Some(index) = self.index_for_region(&region) {
            if self.used[index] {
                self.used.set(index, false);
                return true;
            }
        }
        false
    }
}

} // verus!
