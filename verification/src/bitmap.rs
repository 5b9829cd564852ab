//! Row-major RGBA pixel buffers: the frames that go into an atlas and the
//! canvas that comes out of it.

use crate::geometry::{sheet_addressable, Placement};
use vstd::prelude::*;

verus! {

/// The index of channel `c` of the pixel `(x, y)` in a row-major buffer of
/// four bytes per pixel that is `width` pixels wide.
pub open spec fn offset(width: int, x: int, y: int, c: int) -> int {
    (y * width + x) * 4 + c
}

/// A pixel grid: its size and its bytes, row by row, four per pixel in the
/// order red, green, blue, alpha.
pub struct Raster {
    pub width: int,
    pub height: int,
    pub bytes: Seq<u8>,
}

impl Raster {
    /// The buffer holds exactly the pixels of the grid.
    pub open spec fn wf(self) -> bool {
        &&& 0 <= self.width
        &&& 0 <= self.height
        &&& self.bytes.len() == 4 * self.width * self.height
    }

    /// Whether `(x, y)` is a pixel of the grid.
    pub open spec fn holds(self, x: int, y: int) -> bool {
        0 <= x < self.width && 0 <= y < self.height
    }

    /// Channel `c` of the pixel `(x, y)`.
    pub open spec fn byte(self, x: int, y: int, c: int) -> u8 {
        self.bytes[offset(self.width, x, y, c)]
    }

    /// Whether the pixel `(x, y)` is anything but fully transparent.
    pub open spec fn solid(self, x: int, y: int) -> bool {
        self.byte(x, y, 3) != 0
    }

    /// Every pixel of column `x` is fully transparent.
    pub open spec fn column_clear(self, x: int) -> bool {
        forall|y: int| 0 <= y < self.height ==> !#[trigger] self.solid(x, y)
    }

    /// Every pixel of row `y` is fully transparent.
    pub open spec fn row_clear(self, y: int) -> bool {
        forall|x: int| 0 <= x < self.width ==> !#[trigger] self.solid(x, y)
    }

    /// Every pixel of the grid is fully transparent.
    pub open spec fn blank(self) -> bool {
        forall|x: int, y: int| self.holds(x, y) ==> !#[trigger] self.solid(x, y)
    }

    /// Whether `part` is the bounding box of the grid's content: every column
    /// and row outside it is fully transparent, and each of its four edges
    /// holds a pixel that is not.
    pub open spec fn is_content_box(self, part: Placement) -> bool {
        &&& part.nonempty()
        &&& part.within(self.width, self.height)
        &&& forall|x: int| 0 <= x < part.x ==> #[trigger] self.column_clear(x)
        &&& forall|x: int| part.right() <= x < self.width ==> #[trigger] self.column_clear(x)
        &&& forall|y: int| 0 <= y < part.y ==> #[trigger] self.row_clear(y)
        &&& forall|y: int| part.bottom() <= y < self.height ==> #[trigger] self.row_clear(y)
        &&& !self.column_clear(part.x as int)
        &&& !self.column_clear(part.right() - 1)
        &&& !self.row_clear(part.y as int)
        &&& !self.row_clear(part.bottom() - 1)
    }

    /// The bounding box of the grid's content, or `None` for a grid that is
    /// fully transparent.
    pub open spec fn content_box(self) -> Option<Placement> {
        if exists|part: Placement| self.is_content_box(part) {
            Some(choose|part: Placement| self.is_content_box(part))
        } else {
            None
        }
    }

    /// Whether `part` of this grid is, pixel for pixel, the grid `tile`.
    pub open spec fn part_is(self, part: Placement, tile: Raster) -> bool {
        &&& tile.width == part.width
        &&& tile.height == part.height
        &&& forall|i: int, j: int, c: int|
            0 <= i < part.width && 0 <= j < part.height && 0 <= c < 4 ==> #[trigger] tile.byte(
                i,
                j,
                c,
            ) == self.byte(part.x + i, part.y + j, c)
    }
}

/// The bytes of a pixel inside the grid lie inside the buffer.
pub proof fn lemma_offset_in_range(width: int, height: int, x: int, y: int, c: int)
    requires
        0 <= x < width,
        0 <= y < height,
        0 <= c < 4,
    ensures
        0 <= y * width <= y * width + x,
        0 <= offset(width, x, y, c) < 4 * width * height,
{
    assert(0 <= y * width && y * width + width <= height * width) by (nonlinear_arith)
        requires
            0 <= y < height,
            0 < width,
    ;
    assert(4 * width * height == 4 * (height * width)) by (nonlinear_arith);
}

/// Bytes come in reading order: a pixel further down, or further right in
/// the same row, has the larger index.
pub proof fn lemma_offset_ordered(width: int, x1: int, y1: int, c1: int, x2: int, y2: int, c2: int)
    requires
        0 <= x1 < width,
        0 <= x2 <= width,
        0 <= c1 < 4,
        0 <= c2,
        y1 < y2 || (y1 == y2 && x1 < x2),
    ensures
        offset(width, x1, y1, c1) < offset(width, x2, y2, c2),
{
    if y1 < y2 {
        assert(y1 * width + width <= y2 * width) by (nonlinear_arith)
            requires
                y1 < y2,
                0 < width,
        ;
    }
}

/// No two channels of the grid share a byte.
pub proof fn lemma_offset_injective(
    width: int,
    x1: int,
    y1: int,
    c1: int,
    x2: int,
    y2: int,
    c2: int,
)
    requires
        0 <= x1 < width,
        0 <= x2 < width,
        0 <= c1 < 4,
        0 <= c2 < 4,
        offset(width, x1, y1, c1) == offset(width, x2, y2, c2),
    ensures
        x1 == x2,
        y1 == y2,
        c1 == c2,
{
    if y1 < y2 || (y1 == y2 && x1 < x2) {
        lemma_offset_ordered(width, x1, y1, c1, x2, y2, 0);
    } else if y2 < y1 || (y1 == y2 && x2 < x1) {
        lemma_offset_ordered(width, x2, y2, c2, x1, y1, 0);
    }
}

/// A grid has at most one content box.
pub proof fn lemma_content_box_unique(raster: Raster, a: Placement, b: Placement)
    requires
        raster.is_content_box(a),
        raster.is_content_box(b),
    ensures
        a == b,
{
    if a.x < b.x {
        assert(raster.column_clear(a.x as int));
    }
    if b.x < a.x {
        assert(raster.column_clear(b.x as int));
    }
    if a.right() < b.right() {
        assert(raster.column_clear(b.right() - 1));
    }
    if b.right() < a.right() {
        assert(raster.column_clear(a.right() - 1));
    }
    if a.y < b.y {
        assert(raster.row_clear(a.y as int));
    }
    if b.y < a.y {
        assert(raster.row_clear(b.y as int));
    }
    if a.bottom() < b.bottom() {
        assert(raster.row_clear(b.bottom() - 1));
    }
    if b.bottom() < a.bottom() {
        assert(raster.row_clear(a.bottom() - 1));
    }
}

/// A fully transparent grid has no content box.
pub proof fn lemma_blank_has_no_content(raster: Raster)
    requires
        raster.blank(),
    ensures
        raster.content_box() is None,
{
    assert forall|part: Placement| !raster.is_content_box(part) by {
        if raster.is_content_box(part) {
            let y = choose|y: int| 0 <= y < raster.height && raster.solid(part.x as int, y);
            assert(raster.holds(part.x as int, y));
        }
    }
}

/// An RGBA image held in memory.
#[derive(Clone, Debug, PartialEq, Eq)]
pub struct Bitmap {
    /// The number of pixels in a row.
    pub width: u32,
    /// The number of rows.
    pub height: u32,
    /// The rows from top to bottom, four bytes per pixel.
    pub pixels: Vec<u8>,
}

impl View for Bitmap {
    type V = Raster;

    open spec fn view(&self) -> Raster {
        Raster { width: self.width as int, height: self.height as int, bytes: self.pixels@ }
    }
}

impl Bitmap {
    /// The buffer holds exactly `width * height` pixels.
    pub open spec fn wf(&self) -> bool {
        self@.wf()
    }

    /// Tests whether the buffer holds exactly `width * height` pixels.
    pub fn is_well_formed(&self) -> (ok: bool)
        ensures
            ok == self.wf(),
    {
        assert(self.width * self.height <= 0xffff_ffff * 0xffff_ffff) by (nonlinear_arith)
            requires
                self.width <= 0xffff_ffff,
                self.height <= 0xffff_ffff,
        ;
        assert(4 * self.width * self.height == 4 * (self.width * self.height))
            by (nonlinear_arith);
        let cells: u64 = self.width as u64 * self.height as u64;
        let held: u64 = self.pixels.len() as u64;
        held % 4 == 0 && held / 4 == cells
    }

    /// A fully transparent bitmap of the given size, every byte zero.
    pub fn blank(width: u32, height: u32) -> (bitmap: Bitmap)
        requires
            sheet_addressable(width as int, height as int),
        ensures
            bitmap.wf(),
            bitmap.width == width,
            bitmap.height == height,
            forall|i: int| 0 <= i < bitmap.pixels@.len() ==> bitmap.pixels@[i] == 0,
    {
        assert(4 * width * height == 4 * (width * height) && 0 <= width * height) by (nonlinear_arith);
        let cells: usize = width as usize * height as usize;
        let pixels: Vec<u8> = vec![0u8; cells * 4];
        Bitmap { width, height, pixels }
    }

    /// A bitmap of its own with the same size and the same pixels.
    pub fn copy(&self) -> (copied: Bitmap)
        ensures
            copied@ == self@,
    {
        let pixels = self.pixels.clone();
        assert(pixels@ =~= self.pixels@);
        Bitmap { width: self.width, height: self.height, pixels }
    }

    /// The place of channel `c` of pixel `(x, y)` in the buffer.
    fn index(&self, x: u32, y: u32, c: usize) -> (at: usize)
        requires
            self.wf(),
            self@.holds(x as int, y as int),
            c < 4,
        ensures
            at == offset(self.width as int, x as int, y as int, c as int),
            at < self.pixels@.len(),
    {
        proof {
            lemma_offset_in_range(
                self.width as int,
                self.height as int,
                x as int,
                y as int,
                c as int,
            );
            assert(self.pixels@.len() == self.pixels.len() <= usize::MAX);
            assert(0 <= y * self.width <= y * self.width + x);
            assert((y * self.width + x) * 4 + c < self.pixels@.len());
        }
        (y as usize * self.width as usize + x as usize) * 4 + c
    }

    /// Channel `c` of the pixel `(x, y)`.
    pub fn channel(&self, x: u32, y: u32, c: usize) -> (value: u8)
        requires
            self.wf(),
            self@.holds(x as int, y as int),
            c < 4,
        ensures
            value == self@.byte(x as int, y as int, c as int),
    {
        let at = self.index(x, y, c);
        self.pixels[at]
    }

    /// Tests whether every pixel of column `x` is fully transparent.
    pub fn is_column_clear(&self, x: u32) -> (clear: bool)
        requires
            self.wf(),
            x < self.width,
        ensures
            clear == self@.column_clear(x as int),
    {
        let mut y: u32 = 0;
        while y < self.height
            invariant
                self.wf(),
                x < self.width,
                y <= self.height,
                forall|k: int| 0 <= k < y ==> !#[trigger] self@.solid(x as int, k),
            decreases self.height - y,
        {
            if self.channel(x, y, 3) != 0 {
                assert(self@.solid(x as int, y as int));
                return false;
            }
            y += 1;
        }
        true
    }

    /// Tests whether every pixel of row `y` is fully transparent.
    pub fn is_row_clear(&self, y: u32) -> (clear: bool)
        requires
            self.wf(),
            y < self.height,
        ensures
            clear == self@.row_clear(y as int),
    {
        let mut x: u32 = 0;
        while x < self.width
            invariant
                self.wf(),
                y < self.height,
                x <= self.width,
                forall|k: int| 0 <= k < x ==> !#[trigger] self@.solid(k, y as int),
            decreases self.width - x,
        {
            if self.channel(x, y, 3) != 0 {
                assert(self@.solid(x as int, y as int));
                return false;
            }
            x += 1;
        }
        true
    }

    /// The bounding box of everything that is not fully transparent, or
    /// `None` for a bitmap with no such pixel.
    pub fn content_box(&self) -> (found: Option<Placement>)
        requires
            self.wf(),
        ensures
            found == self@.content_box(),
            match found {
                Some(part) => self@.is_content_box(part),
                None => self@.blank(),
            },
    {
        let mut left: u32 = 0;
        while left < self.width && self.is_column_clear(left)
            invariant
                self.wf(),
                left <= self.width,
                forall|x: int| 0 <= x < left ==> #[trigger] self@.column_clear(x),
            decreases self.width - left,
        {
            left += 1;
        }
        if left == self.width {
            assert forall|x: int, y: int| self@.holds(x, y) implies !#[trigger] self@.solid(
                x,
                y,
            ) by {
                assert(self@.column_clear(x));
            }
            proof {
                lemma_blank_has_no_content(self@);
            }
            return None;
        }
        let mut right: u32 = self.width;
        while self.is_column_clear(right - 1)
            invariant
                self.wf(),
                left < right <= self.width,
                !self@.column_clear(left as int),
                forall|x: int| right <= x < self.width ==> #[trigger] self@.column_clear(x),
            decreases right,
        {
            right -= 1;
        }
        let ghost seen = choose|y: int| 0 <= y < self.height && self@.solid(left as int, y);
        let mut top: u32 = 0;
        while top < self.height && self.is_row_clear(top)
            invariant
                self.wf(),
                top <= self.height,
                forall|y: int| 0 <= y < top ==> #[trigger] self@.row_clear(y),
            decreases self.height - top,
        {
            top += 1;
        }
        proof {
            if top == self.height {
                assert(self@.row_clear(seen));
            }
        }
        let mut bottom: u32 = self.height;
        while self.is_row_clear(bottom - 1)
            invariant
                self.wf(),
                top < bottom <= self.height,
                !self@.row_clear(top as int),
                forall|y: int| bottom <= y < self.height ==> #[trigger] self@.row_clear(y),
            decreases bottom,
        {
            bottom -= 1;
        }
        let part = Placement { x: left, y: top, width: right - left, height: bottom - top };
        proof {
            assert(self@.is_content_box(part));
            lemma_content_box_unique(self@, part, self@.content_box().unwrap());
        }
        Some(part)
    }

    /// Copies a rectangle of this bitmap into a bitmap of its own.
    pub fn region(&self, part: &Placement) -> (tile: Bitmap)
        requires
            self.wf(),
            part.within(self.width as int, self.height as int),
        ensures
            tile.wf(),
            self@.part_is(*part, tile@),
    {
        let mut pixels: Vec<u8> = Vec::new();
        let mut j: u32 = 0;
        while j < part.height
            invariant
                self.wf(),
                part.within(self.width as int, self.height as int),
                j <= part.height,
                pixels@.len() == offset(part.width as int, 0, j as int, 0),
                forall|i: int, k: int, c: int|
                    0 <= i < part.width && 0 <= k < j && 0 <= c < 4 ==> #[trigger] pixels@[offset(
                        part.width as int,
                        i,
                        k,
                        c,
                    )] == self@.byte(part.x + i, part.y + k, c),
            decreases part.height - j,
        {
            let mut i: u32 = 0;
            while i < part.width
                invariant
                    self.wf(),
                    part.within(self.width as int, self.height as int),
                    j < part.height,
                    i <= part.width,
                    pixels@.len() == offset(part.width as int, i as int, j as int, 0),
                    forall|h: int, k: int, c: int|
                        0 <= h < part.width && 0 <= c < 4 && (0 <= k < j || (k == j && h < i))
                            ==> #[trigger] pixels@[offset(part.width as int, h, k, c)]
                            == self@.byte(part.x + h, part.y + k, c),
                decreases part.width - i,
            {
                let ghost before = pixels@;
                let red = self.channel(part.x + i, part.y + j, 0);
                let green = self.channel(part.x + i, part.y + j, 1);
                let blue = self.channel(part.x + i, part.y + j, 2);
                let alpha = self.channel(part.x + i, part.y + j, 3);
                pixels.push(red);
                pixels.push(green);
                pixels.push(blue);
                pixels.push(alpha);
                proof {
                    assert forall|h: int, k: int, c: int|
                        0 <= h < part.width && 0 <= c < 4 && (0 <= k < j || (k == j && h < i
                            + 1)) implies #[trigger] pixels@[offset(part.width as int, h, k, c)]
                        == self@.byte(part.x + h, part.y + k, c) by {
                        if k == j && h == i {
                        } else {
                            lemma_offset_ordered(part.width as int, h, k, c, i as int, j as int, 0);
                            assert(pixels@[offset(part.width as int, h, k, c)] == before[offset(
                                part.width as int,
                                h,
                                k,
                                c,
                            )]);
                        }
                    }
                }
                i += 1;
            }
            proof {
                assert(offset(part.width as int, part.width as int, j as int, 0) == offset(
                    part.width as int,
                    0,
                    j + 1,
                    0,
                )) by (nonlinear_arith);
            }
            j += 1;
        }
        proof {
            assert(offset(part.width as int, 0, part.height as int, 0) == 4 * part.width
                * part.height) by (nonlinear_arith);
        }
        Bitmap { width: part.width, height: part.height, pixels }
    }

    /// Paints a rectangle of `source` onto this bitmap with its top-left
    /// corner at `(x, y)`. Every other pixel stays as it is.
    pub fn blit(&mut self, source: &Bitmap, part: &Placement, x: u32, y: u32)
        requires
            old(self).wf(),
            source.wf(),
            part.within(source.width as int, source.height as int),
            x + part.width <= old(self).width,
            y + part.height <= old(self).height,
        ensures
            final(self).wf(),
            final(self).width == old(self).width,
            final(self).height == old(self).height,
            forall|px: int, py: int, c: int|
                old(self)@.holds(px, py) && 0 <= c < 4 ==> #[trigger] final(self)@.byte(px, py, c)
                    == if x <= px < x + part.width && y <= py < y + part.height {
                    source@.byte(part.x + px - x, part.y + py - y, c)
                } else {
                    old(self)@.byte(px, py, c)
                },
    {
        let ghost before = self@;
        let mut j: u32 = 0;
        while j < part.height
            invariant
                self.wf(),
                source.wf(),
                self.width == before.width,
                self.height == before.height,
                part.within(source.width as int, source.height as int),
                x + part.width <= self.width,
                y + part.height <= self.height,
                j <= part.height,
                forall|px: int, py: int, c: int|
                    before.holds(px, py) && 0 <= c < 4 ==> #[trigger] self@.byte(px, py, c) == if x
                        <= px < x + part.width && y <= py < y + j {
                        source@.byte(part.x + px - x, part.y + py - y, c)
                    } else {
                        before.byte(px, py, c)
                    },
            decreases part.height - j,
        {
            let mut i: u32 = 0;
            while i < part.width
                invariant
                    self.wf(),
                    source.wf(),
                    self.width == before.width,
                    self.height == before.height,
                    part.within(source.width as int, source.height as int),
                    x + part.width <= self.width,
                    y + part.height <= self.height,
                    j < part.height,
                    i <= part.width,
                    forall|px: int, py: int, c: int|
                        before.holds(px, py) && 0 <= c < 4 ==> #[trigger] self@.byte(px, py, c)
                            == if x <= px < x + part.width && (y <= py < y + j || (py == y + j
                            && px < x + i)) {
                            source@.byte(part.x + px - x, part.y + py - y, c)
                        } else {
                            before.byte(px, py, c)
                        },
                decreases part.width - i,
            {
                let mut c: usize = 0;
                while c < 4
                    invariant
                        self.wf(),
                        source.wf(),
                        self.width == before.width,
                        self.height == before.height,
                        part.within(source.width as int, source.height as int),
                        x + part.width <= self.width,
                        y + part.height <= self.height,
                        j < part.height,
                        i < part.width,
                        c <= 4,
                        forall|px: int, py: int, d: int|
                            before.holds(px, py) && 0 <= d < 4 ==> #[trigger] self@.byte(px, py, d)
                                == if x <= px < x + part.width && (y <= py < y + j || (py == y + j
                                && px < x + i) || (py == y + j && px == x + i && d < c)) {
                                source@.byte(part.x + px - x, part.y + py - y, d)
                            } else {
                                before.byte(px, py, d)
                            },
                    decreases 4 - c,
                {
                    let ghost earlier = self@;
                    let value = source.channel(part.x + i, part.y + j, c);
                    let at = self.index(x + i, y + j, c);
                    self.pixels[at] = value;
                    proof {
                        assert forall|px: int, py: int, d: int|
                            before.holds(px, py) && 0 <= d < 4 implies #[trigger] self@.byte(
                            px,
                            py,
                            d,
                        ) == if x <= px < x + part.width && (y <= py < y + j || (py == y + j && px
                            < x + i) || (py == y + j && px == x + i && d < c + 1)) {
                            source@.byte(part.x + px - x, part.y + py - y, d)
                        } else {
                            before.byte(px, py, d)
                        } by {
                            if offset(self.width as int, px, py, d) == at {
                                lemma_offset_injective(
                                    self.width as int,
                                    px,
                                    py,
                                    d,
                                    x + i,
                                    y + j,
                                    c as int,
                                );
                            } else {
                                lemma_offset_in_range(
                                    self.width as int,
                                    self.height as int,
                                    px,
                                    py,
                                    d,
                                );
                                assert(self@.byte(px, py, d) == earlier.byte(px, py, d));
                            }
                        }
                    }
                    c += 1;
                }
                i += 1;
            }
            j += 1;
        }
    }
}

} // verus!
