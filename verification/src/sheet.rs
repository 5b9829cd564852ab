//! The sheet: the rectangles that a packer has handed out, and the rules it
//! holds every new one to before it joins them.

use crate::geometry::{clear_of, extent_height, extent_width, is_addressable, lemma_extent_encloses, pairwise_disjoint, sheet_addressable, Placement};
use vstd::prelude::*;

verus! {

/// The widest and the tallest sheet there is. Bounds above it are lowered to
/// it, so that the far edge of a rectangle always fits `u32`.
pub const MAX_SPAN: u32 = 0x7fff_ffff;

/// A sheet as a plain value: its bounds and its rectangles, oldest first.
pub struct SheetModel {
    pub max_width: int,
    pub max_height: int,
    pub placements: Seq<Placement>,
}

impl SheetModel {
    /// The width of the smallest canvas that holds every rectangle.
    pub open spec fn extent_width(self) -> int {
        extent_width(self.placements)
    }

    /// The height of the smallest canvas that holds every rectangle.
    pub open spec fn extent_height(self) -> int {
        extent_height(self.placements)
    }

    /// The rules of every sheet: its rectangles are non-empty, lie within
    /// the bounds and are pairwise disjoint, and the canvas they span can be
    /// held in one buffer.
    pub open spec fn sound(self) -> bool {
        &&& 0 <= self.max_width <= MAX_SPAN
        &&& 0 <= self.max_height <= MAX_SPAN
        &&& pairwise_disjoint(self.placements)
        &&& forall|i: int|
            0 <= i < self.placements.len() ==> {
                &&& (#[trigger] self.placements[i]).nonempty()
                &&& self.placements[i].within(self.max_width, self.max_height)
            }
        &&& sheet_addressable(self.extent_width(), self.extent_height())
    }

    /// Whether `spot` may join the sheet as the answer to a request of
    /// `width` by `height` pixels: it is not empty, has the requested size,
    /// lies within the bounds, collides with no rectangle of the sheet, and
    /// leaves the canvas small enough for one buffer.
    pub open spec fn admits(self, spot: Placement, width: int, height: int) -> bool {
        &&& spot.nonempty()
        &&& spot.width == width
        &&& spot.height == height
        &&& spot.within(self.max_width, self.max_height)
        &&& clear_of(spot, self.placements)
        &&& sheet_addressable(
            extent_width(self.placements.push(spot)),
            extent_height(self.placements.push(spot)),
        )
    }

    /// The sheet with one more rectangle.
    pub open spec fn after(self, spot: Placement) -> SheetModel {
        SheetModel { placements: self.placements.push(spot), ..self }
    }
}

/// A rectangle that a sound sheet admits leaves the sheet sound.
pub proof fn lemma_admitted_keeps_sound(sheet: SheetModel, spot: Placement, width: int, height: int)
    requires
        sheet.sound(),
        sheet.admits(spot, width, height),
    ensures
        sheet.after(spot).sound(),
{
    let grown = sheet.placements.push(spot);
    assert forall|i: int, j: int| 0 <= i < j < grown.len() implies !(#[trigger] grown[i]).overlaps(
        #[trigger] grown[j],
    ) by {
        if j == grown.len() - 1 {
            assert(!spot.overlaps(sheet.placements[i]));
        }
    }
}

/// A request wider or taller than the bounds, or too large for one buffer,
/// is admitted nowhere.
pub proof fn lemma_oversize_never_admitted(
    sheet: SheetModel,
    spot: Placement,
    width: int,
    height: int,
)
    requires
        width > sheet.max_width || height > sheet.max_height || !sheet_addressable(width, height),
    ensures
        !sheet.admits(spot, width, height),
{
    if spot.nonempty() && spot.width == width && spot.height == height && spot.within(
        sheet.max_width,
        sheet.max_height,
    ) {
        let grown = sheet.placements.push(spot);
        lemma_extent_encloses(grown);
        assert(grown[grown.len() - 1] == spot);
        assert(4 * width * height <= 4 * extent_width(grown) * extent_height(grown))
            by (nonlinear_arith)
            requires
                0 < width <= extent_width(grown),
                0 < height <= extent_height(grown),
        ;
    }
}

/// On a sound sheet every rectangle lies within the extent, and no two
/// rectangles share a pixel.
pub proof fn lemma_placements_keep_apart(sheet: SheetModel)
    requires
        sheet.sound(),
    ensures
        forall|i: int|
            0 <= i < sheet.placements.len() ==> (#[trigger] sheet.placements[i]).within(
                sheet.extent_width(),
                sheet.extent_height(),
            ),
        forall|i: int, j: int|
            0 <= i < sheet.placements.len() && 0 <= j < sheet.placements.len() && i != j ==> !(
            #[trigger] sheet.placements[i]).overlaps(#[trigger] sheet.placements[j]),
{
    lemma_extent_encloses(sheet.placements);
    assert forall|i: int, j: int|
        0 <= i < sheet.placements.len() && 0 <= j < sheet.placements.len() && i != j implies !(
    #[trigger] sheet.placements[i]).overlaps(#[trigger] sheet.placements[j]) by {
        if j < i {
            assert(!sheet.placements[j].overlaps(sheet.placements[i]));
        }
    }
}

/// The rectangles handed out on one sheet, kept under the sheet's rules.
#[derive(Clone, Debug, PartialEq, Eq)]
pub struct Sheet {
    max_width: u32,
    max_height: u32,
    placed: Vec<Placement>,
    extent_width: u32,
    extent_height: u32,
}

impl View for Sheet {
    type V = SheetModel;

    closed spec fn view(&self) -> SheetModel {
        SheetModel {
            max_width: self.max_width as int,
            max_height: self.max_height as int,
            placements: self.placed@,
        }
    }
}

impl Sheet {
    /// The sheet's invariant. It implies `self@.sound()`.
    pub closed spec fn wf(&self) -> bool {
        &&& self@.sound()
        &&& self.extent_width == self@.extent_width()
        &&& self.extent_height == self@.extent_height()
    }

    /// A well-formed sheet keeps the rules of its model.
    pub proof fn lemma_wf_sound(&self)
        requires
            self.wf(),
        ensures
            self@.sound(),
    {
    }

    /// An empty sheet of at most `max_width` by `max_height` pixels, each
    /// lowered to `MAX_SPAN` where it is above it.
    pub fn new(max_width: u32, max_height: u32) -> (sheet: Sheet)
        ensures
            sheet.wf(),
            sheet@.placements == Seq::<Placement>::empty(),
            sheet@.max_width == if max_width <= MAX_SPAN {
                max_width
            } else {
                MAX_SPAN
            },
            sheet@.max_height == if max_height <= MAX_SPAN {
                max_height
            } else {
                MAX_SPAN
            },
    {
        Sheet {
            max_width: if max_width <= MAX_SPAN {
                max_width
            } else {
                MAX_SPAN
            },
            max_height: if max_height <= MAX_SPAN {
                max_height
            } else {
                MAX_SPAN
            },
            placed: Vec::new(),
            extent_width: 0,
            extent_height: 0,
        }
    }

    /// The bounds that the sheet keeps its rectangles in.
    pub fn bounds(&self) -> (bounds: (u32, u32))
        ensures
            bounds.0 == self@.max_width,
            bounds.1 == self@.max_height,
    {
        (self.max_width, self.max_height)
    }

    /// The size of the smallest canvas that holds every rectangle.
    pub fn current_extent(&self) -> (extent: (u32, u32))
        requires
            self.wf(),
        ensures
            extent.0 == self@.extent_width(),
            extent.1 == self@.extent_height(),
    {
        (self.extent_width, self.extent_height)
    }

    /// The rectangles of the sheet, oldest first.
    pub fn placements(&self) -> (placed: &Vec<Placement>)
        ensures
            placed@ == self@.placements,
    {
        &self.placed
    }

    /// Tests whether `spot` collides with no rectangle of the sheet.
    pub fn is_clear(&self, spot: &Placement) -> (clear: bool)
        ensures
            clear == clear_of(*spot, self@.placements),
    {
        let mut i: usize = 0;
        while i < self.placed.len()
            invariant
                i <= self.placed.len(),
                forall|k: int| 0 <= k < i ==> !spot.overlaps(#[trigger] self.placed@[k]),
            decreases self.placed.len() - i,
        {
            if spot.intersects(&self.placed[i]) {
                return false;
            }
            i += 1;
        }
        true
    }

    /// Tests whether `spot` may join the sheet as the answer to a request of
    /// `width` by `height` pixels.
    pub fn admits(&self, spot: &Placement, width: u32, height: u32) -> (admitted: bool)
        requires
            self.wf(),
        ensures
            admitted == self@.admits(*spot, width as int, height as int),
    {
        let plain = spot.width > 0 && spot.height > 0 && spot.width == width && spot.height
            == height && spot.fits_within(self.max_width, self.max_height) && self.is_clear(spot);
        if !plain {
            return false;
        }
        let grown = self.grown_extent(spot);
        is_addressable(grown.0, grown.1)
    }

    /// The extent of the sheet with `spot` on it.
    fn grown_extent(&self, spot: &Placement) -> (grown: (u32, u32))
        requires
            self.wf(),
            spot.within(self@.max_width, self@.max_height),
        ensures
            grown.0 == extent_width(self@.placements.push(*spot)),
            grown.1 == extent_height(self@.placements.push(*spot)),
    {
        proof {
            assert(self@.placements.push(*spot).drop_last() =~= self@.placements);
        }
        let right = spot.x + spot.width;
        let bottom = spot.y + spot.height;
        (
            if right > self.extent_width {
                right
            } else {
                self.extent_width
            },
            if bottom > self.extent_height {
                bottom
            } else {
                self.extent_height
            },
        )
    }

    /// Puts `spot` on the sheet if the sheet admits it for a request of
    /// `width` by `height` pixels, and says whether it did.
    pub fn accept(&mut self, spot: Placement, width: u32, height: u32) -> (accepted: bool)
        requires
            old(self).wf(),
        ensures
            final(self).wf(),
            accepted == old(self)@.admits(spot, width as int, height as int),
            final(self)@ == if accepted {
                old(self)@.after(spot)
            } else {
                old(self)@
            },
    {
        if !self.admits(&spot, width, height) {
            return false;
        }
        let grown = self.grown_extent(&spot);
        proof {
            lemma_admitted_keeps_sound(self@, spot, width as int, height as int);
        }
        self.placed.push(spot);
        self.extent_width = grown.0;
        self.extent_height = grown.1;
        true
    }
}

} // verus!
