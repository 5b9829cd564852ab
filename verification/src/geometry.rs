//! Axis-aligned rectangles on the pixel grid and what it means for them to
//! collide, to stay inside a sheet, and to span an extent.

use vstd::prelude::*;

verus! {

/// Where a frame sits in the atlas: its top-left corner and its size, in
/// pixels. Rectangles are never rotated.
#[derive(Clone, Copy, Debug, PartialEq, Eq, Structural)]
pub struct Placement {
    pub x: u32,
    pub y: u32,
    pub width: u32,
    pub height: u32,
}

impl Placement {
    /// The first column to the right of the rectangle.
    pub open spec fn right(self) -> int {
        self.x + self.width
    }

    /// The first row below the rectangle.
    pub open spec fn bottom(self) -> int {
        self.y + self.height
    }

    /// Whether the pixel `(px, py)` lies in the rectangle.
    pub open spec fn covers(self, px: int, py: int) -> bool {
        self.x <= px < self.right() && self.y <= py < self.bottom()
    }

    /// Whether the two rectangles share a pixel.
    pub open spec fn overlaps(self, other: Placement) -> bool {
        &&& self.x < other.right()
        &&& other.x < self.right()
        &&& self.y < other.bottom()
        &&& other.y < self.bottom()
    }

    /// Whether the rectangle lies in `[0, width) x [0, height)`.
    pub open spec fn within(self, width: int, height: int) -> bool {
        self.right() <= width && self.bottom() <= height
    }

    /// Whether the rectangle holds at least one pixel.
    pub open spec fn nonempty(self) -> bool {
        self.width > 0 && self.height > 0
    }

    /// Tests whether the two rectangles share a pixel.
    pub fn intersects(&self, other: &Placement) -> (hit: bool)
        ensures
            hit == self.overlaps(*other),
    {
        let self_right: u64 = self.x as u64 + self.width as u64;
        let self_bottom: u64 = self.y as u64 + self.height as u64;
        let other_right: u64 = other.x as u64 + other.width as u64;
        let other_bottom: u64 = other.y as u64 + other.height as u64;
        (self.x as u64) < other_right && (other.x as u64) < self_right && (self.y as u64)
            < other_bottom && (other.y as u64) < self_bottom
    }

    /// Tests whether the rectangle lies in `[0, width) x [0, height)`.
    pub fn fits_within(&self, width: u32, height: u32) -> (inside: bool)
        ensures
            inside == self.within(width as int, height as int),
    {
        self.x as u64 + self.width as u64 <= width as u64 && self.y as u64 + self.height as u64
            <= height as u64
    }
}

/// No two rectangles of the sequence share a pixel.
pub open spec fn pairwise_disjoint(placements: Seq<Placement>) -> bool {
    forall|i: int, j: int|
        0 <= i < j < placements.len() ==> !(#[trigger] placements[i]).overlaps(
            #[trigger] placements[j],
        )
}

/// The rectangle shares no pixel with any rectangle of the sequence.
pub open spec fn clear_of(candidate: Placement, placements: Seq<Placement>) -> bool {
    forall|i: int| 0 <= i < placements.len() ==> !candidate.overlaps(#[trigger] placements[i])
}

/// Whether a sheet of this size, at four bytes per pixel, can be held in one
/// buffer.
pub open spec fn sheet_addressable(width: int, height: int) -> bool {
    4 * width * height <= isize::MAX
}

/// Tests whether a sheet of this size can be held in one buffer.
pub fn is_addressable(width: u32, height: u32) -> (ok: bool)
    ensures
        ok == sheet_addressable(width as int, height as int),
{
    assert(width * height <= 0xffff_ffff * 0xffff_ffff) by (nonlinear_arith)
        requires
            width <= 0xffff_ffff,
            height <= 0xffff_ffff,
    ;
    assert(4 * width * height == 4 * (width * height)) by (nonlinear_arith);
    let cells: u64 = width as u64 * height as u64;
    let most: u64 = (isize::MAX as u64) / 4;
    cells <= most
}

/// The width of the smallest sheet anchored at the origin that holds every
/// rectangle of the sequence.
pub open spec fn extent_width(placements: Seq<Placement>) -> int
    decreases placements.len(),
{
    if placements.len() == 0 {
        0
    } else {
        let rest = extent_width(placements.drop_last());
        let right = placements.last().right();
        if right > rest {
            right
        } else {
            rest
        }
    }
}

/// The height of the smallest sheet anchored at the origin that holds every
/// rectangle of the sequence.
pub open spec fn extent_height(placements: Seq<Placement>) -> int
    decreases placements.len(),
{
    if placements.len() == 0 {
        0
    } else {
        let rest = extent_height(placements.drop_last());
        let bottom = placements.last().bottom();
        if bottom > rest {
            bottom
        } else {
            rest
        }
    }
}

/// Two non-empty rectangles overlap exactly when some pixel lies in both.
pub proof fn lemma_overlap_is_shared_pixel(a: Placement, b: Placement)
    requires
        a.nonempty(),
        b.nonempty(),
    ensures
        a.overlaps(b) <==> exists|px: int, py: int| a.covers(px, py) && b.covers(px, py),
{
    if a.overlaps(b) {
        let px = if a.x >= b.x {
            a.x as int
        } else {
            b.x as int
        };
        let py = if a.y >= b.y {
            a.y as int
        } else {
            b.y as int
        };
        assert(a.covers(px, py) && b.covers(px, py));
    }
}

/// Every rectangle of a sequence lies inside the sequence's extent, and the
/// extent is the smallest such sheet: it is empty for no rectangles, and
/// otherwise some rectangle touches its right edge and some its bottom edge.
pub proof fn lemma_extent_encloses(placements: Seq<Placement>)
    ensures
        forall|i: int|
            0 <= i < placements.len() ==> (#[trigger] placements[i]).within(
                extent_width(placements),
                extent_height(placements),
            ),
        placements.len() == 0 ==> extent_width(placements) == 0 && extent_height(placements) == 0,
        placements.len() > 0 ==> exists|i: int|
            0 <= i < placements.len() && (#[trigger] placements[i]).right() == extent_width(
                placements,
            ),
        placements.len() > 0 ==> exists|i: int|
            0 <= i < placements.len() && (#[trigger] placements[i]).bottom() == extent_height(
                placements,
            ),
    decreases placements.len(),
{
    if placements.len() > 0 {
        let rest = placements.drop_last();
        let last = placements.len() - 1;
        lemma_extent_encloses(rest);
        assert forall|i: int| 0 <= i < placements.len() implies (#[trigger] placements[i]).within(
            extent_width(placements),
            extent_height(placements),
        ) by {
            if i < last {
                assert(rest[i] == placements[i]);
            }
        }
        if placements.last().right() > extent_width(rest) || rest.len() == 0 {
            assert(placements[last].right() == extent_width(placements));
        } else {
            let i = choose|i: int|
                0 <= i < rest.len() && (#[trigger] rest[i]).right() == extent_width(rest);
            assert(placements[i].right() == extent_width(placements));
        }
        if placements.last().bottom() > extent_height(rest) || rest.len() == 0 {
            assert(placements[last].bottom() == extent_height(placements));
        } else {
            let i = choose|i: int|
                0 <= i < rest.len() && (#[trigger] rest[i]).bottom() == extent_height(rest);
            assert(placements[i].bottom() == extent_height(placements));
        }
    }
}

/// The extent of the first `count` rectangles of a sequence is no larger
/// than the extent of all of them.
pub proof fn lemma_extent_of_prefix(placements: Seq<Placement>, count: int)
    requires
        0 <= count <= placements.len(),
    ensures
        extent_width(placements.take(count)) <= extent_width(placements),
        extent_height(placements.take(count)) <= extent_height(placements),
    decreases placements.len(),
{
    if count == placements.len() {
        assert(placements.take(count) =~= placements);
    } else {
        assert(placements.drop_last().take(count) =~= placements.take(count));
        lemma_extent_of_prefix(placements.drop_last(), count);
    }
}

} // verus!
