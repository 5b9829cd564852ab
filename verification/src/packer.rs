//! The rectangle packer: it hands every request a rectangle on a sheet that
//! only grows, and vouches that no two of its rectangles collide and that
//! none leaves the sheet.
//!
//! Where a rectangle goes is the skyline engine's choice. The packer holds
//! each choice to the rules of its sheet before it accepts it, so what it
//! promises of its placements does not rest on the engine.

use crate::engine::{engine_bounds, engine_frame, engine_log, engine_new, engine_pack, skyline_frame, Placed, SkylineEngine};
use crate::geometry::{is_addressable, Placement};
use crate::sheet::{lemma_oversize_never_admitted, Sheet, SheetModel, MAX_SPAN};
use vstd::prelude::*;

verus! {

/// A request that found no room on the sheet.
#[derive(Clone, Debug, PartialEq, Eq)]
pub struct PackingOverflow {
    /// The identifier that the rectangle was requested under.
    pub identifier: String,
    /// The requested width.
    pub width: u32,
    /// The requested height.
    pub height: u32,
}

/// What a packer's answers depend on: its bounds and the rectangles it has
/// handed out, oldest first, each with the identifier it was requested under.
pub struct PackerModel {
    pub max_width: int,
    pub max_height: int,
    pub log: Seq<Placed>,
}

impl PackerModel {
    /// The rectangles handed out so far, oldest first.
    pub open spec fn placements(self) -> Seq<Placement> {
        self.log.map_values(|entry: Placed| entry.1)
    }

    /// The packer's sheet.
    pub open spec fn sheet(self) -> SheetModel {
        SheetModel {
            max_width: self.max_width,
            max_height: self.max_height,
            placements: self.placements(),
        }
    }

    /// The width of the sheet so far.
    pub open spec fn extent_width(self) -> int {
        self.sheet().extent_width()
    }

    /// The height of the sheet so far.
    pub open spec fn extent_height(self) -> int {
        self.sheet().extent_height()
    }

    /// The packer's sheet keeps its rules.
    pub open spec fn sound(self) -> bool {
        self.sheet().sound()
    }

    /// The packer with one more rectangle handed out.
    pub open spec fn after(self, identifier: Seq<char>, spot: Placement) -> PackerModel {
        PackerModel { log: self.log.push((identifier, spot)), ..self }
    }

    /// The engine's choice for a request. The engine is made one row taller
    /// than the packer's bound, because it keeps the row below each rectangle
    /// inside its own.
    pub open spec fn proposal(self, width: int, height: int) -> Option<Placement> {
        skyline_frame((self.max_width, self.max_height + 1), self.log, width, height)
    }

    /// The packer's answer to a request: the engine's choice where there is
    /// one and the sheet admits it, and no rectangle otherwise.
    pub open spec fn answer(self, width: int, height: int) -> Option<Placement> {
        match self.proposal(width, height) {
            Some(spot) => if self.sheet().admits(spot, width, height) {
                Some(spot)
            } else {
                None
            },
            None => None,
        }
    }
}

/// Two packers with the same bounds that have handed out the same
/// rectangles under the same identifiers answer every request alike: a
/// placement depends on nothing but the bounds and the requests so far.
pub proof fn lemma_answers_agree(a: PackerModel, b: PackerModel, width: int, height: int)
    requires
        a.max_width == b.max_width,
        a.max_height == b.max_height,
        a.log == b.log,
    ensures
        a.answer(width, height) == b.answer(width, height),
{
}

/// A skyline packer for one sheet. Requests are answered in the order they
/// come; a rectangle, once handed out, is never moved.
pub struct RectanglePacker {
    engine: SkylineEngine,
    sheet: Sheet,
}

impl View for RectanglePacker {
    type V = PackerModel;

    closed spec fn view(&self) -> PackerModel {
        PackerModel {
            max_width: self.sheet@.max_width,
            max_height: self.sheet@.max_height,
            log: engine_log(self.engine),
        }
    }
}

impl RectanglePacker {
    /// The packer's invariant. It implies `self@.sound()`.
    pub closed spec fn wf(&self) -> bool {
        &&& self.sheet.wf()
        &&& self.sheet@ == self@.sheet()
        &&& engine_bounds(self.engine) == (self.sheet@.max_width, self.sheet@.max_height + 1)
    }

    /// A well-formed packer keeps the rules of its model.
    pub proof fn lemma_wf_sound(&self)
        requires
            self.wf(),
        ensures
            self@.sound(),
    {
        self.sheet.lemma_wf_sound();
    }

    /// A packer for a sheet of at most `max_width` by `max_height` pixels,
    /// each lowered to `MAX_SPAN` where it is above it.
    pub fn new(max_width: u32, max_height: u32) -> (packer: RectanglePacker)
        ensures
            packer.wf(),
            packer@.log == Seq::<Placed>::empty(),
            packer@.max_width == if max_width <= MAX_SPAN {
                max_width
            } else {
                MAX_SPAN
            },
            packer@.max_height == if max_height <= MAX_SPAN {
                max_height
            } else {
                MAX_SPAN
            },
    {
        let sheet = Sheet::new(max_width, max_height);
        proof {
            sheet.lemma_wf_sound();
        }
        let bounds = sheet.bounds();
        let engine = engine_new(bounds.0, bounds.1 + 1);
        let packer = RectanglePacker { engine, sheet };
        assert(packer@.placements() =~= Seq::<Placement>::empty());
        packer
    }

    /// The bounds that the packer keeps its rectangles in.
    pub fn bounds(&self) -> (bounds: (u32, u32))
        ensures
            bounds.0 == self@.max_width,
            bounds.1 == self@.max_height,
    {
        self.sheet.bounds()
    }

    /// The size of the smallest sheet that holds every rectangle handed out
    /// so far.
    pub fn current_extent(&self) -> (extent: (u32, u32))
        requires
            self.wf(),
        ensures
            extent.0 == self@.extent_width(),
            extent.1 == self@.extent_height(),
    {
        self.sheet.current_extent()
    }

    /// The rectangles handed out so far, oldest first.
    pub fn placements(&self) -> (placed: &Vec<Placement>)
        requires
            self.wf(),
        ensures
            placed@ == self@.placements(),
    {
        self.sheet.placements()
    }

    /// Finds room for a rectangle of `width` by `height` pixels and hands it
    /// out under `identifier`.
    ///
    /// The packer comes back with the rectangle where the request is
    /// answered. A request that finds no room ends the packer.
    pub fn place(self, identifier: &String, width: u32, height: u32) -> (r: Result<
        (RectanglePacker, Placement),
        PackingOverflow,
    >)
        requires
            self.wf(),
            width > 0,
            height > 0,
        ensures
            match r {
                Ok((packer, spot)) => {
                    &&& self@.answer(width as int, height as int) == Some(spot)
                    &&& packer.wf()
                    &&& packer@ == self@.after(identifier@, spot)
                },
                Err(overflow) => {
                    &&& self@.answer(width as int, height as int) is None
                    &&& overflow.identifier@ == identifier@
                    &&& overflow.width == width
                    &&& overflow.height == height
                },
            },
    {
        let ghost before = self@;
        proof {
            self.sheet.lemma_wf_sound();
        }
        let bounds = self.sheet.bounds();
        let fits = width <= bounds.0 && height <= bounds.1 && is_addressable(width, height);
        if !fits {
            proof {
                if before.proposal(width as int, height as int) is Some {
                    lemma_oversize_never_admitted(
                        before.sheet(),
                        before.proposal(width as int, height as int)->Some_0,
                        width as int,
                        height as int,
                    );
                }
            }
            return Err(PackingOverflow { identifier: identifier.clone(), width, height });
        }
        let RectanglePacker { engine, sheet } = self;
        let mut engine = engine;
        let mut sheet = sheet;
        assert(4 * width * height <= isize::MAX);
        let packed = engine_pack(&mut engine, identifier, width, height);
        if !packed {
            return Err(PackingOverflow { identifier: identifier.clone(), width, height });
        }
        let ghost proposed = before.proposal(width as int, height as int)->Some_0;
        let found = engine_frame(&engine, identifier);
        assert(engine_log(engine).drop_last() =~= before.log);
        assert(found == Some(proposed));
        let spot = found.unwrap();
        if !sheet.accept(spot, width, height) {
            return Err(PackingOverflow { identifier: identifier.clone(), width, height });
        }
        let packer = RectanglePacker { engine, sheet };
        proof {
            let after = before.after(identifier@, spot);
            assert(packer@ == after);
            assert(after.placements() =~= before.placements().push(spot));
        }
        Ok((packer, spot))
    }
}

} // verus!
