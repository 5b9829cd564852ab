//! What a build is, step by step, over plain values: which frame gets which
//! identifier, which part of it is packed, when the build stops and with
//! which failure, and what the finished canvas shows at every pixel.

use crate::bitmap::Raster;
use crate::geometry::{extent_height, extent_width, lemma_extent_of_prefix, pairwise_disjoint, Placement};
use crate::identifier::identifier_of;
use crate::packer::PackerModel;
use crate::registry::{identifiers_distinct, names, FrameRecord};
use crate::sheet::lemma_admitted_keeps_sound;
use vstd::prelude::*;

verus! {

/// Why a build stops.
pub enum Failure {
    /// A source that was asked for could not be found at its path.
    SourceNotFound { name: Seq<char>, path: Seq<char> },
    /// A source could not be decoded, or a frame's buffer does not match its
    /// size. The path is that of the source where the build knows it.
    DecodeFailure { name: Seq<char>, path: Seq<char>, reason: Seq<char> },
    /// A frame has nothing to pack: it has no pixels, or trimming leaves none.
    EmptyFrame { identifier: Seq<char> },
    /// Two frames would carry the same identifier.
    DuplicateFrameIdentifier { identifier: Seq<char> },
    /// The packer has no room for a frame.
    PackingOverflow { identifier: Seq<char>, width: int, height: int },
}

impl Failure {
    /// The failure as it is reported for the source at `path`: a decode
    /// failure names the path, every other failure stays as it is.
    pub open spec fn located(self, path: Seq<char>) -> Failure {
        match self {
            Failure::DecodeFailure { name, path: _, reason } => Failure::DecodeFailure {
                name,
                path,
                reason,
            },
            _ => self,
        }
    }
}

/// What is said of a frame whose buffer does not match its size.
pub open spec fn mismatch_reason() -> Seq<char> {
    "the pixel buffer does not match the frame size"@
}

/// What is said of a source with more frames than can be numbered.
pub open spec fn overcount_reason() -> Seq<char> {
    "the source has more frames than can be numbered"@
}

/// What a decoder made of a source.
pub enum FramesModel {
    /// There is no such source.
    NotFound,
    /// The source could not be decoded, for the reason given.
    Undecodable { reason: Seq<char> },
    /// The images of the source's frames, in order.
    Decoded { frames: Seq<Raster> },
}

/// A source as it is handed to a build: its name, where it was looked for,
/// and what the decoder made of it.
pub struct SourceModel {
    pub name: Seq<char>,
    pub path: Seq<char>,
    pub frames: FramesModel,
}

impl SourceModel {
    /// The number of frames that the source brings to a build.
    pub open spec fn count(self) -> nat {
        match self.frames {
            FramesModel::Decoded { frames } => frames.len(),
            _ => 0,
        }
    }

    /// The image of frame `index` of a decoded source.
    pub open spec fn image(self, index: int) -> Raster {
        self.frames->frames[index]
    }
}

/// The number of frames that the first `upto` sources bring to a build.
pub open spec fn frames_through(sources: Seq<SourceModel>, upto: nat) -> nat
    decreases upto,
{
    if upto == 0 {
        0
    } else {
        frames_through(sources, (upto - 1) as nat) + sources[upto - 1].count()
    }
}

/// A frame that a build has packed: its registry record, the image it came
/// as, and the part of that image that the atlas shows.
pub struct Packed {
    pub record: FrameRecord,
    pub source: Raster,
    pub part: Placement,
}

impl Packed {
    /// The frame's rectangle in the atlas.
    pub open spec fn spot(self) -> Placement {
        self.record.placement
    }

    /// The part that goes into the atlas lies in the source image and is as
    /// large as the frame's rectangle.
    pub open spec fn fitted(self) -> bool {
        &&& self.source.wf()
        &&& self.part.within(self.source.width, self.source.height)
        &&& self.part.width == self.spot().width
        &&& self.part.height == self.spot().height
    }
}

/// The registry records of packed frames.
pub open spec fn records_of(frames: Seq<Packed>) -> Seq<FrameRecord> {
    frames.map_values(|frame: Packed| frame.record)
}

/// The rectangles of packed frames.
pub open spec fn spots_of(frames: Seq<Packed>) -> Seq<Placement> {
    frames.map_values(|frame: Packed| frame.spot())
}

/// Channel `c` of the pixel `(px, py)` of the canvas that shows the frames:
/// the pixel of the frame that was painted last over it, and zero where no
/// frame lies.
pub open spec fn canvas_byte(frames: Seq<Packed>, px: int, py: int, c: int) -> u8
    decreases frames.len(),
{
    if frames.len() == 0 {
        0
    } else {
        let top = frames.last();
        if top.spot().covers(px, py) {
            top.source.byte(top.part.x + px - top.spot().x, top.part.y + py - top.spot().y, c)
        } else {
            canvas_byte(frames.drop_last(), px, py, c)
        }
    }
}

/// The part of a frame that is packed: all of it, or its content box where
/// frames are trimmed. A frame without pixels has none.
pub open spec fn frame_part(trim: bool, frame: Raster) -> Option<Placement> {
    if frame.width <= 0 || frame.height <= 0 {
        None
    } else if trim {
        frame.content_box()
    } else {
        Some(Placement { x: 0, y: 0, width: frame.width as u32, height: frame.height as u32 })
    }
}

/// A build in progress: whether it trims, its packer, and the frames packed
/// so far, oldest first.
pub struct BuilderModel {
    pub trim: bool,
    pub packer: PackerModel,
    pub frames: Seq<Packed>,
}

impl BuilderModel {
    /// What every build in progress keeps: its packer is sound and holds one
    /// rectangle per frame, under the frame's identifier; every frame's part
    /// fits its rectangle; and no two frames share an identifier.
    pub open spec fn sound(self) -> bool {
        &&& self.packer.sound()
        &&& self.frames.len() == self.packer.log.len()
        &&& forall|k: int|
            0 <= k < self.frames.len() ==> {
                &&& (#[trigger] self.frames[k]).record.identifier == self.packer.log[k].0
                &&& self.frames[k].spot() == self.packer.log[k].1
                &&& self.frames[k].fitted()
            }
        &&& identifiers_distinct(records_of(self.frames))
    }

    /// Packs one frame: frame `index` of `count` of the source `basename`.
    ///
    /// The build stops where the frame's buffer does not match its size,
    /// where its identifier is taken, where it has nothing to pack, or where
    /// the packer has no room for it; the checks are made in this order.
    pub open spec fn add_frame(self, basename: Seq<char>, index: nat, count: nat, frame: Raster) -> Result<
        BuilderModel,
        Failure,
    > {
        let identifier = identifier_of(basename, index, count);
        if !frame.wf() {
            Err(
                Failure::DecodeFailure {
                    name: basename,
                    path: Seq::empty(),
                    reason: mismatch_reason(),
                },
            )
        } else if names(records_of(self.frames), identifier) {
            Err(Failure::DuplicateFrameIdentifier { identifier })
        } else {
            match frame_part(self.trim, frame) {
                None => Err(Failure::EmptyFrame { identifier }),
                Some(part) => match self.packer.answer(part.width as int, part.height as int) {
                    None => Err(
                        Failure::PackingOverflow {
                            identifier,
                            width: part.width as int,
                            height: part.height as int,
                        },
                    ),
                    Some(spot) => Ok(
                        BuilderModel {
                            trim: self.trim,
                            packer: self.packer.after(identifier, spot),
                            frames: self.frames.push(
                                Packed {
                                    record: FrameRecord {
                                        identifier,
                                        basename,
                                        frame: index as int,
                                        placement: spot,
                                    },
                                    source: frame,
                                    part,
                                },
                            ),
                        },
                    ),
                },
            }
        }
    }

    /// Packs the first `upto` frames of a source, in order, and stops at the
    /// first that fails.
    pub open spec fn add_frames(self, basename: Seq<char>, frames: Seq<Raster>, upto: nat) -> Result<
        BuilderModel,
        Failure,
    >
        decreases upto,
    {
        if upto == 0 {
            Ok(self)
        } else {
            match self.add_frames(basename, frames, (upto - 1) as nat) {
                Ok(before) => before.add_frame(
                    basename,
                    (upto - 1) as nat,
                    frames.len(),
                    frames[upto - 1],
                ),
                Err(failure) => Err(failure),
            }
        }
    }

    /// Packs every frame of one source. The build stops where the source
    /// was not found, could not be decoded or has too many frames to number,
    /// and at the first frame that fails.
    pub open spec fn add_source(self, source: SourceModel) -> Result<BuilderModel, Failure> {
        match source.frames {
            FramesModel::NotFound => Err(
                Failure::SourceNotFound { name: source.name, path: source.path },
            ),
            FramesModel::Undecodable { reason } => Err(
                Failure::DecodeFailure { name: source.name, path: source.path, reason },
            ),
            FramesModel::Decoded { frames } => if frames.len() > u32::MAX {
                Err(
                    Failure::DecodeFailure {
                        name: source.name,
                        path: source.path,
                        reason: overcount_reason(),
                    },
                )
            } else {
                match self.add_frames(source.name, frames, frames.len()) {
                    Ok(next) => Ok(next),
                    Err(failure) => Err(failure.located(source.path)),
                }
            },
        }
    }

    /// Packs the first `upto` sources, in order, and stops at the first
    /// failure.
    pub open spec fn add_sources(self, sources: Seq<SourceModel>, upto: nat) -> Result<
        BuilderModel,
        Failure,
    >
        decreases upto,
    {
        if upto == 0 {
            Ok(self)
        } else {
            match self.add_sources(sources, (upto - 1) as nat) {
                Ok(before) => before.add_source(sources[upto - 1]),
                Err(failure) => Err(failure),
            }
        }
    }
}

/// A frame that is packed leaves the build sound.
pub proof fn lemma_add_frame_sound(
    builder: BuilderModel,
    basename: Seq<char>,
    index: nat,
    count: nat,
    frame: Raster,
    next: BuilderModel,
)
    requires
        builder.sound(),
        builder.add_frame(basename, index, count, frame) == Ok::<BuilderModel, Failure>(next),
    ensures
        next.sound(),
{
    let identifier = identifier_of(basename, index, count);
    let last = builder.frames.len() as int;
    let part = next.frames[last].part;
    let spot = next.frames[last].spot();
    assert(frame_part(builder.trim, frame) == Some(part));
    assert(builder.packer.answer(part.width as int, part.height as int) == Some(spot));
    assert(builder.packer.sheet().admits(spot, part.width as int, part.height as int));
    lemma_admitted_keeps_sound(builder.packer.sheet(), spot, part.width as int, part.height as int);
    assert(next.packer.placements() =~= builder.packer.placements().push(spot));
    assert(next.packer.sheet() == builder.packer.sheet().after(spot));
    if builder.trim {
        assert(frame.is_content_box(part));
    }
    assert forall|k: int| 0 <= k < next.frames.len() implies {
        &&& (#[trigger] next.frames[k]).record.identifier == next.packer.log[k].0
        &&& next.frames[k].spot() == next.packer.log[k].1
        &&& next.frames[k].fitted()
    } by {
        if k < last {
            assert(next.frames[k] == builder.frames[k]);
        }
    }
    let before = records_of(builder.frames);
    let after = records_of(next.frames);
    assert forall|i: int, j: int| 0 <= i < j < after.len() implies (#[trigger] after[i]).identifier
        != (#[trigger] after[j]).identifier by {
        assert(after[i] == before[i]);
        if j < last {
            assert(after[j] == before[j]);
        }
    }
}

/// Frames that are packed leave the build sound.
pub proof fn lemma_add_frames_sound(
    builder: BuilderModel,
    basename: Seq<char>,
    frames: Seq<Raster>,
    upto: nat,
    next: BuilderModel,
)
    requires
        builder.sound(),
        builder.add_frames(basename, frames, upto) == Ok::<BuilderModel, Failure>(next),
    ensures
        next.sound(),
    decreases upto,
{
    if upto > 0 {
        match builder.add_frames(basename, frames, (upto - 1) as nat) {
            Ok(before) => {
                lemma_add_frames_sound(builder, basename, frames, (upto - 1) as nat, before);
                lemma_add_frame_sound(
                    before,
                    basename,
                    (upto - 1) as nat,
                    frames.len(),
                    frames[upto - 1],
                    next,
                );
            },
            Err(_) => {},
        }
    }
}

/// Every build keeps its rules from the first source to the last: whatever
/// the sources hold, the frames that are packed never share a pixel or an
/// identifier, and each lies within the bounds.
pub proof fn lemma_add_sources_sound(
    builder: BuilderModel,
    sources: Seq<SourceModel>,
    upto: nat,
    next: BuilderModel,
)
    requires
        builder.sound(),
        builder.add_sources(sources, upto) == Ok::<BuilderModel, Failure>(next),
    ensures
        next.sound(),
    decreases upto,
{
    if upto > 0 {
        match builder.add_sources(sources, (upto - 1) as nat) {
            Ok(before) => {
                lemma_add_sources_sound(builder, sources, (upto - 1) as nat, before);
                let source = sources[upto - 1];
                lemma_add_frames_sound(before, source.name, source.frames->frames, source.count(), next);
            },
            Err(_) => {},
        }
    }
}

/// A frame whose buffer matches its size and whose identifier is taken is
/// refused, and the failure names the identifier.
pub proof fn lemma_taken_identifier_refused(
    builder: BuilderModel,
    basename: Seq<char>,
    index: nat,
    count: nat,
    frame: Raster,
)
    requires
        frame.wf(),
        names(records_of(builder.frames), identifier_of(basename, index, count)),
    ensures
        builder.add_frame(basename, index, count, frame) == Err::<BuilderModel, Failure>(
            Failure::DuplicateFrameIdentifier { identifier: identifier_of(basename, index, count) },
        ),
{
}

/// Once packing the frames of a source has failed, looking at more of them
/// changes nothing.
pub proof fn lemma_frames_failure_stays(
    builder: BuilderModel,
    basename: Seq<char>,
    frames: Seq<Raster>,
    failed: nat,
    upto: nat,
)
    requires
        failed <= upto,
        builder.add_frames(basename, frames, failed) is Err,
    ensures
        builder.add_frames(basename, frames, upto) == builder.add_frames(basename, frames, failed),
    decreases upto,
{
    if failed < upto {
        lemma_frames_failure_stays(builder, basename, frames, failed, (upto - 1) as nat);
    }
}

/// Once packing the sources has failed, looking at more of them changes
/// nothing.
pub proof fn lemma_sources_failure_stays(
    builder: BuilderModel,
    sources: Seq<SourceModel>,
    failed: nat,
    upto: nat,
)
    requires
        failed <= upto,
        builder.add_sources(sources, failed) is Err,
    ensures
        builder.add_sources(sources, upto) == builder.add_sources(sources, failed),
    decreases upto,
{
    if failed < upto {
        lemma_sources_failure_stays(builder, sources, failed, (upto - 1) as nat);
    }
}

/// Packing a frame keeps every frame packed before it and puts the new one
/// behind them, under its source's name, its index and the identifier that
/// the two give it.
pub proof fn lemma_frame_recorded(
    builder: BuilderModel,
    basename: Seq<char>,
    index: nat,
    count: nat,
    frame: Raster,
    next: BuilderModel,
)
    requires
        builder.add_frame(basename, index, count, frame) == Ok::<BuilderModel, Failure>(next),
    ensures
        next.frames.len() == builder.frames.len() + 1,
        next.frames.take(builder.frames.len() as int) == builder.frames,
        next.frames.last().record.identifier == identifier_of(basename, index, count),
        next.frames.last().record.basename == basename,
        next.frames.last().record.frame == index,
        next.frames.last().source == frame,
{
    assert(next.frames.take(builder.frames.len() as int) =~= builder.frames);
}

/// Packing the frames of a source keeps every frame packed before them and
/// puts one record per frame behind them, in the order of the frames, each
/// under the source's name, the frame's index and its identifier.
pub proof fn lemma_frames_recorded(
    builder: BuilderModel,
    basename: Seq<char>,
    frames: Seq<Raster>,
    upto: nat,
    next: BuilderModel,
)
    requires
        upto <= frames.len(),
        builder.add_frames(basename, frames, upto) == Ok::<BuilderModel, Failure>(next),
    ensures
        next.frames.len() == builder.frames.len() + upto,
        next.frames.take(builder.frames.len() as int) == builder.frames,
        forall|j: int|
            0 <= j < upto ==> {
                let packed = #[trigger] next.frames[builder.frames.len() + j];
                &&& packed.record.identifier == identifier_of(basename, j as nat, frames.len())
                &&& packed.record.basename == basename
                &&& packed.record.frame == j
                &&& packed.source == frames[j]
            },
    decreases upto,
{
    if upto == 0 {
        assert(next.frames.take(builder.frames.len() as int) =~= builder.frames);
    } else {
        match builder.add_frames(basename, frames, (upto - 1) as nat) {
            Ok(before) => {
                lemma_frames_recorded(builder, basename, frames, (upto - 1) as nat, before);
                lemma_frame_recorded(
                    before,
                    basename,
                    (upto - 1) as nat,
                    frames.len(),
                    frames[upto - 1],
                    next,
                );
                assert(next.frames.take(builder.frames.len() as int) =~= before.frames.take(
                    builder.frames.len() as int,
                ));
                assert forall|j: int| 0 <= j < upto implies {
                    let packed = #[trigger] next.frames[builder.frames.len() + j];
                    &&& packed.record.identifier == identifier_of(
                        basename,
                        j as nat,
                        frames.len(),
                    )
                    &&& packed.record.basename == basename
                    &&& packed.record.frame == j
                    &&& packed.source == frames[j]
                } by {
                    if j < upto - 1 {
                        assert(next.frames[builder.frames.len() + j] == next.frames.take(
                            before.frames.len() as int,
                        )[builder.frames.len() + j]);
                    }
                }
            },
            Err(_) => {},
        }
    }
}

/// A finished build holds one record per frame of its sources and no other:
/// the records stand in the order of the sources and, within a source, of
/// its frames, each under the source's name, the frame's index and the
/// identifier that the two give it, beside the image it was decoded to.
pub proof fn lemma_sources_recorded(
    builder: BuilderModel,
    sources: Seq<SourceModel>,
    upto: nat,
    next: BuilderModel,
)
    requires
        upto <= sources.len(),
        builder.add_sources(sources, upto) == Ok::<BuilderModel, Failure>(next),
    ensures
        next.frames.len() == builder.frames.len() + frames_through(sources, upto),
        next.frames.take(builder.frames.len() as int) == builder.frames,
        forall|i: int, j: int|
            0 <= i < upto && 0 <= j < sources[i].count() ==> {
                let packed = #[trigger] next.frames[builder.frames.len() + frames_through(
                    sources,
                    i as nat,
                ) + j];
                &&& sources[i].frames is Decoded
                &&& packed.record.identifier == identifier_of(
                    sources[i].name,
                    j as nat,
                    sources[i].count(),
                )
                &&& packed.record.basename == sources[i].name
                &&& packed.record.frame == j
                &&& packed.source == sources[i].image(j)
            },
    decreases upto,
{
    if upto == 0 {
        assert(next.frames.take(builder.frames.len() as int) =~= builder.frames);
    } else {
        match builder.add_sources(sources, (upto - 1) as nat) {
            Ok(before) => {
                let source = sources[upto - 1];
                lemma_sources_recorded(builder, sources, (upto - 1) as nat, before);
                lemma_frames_recorded(
                    before,
                    source.name,
                    source.frames->frames,
                    source.count(),
                    next,
                );
                assert(next.frames.take(builder.frames.len() as int) =~= before.frames.take(
                    builder.frames.len() as int,
                ));
                assert forall|i: int, j: int|
                    0 <= i < upto && 0 <= j < sources[i].count() implies {
                    let packed = #[trigger] next.frames[builder.frames.len() + frames_through(
                        sources,
                        i as nat,
                    ) + j];
                    &&& sources[i].frames is Decoded
                    &&& packed.record.identifier == identifier_of(
                        sources[i].name,
                        j as nat,
                        sources[i].count(),
                    )
                    &&& packed.record.basename == sources[i].name
                    &&& packed.record.frame == j
                    &&& packed.source == sources[i].image(j)
                } by {
                    let at = builder.frames.len() + frames_through(sources, i as nat) + j;
                    if i < upto - 1 {
                        lemma_frames_through_grows(sources, (i + 1) as nat, (upto - 1) as nat);
                        assert(at < before.frames.len());
                        assert(next.frames[at] == next.frames.take(before.frames.len() as int)[at]);
                        assert(before.frames[at] == next.frames[at]);
                    } else {
                        assert(at == before.frames.len() + j);
                    }
                }
            },
            Err(_) => {},
        }
    }
}

/// More sources never bring fewer frames.
pub proof fn lemma_frames_through_grows(sources: Seq<SourceModel>, fewer: nat, more: nat)
    requires
        fewer <= more,
    ensures
        frames_through(sources, fewer) <= frames_through(sources, more),
    decreases more,
{
    if fewer < more {
        lemma_frames_through_grows(sources, fewer, (more - 1) as nat);
    }
}

/// A build depends on no source that it has not reached: two lists that
/// agree on their first `upto` sources build alike up to there.
pub proof fn lemma_same_prefix_same_build(
    builder: BuilderModel,
    a: Seq<SourceModel>,
    b: Seq<SourceModel>,
    upto: nat,
)
    requires
        upto <= a.len(),
        upto <= b.len(),
        forall|i: int| 0 <= i < upto ==> a[i] == b[i],
    ensures
        builder.add_sources(a, upto) == builder.add_sources(b, upto),
    decreases upto,
{
    if upto > 0 {
        lemma_same_prefix_same_build(builder, a, b, (upto - 1) as nat);
    }
}

/// A build is append-only: going on from `fewer` sources to `more` keeps
/// every record that stood after `fewer`, in its place, and never shrinks
/// the canvas.
pub proof fn lemma_build_extends(
    builder: BuilderModel,
    sources: Seq<SourceModel>,
    fewer: nat,
    more: nat,
    longer: BuilderModel,
)
    requires
        fewer <= more <= sources.len(),
        builder.add_sources(sources, more) == Ok::<BuilderModel, Failure>(longer),
    ensures
        match builder.add_sources(sources, fewer) {
            Ok(shorter) => {
                &&& shorter.frames.len() <= longer.frames.len()
                &&& longer.frames.take(shorter.frames.len() as int) == shorter.frames
                &&& extent_width(spots_of(shorter.frames)) <= extent_width(spots_of(longer.frames))
                &&& extent_height(spots_of(shorter.frames)) <= extent_height(
                    spots_of(longer.frames),
                )
            },
            Err(_) => false,
        },
    decreases more,
{
    if fewer == more {
        assert(longer.frames.take(longer.frames.len() as int) =~= longer.frames);
    } else {
        match builder.add_sources(sources, (more - 1) as nat) {
            Ok(before) => {
                let source = sources[more - 1];
                lemma_build_extends(builder, sources, fewer, (more - 1) as nat, before);
                lemma_frames_recorded(
                    before,
                    source.name,
                    source.frames->frames,
                    source.count(),
                    longer,
                );
                let shorter = builder.add_sources(sources, fewer)->Ok_0;
                let kept = shorter.frames.len() as int;
                assert(longer.frames.take(kept) =~= before.frames.take(kept)) by {
                    assert forall|n: int| 0 <= n < kept implies longer.frames[n]
                        == before.frames[n] by {
                        assert(longer.frames.take(before.frames.len() as int)[n]
                            == longer.frames[n]);
                    }
                }
                assert(spots_of(longer.frames).take(kept) =~= spots_of(shorter.frames));
                lemma_extent_of_prefix(spots_of(longer.frames), kept);
            },
            Err(_) => {},
        }
    }
}

/// A build over a list of sources that extends another keeps the other's
/// records, in their places, and its canvas is no smaller.
pub proof fn lemma_extended_list_keeps_records(
    builder: BuilderModel,
    shorter: Seq<SourceModel>,
    longer: Seq<SourceModel>,
    built: BuilderModel,
)
    requires
        shorter.len() <= longer.len(),
        forall|i: int| 0 <= i < shorter.len() ==> longer[i] == shorter[i],
        builder.add_sources(longer, longer.len()) == Ok::<BuilderModel, Failure>(built),
    ensures
        match builder.add_sources(shorter, shorter.len()) {
            Ok(before) => {
                &&& before.frames.len() <= built.frames.len()
                &&& built.frames.take(before.frames.len() as int) == before.frames
                &&& extent_width(spots_of(before.frames)) <= extent_width(spots_of(built.frames))
                &&& extent_height(spots_of(before.frames)) <= extent_height(
                    spots_of(built.frames),
                )
            },
            Err(_) => false,
        },
{
    lemma_same_prefix_same_build(builder, shorter, longer, shorter.len());
    lemma_build_extends(builder, longer, shorter.len(), longer.len(), built);
}

/// Frames whose rectangles are pairwise disjoint each show in full: the
/// canvas holds, at every pixel of a frame's rectangle, the pixel of the
/// frame's part that belongs there.
pub proof fn lemma_frame_shows(frames: Seq<Packed>, k: int, i: int, j: int, c: int)
    requires
        pairwise_disjoint(spots_of(frames)),
        0 <= k < frames.len(),
        0 <= i < frames[k].spot().width,
        0 <= j < frames[k].spot().height,
    ensures
        canvas_byte(frames, frames[k].spot().x + i, frames[k].spot().y + j, c)
            == frames[k].source.byte(frames[k].part.x + i, frames[k].part.y + j, c),
    decreases frames.len(),
{
    let last = frames.len() - 1;
    let px = frames[k].spot().x + i;
    let py = frames[k].spot().y + j;
    if k < last {
        let rest = frames.drop_last();
        assert(spots_of(frames)[k] == frames[k].spot());
        assert(spots_of(frames)[last] == frames[last].spot());
        assert(!frames[k].spot().overlaps(frames[last].spot()));
        assert(!frames[last].spot().covers(px, py));
        assert(rest[k] == frames[k]);
        assert forall|a: int, b: int| 0 <= a < b < spots_of(rest).len() implies !(
        #[trigger] spots_of(rest)[a]).overlaps(#[trigger] spots_of(rest)[b]) by {
            assert(spots_of(rest)[a] == spots_of(frames)[a]);
            assert(spots_of(rest)[b] == spots_of(frames)[b]);
        }
        lemma_frame_shows(rest, k, i, j, c);
    }
}

/// Where no frame lies, the canvas is fully transparent: every channel is
/// zero.
pub proof fn lemma_gaps_are_transparent(frames: Seq<Packed>, px: int, py: int, c: int)
    requires
        forall|k: int| 0 <= k < frames.len() ==> !(#[trigger] frames[k]).spot().covers(px, py),
    ensures
        canvas_byte(frames, px, py, c) == 0,
    decreases frames.len(),
{
    if frames.len() > 0 {
        let rest = frames.drop_last();
        assert(!frames[frames.len() - 1].spot().covers(px, py));
        assert forall|k: int| 0 <= k < rest.len() implies !(#[trigger] rest[k]).spot().covers(
            px,
            py,
        ) by {
            assert(rest[k] == frames[k]);
        }
        lemma_gaps_are_transparent(rest, px, py, c);
    }
}

/// In a sound build no two frames share a pixel or an identifier, and every
/// frame lies inside the extent of the sheet.
pub proof fn lemma_sound_build_keeps_apart(builder: BuilderModel)
    requires
        builder.sound(),
    ensures
        spots_of(builder.frames) == builder.packer.placements(),
        pairwise_disjoint(spots_of(builder.frames)),
        identifiers_distinct(records_of(builder.frames)),
        forall|k: int|
            0 <= k < builder.frames.len() ==> (#[trigger] builder.frames[k]).spot().within(
                extent_width(spots_of(builder.frames)),
                extent_height(spots_of(builder.frames)),
            ),
{
    assert(spots_of(builder.frames) =~= builder.packer.placements());
    crate::geometry::lemma_extent_encloses(spots_of(builder.frames));
    assert forall|k: int| 0 <= k < builder.frames.len() implies (
    #[trigger] builder.frames[k]).spot().within(
        extent_width(spots_of(builder.frames)),
        extent_height(spots_of(builder.frames)),
    ) by {
        assert(spots_of(builder.frames)[k] == builder.frames[k].spot());
    }
}

} // verus!
