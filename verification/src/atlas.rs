//! The atlas builder: it names every frame, has the packer place it, keeps
//! the registry, and at the end paints all frames into one canvas.

use crate::bitmap::{lemma_offset_in_range, Bitmap, Raster};
use crate::config::AsepritePackerConfig;
use crate::geometry::{extent_height, extent_width, pairwise_disjoint, Placement};
use crate::identifier::frame_identifier;
use crate::model::{canvas_byte, frame_part, lemma_add_frame_sound, lemma_frame_shows, lemma_frames_failure_stays, lemma_gaps_are_transparent, lemma_sound_build_keeps_apart, lemma_sources_failure_stays, records_of, spots_of, BuilderModel, Failure, FramesModel, Packed, SourceModel};
use crate::packer::{PackerModel, RectanglePacker};
use crate::registry::{identifiers_distinct, AseTextureData, FrameEntry, FrameRecord, FrameRegistry};
use crate::sheet::MAX_SPAN;
use vstd::prelude::*;
use vstd::string::*;

verus! {

/// Why a build stopped. A build that stops leaves nothing behind.
#[derive(Clone, Debug, PartialEq, Eq)]
pub enum BuildError {
    /// A source that was asked for could not be found at its path.
    SourceNotFound { name: String, path: String },
    /// A source could not be decoded, or a frame's buffer does not match its
    /// size. The path is that of the source where the build knows it, and
    /// the reason is the decoder's own where the decoder gave one.
    DecodeFailure { name: String, path: String, reason: String },
    /// A frame has nothing to pack: it has no pixels, or trimming leaves
    /// none. This failure is the build's own: it belongs neither to finding
    /// and decoding a source nor to naming and placing a frame, and stands
    /// for a frame that has no rectangle to ask for.
    EmptyFrame { identifier: String },
    /// Two frames would carry the same identifier.
    DuplicateFrameIdentifier { identifier: String },
    /// The packer has no room for a frame of this size.
    PackingOverflow { identifier: String, width: u32, height: u32 },
}

impl View for BuildError {
    type V = Failure;

    open spec fn view(&self) -> Failure {
        match *self {
            BuildError::SourceNotFound { name, path } => Failure::SourceNotFound {
                name: name@,
                path: path@,
            },
            BuildError::DecodeFailure { name, path, reason } => Failure::DecodeFailure {
                name: name@,
                path: path@,
                reason: reason@,
            },
            BuildError::EmptyFrame { identifier } => Failure::EmptyFrame {
                identifier: identifier@,
            },
            BuildError::DuplicateFrameIdentifier { identifier } => {
                Failure::DuplicateFrameIdentifier { identifier: identifier@ }
            },
            BuildError::PackingOverflow { identifier, width, height } => Failure::PackingOverflow {
                identifier: identifier@,
                width: width as int,
                height: height as int,
            },
        }
    }
}

impl BuildError {
    /// The error as it is reported for the source at `path`: a decode
    /// failure names the path, every other error stays as it is.
    pub fn located(self, path: &String) -> (located: BuildError)
        ensures
            located@ == self@.located(path@),
    {
        match self {
            BuildError::DecodeFailure { name, path: _, reason } => BuildError::DecodeFailure {
                name,
                path: path.clone(),
                reason,
            },
            other => other,
        }
    }
}

/// What a decoder made of a source.
#[derive(Clone, Debug, PartialEq, Eq)]
pub enum SourceFrames {
    /// There is no such source.
    NotFound,
    /// The source could not be decoded, for the reason given.
    Undecodable { reason: String },
    /// The images of the source's frames, in order.
    Decoded { frames: Vec<Bitmap> },
}

/// The images of a list of bitmaps.
pub open spec fn rasters_of(frames: Seq<Bitmap>) -> Seq<Raster> {
    frames.map_values(|frame: Bitmap| frame@)
}

impl View for SourceFrames {
    type V = FramesModel;

    open spec fn view(&self) -> FramesModel {
        match *self {
            SourceFrames::NotFound => FramesModel::NotFound,
            SourceFrames::Undecodable { reason } => FramesModel::Undecodable { reason: reason@ },
            SourceFrames::Decoded { frames } => FramesModel::Decoded {
                frames: rasters_of(frames@),
            },
        }
    }
}

/// A source as it is handed to a build.
#[derive(Clone, Debug, PartialEq, Eq)]
pub struct SpriteSource {
    /// The name of the source, which its frames are named after.
    pub name: String,
    /// Where the source was looked for.
    pub path: String,
    /// What the decoder made of the source.
    pub frames: SourceFrames,
}

impl View for SpriteSource {
    type V = SourceModel;

    open spec fn view(&self) -> SourceModel {
        SourceModel { name: self.name@, path: self.path@, frames: self.frames@ }
    }
}

/// The sources of a build, each by its view.
pub open spec fn sources_of(sources: Seq<SpriteSource>) -> Seq<SourceModel> {
    sources.map_values(|source: SpriteSource| source@)
}

/// The build that a configuration starts: nothing packed yet, the bounds as
/// the packer takes them.
pub open spec fn start_of(max_width: u32, max_height: u32, trim: bool) -> BuilderModel {
    BuilderModel {
        trim,
        packer: PackerModel {
            max_width: if max_width <= MAX_SPAN {
                max_width as int
            } else {
                MAX_SPAN as int
            },
            max_height: if max_height <= MAX_SPAN {
                max_height as int
            } else {
                MAX_SPAN as int
            },
            log: Seq::empty(),
        },
        frames: Seq::empty(),
    }
}

/// Every build starts sound.
pub proof fn lemma_start_sound(max_width: u32, max_height: u32, trim: bool)
    ensures
        start_of(max_width, max_height, trim).sound(),
{
    let start = start_of(max_width, max_height, trim);
    assert(start.packer.placements() =~= Seq::<Placement>::empty());
    assert(records_of(start.frames) =~= Seq::<FrameRecord>::empty());
}

/// A finished atlas: the canvas and the registry of the frames on it.
#[derive(Clone, Debug, PartialEq, Eq)]
pub struct AsepritePacker {
    /// The canvas, exactly as large as the packed frames need it.
    pub image: Bitmap,
    /// For every identifier, where its frame lies on the canvas.
    pub packed_texture_data: FrameRegistry,
}

/// The rectangles of registry records.
pub open spec fn placements_of(records: Seq<FrameRecord>) -> Seq<Placement> {
    records.map_values(|record: FrameRecord| record.placement)
}

impl AsepritePacker {
    /// What holds of every atlas: the canvas matches its size, identifiers
    /// are unique, and the frames' rectangles are non-empty, lie on the
    /// canvas and are pairwise disjoint.
    pub open spec fn wf(&self) -> bool {
        &&& self.image.wf()
        &&& identifiers_distinct(self.packed_texture_data@)
        &&& pairwise_disjoint(placements_of(self.packed_texture_data@))
        &&& forall|k: int|
            0 <= k < self.packed_texture_data@.len() ==> {
                &&& (#[trigger] self.packed_texture_data@[k]).placement.nonempty()
                &&& self.packed_texture_data@[k].placement.within(
                    self.image.width as int,
                    self.image.height as int,
                )
            }
    }

    /// Whether the atlas is the one that shows `frames`: its registry holds
    /// their records in order, its canvas is their extent, and every pixel
    /// of the canvas is what the frames put there.
    pub open spec fn depicts(&self, frames: Seq<Packed>) -> bool {
        &&& self.packed_texture_data@ == records_of(frames)
        &&& self.image.width == extent_width(spots_of(frames))
        &&& self.image.height == extent_height(spots_of(frames))
        &&& forall|px: int, py: int, c: int|
            self.image@.holds(px, py) && 0 <= c < 4 ==> #[trigger] self.image@.byte(px, py, c)
                == canvas_byte(frames, px, py, c)
    }

    /// Builds the atlas of the given sources, in the order given.
    ///
    /// The frames of each source are packed one by one. The first source
    /// that is missing or was not decoded, and the first frame that is
    /// empty, named like an earlier one or too large to place, stops the
    /// build with its failure.
    pub fn new(config: &AsepritePackerConfig, sources: &Vec<SpriteSource>) -> (built: Result<
        AsepritePacker,
        BuildError,
    >)
        ensures
            match built {
                Ok(atlas) => {
                    &&& atlas.wf()
                    &&& match start_of(
                        config.max_width,
                        config.max_height,
                        config.trim,
                    ).add_sources(sources_of(sources@), sources@.len()) {
                        Ok(finished) => atlas.depicts(finished.frames),
                        Err(_) => false,
                    }
                },
                Err(error) => start_of(
                    config.max_width,
                    config.max_height,
                    config.trim,
                ).add_sources(sources_of(sources@), sources@.len()) == Err::<BuilderModel, Failure>(
                    error@,
                ),
            },
    {
        let ghost start = start_of(config.max_width, config.max_height, config.trim);
        let ghost models = sources_of(sources@);
        let mut builder = AtlasBuilder::new(config.max_width, config.max_height, config.trim);
        let mut i: usize = 0;
        while i < sources.len()
            invariant
                i <= sources@.len(),
                start == start_of(config.max_width, config.max_height, config.trim),
                models == sources_of(sources@),
                builder.wf(),
                start.add_sources(models, i as nat) == Ok::<BuilderModel, Failure>(builder@),
            decreases sources@.len() - i,
        {
            let source = &sources[i];
            let ghost before = builder@;
            proof {
                assert(models[i as int] == source@);
                assert(start.add_sources(models, (i + 1) as nat) == before.add_source(source@));
                if before.add_source(source@) is Err {
                    lemma_sources_failure_stays(
                        start,
                        models,
                        (i + 1) as nat,
                        sources@.len() as nat,
                    );
                }
            }
            match &source.frames {
                SourceFrames::NotFound => {
                    return Err(
                        BuildError::SourceNotFound {
                            name: source.name.clone(),
                            path: source.path.clone(),
                        },
                    );
                },
                SourceFrames::Undecodable { reason } => {
                    return Err(
                        BuildError::DecodeFailure {
                            name: source.name.clone(),
                            path: source.path.clone(),
                            reason: reason.clone(),
                        },
                    );
                },
                SourceFrames::Decoded { frames } => {
                    if frames.len() > u32::MAX as usize {
                        return Err(
                            BuildError::DecodeFailure {
                                name: source.name.clone(),
                                path: source.path.clone(),
                                reason: "the source has more frames than can be numbered".to_owned(),
                            },
                        );
                    }
                    let ghost images = rasters_of(frames@);
                    let count = frames.len() as u32;
                    let mut j: u32 = 0;
                    while j < count
                        invariant
                            i < sources@.len(),
                            start == start_of(config.max_width, config.max_height, config.trim),
                            models == sources_of(sources@),
                            j <= count,
                            count == frames@.len(),
                            images == rasters_of(frames@),
                            source@.frames == (FramesModel::Decoded { frames: images }),
                            start.add_sources(models, (i + 1) as nat) == before.add_source(
                                source@,
                            ),
                            builder.wf(),
                            before.add_frames(source.name@, images, j as nat) == Ok::<
                                BuilderModel,
                                Failure,
                            >(builder@),
                        decreases count - j,
                    {
                        let ghost reached = builder@;
                        proof {
                            assert(images[j as int] == frames@[j as int]@);
                            assert(before.add_frames(source.name@, images, (j + 1) as nat)
                                == reached.add_frame(
                                source.name@,
                                j as nat,
                                images.len(),
                                images[j as int],
                            ));
                        }
                        let frame = frames[j as usize].copy();
                        match builder.add_frame(&source.name, j, count, frame) {
                            Ok(next) => {
                                builder = next;
                            },
                            Err(error) => {
                                proof {
                                    lemma_frames_failure_stays(
                                        before,
                                        source.name@,
                                        images,
                                        (j + 1) as nat,
                                        count as nat,
                                    );
                                    lemma_sources_failure_stays(
                                        start,
                                        models,
                                        (i + 1) as nat,
                                        sources@.len() as nat,
                                    );
                                }
                                return Err(error.located(&source.path));
                            },
                        }
                        j += 1;
                    }
                },
            }
            i += 1;
        }
        Ok(builder.finish())
    }
}

/// Reading a frame's rectangle out of the canvas gives back the frame:
/// whatever tile is, pixel for pixel, that rectangle of the canvas is, pixel
/// for pixel, the part of the frame's image that was packed.
pub proof fn lemma_round_trip(atlas: AsepritePacker, frames: Seq<Packed>, k: int, tile: Raster)
    requires
        atlas.wf(),
        atlas.depicts(frames),
        0 <= k < frames.len(),
        frames[k].fitted(),
        atlas.image@.part_is(frames[k].spot(), tile),
    ensures
        frames[k].source.part_is(frames[k].part, tile),
{
    let spot = frames[k].spot();
    let part = frames[k].part;
    assert(spots_of(frames) =~= placements_of(atlas.packed_texture_data@));
    assert(atlas.packed_texture_data@[k].placement == spot);
    assert forall|i: int, j: int, c: int|
        0 <= i < part.width && 0 <= j < part.height && 0 <= c < 4 implies #[trigger] tile.byte(
        i,
        j,
        c,
    ) == frames[k].source.byte(part.x + i, part.y + j, c) by {
        assert(atlas.image@.holds(spot.x + i, spot.y + j));
        assert(tile.byte(i, j, c) == atlas.image@.byte(spot.x + i, spot.y + j, c));
        lemma_frame_shows(frames, k, i, j, c);
    }
}

/// Where no frame lies, the canvas of an atlas is fully transparent.
pub proof fn lemma_gaps_of_atlas_are_transparent(
    atlas: AsepritePacker,
    frames: Seq<Packed>,
    px: int,
    py: int,
    c: int,
)
    requires
        atlas.depicts(frames),
        atlas.image@.holds(px, py),
        0 <= c < 4,
        forall|k: int|
            0 <= k < atlas.packed_texture_data@.len() ==> !(
            #[trigger] atlas.packed_texture_data@[k]).placement.covers(px, py),
    ensures
        atlas.image@.byte(px, py, c) == 0,
{
    assert forall|k: int| 0 <= k < frames.len() implies !(#[trigger] frames[k]).spot().covers(
        px,
        py,
    ) by {
        assert(atlas.packed_texture_data@[k].placement == frames[k].spot());
    }
    lemma_gaps_are_transparent(frames, px, py, c);
}

/// An atlas in the making. Frames are added one by one; `finish` paints them.
pub struct AtlasBuilder {
    trim: bool,
    packer: RectanglePacker,
    registry: FrameRegistry,
    sources: Vec<Bitmap>,
    parts: Vec<Placement>,
}

impl View for AtlasBuilder {
    type V = BuilderModel;

    closed spec fn view(&self) -> BuilderModel {
        BuilderModel {
            trim: self.trim,
            packer: self.packer@,
            frames: Seq::new(
                self.registry@.len(),
                |k: int|
                    Packed { record: self.registry@[k], source: self.sources@[k]@, part: self.parts@[k] },
            ),
        }
    }
}

impl AtlasBuilder {
    /// The builder's invariant. It implies `self@.sound()`.
    pub closed spec fn wf(&self) -> bool {
        &&& self.packer.wf()
        &&& self.registry@.len() == self.sources@.len()
        &&& self.registry@.len() == self.parts@.len()
        &&& self@.sound()
    }

    /// A well-formed builder keeps the rules of its model.
    pub proof fn lemma_wf_sound(&self)
        requires
            self.wf(),
        ensures
            self@.sound(),
    {
    }

    /// A builder that has packed nothing, for an atlas of at most
    /// `max_width` by `max_height` pixels.
    pub fn new(max_width: u32, max_height: u32, trim: bool) -> (builder: AtlasBuilder)
        ensures
            builder.wf(),
            builder@ == start_of(max_width, max_height, trim),
    {
        let builder = AtlasBuilder {
            trim,
            packer: RectanglePacker::new(max_width, max_height),
            registry: FrameRegistry::new(),
            sources: Vec::new(),
            parts: Vec::new(),
        };
        proof {
            let start = start_of(max_width, max_height, trim);
            assert(builder@.frames =~= start.frames);
            assert(builder@.packer == start.packer);
            assert(builder@.packer.placements() =~= Seq::<Placement>::empty());
            assert(records_of(builder@.frames) =~= Seq::<FrameRecord>::empty());
            builder.packer.lemma_wf_sound();
        }
        builder
    }

    /// The number of frames packed so far.
    pub fn len(&self) -> (count: usize)
        ensures
            count == self@.frames.len(),
    {
        self.registry.len()
    }

    /// Packs one frame: frame `index` of `count` of the source `basename`.
    ///
    /// The frame is refused, and the build is over, where its buffer does
    /// not match its size, where its identifier is taken, where it has
    /// nothing to pack, or where the packer has no room for it.
    pub fn add_frame(self, basename: &String, index: u32, count: u32, frame: Bitmap) -> (added:
        Result<AtlasBuilder, BuildError>)
        requires
            self.wf(),
        ensures
            match added {
                Ok(builder) => {
                    &&& builder.wf()
                    &&& self@.add_frame(basename@, index as nat, count as nat, frame@) == Ok::<
                        BuilderModel,
                        Failure,
                    >(builder@)
                },
                Err(error) => self@.add_frame(basename@, index as nat, count as nat, frame@)
                    == Err::<BuilderModel, Failure>(error@),
            },
    {
        let ghost before = self@;
        if !frame.is_well_formed() {
            return Err(
                BuildError::DecodeFailure {
                    name: basename.clone(),
                    path: String::new(),
                    reason: "the pixel buffer does not match the frame size".to_owned(),
                },
            );
        }
        let identifier = frame_identifier(basename.as_str(), index, count);
        assert(records_of(before.frames) =~= self.registry@);
        if self.registry.contains(&identifier) {
            return Err(BuildError::DuplicateFrameIdentifier { identifier });
        }
        if frame.width == 0 || frame.height == 0 {
            return Err(BuildError::EmptyFrame { identifier });
        }
        let part = if self.trim {
            match frame.content_box() {
                Some(part) => part,
                None => {
                    return Err(BuildError::EmptyFrame { identifier });
                },
            }
        } else {
            Placement { x: 0, y: 0, width: frame.width, height: frame.height }
        };
        assert(frame_part(before.trim, frame@) == Some(part));
        let AtlasBuilder { trim, packer, registry, sources, parts } = self;
        let mut registry = registry;
        let mut sources = sources;
        let mut parts = parts;
        match packer.place(&identifier, part.width, part.height) {
            Err(overflow) => Err(
                BuildError::PackingOverflow {
                    identifier: overflow.identifier,
                    width: overflow.width,
                    height: overflow.height,
                },
            ),
            Ok((packer, spot)) => {
                let entry = FrameEntry {
                    identifier,
                    data: AseTextureData {
                        width: spot.width,
                        height: spot.height,
                        basename: basename.clone(),
                        frame: index,
                        x: spot.x,
                        y: spot.y,
                    },
                };
                let ghost record = entry@;
                let ghost source = frame@;
                registry.insert(entry);
                sources.push(frame);
                parts.push(part);
                let builder = AtlasBuilder { trim, packer, registry, sources, parts };
                proof {
                    let expected = BuilderModel {
                        trim: before.trim,
                        packer: before.packer.after(identifier@, spot),
                        frames: before.frames.push(Packed { record, source, part }),
                    };
                    assert(builder@.frames =~= expected.frames);
                    assert(builder@ == expected);
                    lemma_add_frame_sound(
                        before,
                        basename@,
                        index as nat,
                        count as nat,
                        source,
                        expected,
                    );
                }
                Ok(builder)
            },
        }
    }

    /// Paints the packed frames into a canvas of their extent and hands the
    /// atlas over.
    pub fn finish(self) -> (atlas: AsepritePacker)
        requires
            self.wf(),
        ensures
            atlas.wf(),
            atlas.depicts(self@.frames),
    {
        let ghost frames = self@.frames;
        proof {
            lemma_sound_build_keeps_apart(self@);
            self.packer.lemma_wf_sound();
            assert(records_of(frames) =~= self.registry@);
            assert(placements_of(self.registry@) =~= spots_of(frames));
        }
        let extent = self.packer.current_extent();
        let mut image = Bitmap::blank(extent.0, extent.1);
        proof {
            assert forall|px: int, py: int, c: int|
                image@.holds(px, py) && 0 <= c < 4 implies #[trigger] image@.byte(px, py, c)
                == canvas_byte(frames.take(0), px, py, c) by {
                lemma_offset_in_range(image.width as int, image.height as int, px, py, c);
            }
        }
        let mut k: usize = 0;
        while k < self.sources.len()
            invariant
                self.wf(),
                frames == self@.frames,
                k <= frames.len(),
                frames.len() == self.sources@.len(),
                image.wf(),
                image.width == extent_width(spots_of(frames)),
                image.height == extent_height(spots_of(frames)),
                forall|n: int|
                    0 <= n < frames.len() ==> (#[trigger] frames[n]).spot().within(
                        image.width as int,
                        image.height as int,
                    ),
                forall|px: int, py: int, c: int|
                    image@.holds(px, py) && 0 <= c < 4 ==> #[trigger] image@.byte(px, py, c)
                        == canvas_byte(frames.take(k as int), px, py, c),
            decreases frames.len() - k,
        {
            let ghost earlier = image@;
            let spot = self.registry.entry(k).data.rectangle();
            assert(frames[k as int].fitted());
            assert(spot == frames[k as int].spot());
            image.blit(&self.sources[k], &self.parts[k], spot.x, spot.y);
            proof {
                let shown = frames.take(k + 1);
                assert(shown.last() == frames[k as int]);
                assert(shown.drop_last() =~= frames.take(k as int));
                assert forall|px: int, py: int, c: int|
                    image@.holds(px, py) && 0 <= c < 4 implies #[trigger] image@.byte(px, py, c)
                    == canvas_byte(shown, px, py, c) by {
                    assert(earlier.holds(px, py));
                    assert(earlier.byte(px, py, c) == canvas_byte(frames.take(k as int), px, py, c));
                }
            }
            k += 1;
        }
        assert(frames.take(k as int) =~= frames);
        let atlas = AsepritePacker { image, packed_texture_data: self.registry };
        proof {
            assert forall|n: int| 0 <= n < atlas.packed_texture_data@.len() implies {
                &&& (#[trigger] atlas.packed_texture_data@[n]).placement.nonempty()
                &&& atlas.packed_texture_data@[n].placement.within(
                    atlas.image.width as int,
                    atlas.image.height as int,
                )
            } by {
                assert(atlas.packed_texture_data@[n] == frames[n].record);
                assert(self@.packer.placements()[n] == frames[n].spot());
            }
        }
        atlas
    }
}

} // verus!
