//! How a build is configured.

use crate::identifier::{file_name_of, source_file_name};
use vstd::prelude::*;

verus! {

/// The options of a build.
#[derive(Clone, Copy, Debug)]
pub struct AsepritePackerConfig<'a> {
    /// The sources to pack, by name and in packing order. Where the list is
    /// empty, every file of the directory `path` is a source.
    pub aseprite_file_names: &'a [&'a str],
    /// The directory that holds the source files.
    pub path: &'a str,
    /// Where the atlas image is written, if anywhere.
    pub output_image_location: Option<&'a str>,
    /// Where the frame registry is written, if anywhere.
    pub output_ron_location: Option<&'a str>,
    /// Whether each frame is cut down to its content before it is packed.
    pub trim: bool,
    /// The widest atlas that the build may make.
    pub max_width: u32,
    /// The tallest atlas that the build may make.
    pub max_height: u32,
}

impl<'a> Default for AsepritePackerConfig<'a> {
    /// Every file of the current directory, packed untrimmed into an atlas
    /// that may grow as far as a packer lets it, and written nowhere.
    fn default() -> (config: Self)
        ensures
            config.aseprite_file_names@.len() == 0,
            config.path@ == "."@,
            config.output_image_location is None,
            config.output_ron_location is None,
            !config.trim,
            config.max_width == u32::MAX,
            config.max_height == u32::MAX,
    {
        AsepritePackerConfig {
            aseprite_file_names: &[],
            path: ".",
            output_image_location: None,
            output_ron_location: None,
            trim: false,
            max_width: u32::MAX,
            max_height: u32::MAX,
        }
    }
}

impl<'a> AsepritePackerConfig<'a> {
    /// Whether the sources are the files of the directory rather than a
    /// list of names.
    pub fn scans_directory(&self) -> (scans: bool)
        ensures
            scans == (self.aseprite_file_names@.len() == 0),
    {
        self.aseprite_file_names.len() == 0
    }

    /// The file names of the listed sources, in order: each name with the
    /// extension of a sprite file.
    pub fn source_file_names(&self) -> (file_names: Vec<String>)
        ensures
            file_names@.len() == self.aseprite_file_names@.len(),
            forall|i: int|
                0 <= i < file_names@.len() ==> (#[trigger] file_names@[i])@ == file_name_of(
                    self.aseprite_file_names@[i]@,
                ),
    {
        let mut file_names: Vec<String> = Vec::new();
        let mut i: usize = 0;
        while i < self.aseprite_file_names.len()
            invariant
                i <= self.aseprite_file_names@.len(),
                file_names@.len() == i,
                forall|k: int|
                    0 <= k < i ==> (#[trigger] file_names@[k])@ == file_name_of(
                        self.aseprite_file_names@[k]@,
                    ),
            decreases self.aseprite_file_names@.len() - i,
        {
            file_names.push(source_file_name(self.aseprite_file_names[i]));
            i += 1;
        }
        file_names
    }
}

} // verus!
