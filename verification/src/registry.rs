//! The frame registry: for every identifier, where its frame lies in the
//! atlas and which frame of which source it is.

use crate::geometry::Placement;
use vstd::prelude::*;

verus! {

/// Where one frame lies in the atlas, and where it came from.
#[derive(Clone, Debug, PartialEq, Eq)]
pub struct AseTextureData {
    /// The width of the frame's rectangle in the atlas.
    pub width: u32,
    /// The height of the frame's rectangle in the atlas.
    pub height: u32,
    /// The name of the source that the frame belongs to.
    pub basename: String,
    /// The index of the frame in its source.
    pub frame: u32,
    /// The left edge of the frame's rectangle in the atlas.
    pub x: u32,
    /// The top edge of the frame's rectangle in the atlas.
    pub y: u32,
}

impl AseTextureData {
    /// The frame's rectangle in the atlas.
    pub open spec fn placement(&self) -> Placement {
        Placement { x: self.x, y: self.y, width: self.width, height: self.height }
    }

    /// The frame's rectangle in the atlas.
    pub fn rectangle(&self) -> (rectangle: Placement)
        ensures
            rectangle == self.placement(),
    {
        Placement { x: self.x, y: self.y, width: self.width, height: self.height }
    }
}

/// One line of the registry: an identifier and what is known of its frame.
#[derive(Clone, Debug, PartialEq, Eq)]
pub struct FrameEntry {
    /// The frame's identifier, which no other entry of the registry has.
    pub identifier: String,
    /// The frame's rectangle and provenance.
    pub data: AseTextureData,
}

/// What an entry says, with its texts as sequences of characters.
pub struct FrameRecord {
    pub identifier: Seq<char>,
    pub basename: Seq<char>,
    pub frame: int,
    pub placement: Placement,
}

/// What the registry says of a frame that it holds under `identifier`.
pub open spec fn record_of(identifier: Seq<char>, data: AseTextureData) -> FrameRecord {
    FrameRecord {
        identifier,
        basename: data.basename@,
        frame: data.frame as int,
        placement: data.placement(),
    }
}

impl View for FrameEntry {
    type V = FrameRecord;

    open spec fn view(&self) -> FrameRecord {
        record_of(self.identifier@, self.data)
    }
}

/// Whether some record carries the identifier.
pub open spec fn names(records: Seq<FrameRecord>, identifier: Seq<char>) -> bool {
    exists|k: int| 0 <= k < records.len() && (#[trigger] records[k]).identifier == identifier
}

/// No two records carry the same identifier.
pub open spec fn identifiers_distinct(records: Seq<FrameRecord>) -> bool {
    forall|i: int, j: int|
        0 <= i < j < records.len() ==> (#[trigger] records[i]).identifier != (
        #[trigger] records[j]).identifier
}

/// The entries of one atlas in the order their frames were packed.
#[derive(Clone, Debug, PartialEq, Eq)]
pub struct FrameRegistry {
    entries: Vec<FrameEntry>,
}

impl View for FrameRegistry {
    type V = Seq<FrameRecord>;

    closed spec fn view(&self) -> Seq<FrameRecord> {
        self.entries@.map_values(|entry: FrameEntry| entry@)
    }
}

impl FrameRegistry {
    /// The registry's invariant: identifiers are unique.
    pub open spec fn wf(&self) -> bool {
        identifiers_distinct(self@)
    }

    /// A registry with no entries.
    pub fn new() -> (registry: FrameRegistry)
        ensures
            registry.wf(),
            registry@ == Seq::<FrameRecord>::empty(),
    {
        let registry = FrameRegistry { entries: Vec::new() };
        assert(registry@ =~= Seq::<FrameRecord>::empty());
        registry
    }

    /// The number of entries.
    pub fn len(&self) -> (count: usize)
        ensures
            count == self@.len(),
    {
        self.entries.len()
    }

    /// The entry at `position`, counted in packing order.
    pub fn entry(&self, position: usize) -> (entry: &FrameEntry)
        requires
            position < self@.len(),
        ensures
            entry@ == self@[position as int],
    {
        &self.entries[position]
    }

    /// The position of the entry that carries `identifier`.
    pub fn find(&self, identifier: &String) -> (found: Option<usize>)
        ensures
            match found {
                Some(position) => position < self@.len() && self@[position as int].identifier
                    == identifier@,
                None => !names(self@, identifier@),
            },
    {
        let mut position: usize = 0;
        while position < self.entries.len()
            invariant
                position <= self.entries.len(),
                forall|k: int| 0 <= k < position ==> (#[trigger] self@[k]).identifier != identifier@,
            decreases self.entries.len() - position,
        {
            if self.entries[position].identifier == *identifier {
                return Some(position);
            }
            position += 1;
        }
        None
    }

    /// Tests whether some entry carries `identifier`.
    pub fn contains(&self, identifier: &String) -> (found: bool)
        ensures
            found == names(self@, identifier@),
    {
        self.find(identifier).is_some()
    }

    /// Looks up the frame that carries `identifier`.
    pub fn get(&self, identifier: &str) -> (found: Option<&AseTextureData>)
        ensures
            match found {
                Some(data) => exists|k: int|
                    0 <= k < self@.len() && (#[trigger] self@[k]) == record_of(
                        identifier@,
                        *data,
                    ),
                None => !names(self@, identifier@),
            },
    {
        let key = identifier.to_owned();
        match self.find(&key) {
            Some(position) => {
                let entry = &self.entries[position];
                assert(self@[position as int] == record_of(identifier@, entry.data));
                Some(&entry.data)
            },
            None => None,
        }
    }

    /// Adds an entry unless its identifier is taken, and says whether it did.
    pub fn insert(&mut self, entry: FrameEntry) -> (added: bool)
        requires
            old(self).wf(),
        ensures
            final(self).wf(),
            added == !names(old(self)@, entry.identifier@),
            final(self)@ == if added {
                old(self)@.push(entry@)
            } else {
                old(self)@
            },
    {
        if self.contains(&entry.identifier) {
            return false;
        }
        self.entries.push(entry);
        assert(self@ =~= old(self)@.push(entry@));
        true
    }
}

} // verus!
