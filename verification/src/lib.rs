//! Codec for the GMA binary container format.
//!
//! A GMA stream bundles a named collection of files with light metadata into
//! one sequential byte stream:
//!
//! - "GMAD" magic marker (4 bytes)
//! - format version (signed byte, must be 3)
//! - owner identifier (little-endian i64, round-tripped, not validated)
//! - timestamp (little-endian u64, consumed and ignored)
//! - required-content flag (1 byte, consumed and ignored)
//! - addon name, description, author (null-terminated strings)
//! - addon version (little-endian i32, consumed and ignored)
//! - file metadata records until a zero index:
//!     * index (u32, 1-based; 0 terminates the list)
//!     * name (null-terminated string)
//!     * size (little-endian i64, must not be negative)
//!     * checksum (u32, consumed and ignored)
//! - file contents, concatenated in metadata order
//! - trailing u32 zero marker
//!
//! The byte-level grammar is stated by the spec functions in [`format`];
//! [`read`] and [`Builder::write_to`] are proved against it.

use vstd::prelude::*;

mod builder;
mod bytes;
mod format;
mod laws;
mod reader;
mod strings;

pub use builder::Builder;
pub use reader::read;
pub use reader::read_c_string;
pub use reader::read_i8;
pub use reader::read_i64;
pub use reader::read_u32;
pub use builder::write_cstring;

verus! {

/// One entry (file) contained in a GMA archive.
#[derive(Clone, Debug, PartialEq, Eq, Default)]
pub struct GMAFile {
    pub name: String,
    pub content: Vec<u8>,
    pub size: i64,
}

/// Mathematical model of one archive entry: its name and its raw contents.
/// The declared size is not part of the model; a well-formed entry derives it
/// from the contents.
#[verifier::ext_equal]
pub ghost struct EntryModel {
    pub name: Seq<char>,
    pub content: Seq<u8>,
}

impl View for GMAFile {
    type V = EntryModel;

    open spec fn view(&self) -> EntryModel {
        EntryModel { name: self.name@, content: self.content@ }
    }
}

impl GMAFile {
    /// The declared size agrees with the contents, as a successful decode
    /// guarantees by construction.
    pub open spec fn wf(&self) -> bool {
        self.content@.len() <= i64::MAX && self.size == self.content@.len() as i64
    }
}

/// The in-memory form of a whole archive: the addon metadata together with
/// the ordered entries, as a decode produces it.
#[derive(Clone, Debug, PartialEq, Eq)]
pub struct Archive {
    pub addon_name: String,
    pub addon_description: String,
    pub addon_author: String,
    pub steam_id64: i64,
    pub entries: Vec<GMAFile>,
}

/// Mathematical model of an archive.
#[verifier::ext_equal]
pub ghost struct ArchiveModel {
    pub name: Seq<char>,
    pub description: Seq<char>,
    pub author: Seq<char>,
    pub steam_id64: i64,
    pub entries: Seq<EntryModel>,
}

/// The models of a sequence of entries, in order.
pub open spec fn entries_view(v: Seq<GMAFile>) -> Seq<EntryModel> {
    v.map_values(|f: GMAFile| f@)
}

impl View for Archive {
    type V = ArchiveModel;

    open spec fn view(&self) -> ArchiveModel {
        ArchiveModel {
            name: self.addon_name@,
            description: self.addon_description@,
            author: self.addon_author@,
            steam_id64: self.steam_id64,
            entries: entries_view(self.entries@),
        }
    }
}

impl Archive {
    /// Every entry carries the size of its own contents.
    pub open spec fn wf(&self) -> bool {
        forall|i: int| 0 <= i < self.entries@.len() ==> (#[trigger] self.entries@[i]).wf()
    }
}

/// Everything that can go wrong while decoding or encoding a GMA stream.
///
/// `Io` stands for running out of bytes (a short read); `InvalidInput` is the
/// encoder's rejection of an archive that the format cannot carry.
#[derive(Clone, Copy, Debug, PartialEq, Eq)]
pub enum GmaError {
    Io,
    InvalidHeader([u8; 4]),
    InvalidVersion(i8),
    MissingNullTerminator,
    SizeOutOfRange(i64),
    TrailingMarkerMismatch(u32),
    InvalidInput,
}

} // verus!
