//! What was found in a template directory, as plain values.
//!
//! The library reads no directory itself. A caller lists the directory and
//! hands over what it saw, failures included; which of them matter is decided
//! here.

use vstd::prelude::*;
use vstd::string::*;

verus! {

/// What reading a file as text gave.
#[derive(Debug, Clone)]
pub enum FileContent {
    /// The file's text.
    Text(String),
    /// The file could not be read as text, with the reason.
    Unreadable(String),
}

/// One entry of a directory listing.
#[derive(Debug)]
pub enum SourceEntry {
    /// A regular file.
    File { name: String, content: FileContent },
    /// A subdirectory with its own listing.
    Directory { name: String, dir: SourceDir },
    /// Something that is neither a file nor a directory.
    Other { name: String },
    /// The listing failed at this point, with the reason.
    Broken { reason: String },
}

/// What listing a directory gave.
#[derive(Debug)]
pub enum SourceDir {
    /// The entries in the order in which they were listed.
    Listing(Vec<SourceEntry>),
    /// The directory could not be listed, with the reason.
    Unreadable(String),
}

impl SourceEntry {
    /// The entry's name; a break in the listing has none.
    pub open spec fn name(self) -> Option<Seq<char>> {
        match self {
            SourceEntry::File { name, .. } => Some(name@),
            SourceEntry::Directory { name, .. } => Some(name@),
            SourceEntry::Other { name } => Some(name@),
            SourceEntry::Broken { .. } => None,
        }
    }
}

} // verus!
