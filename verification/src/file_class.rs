//! The file-class classifier: maps a 16-bit format-version tag to one of
//! three header kinds.

use vstd::prelude::*;

use crate::render::{append_dec, spec_dec};

verus! {

/// The semantic class a format-version tag selects.
#[derive(Debug, Clone, Copy, PartialEq, Eq, Structural)]
pub enum FileClass {
    Load,
    Batch,
    Media,
}

/// The authoritative version-to-class mapping.
///
/// `Load` matches exactly the versions 0x8002 and 0x8004, never the values
/// between them; 0x9004 is `Batch`, 0xA004 is `Media`, and every other
/// version has no class.
pub open spec fn spec_classify(version: u16) -> Option<FileClass> {
    if version == 0x8002 || version == 0x8004 {
        Some(FileClass::Load)
    } else if version == 0x9004 {
        Some(FileClass::Batch)
    } else if version == 0xA004 {
        Some(FileClass::Media)
    } else {
        None
    }
}

impl FileClass {
    /// Classifies a format-version tag; `None` for any unrecognised version,
    /// which callers render with the raw numeric value instead.
    pub fn get_file_type(media_file_format_verion: u16) -> (r: Option<FileClass>)
        ensures
            r == spec_classify(media_file_format_verion),
    {
        match media_file_format_verion {
            0x8002 | 0x8004 => Some(FileClass::Load),
            0x9004 => Some(FileClass::Batch),
            0xA004 => Some(FileClass::Media),
            _ => None,
        }
    }
    /// The class's report label.
    pub fn label(&self) -> (r: String)
        ensures
            r@ == spec_class_label(*self),
    {
        match self {
            FileClass::Load => "Load File".to_owned(),
            FileClass::Batch => "Batch File".to_owned(),
            FileClass::Media => "Media File".to_owned(),
        }
    }
}

/// The report label of a file class.
pub open spec fn spec_class_label(c: FileClass) -> Seq<char> {
    match c {
        FileClass::Load => "Load File"@,
        FileClass::Batch => "Batch File"@,
        FileClass::Media => "Media File"@,
    }
}

/// The report line for a format version: its class label, or the raw
/// version with a fallback note when no class matches.
pub open spec fn spec_class_string(version: u16) -> Seq<char> {
    match spec_classify(version) {
        Some(c) => spec_class_label(c),
        None => spec_dec(version as int) + " unrecognised file class"@,
    }
}

/// Renders the class line for a format version.
pub fn class_string(version: u16) -> (r: String)
    ensures
        r@ == spec_class_string(version),
{
    match FileClass::get_file_type(version) {
        Some(c) => c.label(),
        None => {
            let mut out = String::new();
            append_dec(&mut out, version as u64);
            out.append(" unrecognised file class");
            proof {
                assert(out@ =~= spec_class_string(version));
            }
            out
        },
    }
}

} // verus!
