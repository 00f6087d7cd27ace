//! What is known about the metadata of each source format.
//!
//! A format is known by its tag in upper case.

use crate::text::{chars_of, equals_str, uppercase_of, uppered};
use vstd::prelude::*;

verus! {

/// Whether files of the format with the upper-case tag `tag` commonly carry
/// EXIF data.
pub open spec fn is_exif_tag(tag: Seq<char>) -> bool {
    tag == "HEIC"@ || tag == "HEIF"@ || tag == "TIFF"@ || tag == "TIF"@ || tag == "JPEG"@ || tag
        == "JPG"@ || tag == "WEBP"@
}

/// Whether files of the format tagged `format` commonly carry EXIF data.
pub open spec fn has_exif(format: Seq<char>) -> bool {
    is_exif_tag(uppered(format))
}

/// The note that a report carries for conversions from the format with the
/// upper-case tag `tag`.
pub open spec fn note_for_tag(tag: Seq<char>) -> Seq<char> {
    if tag == "HEIC"@ || tag == "HEIF"@ {
        "EXIF data preserved where possible via libheif"@
    } else if tag == "TIFF"@ || tag == "TIF"@ {
        "EXIF data preserved"@
    } else if tag == "WEBP"@ {
        "XMP/EXIF preserved if present in source"@
    } else if tag == "BMP"@ {
        "BMP files do not contain EXIF metadata"@
    } else if tag == "AVIF"@ {
        "Metadata preservation depends on encoder support"@
    } else {
        "Metadata preservation attempted"@
    }
}

/// The note that a report carries for conversions from the format tagged
/// `format`.
pub open spec fn preservation_note(format: Seq<char>) -> Seq<char> {
    note_for_tag(uppered(format))
}

/// Answers questions about the metadata of a source format.
pub struct MetadataHandler;

impl MetadataHandler {
    pub fn new() -> (handler: Self) {
        MetadataHandler
    }

    /// Whether files of the format with the upper-case tag `tag` commonly
    /// carry EXIF data.
    pub fn tag_has_exif(tag: &str) -> (known: bool)
        ensures
            known == is_exif_tag(tag@),
    {
        let tag = chars_of(tag);
        equals_str(&tag, "HEIC") || equals_str(&tag, "HEIF") || equals_str(&tag, "TIFF")
            || equals_str(&tag, "TIF") || equals_str(&tag, "JPEG") || equals_str(&tag, "JPG")
            || equals_str(&tag, "WEBP")
    }

    /// Whether files of the format tagged `format` commonly carry EXIF data.
    pub fn format_has_exif(format: &str) -> (known: bool)
        ensures
            known == has_exif(format@),
    {
        Self::tag_has_exif(uppercase_of(format).as_str())
    }

    /// The note that a report carries for conversions from the format with
    /// the upper-case tag `tag`.
    pub fn note_for(tag: &str) -> (note: String)
        ensures
            note@ == note_for_tag(tag@),
    {
        let tag = chars_of(tag);
        if equals_str(&tag, "HEIC") || equals_str(&tag, "HEIF") {
            "EXIF data preserved where possible via libheif".to_owned()
        } else if equals_str(&tag, "TIFF") || equals_str(&tag, "TIF") {
            "EXIF data preserved".to_owned()
        } else if equals_str(&tag, "WEBP") {
            "XMP/EXIF preserved if present in source".to_owned()
        } else if equals_str(&tag, "BMP") {
            "BMP files do not contain EXIF metadata".to_owned()
        } else if equals_str(&tag, "AVIF") {
            "Metadata preservation depends on encoder support".to_owned()
        } else {
            "Metadata preservation attempted".to_owned()
        }
    }

    /// The note that a report carries for conversions from the format tagged
    /// `format`.
    pub fn get_preservation_note(format: &str) -> (note: String)
        ensures
            note@ == preservation_note(format@),
    {
        Self::note_for(uppercase_of(format).as_str())
    }
}

impl Default for MetadataHandler {
    fn default() -> (handler: Self) {
        MetadataHandler::new()
    }
}

} // verus!
