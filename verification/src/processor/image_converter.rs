//! Which files are images, and what is done with each.
//!
//! A file is classified by the extension of its name alone, in lower case; a
//! file without an extension is no image. JPEG, PNG and GIF files are copied
//! as they are; every other image is decoded and encoded again as JPEG.

use crate::paths::{extension, extension_of_path};
use crate::text::{chars_of, equals_str, lowercase_of, lowered, uppercase_of, uppered};
use vstd::prelude::*;

verus! {

/// What became of an image.
#[derive(Debug)]
pub enum ConversionResult {
    /// The file was copied as it is.
    Copied,
    /// The file was converted to JPEG from the format with this tag.
    Converted { original_format: String },
}

/// The decoder that reads a source format.
#[derive(Clone, Copy, Debug, PartialEq, Eq, Structural)]
pub enum Decoder {
    /// The decoder for HEIC and HEIF.
    Heif,
    /// The decoder that serves every other format.
    Standard,
}

/// What is to be done with an image.
#[derive(Debug)]
pub enum ConversionPlan {
    /// Copy the file byte for byte.
    Copy,
    /// Decode the file with `decoder`, blend it over the opaque colour
    /// `background` if it has an alpha channel, and encode it as JPEG of the
    /// quality `quality`.
    Transcode { original_format: String, decoder: Decoder, quality: u8, background: (u8, u8, u8) },
}

/// What a [`ConversionResult`] says.
pub enum Outcome {
    Copied,
    Converted { original_format: Seq<char> },
}

/// What a [`ConversionPlan`] says.
pub enum Plan {
    Copy,
    Transcode {
        original_format: Seq<char>,
        decoder: Decoder,
        quality: u8,
        background: (u8, u8, u8),
    },
}

impl View for ConversionResult {
    type V = Outcome;

    open spec fn view(&self) -> Outcome {
        match self {
            ConversionResult::Copied => Outcome::Copied,
            ConversionResult::Converted { original_format } => Outcome::Converted {
                original_format: original_format@,
            },
        }
    }
}

impl View for ConversionPlan {
    type V = Plan;

    open spec fn view(&self) -> Plan {
        match self {
            ConversionPlan::Copy => Plan::Copy,
            ConversionPlan::Transcode { original_format, decoder, quality, background } => {
                Plan::Transcode {
                    original_format: original_format@,
                    decoder: *decoder,
                    quality: *quality,
                    background: *background,
                }
            },
        }
    }
}

/// The quality of every JPEG that is encoded.
pub open spec fn jpeg_quality() -> u8 {
    95
}

/// The colour that an image with an alpha channel is blended over: white, as
/// red, green and blue.
pub open spec fn background() -> (u8, u8, u8) {
    (255, 255, 255)
}

/// Whether files with the extension `ext`, in lower case, are copied as they
/// are.
pub open spec fn passes_through(ext: Seq<char>) -> bool {
    ext == "jpg"@ || ext == "jpeg"@ || ext == "png"@ || ext == "gif"@
}

/// Whether files with the extension `ext`, in lower case, are images that are
/// converted.
pub open spec fn is_exotic(ext: Seq<char>) -> bool {
    ext == "heic"@ || ext == "heif"@ || ext == "webp"@ || ext == "tiff"@ || ext == "tif"@ || ext
        == "bmp"@ || ext == "avif"@
}

/// Whether files with the extension `ext`, in lower case, are images that a
/// job takes in.
pub open spec fn is_recognized(ext: Seq<char>) -> bool {
    passes_through(ext) || is_exotic(ext)
}

/// The extension of the file at `path`, in lower case.
pub open spec fn folded_extension(path: Seq<char>) -> Seq<char> {
    lowered(extension(path))
}

/// Whether the file at `path` is an image that a job takes in.
pub open spec fn is_image(path: Seq<char>) -> bool {
    extension(path).len() > 0 && is_recognized(folded_extension(path))
}

/// Whether the file at `path` is converted rather than copied.
pub open spec fn needs_transcoding(path: Seq<char>) -> bool {
    !passes_through(folded_extension(path))
}

/// The tag of the format of the file at `path`: its folded extension in
/// upper case.
pub open spec fn format_tag(path: Seq<char>) -> Seq<char> {
    uppered(folded_extension(path))
}

/// The decoder for the format with the tag `tag`.
pub open spec fn decoder_for(tag: Seq<char>) -> Decoder {
    if tag == "HEIC"@ || tag == "HEIF"@ {
        Decoder::Heif
    } else {
        Decoder::Standard
    }
}

/// What is done with a file whose extension in lower case is `ext` and whose
/// format has the tag `tag`. A WebP file is copied only where `animated`
/// says that it is known to be animated.
pub open spec fn plan_by_extension(ext: Seq<char>, tag: Seq<char>, animated: bool) -> Plan {
    if passes_through(ext) {
        Plan::Copy
    } else if animated && ext == "webp"@ {
        Plan::Copy
    } else {
        Plan::Transcode {
            original_format: tag,
            decoder: decoder_for(tag),
            quality: jpeg_quality(),
            background: background(),
        }
    }
}

/// What is done with the file at `path`.
pub open spec fn plan_for(path: Seq<char>, animated: bool) -> Plan {
    plan_by_extension(folded_extension(path), format_tag(path), animated)
}

/// How many bytes from the beginning of a WebP file tell whether it is
/// animated.
pub open spec fn probe_length() -> nat {
    21
}

/// Whether the bytes `header`, with which a file begins, show an animated
/// WebP image: a RIFF container of the form `WEBP` whose first chunk is the
/// extended header `VP8X`, with the animation flag set in its flags.
pub open spec fn shows_animation(header: Seq<u8>) -> bool {
    &&& header.len() >= probe_length()
    &&& header[0] == 0x52 && header[1] == 0x49 && header[2] == 0x46 && header[3] == 0x46
    &&& header[8] == 0x57 && header[9] == 0x45 && header[10] == 0x42 && header[11] == 0x50
    &&& header[12] == 0x56 && header[13] == 0x50 && header[14] == 0x38 && header[15] == 0x58
    &&& header[20] & 0x02 != 0
}

/// A WebP image is copied exactly when it is known to be animated.
pub proof fn lemma_webp_is_copied_when_animated(path: Seq<char>, animated: bool)
    requires
        folded_extension(path) == "webp"@,
    ensures
        plan_for(path, animated) is Copy <==> animated,
{
    reveal_strlit("webp");
    reveal_strlit("jpg");
    reveal_strlit("jpeg");
    reveal_strlit("png");
    reveal_strlit("gif");
    assert("webp"@[0] == 'w');
    assert("jpeg"@[0] == 'j');
    assert("webp"@.len() == 4 && "jpg"@.len() == 3 && "png"@.len() == 3 && "gif"@.len() == 3);
}

/// What becomes of an image once `plan` is carried out.
pub open spec fn outcome_of(plan: Plan) -> Outcome {
    match plan {
        Plan::Copy => Outcome::Copied,
        Plan::Transcode { original_format, .. } => Outcome::Converted { original_format },
    }
}

/// Classifies images and plans their conversion.
pub struct ImageConverter {
    jpeg_quality: u8,
}

impl View for ImageConverter {
    type V = u8;

    /// The quality that the converter encodes with.
    closed spec fn view(&self) -> u8 {
        self.jpeg_quality
    }
}

impl ImageConverter {
    /// In every converter the quality is the one fixed quality.
    #[verifier::type_invariant]
    spec fn well_formed(self) -> bool {
        self.jpeg_quality == jpeg_quality()
    }

    /// A converter that encodes with the one fixed quality.
    pub fn new() -> (converter: Self)
        ensures
            converter@ == jpeg_quality(),
    {
        ImageConverter { jpeg_quality: 95 }
    }

    /// The quality of every JPEG that is encoded.
    pub fn quality(&self) -> (quality: u8)
        ensures
            quality == jpeg_quality(),
            quality == self@,
    {
        proof {
            use_type_invariant(self);
        }
        self.jpeg_quality
    }

    /// Whether files with the extension `ext`, in lower case, are images
    /// that a job takes in.
    pub fn recognizes(&self, ext: &str) -> (image: bool)
        ensures
            image == is_recognized(ext@),
    {
        let ext = chars_of(ext);
        equals_str(&ext, "jpg") || equals_str(&ext, "jpeg") || equals_str(&ext, "png")
            || equals_str(&ext, "gif") || equals_str(&ext, "heic") || equals_str(&ext, "heif")
            || equals_str(&ext, "webp") || equals_str(&ext, "tiff") || equals_str(&ext, "tif")
            || equals_str(&ext, "bmp") || equals_str(&ext, "avif")
    }

    /// Whether files with the extension `ext`, in lower case, are copied as
    /// they are.
    pub fn copies(&self, ext: &str) -> (copy: bool)
        ensures
            copy == passes_through(ext@),
    {
        let ext = chars_of(ext);
        equals_str(&ext, "jpg") || equals_str(&ext, "jpeg") || equals_str(&ext, "png")
            || equals_str(&ext, "gif")
    }

    /// Whether the file at `path` is an image that a job takes in.
    pub fn should_process(&self, path: &str) -> (image: bool)
        ensures
            image == is_image(path@),
    {
        let ext = extension_of_path(path);
        if ext.as_str().unicode_len() == 0 {
            return false;
        }
        self.recognizes(lowercase_of(ext.as_str()).as_str())
    }

    /// Whether the file at `path` is converted rather than copied.
    pub fn needs_conversion(&self, path: &str) -> (convert: bool)
        ensures
            convert == needs_transcoding(path@),
    {
        let ext = lowercase_of(extension_of_path(path).as_str());
        !self.copies(ext.as_str())
    }

    /// Whether it matters for the file at `path` that it is animated.
    pub fn wants_animation_probe(&self, path: &str) -> (probe: bool)
        ensures
            probe == (folded_extension(path@) == "webp"@),
    {
        let ext = lowercase_of(extension_of_path(path).as_str());
        equals_str(&chars_of(ext.as_str()), "webp")
    }

    /// What is to be done with a file whose extension in lower case is `ext`
    /// and whose format has the tag `tag`. `animated` says whether the file
    /// is known to be animated; it matters for WebP files alone.
    pub fn plan_for_extension(&self, ext: &str, tag: String, animated: bool) -> (plan:
        ConversionPlan)
        ensures
            plan@ == plan_by_extension(ext@, tag@, animated),
    {
        proof {
            use_type_invariant(self);
        }
        if self.copies(ext) {
            return ConversionPlan::Copy;
        }
        if animated && equals_str(&chars_of(ext), "webp") {
            return ConversionPlan::Copy;
        }
        let code = chars_of(tag.as_str());
        let decoder = if equals_str(&code, "HEIC") || equals_str(&code, "HEIF") {
            Decoder::Heif
        } else {
            Decoder::Standard
        };
        ConversionPlan::Transcode {
            original_format: tag,
            decoder,
            quality: self.jpeg_quality,
            background: (255, 255, 255),
        }
    }

    /// What is to be done with the file at `path`. `animated` says whether
    /// the file is known to be animated; it matters for WebP files alone.
    pub fn plan(&self, path: &str, animated: bool) -> (plan: ConversionPlan)
        ensures
            plan@ == plan_for(path@, animated),
    {
        let ext = lowercase_of(extension_of_path(path).as_str());
        let tag = uppercase_of(ext.as_str());
        self.plan_for_extension(ext.as_str(), tag, animated)
    }

    /// Whether the bytes `header`, with which a file begins, show an animated
    /// WebP image. Fewer bytes than the flags take, or other bytes than a
    /// WebP file with an extended header begins with, show none.
    pub fn is_animated_webp(&self, header: &[u8]) -> (animated: bool)
        ensures
            animated == shows_animation(header@),
    {
        header.len() >= 21 && header[0] == 0x52 && header[1] == 0x49 && header[2] == 0x46
            && header[3] == 0x46 && header[8] == 0x57 && header[9] == 0x45 && header[10] == 0x42
            && header[11] == 0x50 && header[12] == 0x56 && header[13] == 0x50 && header[14]
            == 0x38 && header[15] == 0x58 && header[20] & 0x02 != 0
    }

    /// What becomes of an image once `plan` is carried out.
    pub fn result_of(plan: &ConversionPlan) -> (result: ConversionResult)
        ensures
            result@ == outcome_of(plan@),
    {
        match plan {
            ConversionPlan::Copy => ConversionResult::Copied,
            ConversionPlan::Transcode { original_format, .. } => ConversionResult::Converted {
                original_format: original_format.clone(),
            },
        }
    }
}

impl Default for ImageConverter {
    fn default() -> (converter: Self)
        ensures
            converter@ == jpeg_quality(),
    {
        ImageConverter::new()
    }
}

impl Clone for ConversionPlan {
    fn clone(&self) -> (copy: Self)
        ensures
            copy == *self,
    {
        match self {
            ConversionPlan::Copy => ConversionPlan::Copy,
            ConversionPlan::Transcode { original_format, decoder, quality, background } => {
                ConversionPlan::Transcode {
                    original_format: original_format.clone(),
                    decoder: *decoder,
                    quality: *quality,
                    background: *background,
                }
            },
        }
    }
}

} // verus!
