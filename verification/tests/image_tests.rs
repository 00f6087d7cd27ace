// Which files are images, and what is done with each.

use file_sorter_lib::processor::image_converter::{
    ConversionPlan, ConversionResult, Decoder, ImageConverter,
};

#[test]
fn images_are_known_by_their_extension() {
    let converter = ImageConverter::new();
    for name in [
        "a.jpg", "a.jpeg", "a.png", "a.gif", "a.heic", "a.heif", "a.webp", "a.tiff", "a.tif",
        "a.bmp", "a.avif", "A.JPG", "dir/B.HeIc", "x.y/z.PNG", "a.b.c.Tiff",
    ] {
        assert!(converter.should_process(name), "{}", name);
    }
    for name in [
        "a.txt", "a", "jpg", ".jpg", "a.jpg/", "a.zip", "a.jpg.zip", "a.jpgx", "a.jp", "dir.png/file",
        "a.", "",
    ] {
        assert!(!converter.should_process(name), "{}", name);
    }
    assert_eq!(converter.quality(), 95);
    assert_eq!(ImageConverter::default().quality(), 95);
}

#[test]
fn portable_formats_are_copied() {
    let converter = ImageConverter::new();
    for name in ["a.jpg", "b.JPEG", "c.png", "d.gif", "e.GIF"] {
        assert!(!converter.needs_conversion(name));
        assert!(!converter.wants_animation_probe(name));
        for animated in [false, true] {
            let plan = converter.plan(name, animated);
            assert!(matches!(plan, ConversionPlan::Copy));
            assert!(matches!(ImageConverter::result_of(&plan), ConversionResult::Copied));
        }
    }
}

#[test]
fn other_formats_are_converted() {
    let converter = ImageConverter::new();
    let cases = [
        ("x/a.heic", "HEIC", Decoder::Heif),
        ("a.HEIF", "HEIF", Decoder::Heif),
        ("a.tiff", "TIFF", Decoder::Standard),
        ("a.Tif", "TIF", Decoder::Standard),
        ("a.bmp", "BMP", Decoder::Standard),
        ("a.avif", "AVIF", Decoder::Standard),
        ("a.webp", "WEBP", Decoder::Standard),
    ];
    for (name, tag, wanted) in cases {
        assert!(converter.needs_conversion(name));
        let plan = converter.plan(name, false);
        match &plan {
            ConversionPlan::Transcode { original_format, decoder, quality, background } => {
                assert_eq!(original_format, tag);
                assert_eq!(*decoder, wanted);
                assert_eq!(*quality, 95);
                assert_eq!(*background, (255, 255, 255));
            }
            ConversionPlan::Copy => panic!("{} is copied", name),
        }
        match ImageConverter::result_of(&plan) {
            ConversionResult::Converted { original_format } => assert_eq!(original_format, tag),
            ConversionResult::Copied => panic!("{} counts as copied", name),
        }
        let copy = plan.clone();
        assert!(matches!(copy, ConversionPlan::Transcode { .. }));
    }
}

#[test]
fn animated_webp_alone_is_copied() {
    let converter = ImageConverter::new();
    assert!(converter.wants_animation_probe("a.webp"));
    assert!(converter.wants_animation_probe("A.WEBP"));
    assert!(!converter.wants_animation_probe("a.heic"));
    assert!(matches!(converter.plan("a.webp", true), ConversionPlan::Copy));
    assert!(matches!(converter.plan("a.webp", false), ConversionPlan::Transcode { .. }));
    assert!(matches!(converter.plan("a.heic", true), ConversionPlan::Transcode { .. }));
    assert!(matches!(converter.plan("a.bmp", true), ConversionPlan::Transcode { .. }));
}

#[test]
fn extensions_in_lower_case() {
    let converter = ImageConverter::new();
    for ext in ["jpg", "jpeg", "png", "gif"] {
        assert!(converter.recognizes(ext));
        assert!(converter.copies(ext));
    }
    for ext in ["heic", "heif", "webp", "tiff", "tif", "bmp", "avif"] {
        assert!(converter.recognizes(ext));
        assert!(!converter.copies(ext));
    }
    for ext in ["JPG", "Png", "", "zip", "jpgx", "txt"] {
        assert!(!converter.recognizes(ext), "{}", ext);
        assert!(!converter.copies(ext), "{}", ext);
    }
    assert!(matches!(
        converter.plan_for_extension("png", "PNG".to_string(), true),
        ConversionPlan::Copy
    ));
    assert!(matches!(
        converter.plan_for_extension("webp", "WEBP".to_string(), true),
        ConversionPlan::Copy
    ));
    match converter.plan_for_extension("webp", "WEBP".to_string(), false) {
        ConversionPlan::Transcode { original_format, decoder, quality, background } => {
            assert_eq!(original_format, "WEBP");
            assert_eq!(decoder, Decoder::Standard);
            assert_eq!(quality, 95);
            assert_eq!(background, (255, 255, 255));
        }
        ConversionPlan::Copy => panic!("a still WebP image is copied"),
    }
    match converter.plan_for_extension("heif", "HEIF".to_string(), true) {
        ConversionPlan::Transcode { decoder, .. } => assert_eq!(decoder, Decoder::Heif),
        ConversionPlan::Copy => panic!("a HEIF image is copied"),
    }
}

#[test]
fn extensions_are_folded_as_the_standard_library_folds() {
    let converter = ImageConverter::new();
    // The Kelvin sign folds to `k`, which no extension holds; dotted capital I
    // folds to two characters.
    assert!(!converter.should_process("a.J\u{212a}G"));
    assert!(!converter.should_process("a.G\u{130}F"));
    assert!(converter.should_process("a.GIF"));
    match converter.plan("odd.t\u{131}f", false) {
        ConversionPlan::Transcode { original_format, .. } => assert_eq!(original_format, "TIF"),
        ConversionPlan::Copy => panic!("an unknown format is copied"),
    }
}

#[test]
fn animation_is_read_from_the_extended_header() {
    let converter = ImageConverter::new();
    let header = |flags: u8| {
        let mut bytes = b"RIFF\x24\x00\x00\x00WEBPVP8X\x0a\x00\x00\x00".to_vec();
        bytes.push(flags);
        bytes
    };
    assert!(converter.is_animated_webp(&header(0x02)));
    assert!(converter.is_animated_webp(&header(0x12)));
    assert!(converter.is_animated_webp(&header(0xff)));
    assert!(!converter.is_animated_webp(&header(0x00)));
    assert!(!converter.is_animated_webp(&header(0x10)));
    assert!(!converter.is_animated_webp(&header(0xfd)));
    let mut long = header(0x02);
    long.extend_from_slice(&[0, 0, 0, 1, 2, 3]);
    assert!(converter.is_animated_webp(&long));
    assert!(!converter.is_animated_webp(&header(0x02)[..20]));
    assert!(!converter.is_animated_webp(&[]));
    let mut simple = header(0x02);
    simple[15] = b' ';
    assert!(!converter.is_animated_webp(&simple));
    let mut wave = header(0x02);
    wave[8..12].copy_from_slice(b"WAVE");
    assert!(!converter.is_animated_webp(&wave));
    let mut other = header(0x02);
    other[0] = b'X';
    assert!(!converter.is_animated_webp(&other));
}

#[test]
fn a_file_without_an_extension_is_no_image() {
    let converter = ImageConverter::new();
    for name in ["jpg", "a/png", ".gif", "a.", "", "dir.d/heic"] {
        assert!(!converter.should_process(name), "{}", name);
    }
    match converter.plan("plain", false) {
        ConversionPlan::Transcode { original_format, decoder, .. } => {
            assert_eq!(original_format, "");
            assert_eq!(decoder, Decoder::Standard);
        }
        ConversionPlan::Copy => panic!("a file without an extension is copied"),
    }
}
