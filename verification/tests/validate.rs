use pixpull::validate::{detect, extension_matches, validate, Format};

#[test]
fn detects_common_formats() {
    assert_eq!(detect(&[0xFF, 0xD8, 0xFF, 0xE0, 0x00]), Some(Format::Jpeg));
    assert_eq!(detect(b"\x89PNG\r\n\x1a\n\x00\x00\x00"), Some(Format::Png));
    assert_eq!(detect(b"GIF89a...."), Some(Format::Gif));
    assert_eq!(detect(b"BM\x36\x00\x00\x00"), Some(Format::Bmp));
    assert_eq!(detect(b"RIFF\x00\x00\x00\x00WEBP"), Some(Format::Webp));
    assert_eq!(detect(b"II*\x00\x08\x00\x00\x00"), Some(Format::Tiff));
    assert_eq!(detect(b"\x00\x00\x01\x00\x01\x00"), Some(Format::Ico));
    assert_eq!(detect(b"\x00\x00\x00\x18ftypavif\x00"), Some(Format::Avif));
    assert_eq!(detect(b"\x00\x00\x00\x18ftypheic\x00"), Some(Format::Heic));
    assert_eq!(
        detect(b"<?xml version=\"1.0\"?><svg xmlns=..."),
        Some(Format::Svg)
    );
    assert_eq!(
        detect(b"\xEF\xBB\xBF<svg viewBox=\"0 0 1 1\">"),
        Some(Format::Svg)
    );
    assert_eq!(detect(b"<html><body>nope</body></html>"), None);
    assert_eq!(detect(b"hello world this is not an image"), None);
}

#[test]
fn extension_matching() {
    assert!(extension_matches("photo.jpg", Format::Jpeg));
    assert!(extension_matches("photo.jpeg", Format::Jpeg));
    assert!(!extension_matches("photo.png", Format::Jpeg));
    // No extension at all => caller is expected to append one.
    assert!(!extension_matches("pic", Format::Png));
}

#[test]
fn unknown_data_is_refused_with_a_preview() {
    let err = validate(b"nope").unwrap_err();
    assert!(err.contains("6e"), "{}", err);
    assert!(validate(b"").is_err());
    assert_eq!(validate(b"GIF89a....").unwrap(), Format::Gif);
}

#[test]
fn head_of_a_file_tells_its_format() {
    let mut file = b"<?xml version=\"1.0\"?>\n<svg xmlns=\"http://www.w3.org/2000/svg\">".to_vec();
    file.resize(10_000, b' ');
    assert_eq!(detect(&file[..4096]), detect(&file));
    assert_eq!(detect(&file[..512]), Some(Format::Svg));
}

#[test]
fn every_format_accepts_its_own_extension() {
    let all = [
        (Format::Jpeg, "jpg"),
        (Format::Png, "png"),
        (Format::Gif, "gif"),
        (Format::Webp, "webp"),
        (Format::Bmp, "bmp"),
        (Format::Tiff, "tif"),
        (Format::Avif, "avif"),
        (Format::Heic, "heic"),
        (Format::Svg, "svg"),
        (Format::Ico, "ico"),
    ];
    for (format, ext) in all {
        let name = format!("a.b.{}", format.ext());
        assert!(extension_matches(&name, format), "{}", name);
        assert!(extension_matches(&name.to_uppercase(), format), "{}", name);
        assert_eq!(format.ext(), ext);
    }
}
