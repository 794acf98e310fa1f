use turbo_html2pdf::image::{decode, probe, sniff, ColorSpace, Format, ImageResolver, NoImages, Payload};
use turbo_html2pdf::data_uri::decode_data_uri;

#[test]
fn sniff_recognizes_gif_and_webp() {
    assert_eq!(sniff(b"GIF89a\x00\x00\x00\x00\x00\x00"), Some(Format::Gif));
    assert_eq!(sniff(b"GIF87a\x00\x00\x00\x00\x00\x00"), Some(Format::Gif));
    assert_eq!(sniff(b"RIFF\x00\x00\x00\x00WEBPVP8 "), Some(Format::WebP));
    assert_eq!(sniff(b"not an image"), None);
}

#[test]
fn probe_gif_reads_logical_screen_size() {
    let gif = b"GIF89a\x78\x00\x3c\x00\xf0\x00\x00";
    let intrinsic = probe(gif).expect("gif intrinsic");
    assert_eq!((intrinsic.width, intrinsic.height), (120, 60));
}

#[test]
fn probe_webp_lossy_reads_frame_size() {
    let mut b = Vec::from(*b"RIFF\x00\x00\x00\x00WEBPVP8 \x00\x00\x00\x00");
    b.extend_from_slice(&[0x00, 0x00, 0x00]);
    b.extend_from_slice(&[0x9d, 0x01, 0x2a]);
    b.extend_from_slice(&[0x64, 0x00, 0x32, 0x00]);
    let intrinsic = probe(&b).expect("webp intrinsic");
    assert_eq!((intrinsic.width, intrinsic.height), (100, 50));
}

#[test]
fn probe_webp_lossless_reads_packed_size() {
    let bits: u32 = (8 - 1) | ((6 - 1) << 14);
    let mut b = Vec::from(*b"RIFF\x00\x00\x00\x00WEBPVP8L\x00\x00\x00\x00");
    b.push(0x2f);
    b.extend_from_slice(&bits.to_le_bytes());
    let intrinsic = probe(&b).expect("webp lossless intrinsic");
    assert_eq!((intrinsic.width, intrinsic.height), (8, 6));
}

#[test]
fn gif_is_probed_but_not_decoded() {
    let gif = b"GIF89a\x08\x00\x06\x00\xf0\x00\x00";
    assert!(probe(gif).is_some());
    assert!(decode(gif).is_none());
}

fn png_of_8_by_6() -> Vec<u8> {
    decode_data_uri(
        "data:image/png;base64,iVBORw0KGgoAAAANSUhEUgAAAAgAAAAGCAIAAABxZ0isAAAAEUlEQVR4nGMI6DmBFTEMpAQA/aBOwe19mXAAAAAASUVORK5CYII=",
    )
    .expect("data uri")
}

#[test]
fn a_png_is_decoded_to_its_samples() {
    let bytes = png_of_8_by_6();
    assert_eq!(sniff(&bytes), Some(Format::Png));
    let image = decode(&bytes).expect("png");
    assert_eq!(image.color(), ColorSpace::Rgb);
    assert!(image.alpha.is_none());
    match image.payload {
        Payload::Raw { samples, .. } => assert_eq!(samples.len(), 8 * 6 * 3),
        Payload::Jpeg { .. } => panic!("raw samples"),
    }
}

#[test]
fn a_damaged_png_has_no_size() {
    let mut bytes = png_of_8_by_6();
    bytes.truncate(12);
    assert!(probe(&bytes).is_none());
    assert!(decode(&bytes).is_none());
}

#[test]
fn a_png_written_with_alpha_splits_its_channels() {
    let mut bytes: Vec<u8> = Vec::new();
    {
        let mut e = png::Encoder::new(&mut bytes, 2, 1);
        e.set_color(png::ColorType::Rgba);
        e.set_depth(png::BitDepth::Eight);
        let mut w = e.write_header().unwrap();
        w.write_image_data(&[1, 2, 3, 4, 5, 6, 7, 8]).unwrap();
    }
    let intrinsic = probe(&bytes).expect("size");
    assert_eq!((intrinsic.width, intrinsic.height, intrinsic.has_alpha), (2, 1, true));
    let image = decode(&bytes).expect("png");
    assert_eq!(image.alpha, Some(vec![4, 8]));
    match image.payload {
        Payload::Raw { samples, .. } => assert_eq!(samples, vec![1, 2, 3, 5, 6, 7]),
        Payload::Jpeg { .. } => panic!("raw samples"),
    }
}

#[test]
fn a_damaged_jpeg_is_neither_sized_nor_decoded() {
    let jpeg = [0xffu8, 0xd8, 0xff, 0xe0, 0, 16];
    assert_eq!(sniff(&jpeg), Some(Format::Jpeg));
    assert!(probe(&jpeg).is_none());
    assert!(decode(&jpeg).is_none());
}

#[test]
fn no_images_resolve_without_a_resolver() {
    assert!(NoImages.resolve("a.png").is_none());
}

/// The head of a gray JPEG, 3 by 2 pixels.
fn gray_jpeg() -> Vec<u8> {
    vec![
        0xff, 0xd8, 0xff, 0xc0, 0, 11, 8, 0, 2, 0, 3, 1, 1, 0x11, 0, 0xff, 0xda, 0, 8, 1, 1, 0, 0,
        63, 0, 0, 0xff, 0xd9,
    ]
}

#[test]
fn a_jpeg_is_sized_by_its_head_and_passed_through() {
    let bytes = gray_jpeg();
    let i = probe(&bytes).expect("size");
    assert_eq!((i.width, i.height, i.has_alpha), (3, 2, false));
    let image = decode(&bytes).expect("jpeg");
    assert_eq!((image.width, image.height, image.color()), (3, 2, ColorSpace::Gray));
    match image.payload {
        Payload::Jpeg { bytes: b, .. } => assert_eq!(b, bytes),
        Payload::Raw { .. } => panic!("passed through"),
    }
}

#[test]
fn an_image_is_as_probed() {
    let mut gray: Vec<u8> = Vec::new();
    {
        let mut e = png::Encoder::new(&mut gray, 2, 3);
        e.set_color(png::ColorType::Grayscale);
        e.set_depth(png::BitDepth::Eight);
        e.set_trns(vec![0, 7]);
        let mut w = e.write_header().unwrap();
        w.write_image_data(&[1, 7, 3, 4, 5, 6]).unwrap();
    }
    for bytes in [gray, png_of_8_by_6(), gray_jpeg()] {
        let i = probe(&bytes).expect("size");
        let image = decode(&bytes).expect("image");
        assert_eq!((image.width, image.height), (i.width, i.height));
        assert_eq!(image.alpha.is_some(), i.has_alpha);
    }
}
