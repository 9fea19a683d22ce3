//! Loading, sizing and encoding images.
use std::io::Cursor;

use base64::engine::general_purpose::STANDARD;
use base64::Engine as _;
use image::{ColorType, DynamicImage, Rgba, RgbaImage};
use termmd::codec::percent_decode;
use termmd::images::kitty::encode;
use termmd::images::picture::{
    crop, decode, decode_outcome, fit, small_enough, Decoded, Picture,
};
use termmd::images::store::{
    admits, decode_data_uri, looks_like_svg, resolve_path, short_error, Want,
    MAX_DOWNLOAD_BYTES,
};
use termmd::images::{ImageProblem, RemotePolicy, Store};
use termmd::markdown::ImageRef;
use termmd::render::ImageRequest;
use termmd::term::{Capabilities, GraphicsProtocol};

/// A tiny PNG, built rather than checked in, so the tests carry no binaries.
fn test_png(w: u32, h: u32) -> Vec<u8> {
    let mut img = RgbaImage::new(w, h);
    for (x, y, px) in img.enumerate_pixels_mut() {
        *px = Rgba([
            (x * 255 / w.max(1)) as u8,
            (y * 255 / h.max(1)) as u8,
            128,
            255,
        ]);
    }
    let mut bytes = Vec::new();
    DynamicImage::ImageRgba8(img)
        .write_to(&mut Cursor::new(&mut bytes), image::ImageFormat::Png)
        .unwrap();
    bytes
}

/// A store in which nothing has been looked for.
fn store_with(protocol: GraphicsProtocol, dir: &str) -> Store {
    let caps = Capabilities {
        graphics: protocol,
        cell_px: Some((10, 20)),
        ..Default::default()
    };
    Store::new(&caps, dir, RemotePolicy::Deny)
}

/// A store that has read `bytes` for `url`.
fn store_of(protocol: GraphicsProtocol, url: &str, bytes: Vec<u8>) -> Store {
    let mut store = store_with(protocol, "/docs");
    assert!(matches!(store.want(url), Want::File(_)));
    assert!(store.keep(url, Ok(bytes)).is_none());
    store
}

fn image(url: &str) -> ImageRef {
    ImageRef {
        url: url.into(),
        ..Default::default()
    }
}

#[test]
fn loads_and_measures_a_local_image() {
    let mut store = store_with(GraphicsProtocol::Kitty, "/docs");
    assert_eq!(store.size("t.png"), None);
    let Want::File(path) = store.want("t.png") else {
        panic!("a file is wanted")
    };
    assert_eq!(path, "/docs/t.png");
    store.keep("t.png", Ok(test_png(40, 20)));
    assert_eq!(store.size("t.png"), Some((40, 20)));
    assert!(matches!(store.want("t.png"), Want::Nothing));
}

#[test]
fn missing_images_fail_once_and_stay_failed() {
    let mut store = store_with(GraphicsProtocol::Kitty, "/nonexistent");
    assert!(matches!(store.want("nope.png"), Want::File(_)));
    store.keep("nope.png", Err(ImageProblem::NotFound));
    assert_eq!(store.size("nope.png"), None);
    assert!(matches!(store.want("nope.png"), Want::Nothing));
    assert_eq!(store.decoded.len(), 1, "the failure should be cached");
}

#[test]
fn refuses_remote_images_unless_allowed() {
    let mut store = store_with(GraphicsProtocol::Kitty, ".");
    let url = "https://example.com/x.png";
    assert!(matches!(store.want(url), Want::Nothing));
    assert_eq!(store.size(url), None);
    assert!(
        store.skipped_remote,
        "should record that it skipped a remote image"
    );

    let mut open = Store::new(&Capabilities::default(), ".", RemotePolicy::Allow);
    assert!(matches!(open.want(url), Want::Download(u) if u == url));
    assert!(!open.skipped_remote);
}

#[test]
fn decodes_base64_data_uris() {
    let png = test_png(4, 4);
    let b64 = STANDARD.encode(&png);
    let url = format!("data:image/png;base64,{b64}");
    let mut store = store_with(GraphicsProtocol::Kitty, ".");
    let Want::Bytes(bytes) = store.want(&url) else {
        panic!("the bytes are in the URL")
    };
    assert_eq!(bytes, png);
    store.keep(&url, Ok(bytes));
    assert_eq!(store.size(&url), Some((4, 4)));
}

#[test]
fn data_uris_come_in_several_forms() {
    assert_eq!(decode_data_uri("image/png;base64,aGk=").unwrap(), b"hi");
    assert_eq!(decode_data_uri("image/png;base64, aGk ").unwrap(), b"hi");
    assert_eq!(decode_data_uri("text/plain,a%20b%2").unwrap(), b"a b%2");
    assert_eq!(decode_data_uri("text/plain;base64,***"), None);
    assert_eq!(decode_data_uri("no comma"), None);
    let mut store = store_with(GraphicsProtocol::Kitty, ".");
    assert!(matches!(store.want("data:nothing"), Want::Nothing));
    assert_eq!(
        store.recorded_problem("data:nothing"),
        Some(ImageProblem::Unreadable("bad data URI".into()))
    );
}

#[test]
fn resolves_paths_relative_to_the_document() {
    let dir = "/docs/sub";
    assert_eq!(resolve_path(dir, "a.png"), "/docs/sub/a.png");
    assert_eq!(resolve_path(dir, "./a.png"), "/docs/sub/./a.png");
    assert_eq!(
        resolve_path(dir, "a.png?v=2"),
        "/docs/sub/a.png",
        "query strings should be ignored"
    );
    assert_eq!(resolve_path(dir, "/x/a%20b.png#top"), "/x/a b.png");
    assert_eq!(resolve_path(dir, "file:///x/a.png"), "/x/a.png");
    assert_eq!(resolve_path(dir, "%ff.png"), "/docs/sub/%ff.png");
}

#[test]
fn encodes_for_each_protocol() {
    let img = image("t.png");
    for protocol in [
        GraphicsProtocol::Kitty,
        GraphicsProtocol::ITerm2,
        GraphicsProtocol::Sixel,
        GraphicsProtocol::Blocks,
    ] {
        let mut store = store_of(protocol, "t.png", test_png(40, 20));
        let seq = store.encode(&ImageRequest::new(&img, 4, 2), None);
        assert!(seq.is_some(), "{} produced nothing", protocol.name());
        assert!(!seq.unwrap().is_empty());
    }

    let mut store = store_of(GraphicsProtocol::Off, "t.png", test_png(40, 20));
    assert_eq!(store.encode(&ImageRequest::new(&img, 4, 2), None), None);
}

#[test]
fn caches_encodings_per_size() {
    let img = image("t.png");
    let mut store = store_of(GraphicsProtocol::Kitty, "t.png", test_png(8, 8));

    let first = store.encode(&ImageRequest::new(&img, 4, 2), None);
    let again = store.encode(&ImageRequest::new(&img, 4, 2), None);
    assert_eq!(first, again);
    let other = store.encode(&ImageRequest::new(&img, 8, 4), None);
    assert!(first.unwrap().contains("i=1,"));
    assert!(other.unwrap().contains("i=2,"));
    assert_eq!(store.encoded.len(), 2, "one entry per distinct size");

    store.invalidate_encodings();
    assert!(store.encoded.is_empty());
    assert_eq!(
        store.decoded.len(),
        1,
        "decoded pixels survive invalidation"
    );
}

#[test]
fn cropping_shortens_the_drawn_image() {
    let img = image("t.png");
    let mut store = store_of(GraphicsProtocol::Kitty, "t.png", test_png(40, 80));

    let full = store.encode(&ImageRequest::new(&img, 4, 4), None).unwrap();
    let cropped = store
        .encode(
            &ImageRequest {
                image: &img,
                cols: 4,
                rows: 4,
                skip_top: 2,
                skip_bottom: 0,
                indent: 0,
            },
            None,
        )
        .unwrap();
    assert!(full.contains("r=4"), "full image should claim four rows");
    assert!(
        cropped.contains("r=2"),
        "a two-row crop should claim two rows: {cropped:.80}"
    );
    assert!(
        cropped.len() < full.len(),
        "cropped payload should be smaller"
    );
}

#[test]
fn cropping_everything_draws_nothing() {
    let img = image("t.png");
    let mut store = store_of(GraphicsProtocol::Kitty, "t.png", test_png(8, 8));
    let seq = store.encode(
        &ImageRequest {
            image: &img,
            cols: 2,
            rows: 2,
            skip_top: 2,
            skip_bottom: 0,
            indent: 0,
        },
        None,
    );
    assert_eq!(seq, None);
}

#[test]
fn fit_preserves_aspect_ratio() {
    let img = Picture::from_rgba(100, 50, vec![0; 100 * 50 * 4]).unwrap();
    let out = fit(&img, 40, 40);
    assert_eq!((out.width, out.height), (40, 20));
}

#[test]
fn fit_does_not_upscale() {
    let img = Picture::from_rgba(10, 10, vec![0; 10 * 10 * 4]).unwrap();
    let out = fit(&img, 100, 100);
    assert_eq!((out.width, out.height), (10, 10));
}

const BADGE_SVG: &str = r##"<svg xmlns="http://www.w3.org/2000/svg" width="60" height="20">
    <rect width="60" height="20" fill="#4c1"/>
    <circle cx="30" cy="10" r="6" fill="#fff"/>
</svg>"##;

#[test]
fn recognises_svg_by_its_content_not_its_name() {
    assert!(looks_like_svg(BADGE_SVG.as_bytes()));
    assert!(looks_like_svg(
        b"<?xml version=\"1.0\"?>\n<svg width=\"1\"></svg>"
    ));
    assert!(
        looks_like_svg(b"\xef\xbb\xbf<svg></svg>"),
        "a BOM should not hide it"
    );
    assert!(!looks_like_svg(&test_png(2, 2)));
    assert!(!looks_like_svg(b"<html><body>not svg</body></html>"));
    assert!(!looks_like_svg(b""));
}

#[test]
fn renders_svg_at_the_size_it_will_be_shown() {
    let img = image("badge.svg");
    let mut store = store_with(GraphicsProtocol::Kitty, "/docs");
    assert!(matches!(store.want("badge.svg"), Want::File(_)));
    let vector = store.keep("badge.svg", Ok(BADGE_SVG.as_bytes().to_vec()));
    assert_eq!(vector.as_deref(), Some(BADGE_SVG.as_bytes()));
    store.keep_vector("badge.svg", Ok((60, 20)));
    assert_eq!(
        store.size("badge.svg"),
        Some((60, 20)),
        "intrinsic size drives layout"
    );
    // Vector art is rendered straight at the target size.
    let request = ImageRequest::new(&img, 6, 2);
    assert_eq!(store.rendering(&request), Some((60, 40)));
    let rendered = Picture::from_rgba(60, 20, vec![9; 60 * 20 * 4]).unwrap();
    assert!(store.encode(&request, Some(rendered)).is_some());
    assert_eq!(store.rendering(&request), None, "already drawn");
    assert_eq!(store.recorded_problem("badge.svg"), None);

    store.keep_vector("bad.svg", Err("no root".into()));
    assert_eq!(
        store.recorded_problem("bad.svg").unwrap().message(),
        "bad SVG: no root"
    );
}

#[test]
fn a_blocked_remote_image_says_how_to_allow_it() {
    let mut store = store_with(GraphicsProtocol::Kitty, ".");
    store.want("https://example.com/x.png");
    let reason = store
        .recorded_problem("https://example.com/x.png")
        .unwrap()
        .message();
    assert!(
        reason.contains("--remote-images"),
        "unhelpful reason: {reason}"
    );
}

#[test]
fn a_missing_file_says_so() {
    let mut store = store_with(GraphicsProtocol::Kitty, "/nonexistent");
    store.want("gone.png");
    store.keep("gone.png", Err(ImageProblem::NotFound));
    let reason = store.recorded_problem("gone.png").unwrap().message();
    assert!(reason.contains("not found"), "got {reason}");
}

#[test]
fn an_unreadable_format_names_itself() {
    let store = store_of(
        GraphicsProtocol::Kitty,
        "x.png",
        b"this is not a png at all, whatever it claims".to_vec(),
    );
    assert_eq!(
        store.recorded_problem("x.png"),
        Some(ImageProblem::Unsupported("this image format".into()))
    );
    // A header without anything behind it.
    let store = store_of(
        GraphicsProtocol::Kitty,
        "y.png",
        b"\x89PNG\r\n\x1a\n".to_vec(),
    );
    assert_eq!(
        store.recorded_problem("y.png").unwrap().message(),
        "cannot read Png image"
    );
}

#[test]
fn a_working_image_reports_no_problem() {
    let store = store_of(GraphicsProtocol::Kitty, "ok.png", test_png(4, 4));
    assert!(store.recorded_problem("ok.png").is_none());
}

#[test]
fn rejects_corrupt_image_data() {
    let problem = decode(&b"not an image at all".to_vec());
    assert!(
        matches!(problem, Decoded::Unsupported(_)),
        "got {problem:?}"
    );
}

#[test]
fn huge_images_are_not_decoded() {
    assert!(matches!(
        decode_outcome(Some("Png".into()), Some((100_000, 100_000)), None),
        Decoded::TooLarge
    ));
    assert!(small_enough((8192, 8192)));
    assert!(!small_enough((8193, 8192)));
    assert!(admits(MAX_DOWNLOAD_BYTES).is_ok());
    assert_eq!(admits(MAX_DOWNLOAD_BYTES + 1), Err(ImageProblem::TooLarge));
    assert_eq!(ImageProblem::TooLarge.message(), "image too large");
}

#[test]
fn a_picture_is_sent_in_the_channels_it_came_with() {
    let color_of = |source: DynamicImage| {
        let mut bytes = Vec::new();
        source
            .write_to(&mut Cursor::new(&mut bytes), image::ImageFormat::Png)
            .unwrap();
        let Decoded::Picture(p) = decode(&bytes) else {
            panic!("not decoded");
        };
        let seq = encode(&p, 1, 1, 7).unwrap();
        let payload: String = seq
            .split("\x1b_G")
            .skip(1)
            .map(|piece| piece.split(';').nth(1).unwrap().trim_end_matches("\x1b\\"))
            .collect();
        let sent = image::load_from_memory(&STANDARD.decode(payload).unwrap()).unwrap();
        assert_eq!(sent.to_rgba8(), source.to_rgba8());
        sent.color()
    };
    let base = image::load_from_memory(&test_png(4, 3)).unwrap();
    assert_eq!(color_of(base.to_rgba8().into()), ColorType::Rgba8);
    assert_eq!(color_of(base.to_rgb8().into()), ColorType::Rgb8);
    assert_eq!(color_of(base.to_luma8().into()), ColorType::L8);
    assert_eq!(color_of(base.to_luma_alpha8().into()), ColorType::La8);
}

/// An image whose samples differ in their lower bytes too.
fn fine_image(w: u32, h: u32) -> DynamicImage {
    DynamicImage::ImageRgba16(image::ImageBuffer::from_fn(w, h, |x, y| {
        image::Rgba([
            (x * 9001) as u16,
            (y * 7919) as u16,
            (x * y * 313 + 17) as u16,
            60000 - (x * 257) as u16,
        ])
    }))
}

fn as_file(source: &DynamicImage, format: image::ImageFormat) -> Vec<u8> {
    let mut bytes = Vec::new();
    source
        .write_to(&mut Cursor::new(&mut bytes), format)
        .unwrap();
    bytes
}

fn sent_through_kitty(p: &Picture) -> DynamicImage {
    let seq = encode(p, 1, 1, 7).unwrap();
    let payload: String = seq
        .split("\x1b_G")
        .skip(1)
        .map(|piece| piece.split(';').nth(1).unwrap().trim_end_matches("\x1b\\"))
        .collect();
    image::load_from_memory(&STANDARD.decode(payload).unwrap()).unwrap()
}

#[test]
fn a_picture_keeps_its_sixteen_bits() {
    let base = fine_image(7, 5);
    for source in [
        base.clone(),
        base.to_rgb16().into(),
        base.to_luma16().into(),
        base.to_luma_alpha16().into(),
    ] {
        let bytes = as_file(&source, image::ImageFormat::Png);
        let Decoded::Picture(p) = decode(&bytes) else {
            panic!("not decoded");
        };
        assert_eq!(p.pixels, source.to_rgba8().into_raw());
        assert_eq!(sent_through_kitty(&p), source);

        let small = source.resize(4, 3, image::imageops::FilterType::CatmullRom);
        let fitted = fit(&p, 4, 3);
        assert_eq!(fitted.pixels, small.to_rgba8().into_raw());
        assert_eq!(sent_through_kitty(&fitted), small);

        let cut = source.crop_imm(0, 1, 7, 2);
        let cropped = crop(&p, 1, 2);
        assert_eq!(cropped.pixels, cut.to_rgba8().into_raw());
        assert_eq!(sent_through_kitty(&cropped), cut);
    }
}

#[test]
fn eight_bits_are_scaled_alike_in_all_channels() {
    let base: DynamicImage = fine_image(9, 8).to_rgba8().into();
    for source in [
        base.clone(),
        base.to_rgb8().into(),
        base.to_luma8().into(),
        base.to_luma_alpha8().into(),
    ] {
        let bytes = as_file(&source, image::ImageFormat::Png);
        let Decoded::Picture(p) = decode(&bytes) else {
            panic!("not decoded");
        };
        let small = source.resize(5, 4, image::imageops::FilterType::CatmullRom);
        assert_eq!(sent_through_kitty(&fit(&p, 5, 4)), small);
    }
}

#[test]
fn a_picture_in_floating_point_has_no_png() {
    let source: DynamicImage = fine_image(3, 2).to_rgb32f().into();
    let bytes = as_file(&source, image::ImageFormat::Tiff);
    let Decoded::Picture(p) = decode(&bytes) else {
        panic!("not decoded");
    };
    assert_eq!(p.pixels, source.to_rgba8().into_raw());
    assert_eq!(encode(&p, 1, 1, 7), None);
    assert_eq!(encode(&fit(&p, 2, 2), 1, 1, 7), None);
}

#[test]
fn failures_are_told_in_short() {
    assert_eq!(short_error("io error: connection refused: x"), "io error");
    assert_eq!(short_error(" plain "), "plain");
}

#[test]
fn rows_are_cut_from_both_ends() {
    let img = Picture::from_rgba(1, 4, (0..16).collect()).unwrap();
    let out = crop(&img, 1, 1);
    assert_eq!((out.width, out.height), (1, 2));
    assert_eq!(out.pixels, (4..12).collect::<Vec<u8>>());
    assert_eq!(crop(&img, 3, 1), img, "a cut that leaves nothing is no cut");
    assert_eq!(Picture::from_rgba(2, 2, vec![0; 15]), None);
}

#[test]
fn percent_signs_are_decoded() {
    assert_eq!(percent_decode("a%20b%C3%A9"), "a bé".as_bytes());
    assert_eq!(percent_decode("100%"), b"100%");
    assert_eq!(percent_decode("%zz%2"), b"%zz%2");
    assert_eq!(percent_decode("%+5%5+%++"), b"\x05%5+%++");
}
