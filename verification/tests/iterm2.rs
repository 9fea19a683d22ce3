//! iTerm2 inline images.
use base64::engine::general_purpose::STANDARD;
use base64::Engine as _;
use termmd::images::iterm2::{encode, encode_bytes, encode_named};
use termmd::images::picture::Picture;

#[test]
fn builds_a_well_formed_sequence() {
    let seq = encode_bytes(b"hello", 12, 6);
    assert!(seq.starts_with("\x1b]1337;File="));
    assert!(seq.ends_with("\x1b\\"));
    assert!(seq.contains("inline=1"));
    assert!(seq.contains("width=12"));
    assert!(seq.contains("height=6"));
    assert!(seq.contains("preserveAspectRatio=1"));
    assert!(
        seq.contains("size=5"),
        "size is the byte count, not the base64 length"
    );
}

#[test]
fn payload_round_trips() {
    let data = b"\x89PNG\r\n\x1a\narbitrary";
    let seq = encode_bytes(data, 1, 1);
    let payload = seq
        .split(':')
        .next_back()
        .unwrap()
        .trim_end_matches("\x1b\\");
    assert_eq!(
        STANDARD
            .decode(payload)
            .unwrap(),
        data
    );
}

#[test]
fn iterm2_encodes_a_real_image() {
    let img = Picture::from_rgba(4, 4, vec![0; 4 * 4 * 4]).unwrap();
    assert!(encode(&img, 1, 1).unwrap().contains("File="));
}

#[test]
fn the_whole_sequence_is_as_documented() {
    assert_eq!(
        encode_bytes(b"hi", 3, 2),
        "\x1b]1337;File=inline=1;size=2;width=3;height=2;preserveAspectRatio=1:aGk=\x1b\\"
    );
}

#[test]
fn an_image_is_sent_under_a_name() {
    let img = Picture::from_rgba(1, 1, vec![0; 4]).unwrap();
    let name_in = |url: &str| {
        let seq = encode_named(&img, url, 1, 1).unwrap();
        let rest = seq.strip_prefix("\x1b]1337;File=name=").unwrap().to_string();
        let name = rest.split(';').next().unwrap().to_string();
        assert!(rest.contains(";inline=1;size="));
        String::from_utf8(STANDARD.decode(name).unwrap()).unwrap()
    };
    assert_eq!(name_in("/docs/photo.jpeg"), "photo.png");
    assert_eq!(name_in("https://example.com/a/b.tar.gz?x=1#y"), "b.tar.png");
    assert_eq!(name_in("/docs/.hidden"), ".hidden.png");
    assert_eq!(name_in("data:image/png;base64,AAAA"), "image.png");
}
