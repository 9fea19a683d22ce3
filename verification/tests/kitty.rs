//! The kitty graphics protocol.
use base64::engine::general_purpose::STANDARD;
use base64::Engine as _;
use termmd::images::kitty::{clear_all, encode, encode_png, CHUNK};
use termmd::images::picture::{decode, Decoded, Picture};

fn parse_keys(seq: &str) -> std::collections::HashMap<String, String> {
    let body = seq.strip_prefix("\x1b_G").unwrap();
    let control = body.split(';').next().unwrap();
    control
        .split(',')
        .filter_map(|kv| kv.split_once('='))
        .map(|(k, v)| (k.to_string(), v.to_string()))
        .collect()
}

#[test]
fn emits_a_single_sequence_for_a_small_image() {
    let seq = encode_png(b"tiny", 4, 2, 7);
    assert_eq!(seq.matches("\x1b_G").count(), 1);
    assert!(seq.ends_with("\x1b\\"));

    let keys = parse_keys(&seq);
    assert_eq!(keys["a"], "T");
    assert_eq!(keys["f"], "100", "PNG passthrough");
    assert_eq!(keys["c"], "4");
    assert_eq!(keys["r"], "2");
    assert_eq!(keys["i"], "7");
    assert_eq!(keys["C"], "1", "the cursor must not move");
    assert_eq!(keys["m"], "0", "a single chunk is also the last chunk");
}

#[test]
fn chunks_large_payloads_correctly() {
    let big = vec![0u8; CHUNK * 3];
    let seq = encode_png(&big, 10, 5, 1);
    let parts: Vec<&str> = seq.split("\x1b_G").filter(|s| !s.is_empty()).collect();
    assert!(parts.len() > 1, "expected several chunks");

    // Only the first chunk carries the image metadata.
    assert!(parts[0].contains("a=T"));
    assert!(!parts[1].contains("a=T"));

    // Every chunk but the last says "more to come".
    for part in &parts[..parts.len() - 1] {
        assert!(
            part.contains("m=1"),
            "chunk should continue: {}",
            &part[..20.min(part.len())]
        );
    }
    assert!(
        parts.last().unwrap().contains("m=0"),
        "last chunk must end the transfer"
    );
}

#[test]
fn chunk_payloads_stay_on_base64_boundaries() {
    let big = vec![7u8; CHUNK * 2 + 17];
    let seq = encode_png(&big, 10, 5, 1);
    for part in seq.split("\x1b_G").filter(|s| !s.is_empty()) {
        let payload = part.split(';').nth(1).unwrap().trim_end_matches("\x1b\\");
        if payload.len() == CHUNK {
            assert_eq!(
                payload.len() % 4,
                0,
                "chunks must not split a base64 quantum"
            );
        }
    }
}

#[test]
fn round_trips_the_payload() {
    let png = b"\x89PNG\r\n\x1a\n some bytes here";
    let seq = encode_png(png, 1, 1, 1);
    let payload: String = seq
        .split("\x1b_G")
        .filter(|s| !s.is_empty())
        .map(|p| p.split(';').nth(1).unwrap().trim_end_matches("\x1b\\"))
        .collect();
    let decoded = STANDARD
        .decode(payload)
        .unwrap();
    assert_eq!(decoded, png);
}

#[test]
fn kitty_encodes_a_real_image() {
    let img = Picture::from_rgba(8, 8, vec![0; 8 * 8 * 4]).unwrap();
    let seq = encode(&img, 2, 1, 3).unwrap();
    assert!(seq.starts_with("\x1b_G"));
}

#[test]
fn every_piece_asks_for_silence() {
    let seq = encode_png(&vec![0u8; CHUNK * 3], 10, 5, 1);
    for part in seq.split("\x1b_G").filter(|s| !s.is_empty()) {
        assert!(part.contains("q=2"), "a reply would end up in the page");
    }
    assert!(seq.starts_with("\x1b_Ga=T,f=100,i=1,c=10,r=5,C=1,z=-1,q=2,m=1;"));
}

#[test]
fn the_payload_is_a_png_file() {
    let img = Picture::from_rgba(2, 1, vec![1, 2, 3, 255, 4, 5, 6, 255]).unwrap();
    let seq = encode(&img, 1, 1, 9).unwrap();
    let payload = seq.split(';').nth(1).unwrap().trim_end_matches("\x1b\\");
    let png = STANDARD.decode(payload).unwrap();
    assert!(png.starts_with(b"\x89PNG\r\n\x1a\n"));
    let Decoded::Picture(back) = decode(&png) else {
        panic!("the file should decode")
    };
    assert_eq!(back, img);
    // A picture without pixels makes no file.
    let nothing = Picture::from_rgba(0, 0, Vec::new()).unwrap();
    assert_eq!(encode(&nothing, 1, 1, 9), None);
}

#[test]
fn clearing_takes_every_placement() {
    assert_eq!(clear_all(), "\x1b_Ga=d,d=A,q=2\x1b\\");
}
