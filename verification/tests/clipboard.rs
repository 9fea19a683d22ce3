//! The clipboard.
use base64::engine::general_purpose::STANDARD as BASE64;
use base64::Engine as _;
use termmd::term::clipboard::{copy, osc52, MAX_BYTES};

#[test]
fn the_sequence_carries_the_text_as_base64() {
    assert_eq!(osc52("hi"), "\x1b]52;c;aGk=\x07");
    // A newline and a quote are exactly what a code block contains, and
    // exactly what would break a sequence that was not encoded.
    let sequence = osc52("echo \"one\"\necho 'two'\n");
    assert!(sequence.starts_with("\x1b]52;c;"));
    assert!(sequence.ends_with('\x07'));
    let payload = sequence
        .trim_start_matches("\x1b]52;c;")
        .trim_end_matches('\x07');
    assert_eq!(
        String::from_utf8(BASE64.decode(payload).unwrap()).unwrap(),
        "echo \"one\"\necho 'two'\n"
    );
}

#[test]
fn nothing_and_too_much_are_refused() {
    assert!(copy("", false).is_err());
    assert!(copy(&"x".repeat(MAX_BYTES + 1), false).is_err());
}

#[test]
fn a_reasonable_block_is_accepted() {
    // Outside tmux this is the escape route; inside it tmux may take it,
    // and either answer is a success.
    assert!(copy("cargo install termmd", false).is_ok());
    assert!(copy("cargo install termmd", true).is_ok());
}
