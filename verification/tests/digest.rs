use extension_catalog::digest::{advance, BodyEvent, DigestStreamer, StreamStep};
use extension_catalog::model::TransferError;

const EMPTY: &str = "sha256-47DEQpj8HBSa+/TImW+5JCeuQeRkm5NMpJWZG3hSuFU=";
const HELLO_WORLD: &str = "sha256-uU0nuZNNPgilLlLX2n2r+sSE7+N6U4DukIj3rOLvzek=";

fn assert_tagged(text: &str) {
    assert_eq!(text.len(), 51);
    assert!(text.starts_with("sha256-"));
    assert!(text.ends_with('='));
    assert!(text[7..50]
        .chars()
        .all(|c| c.is_ascii_alphanumeric() || c == '+' || c == '/'));
}

#[test]
fn the_digest_of_an_empty_body() {
    assert_eq!(DigestStreamer::new().finish(), EMPTY);
}

#[test]
fn the_digest_of_a_body_in_one_chunk() {
    let mut streamer = DigestStreamer::new();
    streamer.update(b"hello world");
    assert_eq!(streamer.finish(), HELLO_WORLD);
}

#[test]
fn the_digest_does_not_depend_on_how_the_body_is_cut() {
    let mut streamer = DigestStreamer::new();
    streamer.update(b"hello ");
    streamer.update(b"");
    streamer.update(b"wor");
    streamer.update(b"ld");
    assert_eq!(streamer.finish(), HELLO_WORLD);
}

#[test]
fn the_digest_depends_on_the_order_of_the_chunks() {
    let mut streamer = DigestStreamer::new();
    streamer.update(b"world");
    streamer.update(b"hello ");
    let text = streamer.finish();
    assert_ne!(text, HELLO_WORLD);
    assert_tagged(&text);
}

#[test]
fn every_digest_has_the_tagged_shape() {
    let bodies: [&[u8]; 4] = [b"", b"hello", b"\x00\x01\x02", &[0xff; 1000]];
    for body in bodies {
        let mut streamer = DigestStreamer::new();
        streamer.update(body);
        assert_tagged(&streamer.finish());
    }
}

#[test]
fn known_digests() {
    let cases: [(&[u8], &str); 3] = [
        (b"hello", "sha256-LPJNul+wow4m6DsqxbninhsWHlwfp0JecwQzYpOLmCQ="),
        (b"artifact bytes", "sha256-Rln8BXASKw4KoU9P98Jhsf5ReVoBunmWP0Yuv0DXUg0="),
        (b"\x00\x01\x02", "sha256-rksygOVuL6+D9BSm49q+nV++GJdlRMBf7RIazLhbU/w="),
    ];
    for (body, expected) in cases {
        let mut streamer = DigestStreamer::new();
        streamer.update(body);
        assert_eq!(streamer.finish(), expected);
    }
}

#[test]
fn advance_takes_in_a_chunk_and_reads_on() {
    let step = advance(DigestStreamer::new(), BodyEvent::Chunk(b"hello "));
    let streamer = match step {
        StreamStep::Reading(streamer) => streamer,
        _ => panic!("a chunk must leave the download reading"),
    };
    let step = advance(streamer, BodyEvent::Chunk(b"world"));
    let streamer = match step {
        StreamStep::Reading(streamer) => streamer,
        _ => panic!("a chunk must leave the download reading"),
    };
    match advance(streamer, BodyEvent::End) {
        StreamStep::Finished(text) => assert_eq!(text, HELLO_WORLD),
        _ => panic!("the end of the body must finish the download"),
    }
}

#[test]
fn advance_finishes_an_empty_body() {
    match advance(DigestStreamer::new(), BodyEvent::End) {
        StreamStep::Finished(text) => assert_eq!(text, EMPTY),
        _ => panic!("the end of the body must finish the download"),
    }
}

#[test]
fn advance_hands_on_a_failed_transfer() {
    let mut streamer = DigestStreamer::new();
    streamer.update(b"half a bo");
    let error = TransferError { detail: "connection reset".to_string() };
    match advance(streamer, BodyEvent::Failed(error)) {
        StreamStep::Failed(error) => assert_eq!(error.detail, "connection reset"),
        _ => panic!("a failed transfer must end the download"),
    }
}

#[test]
fn the_digest_of_a_body_in_two_chunks() {
    let mut streamer = DigestStreamer::new();
    streamer.update(b"a");
    streamer.update(b"bc");
    assert_eq!(streamer.finish(), "sha256-ungWv48Bz+pBQUDeXa4iI7ADYaOWF3qctBD/YfIAFa0=");
}
