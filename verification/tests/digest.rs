use bckt::digest::{post_digest, static_digest, FileStamp, StaticFile};
use bckt::hash::{blake3_hex, compute_site_inputs_hash, digest_hex, templates_digest};
use bckt::search::search_index_artifact;

fn hex_of(data: &[u8]) -> String {
    blake3::hash(data).to_hex().to_string()
}

#[test]
fn site_inputs_hash_covers_config_and_templates() {
    assert_eq!(compute_site_inputs_hash("title: x\n", "abc"), hex_of(b"title: x\nabc"));
    assert_ne!(compute_site_inputs_hash("a", "b"), compute_site_inputs_hash("b", "a"));
    assert_eq!(blake3_hex("").into_iter().collect::<String>(), hex_of(b""));
}

#[test]
fn post_digest_frames_each_attachment() {
    let assets = vec![FileStamp { path: "img/a.png".to_string(), size: 258, secs: 1, nanos: 2 }];
    let mut expected = b"# Post".to_vec();
    expected.extend_from_slice(b"img/a.png");
    expected.extend_from_slice(&258u64.to_le_bytes());
    expected.extend_from_slice(&1u64.to_le_bytes());
    expected.extend_from_slice(&2u32.to_le_bytes());
    assert_eq!(post_digest(b"# Post", &assets), hex_of(&expected));
    assert_eq!(post_digest(b"# Post", &Vec::new()), hex_of(b"# Post"));
}

#[test]
fn static_digest_includes_contents() {
    assert_eq!(static_digest(&Vec::new()), hex_of(b""));
    let files = vec![StaticFile {
        stamp: FileStamp { path: "css/site.css".to_string(), size: 4, secs: 1_700_000_000, nanos: 999 },
        data: b"body".to_vec(),
    }];
    let mut expected = b"css/site.css".to_vec();
    expected.extend_from_slice(b"body");
    expected.extend_from_slice(&4u64.to_le_bytes());
    expected.extend_from_slice(&1_700_000_000u64.to_le_bytes());
    expected.extend_from_slice(&999u32.to_le_bytes());
    assert_eq!(static_digest(&files), hex_of(&expected));
}

#[test]
fn digests_are_blake3_in_hex() {
    assert_eq!(digest_hex(b""), "af1349b9f5f9a1a6a0404dea36dcc9499bcb25c9adc112b7cc9a93cae41f3262");
    assert_eq!(digest_hex(b"abc"), hex_of(b"abc"));
    assert_eq!(digest_hex(b"abc").len(), 64);
}

#[test]
fn template_digest_covers_names_then_bodies() {
    let entries = vec![
        ("base.html".to_string(), "<html>".to_string()),
        ("post.html".to_string(), "{{ post }}".to_string()),
    ];
    assert_eq!(templates_digest(&entries), hex_of(b"base.html<html>post.html{{ post }}"));
    assert_eq!(templates_digest(&Vec::new()), hex_of(b""));
}

#[test]
fn search_artifact_digests_its_bytes() {
    let artifact = search_index_artifact(b"{\"version\":1}".to_vec(), 3);
    assert_eq!(artifact.bytes, b"{\"version\":1}".to_vec());
    assert_eq!(artifact.digest, hex_of(b"{\"version\":1}"));
    assert_eq!(artifact.document_count, 3);
}
