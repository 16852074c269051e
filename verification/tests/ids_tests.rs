use guide::chunker::DocumentChunk;
use guide::ids::{chunk_id, image_data_url};

const NAMESPACE_DNS: u128 = 0x6ba7b8109dad11d180b400c04fd430c8;

#[test]
fn chunk_ids_are_name_based_uuids() {
    let c = DocumentChunk { content: "Hello".to_string(), page_range: (1, 1), section_path: "Ch".to_string() };
    assert_eq!(chunk_id(NAMESPACE_DNS, &c), 0x8db2d80dd05c589e87a1d7b314a6cc37);
    let long = DocumentChunk { content: "x".repeat(70), page_range: (1, 2), section_path: "A > B".to_string() };
    assert_eq!(chunk_id(NAMESPACE_DNS, &long), 0x540a06b114e3554bb56bf73134203870);
}

#[test]
fn data_urls() {
    assert_eq!(image_data_url("image/jpeg", b"hello!?"), "data:image/jpeg;base64,aGVsbG8hPw==");
    assert_eq!(image_data_url("image/png", b""), "data:image/png;base64,");
}
