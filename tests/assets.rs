use std::sync::Arc;

use utils::assets::{AssetError, AssetResult, BytesFromUrl};

#[test]
fn new_keeps_fields() {
    let k = BytesFromUrl::new("https://example.com/a.png".to_string(), true);
    assert_eq!(k.url, "https://example.com/a.png");
    assert!(k.cache_on_disk);
}

#[test]
fn parse_url_accepts_any_address() {
    let k = BytesFromUrl::parse_url("assets/ship.png", false).unwrap();
    assert_eq!(k.url, "assets/ship.png");
    assert!(!k.cache_on_disk);
    let empty = BytesFromUrl::parse_url("", true).unwrap();
    assert_eq!(empty.url, "");
    assert!(empty.cache_on_disk);
}

#[test]
fn cpu_size_is_the_byte_count() {
    let k = BytesFromUrl::new("u".to_string(), false);
    let ok: AssetResult<Arc<Vec<u8>>> = Ok(Arc::new(vec![1, 2, 3]));
    assert_eq!(k.cpu_size(&ok), Some(3));
    let err: AssetResult<Arc<Vec<u8>>> = Err(AssetError::from(anyhow::Error::msg("gone")));
    assert_eq!(k.cpu_size(&err), None);
}

#[test]
fn asset_error_keeps_the_message() {
    let e = AssetError::from(anyhow::Error::msg("not found"));
    assert_eq!(e.0.to_string(), "not found");
}
