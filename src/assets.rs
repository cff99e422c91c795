//! Keys and error values of the asset cache.
use vstd::prelude::*;
use std::sync::Arc;

verus! {

/// Declares `anyhow::Error`, carried as an opaque value.
#[verifier::external_type_specification]
#[verifier::external_body]
pub struct ExAnyhowError(anyhow::Error);

/// An error from loading an asset, shared between every waiter on that asset.
#[derive(Clone)]
pub struct AssetError(pub Arc<anyhow::Error>);

/// The result of loading an asset.
pub type AssetResult<T> = Result<T, AssetError>;

impl From<anyhow::Error> for AssetError {
    fn from(err: anyhow::Error) -> (r: AssetError)
        ensures
            *r.0 == err,
    {
        AssetError(Arc::new(err))
    }
}

impl vstd::std_specs::convert::FromSpecImpl<anyhow::Error> for AssetError {
    open spec fn obeys_from_spec() -> bool {
        true
    }

    open spec fn from_spec(v: anyhow::Error) -> AssetError {
        AssetError(Arc::new(v))
    }
}

/// The key of an asset whose bytes are downloaded from `url`, and kept on
/// disk between runs when `cache_on_disk` is set.
#[derive(Clone, Debug)]
pub struct BytesFromUrl {
    pub url: String,
    pub cache_on_disk: bool,
}

impl BytesFromUrl {
    pub fn new(url: String, cache_on_disk: bool) -> (r: BytesFromUrl)
        ensures
            r.url@ == url@,
            r.cache_on_disk == cache_on_disk,
    {
        BytesFromUrl { url, cache_on_disk }
    }

    /// The key for the address `url`; every address is accepted.
    pub fn parse_url(url: &str, cache_on_disk: bool) -> (r: Result<BytesFromUrl, anyhow::Error>)
        ensures
            r is Ok,
            r matches Ok(b) ==> b.url@ == url@ && b.cache_on_disk == cache_on_disk,
    {
        Ok(BytesFromUrl { url: url.to_owned(), cache_on_disk })
    }

    /// The memory that a loaded value takes: its length in bytes, or nothing
    /// for a failed load.
    pub fn cpu_size(&self, value: &AssetResult<Arc<Vec<u8>>>) -> (r: Option<usize>)
        ensures
            r == match value {
                Ok(v) => Some(v@.len() as usize),
                Err(_) => None::<usize>,
            },
    {
        match value {
            Ok(v) => Some(v.len()),
            Err(_) => None,
        }
    }
}

} // verus!
