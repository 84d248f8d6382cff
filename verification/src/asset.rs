use vstd::prelude::*;
use crate::paths::{ember_file_location, file_location, join_path, joined, FileLocation};

verus! {

/// `anyhow::Error`, carried through as an opaque value.
#[verifier::external_type_specification]
#[verifier::external_body]
pub struct ExAnyhowError(anyhow::Error);

/// Calls `f` once and wraps its result in `Ok`.
pub fn ok_wrap<R>(mut f: impl FnMut() -> R) -> (res: anyhow::Result<R>)
    requires
        call_requires(f, ()),
    ensures
        res matches Ok(v) && call_ensures(f, (), v),
{
    Ok(f())
}

/// Locates the asset `path` of the ember `ember_id`: assets live under the
/// `assets` directory of the ember's build.
pub fn asset_file_location(urls: &Vec<(String, String)>, ember_id: &str, path: &str) -> (res: FileLocation)
    ensures
        res.model() == file_location(urls@, ember_id@, joined("assets"@, path@)),
{
    let full = join_path("assets", path);
    ember_file_location(urls, ember_id, full.as_str())
}

} // verus!
