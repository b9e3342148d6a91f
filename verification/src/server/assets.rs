//! Caching of the served files: the client bundle's `.js`/`.wasm` files
//! carry a content hash in their names, so they can be cached for good.
use vstd::prelude::*;
use crate::text::{chars_of, ends_with, ends_with_exec};

verus! {

/// `.wasm`
pub open spec fn wasm_suffix() -> Seq<char> {
    seq!['.', 'w', 'a', 's', 'm']
}

/// `.js`
pub open spec fn js_suffix() -> Seq<char> {
    seq!['.', 'j', 's']
}

/// A request path of the client bundle whose file name is content-hashed:
/// it ends in `.wasm` or `.js`.
pub fn is_hashed_asset(path: &str) -> (r: bool)
    ensures
        r == (ends_with(path@, wasm_suffix()) || ends_with(path@, js_suffix())),
{
    let p = chars_of(path);
    let wasm: Vec<char> = vec!['.', 'w', 'a', 's', 'm'];
    let js: Vec<char> = vec!['.', 'j', 's'];
    assert(wasm@ == wasm_suffix());
    assert(js@ == js_suffix());
    ends_with_exec(p.as_slice(), wasm.as_slice()) || ends_with_exec(p.as_slice(), js.as_slice())
}

/// Whether a bundle response may be cached for good: a content-hashed file
/// that was served successfully.
pub fn immutable_cache(path: &str, success: bool) -> (r: bool)
    ensures
        r == (success && (ends_with(path@, wasm_suffix()) || ends_with(path@, js_suffix()))),
{
    is_hashed_asset(path) && success
}

} // verus!
