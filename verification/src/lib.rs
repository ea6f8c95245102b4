//! Reference-type shims for WebAssembly modules, with a verified post-processor.
//!
//! A host runtime hands opaque references (`externref` values) to a guest
//! module. The guest toolchain cannot express `externref` natively, so guest
//! code manipulates integer surrogates instead: indices into a table of
//! references that lives inside the module. Each function whose signature
//! logically mentions a reference is recorded in a catalog stored in a custom
//! section of the module.
//!
//! The post-processor ([`processor::Processor`]) consumes a module together
//! with that catalog and rewrites it so the surrogate integers become real
//! references at the module boundary: it synthesizes the reference table and
//! its insert / get / drop helpers, removes the placeholder imports the guest
//! called, patches the catalogued signatures, and retypes the affected locals.
//!
//! The processor operates on [`wasm::Module`], a plain-value model of the
//! parts of a WebAssembly module that the rewrite touches. Translating between
//! module bytes and this model is left to the embedder.

use vstd::prelude::*;

pub mod error;
pub mod processor;
pub mod resource;
pub mod signature;
pub mod table;
pub mod wasm;

verus! {

/// `externref` surrogate: stands in for a host reference inside guest code.
///
/// The value is an index into the reference table, or `usize::MAX` for a null
/// reference.
#[derive(Debug)]
pub struct ExternRef(pub usize);

/// Whether two byte slices hold the same bytes.
pub fn bytes_eq(a: &[u8], b: &[u8]) -> (r: bool)
    ensures
        r == (a@ == b@),
{
    if a.len() != b.len() {
        assert(a@ != b@);
        return false;
    }
    let n = a.len();
    let mut i: usize = 0;
    while i < n
        invariant
            0 <= i <= n,
            n == a@.len() && n == b@.len(),
            forall|j: int| 0 <= j < i ==> a@[j] == b@[j],
        decreases n - i,
    {
        if *vstd::slice::slice_index_get(a, i) != *vstd::slice::slice_index_get(b, i) {
            assert(a@ != b@);
            return false;
        }
        i = i + 1;
    }
    proof {
        assert(a@ =~= b@);
    }
    true
}

/// Whether two strings hold the same characters.
pub fn str_eq(a: &str, b: &str) -> (r: bool)
    ensures
        r == (a@ == b@),
{
    let r = bytes_eq(a.as_bytes(), b.as_bytes());
    proof {
        if vstd::utf8::encode_utf8(a@) == vstd::utf8::encode_utf8(b@) {
            vstd::utf8::encode_utf8_decode_utf8(a@);
            vstd::utf8::encode_utf8_decode_utf8(b@);
            assert(a@ == b@);
        }
    }
    r
}

} // verus!
