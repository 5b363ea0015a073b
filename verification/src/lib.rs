//! A compact lookup table mapping MIME type strings to canonical file
//! extensions.
//!
//! All the subtype and extension strings are packed into one flat byte
//! buffer, without delimiters. Each table entry records an offset into that
//! buffer and two lengths, so a (subtype, extension) pair costs four bytes
//! of index data. Entries are grouped by top-level type and sorted by
//! subtype, which lets a lookup scan the handful of groups linearly and
//! binary-search inside the matching group.

use vstd::prelude::*;
use vstd::string::StringSliceAdditionalSpecFns;

pub mod builder;
pub mod data;
pub mod laws;
pub mod lookup;
pub mod order;
pub mod table;

use crate::data::{builtin_model, builtin_table};
use crate::lookup::lookup_spec;

verus! {

/// Relies on core::str::from_utf8: ASCII bytes are valid UTF-8 and decode
/// to the string whose chars carry the same code points, one per byte; and
/// on str::to_owned for the owned copy.
#[verifier::external_body]
fn ascii_to_string(bytes: &[u8]) -> (r: String)
    requires
        forall|i: int| 0 <= i < bytes@.len() ==> #[trigger] bytes@[i] < 128,
    ensures
        r@ == bytes@.map_values(|b: u8| b as char),
{
    match core::str::from_utf8(bytes) {
        Ok(s) => s.to_owned(),
        Err(_) => String::new(),
    }
}

/// Given a MIME type, pick a suitable file extension.
///
/// The answer is exactly what [`lookup_spec`] says over the built-in
/// table's model and the input's UTF-8 bytes: the input is split at its
/// first slash, at most one `;`-parameter is stripped from the remainder,
/// and the extension of the entry with that type and subtype is returned,
/// or `None` when the input is malformed or simply not in the table.
pub fn mime2ext(mimetype: &str) -> (r: Option<String>)
    ensures
        match r {
            Some(s) => {
                &&& lookup_spec(builtin_model(), mimetype.spec_bytes()) matches Some(ext)
                &&& s@ == ext.map_values(|b: u8| b as char)
                &&& s@.len() > 0
            },
            None => lookup_spec(builtin_model(), mimetype.spec_bytes()) is None,
        },
{
    let t = builtin_table();
    match t.lookup(mimetype.as_bytes()) {
        Some(ext) => {
            proof {
                crate::laws::lemma_no_cross_group_leakage(t.model(), mimetype.spec_bytes());
            }
            Some(ascii_to_string(ext))
        },
        None => None,
    }
}

} // verus!
