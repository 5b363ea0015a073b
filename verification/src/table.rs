//! The packed lookup table and its mathematical model.
//!
//! All subtype and extension strings live in one flat byte buffer. An
//! [`Entry`] names a subtype/extension pair by an offset into that buffer
//! and the two lengths; a [`Group`] collects the entries of one top-level
//! type, sorted by subtype; a [`MimeTable`] is the buffer plus the groups.

use vstd::prelude::*;

use crate::order::lex_lt;

verus! {

/// The byte that separates the type from the subtype in a MIME type.
pub const SLASH: u8 = 47;

/// The byte that starts a MIME parameter after the subtype.
pub const SEMICOLON: u8 = 59;

/// The byte that separates a file stem from its extension.
pub const DOT: u8 = 46;

/// One packed record: a subtype/extension pair, stored as an offset into
/// the flat buffer followed by the two lengths. The subtype bytes sit at
/// `location`, immediately followed by the extension bytes.
#[derive(Copy, Clone, PartialEq, Debug)]
pub struct Entry {
    pub location: u16,
    pub subtype_len: u8,
    pub extension_len: u8,
}

/// The entries of one top-level type, sorted by subtype.
pub struct Group {
    pub name: Vec<u8>,
    pub entries: Vec<Entry>,
}

/// The whole table: the flat byte buffer and the type groups.
pub struct MimeTable {
    pub raw: Vec<u8>,
    pub groups: Vec<Group>,
}

/// The subtype bytes an entry denotes within a buffer.
pub open spec fn entry_subtype(raw: Seq<u8>, e: Entry) -> Seq<u8> {
    raw.subrange(e.location as int, e.location + e.subtype_len)
}

/// The extension bytes an entry denotes within a buffer.
pub open spec fn entry_extension(raw: Seq<u8>, e: Entry) -> Seq<u8> {
    raw.subrange(e.location + e.subtype_len, e.location + e.subtype_len + e.extension_len)
}

/// The entry's bytes lie inside the buffer.
pub open spec fn entry_in_bounds(raw: Seq<u8>, e: Entry) -> bool {
    e.location + e.subtype_len + e.extension_len <= raw.len()
}

/// What one group denotes: its name and the subtype/extension pairs,
/// all as plain byte sequences.
pub open spec fn group_model(raw: Seq<u8>, g: Group) -> (Seq<u8>, Seq<(Seq<u8>, Seq<u8>)>) {
    (g.name@, g.entries@.map_values(|e: Entry| (entry_subtype(raw, e), entry_extension(raw, e))))
}

/// What a buffer and a group list denote together.
pub open spec fn table_model(raw: Seq<u8>, groups: Seq<Group>) -> Seq<(Seq<u8>, Seq<(Seq<u8>, Seq<u8>)>)> {
    groups.map_values(|g: Group| group_model(raw, g))
}

impl MimeTable {
    /// What the table denotes: the groups, decoded out of the packed
    /// representation into plain byte sequences.
    pub open spec fn model(&self) -> Seq<(Seq<u8>, Seq<(Seq<u8>, Seq<u8>)>)> {
        table_model(self.raw@, self.groups@)
    }

    /// Every entry of every group stays inside the flat buffer.
    pub open spec fn entries_in_bounds(&self) -> bool {
        forall|i: int, j: int|
            0 <= i < self.groups@.len() && 0 <= j < self.groups@[i].entries@.len()
                ==> entry_in_bounds(self.raw@, #[trigger] self.groups@[i].entries@[j])
    }

    /// The table is well-formed: entries in bounds and the decoded model
    /// well-formed.
    pub open spec fn wf(&self) -> bool {
        self.entries_in_bounds() && model_wf(self.model())
    }
}

/// A byte sequence is printable table material: nonempty, ASCII, and free
/// of the separators that parsing relies on.
pub open spec fn name_ok(s: Seq<u8>) -> bool {
    &&& s.len() > 0
    &&& forall|i: int| 0 <= i < s.len() ==> #[trigger] s[i] < 128
    &&& forall|i: int| 0 <= i < s.len() ==> #[trigger] s[i] != SLASH
}

/// A subtype additionally contains no semicolon, so that the parameter
/// stripping of a lookup can never cut a stored subtype short.
pub open spec fn subtype_ok(s: Seq<u8>) -> bool {
    name_ok(s) && forall|i: int| 0 <= i < s.len() ==> #[trigger] s[i] != SEMICOLON
}

/// An extension additionally contains no dot.
pub open spec fn extension_ok(s: Seq<u8>) -> bool {
    name_ok(s) && forall|i: int| 0 <= i < s.len() ==> #[trigger] s[i] != DOT
}

/// One group of the model is well-formed: a good name, good pairs, and the
/// subtypes strictly ascending in byte-wise order.
pub open spec fn group_model_wf(g: (Seq<u8>, Seq<(Seq<u8>, Seq<u8>)>)) -> bool {
    &&& name_ok(g.0)
    &&& forall|i: int| 0 <= i < g.1.len() ==> subtype_ok((#[trigger] g.1[i]).0)
    &&& forall|i: int| 0 <= i < g.1.len() ==> extension_ok((#[trigger] g.1[i]).1)
    &&& forall|i: int, j: int| 0 <= i < j < g.1.len() ==> lex_lt(g.1[i].0, g.1[j].0)
}

/// The model is well-formed: every group well-formed and the group names
/// pairwise distinct.
pub open spec fn model_wf(m: Seq<(Seq<u8>, Seq<(Seq<u8>, Seq<u8>)>)>) -> bool {
    &&& forall|i: int| 0 <= i < m.len() ==> group_model_wf(#[trigger] m[i])
    &&& forall|i: int, j: int| 0 <= i < j < m.len() ==> m[i].0 != m[j].0
}

impl Entry {
    /// The subtype bytes of this entry, read out of the flat buffer.
    pub fn subtype<'a>(&self, raw: &'a [u8]) -> (r: &'a [u8])
        requires
            entry_in_bounds(raw@, *self),
        ensures
            r@ == entry_subtype(raw@, *self),
    {
        let lo: usize = self.location as usize;
        vstd::slice::slice_subrange(raw, lo, lo + self.subtype_len as usize)
    }

    /// The extension bytes of this entry, read out of the flat buffer.
    pub fn extension<'a>(&self, raw: &'a [u8]) -> (r: &'a [u8])
        requires
            entry_in_bounds(raw@, *self),
        ensures
            r@ == entry_extension(raw@, *self),
    {
        let lo: usize = self.location as usize + self.subtype_len as usize;
        vstd::slice::slice_subrange(raw, lo, lo + self.extension_len as usize)
    }
}

} // verus!
