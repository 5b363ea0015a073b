//! The properties the library promises of every well-formed table, proved
//! once and for all over the table model.

use vstd::prelude::*;

use crate::lookup::{
    find_ext_spec, find_group_spec, lemma_find_ext_found, lemma_find_group_found,
    lemma_first_index_is, lookup_spec, split_mimetype,
};
use crate::order::{lemma_lex_lt_irreflexive, lex_lt};
use crate::table::{extension_ok, model_wf, name_ok, subtype_ok, MimeTable, SEMICOLON, SLASH};

verus! {

/// An input without a slash never maps to anything, in any table.
pub proof fn lemma_no_slash_no_mapping(
    m: Seq<(Seq<u8>, Seq<(Seq<u8>, Seq<u8>)>)>,
    input: Seq<u8>,
)
    requires
        forall|i: int| 0 <= i < input.len() ==> #[trigger] input[i] != SLASH,
    ensures
        lookup_spec(m, input) is None,
{
    lemma_first_index_is(input, SLASH, input.len() as int);
}

/// Every stored entry is independently retrievable: rebuilding the MIME
/// type as `type "/" subtype` and looking it up returns exactly that
/// entry's extension.
pub proof fn lemma_round_trip(m: Seq<(Seq<u8>, Seq<(Seq<u8>, Seq<u8>)>)>, gi: int, ei: int)
    requires
        model_wf(m),
        0 <= gi < m.len(),
        0 <= ei < m[gi].1.len(),
    ensures
        lookup_spec(m, m[gi].0 + seq![SLASH] + m[gi].1[ei].0) == Some(m[gi].1[ei].1),
{
    let name = m[gi].0;
    let sub = m[gi].1[ei].0;
    let input = name + seq![SLASH] + sub;
    assert(input[name.len() as int] == SLASH);
    assert(forall|k: int| 0 <= k < name.len() ==> input[k] == #[trigger] name[k]);
    lemma_first_index_is(input, SLASH, name.len() as int);
    let rest = input.skip(name.len() as int + 1);
    assert(rest =~= sub);
    lemma_first_index_is(sub, SEMICOLON, sub.len() as int);
    assert(input.take(name.len() as int) =~= name);
    assert(sub.take(sub.len() as int) =~= sub);
    assert(split_mimetype(input) == Some((name, sub)));
    lemma_find_group_found(m, name, gi);
    assert forall|k: int| 0 <= k < ei implies (#[trigger] m[gi].1[k]).0 != sub by {
        assert(lex_lt(m[gi].1[k].0, sub));
        lemma_lex_lt_irreflexive(sub);
    }
    lemma_find_ext_found(m[gi].1, sub, ei);
}

/// What `find_group_spec` finds is a group of the table with the searched
/// name, and a miss means no group carries it.
pub proof fn lemma_find_group_characterize(
    m: Seq<(Seq<u8>, Seq<(Seq<u8>, Seq<u8>)>)>,
    name: Seq<u8>,
)
    ensures
        match find_group_spec(m, name) {
            Some(es) => exists|i: int| 0 <= i < m.len() && #[trigger] m[i] == (name, es),
            None => forall|i: int| 0 <= i < m.len() ==> (#[trigger] m[i]).0 != name,
        },
    decreases m.len(),
{
    if m.len() > 0 && m[0].0 != name {
        lemma_find_group_characterize(m.drop_first(), name);
        match find_group_spec(m, name) {
            Some(es) => {
                let i = choose|i: int|
                    0 <= i < m.drop_first().len() && #[trigger] m.drop_first()[i] == (name, es);
                assert(m[i + 1] == (name, es));
            },
            None => {
                assert forall|i: int| 0 <= i < m.len() implies (#[trigger] m[i]).0 != name by {
                    if i > 0 {
                        assert(m[i] == m.drop_first()[i - 1]);
                    }
                }
            },
        }
    } else if m.len() > 0 {
        assert(m[0] == (name, m[0].1));
    }
}

/// What `find_ext_spec` finds is the extension of a pair with the searched
/// subtype, and a miss means no pair carries it.
pub proof fn lemma_find_ext_characterize(entries: Seq<(Seq<u8>, Seq<u8>)>, sub: Seq<u8>)
    ensures
        match find_ext_spec(entries, sub) {
            Some(ext) => exists|i: int|
                0 <= i < entries.len() && #[trigger] entries[i] == (sub, ext),
            None => forall|i: int| 0 <= i < entries.len() ==> (#[trigger] entries[i]).0 != sub,
        },
    decreases entries.len(),
{
    if entries.len() > 0 && entries[0].0 != sub {
        lemma_find_ext_characterize(entries.drop_first(), sub);
        match find_ext_spec(entries, sub) {
            Some(ext) => {
                let i = choose|i: int|
                    0 <= i < entries.drop_first().len() && #[trigger] entries.drop_first()[i]
                        == (sub, ext);
                assert(entries[i + 1] == (sub, ext));
            },
            None => {
                assert forall|i: int| 0 <= i < entries.len() implies (#[trigger] entries[i]).0
                    != sub by {
                    if i > 0 {
                        assert(entries[i] == entries.drop_first()[i - 1]);
                    }
                }
            },
        }
    } else if entries.len() > 0 {
        assert(entries[0] == (sub, entries[0].1));
    }
}

/// Lookups resolve independently per type group: a result only ever comes
/// from an entry whose group is named exactly by the parsed type and whose
/// subtype is exactly the parsed subtype; the same subtype under another
/// type name is not found through it.
pub proof fn lemma_no_cross_group_leakage(
    m: Seq<(Seq<u8>, Seq<(Seq<u8>, Seq<u8>)>)>,
    input: Seq<u8>,
)
    ensures
        lookup_spec(m, input) matches Some(ext) ==> exists|gi: int, ei: int|
            {
                &&& 0 <= gi < m.len()
                &&& 0 <= ei < (#[trigger] m[gi]).1.len()
                &&& split_mimetype(input) matches Some(parts)
                &&& m[gi].0 == parts.0
                &&& #[trigger] m[gi].1[ei] == (parts.1, ext)
            },
{
    if lookup_spec(m, input) is Some {
        let parts = split_mimetype(input).unwrap();
        lemma_find_group_characterize(m, parts.0);
        let es = find_group_spec(m, parts.0).unwrap();
        let gi = choose|i: int| 0 <= i < m.len() && #[trigger] m[i] == (parts.0, es);
        lemma_find_ext_characterize(es, parts.1);
        let ext = lookup_spec(m, input).unwrap();
        let ei = choose|i: int| 0 <= i < es.len() && #[trigger] es[i] == (parts.1, ext);
        assert(m[gi].1[ei] == (parts.1, ext));
    }
}

/// In a well-formed table every group's stored entry sequence is strictly
/// ascending in subtype under byte-wise order: the precondition binary
/// search rests on.
pub proof fn lemma_groups_sorted(t: &MimeTable)
    requires
        t.wf(),
    ensures
        forall|gi: int, i: int, j: int|
            0 <= gi < t.model().len() && 0 <= i < j < t.model()[gi].1.len() ==> lex_lt(
                (#[trigger] t.model()[gi].1[i]).0,
                (#[trigger] t.model()[gi].1[j]).0,
            ),
{
}

/// In a well-formed table every type name is nonempty and slash-free,
/// every subtype nonempty and free of slashes and semicolons, and every
/// extension nonempty and free of slashes and dots.
pub proof fn lemma_fields_well_formed(t: &MimeTable)
    requires
        t.wf(),
    ensures
        forall|gi: int| 0 <= gi < t.model().len() ==> name_ok((#[trigger] t.model()[gi]).0),
        forall|gi: int, ei: int|
            0 <= gi < t.model().len() && 0 <= ei < (#[trigger] t.model()[gi]).1.len()
                ==> subtype_ok(#[trigger] t.model()[gi].1[ei].0),
        forall|gi: int, ei: int|
            0 <= gi < t.model().len() && 0 <= ei < (#[trigger] t.model()[gi]).1.len()
                ==> extension_ok(#[trigger] t.model()[gi].1[ei].1),
{
}

/// The built-in table's model is well-formed, so every law over
/// well-formed tables holds of it.
pub proof fn lemma_builtin_model_wf()
    ensures
        model_wf(crate::data::builtin_model()),
{
    crate::data::lemma_builtin_rows_ok();
}

/// Every entry of the built-in table is independently retrievable through
/// [`lookup_spec`] over the built-in model.
pub proof fn lemma_builtin_round_trip(gi: int, ei: int)
    requires
        0 <= gi < crate::data::builtin_model().len(),
        0 <= ei < crate::data::builtin_model()[gi].1.len(),
    ensures
        lookup_spec(
            crate::data::builtin_model(),
            crate::data::builtin_model()[gi].0 + seq![SLASH] + crate::data::builtin_model()[gi].1[ei].0,
        ) == Some(crate::data::builtin_model()[gi].1[ei].1),
{
    lemma_builtin_model_wf();
    lemma_round_trip(crate::data::builtin_model(), gi, ei);
}

/// An input whose parsed type or subtype is empty never maps to anything
/// in a well-formed table.
pub proof fn lemma_empty_component_no_mapping(
    m: Seq<(Seq<u8>, Seq<(Seq<u8>, Seq<u8>)>)>,
    input: Seq<u8>,
)
    requires
        model_wf(m),
        split_mimetype(input) matches Some(parts) && (parts.0.len() == 0 || parts.1.len() == 0),
    ensures
        lookup_spec(m, input) is None,
{
    let parts = split_mimetype(input).unwrap();
    lemma_find_group_characterize(m, parts.0);
    if find_group_spec(m, parts.0) is Some {
        let es = find_group_spec(m, parts.0).unwrap();
        let gi = choose|i: int| 0 <= i < m.len() && #[trigger] m[i] == (parts.0, es);
        assert(name_ok(m[gi].0));
        assert(parts.0.len() > 0);
        lemma_find_ext_characterize(es, parts.1);
        if find_ext_spec(es, parts.1) is Some {
            let ext = find_ext_spec(es, parts.1).unwrap();
            let ei = choose|i: int| 0 <= i < es.len() && #[trigger] es[i] == (parts.1, ext);
            assert(subtype_ok(m[gi].1[ei].0));
        }
    }
}

} // verus!
