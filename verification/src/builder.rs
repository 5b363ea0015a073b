//! Building a packed table from plain rows.
//!
//! A row list gives, per top-level type, the name and the subtype/extension
//! pairs. [`MimeTable::from_rows`] packs such a list into the flat buffer
//! and the index, validating every invariant the lookup engine relies on:
//! it returns `Some` exactly when the rows are acceptable.

use vstd::prelude::*;
use vstd::string::StringSliceAdditionalSpecFns;

use crate::order::{bytes_eq, lemma_lex_lt_transitive, lex_less, lex_lt};
use crate::table::{
    entry_extension, entry_in_bounds, entry_subtype, extension_ok, group_model, group_model_wf,
    model_wf, name_ok, subtype_ok, table_model, Entry, Group, MimeTable, DOT, SEMICOLON, SLASH,
};

verus! {

/// What a row list denotes: the same nesting, with every string read as
/// its bytes.
pub open spec fn rows_model(rows: Seq<(&str, Vec<(&str, &str)>)>) -> Seq<
    (Seq<u8>, Seq<(Seq<u8>, Seq<u8>)>),
> {
    rows.map_values(
        |g: (&str, Vec<(&str, &str)>)|
            (g.0.spec_bytes(), g.1@.map_values(|p: (&str, &str)| (p.0.spec_bytes(), p.1.spec_bytes()))),
    )
}

/// How many buffer bytes a group's pairs take: each subtype immediately
/// followed by its extension.
pub open spec fn entries_len(es: Seq<(Seq<u8>, Seq<u8>)>) -> int
    decreases es.len(),
{
    if es.len() == 0 {
        0
    } else {
        entries_len(es.drop_last()) + es.last().0.len() + es.last().1.len()
    }
}

/// How many buffer bytes a whole model takes.
pub open spec fn model_len(m: Seq<(Seq<u8>, Seq<(Seq<u8>, Seq<u8>)>)>) -> int
    decreases m.len(),
{
    if m.len() == 0 {
        0
    } else {
        model_len(m.drop_last()) + entries_len(m.last().1)
    }
}

/// Every string is short enough for its packed length field, and the whole
/// buffer is short enough for the packed offset field.
pub open spec fn model_fits(m: Seq<(Seq<u8>, Seq<(Seq<u8>, Seq<u8>)>)>) -> bool {
    &&& model_len(m) <= 0xffff
    &&& forall|i: int, j: int|
        0 <= i < m.len() && 0 <= j < m[i].1.len() ==> (#[trigger] m[i].1[j]).0.len() <= 0xff
            && m[i].1[j].1.len() <= 0xff
}

/// A row list is acceptable: its model is well-formed and fits the packed
/// encoding.
pub open spec fn rows_ok(m: Seq<(Seq<u8>, Seq<(Seq<u8>, Seq<u8>)>)>) -> bool {
    model_wf(m) && model_fits(m)
}

proof fn lemma_lex_chain(es: Seq<(Seq<u8>, Seq<u8>)>, i: int, j: int)
    requires
        forall|k: int| 0 <= k < es.len() - 1 ==> lex_lt((#[trigger] es[k]).0, es[k + 1].0),
        0 <= i < j < es.len(),
    ensures
        lex_lt(es[i].0, es[j].0),
    decreases j - i,
{
    if j > i + 1 {
        lemma_lex_chain(es, i, j - 1);
        assert(lex_lt(es[j - 1].0, es[j].0));
        lemma_lex_lt_transitive(es[i].0, es[j - 1].0, es[j].0);
    }
}

/// A pair list whose adjacent subtypes ascend is sorted throughout.
pub proof fn lemma_adjacent_sorted(es: Seq<(Seq<u8>, Seq<u8>)>)
    requires
        forall|k: int| 0 <= k < es.len() - 1 ==> lex_lt((#[trigger] es[k]).0, es[k + 1].0),
    ensures
        forall|i: int, j: int| 0 <= i < j < es.len() ==> lex_lt((#[trigger] es[i]).0, (#[trigger] es[j]).0),
{
    assert forall|i: int, j: int| 0 <= i < j < es.len() implies lex_lt(
        (#[trigger] es[i]).0,
        (#[trigger] es[j]).0,
    ) by {
        lemma_lex_chain(es, i, j);
    }
}

proof fn lemma_entries_len_nonneg(es: Seq<(Seq<u8>, Seq<u8>)>)
    ensures
        entries_len(es) >= 0,
    decreases es.len(),
{
    if es.len() > 0 {
        lemma_entries_len_nonneg(es.drop_last());
    }
}

proof fn lemma_entries_len_take_succ(es: Seq<(Seq<u8>, Seq<u8>)>, k: int)
    requires
        0 <= k < es.len(),
    ensures
        entries_len(es.take(k + 1)) == entries_len(es.take(k)) + es[k].0.len() + es[k].1.len(),
{
    assert(es.take(k + 1).drop_last() =~= es.take(k));
    assert(es.take(k + 1).last() == es[k]);
}

proof fn lemma_entries_len_take(es: Seq<(Seq<u8>, Seq<u8>)>, k: int)
    requires
        0 <= k <= es.len(),
    ensures
        entries_len(es.take(k)) <= entries_len(es),
    decreases es.len() - k,
{
    if k == es.len() {
        assert(es.take(k) =~= es);
    } else {
        lemma_entries_len_take_succ(es, k);
        lemma_entries_len_take(es, k + 1);
    }
}

proof fn lemma_model_len_take_succ(m: Seq<(Seq<u8>, Seq<(Seq<u8>, Seq<u8>)>)>, k: int)
    requires
        0 <= k < m.len(),
    ensures
        model_len(m.take(k + 1)) == model_len(m.take(k)) + entries_len(m[k].1),
{
    assert(m.take(k + 1).drop_last() =~= m.take(k));
    assert(m.take(k + 1).last() == m[k]);
}

proof fn lemma_model_len_take(m: Seq<(Seq<u8>, Seq<(Seq<u8>, Seq<u8>)>)>, k: int)
    requires
        0 <= k <= m.len(),
    ensures
        model_len(m.take(k)) <= model_len(m),
    decreases m.len() - k,
{
    if k == m.len() {
        assert(m.take(k) =~= m);
    } else {
        lemma_model_len_take_succ(m, k);
        lemma_entries_len_nonneg(m[k].1);
        lemma_model_len_take(m, k + 1);
    }
}

/// Reading an entry that lies inside a buffer gives the same bytes after
/// the buffer has grown at the end.
proof fn lemma_entry_stable(raw1: Seq<u8>, raw2: Seq<u8>, e: Entry)
    requires
        raw1.len() <= raw2.len(),
        raw2.subrange(0, raw1.len() as int) == raw1,
        entry_in_bounds(raw1, e),
    ensures
        entry_in_bounds(raw2, e),
        entry_subtype(raw2, e) == entry_subtype(raw1, e),
        entry_extension(raw2, e) == entry_extension(raw1, e),
{
    assert(entry_subtype(raw2, e) =~= entry_subtype(raw1, e));
    assert(entry_extension(raw2, e) =~= entry_extension(raw1, e));
}

/// A whole group list keeps its model when the buffer grows at the end,
/// as long as every entry lies inside the old buffer.
proof fn lemma_groups_stable(raw1: Seq<u8>, raw2: Seq<u8>, groups: Seq<Group>)
    requires
        raw1.len() <= raw2.len(),
        raw2.subrange(0, raw1.len() as int) == raw1,
        forall|i: int, j: int|
            0 <= i < groups.len() && 0 <= j < groups[i].entries@.len() ==> entry_in_bounds(
                raw1,
                #[trigger] groups[i].entries@[j],
            ),
    ensures
        table_model(raw2, groups) == table_model(raw1, groups),
{
    assert forall|i: int| 0 <= i < groups.len() implies #[trigger] table_model(raw2, groups)[i]
        == table_model(raw1, groups)[i] by {
        assert forall|j: int| 0 <= j < groups[i].entries@.len() implies #[trigger] group_model(
            raw2,
            groups[i],
        ).1[j] == group_model(raw1, groups[i]).1[j] by {
            lemma_entry_stable(raw1, raw2, groups[i].entries@[j]);
        }
        assert(group_model(raw2, groups[i]).1 =~= group_model(raw1, groups[i]).1);
    }
    assert(table_model(raw2, groups) =~= table_model(raw1, groups));
}

/// A partial entry list keeps its decoded pairs when the buffer grows at
/// the end.
proof fn lemma_entries_stable(raw1: Seq<u8>, raw2: Seq<u8>, entries: Seq<Entry>)
    requires
        raw1.len() <= raw2.len(),
        raw2.subrange(0, raw1.len() as int) == raw1,
        forall|j: int| 0 <= j < entries.len() ==> entry_in_bounds(raw1, #[trigger] entries[j]),
    ensures
        entries.map_values(|e: Entry| (entry_subtype(raw2, e), entry_extension(raw2, e)))
            == entries.map_values(|e: Entry| (entry_subtype(raw1, e), entry_extension(raw1, e))),
{
    assert forall|j: int| 0 <= j < entries.len() implies entry_subtype(raw2, #[trigger] entries[j])
        == entry_subtype(raw1, entries[j]) && entry_extension(raw2, entries[j]) == entry_extension(
        raw1,
        entries[j],
    ) by {
        lemma_entry_stable(raw1, raw2, entries[j]);
    }
    assert(entries.map_values(|e: Entry| (entry_subtype(raw2, e), entry_extension(raw2, e)))
        =~= entries.map_values(|e: Entry| (entry_subtype(raw1, e), entry_extension(raw1, e))));
}

/// Whether the bytes make a valid type name.
fn check_name(s: &[u8]) -> (r: bool)
    ensures
        r == name_ok(s@),
{
    let n: usize = s.len();
    if n == 0 {
        return false;
    }
    let mut i: usize = 0;
    while i < n
        invariant
            0 <= i <= n == s@.len(),
            forall|k: int| 0 <= k < i ==> #[trigger] s@[k] < 128 && s@[k] != SLASH,
        decreases n - i,
    {
        let b = s[i];
        if b >= 128 || b == SLASH {
            return false;
        }
        i = i + 1;
    }
    true
}

/// Whether the bytes make a valid subtype.
fn check_subtype(s: &[u8]) -> (r: bool)
    ensures
        r == subtype_ok(s@),
{
    let n: usize = s.len();
    if n == 0 {
        return false;
    }
    let mut i: usize = 0;
    while i < n
        invariant
            0 <= i <= n == s@.len(),
            forall|k: int| 0 <= k < i ==> #[trigger] s@[k] < 128 && s@[k] != SLASH && s@[k] != SEMICOLON,
        decreases n - i,
    {
        let b = s[i];
        if b >= 128 || b == SLASH || b == SEMICOLON {
            return false;
        }
        i = i + 1;
    }
    true
}

/// Whether the bytes make a valid extension.
fn check_extension(s: &[u8]) -> (r: bool)
    ensures
        r == extension_ok(s@),
{
    let n: usize = s.len();
    if n == 0 {
        return false;
    }
    let mut i: usize = 0;
    while i < n
        invariant
            0 <= i <= n == s@.len(),
            forall|k: int| 0 <= k < i ==> #[trigger] s@[k] < 128 && s@[k] != SLASH && s@[k] != DOT,
        decreases n - i,
    {
        let b = s[i];
        if b >= 128 || b == SLASH || b == DOT {
            return false;
        }
        i = i + 1;
    }
    true
}

/// Append a slice's bytes at the end of the buffer.
fn push_bytes(raw: &mut Vec<u8>, s: &[u8])
    ensures
        final(raw)@ == old(raw)@ + s@,
{
    let n: usize = s.len();
    let mut i: usize = 0;
    while i < n
        invariant
            0 <= i <= n == s@.len(),
            raw@ == old(raw)@ + s@.take(i as int),
        decreases n - i,
    {
        raw.push(s[i]);
        proof {
            assert(old(raw)@ + s@.take(i + 1) =~= (old(raw)@ + s@.take(i as int)).push(s@[i as int]));
        }
        i = i + 1;
    }
    proof {
        assert(s@.take(n as int) =~= s@);
    }
}

impl MimeTable {
    /// Pack a row list into a table, validating everything the lookup
    /// engine relies on: names, subtypes and extensions nonempty, ASCII and
    /// free of separators; subtypes strictly ascending within each group;
    /// group names distinct; every string short enough for its length
    /// field and the buffer short enough for the offset field. Returns
    /// `Some` exactly for acceptable rows, and then the packed table
    /// denotes exactly the rows.
    #[verifier::rlimit(50)]
    pub fn from_rows(rows: &Vec<(&str, Vec<(&str, &str)>)>) -> (r: Option<
        MimeTable,
    >)
        ensures
            (r is Some) == rows_ok(rows_model(rows@)),
            r matches Some(t) ==> t.wf() && t.model() == rows_model(rows@),
    {
        let ghost m = rows_model(rows@);
        let mut raw: Vec<u8> = Vec::new();
        let mut groups: Vec<Group> = Vec::new();
        let ng: usize = rows.len();
        let mut gi: usize = 0;
        proof {
            assert(table_model(raw@, groups@) =~= m.take(0));
        }
        while gi < ng
            invariant
                0 <= gi <= ng == rows@.len(),
                m == rows_model(rows@),
                groups@.len() == gi,
                forall|i: int, j: int|
                    0 <= i < groups@.len() && 0 <= j < groups@[i].entries@.len()
                        ==> entry_in_bounds(raw@, #[trigger] groups@[i].entries@[j]),
                table_model(raw@, groups@) == m.take(gi as int),
                raw@.len() == model_len(m.take(gi as int)),
                raw@.len() <= 0xffff,
                forall|i: int| 0 <= i < gi ==> group_model_wf(#[trigger] m[i]),
                forall|i: int, j: int| 0 <= i < j < gi ==> m[i].0 != m[j].0,
                forall|i: int, j: int|
                    0 <= i < gi && 0 <= j < m[i].1.len() ==> (#[trigger] m[i].1[j]).0.len() <= 0xff
                        && m[i].1[j].1.len() <= 0xff,
            decreases ng - gi,
        {
            let row = &rows[gi];
            let name_b: &[u8] = row.0.as_bytes();
            proof {
                assert(m[gi as int] == (rows@[gi as int].0.spec_bytes(),
                    rows@[gi as int].1@.map_values(
                        |p: (&str, &str)| (p.0.spec_bytes(), p.1.spec_bytes()),
                    )));
                assert(name_b@ == m[gi as int].0);
            }
            if !check_name(name_b) {
                proof {
                    assert(!group_model_wf(m[gi as int]));
                    assert(!model_wf(m));
                }
                return None;
            }
            // group names must be pairwise distinct
            let mut k: usize = 0;
            while k < gi
                invariant
                    0 <= k <= gi <= ng == rows@.len(),
                    gi < ng,
                    m == rows_model(rows@),
                    groups@.len() == gi,
                    name_b@ == m[gi as int].0,
                    table_model(raw@, groups@) == m.take(gi as int),
                    forall|i: int| 0 <= i < k ==> (#[trigger] groups@[i]).name@ != name_b@,
                decreases gi - k,
            {
                if bytes_eq(groups[k].name.as_slice(), name_b) {
                    proof {
                        assert(m.take(gi as int)[k as int] == group_model(raw@, groups@[k as int]));
                        assert(m[k as int].0 == name_b@);
                        assert(!model_wf(m));
                    }
                    return None;
                }
                k = k + 1;
            }
            proof {
                assert forall|i: int| 0 <= i < gi implies (#[trigger] m[i]).0 != m[gi as int].0 by {
                    assert(m.take(gi as int)[i] == group_model(raw@, groups@[i]));
                    assert(m[i].0 == groups@[i].name@);
                }
            }
            let pairs: &Vec<(&str, &str)> = &row.1;
            let ne: usize = pairs.len();
            proof {
                assert(m[gi as int].1 == rows@[gi as int].1@.map_values(
                    |p: (&str, &str)| (p.0.spec_bytes(), p.1.spec_bytes()),
                ));
                assert(m[gi as int].1.len() == ne);
                assert(m[gi as int].1.take(0) =~= Seq::<(Seq<u8>, Seq<u8>)>::empty());
            }
            let mut entries: Vec<Entry> = Vec::new();
            let mut ei: usize = 0;
            while ei < ne
                invariant
                    0 <= ei <= ne,
                    gi < ng == rows@.len(),
                    m == rows_model(rows@),
                    groups@.len() == gi,
                    pairs@ == rows@[gi as int].1@,
                    m[gi as int].1 == rows@[gi as int].1@.map_values(
                        |p: (&str, &str)| (p.0.spec_bytes(), p.1.spec_bytes()),
                    ),
                    ne == m[gi as int].1.len(),
                    entries@.len() == ei,
                    forall|i: int, j: int|
                        0 <= i < groups@.len() && 0 <= j < groups@[i].entries@.len()
                            ==> entry_in_bounds(raw@, #[trigger] groups@[i].entries@[j]),
                    table_model(raw@, groups@) == m.take(gi as int),
                    forall|j: int| 0 <= j < ei ==> entry_in_bounds(raw@, #[trigger] entries@[j]),
                    entries@.map_values(
                        |e: Entry| (entry_subtype(raw@, e), entry_extension(raw@, e)),
                    ) == m[gi as int].1.take(ei as int),
                    raw@.len() == model_len(m.take(gi as int)) + entries_len(
                        m[gi as int].1.take(ei as int),
                    ),
                    raw@.len() <= 0xffff,
                    forall|j: int|
                        0 <= j < ei ==> subtype_ok((#[trigger] m[gi as int].1[j]).0) && extension_ok(
                            m[gi as int].1[j].1,
                        ) && m[gi as int].1[j].0.len() <= 0xff && m[gi as int].1[j].1.len() <= 0xff,
                    forall|i: int, j: int|
                        0 <= i < j < ei ==> lex_lt(m[gi as int].1[i].0, m[gi as int].1[j].0),
                decreases ne - ei,
            {
                let pair = pairs[ei];
                let sub_b: &[u8] = pair.0.as_bytes();
                let ext_b: &[u8] = pair.1.as_bytes();
                proof {
                    assert(m[gi as int].1[ei as int] == (pairs@[ei as int].0.spec_bytes(),
                        pairs@[ei as int].1.spec_bytes()));
                    assert(sub_b@ == m[gi as int].1[ei as int].0);
                    assert(ext_b@ == m[gi as int].1[ei as int].1);
                }
                if !check_subtype(sub_b) {
                    proof {
                        assert(!group_model_wf(m[gi as int]));
                        assert(!model_wf(m));
                    }
                    return None;
                }
                if !check_extension(ext_b) {
                    proof {
                        assert(!group_model_wf(m[gi as int]));
                        assert(!model_wf(m));
                    }
                    return None;
                }
                if sub_b.len() > 0xff || ext_b.len() > 0xff {
                    proof {
                        assert(!model_fits(m));
                    }
                    return None;
                }
                if raw.len() > 0xffff - sub_b.len() - ext_b.len() {
                    proof {
                        lemma_entries_len_take_succ(m[gi as int].1, ei as int);
                        lemma_entries_len_take(m[gi as int].1, ei as int + 1);
                        lemma_model_len_take_succ(m, gi as int);
                        lemma_model_len_take(m, gi as int + 1);
                        assert(model_len(m) > 0xffff);
                        assert(!model_fits(m));
                    }
                    return None;
                }
                if ei > 0 {
                    let prev = entries[ei - 1];
                    let prev_sub = prev.subtype(raw.as_slice());
                    proof {
                        assert(prev_sub@ == m[gi as int].1[ei as int - 1].0);
                    }
                    if !lex_less(prev_sub, sub_b) {
                        proof {
                            assert(!lex_lt(
                                m[gi as int].1[ei as int - 1].0,
                                m[gi as int].1[ei as int].0,
                            ));
                            assert(!group_model_wf(m[gi as int]));
                            assert(!model_wf(m));
                        }
                        return None;
                    }
                }
                let e = Entry {
                    location: raw.len() as u16,
                    subtype_len: sub_b.len() as u8,
                    extension_len: ext_b.len() as u8,
                };
                let ghost raw_old = raw@;
                push_bytes(&mut raw, sub_b);
                push_bytes(&mut raw, ext_b);
                proof {
                    assert(raw@ == raw_old + sub_b@ + ext_b@);
                    assert(raw@.subrange(0, raw_old.len() as int) =~= raw_old);
                    lemma_groups_stable(raw_old, raw@, groups@);
                    lemma_entries_stable(raw_old, raw@, entries@);
                    assert(entry_in_bounds(raw@, e));
                    assert(entry_subtype(raw@, e) =~= sub_b@);
                    assert(entry_extension(raw@, e) =~= ext_b@);
                }
                entries.push(e);
                proof {
                    let decode = |x: Entry| (entry_subtype(raw@, x), entry_extension(raw@, x));
                    assert(entries@.map_values(decode) =~= entries@.drop_last().map_values(
                        decode,
                    ).push((sub_b@, ext_b@)));
                    assert(m[gi as int].1.take(ei as int + 1) =~= m[gi as int].1.take(
                        ei as int,
                    ).push(m[gi as int].1[ei as int]));
                    lemma_entries_len_take_succ(m[gi as int].1, ei as int);
                    assert forall|i: int, j: int| 0 <= i < j < ei + 1 implies lex_lt(
                        m[gi as int].1[i].0,
                        m[gi as int].1[j].0,
                    ) by {
                        if j == ei as int && i < ei as int - 1 {
                            lemma_lex_lt_transitive(
                                m[gi as int].1[i].0,
                                m[gi as int].1[ei as int - 1].0,
                                m[gi as int].1[ei as int].0,
                            );
                        }
                    }
                }
                ei = ei + 1;
            }
            let name_vec: Vec<u8> = vstd::slice::slice_to_vec(name_b);
            let g = Group { name: name_vec, entries };
            let ghost groups_old = groups@;
            groups.push(g);
            proof {
                assert(m[gi as int].1.take(ne as int) =~= m[gi as int].1);
                assert(group_model(raw@, g) == m[gi as int]);
                assert(table_model(raw@, groups@) =~= table_model(raw@, groups_old).push(
                    group_model(raw@, g),
                ));
                assert(m.take(gi as int + 1) =~= m.take(gi as int).push(m[gi as int]));
                lemma_model_len_take_succ(m, gi as int);
                assert(group_model_wf(m[gi as int]));
            }
            gi = gi + 1;
        }
        proof {
            assert(m.take(ng as int) =~= m);
            lemma_model_len_take(m, ng as int);
        }
        let t = MimeTable { raw, groups };
        proof {
            assert(t.model() == m);
            assert(model_wf(m));
            assert(model_fits(m));
            assert(t.wf());
        }
        Some(t)
    }

    /// The table with no groups and an empty buffer.
    pub fn empty() -> (t: MimeTable)
        ensures
            t.wf(),
            t.model() == Seq::<(Seq<u8>, Seq<(Seq<u8>, Seq<u8>)>)>::empty(),
    {
        let t = MimeTable { raw: Vec::new(), groups: Vec::new() };
        proof {
            assert(t.model() =~= Seq::<(Seq<u8>, Seq<(Seq<u8>, Seq<u8>)>)>::empty());
        }
        t
    }
}

} // verus!
