//! The lookup engine: parsing a MIME type, finding the type group, and
//! binary-searching the group's entries, together with the specification
//! of the whole lookup as a function over the table model.

use vstd::prelude::*;

use crate::order::{bytes_eq, lemma_lex_lt_irreflexive, lemma_lex_lt_transitive, lex_less, lex_lt};
use crate::table::{entry_extension, entry_subtype, group_model, group_model_wf, model_wf, Entry, Group, MimeTable, SEMICOLON, SLASH};

verus! {

/// The index of the first occurrence of `c` in `s`, or `s.len()` when `c`
/// does not occur.
pub open spec fn first_index(s: Seq<u8>, c: u8) -> int
    decreases s.len(),
{
    if s.len() == 0 {
        0
    } else if s[0] == c {
        0
    } else {
        1 + first_index(s.drop_first(), c)
    }
}

/// `first_index` points at the first occurrence: everything before it
/// differs from `c`, and it lands on `c` exactly when `c` occurs at all.
pub proof fn lemma_first_index(s: Seq<u8>, c: u8)
    ensures
        0 <= first_index(s, c) <= s.len(),
        first_index(s, c) < s.len() ==> s[first_index(s, c)] == c,
        forall|k: int| 0 <= k < first_index(s, c) ==> s[k] != c,
    decreases s.len(),
{
    if s.len() > 0 && s[0] != c {
        lemma_first_index(s.drop_first(), c);
        assert forall|k: int| 0 <= k < first_index(s, c) implies s[k] != c by {
            if k > 0 {
                assert(s[k] == s.drop_first()[k - 1]);
            }
        }
    }
}

/// `first_index` is determined by the first occurrence: a position that
/// lands on `c` with no `c` before it is the first index, and a sequence
/// without `c` has first index `len`.
pub proof fn lemma_first_index_is(s: Seq<u8>, c: u8, i: int)
    requires
        0 <= i <= s.len(),
        i < s.len() ==> s[i] == c,
        forall|k: int| 0 <= k < i ==> s[k] != c,
        i == s.len() ==> forall|k: int| 0 <= k < s.len() ==> s[k] != c,
    ensures
        first_index(s, c) == i,
    decreases s.len(),
{
    if s.len() > 0 && s[0] != c {
        lemma_first_index_is(s.drop_first(), c, i - 1);
    }
}

/// How a MIME type string splits: at the first slash, with the remainder
/// truncated at the first semicolon. `None` when there is no slash.
pub open spec fn split_mimetype(m: Seq<u8>) -> Option<(Seq<u8>, Seq<u8>)> {
    let i = first_index(m, SLASH);
    if i == m.len() {
        None
    } else {
        let rest = m.skip(i + 1);
        Some((m.take(i), rest.take(first_index(rest, SEMICOLON))))
    }
}

/// The entry list of the first group named `name`, or `None`.
pub open spec fn find_group_spec(m: Seq<(Seq<u8>, Seq<(Seq<u8>, Seq<u8>)>)>, name: Seq<u8>) -> Option<
    Seq<(Seq<u8>, Seq<u8>)>,
>
    decreases m.len(),
{
    if m.len() == 0 {
        None
    } else if m[0].0 == name {
        Some(m[0].1)
    } else {
        find_group_spec(m.drop_first(), name)
    }
}

/// The extension of the first pair whose subtype is `sub`, or `None`.
pub open spec fn find_ext_spec(entries: Seq<(Seq<u8>, Seq<u8>)>, sub: Seq<u8>) -> Option<Seq<u8>>
    decreases entries.len(),
{
    if entries.len() == 0 {
        None
    } else if entries[0].0 == sub {
        Some(entries[0].1)
    } else {
        find_ext_spec(entries.drop_first(), sub)
    }
}

/// The whole lookup over a table model: parse the MIME type, find the
/// group, find the entry.
pub open spec fn lookup_spec(m: Seq<(Seq<u8>, Seq<(Seq<u8>, Seq<u8>)>)>, mimetype: Seq<u8>) -> Option<
    Seq<u8>,
> {
    match split_mimetype(mimetype) {
        None => None,
        Some(parts) => match find_group_spec(m, parts.0) {
            None => None,
            Some(entries) => find_ext_spec(entries, parts.1),
        },
    }
}

/// A first match at index `i` settles `find_group_spec`.
pub proof fn lemma_find_group_found(m: Seq<(Seq<u8>, Seq<(Seq<u8>, Seq<u8>)>)>, name: Seq<u8>, i: int)
    requires
        0 <= i < m.len(),
        m[i].0 == name,
        forall|k: int| 0 <= k < i ==> (#[trigger] m[k]).0 != name,
    ensures
        find_group_spec(m, name) == Some(m[i].1),
    decreases m.len(),
{
    if i > 0 {
        lemma_find_group_found(m.drop_first(), name, i - 1);
    }
}

/// No match anywhere settles `find_group_spec`.
pub proof fn lemma_find_group_none(m: Seq<(Seq<u8>, Seq<(Seq<u8>, Seq<u8>)>)>, name: Seq<u8>)
    requires
        forall|k: int| 0 <= k < m.len() ==> (#[trigger] m[k]).0 != name,
    ensures
        find_group_spec(m, name) is None,
    decreases m.len(),
{
    if m.len() > 0 {
        lemma_find_group_none(m.drop_first(), name);
    }
}

/// A first match at index `i` settles `find_ext_spec`.
pub proof fn lemma_find_ext_found(entries: Seq<(Seq<u8>, Seq<u8>)>, sub: Seq<u8>, i: int)
    requires
        0 <= i < entries.len(),
        entries[i].0 == sub,
        forall|k: int| 0 <= k < i ==> (#[trigger] entries[k]).0 != sub,
    ensures
        find_ext_spec(entries, sub) == Some(entries[i].1),
    decreases entries.len(),
{
    if i > 0 {
        lemma_find_ext_found(entries.drop_first(), sub, i - 1);
    }
}

/// No match anywhere settles `find_ext_spec`.
pub proof fn lemma_find_ext_none(entries: Seq<(Seq<u8>, Seq<u8>)>, sub: Seq<u8>)
    requires
        forall|k: int| 0 <= k < entries.len() ==> (#[trigger] entries[k]).0 != sub,
    ensures
        find_ext_spec(entries, sub) is None,
    decreases entries.len(),
{
    if entries.len() > 0 {
        lemma_find_ext_none(entries.drop_first(), sub);
    }
}

/// The index of the first occurrence of `c` in `s`, or `s.len()`.
pub fn find_byte(s: &[u8], c: u8) -> (r: usize)
    ensures
        r == first_index(s@, c),
{
    let n: usize = s.len();
    let mut i: usize = 0;
    while i < n
        invariant
            0 <= i <= n == s@.len(),
            forall|k: int| 0 <= k < i ==> s@[k] != c,
        decreases n - i,
    {
        if s[i] == c {
            proof {
                lemma_first_index_is(s@, c, i as int);
            }
            return i;
        }
        i = i + 1;
    }
    proof {
        lemma_first_index_is(s@, c, n as int);
    }
    n
}

/// Split a MIME type at the first slash and strip at most one trailing
/// parameter, exactly as [`split_mimetype`] says.
pub fn parse_mimetype<'a>(mimetype: &'a [u8]) -> (r: Option<(&'a [u8], &'a [u8])>)
    ensures
        match r {
            Some(parts) => split_mimetype(mimetype@) == Some((parts.0@, parts.1@)),
            None => split_mimetype(mimetype@) is None,
        },
{
    let i = find_byte(mimetype, SLASH);
    proof {
        lemma_first_index(mimetype@, SLASH);
    }
    if i == mimetype.len() {
        return None;
    }
    let type_ = vstd::slice::slice_subrange(mimetype, 0, i);
    let rest = vstd::slice::slice_subrange(mimetype, i + 1, mimetype.len());
    let j = find_byte(rest, SEMICOLON);
    proof {
        lemma_first_index(rest@, SEMICOLON);
    }
    let subtype = vstd::slice::slice_subrange(rest, 0, j);
    proof {
        assert(rest@ =~= mimetype@.skip(i + 1));
        assert(type_@ =~= mimetype@.take(i as int));
        assert(subtype@ =~= rest@.take(j as int));
    }
    Some((type_, subtype))
}

/// Find the first group whose name equals `name`, by a linear scan.
pub fn find_table<'a>(t: &'a MimeTable, name: &[u8]) -> (r: Option<&'a Group>)
    ensures
        match r {
            Some(g) => {
                &&& t.groups@.contains(*g)
                &&& find_group_spec(t.model(), name@) == Some(group_model(t.raw@, *g).1)
            },
            None => find_group_spec(t.model(), name@) is None,
        },
{
    let n: usize = t.groups.len();
    let mut i: usize = 0;
    while i < n
        invariant
            0 <= i <= n == t.groups@.len(),
            forall|k: int| 0 <= k < i ==> (#[trigger] t.groups@[k]).name@ != name@,
        decreases n - i,
    {
        let g = &t.groups[i];
        if bytes_eq(g.name.as_slice(), name) {
            proof {
                assert(forall|k: int|
                    0 <= k < i ==> (#[trigger] t.model()[k]).0 != name@);
                assert(t.model()[i as int].0 == name@);
                lemma_find_group_found(t.model(), name@, i as int);
                assert(t.model()[i as int] == group_model(t.raw@, t.groups@[i as int]));
            }
            return Some(g);
        }
        i = i + 1;
    }
    proof {
        assert(forall|k: int| 0 <= k < t.model().len() ==> (#[trigger] t.model()[k]).0 != name@);
        lemma_find_group_none(t.model(), name@);
    }
    None
}

/// Find the entry with the given subtype by binary search over a group's
/// sorted entries.
pub fn find_entry(raw: &[u8], entries: &[Entry], sub: &[u8]) -> (r: Option<Entry>)
    requires
        forall|j: int| 0 <= j < entries@.len() ==> entry_in_bounds_at(raw@, entries@, j),
        forall|i: int, j: int|
            0 <= i < j < entries@.len() ==> lex_lt(
                entry_subtype(raw@, entries@[i]),
                entry_subtype(raw@, entries@[j]),
            ),
    ensures
        match r {
            Some(e) => {
                &&& entries@.contains(e)
                &&& entry_subtype(raw@, e) == sub@
            },
            None => forall|j: int|
                0 <= j < entries@.len() ==> entry_subtype(raw@, #[trigger] entries@[j]) != sub@,
        },
{
    let mut lo: usize = 0;
    let mut hi: usize = entries.len();
    while lo < hi
        invariant
            0 <= lo <= hi <= entries@.len(),
            forall|j: int| 0 <= j < entries@.len() ==> entry_in_bounds_at(raw@, entries@, j),
            forall|i: int, j: int|
                0 <= i < j < entries@.len() ==> lex_lt(
                    entry_subtype(raw@, entries@[i]),
                    entry_subtype(raw@, entries@[j]),
                ),
            forall|j: int| 0 <= j < lo ==> lex_lt(entry_subtype(raw@, #[trigger] entries@[j]), sub@),
            forall|j: int|
                hi <= j < entries@.len() ==> !lex_lt(entry_subtype(raw@, #[trigger] entries@[j]), sub@),
        decreases hi - lo,
    {
        let mid: usize = lo + (hi - lo) / 2;
        let e = entries[mid];
        proof {
            assert(entry_in_bounds_at(raw@, entries@, mid as int));
        }
        let esub = e.subtype(raw);
        if lex_less(esub, sub) {
            proof {
                assert forall|j: int| 0 <= j < mid + 1 implies lex_lt(
                    entry_subtype(raw@, #[trigger] entries@[j]),
                    sub@,
                ) by {
                    if j < mid {
                        lemma_lex_lt_transitive(
                            entry_subtype(raw@, entries@[j]),
                            entry_subtype(raw@, entries@[mid as int]),
                            sub@,
                        );
                    }
                }
            }
            lo = mid + 1;
        } else {
            proof {
                assert forall|j: int| mid <= j < entries@.len() implies !lex_lt(
                    entry_subtype(raw@, #[trigger] entries@[j]),
                    sub@,
                ) by {
                    if j > mid && lex_lt(entry_subtype(raw@, entries@[j]), sub@) {
                        lemma_lex_lt_transitive(
                            entry_subtype(raw@, entries@[mid as int]),
                            entry_subtype(raw@, entries@[j]),
                            sub@,
                        );
                    }
                }
            }
            hi = mid;
        }
    }
    if lo < entries.len() {
        let e = entries[lo];
        proof {
            assert(entry_in_bounds_at(raw@, entries@, lo as int));
        }
        let esub = e.subtype(raw);
        if bytes_eq(esub, sub) {
            return Some(e);
        }
    }
    proof {
        assert forall|j: int| 0 <= j < entries@.len() implies entry_subtype(
            raw@,
            #[trigger] entries@[j],
        ) != sub@ by {
            let s = entry_subtype(raw@, entries@[j]);
            if j < lo {
                lemma_lex_lt_irreflexive(sub@);
            } else if j == lo {
            } else {
                if s == sub@ {
                    assert(lex_lt(entry_subtype(raw@, entries@[lo as int]), s));
                    assert(!lex_lt(entry_subtype(raw@, entries@[lo as int]), sub@));
                }
            }
        }
    }
    None
}

/// The entry at index `j` of the list lies inside the buffer.
pub open spec fn entry_in_bounds_at(raw: Seq<u8>, entries: Seq<Entry>, j: int) -> bool {
    crate::table::entry_in_bounds(raw, entries[j])
}

impl MimeTable {
    /// Look up a MIME type, given as bytes, and return the extension as a
    /// borrowed slice of the flat buffer: exactly what [`lookup_spec`]
    /// says over the table's model. The returned bytes are ASCII.
    pub fn lookup<'a>(&'a self, mimetype: &[u8]) -> (r: Option<&'a [u8]>)
        requires
            self.wf(),
        ensures
            match r {
                Some(ext) => {
                    &&& lookup_spec(self.model(), mimetype@) == Some(ext@)
                    &&& forall|i: int| 0 <= i < ext@.len() ==> #[trigger] ext@[i] < 128
                },
                None => lookup_spec(self.model(), mimetype@) is None,
            },
    {
        let parts = match parse_mimetype(mimetype) {
            None => {
                return None;
            },
            Some(parts) => parts,
        };
        let group = match find_table(self, parts.0) {
            None => {
                return None;
            },
            Some(g) => g,
        };
        let ghost gi = choose|i: int| 0 <= i < self.groups@.len() && self.groups@[i] == *group;
        proof {
            assert(self.model()[gi] == group_model(self.raw@, *group));
            assert(group_model_wf(self.model()[gi]));
            let pairs = group_model(self.raw@, *group).1;
            assert forall|j: int| 0 <= j < group.entries@.len() implies entry_in_bounds_at(
                self.raw@,
                group.entries@,
                j,
            ) by {
                assert(crate::table::entry_in_bounds(
                    self.raw@,
                    self.groups@[gi].entries@[j],
                ));
            }
            assert forall|i: int, j: int| 0 <= i < j < group.entries@.len() implies lex_lt(
                entry_subtype(self.raw@, group.entries@[i]),
                entry_subtype(self.raw@, group.entries@[j]),
            ) by {
                assert(pairs[i].0 == entry_subtype(self.raw@, group.entries@[i]));
                assert(pairs[j].0 == entry_subtype(self.raw@, group.entries@[j]));
                assert(lex_lt(pairs[i].0, pairs[j].0));
            }
        }
        let e = match find_entry(self.raw.as_slice(), group.entries.as_slice(), parts.1) {
            None => {
                proof {
                    let pairs = group_model(self.raw@, *group).1;
                    assert forall|k: int| 0 <= k < pairs.len() implies (#[trigger] pairs[k]).0
                        != parts.1@ by {
                        assert(pairs[k].0 == entry_subtype(self.raw@, group.entries@[k]));
                    }
                    lemma_find_ext_none(pairs, parts.1@);
                }
                return None;
            },
            Some(e) => e,
        };
        proof {
            let pairs = group_model(self.raw@, *group).1;
            let j = choose|j: int|
                0 <= j < group.entries@.len() && group.entries@[j] == e;
            assert(pairs[j] == (entry_subtype(self.raw@, e), entry_extension(self.raw@, e)));
            assert forall|k: int| 0 <= k < j implies (#[trigger] pairs[k]).0 != parts.1@ by {
                assert(lex_lt(pairs[k].0, pairs[j].0));
                lemma_lex_lt_irreflexive(parts.1@);
            }
            lemma_find_ext_found(pairs, parts.1@, j);
            assert(crate::table::extension_ok(pairs[j].1));
        }
        Some(e.extension(self.raw.as_slice()))
    }
}

} // verus!
