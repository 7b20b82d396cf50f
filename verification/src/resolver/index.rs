//! The in-memory symbol index of the resolution pipeline: symbols looked up by
//! name, by file and by containing item.
use vstd::prelude::*;
use crate::lsp::types::{SymbolKind, Range};
use crate::text::text_eq;

verus! {

/// A symbol known to the index.
#[derive(Debug, Clone, PartialEq)]
pub struct SymbolEntry {
    pub name: String,
    pub kind: SymbolKind,
    pub container_name: Option<String>,
    pub uri: String,
    pub range: Range,
    pub selection_range: Range,
}

/// The symbol index: every inserted entry, in insertion order, until the file
/// it belongs to is invalidated.
#[derive(Debug)]
pub struct SymbolIndex {
    entries: Vec<SymbolEntry>,
}

impl View for SymbolIndex {
    type V = Seq<SymbolEntry>;

    closed spec fn view(&self) -> Seq<SymbolEntry> {
        self.entries@
    }
}

/// The entries of `s` that satisfy `keep`, in order.
pub open spec fn matching(s: Seq<SymbolEntry>, keep: spec_fn(SymbolEntry) -> bool) -> Seq<SymbolEntry>
    decreases s.len(),
{
    if s.len() == 0 {
        seq![]
    } else {
        let r = matching(s.drop_last(), keep);
        if keep(s.last()) {
            r.push(s.last())
        } else {
            r
        }
    }
}

/// The entry is named `name`.
pub open spec fn named(name: Seq<char>) -> spec_fn(SymbolEntry) -> bool {
    |e: SymbolEntry| e.name@ == name
}

/// The entry belongs to the file `uri`.
pub open spec fn in_file(uri: Seq<char>) -> spec_fn(SymbolEntry) -> bool {
    |e: SymbolEntry| e.uri@ == uri
}

/// The entry does not belong to the file `uri`.
pub open spec fn outside_file(uri: Seq<char>) -> spec_fn(SymbolEntry) -> bool {
    |e: SymbolEntry| e.uri@ != uri
}

/// The entry's containing item is `container`.
pub open spec fn contained_in(container: Seq<char>) -> spec_fn(SymbolEntry) -> bool {
    |e: SymbolEntry| e.container_name matches Some(c) && c@ == container
}

/// The entries that a list of references points to.
pub open spec fn referenced(r: Seq<&SymbolEntry>) -> Seq<SymbolEntry> {
    r.map_values(|x: &SymbolEntry| *x)
}

pub proof fn lemma_matching_append(a: Seq<SymbolEntry>, b: Seq<SymbolEntry>, keep: spec_fn(SymbolEntry) -> bool)
    ensures
        matching(a + b, keep) == matching(a, keep) + matching(b, keep),
    decreases b.len(),
{
    if b.len() == 0 {
        assert(a + b =~= a);
        assert(matching(a, keep) + matching(b, keep) =~= matching(a, keep));
    } else {
        lemma_matching_append(a, b.drop_last(), keep);
        assert((a + b).drop_last() =~= a + b.drop_last());
        assert((a + b).last() == b.last());
        if keep(b.last()) {
            assert(matching(a, keep) + matching(b.drop_last(), keep).push(b.last()) =~= (matching(a, keep)
                + matching(b.drop_last(), keep)).push(b.last()));
        }
    }
}

proof fn lemma_matching_single(x: SymbolEntry, keep: spec_fn(SymbolEntry) -> bool)
    ensures
        matching(seq![x], keep) == if keep(x) {
            seq![x]
        } else {
            Seq::<SymbolEntry>::empty()
        },
{
    assert(seq![x].drop_last() =~= Seq::<SymbolEntry>::empty());
    assert(seq![x].last() == x);
    assert(matching(Seq::<SymbolEntry>::empty(), keep) =~= Seq::<SymbolEntry>::empty());
    if keep(x) {
        assert(Seq::<SymbolEntry>::empty().push(x) =~= seq![x]);
    }
}

/// Which field of an entry a lookup compares.
enum Field {
    Name,
    File,
    Container,
}

/// The lookup predicate for a field and a key.
spec fn field_is(field: Field, key: Seq<char>) -> spec_fn(SymbolEntry) -> bool {
    match field {
        Field::Name => named(key),
        Field::File => in_file(key),
        Field::Container => contained_in(key),
    }
}

fn entry_matches(e: &SymbolEntry, field: &Field, key: &str) -> (r: bool)
    ensures
        r == (field_is(*field, key@))(*e),
{
    match field {
        Field::Name => text_eq(e.name.as_str(), key),
        Field::File => text_eq(e.uri.as_str(), key),
        Field::Container => match &e.container_name {
            Some(c) => text_eq(c.as_str(), key),
            None => false,
        },
    }
}

impl SymbolIndex {
    /// Creates an empty index.
    pub fn new() -> (idx: Self)
        ensures
            idx@ == Seq::<SymbolEntry>::empty(),
    {
        SymbolIndex { entries: Vec::new() }
    }

    /// Adds an entry, findable by its name, its file and (if it has one) its
    /// container.
    pub fn insert(&mut self, entry: SymbolEntry)
        ensures
            final(self)@ == old(self)@.push(entry),
    {
        self.entries.push(entry);
    }

    fn lookup(&self, field: Field, key: &str) -> (r: Vec<&SymbolEntry>)
        ensures
            referenced(r@) == matching(self@, field_is(field, key@)),
    {
        let mut r: Vec<&SymbolEntry> = Vec::new();
        let mut i: usize = 0;
        let ghost keep = field_is(field, key@);
        assert(self.entries@.take(0) =~= Seq::<SymbolEntry>::empty());
        assert(referenced(r@) =~= Seq::<SymbolEntry>::empty());
        while i < self.entries.len()
            invariant
                i <= self.entries@.len(),
                keep == field_is(field, key@),
                referenced(r@) == matching(self.entries@.take(i as int), keep),
            decreases self.entries@.len() - i,
        {
            let e = &self.entries[i];
            assert(self.entries@.take(i + 1).drop_last() =~= self.entries@.take(i as int));
            assert(self.entries@.take(i + 1).last() == *e);
            let ghost before = referenced(r@);
            if entry_matches(e, &field, key) {
                r.push(e);
                assert(referenced(r@) =~= before.push(*e));
            }
            i += 1;
        }
        assert(self.entries@.take(self.entries@.len() as int) =~= self.entries@);
        r
    }

    /// The entries named `name`, in insertion order.
    pub fn lookup_by_name(&self, name: &str) -> (r: Vec<&SymbolEntry>)
        ensures
            referenced(r@) == matching(self@, named(name@)),
    {
        self.lookup(Field::Name, name)
    }

    /// The entries of the file `uri`, in insertion order.
    pub fn lookup_by_file(&self, uri: &str) -> (r: Vec<&SymbolEntry>)
        ensures
            referenced(r@) == matching(self@, in_file(uri@)),
    {
        self.lookup(Field::File, uri)
    }

    /// The entries whose container is `container`, in insertion order.
    pub fn lookup_by_container(&self, container: &str) -> (r: Vec<&SymbolEntry>)
        ensures
            referenced(r@) == matching(self@, contained_in(container@)),
    {
        self.lookup(Field::Container, container)
    }

    /// Removes every entry of the file `uri`.
    pub fn invalidate_file(&mut self, uri: &str)
        ensures
            final(self)@ == matching(old(self)@, outside_file(uri@)),
    {
        let ghost orig = self.entries@;
        let ghost keep = outside_file(uri@);
        let mut i: usize = 0;
        assert(self.entries@.take(0) + self.entries@.skip(0) =~= orig);
        assert(Seq::<SymbolEntry>::empty() + matching(orig, keep) =~= matching(orig, keep));
        while i < self.entries.len()
            invariant
                i <= self.entries@.len(),
                keep == outside_file(uri@),
                matching(orig, keep) == self.entries@.take(i as int) + matching(
                    self.entries@.skip(i as int),
                    keep,
                ),
            decreases self.entries@.len() - i,
        {
            let ghost s = self.entries@;
            proof {
                lemma_matching_append(seq![s[i as int]], s.skip(i + 1), keep);
                assert(seq![s[i as int]] + s.skip(i + 1) =~= s.skip(i as int));
                lemma_matching_single(s[i as int], keep);
            }
            if text_eq(self.entries[i].uri.as_str(), uri) {
                self.entries.remove(i);
                assert(self.entries@.take(i as int) =~= s.take(i as int));
                assert(self.entries@.skip(i as int) =~= s.skip(i + 1));
                assert(matching(seq![s[i as int]], keep) =~= Seq::<SymbolEntry>::empty());
                assert(Seq::<SymbolEntry>::empty() + matching(s.skip(i + 1), keep) =~= matching(s.skip(i + 1), keep));
            } else {
                assert(matching(seq![s[i as int]], keep) =~= seq![s[i as int]]);
                assert(s.take(i + 1) =~= s.take(i as int).push(s[i as int]));
                assert(s.take(i as int) + (seq![s[i as int]] + matching(s.skip(i + 1), keep)) =~= s.take(i + 1)
                    + matching(s.skip(i + 1), keep));
                i += 1;
            }
        }
        assert(self.entries@.skip(i as int) =~= Seq::<SymbolEntry>::empty());
        assert(self.entries@.take(i as int) =~= self.entries@);
        assert(self.entries@ + Seq::<SymbolEntry>::empty() =~= self.entries@);
    }

    /// The number of entries in the index.
    pub fn size(&self) -> (n: usize)
        ensures
            n == self@.len(),
    {
        self.entries.len()
    }
}

/// Invalidating a file forgets exactly that file: nothing is left under its
/// URI, every other file keeps all its entries, and the index shrinks by the
/// number of entries the file had.
pub proof fn law_invalidate_forgets_only_that_file(m: Seq<SymbolEntry>, uri: Seq<char>, other: Seq<char>)
    requires
        other != uri,
    ensures
        matching(matching(m, outside_file(uri)), in_file(uri)) == Seq::<SymbolEntry>::empty(),
        matching(matching(m, outside_file(uri)), in_file(other)) == matching(m, in_file(other)),
        matching(m, outside_file(uri)).len() + matching(m, in_file(uri)).len() == m.len(),
    decreases m.len(),
{
    if m.len() > 0 {
        law_invalidate_forgets_only_that_file(m.drop_last(), uri, other);
        let x = m.last();
        let rest = matching(m.drop_last(), outside_file(uri));
        if x.uri@ != uri {
            assert(rest.push(x).drop_last() =~= rest);
            assert(rest.push(x).last() == x);
        }
    } else {
        assert(matching(Seq::<SymbolEntry>::empty(), in_file(uri)) =~= Seq::<SymbolEntry>::empty());
    }
}

/// An inserted entry is found under its name, after the entries of that name
/// inserted before it, and under its file likewise.
pub proof fn law_inserted_entry_is_found(m: Seq<SymbolEntry>, e: SymbolEntry)
    ensures
        matching(m.push(e), named(e.name@)) == matching(m, named(e.name@)).push(e),
        matching(m.push(e), in_file(e.uri@)) == matching(m, in_file(e.uri@)).push(e),
        m.push(e).len() == m.len() + 1,
{
    assert(m.push(e).drop_last() =~= m);
}

impl Default for SymbolIndex {
    /// An empty index.
    fn default() -> (idx: Self)
        ensures
            idx@ == Seq::<SymbolEntry>::empty(),
    {
        Self::new()
    }
}

} // verus!
