//! The identity of a package, what is recorded of it, and the registry of
//! canonical records.
use vstd::prelude::*;
use crate::package::{Location, PackageInfo};

verus! {

/// The identity under which copies of a package are merged: its name, and
/// its version in the normal form that the semver parser displays.
#[derive(Debug, Clone, PartialEq, Eq)]
pub struct DedupKey {
    pub name: String,
    pub version: String,
}

impl View for DedupKey {
    type V = (Seq<char>, Seq<char>);

    open spec fn view(&self) -> (Seq<char>, Seq<char>) {
        (self.name@, self.version@)
    }
}

/// A dependency as declared: the package's name and its requirement in
/// normal form.
#[derive(Debug, Clone, PartialEq, Eq)]
pub struct Dependency {
    pub name: String,
    pub version_req: String,
}

impl View for Dependency {
    type V = (Seq<char>, Seq<char>);

    open spec fn view(&self) -> (Seq<char>, Seq<char>) {
        (self.name@, self.version_req@)
    }
}

impl DedupKey {
    /// A copy of this key.
    pub fn copy(&self) -> (r: DedupKey)
        ensures
            r == *self,
    {
        DedupKey { name: self.name.clone(), version: self.version.clone() }
    }
}

/// The canonical record of one identity: where its first copy was found, and
/// the dependencies that copy declares, each once.
#[derive(Debug)]
pub struct PackageRecord {
    pub key: DedupKey,
    pub package_info: PackageInfo,
    pub dependencies: Vec<Dependency>,
}

/// A record as values: its identity and where it was found.
pub type Entry = ((Seq<char>, Seq<char>), Location);

/// The records of `records` as values.
pub open spec fn entries_of(records: Seq<PackageRecord>) -> Seq<Entry> {
    records.map_values(|r: PackageRecord| (r.key@, r.package_info@))
}

/// Where the entry of the identity `key` was found: the location of the last
/// entry under `key`, where there is one.
pub open spec fn location_of(entries: Seq<Entry>, key: (Seq<char>, Seq<char>)) -> Option<Location>
    decreases entries.len(),
{
    if entries.len() == 0 {
        None
    } else if entries.last().0 == key {
        Some(entries.last().1)
    } else {
        location_of(entries.drop_last(), key)
    }
}

/// No two entries share an identity.
pub open spec fn distinct_keys(entries: Seq<Entry>) -> bool {
    forall|i: int, j: int|
        0 <= i < entries.len() && 0 <= j < entries.len() && i != j ==> (#[trigger] entries[i]).0
            != (#[trigger] entries[j]).0
}

/// Among entries with distinct identities, the location of an identity is
/// that of its entry.
pub proof fn lemma_location_at(entries: Seq<Entry>, key: (Seq<char>, Seq<char>), i: int)
    requires
        distinct_keys(entries),
        0 <= i < entries.len(),
        entries[i].0 == key,
    ensures
        location_of(entries, key) == Some(entries[i].1),
    decreases entries.len(),
{
    if i != entries.len() - 1 {
        assert(entries.last().0 != key);
        lemma_location_at(entries.drop_last(), key, i);
    }
}

/// An identity without location has no entry.
pub proof fn lemma_location_none(entries: Seq<Entry>, key: (Seq<char>, Seq<char>))
    requires
        location_of(entries, key) is None,
    ensures
        forall|i: int| 0 <= i < entries.len() ==> (#[trigger] entries[i]).0 != key,
    decreases entries.len(),
{
    if entries.len() > 0 {
        lemma_location_none(entries.drop_last(), key);
        assert forall|i: int| 0 <= i < entries.len() implies (#[trigger] entries[i]).0 != key by {
            if i < entries.len() - 1 {
                assert(entries[i] == entries.drop_last()[i]);
            }
        }
    }
}

/// An identity with a location has an entry there.
pub proof fn lemma_location_some(entries: Seq<Entry>, key: (Seq<char>, Seq<char>))
    requires
        location_of(entries, key) is Some,
    ensures
        exists|i: int| 0 <= i < entries.len() && #[trigger] entries[i] == (key, location_of(entries, key)->0),
    decreases entries.len(),
{
    if entries.last().0 == key {
        assert(entries[entries.len() - 1] == (key, location_of(entries, key)->0));
    } else {
        lemma_location_some(entries.drop_last(), key);
        let i = choose|i: int|
            0 <= i < entries.drop_last().len() && #[trigger] entries.drop_last()[i] == (
                key,
                location_of(entries.drop_last(), key)->0,
            );
        assert(entries[i] == entries.drop_last()[i]);
    }
}

/// Adding an entry under a new identity keeps the identities distinct.
pub proof fn lemma_push_distinct(entries: Seq<Entry>, e: Entry)
    requires
        distinct_keys(entries),
        location_of(entries, e.0) is None,
    ensures
        distinct_keys(entries.push(e)),
{
    lemma_location_none(entries, e.0);
    let pushed = entries.push(e);
    assert forall|i: int, j: int|
        0 <= i < pushed.len() && 0 <= j < pushed.len() && i != j implies (#[trigger] pushed[i]).0
        != (#[trigger] pushed[j]).0 by {
        if i < entries.len() && j < entries.len() {
            assert(pushed[i] == entries[i] && pushed[j] == entries[j]);
        } else if i < entries.len() {
            assert(pushed[i] == entries[i]);
        } else {
            assert(pushed[j] == entries[j]);
        }
    }
}

/// The canonical records of one run, one for each identity met, in the order
/// in which the identities were first met.
pub struct Registry {
    records: Vec<PackageRecord>,
}

impl View for Registry {
    type V = Seq<PackageRecord>;

    closed spec fn view(&self) -> Seq<PackageRecord> {
        self.records@
    }
}

impl Registry {
    /// Each identity has at most one record.
    pub open spec fn wf(&self) -> bool {
        distinct_keys(entries_of(self@))
    }

    /// An empty registry.
    pub fn new() -> (r: Registry)
        ensures
            r@ == Seq::<PackageRecord>::empty(),
            r.wf(),
    {
        Registry { records: Vec::new() }
    }

    /// The number of records.
    pub fn len(&self) -> (r: usize)
        ensures
            r == self@.len(),
    {
        self.records.len()
    }

    /// The record at position `i`.
    pub fn record(&self, i: usize) -> (r: &PackageRecord)
        requires
            i < self@.len(),
        ensures
            *r == self@[i as int],
    {
        &self.records[i]
    }

    /// The position of the record of the identity `key`.
    pub fn find(&self, key: &DedupKey) -> (r: Option<usize>)
        requires
            self.wf(),
        ensures
            r is None <==> location_of(entries_of(self@), key@) is None,
            r matches Some(i) ==> i < self@.len() && self@[i as int].key@ == key@ && location_of(
                entries_of(self@),
                key@,
            ) == Some(self@[i as int].package_info@),
    {
        let mut i: usize = 0;
        while i < self.records.len()
            invariant
                i <= self@.len(),
                self@ == self.records@,
                self.wf(),
                forall|j: int| 0 <= j < i ==> (#[trigger] self@[j]).key@ != key@,
            decreases self.records.len() - i,
        {
            if self.records[i].key.name == key.name && self.records[i].key.version == key.version {
                proof {
                    lemma_location_at(entries_of(self@), key@, i as int);
                }
                return Some(i);
            }
            i = i + 1;
        }
        proof {
            assert forall|j: int| 0 <= j < entries_of(self@).len() implies (#[trigger] entries_of(self@)[j]).0 != key@ by {
                assert(self@[j].key@ != key@);
            }
            if location_of(entries_of(self@), key@) is Some {
                lemma_location_some(entries_of(self@), key@);
            }
        }
        None
    }

    /// Adds the record of an identity that has none yet.
    pub fn insert(&mut self, record: PackageRecord)
        requires
            old(self).wf(),
            location_of(entries_of(old(self)@), record.key@) is None,
        ensures
            final(self).wf(),
            final(self)@ == old(self)@.push(record),
    {
        let ghost e = (record.key@, record.package_info@);
        proof {
            lemma_push_distinct(entries_of(old(self)@), e);
        }
        self.records.push(record);
        assert(self@ == old(self)@.push(record));
        assert(entries_of(self@) =~= entries_of(old(self)@).push(e));
    }
}

} // verus!
