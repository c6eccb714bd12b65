//! One deduplication run: the walk over installed packages, and the changes
//! that consolidate each identity into the repository.
//!
//! The run decides; its caller does the outside work. It takes a package to
//! read from `next_package`, hands its metadata to `visit`, looks on disk for
//! the dependencies that `visit` names (at `own_install` and then
//! `hoisted_install`) and hands what it found to `descend`. When no package is
//! left, it hands the state on disk of each record to `synthesize`, and
//! `finish` gives the outcome.
use vstd::prelude::*;
use crate::error::{Failure, PackageError, failures};
use crate::instruction::{Instruction, change_for, destination, destination_of, instruction_for};
use crate::metadata::{dependencies_of, dependency_views, key_of, members_of, read_dependencies, read_key};
use crate::package::{Location, PackageInfo};
use crate::path::{join_path, joined};
use crate::registry::{Entry, PackageRecord, Registry, distinct_keys, entries_of, location_of};

verus! {

/// What receives the failures of a run as they happen, and carries out its changes.
pub trait Visitor {
    type Error;

    /// Called whenever the package identified by `package` could not be processed. The exact
    /// problem is stated in `err`.
    fn error(&mut self, package: &PackageInfo, err: &PackageError);

    /// Called with an instruction on what to do next. Must never panic, and is expected to keep
    /// all error handling internal.
    fn change(&mut self, action: Instruction) -> Result<(), Self::Error>;
}

/// What a run has learned, as values: an entry for each identity met, and the
/// failures so far.
pub struct Ledger {
    pub entries: Seq<Entry>,
    pub failures: Seq<Failure>,
}

/// The ledger after the package at `p` was read from `metadata`: a package
/// that cannot be read adds its failure; a new identity adds its entry and
/// the failures met among its dependencies; the same directory met again adds
/// a duplicate failure; another copy of a known identity adds nothing.
pub open spec fn after_visit(ledger: Ledger, p: Location, metadata: Result<Vec<u8>, String>) -> Ledger {
    match key_of(p.directory, metadata) {
        Err(f) => Ledger { entries: ledger.entries, failures: ledger.failures.push(f) },
        Ok(key) => match location_of(ledger.entries, key) {
            Some(found) => if found.directory == p.directory {
                Ledger {
                    entries: ledger.entries,
                    failures: ledger.failures.push(Failure::DuplicatePackageInformation { package: p }),
                }
            } else {
                ledger
            },
            None => Ledger {
                entries: ledger.entries.push((key, p)),
                failures: ledger.failures + dependencies_of(
                    p.directory,
                    members_of(p.directory, metadata)->Ok_0,
                ).1,
            },
        },
    }
}

/// The ledger after each of `visits` (a location and its metadata) in turn.
pub open spec fn after_visits(ledger: Ledger, visits: Seq<(Location, Result<Vec<u8>, String>)>) -> Ledger
    decreases visits.len(),
{
    if visits.len() == 0 {
        ledger
    } else {
        after_visit(after_visits(ledger, visits.drop_last()), visits.last().0, visits.last().1)
    }
}

/// An identity whose key is found stays found, whatever is entered after it.
proof fn lemma_location_kept(entries: Seq<Entry>, e: Entry, key: (Seq<char>, Seq<char>))
    requires
        location_of(entries, key) is Some,
    ensures
        location_of(entries.push(e), key) is Some,
{
    assert(entries.push(e).drop_last() =~= entries);
}

/// One visit keeps the identities distinct, keeps every entry, and enters the
/// identity of a package that could be read.
pub proof fn lemma_visit_enters_identity(ledger: Ledger, p: Location, metadata: Result<Vec<u8>, String>)
    requires
        distinct_keys(ledger.entries),
    ensures
        ({
            let after = after_visit(ledger, p, metadata);
            &&& distinct_keys(after.entries)
            &&& ledger.entries.len() <= after.entries.len()
            &&& after.entries.subrange(0, ledger.entries.len() as int) == ledger.entries
            &&& key_of(p.directory, metadata) is Ok ==> location_of(
                after.entries,
                key_of(p.directory, metadata)->Ok_0,
            ) is Some
            &&& after.entries.len() > ledger.entries.len() ==> (after.entries.len() == ledger.entries.len() + 1
                && key_of(p.directory, metadata) is Ok && after.entries.last() == (
                key_of(p.directory, metadata)->Ok_0,
                p,
            ))
        }),
{
    let after = after_visit(ledger, p, metadata);
    if let Ok(key) = key_of(p.directory, metadata) {
        if location_of(ledger.entries, key) is None {
            crate::registry::lemma_push_distinct(ledger.entries, (key, p));
            assert(after.entries.drop_last() =~= ledger.entries);
        }
    }
    assert(after.entries.subrange(0, ledger.entries.len() as int) =~= ledger.entries);
}

/// Whatever the packages visited, the run ends with exactly one entry for each
/// identity that some package that could be read has, and with no other:
/// the identities stay distinct, each such identity is entered, and each
/// entry is the identity of such a package.
pub proof fn lemma_one_entry_per_identity(visits: Seq<(Location, Result<Vec<u8>, String>)>)
    ensures
        ({
            let end = after_visits(Ledger { entries: Seq::empty(), failures: Seq::empty() }, visits);
            &&& distinct_keys(end.entries)
            &&& forall|k: int|
                0 <= k < visits.len() && (#[trigger] key_of(visits[k].0.directory, visits[k].1)) is Ok
                    ==> location_of(end.entries, key_of(visits[k].0.directory, visits[k].1)->Ok_0) is Some
            &&& forall|i: int|
                0 <= i < end.entries.len() ==> exists|k: int|
                    0 <= k < visits.len() && #[trigger] key_of(visits[k].0.directory, visits[k].1) == Ok::<
                        (Seq<char>, Seq<char>),
                        Failure,
                    >((#[trigger] end.entries[i]).0)
        }),
    decreases visits.len(),
{
    let start = Ledger { entries: Seq::empty(), failures: Seq::empty() };
    if visits.len() > 0 {
        let rest = visits.drop_last();
        lemma_one_entry_per_identity(rest);
        let mid = after_visits(start, rest);
        let end = after_visits(start, visits);
        let (p, metadata) = visits.last();
        lemma_visit_enters_identity(mid, p, metadata);
        assert forall|k: int|
            0 <= k < visits.len() && (#[trigger] key_of(visits[k].0.directory, visits[k].1)) is Ok implies location_of(
                end.entries,
                key_of(visits[k].0.directory, visits[k].1)->Ok_0,
            ) is Some by {
            if k < visits.len() - 1 {
                assert(visits[k] == rest[k]);
                let key = key_of(visits[k].0.directory, visits[k].1)->Ok_0;
                if end.entries != mid.entries {
                    assert(end.entries =~= mid.entries.push(end.entries.last()));
                    lemma_location_kept(mid.entries, end.entries.last(), key);
                }
            }
        }
        assert forall|i: int| 0 <= i < end.entries.len() implies exists|k: int|
            0 <= k < visits.len() && #[trigger] key_of(visits[k].0.directory, visits[k].1) == Ok::<
                (Seq<char>, Seq<char>),
                Failure,
            >((#[trigger] end.entries[i]).0) by {
            if i < mid.entries.len() {
                assert(end.entries[i] == mid.entries[i]);
                let k = choose|k: int|
                    0 <= k < rest.len() && #[trigger] key_of(rest[k].0.directory, rest[k].1) == Ok::<
                        (Seq<char>, Seq<char>),
                        Failure,
                    >(mid.entries[i].0);
                assert(visits[k] == rest[k]);
            } else {
                let k = visits.len() - 1;
                assert(key_of(visits[k].0.directory, visits[k].1) == Ok::<(Seq<char>, Seq<char>), Failure>(
                    end.entries[i].0,
                ));
            }
        }
    }
}

/// The same directory visited twice with the same metadata, its identity new:
/// the first visit enters it and adds no duplicate failure, the second adds
/// exactly one duplicate failure and nothing else, and one entry of that
/// identity stands, at that directory.
pub proof fn lemma_same_directory_twice(ledger: Ledger, p: Location, metadata: Result<Vec<u8>, String>)
    requires
        distinct_keys(ledger.entries),
        key_of(p.directory, metadata) is Ok,
        location_of(ledger.entries, key_of(p.directory, metadata)->Ok_0) is None,
    ensures
        ({
            let once = after_visit(ledger, p, metadata);
            let twice = after_visit(once, p, metadata);
            &&& once.failures.subrange(0, ledger.failures.len() as int) == ledger.failures
            &&& forall|j: int|
                ledger.failures.len() <= j < once.failures.len() ==> !(#[trigger] once.failures[j] is DuplicatePackageInformation)
            &&& twice.entries == once.entries
            &&& twice.failures == once.failures.push(Failure::DuplicatePackageInformation { package: p })
            &&& distinct_keys(twice.entries)
            &&& location_of(twice.entries, key_of(p.directory, metadata)->Ok_0) == Some(p)
        }),
{
    let key = key_of(p.directory, metadata)->Ok_0;
    let once = after_visit(ledger, p, metadata);
    lemma_visit_enters_identity(ledger, p, metadata);
    crate::metadata::lemma_dependencies_add_no_duplicate(
        p.directory,
        members_of(p.directory, metadata)->Ok_0,
    );
    assert(once.entries.drop_last() =~= ledger.entries);
    assert(location_of(once.entries, key) == Some(p));
    let extra = scan_of(p, metadata).1;
    assert(once.failures.subrange(0, ledger.failures.len() as int) =~= ledger.failures);
    assert forall|j: int|
        ledger.failures.len() <= j < once.failures.len() implies !(#[trigger] once.failures[j] is DuplicatePackageInformation) by {
        assert(once.failures[j] == extra[j - ledger.failures.len()]);
    }
}

/// Another directory with an identity already entered elsewhere changes
/// nothing: no failure, no entry.
pub proof fn lemma_second_copy_merged(
    ledger: Ledger,
    p: Location,
    p_metadata: Result<Vec<u8>, String>,
    q: Location,
    q_metadata: Result<Vec<u8>, String>,
)
    requires
        distinct_keys(ledger.entries),
        key_of(p.directory, p_metadata) is Ok,
        key_of(q.directory, q_metadata) == key_of(p.directory, p_metadata),
        p.directory != q.directory,
        location_of(ledger.entries, key_of(p.directory, p_metadata)->Ok_0) matches Some(found) ==> found.directory
            != q.directory,
    ensures
        ({
            let once = after_visit(ledger, p, p_metadata);
            after_visit(once, q, q_metadata) == once
        }),
{
    let once = after_visit(ledger, p, p_metadata);
    if location_of(ledger.entries, key_of(p.directory, p_metadata)->Ok_0) is None {
        assert(once.entries.drop_last() =~= ledger.entries);
    }
}

/// A package whose metadata could not be read adds exactly that failure, for
/// its metadata path, and no entry.
pub proof fn lemma_unreadable_metadata(ledger: Ledger, p: Location, reason: String)
    ensures
        after_visit(ledger, p, Err(reason)) == (Ledger {
            entries: ledger.entries,
            failures: ledger.failures.push(
                Failure::ReadPackageFile { path: crate::metadata::metadata_path(p.directory), reason: reason@ },
            ),
        }),
{
}

/// Where a dependency named `name` of the package at `p` is installed in the
/// package's own directory.
pub open spec fn own_install_of(p: Location, name: Seq<char>) -> Seq<char> {
    joined(joined(p.directory, "node_modules"@), name)
}

/// Where a dependency named `name` of the package at `p` is installed beside it.
pub open spec fn hoisted_install_of(p: Location, name: Seq<char>) -> Seq<char> {
    joined(p.root_directory, name)
}

/// Where the dependency is taken from: its own install where there is one,
/// else its hoisted install, else nowhere. Either way the root stays.
pub open spec fn located_at(p: Location, name: Seq<char>, own_exists: bool, hoisted_exists: bool) -> Option<
    Location,
> {
    if own_exists {
        Some(Location { directory: own_install_of(p, name), root_directory: p.root_directory })
    } else if hoisted_exists {
        Some(Location { directory: hoisted_install_of(p, name), root_directory: p.root_directory })
    } else {
        None
    }
}

/// The own install of the dependency `name` of `p`, as `own_install_of` describes.
pub fn own_install(p: &PackageInfo, name: &str) -> (r: String)
    ensures
        r@ == own_install_of(p@, name@),
{
    let modules = join_path(p.directory.as_str(), "node_modules");
    join_path(modules.as_str(), name)
}

/// The hoisted install of the dependency `name` of `p`, as `hoisted_install_of` describes.
pub fn hoisted_install(p: &PackageInfo, name: &str) -> (r: String)
    ensures
        r@ == hoisted_install_of(p@, name@),
{
    join_path(p.root_directory.as_str(), name)
}

/// Where the dependency `name` of `p` is taken from, given which of its two
/// installs exist, as `located_at` describes.
pub fn locate(p: &PackageInfo, name: &str, own_exists: bool, hoisted_exists: bool) -> (r: Option<
    PackageInfo,
>)
    ensures
        r is None <==> located_at(p@, name@, own_exists, hoisted_exists) is None,
        r matches Some(q) ==> located_at(p@, name@, own_exists, hoisted_exists) == Some(q@),
{
    if own_exists {
        Some(PackageInfo { directory: own_install(p, name), root_directory: p.root_directory.clone() })
    } else if hoisted_exists {
        Some(PackageInfo { directory: hoisted_install(p, name), root_directory: p.root_directory.clone() })
    } else {
        None
    }
}

/// The packages of `located` that were found, last first: pushed in this
/// order on a stack, the first is taken first.
pub open spec fn found_reversed(located: Seq<Option<PackageInfo>>) -> Seq<PackageInfo>
    decreases located.len(),
{
    if located.len() == 0 {
        Seq::empty()
    } else {
        match located[0] {
            Some(p) => found_reversed(located.drop_first()).push(p),
            None => found_reversed(located.drop_first()),
        }
    }
}

/// The dependencies that the package at `p` declares in `metadata`, with the
/// failures met among them.
pub open spec fn scan_of(p: Location, metadata: Result<Vec<u8>, String>) -> (
    Seq<(Seq<char>, Seq<char>)>,
    Seq<Failure>,
) {
    dependencies_of(p.directory, members_of(p.directory, metadata)->Ok_0)
}

/// The names of dependencies.
pub open spec fn dependency_names(deps: Seq<(Seq<char>, Seq<char>)>) -> Seq<Seq<char>> {
    deps.map_values(|d: (Seq<char>, Seq<char>)| d.0)
}

/// The change that the record at position `i` of `run` calls for, given what is on disk.
pub open spec fn record_change(
    run: Run,
    i: int,
    repo: Seq<char>,
    source_is_symlink: bool,
    destination_exists: bool,
) -> Option<crate::instruction::Change> {
    let record = run.records[i];
    change_for(
        record.package_info.directory@,
        destination_of(repo, record.key@),
        source_is_symlink,
        destination_exists,
    )
}

/// The state of a run, as values.
pub struct Run {
    /// the canonical records, in the order their identities were met
    pub records: Seq<PackageRecord>,
    /// the packages still to read; the last is read next
    pub pending: Seq<PackageInfo>,
    /// the errors so far, in the order they were met
    pub errors: Seq<PackageError>,
}

/// The ledger of a run.
pub open spec fn ledger_of(run: Run) -> Ledger {
    Ledger { entries: entries_of(run.records), failures: failures(run.errors) }
}

/// One deduplication run.
pub struct Deduplication {
    registry: Registry,
    pending: Vec<PackageInfo>,
    errors: Vec<PackageError>,
}

impl View for Deduplication {
    type V = Run;

    closed spec fn view(&self) -> Run {
        Run { records: self.registry@, pending: self.pending@, errors: self.errors@ }
    }
}

impl Deduplication {
    /// No two records share an identity.
    pub open spec fn wf(&self) -> bool {
        distinct_keys(entries_of(self@.records))
    }

    closed spec fn inner_wf(&self) -> bool {
        self.registry.wf()
    }

    /// A run that starts from `items`, the first of them to be read first.
    pub fn new(items: &Vec<PackageInfo>) -> (r: Deduplication)
        ensures
            r.wf(),
            r@.records.len() == 0,
            r@.errors.len() == 0,
            r@.pending == items@.reverse(),
    {
        let mut pending: Vec<PackageInfo> = Vec::new();
        let mut i: usize = items.len();
        while i > 0
            invariant
                i <= items@.len(),
                pending@ == items@.subrange(i as int, items@.len() as int).reverse(),
            decreases i,
        {
            i = i - 1;
            pending.push(items[i].copy());
            assert(pending@ =~= items@.subrange(i as int, items@.len() as int).reverse());
        }
        assert(items@.subrange(0, items@.len() as int) =~= items@);
        let r = Deduplication { registry: Registry::new(), pending, errors: Vec::new() };
        assert(entries_of(r@.records) =~= Seq::empty());
        r
    }

    /// The next package to read, taken off the pending ones.
    pub fn next_package(&mut self) -> (r: Option<PackageInfo>)
        ensures
            old(self)@.pending.len() == 0 ==> r is None && final(self)@.pending == old(self)@.pending,
            old(self)@.pending.len() > 0 ==> r == Some(old(self)@.pending.last())
                && final(self)@.pending == old(self)@.pending.drop_last(),
            final(self)@.records == old(self)@.records,
            final(self)@.errors == old(self)@.errors,
            final(self).wf() == old(self).wf(),
    {
        let r = self.pending.pop();
        proof {
            if old(self)@.pending.len() > 0 {
                assert(self@.pending =~= old(self)@.pending.drop_last());
            }
        }
        r
    }

    /// The number of records.
    pub fn record_count(&self) -> (r: usize)
        ensures
            r == self@.records.len(),
    {
        self.registry.len()
    }

    /// The record at position `i`.
    pub fn record(&self, i: usize) -> (r: &PackageRecord)
        requires
            i < self@.records.len(),
        ensures
            *r == self@.records[i as int],
    {
        self.registry.record(i)
    }

    /// The errors so far.
    pub fn errors(&self) -> (r: &Vec<PackageError>)
        ensures
            r@ == self@.errors,
    {
        &self.errors
    }

    /// Adds `err` to the errors, and tells `visitor` of it.
    fn report<V: Visitor>(&mut self, p: &PackageInfo, err: PackageError, visitor: &mut V)
        ensures
            final(self)@.errors == old(self)@.errors.push(err),
            final(self)@.records == old(self)@.records,
            final(self)@.pending == old(self)@.pending,
            final(self).inner_wf() == old(self).inner_wf(),
    {
        visitor.error(p, &err);
        self.errors.push(err);
    }

    /// Reads the package at `p` from `metadata` (its document's bytes, or why
    /// they could not be read), as `after_visit` describes, and tells
    /// `visitor` of each failure. Gives the names of the dependencies to look
    /// for: those of a newly recorded package, none otherwise.
    pub fn visit<V: Visitor>(
        &mut self,
        p: &PackageInfo,
        metadata: Result<Vec<u8>, String>,
        visitor: &mut V,
    ) -> (r: Vec<String>)
        requires
            old(self).wf(),
        ensures
            final(self).wf(),
            ledger_of(final(self)@) == after_visit(ledger_of(old(self)@), p@, metadata),
            final(self)@.pending == old(self)@.pending,
            final(self)@.errors.subrange(0, old(self)@.errors.len() as int) == old(self)@.errors,
            final(self)@.records.subrange(0, old(self)@.records.len() as int) == old(self)@.records,
            final(self)@.records.len() == old(self)@.records.len() ==> r@.len() == 0,
            final(self)@.records.len() > old(self)@.records.len() ==> (final(self)@.records.last().package_info
                == *p && dependency_views(final(self)@.records.last().dependencies@) == scan_of(p@, metadata).0
                && r@.map_values(|n: String| n@) == dependency_names(scan_of(p@, metadata).0)),
    {
        proof {
            self.lemma_wf();
        }
        let ghost old_run = self@;
        let (key, members) = match read_key(&p.directory, &metadata) {
            Err(e) => {
                self.report(p, e, visitor);
                proof {
                    assert(failures(self@.errors) =~= failures(old_run.errors).push(
                        key_of(p.directory@, metadata)->Err_0,
                    ));
                    assert(self@.errors.subrange(0, old_run.errors.len() as int) =~= old_run.errors);
                    assert(self@.records.subrange(0, old_run.records.len() as int) =~= old_run.records);
                }
                return Vec::new();
            },
            Ok(found) => found,
        };
        match self.registry.find(&key) {
            Some(i) => {
                if self.registry.record(i).package_info.directory == p.directory {
                    self.report(p, PackageError::DuplicatePackageInformation(p.copy()), visitor);
                    proof {
                        assert(failures(self@.errors) =~= failures(old_run.errors).push(
                            Failure::DuplicatePackageInformation { package: p@ },
                        ));
                        assert(self@.errors.subrange(0, old_run.errors.len() as int) =~= old_run.errors);
                    }
                }
                proof {
                    assert(self@.errors.subrange(0, old_run.errors.len() as int) =~= old_run.errors);
                    assert(self@.records.subrange(0, old_run.records.len() as int) =~= old_run.records);
                }
                Vec::new()
            },
            None => {
                let (deps, mut found_errors) = read_dependencies(&p.directory, &members);
                let mut names: Vec<String> = Vec::new();
                let mut j: usize = 0;
                while j < deps.len()
                    invariant
                        j <= deps@.len(),
                        names@.len() == j,
                        forall|x: int| 0 <= x < j ==> (#[trigger] names@[x])@ == deps@[x].name@,
                    decreases deps.len() - j,
                {
                    names.push(deps[j].name.clone());
                    j = j + 1;
                }
                assert(names@.map_values(|n: String| n@) =~= dependency_names(dependency_views(deps@)));
                let ghost record_key = key@;
                self.registry.insert(
                    PackageRecord { key, package_info: p.copy(), dependencies: deps },
                );
                let ghost mid = self@;
                let ghost found = found_errors@;
                let mut k: usize = 0;
                while k < found_errors.len()
                    invariant
                        k <= found.len(),
                        found_errors@ == found,
                        self.inner_wf(),
                        self@.errors == mid.errors,
                        self@.records == mid.records,
                        self@.pending == mid.pending,
                    decreases found_errors@.len() - k,
                {
                    visitor.error(p, &found_errors[k]);
                    k = k + 1;
                }
                self.errors.append(&mut found_errors);
                proof {
                    assert(self@.errors == old_run.errors + found);
                    assert(failures(self@.errors) =~= failures(old_run.errors) + failures(found));
                    assert(entries_of(self@.records) =~= entries_of(old_run.records).push(
                        (record_key, p@),
                    ));
                    assert(self@.errors.subrange(0, old_run.errors.len() as int) =~= old_run.errors);
                    assert(self@.records.subrange(0, old_run.records.len() as int) =~= old_run.records);
                    self.lemma_wf();
                }
                names
            },
        }
    }

    /// Puts the packages of `located` that were found on the pending ones, so
    /// that the first of them is read next.
    pub fn descend(&mut self, located: Vec<Option<PackageInfo>>)
        ensures
            final(self)@.pending == old(self)@.pending + found_reversed(located@),
            final(self)@.records == old(self)@.records,
            final(self)@.errors == old(self)@.errors,
            final(self).wf() == old(self).wf(),
    {
        let ghost all = located@;
        let ghost start = self@.pending;
        let mut located = located;
        assert(all.subrange(all.len() as int, all.len() as int) =~= Seq::<Option<PackageInfo>>::empty());
        assert(start + Seq::<PackageInfo>::empty() =~= start);
        while located.len() > 0
            invariant
                located@.len() <= all.len(),
                located@ == all.subrange(0, located@.len() as int),
                self@.pending == start + found_reversed(all.subrange(located@.len() as int, all.len() as int)),
                self@.records == old(self)@.records,
                self@.errors == old(self)@.errors,
            decreases located@.len(),
        {
            let n = located.len();
            let ghost rest = all.subrange(n as int, all.len() as int);
            let ghost more = all.subrange(n - 1, all.len() as int);
            assert(more.drop_first() =~= rest);
            assert(more[0] == all[n - 1]);
            let last = located.pop();
            assert(located@ =~= all.subrange(0, n - 1));
            match last {
                Some(Some(p)) => {
                    self.pending.push(p);
                    assert(self@.pending =~= start + found_reversed(more));
                },
                _ => {},
            }
        }
        assert(all.subrange(0, all.len() as int) =~= all);
    }

    /// Decides the change for the record at position `i`, given whether its
    /// directory is a symbolic link and whether its repository directory under
    /// `repo` exists, as `change_for` describes, and hands it to `visitor`.
    /// Gives `None` where there is no change, else whether the visitor carried
    /// it out; where it did not, the failure is added and told to `visitor`.
    pub fn synthesize<V: Visitor>(
        &mut self,
        i: usize,
        repo: &str,
        source_is_symlink: bool,
        destination_exists: bool,
        visitor: &mut V,
    ) -> (r: Option<bool>)
        requires
            i < old(self)@.records.len(),
        ensures
            r is None <==> record_change(old(self)@, i as int, repo@, source_is_symlink, destination_exists)
                is None,
            final(self)@.records == old(self)@.records,
            final(self)@.pending == old(self)@.pending,
            final(self).wf() == old(self).wf(),
            r != Some(false) ==> final(self)@.errors == old(self)@.errors,
            r == Some(false) ==> final(self)@.errors.subrange(0, old(self)@.errors.len() as int)
                == old(self)@.errors && failures(final(self)@.errors) == failures(old(self)@.errors).push(
                Failure::VisitorFailure { directory: old(self)@.records[i as int].package_info.directory@ },
            ),
    {
        proof {
            self.lemma_wf();
        }
        let ghost old_errors = self@.errors;
        let record = self.registry.record(i);
        let dest = destination(repo, &record.key);
        let accepted = match instruction_for(
            record.package_info.directory.as_str(),
            dest.as_str(),
            source_is_symlink,
            destination_exists,
        ) {
            None => {
                return None;
            },
            Some(instruction) => match visitor.change(instruction) {
                Ok(()) => true,
                Err(_) => false,
            },
        };
        if !accepted {
            let p = record.package_info.copy();
            self.report(&p, PackageError::VisitorFailure(p.directory.clone()), visitor);
            proof {
                assert(self@.errors.subrange(0, old_errors.len() as int) =~= old_errors);
                assert(failures(self@.errors) =~= failures(old_errors).push(
                    Failure::VisitorFailure { directory: p.directory@ },
                ));
                self.lemma_wf();
            }
        }
        Some(accepted)
    }

    /// The outcome of the run: success where no error was met, else every
    /// error in the order met.
    pub fn finish(self) -> (r: Result<(), Vec<PackageError>>)
        ensures
            r is Ok <==> self@.errors.len() == 0,
            r matches Err(errors) ==> errors@ == self@.errors,
    {
        if self.errors.len() == 0 {
            Ok(())
        } else {
            Err(self.errors)
        }
    }

    proof fn lemma_wf(&self)
        ensures
            self.wf() <==> self.inner_wf(),
    {
    }
}

} // verus!
