//! Reading a package's metadata document: its identity, and the
//! dependencies it declares.
use vstd::prelude::*;
use vstd::string::*;
use crate::error::{Expectation, Failure, PackageError};
use crate::path::{join_path, joined};
use crate::registry::{DedupKey, Dependency};
use serde_json::Value;

verus! {

/// A member of the metadata document, as far as it is read: a string, an
/// object whose entries keep their string values (`None` for any other
/// value), or anything else.
#[derive(Debug, Clone, PartialEq, Eq)]
pub enum JsonMember {
    Text(String),
    Object(Vec<(String, Option<String>)>),
    Other,
}

/// A decoded metadata document: its members in document order where the top
/// level is an object.
#[derive(Debug, Clone, PartialEq, Eq)]
pub enum MetadataDocument {
    Object(Vec<(String, JsonMember)>),
    Other,
}

/// What serde_json decodes from the given bytes, as a `MetadataDocument`;
/// `None` where they are not well-formed JSON.
pub uninterp spec fn decoded_metadata(bytes: Seq<u8>) -> Option<MetadataDocument>;

/// The normal form of a strict semver version, as semver parses and displays it.
pub uninterp spec fn canonical_version(text: Seq<char>) -> Option<Seq<char>>;

/// The normal form of a semver requirement, as semver parses and displays it.
pub uninterp spec fn canonical_requirement(text: Seq<char>) -> Option<Seq<char>>;

/// Relies on serde_json::from_slice to decode a JSON document. Of the value it
/// keeps whether the top level is an object, its members in order, and of
/// each member that is an object its entries with their string values.
#[verifier::external_body]
fn decode_metadata(bytes: &[u8]) -> (r: Result<MetadataDocument, serde_json::Error>)
    ensures
        r is Ok <==> decoded_metadata(bytes@) is Some,
        r is Ok ==> decoded_metadata(bytes@) == Some(r->Ok_0),
{
    match serde_json::from_slice::<Value>(bytes) {
        Ok(Value::Object(m)) => Ok(MetadataDocument::Object(m.into_iter().map(|(k, v)| (k, match v {
            Value::String(s) => JsonMember::Text(s),
            Value::Object(o) => JsonMember::Object(o.into_iter().map(|(n, x)| (n, match x {
                Value::String(s) => Some(s),
                _ => None,
            })).collect()),
            _ => JsonMember::Other,
        })).collect())),
        Ok(_) => Ok(MetadataDocument::Other),
        Err(e) => Err(e),
    }
}

/// Relies on semver::Version::parse, which accepts strict semver only, and on
/// the parsed version's display.
#[verifier::external_body]
fn parse_version(text: &str) -> (r: Result<String, semver::Error>)
    ensures
        r is Ok <==> canonical_version(text@) is Some,
        r is Ok ==> canonical_version(text@) == Some(r->Ok_0@),
{
    semver::Version::parse(text).map(|v| v.to_string())
}

/// Relies on semver::VersionReq::parse, and on the parsed requirement's display.
#[verifier::external_body]
fn parse_requirement(text: &str) -> (r: Result<String, semver::Error>)
    ensures
        r is Ok <==> canonical_requirement(text@) is Some,
        r is Ok ==> canonical_requirement(text@) == Some(r->Ok_0@),
{
    semver::VersionReq::parse(text).map(|v| v.to_string())
}

/// The first member of `members` under `key`.
pub open spec fn member_of(members: Seq<(String, JsonMember)>, key: Seq<char>) -> Option<JsonMember>
    decreases members.len(),
{
    if members.len() == 0 {
        None
    } else if members[0].0@ == key {
        Some(members[0].1)
    } else {
        member_of(members.drop_first(), key)
    }
}

/// The text of a member that is a string.
pub open spec fn text_of(m: Option<JsonMember>) -> Option<Seq<char>> {
    match m {
        Some(JsonMember::Text(s)) => Some(s@),
        _ => None,
    }
}

/// Where the metadata document of the package in `directory` is read from.
pub open spec fn metadata_path(directory: Seq<char>) -> Seq<char> {
    joined(directory, "package.json"@)
}

/// The members of a metadata document, or the failure that stops reading it
/// before its fields are looked at.
pub open spec fn members_of(directory: Seq<char>, metadata: Result<Vec<u8>, String>) -> Result<
    Seq<(String, JsonMember)>,
    Failure,
> {
    match metadata {
        Err(reason) => Err(Failure::ReadPackageFile { path: metadata_path(directory), reason: reason@ }),
        Ok(bytes) => match decoded_metadata(bytes@) {
            None => Err(Failure::DecodeJson { path: metadata_path(directory) }),
            Some(MetadataDocument::Other) => Err(
                Failure::JsonStructure { directory, expectation: Expectation::TopLevelObject },
            ),
            Some(MetadataDocument::Object(members)) => Ok(members@),
        },
    }
}

/// The identity of the package in `directory`: its name and the normal form
/// of its version; or the failure that keeps it from having one.
pub open spec fn key_of(directory: Seq<char>, metadata: Result<Vec<u8>, String>) -> Result<
    (Seq<char>, Seq<char>),
    Failure,
> {
    match members_of(directory, metadata) {
        Err(f) => Err(f),
        Ok(members) => match text_of(member_of(members, "version"@)) {
            None => Err(Failure::JsonStructure { directory, expectation: Expectation::VersionString }),
            Some(version) => match text_of(member_of(members, "name"@)) {
                None => Err(Failure::JsonStructure { directory, expectation: Expectation::NameString }),
                Some(name) => match canonical_version(version) {
                    None => Err(Failure::InvalidVersion { directory, version }),
                    Some(v) => Ok((name, v)),
                },
            },
        },
    }
}

/// Finds the first member under `key`.
fn find_member<'a>(members: &'a Vec<(String, JsonMember)>, key: &String) -> (r: Option<&'a JsonMember>)
    ensures
        r is None ==> member_of(members@, key@) is None,
        r matches Some(m) ==> member_of(members@, key@) == Some(*m),
{
    let mut i: usize = 0;
    assert(members@.subrange(0, members@.len() as int) =~= members@);
    while i < members.len()
        invariant
            i <= members@.len(),
            member_of(members@, key@) == member_of(members@.subrange(i as int, members@.len() as int), key@),
        decreases members.len() - i,
    {
        assert(members@.subrange(i as int, members@.len() as int).drop_first()
            =~= members@.subrange(i + 1, members@.len() as int));
        if members[i].0 == *key {
            return Some(&members[i].1);
        }
        i = i + 1;
    }
    assert(members@.subrange(i as int, members@.len() as int).len() == 0);
    None
}

/// Finds the string held by the first member under `key`.
fn find_text(members: &Vec<(String, JsonMember)>, key: &str) -> (r: Option<String>)
    ensures
        r matches Some(s) ==> text_of(member_of(members@, key@)) == Some(s@),
        r is None ==> text_of(member_of(members@, key@)) is None,
{
    let k = String::from_str(key);
    let found = find_member(members, &k);
    assert(k@ == key@);
    match found {
        Some(m) => match m {
            JsonMember::Text(s) => Some(s.clone()),
            _ => None,
        },
        None => None,
    }
}

/// Reads the identity of the package in `directory` from its metadata (the
/// document's bytes, or why they could not be read), and hands back the
/// document's members with it.
pub fn read_key(directory: &String, metadata: &Result<Vec<u8>, String>) -> (r: Result<
    (DedupKey, Vec<(String, JsonMember)>),
    PackageError,
>)
    ensures
        match r {
            Ok((key, members)) => {
                &&& key_of(directory@, *metadata) is Ok
                &&& key_of(directory@, *metadata)->Ok_0 == key@
                &&& members_of(directory@, *metadata) is Ok
                &&& members_of(directory@, *metadata)->Ok_0 == members@
            },
            Err(e) => key_of(directory@, *metadata) is Err && key_of(directory@, *metadata)->Err_0 == e@,
        },
{
    let members = match metadata {
        Err(reason) => {
            return Err(
                PackageError::ReadPackageFile(join_path(directory.as_str(), "package.json"), reason.clone()),
            );
        },
        Ok(bytes) => match decode_metadata(bytes.as_slice()) {
            Err(e) => {
                return Err(PackageError::DecodeJson(join_path(directory.as_str(), "package.json"), e));
            },
            Ok(MetadataDocument::Other) => {
                return Err(PackageError::JsonStructure(directory.clone(), Expectation::TopLevelObject));
            },
            Ok(MetadataDocument::Object(members)) => members,
        },
    };
    let version = match find_text(&members, "version") {
        None => {
            return Err(PackageError::JsonStructure(directory.clone(), Expectation::VersionString));
        },
        Some(v) => v,
    };
    let name = match find_text(&members, "name") {
        None => {
            return Err(PackageError::JsonStructure(directory.clone(), Expectation::NameString));
        },
        Some(n) => n,
    };
    match parse_version(version.as_str()) {
        Err(e) => Err(PackageError::InvalidVersion(directory.clone(), version, e)),
        Ok(v) => Ok((DedupKey { name, version: v }, members)),
    }
}

} // verus!

verus! {

/// Dependencies as values.
pub open spec fn dependency_views(deps: Seq<Dependency>) -> Seq<(Seq<char>, Seq<char>)> {
    deps.map_values(|d: Dependency| d@)
}

/// Dependencies read so far, and the failures met on the way.
pub type DependencyScan = (Seq<(Seq<char>, Seq<char>)>, Seq<Failure>);

/// `d` added to `deps` unless it is there already: the dependencies form a set.
pub open spec fn with_dependency(deps: Seq<(Seq<char>, Seq<char>)>, d: (Seq<char>, Seq<char>)) -> Seq<
    (Seq<char>, Seq<char>),
> {
    if deps.contains(d) {
        deps
    } else {
        deps.push(d)
    }
}

/// One entry of a dependency map read into `acc`: a string requirement that
/// parses adds a dependency, anything else adds a failure.
pub open spec fn scan_entry(directory: Seq<char>, acc: DependencyScan, entry: (String, Option<String>)) -> DependencyScan {
    match entry.1 {
        None => (
            acc.0,
            acc.1.push(Failure::JsonStructure { directory, expectation: Expectation::RequirementString }),
        ),
        Some(req) => match canonical_requirement(req@) {
            None => (acc.0, acc.1.push(Failure::InvalidVersionRequirement { directory, requirement: req@ })),
            Some(normal) => (with_dependency(acc.0, (entry.0@, normal)), acc.1),
        },
    }
}

/// The entries of a dependency map read into `acc`, in order.
pub open spec fn scan_entries(directory: Seq<char>, acc: DependencyScan, entries: Seq<(String, Option<String>)>) -> DependencyScan
    decreases entries.len(),
{
    if entries.len() == 0 {
        acc
    } else {
        scan_entry(directory, scan_entries(directory, acc, entries.drop_last()), entries.last())
    }
}

/// The dependency map under `key` read into `acc`: nothing where it is
/// absent, a failure where it is not an object.
pub open spec fn scan_section(
    directory: Seq<char>,
    acc: DependencyScan,
    members: Seq<(String, JsonMember)>,
    key: Seq<char>,
    expectation: Expectation,
) -> DependencyScan {
    match member_of(members, key) {
        None => acc,
        Some(JsonMember::Object(entries)) => scan_entries(directory, acc, entries@),
        Some(_) => (acc.0, acc.1.push(Failure::JsonStructure { directory, expectation })),
    }
}

/// The dependencies that a metadata document declares, from `dependencies`
/// and then `devDependencies`, with the failures met on the way.
pub open spec fn dependencies_of(directory: Seq<char>, members: Seq<(String, JsonMember)>) -> DependencyScan {
    let first = scan_section(
        directory,
        (Seq::empty(), Seq::empty()),
        members,
        "dependencies"@,
        Expectation::DependenciesObject,
    );
    scan_section(directory, first, members, "devDependencies"@, Expectation::DevDependenciesObject)
}

/// Reading the entries of `first` and then those of `second` is reading the
/// entries of both.
pub proof fn lemma_scan_entries_split(
    directory: Seq<char>,
    acc: DependencyScan,
    first: Seq<(String, Option<String>)>,
    second: Seq<(String, Option<String>)>,
)
    ensures
        scan_entries(directory, acc, first + second) == scan_entries(
            directory,
            scan_entries(directory, acc, first),
            second,
        ),
    decreases second.len(),
{
    if second.len() == 0 {
        assert(first + second =~= first);
    } else {
        assert((first + second).drop_last() =~= first + second.drop_last());
        assert((first + second).last() == second.last());
        lemma_scan_entries_split(directory, acc, first, second.drop_last());
    }
}

/// An entry whose requirement is not a string adds one failure, that its
/// requirement is not a string, and no dependency; the entries after it are
/// read as if it were not there.
pub proof fn lemma_non_string_requirement(
    directory: Seq<char>,
    acc: DependencyScan,
    before: Seq<(String, Option<String>)>,
    name: String,
    after: Seq<(String, Option<String>)>,
)
    ensures
        ({
            let read = scan_entries(directory, acc, before);
            scan_entries(directory, acc, before.push((name, None)) + after) == scan_entries(
                directory,
                (read.0, read.1.push(Failure::JsonStructure { directory, expectation: Expectation::RequirementString })),
                after,
            )
        }),
{
    lemma_scan_entries_split(directory, acc, before.push((name, None)), after);
    assert(before.push((name, None)).drop_last() =~= before);
}

/// Reading dependencies keeps the failures met before, and adds none that
/// says a package was met twice.
pub proof fn lemma_scan_adds_no_duplicate(
    directory: Seq<char>,
    acc: DependencyScan,
    entries: Seq<(String, Option<String>)>,
)
    ensures
        ({
            let r = scan_entries(directory, acc, entries);
            &&& acc.1.len() <= r.1.len()
            &&& r.1.subrange(0, acc.1.len() as int) == acc.1
            &&& forall|j: int| acc.1.len() <= j < r.1.len() ==> !(#[trigger] r.1[j] is DuplicatePackageInformation)
        }),
    decreases entries.len(),
{
    if entries.len() > 0 {
        lemma_scan_adds_no_duplicate(directory, acc, entries.drop_last());
        let prev = scan_entries(directory, acc, entries.drop_last());
        let r = scan_entries(directory, acc, entries);
        assert(r.1.subrange(0, acc.1.len() as int) =~= acc.1) by {
            if r.1 != prev.1 {
                assert(r.1.subrange(0, prev.1.len() as int) =~= prev.1);
                assert(prev.1.subrange(0, acc.1.len() as int) == acc.1);
                assert(r.1.subrange(0, acc.1.len() as int) =~= prev.1.subrange(0, acc.1.len() as int));
            }
        }
        assert forall|j: int| acc.1.len() <= j < r.1.len() implies !(#[trigger] r.1[j] is DuplicatePackageInformation) by {
            if j < prev.1.len() {
                assert(r.1[j] == prev.1[j]);
            }
        }
    }
}

/// The dependencies of a document add no failure that says a package was met twice.
pub proof fn lemma_dependencies_add_no_duplicate(directory: Seq<char>, members: Seq<(String, JsonMember)>)
    ensures
        forall|j: int|
            0 <= j < dependencies_of(directory, members).1.len() ==> !(#[trigger] dependencies_of(
                directory,
                members,
            ).1[j] is DuplicatePackageInformation),
{
    let empty: DependencyScan = (Seq::empty(), Seq::empty());
    let first = scan_section(directory, empty, members, "dependencies"@, Expectation::DependenciesObject);
    if let Some(JsonMember::Object(entries)) = member_of(members, "dependencies"@) {
        lemma_scan_adds_no_duplicate(directory, empty, entries@);
    }
    if let Some(JsonMember::Object(entries)) = member_of(members, "devDependencies"@) {
        lemma_scan_adds_no_duplicate(directory, first, entries@);
    }
    let r = dependencies_of(directory, members);
    assert forall|j: int| 0 <= j < r.1.len() implies !(#[trigger] r.1[j] is DuplicatePackageInformation) by {
        if j < first.1.len() {
            if member_of(members, "devDependencies"@) matches Some(JsonMember::Object(entries)) {
                assert(r.1.subrange(0, first.1.len() as int)[j] == first.1[j]);
            } else {
                assert(r.1[j] == first.1[j]);
            }
        }
    }
}

/// Whether `deps` holds `d`.
fn holds_dependency(deps: &Vec<Dependency>, d: &Dependency) -> (r: bool)
    ensures
        r == dependency_views(deps@).contains(d@),
{
    let mut i: usize = 0;
    while i < deps.len()
        invariant
            i <= deps@.len(),
            forall|j: int| 0 <= j < i ==> dependency_views(deps@)[j] != d@,
        decreases deps.len() - i,
    {
        if deps[i].name == d.name && deps[i].version_req == d.version_req {
            assert(dependency_views(deps@)[i as int] == d@);
            return true;
        }
        i = i + 1;
    }
    false
}

/// Reads one entry of a dependency map, as `scan_entry` describes.
fn read_entry(
    directory: &String,
    entry: &(String, Option<String>),
    deps: &mut Vec<Dependency>,
    errors: &mut Vec<PackageError>,
)
    ensures
        (dependency_views(final(deps)@), crate::error::failures(final(errors)@)) == scan_entry(
            directory@,
            (dependency_views(old(deps)@), crate::error::failures(old(errors)@)),
            *entry,
        ),
{
    let ghost d0 = old(deps)@;
    let ghost e0 = old(errors)@;
    match &entry.1 {
        None => {
            errors.push(PackageError::JsonStructure(directory.clone(), Expectation::RequirementString));
            assert(crate::error::failures(errors@) =~= crate::error::failures(e0).push(
                Failure::JsonStructure { directory: directory@, expectation: Expectation::RequirementString },
            ));
        },
        Some(req) => match parse_requirement(req.as_str()) {
            Err(e) => {
                errors.push(PackageError::InvalidVersionRequirement(directory.clone(), req.clone(), e));
                assert(crate::error::failures(errors@) =~= crate::error::failures(e0).push(
                    Failure::InvalidVersionRequirement { directory: directory@, requirement: req@ },
                ));
            },
            Ok(normal) => {
                let d = Dependency { name: entry.0.clone(), version_req: normal };
                if !holds_dependency(deps, &d) {
                    deps.push(d);
                    assert(dependency_views(deps@) =~= dependency_views(d0).push(d@));
                }
            },
        },
    }
}

/// Reads the dependency map under `key`, as `scan_section` describes.
fn read_section(
    directory: &String,
    members: &Vec<(String, JsonMember)>,
    key: &str,
    expectation: Expectation,
    deps: &mut Vec<Dependency>,
    errors: &mut Vec<PackageError>,
)
    ensures
        (dependency_views(final(deps)@), crate::error::failures(final(errors)@)) == scan_section(
            directory@,
            (dependency_views(old(deps)@), crate::error::failures(old(errors)@)),
            members@,
            key@,
            expectation,
        ),
{
    let ghost acc0 = (dependency_views(old(deps)@), crate::error::failures(old(errors)@));
    let k = String::from_str(key);
    match find_member(members, &k) {
        None => {},
        Some(JsonMember::Object(entries)) => {
            let mut i: usize = 0;
            while i < entries.len()
                invariant
                    i <= entries@.len(),
                    (dependency_views(deps@), crate::error::failures(errors@)) == scan_entries(
                        directory@,
                        acc0,
                        entries@.subrange(0, i as int),
                    ),
                decreases entries.len() - i,
            {
                assert(entries@.subrange(0, i + 1).drop_last() =~= entries@.subrange(0, i as int));
                read_entry(directory, &entries[i], deps, errors);
                i = i + 1;
            }
            assert(entries@.subrange(0, entries@.len() as int) =~= entries@);
        },
        Some(_) => {
            let ghost e0 = errors@;
            errors.push(PackageError::JsonStructure(directory.clone(), expectation));
            assert(crate::error::failures(errors@) =~= crate::error::failures(e0).push(
                Failure::JsonStructure { directory: directory@, expectation },
            ));
        },
    }
}

/// Reads the dependencies that the metadata members of the package in
/// `directory` declare, and the failures met on the way, as
/// `dependencies_of` describes.
pub fn read_dependencies(directory: &String, members: &Vec<(String, JsonMember)>) -> (r: (
    Vec<Dependency>,
    Vec<PackageError>,
))
    ensures
        (dependency_views(r.0@), crate::error::failures(r.1@)) == dependencies_of(directory@, members@),
{
    let mut deps: Vec<Dependency> = Vec::new();
    let mut errors: Vec<PackageError> = Vec::new();
    assert(dependency_views(deps@) =~= Seq::empty());
    assert(crate::error::failures(errors@) =~= Seq::empty());
    read_section(directory, members, "dependencies", Expectation::DependenciesObject, &mut deps, &mut errors);
    read_section(
        directory,
        members,
        "devDependencies",
        Expectation::DevDependenciesObject,
        &mut deps,
        &mut errors,
    );
    (deps, errors)
}

} // verus!
