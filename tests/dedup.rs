use npm_dedup::{
    destination, hoisted_install, join_path, locate, own_install, Deduplication, Expectation, Instruction,
    InstructionOwned, PackageError, PackageInfo, Visitor,
};
use std::collections::{HashMap, HashSet};

/// An in-memory picture of the disk: metadata documents, directories and
/// symbolic links.
#[derive(Default)]
struct Disk {
    files: HashMap<String, Vec<u8>>,
    dirs: HashSet<String>,
    links: HashSet<String>,
}

impl Disk {
    fn package(&mut self, dir: &str, json: &str) {
        self.dirs.insert(dir.to_string());
        self.files.insert(join_path(dir, "package.json"), json.as_bytes().to_vec());
    }
}

/// Runs a deduplication against `disk`, doing the reads and lookups that a
/// caller does against the file system.
fn deduplicate_on<V: Visitor>(
    repo: &str,
    items: &[PackageInfo],
    disk: &Disk,
    visitor: &mut V,
) -> Result<(), Vec<PackageError>> {
    let mut run = Deduplication::new(&items.to_vec());
    while let Some(p) = run.next_package() {
        let path = join_path(&p.directory, "package.json");
        let metadata = disk.files.get(&path).cloned().ok_or_else(|| format!("'{}' not found", path));
        let names = run.visit(&p, metadata, visitor);
        let located = names
            .iter()
            .map(|n| {
                let own = disk.dirs.contains(&own_install(&p, n));
                let hoisted = disk.dirs.contains(&hoisted_install(&p, n));
                locate(&p, n, own, hoisted)
            })
            .collect();
        run.descend(located);
    }
    for i in 0..run.record_count() {
        let record = run.record(i);
        let source_is_symlink = disk.links.contains(&record.package_info.directory);
        let destination_exists = disk.dirs.contains(&destination(repo, &record.key));
        run.synthesize(i, repo, source_is_symlink, destination_exists, visitor);
    }
    run.finish()
}

#[derive(Default)]
struct Collector {
    preprocessed_packages: Vec<PackageInfo>,
    instructions: Vec<InstructionOwned>,
    attempted: Vec<InstructionOwned>,
    fail_on_change: bool,
}

#[derive(Debug)]
enum FakeError {
    Action(InstructionOwned),
}

impl Visitor for Collector {
    type Error = FakeError;

    fn error(&mut self, package: &PackageInfo, _: &PackageError) {
        self.preprocessed_packages.push(package.clone());
    }

    fn change(&mut self, action: Instruction) -> Result<(), Self::Error> {
        self.attempted.push(action.clone().into());
        if self.fail_on_change {
            Err(FakeError::Action(action.into()))
        } else {
            self.instructions.push(action.into());
            Ok(())
        }
    }
}

const ROOT: &str = "fixtures/reveal.js-unnested/node_modules";
const REPO: &str = "/tmp/npm_repo_path";
const SIGMUND: &str = r#"{"name":"sigmund","version":"1.0.1","devDependencies":{"tap":"~0.3.0"}}"#;

fn package_at(sub_path: &str) -> PackageInfo {
    PackageInfo { directory: join_path(ROOT, sub_path), root_directory: ROOT.to_string() }
}

fn fixture() -> Disk {
    let mut disk = Disk::default();
    disk.package(&join_path(ROOT, "sigmund"), SIGMUND);
    disk
}

#[test]
fn it_cannot_deduplicate_versions_which_are_different() {
    let mut disk = Disk::default();
    disk.package("repo-src/foo", r#"{"name":"foo","version":"0.1.0"}"#);
    disk.package("repo-src/bar", r#"{"name":"bar","version":"0.2.0"}"#);
    let items = [
        PackageInfo { directory: "repo-src/foo".to_string(), root_directory: "repo-src".to_string() },
        PackageInfo { directory: "repo-src/bar".to_string(), root_directory: "repo-src".to_string() },
    ];
    let mut mock = Collector::default();
    let r = deduplicate_on("repo", &items, &disk, &mut mock);
    assert!(r.is_ok());
    assert_eq!(mock.instructions.len(), 2);
}

#[test]
fn it_does_not_tell_visitor_to_symlink_a_direct_dependency_to_repo_if_it_is_a_symlink_to_correct_destination_already(
) {
    let repo_sigmund_destination = join_path(&join_path(REPO, "sigmund"), "1.0.1");
    let mut disk = Disk::default();
    disk.package(&repo_sigmund_destination, r#"{"version":"1.0.1", "name":"sigmund"}"#);
    let package_sigmund_dir = join_path(&join_path("package", "node_modules"), "sigmund");
    // the link reads through to the repository's copy
    disk.package(&package_sigmund_dir, r#"{"version":"1.0.1", "name":"sigmund"}"#);
    disk.links.insert(package_sigmund_dir.clone());

    let ps = [PackageInfo { directory: package_sigmund_dir, root_directory: "package/node_modules".to_string() }];
    let mut cl = Collector::default();
    let r = deduplicate_on(REPO, &ps, &disk, &mut cl);

    assert_eq!(r.unwrap(), ());
    assert_eq!(cl.instructions.len(), 0);
}

#[test]
fn it_tells_visitor_to_symlink_a_direct_dependency_to_repo_if_version_does_exist_there() {
    let mut disk = fixture();
    let abs_destination = join_path(&join_path(REPO, "sigmund"), "1.0.1");
    disk.dirs.insert(abs_destination.clone());
    let mut cl = Collector::default();

    let ps = [package_at("sigmund")];
    let r = deduplicate_on(REPO, &ps, &disk, &mut cl);
    assert_eq!(r.unwrap(), ());
    assert_eq!(cl.instructions.len(), 1);

    match cl.instructions[0] {
        InstructionOwned::ReplaceWithSymlink { ref this_directory, ref symlink_destination } => {
            assert_eq!(this_directory, &ps[0].directory);
            assert_eq!(symlink_destination, &abs_destination);
        }
        _ => unreachable!(),
    }
}

#[test]
fn it_tells_visitor_to_move_and_symlink_a_direct_dependency_to_repo_if_version_does_not_exist() {
    let disk = fixture();
    let mut cl = Collector::default();

    let ps = [package_at("sigmund")];
    let r = deduplicate_on(REPO, &ps, &disk, &mut cl);
    assert_eq!(r.unwrap(), ());
    assert_eq!(cl.instructions.len(), 1);

    match cl.instructions[0] {
        InstructionOwned::MoveAndSymlink { ref from_here, ref to_here, ref symlink_destination } => {
            assert_eq!(from_here, &ps[0].directory);
            let expected_to_here = "/tmp/npm_repo_path/sigmund/1.0.1".to_string();
            assert_eq!(to_here, &expected_to_here);
            assert_eq!(symlink_destination, &expected_to_here);
        }
        _ => unreachable!(),
    }
}

#[test]
fn a_package_can_produce_its_name() {
    let p = PackageInfo { directory: "some/path/package-name".to_string(), root_directory: String::new() };

    assert_eq!(p.name(), "package-name");
}

#[test]
fn it_indicates_error_if_the_visitor_has_at_least_one_failure() {
    let disk = fixture();
    let mut cl = Collector::default();
    cl.fail_on_change = true;

    let ve = deduplicate_on(REPO, &[package_at("sigmund")], &disk, &mut cl).err().unwrap();
    assert_eq!(ve.len(), 1);
    assert!(matches!(ve[0], PackageError::VisitorFailure(ref d) if *d == package_at("sigmund").directory));
    assert_eq!(cl.attempted.len(), 1);
}

#[test]
fn it_informs_the_visitor_right_after_something_went_wrong() {
    let disk = fixture();
    let mut cl = Collector::default();

    let ve = deduplicate_on(REPO, &[package_at("is-not-there")], &disk, &mut cl).err().unwrap();
    assert_eq!(ve.len(), 1);
    assert_eq!(cl.preprocessed_packages.len(), 1);
    assert_eq!(cl.preprocessed_packages[0].name(), "is-not-there");
    match ve[0] {
        PackageError::ReadPackageFile(ref path, _) => {
            assert_eq!(path, "fixtures/reveal.js-unnested/node_modules/is-not-there/package.json")
        }
        _ => unreachable!(),
    }
    assert_eq!(cl.attempted.len(), 0);
}

#[test]
fn it_rejects_duplicate_packages() {
    let disk = fixture();
    let mut cl = Collector::default();

    let p = package_at("sigmund");
    let ps = [p.clone(), p];
    let ve = deduplicate_on(REPO, &ps, &disk, &mut cl).err().unwrap();
    assert_eq!(ve.len(), 1);
    match ve[0] {
        PackageError::DuplicatePackageInformation(ref pd) => assert_eq!(&ps[1], pd),
        _ => panic!("expected a duplicate"),
    }
    assert_eq!(cl.instructions.len(), 1);
}

#[test]
fn a_second_copy_of_an_identity_is_merged_silently() {
    let mut disk = fixture();
    disk.package("elsewhere/node_modules/sigmund", SIGMUND);
    let mut cl = Collector::default();
    let other = PackageInfo {
        directory: "elsewhere/node_modules/sigmund".to_string(),
        root_directory: "elsewhere/node_modules".to_string(),
    };
    let r = deduplicate_on(REPO, &[package_at("sigmund"), other], &disk, &mut cl);
    assert!(r.is_ok());
    assert_eq!(cl.instructions.len(), 1);
    assert!(cl.preprocessed_packages.is_empty());
}

#[test]
fn dependencies_are_found_in_own_then_hoisted_installs() {
    let mut disk = Disk::default();
    disk.package(
        "app/node_modules/a",
        r#"{"name":"a","version":"1.0.0","dependencies":{"b":"^1.0.0","c":"2.x","missing":"*"}}"#,
    );
    disk.package("app/node_modules/a/node_modules/b", r#"{"name":"b","version":"1.2.0"}"#);
    disk.package("app/node_modules/b", r#"{"name":"b","version":"0.9.0"}"#);
    disk.package("app/node_modules/c", r#"{"name":"c","version":"2.1.0-beta.1+build.5"}"#);
    let mut cl = Collector::default();
    let items = [PackageInfo {
        directory: "app/node_modules/a".to_string(),
        root_directory: "app/node_modules".to_string(),
    }];
    let r = deduplicate_on("repo", &items, &disk, &mut cl);
    assert!(r.is_ok());
    let moved: Vec<(String, String)> = cl
        .instructions
        .iter()
        .map(|i| match i {
            InstructionOwned::MoveAndSymlink { from_here, to_here, .. } => (from_here.clone(), to_here.clone()),
            _ => unreachable!(),
        })
        .collect();
    assert_eq!(
        moved,
        vec![
            ("app/node_modules/a".to_string(), "repo/a/1.0.0".to_string()),
            ("app/node_modules/a/node_modules/b".to_string(), "repo/b/1.2.0".to_string()),
            ("app/node_modules/c".to_string(), "repo/c/2.1.0-beta.1+build.5".to_string()),
        ]
    );
}

#[test]
fn a_non_string_requirement_does_not_stop_its_siblings() {
    let mut disk = Disk::default();
    disk.package(
        "root/x",
        r#"{"name":"x","version":"1.0.0","dependencies":{"bad":7,"good":"1.2","worse":"@1"}}"#,
    );
    disk.package("root/good", r#"{"name":"good","version":"1.2.3"}"#);
    let mut cl = Collector::default();
    let items = [PackageInfo { directory: "root/x".to_string(), root_directory: "root".to_string() }];
    let ve = deduplicate_on("repo", &items, &disk, &mut cl).err().unwrap();
    assert_eq!(ve.len(), 2);
    assert!(matches!(ve[0], PackageError::JsonStructure(ref d, Expectation::RequirementString) if d == "root/x"));
    assert!(matches!(ve[1], PackageError::InvalidVersionRequirement(ref d, ref v, _) if d == "root/x" && v == "@1"));
    assert_eq!(cl.preprocessed_packages.len(), 2);
    // the sibling `good` was still followed
    assert_eq!(cl.instructions.len(), 2);
}

#[test]
fn each_failed_change_is_one_error() {
    let mut disk = Disk::default();
    disk.package("r/a", r#"{"name":"a","version":"1.0.0"}"#);
    disk.package("r/b", r#"{"name":"b","version":"1.0.0"}"#);
    disk.package("r/c", r#"{"name":"c","version":"1.0.0"}"#);
    let items: Vec<PackageInfo> = ["a", "b", "c"]
        .iter()
        .map(|n| PackageInfo { directory: join_path("r", n), root_directory: "r".to_string() })
        .collect();
    let mut cl = Collector::default();
    cl.fail_on_change = true;
    let ve = deduplicate_on("repo", &items, &disk, &mut cl).err().unwrap();
    assert_eq!(ve.len(), 3);
    assert_eq!(cl.attempted.len(), 3);
    assert_eq!(cl.preprocessed_packages.len(), 3);
    assert!(ve.iter().all(|e| matches!(e, PackageError::VisitorFailure(_))));
}
