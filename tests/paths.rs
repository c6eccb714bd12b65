use npm_dedup::{destination, file_name, instruction_for, join_path, DedupKey, Instruction, PackageInfo};
use npm_dedup::{hoisted_install, locate, own_install};

#[test]
fn joining_puts_one_separator_between() {
    assert_eq!(join_path("a", "b"), "a/b");
    assert_eq!(join_path("a/", "b"), "a/b");
    assert_eq!(join_path("", "b"), "b");
    assert_eq!(join_path("a", "/b"), "/b");
}

#[test]
fn the_file_name_is_the_last_component() {
    assert_eq!(file_name("x/y/z"), "z");
    assert_eq!(file_name("z"), "z");
}

#[test]
fn the_destination_is_repo_name_version() {
    let key = DedupKey { name: "sigmund".to_string(), version: "1.0.1".to_string() };
    assert_eq!(destination("/repo", &key), "/repo/sigmund/1.0.1");
}

#[test]
fn the_instruction_follows_the_disk() {
    assert_eq!(instruction_for("s", "d", true, true), None);
    assert_eq!(instruction_for("s", "d", true, false), None);
    assert_eq!(
        instruction_for("s", "d", false, true),
        Some(Instruction::ReplaceWithSymlink { this_directory: "s", symlink_destination: "d" })
    );
    assert_eq!(
        instruction_for("s", "d", false, false),
        Some(Instruction::MoveAndSymlink { from_here: "s", to_here: "d", symlink_destination: "d" })
    );
}

#[test]
fn own_installs_come_before_hoisted_ones() {
    let p = PackageInfo { directory: "r/a".to_string(), root_directory: "r".to_string() };
    assert_eq!(own_install(&p, "b"), "r/a/node_modules/b");
    assert_eq!(hoisted_install(&p, "b"), "r/b");
    assert_eq!(locate(&p, "b", true, true).unwrap().directory, "r/a/node_modules/b");
    assert_eq!(locate(&p, "b", false, true).unwrap().directory, "r/b");
    assert_eq!(locate(&p, "b", false, true).unwrap().root_directory, "r");
    assert!(locate(&p, "b", false, false).is_none());
}
