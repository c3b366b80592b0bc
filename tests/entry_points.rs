use std::cmp::Ordering;
use tool_install::entry_point::{compare_entry, target_entry_points, target_path, EntryPoint};
use tool_install::order::compare_str;
use tool_install::path::{compare_part, PathPart, ToolPath};

fn path(parts: &[&str]) -> ToolPath {
    let mut v = Vec::new();
    for p in parts {
        v.push(match *p {
            "/" => PathPart::Root,
            "." => PathPart::Current,
            ".." => PathPart::Parent,
            s => PathPart::Normal(s.to_string()),
        });
    }
    ToolPath { parts: v }
}

fn exe_dir() -> ToolPath {
    path(&["/", "home", "user", ".local", "bin"])
}

#[test]
fn strings_order_by_bytes() {
    assert_eq!(compare_str(&"a".to_string(), &"b".to_string()), Ordering::Less);
    assert_eq!(compare_str(&"ab".to_string(), &"abc".to_string()), Ordering::Less);
    assert_eq!(compare_str(&"abc".to_string(), &"abc".to_string()), Ordering::Equal);
    assert_eq!(compare_str(&"b".to_string(), &"abc".to_string()), Ordering::Greater);
    assert_eq!(compare_str(&"Z".to_string(), &"a".to_string()), Ordering::Less);
    assert_eq!(compare_str(&"é".to_string(), &"z".to_string()), Ordering::Greater);
}

#[test]
fn components_order_root_first() {
    assert_eq!(compare_part(&PathPart::Root, &PathPart::Normal("a".to_string())), Ordering::Less);
    assert_eq!(compare_part(&PathPart::Parent, &PathPart::Current), Ordering::Greater);
    assert_eq!(
        compare_part(&PathPart::Normal("x".to_string()), &PathPart::Normal("x".to_string())),
        Ordering::Equal
    );
}

#[test]
fn paths_order_by_components() {
    assert_eq!(path(&["/", "a"]).compare(&path(&["/", "a", "b"])), Ordering::Less);
    assert_eq!(path(&["/", "b"]).compare(&path(&["/", "a", "b"])), Ordering::Greater);
    assert_eq!(path(&["/", "a"]).compare(&path(&["/", "a"])), Ordering::Equal);
}

#[test]
fn target_uses_source_file_name() {
    let t = target_path(&exe_dir(), &"black".to_string(), &path(&["/", "env", "bin", "black-cli"]));
    assert_eq!(t, path(&["/", "home", "user", ".local", "bin", "black-cli"]));
}

#[test]
fn target_falls_back_to_name() {
    let t = target_path(&exe_dir(), &"black".to_string(), &path(&["/", "env", ".."]));
    assert_eq!(t, path(&["/", "home", "user", ".local", "bin", "black"]));
    let t = target_path(&exe_dir(), &"black".to_string(), &path(&[]));
    assert_eq!(t, path(&["/", "home", "user", ".local", "bin", "black"]));
}

#[test]
fn entry_points_sorted_and_deduplicated() {
    let found = vec![
        ("blackd".to_string(), path(&["/", "env", "bin", "blackd"])),
        ("black".to_string(), path(&["/", "env", "bin", "black"])),
        ("blackd".to_string(), path(&["/", "env", "bin", "blackd"])),
    ];
    let r = target_entry_points(&exe_dir(), &found);
    assert_eq!(r.len(), 2);
    assert_eq!(r[0].name, "black");
    assert_eq!(r[0].target, path(&["/", "home", "user", ".local", "bin", "black"]));
    assert_eq!(r[1].name, "blackd");
    assert_eq!(r[1].source, path(&["/", "env", "bin", "blackd"]));
    assert_eq!(r[1].target, path(&["/", "home", "user", ".local", "bin", "blackd"]));
}

#[test]
fn entry_points_same_name_ordered_by_source() {
    let found = vec![
        ("tool".to_string(), path(&["/", "env", "b", "tool"])),
        ("tool".to_string(), path(&["/", "env", "a", "tool"])),
    ];
    let r = target_entry_points(&exe_dir(), &found);
    assert_eq!(r.len(), 2);
    assert_eq!(r[0].source, path(&["/", "env", "a", "tool"]));
    assert_eq!(r[1].source, path(&["/", "env", "b", "tool"]));
}

#[test]
fn no_discoveries_no_entry_points() {
    let r = target_entry_points(&exe_dir(), &Vec::new());
    assert!(r.is_empty());
}

#[test]
fn same_discoveries_in_other_order_give_same_targets() {
    let a = vec![
        ("x".to_string(), path(&["/", "env", "bin", "x"])),
        ("y".to_string(), path(&["/", "env", "bin", "y"])),
    ];
    let b = vec![
        ("y".to_string(), path(&["/", "env", "bin", "y"])),
        ("x".to_string(), path(&["/", "env", "bin", "x"])),
        ("y".to_string(), path(&["/", "env", "bin", "y"])),
    ];
    assert_eq!(target_entry_points(&exe_dir(), &a), target_entry_points(&exe_dir(), &b));
}

#[test]
fn entries_compare_by_name_first() {
    let a = EntryPoint { name: "a".to_string(), source: path(&["/", "z"]), target: path(&["/", "z"]) };
    let b = EntryPoint { name: "b".to_string(), source: path(&["/", "a"]), target: path(&["/", "a"]) };
    assert_eq!(compare_entry(&a, &b), Ordering::Less);
    assert_eq!(compare_entry(&b, &a), Ordering::Greater);
    assert_eq!(compare_entry(&a, &a.clone()), Ordering::Equal);
}
