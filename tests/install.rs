use tool_install::entry_point::{target_entry_points, EntryPoint};
use tool_install::install::{
    check_source_name, conflict_message, environment_eligible, plan_install, settle_entry_points,
    EnvironmentOrigin, InstallError, InstallFlags, Plan,
};
use tool_install::path::{PathPart, ToolPath};
use tool_install::receipt::{ReceiptEntry, ToolReceipt};
use tool_install::requirement::{candidate_requirements, same_requirements, Requirement};

fn path(parts: &[&str]) -> ToolPath {
    let mut v = Vec::new();
    for p in parts {
        v.push(match *p {
            "/" => PathPart::Root,
            s => PathPart::Normal(s.to_string()),
        });
    }
    ToolPath { parts: v }
}

fn exe_dir() -> ToolPath {
    path(&["/", "bin"])
}

fn req(name: &str, text: &str) -> Requirement {
    Requirement::new(name.to_string(), text.to_string())
}

fn no_flags() -> InstallFlags {
    InstallFlags { force: false, reinstall: false, upgrade: false }
}

fn black_entries() -> Vec<EntryPoint> {
    target_entry_points(&exe_dir(), &vec![("black".to_string(), path(&["/", "env", "bin", "black"]))])
}

#[test]
fn source_name_must_match() {
    assert_eq!(check_source_name(&"black".to_string(), &"black".to_string()), Ok(()));
    assert_eq!(
        check_source_name(&"black".to_string(), &"ruff".to_string()),
        Err(InstallError::NameConflict { requested: "black".to_string(), resolved: "ruff".to_string() })
    );
}

#[test]
fn eligibility_follows_interpreter_request() {
    assert!(environment_eligible(true, false, false));
    assert!(environment_eligible(true, true, true));
    assert!(!environment_eligible(true, true, false));
    assert!(!environment_eligible(false, false, true));
}

#[test]
fn candidate_is_primary_then_auxiliaries() {
    let c = candidate_requirements(req("black", "black"), vec![req("a", "a>=1"), req("b", "b")]);
    assert_eq!(c, vec![req("black", "black"), req("a", "a>=1"), req("b", "b")]);
}

#[test]
fn requirement_lists_compare_by_position() {
    let a = vec![req("x", "x"), req("y", "y")];
    let b = vec![req("y", "y"), req("x", "x")];
    assert!(same_requirements(&a, &a.clone()));
    assert!(!same_requirements(&a, &b));
    assert!(!same_requirements(&a, &vec![req("x", "x")]));
}

#[test]
fn fresh_install_creates_and_records() {
    let candidate = candidate_requirements(req("black", "black"), Vec::new());
    assert_eq!(plan_install(false, None, &candidate, no_flags()), Plan::Create);
    let planned = black_entries();
    let p = settle_entry_points(&"black".to_string(), planned, &vec![false], EnvironmentOrigin::Fresh, false, false)
        .ok()
        .unwrap();
    assert!(p.remove.is_empty());
    let receipt = ToolReceipt::new(candidate.clone(), None, &p.publish);
    assert_eq!(receipt.requirements, vec![req("black", "black")]);
    assert_eq!(
        receipt.entry_points,
        vec![ReceiptEntry { name: "black".to_string(), target: path(&["/", "bin", "black"]) }]
    );
    // The same request again finds everything in place.
    assert_eq!(plan_install(true, Some(&receipt), &candidate, no_flags()), Plan::AlreadyInstalled);
}

#[test]
fn flags_defeat_the_short_circuit() {
    let candidate = vec![req("black", "black")];
    let receipt = ToolReceipt::new(candidate.clone(), None, &black_entries());
    for flags in [
        InstallFlags { force: true, reinstall: false, upgrade: false },
        InstallFlags { force: false, reinstall: true, upgrade: false },
        InstallFlags { force: false, reinstall: false, upgrade: true },
    ] {
        assert_eq!(plan_install(true, Some(&receipt), &candidate, flags), Plan::Update);
    }
    assert_eq!(plan_install(true, None, &candidate, no_flags()), Plan::Update);
    assert_eq!(plan_install(false, Some(&receipt), &candidate, no_flags()), Plan::Create);
}

#[test]
fn changed_auxiliaries_update_the_receipt() {
    let first = candidate_requirements(req("black", "black"), vec![req("black-plugin", "black-plugin")]);
    let receipt = ToolReceipt::new(first, None, &black_entries());
    let second =
        candidate_requirements(req("black", "black"), vec![req("black-plugin", "black-plugin==2.0")]);
    assert_eq!(plan_install(true, Some(&receipt), &second, no_flags()), Plan::Update);
    let p = settle_entry_points(&"black".to_string(), black_entries(), &vec![true], EnvironmentOrigin::Reused, true, false)
        .ok()
        .unwrap();
    assert_eq!(p.remove, vec![path(&["/", "bin", "black"])]);
    let updated = ToolReceipt::new(second.clone(), None, &p.publish);
    assert_eq!(updated.requirements, second);
    assert_eq!(updated.entry_points, receipt.entry_points);
}

#[test]
fn no_entry_points_removes_fresh_environment() {
    let f = settle_entry_points(&"tool".to_string(), Vec::new(), &Vec::new(), EnvironmentOrigin::Fresh, false, false)
        .err()
        .unwrap();
    assert_eq!(f.error, InstallError::NoEntryPoints { tool: "tool".to_string() });
    assert!(f.remove_environment);
}

#[test]
fn no_entry_points_keeps_reused_environment() {
    let f = settle_entry_points(&"tool".to_string(), Vec::new(), &Vec::new(), EnvironmentOrigin::Reused, true, false)
        .err()
        .unwrap();
    assert_eq!(f.error, InstallError::NoEntryPoints { tool: "tool".to_string() });
    assert!(!f.remove_environment);
}

#[test]
fn foreign_target_conflicts_without_force() {
    let planned = target_entry_points(
        &exe_dir(),
        &vec![
            ("a".to_string(), path(&["/", "env", "a"])),
            ("b".to_string(), path(&["/", "env", "b"])),
            ("c".to_string(), path(&["/", "env", "c"])),
        ],
    );
    let f = settle_entry_points(&"t".to_string(), planned, &vec![true, false, true], EnvironmentOrigin::Fresh, false, false)
        .err()
        .unwrap();
    assert_eq!(f.error, InstallError::EntryPointConflict { names: vec!["a".to_string(), "c".to_string()] });
    assert!(f.remove_environment);
}

#[test]
fn foreign_target_replaced_with_force() {
    let planned = black_entries();
    let p = settle_entry_points(&"black".to_string(), planned.clone(), &vec![true], EnvironmentOrigin::Fresh, false, true)
        .ok()
        .unwrap();
    assert_eq!(p.remove, vec![path(&["/", "bin", "black"])]);
    assert_eq!(p.publish, planned);
}

#[test]
fn conflict_message_for_one_file() {
    assert_eq!(
        conflict_message(&vec!["black".to_string()]),
        "Entry point for tool already exists: black (use `--force` to overwrite)"
    );
}

#[test]
fn conflict_message_for_several_files() {
    assert_eq!(
        conflict_message(&vec!["black".to_string(), "blackd".to_string()]),
        "Entry points for tool already exist: black, blackd (use `--force` to overwrite)"
    );
}
