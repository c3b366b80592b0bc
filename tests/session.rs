use tool_install::entry_point::EntryPoint;
use tool_install::install::{EnvironmentOrigin, InstallError, InstallFlags};
use tool_install::path::{PathPart, ToolPath};
use tool_install::receipt::{ReceiptEntry, ToolReceipt};
use tool_install::requirement::Requirement;
use tool_install::session::{Action, Event, Installation, Stage};

fn path(parts: &[&str]) -> ToolPath {
    let mut v = Vec::new();
    for p in parts {
        v.push(match *p {
            "/" => PathPart::Root,
            s => PathPart::Normal(s.to_string()),
        });
    }
    ToolPath { parts: v }
}

fn req(text: &str, name: &str) -> Requirement {
    Requirement::new(name.to_string(), text.to_string())
}

fn flags(force: bool) -> InstallFlags {
    InstallFlags { force, reinstall: false, upgrade: false }
}

fn black_found() -> Vec<(String, ToolPath)> {
    vec![("black".to_string(), path(&["/", "tools", "black", "bin", "black"]))]
}

fn step(i: &mut Installation, e: Event) -> Action {
    assert!(i.accepts(&e));
    i.step(e)
}

/// Runs a fresh install of `black` and returns the receipt it writes.
fn fresh_black(requirements: Vec<Requirement>) -> ToolReceipt {
    let mut i = Installation::new("black".to_string(), requirements.clone(), None, flags(false));
    match step(&mut i, Event::Surveyed { eligible: false, receipt: None }) {
        Action::Resolve { requirements: r } => assert_eq!(r, requirements),
        _ => panic!("expected resolution"),
    }
    assert!(matches!(step(&mut i, Event::Resolved), Action::CreateEnvironment));
    assert!(matches!(step(&mut i, Event::EnvironmentReady), Action::DiscoverEntryPoints));
    match step(&mut i, Event::EntryPointsFound { dir: path(&["/", "bin"]), found: black_found() }) {
        Action::CheckTargets { targets } => assert_eq!(targets, vec![path(&["/", "bin", "black"])]),
        _ => panic!("expected a check"),
    }
    match step(&mut i, Event::TargetsChecked { exists: vec![false] }) {
        Action::Publish { remove, publish } => {
            assert!(remove.is_empty());
            assert_eq!(publish.len(), 1);
        }
        _ => panic!("expected publishing"),
    }
    let receipt = match step(&mut i, Event::Published) {
        Action::WriteReceipt { receipt } => receipt,
        _ => panic!("expected a receipt"),
    };
    assert!(matches!(i.stage, Stage::Finished));
    receipt
}

#[test]
fn fresh_install_then_repeat_is_already_installed() {
    let receipt = fresh_black(vec![req("black", "black")]);
    assert_eq!(receipt.requirements, vec![req("black", "black")]);
    assert_eq!(
        receipt.entry_points,
        vec![ReceiptEntry { name: "black".to_string(), target: path(&["/", "bin", "black"]) }]
    );
    let mut again = Installation::new("black".to_string(), vec![req("black", "black")], None, flags(false));
    let a = step(&mut again, Event::Surveyed { eligible: true, receipt: Some(receipt) });
    assert!(matches!(a, Action::AlreadyInstalled));
    assert!(matches!(again.stage, Stage::Finished));
}

#[test]
fn changed_auxiliaries_sync_and_rewrite_receipt() {
    let first = vec![req("black", "black"), req("black-plugin", "black-plugin")];
    let receipt = fresh_black(first);
    let second = vec![req("black", "black"), req("black-plugin==2.0", "black-plugin")];
    let mut i = Installation::new("black".to_string(), second.clone(), None, flags(false));
    match step(&mut i, Event::Surveyed { eligible: true, receipt: Some(receipt.clone()) }) {
        Action::UpdateEnvironment { requirements } => assert_eq!(requirements, second),
        _ => panic!("expected an update"),
    }
    assert!(i.had_receipt);
    assert!(matches!(step(&mut i, Event::EnvironmentReady), Action::DiscoverEntryPoints));
    step(&mut i, Event::EntryPointsFound { dir: path(&["/", "bin"]), found: black_found() });
    match step(&mut i, Event::TargetsChecked { exists: vec![true] }) {
        Action::Publish { remove, .. } => assert_eq!(remove, vec![path(&["/", "bin", "black"])]),
        _ => panic!("expected publishing"),
    }
    match step(&mut i, Event::Published) {
        Action::WriteReceipt { receipt: r } => {
            assert_eq!(r.requirements, second);
            assert_eq!(r.entry_points, receipt.entry_points);
        }
        _ => panic!("expected a receipt"),
    }
}

#[test]
fn empty_discovery_in_fresh_environment_removes_it() {
    let mut i = Installation::new("t".to_string(), vec![req("t", "t")], None, flags(false));
    step(&mut i, Event::Surveyed { eligible: false, receipt: None });
    step(&mut i, Event::Resolved);
    step(&mut i, Event::EnvironmentReady);
    match step(&mut i, Event::EntryPointsFound { dir: path(&["/", "bin"]), found: Vec::new() }) {
        Action::Abort { error, remove_environment } => {
            assert_eq!(error, InstallError::NoEntryPoints { tool: "t".to_string() });
            assert!(remove_environment);
        }
        _ => panic!("expected an abort"),
    }
}

#[test]
fn empty_discovery_in_reused_environment_keeps_it() {
    let mut i = Installation::new("t".to_string(), vec![req("t", "t")], None, flags(false));
    step(&mut i, Event::Surveyed { eligible: true, receipt: None });
    assert!(matches!(i.stage, Stage::Building { origin: EnvironmentOrigin::Reused }));
    step(&mut i, Event::EnvironmentReady);
    match step(&mut i, Event::EntryPointsFound { dir: path(&["/", "bin"]), found: Vec::new() }) {
        Action::Abort { remove_environment, .. } => assert!(!remove_environment),
        _ => panic!("expected an abort"),
    }
}

#[test]
fn foreign_file_blocks_install_without_force() {
    let mut i = Installation::new("black".to_string(), vec![req("black", "black")], None, flags(false));
    step(&mut i, Event::Surveyed { eligible: false, receipt: None });
    step(&mut i, Event::Resolved);
    step(&mut i, Event::EnvironmentReady);
    step(&mut i, Event::EntryPointsFound { dir: path(&["/", "bin"]), found: black_found() });
    match step(&mut i, Event::TargetsChecked { exists: vec![true] }) {
        Action::Abort { error, remove_environment } => {
            assert_eq!(error, InstallError::EntryPointConflict { names: vec!["black".to_string()] });
            assert!(remove_environment);
        }
        _ => panic!("expected a conflict"),
    }
}

#[test]
fn foreign_file_replaced_with_force() {
    let mut i = Installation::new("black".to_string(), vec![req("black", "black")], None, flags(true));
    step(&mut i, Event::Surveyed { eligible: false, receipt: None });
    step(&mut i, Event::Resolved);
    step(&mut i, Event::EnvironmentReady);
    step(&mut i, Event::EntryPointsFound { dir: path(&["/", "bin"]), found: black_found() });
    match step(&mut i, Event::TargetsChecked { exists: vec![true] }) {
        Action::Publish { remove, publish } => {
            assert_eq!(remove, vec![path(&["/", "bin", "black"])]);
            assert_eq!(
                publish,
                vec![EntryPoint {
                    name: "black".to_string(),
                    source: path(&["/", "tools", "black", "bin", "black"]),
                    target: path(&["/", "bin", "black"]),
                }]
            );
        }
        _ => panic!("expected publishing"),
    }
}

#[test]
fn out_of_order_event_not_accepted() {
    let i = Installation::new("black".to_string(), vec![req("black", "black")], None, flags(false));
    assert!(!i.accepts(&Event::Published));
    assert!(!i.accepts(&Event::TargetsChecked { exists: vec![] }));
}
