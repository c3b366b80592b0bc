//! One install as a sequence of steps: each step takes what the outside work
//! reported and says what to do next. The caller performs each action and
//! reports its result; the decisions, and their order, are made here.

use crate::entry_point::{copy_entries, entries_view, is_plan, targets_of, target_entry_points, EntryPoint};
use crate::install::{
    conflict_name, existing_names, lemma_existing_target_listed, existing_targets, any_exists, paths_view, plan_install, plan_of, settle_entry_points,
    EnvironmentOrigin, Failure, InstallError, InstallFlags, Plan, Publication,
};
use crate::path::ToolPath;
use crate::receipt::{opt_view, receipt_of, ToolReceipt};
use crate::requirement::{copy_requirements, requirements_view, Requirement};
use vstd::prelude::*;

verus! {

/// Where an install stands.
pub enum Stage {
    /// The receipt and the environment on disk are to be looked up.
    Surveying,
    /// The requirements are being resolved for a fresh environment.
    Resolving,
    /// The environment is being created or synced.
    Building { origin: EnvironmentOrigin },
    /// The executables of the installed package are being looked up.
    Discovering { origin: EnvironmentOrigin },
    /// It is being checked which targets exist.
    Checking { origin: EnvironmentOrigin, planned: Vec<EntryPoint> },
    /// The entry points are being published.
    Publishing { planned: Vec<EntryPoint> },
    /// Nothing is left to do.
    Finished,
}

/// What the outside work reported.
pub enum Event {
    /// The survey found whether an existing environment may serve the install,
    /// and the tool's receipt, if any.
    Surveyed { eligible: bool, receipt: Option<ToolReceipt> },
    /// The requirements resolved.
    Resolved,
    /// The environment holds the requirements.
    EnvironmentReady,
    /// The executables found for the package, and the directory they go to.
    EntryPointsFound { dir: ToolPath, found: Vec<(String, ToolPath)> },
    /// For each target asked about, in order, whether it exists.
    TargetsChecked { exists: Vec<bool> },
    /// Every entry point is published.
    Published,
}

/// What the caller is to do next.
pub enum Action {
    /// Stop: the tool is installed as asked, and nothing was changed.
    AlreadyInstalled,
    /// Sync the existing environment with these requirements.
    UpdateEnvironment { requirements: Vec<Requirement> },
    /// Resolve these requirements; change nothing on disk yet.
    Resolve { requirements: Vec<Requirement> },
    /// Create a fresh environment and sync it with the resolved requirements.
    CreateEnvironment,
    /// Look up the executables of the installed package.
    DiscoverEntryPoints,
    /// Report which of these paths exist.
    CheckTargets { targets: Vec<ToolPath> },
    /// Remove the paths in `remove`, then publish each entry point.
    Publish { remove: Vec<ToolPath>, publish: Vec<EntryPoint> },
    /// Write this receipt; the install is then complete.
    WriteReceipt { receipt: ToolReceipt },
    /// Stop with this error, removing the tool's environment first where asked.
    Abort { error: InstallError, remove_environment: bool },
}

/// An install in progress.
pub struct Installation {
    pub tool: String,
    pub requirements: Vec<Requirement>,
    pub python: Option<String>,
    pub flags: InstallFlags,
    /// Whether the tool had a receipt when the install began.
    pub had_receipt: bool,
    pub stage: Stage,
}

/// The event is one that the stage awaits.
pub open spec fn awaits(stage: Stage, event: Event) -> bool {
    match (stage, event) {
        (Stage::Surveying, Event::Surveyed { .. }) => true,
        (Stage::Resolving, Event::Resolved) => true,
        (Stage::Building { .. }, Event::EnvironmentReady) => true,
        (Stage::Discovering { .. }, Event::EntryPointsFound { .. }) => true,
        (Stage::Checking { planned, .. }, Event::TargetsChecked { exists }) => exists@.len()
            == planned@.len(),
        (Stage::Publishing { .. }, Event::Published) => true,
        _ => false,
    }
}

/// The settlement of the entry points as `settle_entry_points` states it.
pub open spec fn settled(
    tool: String,
    planned: Seq<EntryPoint>,
    exists: Seq<bool>,
    origin: EnvironmentOrigin,
    had_receipt: bool,
    force: bool,
    r: Result<Publication, Failure>,
) -> bool {
    match r {
        Ok(p) => {
            &&& planned.len() > 0
            &&& !any_exists(exists) || force || had_receipt
            &&& paths_view(p.remove@) == existing_targets(entries_view(planned), exists)
            &&& entries_view(p.publish@) == entries_view(planned)
        },
        Err(f) => {
            &&& f.remove_environment == (origin == EnvironmentOrigin::Fresh)
            &&& match f.error {
                InstallError::NoEntryPoints { tool: t } => planned.len() == 0 && t@ == tool@,
                InstallError::EntryPointConflict { names } => {
                    &&& planned.len() > 0
                    &&& any_exists(exists) && !force && !had_receipt
                    &&& Seq::new(names@.len(), |i: int| names@[i]@) == existing_names(
                        entries_view(planned),
                        exists,
                    )
                },
                InstallError::NameConflict { .. } => false,
            }
        },
    }
}

/// A target that exists where the tool had no receipt: without force the
/// entry points settle as a conflict that names it, with nothing removed; with
/// force it is removed and every entry point is published.
pub proof fn lemma_foreign_target(
    tool: String,
    planned: Seq<EntryPoint>,
    exists: Seq<bool>,
    origin: EnvironmentOrigin,
    i: int,
    plain: Result<Publication, Failure>,
    forced: Result<Publication, Failure>,
)
    requires
        exists.len() == planned.len(),
        0 <= i < planned.len(),
        exists[i],
        settled(tool, planned, exists, origin, false, false, plain),
        settled(tool, planned, exists, origin, false, true, forced),
    ensures
        match plain {
            Err(f) => match f.error {
                InstallError::EntryPointConflict { names } => Seq::new(
                    names@.len(),
                    |k: int| names@[k]@,
                ).contains(conflict_name(planned[i]@)),
                _ => false,
            },
            Ok(_) => false,
        },
        match forced {
            Ok(p) => paths_view(p.remove@).contains(planned[i].target@) && entries_view(p.publish@)
                == entries_view(planned),
            Err(_) => false,
        },
{
    assert(entries_view(planned)[i] == planned[i]@);
    lemma_existing_target_listed(entries_view(planned), exists, i);
}

/// Where discovery finds no entry point, the install fails, publishes and
/// records nothing, and removes the environment exactly where it created it.
pub proof fn lemma_empty_discovery_rolls_back(
    tool: String,
    origin: EnvironmentOrigin,
    had_receipt: bool,
    force: bool,
    r: Result<Publication, Failure>,
)
    requires
        settled(tool, Seq::empty(), Seq::empty(), origin, had_receipt, force, r),
    ensures
        match r {
            Err(f) => f.error is NoEntryPoints && f.remove_environment == (origin
                == EnvironmentOrigin::Fresh),
            Ok(_) => false,
        },
{
}

impl Installation {
    /// An install of `requirements` (the primary requirement first) for `tool`,
    /// with the interpreter request `python`. It begins with a survey of the disk.
    pub fn new(tool: String, requirements: Vec<Requirement>, python: Option<String>, flags: InstallFlags) -> (r: Installation)
        ensures
            r.tool@ == tool@,
            requirements_view(r.requirements@) == requirements_view(requirements@),
            opt_view(r.python) == opt_view(python),
            r.flags == flags,
            !r.had_receipt,
            r.stage is Surveying,
    {
        Installation { tool, requirements, python, flags, had_receipt: false, stage: Stage::Surveying }
    }

    /// Whether the install awaits `event` now.
    pub fn accepts(&self, event: &Event) -> (r: bool)
        ensures
            r == awaits(self.stage, *event),
    {
        match (&self.stage, event) {
            (Stage::Surveying, Event::Surveyed { .. }) => true,
            (Stage::Resolving, Event::Resolved) => true,
            (Stage::Building { .. }, Event::EnvironmentReady) => true,
            (Stage::Discovering { .. }, Event::EntryPointsFound { .. }) => true,
            (Stage::Checking { planned, .. }, Event::TargetsChecked { exists }) => exists.len()
                == planned.len(),
            (Stage::Publishing { .. }, Event::Published) => true,
            _ => false,
        }
    }

    /// Takes the report of the last action and says what to do next.
    ///
    /// The environment is never created or changed before the requirements
    /// resolved; a receipt is written only once every entry point is
    /// published; and an environment is removed only on a failure, only where
    /// this install created it.
    pub fn step(&mut self, event: Event) -> (a: Action)
        requires
            awaits(old(self).stage, event),
        ensures
            final(self).tool == old(self).tool,
            final(self).requirements == old(self).requirements,
            final(self).python == old(self).python,
            final(self).flags == old(self).flags,
            match (old(self).stage, event) {
                (Stage::Surveying, Event::Surveyed { eligible, receipt }) => {
                    let plan = plan_of(
                        eligible,
                        match receipt {
                            Some(t) => Some(t@.requirements),
                            None => None,
                        },
                        requirements_view(old(self).requirements@),
                        old(self).flags.force,
                        old(self).flags.reinstall,
                        old(self).flags.upgrade,
                    );
                    &&& final(self).had_receipt == receipt is Some
                    &&& plan == Plan::AlreadyInstalled ==> final(self).stage is Finished
                        && a is AlreadyInstalled
                    &&& plan == Plan::Update ==> final(self).stage == (Stage::Building {
                        origin: EnvironmentOrigin::Reused,
                    }) && match a {
                        Action::UpdateEnvironment { requirements } => requirements_view(
                            requirements@,
                        ) == requirements_view(old(self).requirements@),
                        _ => false,
                    }
                    &&& plan == Plan::Create ==> final(self).stage is Resolving && match a {
                        Action::Resolve { requirements } => requirements_view(requirements@)
                            == requirements_view(old(self).requirements@),
                        _ => false,
                    }
                },
                (Stage::Resolving, Event::Resolved) => {
                    &&& final(self).had_receipt == old(self).had_receipt
                    &&& final(self).stage == (Stage::Building { origin: EnvironmentOrigin::Fresh })
                    &&& a is CreateEnvironment
                },
                (Stage::Building { origin }, Event::EnvironmentReady) => {
                    &&& final(self).had_receipt == old(self).had_receipt
                    &&& final(self).stage == (Stage::Discovering { origin })
                    &&& a is DiscoverEntryPoints
                },
                (Stage::Discovering { origin }, Event::EntryPointsFound { dir, found }) => {
                    &&& final(self).had_receipt == old(self).had_receipt
                    &&& found@.len() == 0 ==> final(self).stage is Finished && match a {
                        Action::Abort { error: InstallError::NoEntryPoints { tool }, remove_environment } => {
                            tool@ == old(self).tool@ && remove_environment == (origin
                                == EnvironmentOrigin::Fresh)
                        },
                        _ => false,
                    }
                    &&& found@.len() > 0 ==> match (final(self).stage, a) {
                        (Stage::Checking { origin: o, planned }, Action::CheckTargets { targets }) => {
                            &&& o == origin
                            &&& is_plan(dir@, found@, entries_view(planned@))
                            &&& targets@.len() == planned@.len()
                            &&& forall|j: int| 0 <= j < planned@.len() ==> (#[trigger] targets@[j])@
                                == planned@[j].target@
                        },
                        _ => false,
                    }
                },
                (Stage::Checking { origin, planned }, Event::TargetsChecked { exists }) => {
                    &&& final(self).had_receipt == old(self).had_receipt
                    &&& exists|r: Result<Publication, Failure>| {
                        &&& settled(
                            old(self).tool,
                            planned@,
                            exists@,
                            origin,
                            old(self).had_receipt,
                            old(self).flags.force,
                            r,
                        )
                        &&& match r {
                            Ok(p) => match (final(self).stage, a) {
                                (Stage::Publishing { planned: kept }, Action::Publish { remove, publish }) => {
                                    &&& entries_view(kept@) == entries_view(planned@)
                                    &&& paths_view(remove@) == paths_view(p.remove@)
                                    &&& entries_view(publish@) == entries_view(planned@)
                                },
                                _ => false,
                            },
                            Err(f) => final(self).stage is Finished && a == (Action::Abort {
                                error: f.error,
                                remove_environment: f.remove_environment,
                            }),
                        }
                    }
                },
                (Stage::Publishing { planned }, Event::Published) => {
                    &&& final(self).had_receipt == old(self).had_receipt
                    &&& final(self).stage is Finished
                    &&& match a {
                        Action::WriteReceipt { receipt } => receipt@ == receipt_of(
                            requirements_view(old(self).requirements@),
                            opt_view(old(self).python),
                            entries_view(planned@),
                        ),
                        _ => false,
                    }
                },
                _ => false,
            },
    {
        let mut stage = Stage::Finished;
        core::mem::swap(&mut self.stage, &mut stage);
        match (stage, event) {
            (Stage::Surveying, Event::Surveyed { eligible, receipt }) => {
                self.had_receipt = receipt.is_some();
                let plan = match &receipt {
                    Some(t) => plan_install(eligible, Some(t), &self.requirements, self.flags),
                    None => plan_install(eligible, None, &self.requirements, self.flags),
                };
                match plan {
                    Plan::AlreadyInstalled => Action::AlreadyInstalled,
                    Plan::Update => {
                        self.stage = Stage::Building { origin: EnvironmentOrigin::Reused };
                        Action::UpdateEnvironment { requirements: copy_requirements(&self.requirements) }
                    },
                    Plan::Create => {
                        self.stage = Stage::Resolving;
                        Action::Resolve { requirements: copy_requirements(&self.requirements) }
                    },
                }
            },
            (Stage::Resolving, Event::Resolved) => {
                self.stage = Stage::Building { origin: EnvironmentOrigin::Fresh };
                Action::CreateEnvironment
            },
            (Stage::Building { origin }, Event::EnvironmentReady) => {
                self.stage = Stage::Discovering { origin };
                Action::DiscoverEntryPoints
            },
            (Stage::Discovering { origin }, Event::EntryPointsFound { dir, found }) => {
                let planned = target_entry_points(&dir, &found);
                if planned.len() == 0 {
                    proof {
                        if found@.len() > 0 {
                            assert(entries_view(planned@).to_set().contains(
                                crate::entry_point::entry_of(dir@, found@[0].0@, found@[0].1@),
                            ));
                        }
                    }
                    match settle_entry_points(&self.tool, planned, &Vec::new(), origin, self.had_receipt, self.flags.force) {
                        Err(f) => Action::Abort { error: f.error, remove_environment: f.remove_environment },
                        Ok(p) => Action::Publish { remove: p.remove, publish: p.publish },
                    }
                } else {
                    proof {
                        assert(found@.len() > 0) by {
                            assert(planned@.len() > 0);
                            assert(entries_view(planned@).to_set().contains(entries_view(planned@)[0]));
                        }
                    }
                    let targets = targets_of(&planned);
                    self.stage = Stage::Checking { origin, planned };
                    Action::CheckTargets { targets }
                }
            },
            (Stage::Checking { origin, planned }, Event::TargetsChecked { exists }) => {
                let kept = copy_entries(&planned);
                let ghost pv = planned@;
                let r = settle_entry_points(&self.tool, planned, &exists, origin, self.had_receipt, self.flags.force);
                assert(settled(self.tool, pv, exists@, origin, self.had_receipt, self.flags.force, r));
                match r {
                    Ok(p) => {
                        self.stage = Stage::Publishing { planned: kept };
                        Action::Publish { remove: p.remove, publish: p.publish }
                    },
                    Err(f) => Action::Abort { error: f.error, remove_environment: f.remove_environment },
                }
            },
            (Stage::Publishing { planned }, Event::Published) => {
                let receipt = ToolReceipt::new(
                    copy_requirements(&self.requirements),
                    match &self.python {
                        Some(p) => Some(p.clone()),
                        None => None,
                    },
                    &planned,
                );
                assert(Seq::new(planned@.len(), |i: int| planned@[i]@) =~= entries_view(planned@));
                Action::WriteReceipt { receipt }
            },
            (_, _) => {
                // `awaits` rules out every other pairing.
                proof {
                    assert(false);
                }
                Action::AlreadyInstalled
            },
        }
    }
}

} // verus!
