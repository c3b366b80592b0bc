//! The decisions of a tool install: whether to reuse, update or create the
//! environment, and how to publish entry points without clobbering files that
//! belong to something else.

use crate::entry_point::{entries_view, EntryModel, EntryPoint};
use crate::path::{file_name, PartModel, ToolPath};
use crate::receipt::{receipt_of, ReceiptModel, ToolReceipt};
use crate::requirement::{requirements_view, same_requirements, Requirement};
use itertools::Itertools;
use vstd::prelude::*;
use vstd::string::*;

verus! {

/// Why an install stopped.
#[derive(Clone, Debug, PartialEq, Eq)]
pub enum InstallError {
    /// The source given for the tool names another package than the one requested.
    NameConflict { requested: String, resolved: String },
    /// The installed package exposes no executables.
    NoEntryPoints { tool: String },
    /// Files not known to belong to this tool stand where its executables go;
    /// `names` are their file names.
    EntryPointConflict { names: Vec<String> },
}

/// What the caller asked for beyond the requirements.
#[derive(Clone, Copy, Debug, PartialEq, Eq, Structural)]
pub struct InstallFlags {
    pub force: bool,
    pub reinstall: bool,
    pub upgrade: bool,
}

/// How an install proceeds once the request and what is on disk are known.
#[derive(Clone, Copy, Debug, PartialEq, Eq, Structural)]
pub enum Plan {
    /// The tool is installed as asked: nothing is to be done.
    AlreadyInstalled,
    /// Sync the existing environment with the requirements.
    Update,
    /// Resolve the requirements, then create a fresh environment and sync it.
    Create,
}

/// Whether the environment used by an install was made by it.
#[derive(Clone, Copy, Debug, PartialEq, Eq, Structural)]
pub enum EnvironmentOrigin {
    Fresh,
    Reused,
}

/// The source for a tool given apart from its name must resolve to a package
/// of that name.
pub fn check_source_name(requested: &String, resolved: &String) -> (r: Result<(), InstallError>)
    ensures
        r is Ok <==> requested@ == resolved@,
        match r {
            Err(InstallError::NameConflict { requested: a, resolved: b }) => a@ == requested@ && b@
                == resolved@,
            Err(_) => false,
            Ok(_) => true,
        },
{
    if *requested == *resolved {
        Ok(())
    } else {
        Err(InstallError::NameConflict { requested: requested.clone(), resolved: resolved.clone() })
    }
}

/// An existing environment may serve the install where no interpreter was
/// requested, or where its interpreter satisfies the request.
pub fn environment_eligible(present: bool, python_requested: bool, satisfied: bool) -> (r: bool)
    ensures
        r == (present && (!python_requested || satisfied)),
{
    present && (!python_requested || satisfied)
}

pub open spec fn plan_of(
    eligible: bool,
    recorded: Option<Seq<(Seq<char>, Seq<char>)>>,
    candidate: Seq<(Seq<char>, Seq<char>)>,
    force: bool,
    reinstall: bool,
    upgrade: bool,
) -> Plan {
    if !eligible {
        Plan::Create
    } else if recorded == Some(candidate) && !force && !reinstall && !upgrade {
        Plan::AlreadyInstalled
    } else {
        Plan::Update
    }
}

/// Chooses between reuse, update and creation. `eligible` says whether an
/// existing environment may serve the install, `receipt` is the tool's current
/// receipt, and `candidate` the requirements asked for now.
pub fn plan_install(
    eligible: bool,
    receipt: Option<&ToolReceipt>,
    candidate: &Vec<Requirement>,
    flags: InstallFlags,
) -> (r: Plan)
    ensures
        r == plan_of(
            eligible,
            match receipt {
                Some(t) => Some(t@.requirements),
                None => None,
            },
            requirements_view(candidate@),
            flags.force,
            flags.reinstall,
            flags.upgrade,
        ),
{
    if !eligible {
        return Plan::Create;
    }
    match receipt {
        Some(t) => {
            if same_requirements(&t.requirements, candidate) && !flags.force && !flags.reinstall
                && !flags.upgrade {
                Plan::AlreadyInstalled
            } else {
                Plan::Update
            }
        },
        None => Plan::Update,
    }
}

/// The paths to remove before publishing, and the entry points to publish.
#[derive(Clone, Debug, PartialEq, Eq)]
pub struct Publication {
    pub remove: Vec<ToolPath>,
    pub publish: Vec<EntryPoint>,
}

/// An install that failed, and whether the environment is to be removed.
#[derive(Clone, Debug, PartialEq, Eq)]
pub struct Failure {
    pub error: InstallError,
    pub remove_environment: bool,
}

/// The targets of the entry points whose target exists.
pub open spec fn existing_targets(planned: Seq<EntryModel>, exists: Seq<bool>) -> Seq<Seq<PartModel>>
    decreases planned.len(),
{
    if planned.len() == 0 || exists.len() == 0 {
        Seq::empty()
    } else {
        let rest = existing_targets(planned.drop_last(), exists.drop_last());
        if exists.last() {
            rest.push(planned.last().target)
        } else {
            rest
        }
    }
}

/// The name a conflicting target is reported by: its file name.
pub open spec fn conflict_name(e: EntryModel) -> Seq<char> {
    match file_name(e.target) {
        Some(f) => f,
        None => e.name,
    }
}

/// The names of the entry points whose target exists.
pub open spec fn existing_names(planned: Seq<EntryModel>, exists: Seq<bool>) -> Seq<Seq<char>>
    decreases planned.len(),
{
    if planned.len() == 0 || exists.len() == 0 {
        Seq::empty()
    } else {
        let rest = existing_names(planned.drop_last(), exists.drop_last());
        if exists.last() {
            rest.push(conflict_name(planned.last()))
        } else {
            rest
        }
    }
}

pub open spec fn paths_view(s: Seq<ToolPath>) -> Seq<Seq<PartModel>> {
    Seq::new(s.len(), |i: int| s[i]@)
}

pub open spec fn strings_view(s: Seq<String>) -> Seq<Seq<char>> {
    Seq::new(s.len(), |i: int| s[i]@)
}

/// Some target already exists.
pub open spec fn any_exists(exists: Seq<bool>) -> bool {
    exists|i: int| 0 <= i < exists.len() && exists[i]
}

/// Settles the entry points found for `tool` against the files on disk:
/// `exists[i]` says whether the target of `planned[i]` exists, `origin` whether
/// the environment was made by this install, `had_receipt` whether the tool
/// had a receipt before it.
///
/// Without entry points the install fails. Existing targets are overwritten
/// only with `force` or where the tool had a receipt; otherwise the install
/// fails and names them. On either failure the environment is removed only
/// where this install created it.
pub fn settle_entry_points(
    tool: &String,
    planned: Vec<EntryPoint>,
    exists: &Vec<bool>,
    origin: EnvironmentOrigin,
    had_receipt: bool,
    force: bool,
) -> (r: Result<Publication, Failure>)
    requires
        exists@.len() == planned@.len(),
    ensures
        match r {
            Ok(p) => {
                &&& planned@.len() > 0
                &&& !any_exists(exists@) || force || had_receipt
                &&& paths_view(p.remove@) == existing_targets(entries_view(planned@), exists@)
                &&& entries_view(p.publish@) == entries_view(planned@)
            },
            Err(f) => {
                &&& f.remove_environment == (origin == EnvironmentOrigin::Fresh)
                &&& match f.error {
                    InstallError::NoEntryPoints { tool: t } => planned@.len() == 0 && t@ == tool@,
                    InstallError::EntryPointConflict { names } => {
                        &&& planned@.len() > 0
                        &&& any_exists(exists@) && !force && !had_receipt
                        &&& strings_view(names@) == existing_names(entries_view(planned@), exists@)
                    },
                    InstallError::NameConflict { .. } => false,
                }
            },
        },
{
    let remove_environment = match origin {
        EnvironmentOrigin::Fresh => true,
        EnvironmentOrigin::Reused => false,
    };
    if planned.len() == 0 {
        return Err(Failure { error: InstallError::NoEntryPoints { tool: tool.clone() }, remove_environment });
    }
    let ghost pv = entries_view(planned@);
    let mut remove: Vec<ToolPath> = Vec::new();
    let mut names: Vec<String> = Vec::new();
    let mut found = false;
    let mut i: usize = 0;
    while i < planned.len()
        invariant
            pv == entries_view(planned@),
            exists@.len() == planned@.len(),
            i <= planned@.len(),
            paths_view(remove@) == existing_targets(pv.subrange(0, i as int), exists@.subrange(0, i as int)),
            strings_view(names@) == existing_names(pv.subrange(0, i as int), exists@.subrange(0, i as int)),
            found == exists|j: int| 0 <= j < i && exists@[j],
        decreases planned.len() - i,
    {
        let ghost p0 = pv.subrange(0, i as int);
        let ghost e0 = exists@.subrange(0, i as int);
        let ghost p1 = pv.subrange(0, i + 1);
        let ghost e1 = exists@.subrange(0, i + 1);
        assert(p1.drop_last() =~= p0);
        assert(e1.drop_last() =~= e0);
        assert(p1.last() == planned@[i as int]@);
        if exists[i] {
            let ghost r0 = remove@;
            let ghost n0 = names@;
            let e = &planned[i];
            remove.push(e.target.copy());
            let name = match e.target.file_name() {
                Some(f) => f,
                None => e.name.clone(),
            };
            names.push(name);
            assert(paths_view(remove@) =~= paths_view(r0).push(e.target@));
            assert(strings_view(names@) =~= strings_view(n0).push(conflict_name(e@)));
            found = true;
        }
        i = i + 1;
    }
    assert(pv.subrange(0, i as int) =~= pv);
    assert(exists@.subrange(0, i as int) =~= exists@);
    if found && !force && !had_receipt {
        Err(Failure { error: InstallError::EntryPointConflict { names }, remove_environment })
    } else {
        Ok(Publication { remove, publish: planned })
    }
}

/// The items of `items` with `sep` between each two.
pub open spec fn joined(items: Seq<Seq<char>>, sep: Seq<char>) -> Seq<char>
    decreases items.len(),
{
    if items.len() == 0 {
        Seq::empty()
    } else if items.len() == 1 {
        items[0]
    } else {
        joined(items.drop_last(), sep) + sep + items.last()
    }
}

/// Relies on `itertools::Itertools::join`: the first item, then `sep` and the
/// next item for each further item, each item written as it is.
#[verifier::external_body]
fn join_with(items: &Vec<String>, sep: &str) -> (r: String)
    ensures
        r@ == joined(strings_view(items@), sep@),
{
    items.iter().join(sep)
}

/// The message of an entry-point conflict over the files `names`.
pub fn conflict_message(names: &Vec<String>) -> (r: String)
    ensures
        r@ == "Entry point"@ + (if names@.len() == 1 {
            ""@
        } else {
            "s"@
        }) + " for tool already "@ + (if names@.len() == 1 {
            "exists"@
        } else {
            "exist"@
        }) + ": "@ + joined(strings_view(names@), ", "@) + " (use `--force` to overwrite)"@,
{
    let single = names.len() == 1;
    let listing = join_with(names, ", ");
    let r = String::from_str("Entry point");
    let r = r.concat(if single { "" } else { "s" });
    let r = r.concat(" for tool already ");
    let r = r.concat(if single { "exists" } else { "exist" });
    let r = r.concat(": ");
    let r = r.concat(listing.as_str());
    r.concat(" (use `--force` to overwrite)")
}

/// Installing again, without force, reinstall or upgrade, the very requirements
/// that the tool's receipt records, where its environment may serve, is planned
/// as already installed: nothing is resolved, synced, removed, published or
/// recorded.
pub proof fn lemma_repeat_install_is_noop(
    candidate: Seq<(Seq<char>, Seq<char>)>,
    python: Option<Seq<char>>,
    entries: Seq<EntryModel>,
)
    ensures
        plan_of(true, Some(receipt_of(candidate, python, entries).requirements), candidate, false, false, false)
            == Plan::AlreadyInstalled,
{
}

/// Where the auxiliary requirements differ from those the receipt records, the
/// install is never skipped: an environment that may serve is synced, otherwise
/// a fresh one is made; and the receipt then written records the new list.
pub proof fn lemma_changed_auxiliaries_update(
    primary: (Seq<char>, Seq<char>),
    old_auxiliary: Seq<(Seq<char>, Seq<char>)>,
    new_auxiliary: Seq<(Seq<char>, Seq<char>)>,
    old_receipt: ReceiptModel,
    python: Option<Seq<char>>,
    entries: Seq<EntryModel>,
    eligible: bool,
    force: bool,
    reinstall: bool,
    upgrade: bool,
)
    requires
        old_auxiliary != new_auxiliary,
        old_receipt.requirements == seq![primary] + old_auxiliary,
    ensures
        plan_of(eligible, Some(old_receipt.requirements), seq![primary] + new_auxiliary, force, reinstall, upgrade)
            == if eligible {
            Plan::Update
        } else {
            Plan::Create
        },
        receipt_of(seq![primary] + new_auxiliary, python, entries).requirements == seq![primary]
            + new_auxiliary,
{
    assert((seq![primary] + old_auxiliary).drop_first() =~= old_auxiliary);
    assert((seq![primary] + new_auxiliary).drop_first() =~= new_auxiliary);
}

/// A target that exists is among the paths removed before publishing, and
/// among the names reported in a conflict.
pub proof fn lemma_existing_target_listed(planned: Seq<EntryModel>, exists: Seq<bool>, i: int)
    requires
        exists.len() == planned.len(),
        0 <= i < planned.len(),
        exists[i],
    ensures
        any_exists(exists),
        existing_targets(planned, exists).contains(planned[i].target),
        existing_names(planned, exists).contains(conflict_name(planned[i])),
    decreases planned.len(),
{
    let n = planned.len() - 1;
    if i < n {
        assert(planned.drop_last()[i] == planned[i]);
        assert(exists.drop_last()[i] == exists[i]);
        lemma_existing_target_listed(planned.drop_last(), exists.drop_last(), i);
        let rt = existing_targets(planned.drop_last(), exists.drop_last());
        let rn = existing_names(planned.drop_last(), exists.drop_last());
        if exists.last() {
            let k = choose|k: int| 0 <= k < rt.len() && rt[k] == planned[i].target;
            assert(rt.push(planned.last().target)[k] == planned[i].target);
            let m = choose|m: int| 0 <= m < rn.len() && rn[m] == conflict_name(planned[i]);
            assert(rn.push(conflict_name(planned.last()))[m] == conflict_name(planned[i]));
        }
    } else {
        let rt = existing_targets(planned.drop_last(), exists.drop_last());
        let rn = existing_names(planned.drop_last(), exists.drop_last());
        assert(rt.push(planned.last().target)[rt.len() as int] == planned[i].target);
        assert(rn.push(conflict_name(planned.last()))[rn.len() as int] == conflict_name(planned[i]));
    }
}

} // verus!
