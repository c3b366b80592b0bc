//! The receipt of an installed tool: what was installed, and where its
//! executables were published.

use crate::entry_point::{EntryModel, EntryPoint};
use crate::path::{PartModel, ToolPath};
use crate::requirement::{requirements_view, Requirement};
use vstd::prelude::*;

verus! {

/// An executable recorded in a receipt.
#[derive(Clone, Debug, PartialEq, Eq)]
pub struct ReceiptEntry {
    pub name: String,
    pub target: ToolPath,
}

impl View for ReceiptEntry {
    type V = (Seq<char>, Seq<PartModel>);

    open spec fn view(&self) -> (Seq<char>, Seq<PartModel>) {
        (self.name@, self.target@)
    }
}

/// The persisted record of a tool's last successful install.
#[derive(Clone, Debug, PartialEq, Eq)]
pub struct ToolReceipt {
    pub requirements: Vec<Requirement>,
    pub python: Option<String>,
    pub entry_points: Vec<ReceiptEntry>,
}

/// What a receipt stands for.
pub ghost struct ReceiptModel {
    pub requirements: Seq<(Seq<char>, Seq<char>)>,
    pub python: Option<Seq<char>>,
    pub entry_points: Seq<(Seq<char>, Seq<PartModel>)>,
}

pub open spec fn opt_view(s: Option<String>) -> Option<Seq<char>> {
    match s {
        Some(x) => Some(x@),
        None => None,
    }
}

impl View for ToolReceipt {
    type V = ReceiptModel;

    open spec fn view(&self) -> ReceiptModel {
        ReceiptModel {
            requirements: requirements_view(self.requirements@),
            python: opt_view(self.python),
            entry_points: Seq::new(self.entry_points@.len(), |i: int| self.entry_points@[i]@),
        }
    }
}

/// The receipt recorded after installing `requirements` with the interpreter
/// request `python` and publishing `entries`.
pub open spec fn receipt_of(
    requirements: Seq<(Seq<char>, Seq<char>)>,
    python: Option<Seq<char>>,
    entries: Seq<EntryModel>,
) -> ReceiptModel {
    ReceiptModel {
        requirements,
        python,
        entry_points: Seq::new(entries.len(), |i: int| (entries[i].name, entries[i].target)),
    }
}

impl ToolReceipt {
    /// The receipt of an install: its requirements, the interpreter request as
    /// it was given, and each published entry point by name and target, in order.
    pub fn new(requirements: Vec<Requirement>, python: Option<String>, entries: &Vec<EntryPoint>) -> (r: ToolReceipt)
        ensures
            r@ == receipt_of(
                requirements_view(requirements@),
                opt_view(python),
                Seq::new(entries@.len(), |i: int| entries@[i]@),
            ),
    {
        let mut recorded: Vec<ReceiptEntry> = Vec::new();
        let mut i: usize = 0;
        while i < entries.len()
            invariant
                i <= entries@.len(),
                recorded@.len() == i,
                forall|j: int| 0 <= j < i ==> (#[trigger] recorded@[j])@ == (entries@[j].name@, entries@[j].target@),
            decreases entries.len() - i,
        {
            recorded.push(ReceiptEntry { name: entries[i].name.clone(), target: entries[i].target.copy() });
            i = i + 1;
        }
        let r = ToolReceipt { requirements, python, entry_points: recorded };
        assert(r@.entry_points =~= receipt_of(
            requirements_view(r.requirements@),
            opt_view(r.python),
            Seq::new(entries@.len(), |i: int| entries@[i]@),
        ).entry_points);
        r
    }
}

} // verus!
