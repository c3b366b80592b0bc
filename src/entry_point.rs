//! Entry points: where each executable of a tool is published, and the
//! deterministic order in which they are handled.

use crate::order::{compare_str, lemma_str_strict_total, str_lt};
use crate::path::{file_name, lemma_path_strict_total, path_lt, PartModel, ToolPath};
use std::cmp::Ordering;
use vstd::prelude::*;

verus! {

/// An executable of a tool: its name, its file inside the environment, and
/// where it is published.
#[derive(Clone, Debug, PartialEq, Eq)]
pub struct EntryPoint {
    pub name: String,
    pub source: ToolPath,
    pub target: ToolPath,
}

/// What an entry point stands for.
pub ghost struct EntryModel {
    pub name: Seq<char>,
    pub source: Seq<PartModel>,
    pub target: Seq<PartModel>,
}

impl View for EntryPoint {
    type V = EntryModel;

    open spec fn view(&self) -> EntryModel {
        EntryModel { name: self.name@, source: self.source@, target: self.target@ }
    }
}

pub open spec fn entries_view(s: Seq<EntryPoint>) -> Seq<EntryModel> {
    Seq::new(s.len(), |i: int| s[i]@)
}

/// The order of entry points: by name, then source, then target.
pub open spec fn entry_lt(a: EntryModel, b: EntryModel) -> bool {
    str_lt(a.name, b.name) || (a.name == b.name && (path_lt(a.source, b.source) || (a.source
        == b.source && path_lt(a.target, b.target))))
}

/// Strictly increasing, hence free of duplicates.
pub open spec fn sorted_unique(s: Seq<EntryModel>) -> bool {
    forall|i: int, j: int| 0 <= i < j < s.len() ==> entry_lt(#[trigger] s[i], #[trigger] s[j])
}

/// Where an entry point called `name`, with file `source`, is published in
/// `dir`: under the source's file name, or under `name` where the source has none.
pub open spec fn target_of(dir: Seq<PartModel>, name: Seq<char>, source: Seq<PartModel>) -> Seq<
    PartModel,
> {
    dir.push(
        PartModel::Normal(
            match file_name(source) {
                Some(f) => f,
                None => name,
            },
        ),
    )
}

pub open spec fn entry_of(dir: Seq<PartModel>, name: Seq<char>, source: Seq<PartModel>) -> EntryModel {
    EntryModel { name, source, target: target_of(dir, name, source) }
}

/// The entry points that discovered `(name, source)` pairs give in `dir`.
pub open spec fn planned_set(dir: Seq<PartModel>, found: Seq<(String, ToolPath)>) -> Set<
    EntryModel,
> {
    Set::new(
        |e: EntryModel|
            exists|i: int| 0 <= i < found.len() && e == entry_of(dir, found[i].0@, found[i].1@),
    )
}

/// `r` lists the entry points of `planned_set(dir, found)` in increasing order.
pub open spec fn is_plan(dir: Seq<PartModel>, found: Seq<(String, ToolPath)>, r: Seq<EntryModel>) -> bool {
    &&& sorted_unique(r)
    &&& r.to_set() == planned_set(dir, found)
}

pub proof fn lemma_entry_strict_total()
    ensures
        forall|x: EntryModel| !#[trigger] entry_lt(x, x),
        forall|x: EntryModel, y: EntryModel, z: EntryModel|
            #[trigger] entry_lt(x, y) && #[trigger] entry_lt(y, z) ==> entry_lt(x, z),
        forall|x: EntryModel, y: EntryModel|
            x != y ==> #[trigger] entry_lt(x, y) || #[trigger] entry_lt(y, x),
{
    lemma_str_strict_total();
    lemma_path_strict_total();
}

/// Compares two entry points by name, then source, then target.
pub fn compare_entry(a: &EntryPoint, b: &EntryPoint) -> (r: Ordering)
    ensures
        (r == Ordering::Less) == entry_lt(a@, b@),
        (r == Ordering::Equal) == (a@ == b@),
        (r == Ordering::Greater) == entry_lt(b@, a@),
{
    proof {
        lemma_entry_strict_total();
    }
    match compare_str(&a.name, &b.name) {
        Ordering::Equal => match a.source.compare(&b.source) {
            Ordering::Equal => a.target.compare(&b.target),
            o => o,
        },
        o => o,
    }
}

/// Where an entry point called `name`, with file `source`, is published in `dir`.
pub fn target_path(dir: &ToolPath, name: &String, source: &ToolPath) -> (r: ToolPath)
    ensures
        r@ == target_of(dir@, name@, source@),
{
    match source.file_name() {
        Some(f) => dir.join(&f),
        None => dir.join(name),
    }
}

/// Inserts `e` into a strictly increasing list, unless it holds `e` already.
pub fn insert_entry(v: &mut Vec<EntryPoint>, e: EntryPoint)
    requires
        sorted_unique(entries_view(old(v)@)),
    ensures
        sorted_unique(entries_view(final(v)@)),
        entries_view(final(v)@).to_set() == entries_view(old(v)@).to_set().insert(e@),
{
    proof {
        lemma_entry_strict_total();
    }
    let ghost s = entries_view(v@);
    let mut k: usize = 0;
    while k < v.len() && matches!(compare_entry(&v[k], &e), Ordering::Less)
        invariant
            s == entries_view(v@),
            k <= v@.len(),
            forall|j: int| 0 <= j < k ==> entry_lt(#[trigger] s[j], e@),
        decreases v.len() - k,
    {
        k = k + 1;
    }
    if k < v.len() && matches!(compare_entry(&v[k], &e), Ordering::Equal) {
        assert(s.to_set() =~= s.to_set().insert(e@)) by {
            assert(s[k as int] == e@);
        }
        return ;
    }
    let ghost ev = e@;
    v.insert(k, e);
    let ghost t = entries_view(v@);
    assert(t =~= s.insert(k as int, ev));
    assert forall|i: int, j: int| 0 <= i < j < t.len() implies entry_lt(
        #[trigger] t[i],
        #[trigger] t[j],
    ) by {
        if j < k {
        } else if j == k {
        } else if i < k {
            assert(entry_lt(s[i], ev));
            assert(entry_lt(ev, s[k as int]));
            if j - 1 > k {
                assert(entry_lt(s[k as int], s[j - 1]));
            }
        } else if i == k {
            assert(entry_lt(ev, s[k as int]));
            if j - 1 > k {
                assert(entry_lt(s[k as int], s[j - 1]));
            }
        } else {
            assert(t[i] == s[i - 1]);
        }
    }
    assert(t.to_set() =~= s.to_set().insert(ev)) by {
        assert forall|x: EntryModel| t.contains(x) implies s.contains(x) || x == ev by {
            let j = choose|j: int| 0 <= j < t.len() && t[j] == x;
            if j < k {
                assert(s[j] == x);
            } else if j > k {
                assert(s[j - 1] == x);
            }
        }
        assert forall|x: EntryModel| s.contains(x) implies t.contains(x) by {
            let j = choose|j: int| 0 <= j < s.len() && s[j] == x;
            if j < k {
                assert(t[j] == x);
            } else {
                assert(t[j + 1] == x);
            }
        }
        assert(t[k as int] == ev);
    }
}

/// The entry points of a tool from the `(name, source)` pairs that discovery
/// found: each published in `dir`, ordered, and without duplicates.
pub fn target_entry_points(dir: &ToolPath, found: &Vec<(String, ToolPath)>) -> (r: Vec<EntryPoint>)
    ensures
        is_plan(dir@, found@, entries_view(r@)),
{
    let mut r: Vec<EntryPoint> = Vec::new();
    let mut i: usize = 0;
    assert(entries_view(r@).to_set() =~= Set::empty());
    while i < found.len()
        invariant
            i <= found@.len(),
            sorted_unique(entries_view(r@)),
            entries_view(r@).to_set() == planned_set(dir@, found@.subrange(0, i as int)),
        decreases found.len() - i,
    {
        let name = &found[i].0;
        let source = &found[i].1;
        let e = EntryPoint { name: name.clone(), source: source.copy(), target: target_path(dir, name, source) };
        let ghost ev = e@;
        insert_entry(&mut r, e);
        assert(planned_set(dir@, found@.subrange(0, i + 1)) =~= planned_set(
            dir@,
            found@.subrange(0, i as int),
        ).insert(ev)) by {
            let f0 = found@.subrange(0, i as int);
            let f1 = found@.subrange(0, i + 1);
            assert(ev == entry_of(dir@, f1[i as int].0@, f1[i as int].1@));
            assert forall|x: EntryModel| planned_set(dir@, f1).contains(x) implies planned_set(dir@, f0).contains(x) || x == ev by {
                let j = choose|j: int| 0 <= j < f1.len() && x == entry_of(dir@, f1[j].0@, f1[j].1@);
                if j < i {
                    assert(f0[j] == f1[j]);
                }
            }
            assert forall|x: EntryModel| planned_set(dir@, f0).contains(x) implies planned_set(dir@, f1).contains(x) by {
                let j = choose|j: int| 0 <= j < f0.len() && x == entry_of(dir@, f0[j].0@, f0[j].1@);
                assert(f0[j] == f1[j]);
            }
        }
        i = i + 1;
    }
    assert(found@.subrange(0, i as int) =~= found@);
    r
}

/// The `(name, source)` pairs that a discovery found.
pub open spec fn found_pairs(found: Seq<(String, ToolPath)>) -> Set<(Seq<char>, Seq<PartModel>)> {
    Set::new(
        |p: (Seq<char>, Seq<PartModel>)|
            exists|i: int| 0 <= i < found.len() && p == (found[i].0@, found[i].1@),
    )
}

/// Two strictly increasing sequences with the same items are equal.
pub proof fn lemma_sorted_unique_by_items(a: Seq<EntryModel>, b: Seq<EntryModel>)
    requires
        sorted_unique(a),
        sorted_unique(b),
        a.to_set() == b.to_set(),
    ensures
        a == b,
    decreases a.len(),
{
    lemma_entry_strict_total();
    if a.len() == 0 {
        if b.len() > 0 {
            assert(b.to_set().contains(b[0]));
        }
        assert(a =~= b);
    } else {
        assert(a.to_set().contains(a[0]));
        assert(b.contains(a[0]));
        assert(b.len() > 0);
        assert(b.to_set().contains(b[0]));
        assert(a.contains(b[0]));
        let j = choose|j: int| 0 <= j < b.len() && b[j] == a[0];
        let i = choose|i: int| 0 <= i < a.len() && a[i] == b[0];
        if j > 0 {
            assert(entry_lt(b[0], a[0]));
            if i > 0 {
                assert(entry_lt(a[0], b[0]));
            }
            assert(false);
        }
        let ta = a.drop_first();
        let tb = b.drop_first();
        assert(ta.to_set() =~= tb.to_set()) by {
            assert forall|x: EntryModel| ta.contains(x) implies tb.contains(x) by {
                let k = choose|k: int| 0 <= k < ta.len() && ta[k] == x;
                assert(a[k + 1] == x);
                assert(entry_lt(a[0], x));
                assert(a.to_set().contains(x));
                let m = choose|m: int| 0 <= m < b.len() && b[m] == x;
                assert(m != 0);
                assert(tb[m - 1] == x);
            }
            assert forall|x: EntryModel| tb.contains(x) implies ta.contains(x) by {
                let k = choose|k: int| 0 <= k < tb.len() && tb[k] == x;
                assert(b[k + 1] == x);
                assert(entry_lt(b[0], x));
                assert(b.to_set().contains(x));
                let m = choose|m: int| 0 <= m < a.len() && a[m] == x;
                assert(m != 0);
                assert(ta[m - 1] == x);
            }
        }
        lemma_sorted_unique_by_items(ta, tb);
        assert(a =~= seq![a[0]] + ta);
        assert(b =~= seq![b[0]] + tb);
    }
}

/// Where two discoveries found the same `(name, source)` pairs, in any order and
/// with any repetition, the planned entry points are the same, targets
/// included, in the same order.
pub proof fn lemma_plan_deterministic(
    dir: Seq<PartModel>,
    found1: Seq<(String, ToolPath)>,
    found2: Seq<(String, ToolPath)>,
    r1: Seq<EntryModel>,
    r2: Seq<EntryModel>,
)
    requires
        found_pairs(found1) == found_pairs(found2),
        is_plan(dir, found1, r1),
        is_plan(dir, found2, r2),
    ensures
        r1 == r2,
{
    assert(planned_set(dir, found1) =~= planned_set(dir, found2)) by {
        assert forall|x: EntryModel| planned_set(dir, found1).contains(x) implies planned_set(dir, found2).contains(x) by {
            let i = choose|i: int| 0 <= i < found1.len() && x == entry_of(dir, found1[i].0@, found1[i].1@);
            assert(found_pairs(found1).contains((found1[i].0@, found1[i].1@)));
            let j = choose|j: int| 0 <= j < found2.len() && (found1[i].0@, found1[i].1@) == (found2[j].0@, found2[j].1@);
            assert(x == entry_of(dir, found2[j].0@, found2[j].1@));
        }
        assert forall|x: EntryModel| planned_set(dir, found2).contains(x) implies planned_set(dir, found1).contains(x) by {
            let i = choose|i: int| 0 <= i < found2.len() && x == entry_of(dir, found2[i].0@, found2[i].1@);
            assert(found_pairs(found2).contains((found2[i].0@, found2[i].1@)));
            let j = choose|j: int| 0 <= j < found1.len() && (found2[i].0@, found2[i].1@) == (found1[j].0@, found1[j].1@);
            assert(x == entry_of(dir, found1[j].0@, found1[j].1@));
        }
    }
    lemma_sorted_unique_by_items(r1, r2);
}

impl EntryPoint {
    pub fn copy(&self) -> (r: EntryPoint)
        ensures
            r@ == self@,
    {
        EntryPoint { name: self.name.clone(), source: self.source.copy(), target: self.target.copy() }
    }
}

/// A copy of a list of entry points.
pub fn copy_entries(v: &Vec<EntryPoint>) -> (r: Vec<EntryPoint>)
    ensures
        entries_view(r@) == entries_view(v@),
{
    let mut r: Vec<EntryPoint> = Vec::new();
    let mut i: usize = 0;
    while i < v.len()
        invariant
            i <= v@.len(),
            r@.len() == i,
            forall|j: int| 0 <= j < i ==> (#[trigger] r@[j])@ == v@[j]@,
        decreases v.len() - i,
    {
        r.push(v[i].copy());
        i = i + 1;
    }
    assert(entries_view(r@) =~= entries_view(v@));
    r
}

/// The targets of a list of entry points, in order.
pub fn targets_of(v: &Vec<EntryPoint>) -> (r: Vec<ToolPath>)
    ensures
        r@.len() == v@.len(),
        forall|j: int| 0 <= j < v@.len() ==> (#[trigger] r@[j])@ == v@[j].target@,
{
    let mut r: Vec<ToolPath> = Vec::new();
    let mut i: usize = 0;
    while i < v.len()
        invariant
            i <= v@.len(),
            r@.len() == i,
            forall|j: int| 0 <= j < i ==> (#[trigger] r@[j])@ == v@[j].target@,
        decreases v.len() - i,
    {
        r.push(v[i].target.copy());
        i = i + 1;
    }
    r
}

} // verus!
