//! Requirements of a tool and the positional comparison of requirement lists.

use vstd::prelude::*;

verus! {

/// A resolved requirement: the normalized package name and the requirement
/// in its canonical written form.
#[derive(Clone, Debug, PartialEq, Eq)]
pub struct Requirement {
    pub name: String,
    pub text: String,
}

impl View for Requirement {
    type V = (Seq<char>, Seq<char>);

    open spec fn view(&self) -> (Seq<char>, Seq<char>) {
        (self.name@, self.text@)
    }
}

pub open spec fn requirements_view(s: Seq<Requirement>) -> Seq<(Seq<char>, Seq<char>)> {
    Seq::new(s.len(), |i: int| s[i]@)
}

impl Requirement {
    pub fn new(name: String, text: String) -> (r: Requirement)
        ensures
            r.name@ == name@,
            r.text@ == text@,
    {
        Requirement { name, text }
    }

    pub fn copy(&self) -> (r: Requirement)
        ensures
            r@ == self@,
    {
        Requirement { name: self.name.clone(), text: self.text.clone() }
    }
}

/// Whether two requirement lists match item by item, in order.
pub fn same_requirements(a: &Vec<Requirement>, b: &Vec<Requirement>) -> (r: bool)
    ensures
        r == (requirements_view(a@) == requirements_view(b@)),
{
    if a.len() != b.len() {
        assert(requirements_view(a@).len() != requirements_view(b@).len());
        return false;
    }
    let mut i: usize = 0;
    while i < a.len()
        invariant
            a@.len() == b@.len(),
            i <= a@.len(),
            forall|j: int| 0 <= j < i ==> (#[trigger] a@[j])@ == b@[j]@,
        decreases a.len() - i,
    {
        if !(a[i].name == b[i].name && a[i].text == b[i].text) {
            assert(requirements_view(a@)[i as int] != requirements_view(b@)[i as int]);
            return false;
        }
        i = i + 1;
    }
    assert(requirements_view(a@) =~= requirements_view(b@));
    true
}

/// The requirement list of an install: the primary requirement, then the
/// auxiliary ones in the order given.
pub fn candidate_requirements(primary: Requirement, auxiliary: Vec<Requirement>) -> (r: Vec<
    Requirement,
>)
    ensures
        requirements_view(r@) == seq![primary@] + requirements_view(auxiliary@),
{
    let ghost p = primary@;
    let ghost aux = requirements_view(auxiliary@);
    let mut r: Vec<Requirement> = Vec::new();
    r.push(primary);
    let mut aux_items = auxiliary;
    let mut i: usize = 0;
    let n = aux_items.len();
    while i < n
        invariant
            n == aux_items@.len(),
            aux == requirements_view(aux_items@),
            i <= n,
            r@.len() == i + 1,
            requirements_view(r@) == seq![p] + aux.subrange(0, i as int),
        decreases n - i,
    {
        let item = aux_items[i].copy();
        let ghost before = r@;
        r.push(item);
        assert(r@ == before.push(item));
        assert(item@ == aux[i as int]);
        assert(requirements_view(r@) =~= seq![p] + aux.subrange(0, i + 1)) by {
            let target = seq![p] + aux.subrange(0, i + 1);
            let prev = seq![p] + aux.subrange(0, i as int);
            assert forall|j: int| 0 <= j < r@.len() implies requirements_view(r@)[j]
                == target[j] by {
                if j < before.len() {
                    assert(r@[j] == before[j]);
                    assert(requirements_view(before)[j] == prev[j]);
                    assert(prev[j] == target[j]);
                }
            }
        }
        i = i + 1;
    }
    assert(aux.subrange(0, n as int) =~= aux);
    r
}

/// A copy of a requirement list.
pub fn copy_requirements(v: &Vec<Requirement>) -> (r: Vec<Requirement>)
    ensures
        requirements_view(r@) == requirements_view(v@),
{
    let mut r: Vec<Requirement> = Vec::new();
    let mut i: usize = 0;
    while i < v.len()
        invariant
            i <= v@.len(),
            r@.len() == i,
            forall|j: int| 0 <= j < i ==> (#[trigger] r@[j])@ == v@[j]@,
        decreases v.len() - i,
    {
        r.push(v[i].copy());
        i = i + 1;
    }
    assert(requirements_view(r@) =~= requirements_view(v@));
    r
}

} // verus!
