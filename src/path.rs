//! Filesystem paths as sequences of components, ordered as `std::path::Path` orders them.

use crate::order::{compare_str, lemma_lex_irreflexive, lemma_lex_skip, lemma_lex_total, lemma_lex_transitive, lemma_str_strict_total, lex_lt, str_lt, strict_total};
use std::cmp::Ordering;
use vstd::prelude::*;

verus! {

/// One component of a path.
#[derive(Clone, Debug, PartialEq, Eq)]
pub enum PathPart {
    /// The root directory, `/`.
    Root,
    /// `.` at the start of a relative path.
    Current,
    /// `..`.
    Parent,
    /// An ordinary file or directory name.
    Normal(String),
}

/// What a path component stands for.
pub ghost enum PartModel {
    Root,
    Current,
    Parent,
    Normal(Seq<char>),
}

impl View for PathPart {
    type V = PartModel;

    open spec fn view(&self) -> PartModel {
        match self {
            PathPart::Root => PartModel::Root,
            PathPart::Current => PartModel::Current,
            PathPart::Parent => PartModel::Parent,
            PathPart::Normal(s) => PartModel::Normal(s@),
        }
    }
}

/// A path, held as its components.
#[derive(Clone, Debug, PartialEq, Eq)]
pub struct ToolPath {
    pub parts: Vec<PathPart>,
}

/// What a sequence of components stands for.
pub open spec fn parts_view(parts: Seq<PathPart>) -> Seq<PartModel> {
    Seq::new(parts.len(), |i: int| parts[i]@)
}

impl View for ToolPath {
    type V = Seq<PartModel>;

    open spec fn view(&self) -> Seq<PartModel> {
        parts_view(self.parts@)
    }
}

pub open spec fn part_rank(p: PartModel) -> int {
    match p {
        PartModel::Root => 0,
        PartModel::Current => 1,
        PartModel::Parent => 2,
        PartModel::Normal(_) => 3,
    }
}

/// The order of components: root, `.`, `..`, then names in the order of `str`.
pub open spec fn part_order() -> spec_fn(PartModel, PartModel) -> bool {
    |a: PartModel, b: PartModel|
        part_rank(a) < part_rank(b) || match (a, b) {
            (PartModel::Normal(x), PartModel::Normal(y)) => str_lt(x, y),
            _ => false,
        }
}

/// The order of paths: lexicographic over their components.
pub open spec fn path_lt(a: Seq<PartModel>, b: Seq<PartModel>) -> bool {
    lex_lt(a, b, part_order())
}

/// The last component of a path, where it is a name.
pub open spec fn file_name(p: Seq<PartModel>) -> Option<Seq<char>> {
    if p.len() > 0 {
        match p.last() {
            PartModel::Normal(s) => Some(s),
            _ => None,
        }
    } else {
        None
    }
}

pub proof fn lemma_part_order()
    ensures
        strict_total(part_order()),
{
    lemma_str_strict_total();
    let l = part_order();
    assert forall|x: PartModel, y: PartModel| x != y implies #[trigger] l(x, y) || #[trigger] l(
        y,
        x,
    ) by {
        if let (PartModel::Normal(a), PartModel::Normal(b)) = (x, y) {
            assert(a != b);
            assert(str_lt(a, b) || str_lt(b, a));
        }
    }
    assert forall|x: PartModel, y: PartModel, z: PartModel| #[trigger] l(x, y) && #[trigger] l(
        y,
        z,
    ) implies l(x, z) by {
        if let (PartModel::Normal(a), PartModel::Normal(b), PartModel::Normal(c)) = (x, y, z) {
            assert(str_lt(a, b) && str_lt(b, c));
            assert(str_lt(a, c));
        }
    }
    assert forall|x: PartModel| !#[trigger] l(x, x) by {
        if let PartModel::Normal(a) = x {
            assert(!str_lt(a, a));
        }
    }
}

/// The order of paths is a strict total order.
pub proof fn lemma_path_strict_total()
    ensures
        forall|x: Seq<PartModel>| !#[trigger] path_lt(x, x),
        forall|x: Seq<PartModel>, y: Seq<PartModel>, z: Seq<PartModel>|
            #[trigger] path_lt(x, y) && #[trigger] path_lt(y, z) ==> path_lt(x, z),
        forall|x: Seq<PartModel>, y: Seq<PartModel>|
            x != y ==> #[trigger] path_lt(x, y) || #[trigger] path_lt(y, x),
{
    lemma_part_order();
    assert forall|x: Seq<PartModel>| !#[trigger] path_lt(x, x) by {
        lemma_lex_irreflexive(x, part_order());
    }
    assert forall|x: Seq<PartModel>, y: Seq<PartModel>, z: Seq<PartModel>|
        #[trigger] path_lt(x, y) && #[trigger] path_lt(y, z) implies path_lt(x, z) by {
        lemma_lex_transitive(x, y, z, part_order());
    }
    assert forall|x: Seq<PartModel>, y: Seq<PartModel>| x != y implies #[trigger] path_lt(x, y)
        || #[trigger] path_lt(y, x) by {
        lemma_lex_total(x, y, part_order());
    }
}

fn part_rank_of(p: &PathPart) -> (r: u8)
    ensures
        r as int == part_rank(p@),
{
    match p {
        PathPart::Root => 0,
        PathPart::Current => 1,
        PathPart::Parent => 2,
        PathPart::Normal(_) => 3,
    }
}

/// Compares two components as `std::path::Component` does.
pub fn compare_part(a: &PathPart, b: &PathPart) -> (r: Ordering)
    ensures
        (r == Ordering::Less) == part_order()(a@, b@),
        (r == Ordering::Equal) == (a@ == b@),
        (r == Ordering::Greater) == part_order()(b@, a@),
{
    proof {
        lemma_str_strict_total();
    }
    match (a, b) {
        (PathPart::Normal(x), PathPart::Normal(y)) => compare_str(x, y),
        _ => {
            let ra = part_rank_of(a);
            let rb = part_rank_of(b);
            if ra < rb {
                Ordering::Less
            } else if ra > rb {
                Ordering::Greater
            } else {
                Ordering::Equal
            }
        },
    }
}

impl PathPart {
    pub fn copy(&self) -> (r: PathPart)
        ensures
            r@ == self@,
    {
        match self {
            PathPart::Root => PathPart::Root,
            PathPart::Current => PathPart::Current,
            PathPart::Parent => PathPart::Parent,
            PathPart::Normal(s) => PathPart::Normal(s.clone()),
        }
    }
}

impl ToolPath {
    /// A copy of the path.
    pub fn copy(&self) -> (r: ToolPath)
        ensures
            r@ == self@,
    {
        let mut parts: Vec<PathPart> = Vec::new();
        let mut i: usize = 0;
        while i < self.parts.len()
            invariant
                i <= self.parts@.len(),
                parts@.len() == i,
                parts_view(parts@) == self@.subrange(0, i as int),
            decreases self.parts.len() - i,
        {
            let c = self.parts[i].copy();
            let ghost before = parts@;
            parts.push(c);
            assert(parts@ == before.push(c));
            assert(self@[i as int] == c@);
            assert forall|j: int| 0 <= j < i implies parts_view(parts@)[j] == self@[j] by {
                assert(parts@[j] == before[j]);
                assert(parts_view(before)[j] == self@.subrange(0, i as int)[j]);
            }
            assert(parts_view(parts@) =~= self@.subrange(0, i + 1));
            i = i + 1;
        }
        assert(self@.subrange(0, i as int) =~= self@);
        ToolPath { parts }
    }

    /// The path with the name `name` appended, as `Path::join` of a plain name.
    pub fn join(&self, name: &String) -> (r: ToolPath)
        ensures
            r@ == self@.push(PartModel::Normal(name@)),
    {
        let mut r = self.copy();
        r.parts.push(PathPart::Normal(name.clone()));
        assert(r@ =~= self@.push(PartModel::Normal(name@)));
        r
    }

    /// The last component, where it is a name, as `Path::file_name`.
    pub fn file_name(&self) -> (r: Option<String>)
        ensures
            match r {
                Some(s) => file_name(self@) == Some(s@),
                None => file_name(self@) is None,
            },
    {
        let n = self.parts.len();
        if n == 0 {
            None
        } else {
            match &self.parts[n - 1] {
                PathPart::Normal(s) => Some(s.clone()),
                _ => None,
            }
        }
    }

    /// Compares two paths as `std::path::Path` does.
    pub fn compare(&self, other: &ToolPath) -> (r: Ordering)
        ensures
            (r == Ordering::Less) == path_lt(self@, other@),
            (r == Ordering::Equal) == (self@ == other@),
            (r == Ordering::Greater) == path_lt(other@, self@),
    {
        proof {
            lemma_part_order();
        }
        let ghost po = part_order();
        let ghost x = self@;
        let ghost y = other@;
        let mut i: usize = 0;
        while i < self.parts.len() && i < other.parts.len()
            invariant
                po == part_order(),
                strict_total(po),
                x == self@,
                y == other@,
                i <= x.len(),
                i <= y.len(),
                x.subrange(0, i as int) == y.subrange(0, i as int),
            decreases self.parts.len() - i,
        {
            let c = compare_part(&self.parts[i], &other.parts[i]);
            match c {
                Ordering::Equal => {},
                _ => {
                    proof {
                        lemma_lex_skip(x, y, i as int, po);
                        lemma_lex_skip(y, x, i as int, po);
                        assert(x.skip(i as int)[0] == x[i as int]);
                        assert(y.skip(i as int)[0] == y[i as int]);
                    }
                    return c;
                },
            }
            assert(x.subrange(0, i + 1) =~= x.subrange(0, i as int).push(x[i as int]));
            assert(y.subrange(0, i + 1) =~= y.subrange(0, i as int).push(y[i as int]));
            i = i + 1;
        }
        proof {
            lemma_lex_skip(x, y, i as int, po);
            lemma_lex_skip(y, x, i as int, po);
        }
        if self.parts.len() == other.parts.len() {
            assert(x =~= x.subrange(0, i as int));
            assert(y =~= y.subrange(0, i as int));
            Ordering::Equal
        } else if self.parts.len() < other.parts.len() {
            Ordering::Less
        } else {
            Ordering::Greater
        }
    }
}

} // verus!
