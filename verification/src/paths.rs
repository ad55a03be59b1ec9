//! Cell-qualified and project-relative paths.
//!
//! A path is a sequence of components, each a byte string. A
//! `CellPath` qualifies a component sequence with the name of the cell
//! it is relative to; a `ProjectPath` is relative to the project root.
//! A `CellResolver` maps each cell name to the project-relative root
//! of that cell, and translates between the two representations.

use vstd::prelude::*;

use crate::bytes::bytes_clone;
use crate::bytes::bytes_eq;
use crate::bytes::comps_clone;

verus! {

/// Mathematical image of a `CellPath`.
#[verifier::ext_equal]
pub struct CellPathV {
    pub cell: Seq<u8>,
    pub comps: Seq<Seq<u8>>,
}

/// A cell-relative path: the name of a cell plus the path components
/// below that cell's root. Equality is structural.
#[derive(Debug, PartialEq, Eq, Hash)]
pub struct CellPath {
    pub cell: Vec<u8>,
    pub comps: Vec<Vec<u8>>,
}

impl View for CellPath {
    type V = CellPathV;

    open spec fn view(&self) -> CellPathV {
        CellPathV { cell: self.cell@, comps: self.comps.deep_view() }
    }
}

impl Clone for CellPath {
    fn clone(&self) -> (r: Self)
        ensures
            r@ == self@,
    {
        let r = CellPath { cell: bytes_clone(&self.cell), comps: comps_clone(&self.comps) };
        proof {
            assert(r@ =~= self@);
        }
        r
    }
}

/// Mathematical image of a `ProjectPath`.
#[verifier::ext_equal]
pub struct ProjectPathV {
    pub comps: Seq<Seq<u8>>,
}

/// A project-relative path: components below the project root.
#[derive(Debug, PartialEq, Eq, Hash)]
pub struct ProjectPath {
    pub comps: Vec<Vec<u8>>,
}

impl View for ProjectPath {
    type V = ProjectPathV;

    open spec fn view(&self) -> ProjectPathV {
        ProjectPathV { comps: self.comps.deep_view() }
    }
}

impl Clone for ProjectPath {
    fn clone(&self) -> (r: Self)
        ensures
            r@ == self@,
    {
        let r = ProjectPath { comps: comps_clone(&self.comps) };
        proof {
            assert(r@ =~= self@);
        }
        r
    }
}

impl CellPathV {
    /// The parent path, with the last component removed; the root of a
    /// cell has no parent.
    pub open spec fn parent(self) -> Option<CellPathV> {
        if self.comps.len() == 0 {
            Option::None
        } else {
            Option::Some(CellPathV { cell: self.cell, comps: self.comps.drop_last() })
        }
    }
}

/// Whether two vectors of byte strings hold the same strings.
pub fn comps_eq(a: &Vec<Vec<u8>>, b: &Vec<Vec<u8>>) -> (r: bool)
    ensures
        r == (a.deep_view() == b.deep_view()),
{
    proof {
        crate::bytes::lemma_comps_deep_view(*a);
        crate::bytes::lemma_comps_deep_view(*b);
    }
    if a.len() != b.len() {
        return false;
    }
    let n: usize = a.len();
    let mut i: usize = 0;
    while i < n
        invariant
            n == a@.len() == b@.len(),
            0 <= i <= n,
            forall|j: int| 0 <= j < i ==> a@[j]@ == b@[j]@,
            a.deep_view().len() == a@.len(),
            b.deep_view().len() == b@.len(),
            forall|j: int| 0 <= j < n ==> a.deep_view()[j] == a@[j]@,
            forall|j: int| 0 <= j < n ==> b.deep_view()[j] == b@[j]@,
        decreases n - i,
    {
        if !bytes_eq(&a[i], &b[i]) {
            proof {
                assert(a.deep_view()[i as int] != b.deep_view()[i as int]);
            }
            return false;
        }
        i = i + 1;
    }
    proof {
        assert(a.deep_view() =~= b.deep_view());
    }
    true
}

impl CellPath {
    /// Whether two cell paths name the same cell and components.
    pub fn path_eq(&self, other: &CellPath) -> (r: bool)
        ensures
            r == (self@ == other@),
    {
        let c = bytes_eq(&self.cell, &other.cell);
        if !c {
            proof {
                assert(self@ != other@);
            }
            return false;
        }
        let p = comps_eq(&self.comps, &other.comps);
        proof {
            if p {
                assert(self@ =~= other@);
            } else {
                assert(self@ != other@);
            }
        }
        p
    }

    /// The parent path, with the last component removed; the root of a
    /// cell has no parent.
    pub fn parent(&self) -> (r: Option<CellPath>)
        ensures
            r matches Option::Some(p) ==> Option::Some(p@) == self@.parent(),
            r is None <==> self@.parent() is None,
    {
        if self.comps.len() == 0 {
            return Option::None;
        }
        let mut comps = comps_clone(&self.comps);
        proof {
            crate::bytes::lemma_comps_deep_view(comps);
            crate::bytes::lemma_comps_deep_view(self.comps);
        }
        comps.pop();
        let r = CellPath { cell: bytes_clone(&self.cell), comps };
        proof {
            crate::bytes::lemma_comps_deep_view(r.comps);
            assert(r@.comps =~= self@.comps.drop_last());
            assert(r@ =~= CellPathV { cell: self@.cell, comps: self@.comps.drop_last() });
        }
        Option::Some(r)
    }
}

/// Mathematical image of one resolver entry.
#[verifier::ext_equal]
pub struct CellEntryV {
    pub name: Seq<u8>,
    pub root: Seq<Seq<u8>>,
}

/// One cell of the repository: its name and the project-relative root
/// under which the cell's files live.
#[derive(Debug)]
pub struct CellEntry {
    pub name: Vec<u8>,
    pub root: ProjectPath,
}

impl View for CellEntry {
    type V = CellEntryV;

    open spec fn view(&self) -> CellEntryV {
        CellEntryV { name: self.name@, root: self.root@.comps }
    }
}

impl DeepView for CellEntry {
    type V = CellEntryV;

    open spec fn deep_view(&self) -> CellEntryV {
        self@
    }
}

impl Clone for CellEntry {
    fn clone(&self) -> (r: Self)
        ensures
            r@ == self@,
    {
        let r = CellEntry { name: bytes_clone(&self.name), root: self.root.clone() };
        proof {
            assert(r@ =~= self@);
        }
        r
    }
}

/// The deep view of a vector of cell entries, elementwise.
pub proof fn lemma_entries_deep_view(v: Vec<CellEntry>)
    ensures
        v.deep_view().len() == v@.len(),
        forall|i: int| 0 <= i < v@.len() ==> v.deep_view()[i] == v@[i]@,
{
}

/// Maps cell names to project-relative cell roots. Immutable once
/// built.
#[derive(Debug)]
pub struct CellResolver {
    pub cells: Vec<CellEntry>,
}

/// The root of the cell called `name`: the first entry with that name.
pub open spec fn spec_find_cell(cells: Seq<CellEntryV>, name: Seq<u8>) -> Option<Seq<Seq<u8>>>
    decreases cells.len(),
{
    if cells.len() == 0 {
        Option::None
    } else if cells[0].name == name {
        Option::Some(cells[0].root)
    } else {
        spec_find_cell(cells.drop_first(), name)
    }
}

impl View for CellResolver {
    type V = Seq<CellEntryV>;

    open spec fn view(&self) -> Seq<CellEntryV> {
        self.cells.deep_view()
    }
}

impl Clone for CellResolver {
    fn clone(&self) -> (r: Self)
        ensures
            r@ == self@,
    {
        let n: usize = self.cells.len();
        let mut cells: Vec<CellEntry> = Vec::new();
        let mut i: usize = 0;
        while i < n
            invariant
                n == self.cells@.len(),
                0 <= i <= n,
                cells@.len() == i,
                forall|j: int| 0 <= j < i ==> cells@[j]@ == self.cells@[j]@,
            decreases n - i,
        {
            cells.push(self.cells[i].clone());
            i = i + 1;
        }
        proof {
            lemma_entries_deep_view(cells);
            lemma_entries_deep_view(self.cells);
            assert(cells.deep_view() =~= self.cells.deep_view());
        }
        CellResolver { cells }
    }
}

/// The project-relative image of a cell path under a resolver: the
/// cell's root followed by the cell-relative components, or nothing if
/// the cell is unknown.
pub open spec fn spec_resolve(cells: Seq<CellEntryV>, p: CellPathV) -> Option<Seq<Seq<u8>>> {
    match spec_find_cell(cells, p.cell) {
        Option::None => Option::None,
        Option::Some(root) => Option::Some(root + p.comps),
    }
}

impl CellResolver {
    /// The project-relative root of the cell called `name`, if that
    /// cell exists.
    pub fn find_cell(&self, name: &Vec<u8>) -> (r: Option<ProjectPath>)
        ensures
            r matches Option::Some(root) ==> spec_find_cell(self@, name@) == Option::Some(
                root@.comps,
            ),
            r is None <==> spec_find_cell(self@, name@) is None,
    {
        let n: usize = self.cells.len();
        let mut i: usize = 0;
        proof {
            lemma_entries_deep_view(self.cells);
            assert(self@.skip(0) =~= self@);
        }
        while i < n
            invariant
                n == self.cells@.len(),
                self@.len() == self.cells@.len(),
                forall|j: int| 0 <= j < n ==> self@[j] == self.cells@[j]@,
                0 <= i <= n,
                spec_find_cell(self@, name@) == spec_find_cell(self@.skip(i as int), name@),
            decreases n - i,
        {
            proof {
                assert(self@.skip(i as int)[0] == self@[i as int]);
                assert(self@.skip(i as int).drop_first() =~= self@.skip(i + 1));
            }
            if bytes_eq(&self.cells[i].name, name) {
                let root = self.cells[i].root.clone();
                return Option::Some(root);
            }
            i = i + 1;
        }
        proof {
            assert(self@.skip(n as int).len() == 0);
        }
        Option::None
    }

    /// Translate a cell path to a project-relative path; unknown cells
    /// resolve to nothing.
    pub fn resolve(&self, p: &CellPath) -> (r: Option<ProjectPath>)
        ensures
            r matches Option::Some(q) ==> spec_resolve(self@, p@) == Option::Some(q@.comps),
            r is None <==> spec_resolve(self@, p@) is None,
    {
        match self.find_cell(&p.cell) {
            Option::None => Option::None,
            Option::Some(root) => {
                let ghost root_comps: Seq<Seq<u8>> = root@.comps;
                let ghost rl: int = root_comps.len() as int;
                proof {
                    crate::bytes::lemma_comps_deep_view(root.comps);
                }
                let mut comps = root.comps;
                let m: usize = p.comps.len();
                let mut i: usize = 0;
                while i < m
                    invariant
                        m == p.comps@.len(),
                        0 <= i <= m,
                        comps@.len() == rl + i,
                        rl == root_comps.len(),
                        forall|j: int| 0 <= j < rl ==> comps@[j]@ == root_comps[j],
                        forall|j: int| 0 <= j < i ==> comps@[rl + j]@ == p.comps@[j]@,
                    decreases m - i,
                {
                    comps.push(bytes_clone(&p.comps[i]));
                    i = i + 1;
                }
                proof {
                    crate::bytes::lemma_comps_deep_view(comps);
                    crate::bytes::lemma_comps_deep_view(p.comps);
                    assert(comps.deep_view() =~= root_comps + p@.comps);
                }
                Option::Some(ProjectPath { comps })
            },
        }
    }
}

} // verus!
