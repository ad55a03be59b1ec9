//! Planning the `clean` command.
//!
//! `clean` reports what it would remove and, outside a dry run,
//! removes it: the top-level entries of the build output directory
//! and the daemon directory. The decisions — what to report, whether
//! to mutate — are computed here from observations; the caller
//! performs the filesystem work the plan calls for.

use vstd::prelude::*;

use crate::bytes::bytes_clone;
use crate::bytes::lemma_comps_deep_view;

verus! {

/// What `clean` decided: the paths to report, and which mutations to
/// perform.
#[derive(Debug)]
pub struct CleanPlan {
    /// Every path the command reports, in order: the build output
    /// entries (or the mount itself), then the daemon directory.
    pub paths_to_clean: Vec<Vec<u8>>,
    /// Whether to delete the contents of the build output directory.
    pub delete_buck_out: bool,
    /// Whether to clean the daemon directory.
    pub clean_daemon_dir: bool,
}

/// The reported paths: what the mount reports, or the listed entries,
/// followed by the daemon directory when it exists.
pub open spec fn spec_clean_paths(
    eden_paths: Option<Seq<Seq<u8>>>,
    buck_out_entries: Option<Seq<Seq<u8>>>,
    daemon_dir_exists: bool,
    daemon_dir: Seq<u8>,
) -> Seq<Seq<u8>> {
    let base = match eden_paths {
        Option::Some(paths) => paths,
        Option::None => match buck_out_entries {
            Option::Some(entries) => entries,
            Option::None => Seq::empty(),
        },
    };
    if daemon_dir_exists {
        base.push(daemon_dir)
    } else {
        base
    }
}

/// Decides what `clean` does. A dry run mutates nothing and reports
/// the same paths a real run would; deletion of the build output is
/// ordinary-filesystem work only, so a mount that cleans itself
/// suppresses it.
pub fn plan_clean(
    eden_paths: Option<Vec<Vec<u8>>>,
    buck_out_entries: Option<Vec<Vec<u8>>>,
    daemon_dir_exists: bool,
    daemon_dir: Vec<u8>,
    dry_run: bool,
) -> (r: CleanPlan)
    ensures
        r.paths_to_clean.deep_view() == spec_clean_paths(
            match eden_paths {
                Option::Some(p) => Option::Some(p.deep_view()),
                Option::None => Option::None,
            },
            match buck_out_entries {
                Option::Some(p) => Option::Some(p.deep_view()),
                Option::None => Option::None,
            },
            daemon_dir_exists,
            daemon_dir@,
        ),
        r.delete_buck_out == (!dry_run && eden_paths is None && buck_out_entries is Some),
        r.clean_daemon_dir == (!dry_run && daemon_dir_exists),
        dry_run ==> !r.delete_buck_out && !r.clean_daemon_dir,
{
    let ghost edenv: Option<Seq<Seq<u8>>> = match eden_paths {
        Option::Some(ref p) => Option::Some(p.deep_view()),
        Option::None => Option::None,
    };
    let ghost entriesv: Option<Seq<Seq<u8>>> = match buck_out_entries {
        Option::Some(ref p) => Option::Some(p.deep_view()),
        Option::None => Option::None,
    };
    let eden_is_some = eden_paths.is_some();
    let entries_is_some = buck_out_entries.is_some();
    let mut paths: Vec<Vec<u8>> = match eden_paths {
        Option::Some(p) => p,
        Option::None => match buck_out_entries {
            Option::Some(entries) => entries,
            Option::None => Vec::new(),
        },
    };
    proof {
        lemma_comps_deep_view(paths);
        assert(paths.deep_view() =~~= (match edenv {
            Option::Some(p) => p,
            Option::None => match entriesv {
                Option::Some(e) => e,
                Option::None => Seq::<Seq<u8>>::empty(),
            },
        }));
    }
    let ghost base = paths.deep_view();
    if daemon_dir_exists {
        let ghost dv = daemon_dir@;
        paths.push(daemon_dir);
        proof {
            lemma_comps_deep_view(paths);
            assert(paths.deep_view() =~~= base.push(dv));
        }
    }
    CleanPlan {
        paths_to_clean: paths,
        delete_buck_out: !dry_run && !eden_is_some && entries_is_some,
        clean_daemon_dir: !dry_run && daemon_dir_exists,
    }
}

/// One entry of a recursive walk of the build output directory.
#[derive(Debug)]
pub struct WalkEntry {
    pub path: Vec<u8>,
    pub is_dir: bool,
}

/// Mathematical image of a walk entry.
#[verifier::ext_equal]
pub struct WalkEntryV {
    pub path: Seq<u8>,
    pub is_dir: bool,
}

impl View for WalkEntry {
    type V = WalkEntryV;

    open spec fn view(&self) -> WalkEntryV {
        WalkEntryV { path: self.path@, is_dir: self.is_dir }
    }
}

impl DeepView for WalkEntry {
    type V = WalkEntryV;

    open spec fn deep_view(&self) -> WalkEntryV {
        self@
    }
}

/// The deep view of a walk, elementwise.
pub proof fn lemma_walk_deep_view(v: Vec<WalkEntry>)
    ensures
        v.deep_view().len() == v@.len(),
        forall|i: int| 0 <= i < v@.len() ==> v.deep_view()[i] == v@[i]@,
{
}

/// The directory paths of a walk, in walk order.
pub open spec fn spec_walk_dirs(walk: Seq<WalkEntryV>) -> Seq<Seq<u8>>
    decreases walk.len(),
{
    if walk.len() == 0 {
        Seq::empty()
    } else {
        let rest = spec_walk_dirs(walk.drop_last());
        if walk.last().is_dir {
            rest.push(walk.last().path)
        } else {
            rest
        }
    }
}

/// The file paths of a walk, in walk order: these are removed first,
/// each independently.
pub open spec fn spec_walk_files(walk: Seq<WalkEntryV>) -> Seq<Seq<u8>>
    decreases walk.len(),
{
    if walk.len() == 0 {
        Seq::empty()
    } else {
        let rest = spec_walk_files(walk.drop_last());
        if !walk.last().is_dir {
            rest.push(walk.last().path)
        } else {
            rest
        }
    }
}

/// The files a build-output clean removes, in walk order.
pub fn files_to_remove(walk: &Vec<WalkEntry>) -> (r: Vec<Vec<u8>>)
    ensures
        r.deep_view() == spec_walk_files(walk.deep_view()),
{
    let n: usize = walk.len();
    let mut r: Vec<Vec<u8>> = Vec::new();
    let mut i: usize = 0;
    proof {
        lemma_walk_deep_view(*walk);
        lemma_comps_deep_view(r);
        assert(r.deep_view() =~~= spec_walk_files(walk.deep_view().take(0)));
    }
    while i < n
        invariant
            n == walk@.len(),
            walk.deep_view().len() == n,
            forall|j: int| 0 <= j < n ==> walk.deep_view()[j] == walk@[j]@,
            0 <= i <= n,
            r.deep_view() == spec_walk_files(walk.deep_view().take(i as int)),
        decreases n - i,
    {
        proof {
            assert(walk.deep_view().take(i + 1).drop_last() =~= walk.deep_view().take(i as int));
            assert(walk.deep_view().take(i + 1).last() == walk.deep_view()[i as int]);
        }
        if !walk[i].is_dir {
            let ghost before = r.deep_view();
            r.push(bytes_clone(&walk[i].path));
            proof {
                lemma_comps_deep_view(r);
                assert(r.deep_view() =~~= before.push(walk.deep_view()[i as int].path));
            }
        }
        i = i + 1;
    }
    proof {
        assert(walk.deep_view().take(n as int) =~= walk.deep_view());
    }
    r
}

/// The directories a build-output clean removes, deepest first: the
/// walk's directories with the root — the walk's first entry — kept,
/// in reverse walk order, so a directory is already empty when its
/// turn comes.
pub fn dirs_removal_order(walk: &Vec<WalkEntry>) -> (r: Vec<Vec<u8>>)
    ensures
        spec_walk_dirs(walk.deep_view()).len() == 0 ==> r.deep_view().len() == 0,
        spec_walk_dirs(walk.deep_view()).len() > 0 ==> r.deep_view() == spec_walk_dirs(
            walk.deep_view(),
        ).skip(1).reverse(),
{
    let dirs_in_order = dirs_of_walk(walk);
    let ghost dirs = spec_walk_dirs(walk.deep_view());
    let n: usize = dirs_in_order.len();
    let mut r: Vec<Vec<u8>> = Vec::new();
    let mut i: usize = n;
    proof {
        lemma_comps_deep_view(dirs_in_order);
        lemma_comps_deep_view(r);
        if n > 0 {
            assert(r.deep_view() =~~= dirs.skip(1).reverse().take(0));
        }
    }
    while i > 1
        invariant
            n == dirs_in_order@.len(),
            dirs_in_order.deep_view() == dirs,
            dirs.len() == n,
            forall|j: int| 0 <= j < n ==> dirs[j] == dirs_in_order@[j]@,
            1 <= i <= n || (n == 0 && i == 0),
            n > 0 ==> r.deep_view() == dirs.skip(1).reverse().take(n - i),
            n == 0 ==> r.deep_view().len() == 0,
        decreases i,
    {
        let ghost before = r.deep_view();
        r.push(bytes_clone(&dirs_in_order[i - 1]));
        proof {
            lemma_comps_deep_view(r);
            let rev = dirs.skip(1).reverse();
            let j = n - (i as int);
            assert(dirs.skip(1).len() == n - 1);
            assert(rev.len() == n - 1);
            assert(rev[j] == dirs.skip(1)[n - 2 - j]);
            assert(dirs.skip(1)[(i as int) - 2] == dirs[(i as int) - 1]);
            assert(rev[j] == dirs[(i as int) - 1]);
            assert(r.deep_view() =~~= before.push(dirs[(i as int) - 1]));
            assert(r.deep_view() =~~= rev.take(j + 1));
        }
        i = i - 1;
    }
    proof {
        if n > 0 {
            let rev = dirs.skip(1).reverse();
            assert(r.deep_view() =~~= rev.take(n - 1));
            assert(rev.take(n - 1) =~= rev);
        }
    }
    r
}

/// The directory paths of a walk, in walk order.
fn dirs_of_walk(walk: &Vec<WalkEntry>) -> (r: Vec<Vec<u8>>)
    ensures
        r.deep_view() == spec_walk_dirs(walk.deep_view()),
{
    let n: usize = walk.len();
    let mut r: Vec<Vec<u8>> = Vec::new();
    let mut i: usize = 0;
    proof {
        lemma_walk_deep_view(*walk);
        lemma_comps_deep_view(r);
        assert(r.deep_view() =~~= spec_walk_dirs(walk.deep_view().take(0)));
    }
    while i < n
        invariant
            n == walk@.len(),
            walk.deep_view().len() == n,
            forall|j: int| 0 <= j < n ==> walk.deep_view()[j] == walk@[j]@,
            0 <= i <= n,
            r.deep_view() == spec_walk_dirs(walk.deep_view().take(i as int)),
        decreases n - i,
    {
        proof {
            assert(walk.deep_view().take(i + 1).drop_last() =~= walk.deep_view().take(i as int));
            assert(walk.deep_view().take(i + 1).last() == walk.deep_view()[i as int]);
        }
        if walk[i].is_dir {
            let ghost before = r.deep_view();
            r.push(bytes_clone(&walk[i].path));
            proof {
                lemma_comps_deep_view(r);
                assert(r.deep_view() =~~= before.push(walk.deep_view()[i as int].path));
            }
        }
        i = i + 1;
    }
    proof {
        assert(walk.deep_view().take(n as int) =~= walk.deep_view());
    }
    r
}

} // verus!
