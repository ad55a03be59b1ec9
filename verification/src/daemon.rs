//! The daemon directory layout.
//!
//! A per-repository directory holds the daemon's info, stdout, stderr
//! and pid files under fixed names, resolved against the base path
//! the client supplies.

use vstd::prelude::*;

use crate::paths::ProjectPath;

verus! {

/// The fixed name of the daemon info file.
pub open spec fn spec_buckd_info_name() -> Seq<u8> {
    seq![98u8, 117u8, 99u8, 107u8, 100u8, 46u8, 105u8, 110u8, 102u8, 111u8]
}

/// The fixed name of the daemon stdout file.
pub open spec fn spec_buckd_stdout_name() -> Seq<u8> {
    seq![98u8, 117u8, 99u8, 107u8, 100u8, 46u8, 115u8, 116u8, 100u8, 111u8, 117u8, 116u8]
}

/// The fixed name of the daemon stderr file.
pub open spec fn spec_buckd_stderr_name() -> Seq<u8> {
    seq![98u8, 117u8, 99u8, 107u8, 100u8, 46u8, 115u8, 116u8, 100u8, 101u8, 114u8, 114u8]
}

/// The fixed name of the daemon pid file.
pub open spec fn spec_buckd_pid_name() -> Seq<u8> {
    seq![98u8, 117u8, 99u8, 107u8, 100u8, 46u8, 112u8, 105u8, 100u8]
}

/// The daemon directory of one repository.
#[derive(Debug)]
pub struct DaemonDir {
    pub path: ProjectPath,
}

/// The base path extended by one more file name.
fn join_name(p: &ProjectPath, name: Vec<u8>) -> (r: ProjectPath)
    ensures
        r@.comps == p@.comps.push(name@),
{
    let mut comps = crate::bytes::comps_clone(&p.comps);
    let ghost namev = name@;
    comps.push(name);
    let r = ProjectPath { comps };
    proof {
        crate::bytes::lemma_comps_deep_view(r.comps);
        crate::bytes::lemma_comps_deep_view(p.comps);
        assert(r@.comps =~~= p@.comps.push(namev));
    }
    r
}

impl DaemonDir {
    /// Path to the daemon info file.
    pub fn buckd_info(&self) -> (r: ProjectPath)
        ensures
            r@.comps == self.path@.comps.push(spec_buckd_info_name()),
    {
        let name: Vec<u8> = vec![98u8, 117u8, 99u8, 107u8, 100u8, 46u8, 105u8, 110u8, 102u8, 111u8];
        proof {
            assert(name@ =~= spec_buckd_info_name());
        }
        join_name(&self.path, name)
    }

    /// Path to the daemon stdout file.
    pub fn buckd_stdout(&self) -> (r: ProjectPath)
        ensures
            r@.comps == self.path@.comps.push(spec_buckd_stdout_name()),
    {
        let name: Vec<u8> = vec![
            98u8,
            117u8,
            99u8,
            107u8,
            100u8,
            46u8,
            115u8,
            116u8,
            100u8,
            111u8,
            117u8,
            116u8,
        ];
        proof {
            assert(name@ =~= spec_buckd_stdout_name());
        }
        join_name(&self.path, name)
    }

    /// Path to the daemon stderr file.
    pub fn buckd_stderr(&self) -> (r: ProjectPath)
        ensures
            r@.comps == self.path@.comps.push(spec_buckd_stderr_name()),
    {
        let name: Vec<u8> = vec![
            98u8,
            117u8,
            99u8,
            107u8,
            100u8,
            46u8,
            115u8,
            116u8,
            100u8,
            101u8,
            114u8,
            114u8,
        ];
        proof {
            assert(name@ =~= spec_buckd_stderr_name());
        }
        join_name(&self.path, name)
    }

    /// Path to the daemon pid file.
    pub fn buckd_pid(&self) -> (r: ProjectPath)
        ensures
            r@.comps == self.path@.comps.push(spec_buckd_pid_name()),
    {
        let name: Vec<u8> = vec![98u8, 117u8, 99u8, 107u8, 100u8, 46u8, 112u8, 105u8, 100u8];
        proof {
            assert(name@ =~= spec_buckd_pid_name());
        }
        join_name(&self.path, name)
    }
}

} // verus!
