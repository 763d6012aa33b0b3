//! One daemon at a time: a file that it locks while it runs.

use vstd::prelude::*;

use crate::config::resolve;
use crate::config::resolve::runtime_dir_of;
use crate::config::vars::Vars;
use crate::path;
use crate::path::joined;

verus! {

/// How the attempt to lock the file went.
pub enum LockTry {
    Taken,
    /// Another process holds the lock.
    Held,
    Failed(String),
}

/// The lock of the daemon that runs.
#[derive(Debug)]
pub struct InstanceLock {
    path: String,
}

impl InstanceLock {
    /// The file that is locked.
    pub closed spec fn file(&self) -> Seq<char> {
        self.path@
    }

    /// The file that a daemon locks. It stands where the sockets do.
    pub fn default_path(env: &Vars) -> (p: String)
        ensures
            p@ == joined(runtime_dir_of(*env, "clowder"@), "daemon.pid"@),
    {
        path::join(resolve::runtime_dir(env).as_str(), "daemon.pid")
    }

    /// What comes of an attempt to lock the file.
    pub open spec fn is_outcome(
        path: Seq<char>,
        went: LockTry,
        r: Result<Option<InstanceLock>, String>,
    ) -> bool {
        match went {
            LockTry::Taken => r matches Ok(Some(l)) && l.file() == path,
            LockTry::Held => r matches Ok(None),
            LockTry::Failed(why) => r matches Err(e) && e@ == "failed to lock "@ + path + ": "@ + why@,
        }
    }

    /// The lock, given how the attempt to take it went. That another daemon holds it is no error: the
    /// caller then yields to that one. Anything else that went wrong is worth another try.
    pub fn acquired(path: String, went: LockTry) -> (r: Result<Option<InstanceLock>, String>)
        ensures
            InstanceLock::is_outcome(path@, went, r),
    {
        match went {
            LockTry::Taken => Ok(Some(InstanceLock { path })),
            LockTry::Held => Ok(None),
            LockTry::Failed(why) => {
                let mut m = "failed to lock ".to_owned();
                m.append(path.as_str());
                m.append(": ");
                m.append(why.as_str());
                Err(m)
            },
        }
    }

    /// The file that is locked.
    pub fn path(&self) -> (p: &str)
        ensures
            p@ == self.file(),
    {
        self.path.as_str()
    }
}

/// A daemon has the lock where it took it and never else, and that another daemon has it is no error.
pub proof fn law_the_lock_is_had_where_it_was_taken(
    path: Seq<char>,
    went: LockTry,
    r: Result<Option<InstanceLock>, String>,
)
    requires
        InstanceLock::is_outcome(path, went, r),
    ensures
        (r is Ok && r->Ok_0 is Some) <==> went is Taken,
        r is Err <==> went is Failed,
        r is Ok && r->Ok_0 is Some ==> (r->Ok_0)->0.file() == path,
{
}

} // verus!
