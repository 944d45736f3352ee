//! What a run learns about the host before it decides anything: which paths
//! exist and which environment variables are set.  The caller gathers these
//! facts; the planning functions of the library read them from here.

use vstd::prelude::*;
use crate::text::{string_views};

verus! {

/// One environment variable of the lion process.
pub struct EnvVar {
    pub name: String,
    pub value: String,
}

/// The facts about the host that a sandbox run consults.
pub struct HostView {
    /// Host paths that exist.
    pub existing: Vec<String>,
    /// Host paths that carry an execute permission bit.
    pub executable: Vec<String>,
    /// The environment of the lion process (variables whose name and value
    /// are valid Unicode).
    pub env: Vec<EnvVar>,
}

/// Whether `p` exists on the host.
pub open spec fn path_exists(h: HostView, p: Seq<char>) -> bool {
    string_views(h.existing@).contains(p)
}

/// Whether `p` carries an execute permission bit.
pub open spec fn path_executable(h: HostView, p: Seq<char>) -> bool {
    string_views(h.executable@).contains(p)
}

/// The value of the first variable named `name` in `env`.
pub open spec fn lookup(env: Seq<EnvVar>, name: Seq<char>) -> Option<Seq<char>>
    decreases env.len(),
{
    if env.len() == 0 {
        None
    } else if env[0].name@ == name {
        Some(env[0].value@)
    } else {
        lookup(env.drop_first(), name)
    }
}

/// `std::env::var(name)` on the host.
pub open spec fn env_var(h: HostView, name: Seq<char>) -> Option<Seq<char>> {
    lookup(h.env@, name)
}

impl HostView {
    /// Whether `p` exists on the host.
    pub fn has_path(&self, p: &str) -> (r: bool)
        ensures
            r == path_exists(*self, p@),
    {
        let mut i: usize = 0;
        while i < self.existing.len()
            invariant
                i <= self.existing.len(),
                forall|k: int| 0 <= k < i ==> self.existing@[k]@ != p@,
            decreases self.existing.len() - i,
        {
            if crate::text::str_eq(self.existing[i].as_str(), p) {
                proof {
                    assert(string_views(self.existing@)[i as int] == p@);
                }
                return true;
            }
            i += 1;
        }
        proof {
            if string_views(self.existing@).contains(p@) {
                let k = choose|k: int|
                    0 <= k < string_views(self.existing@).len() && #[trigger] string_views(
                        self.existing@,
                    )[k] == p@;
                assert(self.existing@[k]@ == p@);
            }
        }
        false
    }

    /// Whether `p` carries an execute permission bit.
    pub fn is_executable(&self, p: &str) -> (r: bool)
        ensures
            r == path_executable(*self, p@),
    {
        let mut i: usize = 0;
        while i < self.executable.len()
            invariant
                i <= self.executable.len(),
                forall|k: int| 0 <= k < i ==> self.executable@[k]@ != p@,
            decreases self.executable.len() - i,
        {
            if crate::text::str_eq(self.executable[i].as_str(), p) {
                proof {
                    assert(string_views(self.executable@)[i as int] == p@);
                }
                return true;
            }
            i += 1;
        }
        proof {
            if string_views(self.executable@).contains(p@) {
                let k = choose|k: int|
                    0 <= k < string_views(self.executable@).len() && #[trigger] string_views(
                        self.executable@,
                    )[k] == p@;
                assert(self.executable@[k]@ == p@);
            }
        }
        false
    }

    /// The value of the environment variable `name`, if it is set.
    pub fn var(&self, name: &str) -> (r: Option<String>)
        ensures
            match r {
                Some(v) => env_var(*self, name@) == Some(v@),
                None => env_var(*self, name@) is None,
            },
    {
        let mut i: usize = 0;
        assert(self.env@.skip(0) =~= self.env@);
        while i < self.env.len()
            invariant
                i <= self.env.len(),
                lookup(self.env@, name@) == lookup(self.env@.skip(i as int), name@),
            decreases self.env.len() - i,
        {
            proof {
                assert(self.env@.skip(i as int).drop_first() =~= self.env@.skip(i + 1));
                assert(self.env@.skip(i as int)[0] == self.env@[i as int]);
            }
            if crate::text::str_eq(self.env[i].name.as_str(), name) {
                return Some(self.env[i].value.clone());
            }
            i += 1;
        }
        None
    }
}

} // verus!
