//! The one-time host setup (`lion install`): an AppArmor profile that lets
//! `bwrap` create user namespaces without disabling AppArmor globally.
//! Writing the profile and loading it are the caller's work; this module
//! decides what is to be done and what came of it.

use vstd::prelude::*;
use crate::text::{chars_eq_str, chars_of, trim, trim_chars};

verus! {

/// The profile written to `/etc/apparmor.d/`.
pub const APPARMOR_PROFILE: &'static str = "abi <abi/4.0>,\ninclude <tunables/global>\n\nprofile bwrap /usr/bin/bwrap flags=(unconfined) {\n  userns,\n}\n";

/// Where the profile is written.
pub const PROFILE_PATH: &'static str = "/etc/apparmor.d/bwrap-userns-restrict";

/// What `lion install` does on this host.
#[derive(PartialEq, Eq, Structural, Debug)]
pub enum InstallStep {
    /// Not running as root: refuse, with exit code 1.
    RequireRoot,
    /// AppArmor is not active: nothing to do.
    AppArmorInactive,
    /// The restriction knob is 0 already: nothing to do.
    AlreadyUnrestricted,
    /// Write the profile and load it.
    WriteProfile,
}

/// Whether AppArmor appears active: its securityfs entry or its user
/// namespace restriction knob exists.
pub fn is_apparmor_active(securityfs_exists: bool, knob_exists: bool) -> (r: bool)
    ensures
        r == (securityfs_exists || knob_exists),
{
    securityfs_exists || knob_exists
}

pub open spec fn install_step_spec(is_root: bool, apparmor_active: bool, knob: Option<Seq<char>>) -> InstallStep {
    if !is_root {
        InstallStep::RequireRoot
    } else if !apparmor_active {
        InstallStep::AppArmorInactive
    } else if match knob {
        Some(k) => trim(k) == "0"@,
        None => false,
    } {
        InstallStep::AlreadyUnrestricted
    } else {
        InstallStep::WriteProfile
    }
}

/// What `lion install` does: `knob` is the content of the restriction knob
/// when the file exists (empty when it cannot be read), `None` when it does
/// not exist.
pub fn install_step(is_root: bool, apparmor_active: bool, knob: Option<&str>) -> (r: InstallStep)
    ensures
        r == install_step_spec(is_root, apparmor_active, match knob {
            Some(k) => Some(k@),
            None => None,
        }),
{
    if !is_root {
        return InstallStep::RequireRoot;
    }
    if !apparmor_active {
        return InstallStep::AppArmorInactive;
    }
    let zero = match knob {
        Some(k) => {
            let v = chars_of(k);
            let t = trim_chars(&v);
            chars_eq_str(&t, "0")
        },
        None => false,
    };
    if zero {
        InstallStep::AlreadyUnrestricted
    } else {
        InstallStep::WriteProfile
    }
}

/// What came of running `apparmor_parser -r`: `Ok` when it ran and
/// succeeded; otherwise the exit code to leave with (its own, or 1 when it
/// could not be run or a signal ended it).
pub fn parser_result(ran: bool, success: bool, code: Option<i32>) -> (r: Result<(), i32>)
    ensures
        r == if ran && success {
            Ok(())
        } else if ran {
            Err(match code {
                Some(c) => c,
                None => 1i32,
            })
        } else {
            Err(1i32)
        },
{
    if ran && success {
        Ok(())
    } else if ran {
        Err(
            match code {
                Some(c) => c,
                None => 1,
            },
        )
    } else {
        Err(1)
    }
}

} // verus!
