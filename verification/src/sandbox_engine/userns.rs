//! Whether the host lets bubblewrap create user namespaces, and what to
//! tell the user when it does not.

use vstd::prelude::*;
use crate::text::{chars_eq_str, chars_of, trim, trim_chars};

verus! {

/// Why bwrap cannot create a user namespace.
pub enum UsernsError {
    /// AppArmor's `apparmor_restrict_unprivileged_userns` knob is set.
    AppArmorBlocking,
    /// Some other policy of the host.
    Unavailable,
}

/// The verdict of the pre-flight probe: `probe_succeeded` is whether the
/// probing `bwrap --unshare-user ... true` ran and succeeded, `knob` the
/// content of `/proc/sys/kernel/apparmor_restrict_unprivileged_userns`
/// (`None` when it cannot be read).
pub open spec fn userns_verdict(probe_succeeded: bool, knob: Option<Seq<char>>) -> Result<(), UsernsError> {
    if probe_succeeded {
        Ok(())
    } else if match knob {
        Some(k) => trim(k) == "1"@,
        None => false,
    } {
        Err(UsernsError::AppArmorBlocking)
    } else {
        Err(UsernsError::Unavailable)
    }
}

/// Decides whether user namespaces are available from the probe and the
/// AppArmor knob.
pub fn check_userns_available(probe_succeeded: bool, knob: Option<&str>) -> (r: Result<(), UsernsError>)
    ensures
        r == userns_verdict(probe_succeeded, match knob {
            Some(k) => Some(k@),
            None => None,
        }),
{
    if probe_succeeded {
        return Ok(());
    }
    let blocking = match knob {
        Some(k) => {
            let v = chars_of(k);
            let t = trim_chars(&v);
            chars_eq_str(&t, "1")
        },
        None => false,
    };
    if blocking {
        Err(UsernsError::AppArmorBlocking)
    } else {
        Err(UsernsError::Unavailable)
    }
}

impl UsernsError {
    /// The actionable message for this failure.
    pub fn message(&self) -> (r: String)
        ensures
            r@ == match self {
                UsernsError::AppArmorBlocking => "[lion] AppArmor is blocking bwrap from creating user namespaces.\nThis is a one-time setup issue — run:\n\n\x1b[1m    sudo lion install\x1b[0m\n\nThis creates a targeted AppArmor rule for bwrap only.\nIt does NOT disable AppArmor globally."@,
                UsernsError::Unavailable => "[lion] bwrap cannot create user namespaces on this system.\nCheck: dmesg | grep -i 'userns\\|bwrap'"@,
            },
    {
        match self {
            UsernsError::AppArmorBlocking => String::from_str(
                "[lion] AppArmor is blocking bwrap from creating user namespaces.\nThis is a one-time setup issue — run:\n\n\x1b[1m    sudo lion install\x1b[0m\n\nThis creates a targeted AppArmor rule for bwrap only.\nIt does NOT disable AppArmor globally.",
            ),
            UsernsError::Unavailable => String::from_str(
                "[lion] bwrap cannot create user namespaces on this system.\nCheck: dmesg | grep -i 'userns\\|bwrap'",
            ),
        }
    }
}

} // verus!
