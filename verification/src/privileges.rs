//! The errors met while enabling `SeBackupPrivilege` and `SeRestorePrivilege`
//! on the current process token. The Win32 calls are made elsewhere.

use vstd::prelude::*;

use crate::errors::DcmFreeError;

verus! {

/// The error for a privilege `name` that could not be enabled, `msg` saying why.
pub fn priv_err_msg(name: &str, msg: &str) -> (e: DcmFreeError)
    ensures
        e matches DcmFreeError::PrivilegeAcquireFailed { privilege, source } && privilege@ == name@
            && source@ == msg@,
{
    DcmFreeError::PrivilegeAcquireFailed { privilege: name.to_owned(), source: msg.to_owned() }
}

} // verus!
