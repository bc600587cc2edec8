use crate::disk::{ErrorView, InstallError};
use vstd::prelude::*;

verus! {

/// Process status of a run that was refused for want of privilege.
pub const EXIT_NOT_ROOT: i32 = 1;

/// Process status of a run that failed otherwise.
pub const EXIT_FAILED: i32 = 2;

/// Relies on `users::get_effective_uid`: the effective user id of this
/// process. Nothing is assumed of its value.
#[verifier::external_body]
fn effective_uid() -> (r: u32) {
    users::get_effective_uid()
}

/// The refusal a process with effective user id `euid` meets, if any.
pub open spec fn gate(euid: u32) -> Option<ErrorView> {
    if euid == 0 {
        None
    } else {
        Some(ErrorView::PrivilegeError)
    }
}

/// Only the superuser may partition, format and mount.
pub fn require_root(euid: u32) -> (r: Result<(), InstallError>)
    ensures
        match gate(euid) {
            None => r is Ok,
            Some(e) => r matches Err(f) && f@ == e,
        },
{
    if euid == 0 {
        Ok(())
    } else {
        Err(InstallError::PrivilegeError)
    }
}

/// Checks that this process runs as the superuser.
pub fn check_privilege() -> (r: Result<(), InstallError>)
    ensures
        r matches Err(e) ==> e@ == ErrorView::PrivilegeError,
{
    require_root(effective_uid())
}

pub open spec fn status_of(e: ErrorView) -> i32 {
    match e {
        ErrorView::PrivilegeError => EXIT_NOT_ROOT,
        _ => EXIT_FAILED,
    }
}

/// The process status a failure ends the helper with.
pub fn exit_status(e: &InstallError) -> (r: i32)
    ensures
        r == status_of(e@),
{
    match e {
        InstallError::PrivilegeError => EXIT_NOT_ROOT,
        _ => EXIT_FAILED,
    }
}

/// A process without privilege is refused, with a status of its own: not
/// success, and not the status of any other failure.
pub proof fn lemma_privilege_gate(euid: u32, other: ErrorView)
    requires
        euid != 0,
        !(other is PrivilegeError),
    ensures
        gate(euid) == Some(ErrorView::PrivilegeError),
        status_of(ErrorView::PrivilegeError) != 0,
        status_of(ErrorView::PrivilegeError) != status_of(other),
        status_of(other) != 0,
{
}

} // verus!
