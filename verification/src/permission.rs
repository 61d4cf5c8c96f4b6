//! Microphone permission: what to do for each authorization status the
//! system reports, and the answer given to the webview.

use vstd::prelude::*;
use vstd::string::*;

verus! {

/// The system's record of whether the app may use the microphone.
#[derive(Debug, Clone, Copy, PartialEq, Eq, Structural)]
pub enum PermissionStatus {
    Authorized,
    Denied,
    Restricted,
    NotDetermined,
}

/// The step taken for a given status.
#[derive(Debug, Clone, Copy, PartialEq, Eq, Structural)]
pub enum PermissionStep {
    /// Access is already granted.
    Granted,
    /// Access was refused: open the system's microphone privacy settings
    /// so the user can grant it, and refuse capture.
    RefusedOpenSettings,
    /// Nobody has decided yet: ask the user and wait for the answer.
    AskUser,
}

/// The step for each status.
pub open spec fn step_for(status: PermissionStatus) -> PermissionStep {
    match status {
        PermissionStatus::Authorized => PermissionStep::Granted,
        PermissionStatus::Denied => PermissionStep::RefusedOpenSettings,
        PermissionStatus::Restricted => PermissionStep::RefusedOpenSettings,
        PermissionStatus::NotDetermined => PermissionStep::AskUser,
    }
}

/// Decides the step for `status`.
pub fn permission_step(status: PermissionStatus) -> (s: PermissionStep)
    ensures
        s == step_for(status),
        status == PermissionStatus::Authorized ==> s == PermissionStep::Granted,
        status == PermissionStatus::Denied ==> s == PermissionStep::RefusedOpenSettings,
        status == PermissionStatus::Restricted ==> s == PermissionStep::RefusedOpenSettings,
        status == PermissionStatus::NotDetermined ==> s == PermissionStep::AskUser,
{
    match status {
        PermissionStatus::Authorized => PermissionStep::Granted,
        PermissionStatus::Denied => PermissionStep::RefusedOpenSettings,
        PermissionStatus::Restricted => PermissionStep::RefusedOpenSettings,
        PermissionStatus::NotDetermined => PermissionStep::AskUser,
    }
}

/// The answer to the webview once the decision is known: `Some(granted)`
/// for a decision, `None` when the user did not answer in time.
pub fn permission_answer(decision: Option<bool>) -> (r: Result<bool, String>)
    ensures
        match decision {
            Some(true) => r == Ok::<bool, String>(true),
            Some(false) => r matches Err(e) && e@ == "denied"@,
            None => r matches Err(e) && e@ == "permission request timed out"@,
        },
{
    match decision {
        Some(true) => Ok(true),
        Some(false) => Err(String::from_str("denied")),
        None => Err(String::from_str("permission request timed out")),
    }
}

/// The answer when the audio media type is missing from the system.
pub fn media_type_unavailable() -> (r: Result<bool, String>)
    ensures
        r matches Err(e) && e@ == "AVMediaTypeAudio constant unavailable"@,
{
    Err(String::from_str("AVMediaTypeAudio constant unavailable"))
}

} // verus!
