//! Selecting an R installation through rig.
pub mod r_selection;
pub mod rig_client;
pub mod rig_releases;

use vstd::prelude::*;

use crate::rig::r_selection::{
    install_request, install_request_of, installed_pick, InstallRequest, InstallRequestView,
    RequirementView, VersionRequirement, select_installed_r,
};
use crate::rig::rig_client::InstalledR;

verus! {

/// The version that the error for a missing R tells the user to install:
/// the selector or version that rig would be asked to install directly.
pub open spec fn install_hint_of(req: RequirementView) -> Option<Seq<char>> {
    match install_request_of(req) {
        Ok(InstallRequestView::Direct(v)) => Some(v),
        _ => None,
    }
}

/// The version to suggest installing for `requirement`: the selector or
/// version that rig would be asked to install directly, if any. This
/// library's own choice of hint: requirements that rig resolves or picks
/// among available releases get none.
pub fn rig_install_hint(requirement: &VersionRequirement) -> (r: Option<&str>)
    ensures
        match r {
            Some(v) => install_hint_of(requirement@) == Some(v@),
            None => install_hint_of(requirement@) is None,
        },
{
    match install_request(requirement) {
        Ok(InstallRequest::Direct(v)) => Some(v),
        _ => None,
    }
}

/// The message when no installed R meets `r-version: req`.
pub open spec fn missing_r_message(req: Seq<char>, requirement: RequirementView) -> Seq<char> {
    match install_hint_of(requirement) {
        Some(v) => "R "@ + v + " is required but is not installed. Run `rig install "@ + v + "`."@,
        None => "R "@ + req
            + " is required but no matching R is installed. Install a matching R with `rig install`, or specify a different `r-version` or `--r-version`."@,
    }
}

/// The error for an `r-version` requirement that no installed R meets.
pub fn missing_r_version_error(req: &str, requirement: &VersionRequirement) -> (m: String)
    ensures
        m@ == missing_r_message(req@, requirement@),
{
    match rig_install_hint(requirement) {
        Some(version) => {
            let mut m = String::from_str("R ");
            m.append(version);
            m.append(" is required but is not installed. Run `rig install ");
            m.append(version);
            m.append("`.");
            m
        },
        None => {
            let mut m = String::from_str("R ");
            m.append(req);
            m.append(
                " is required but no matching R is installed. Install a matching R with `rig install`, or specify a different `r-version` or `--r-version`.",
            );
            m
        },
    }
}

/// The installed R that `r-version: req` selects among `installed`, or the
/// message that none does.
pub fn resolve_installed<'a>(
    req: &str,
    requirement: &VersionRequirement,
    installed: &'a [InstalledR],
    arm64_macos: bool,
) -> (r: Result<&'a InstalledR, String>)
    ensures
        match installed_pick(requirement@, installed@, arm64_macos) {
            Some(k) => r matches Ok(x) && *x == installed@[k],
            None => r matches Err(m) && m@ == missing_r_message(req@, requirement@),
        },
{
    match select_installed_r(requirement, installed, arm64_macos) {
        Some(x) => Ok(x),
        None => Err(missing_r_version_error(req, requirement)),
    }
}

} // verus!
