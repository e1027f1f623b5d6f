//! The probes: for each system tool, the parser of its output and the
//! decision of what a scan records when the tool is missing, fails, or
//! answers.
//!
//! A probe's command output is handed in as `Option<Result<String,
//! ShellError>>`: `None` when the tool is not installed (the section is
//! skipped silently), `Some(Err(..))` when it failed (recorded in the scan's
//! errors), `Some(Ok(text))` when it answered.

use vstd::prelude::*;

use crate::model::{ProbeError, ProbeErrorView};
use crate::shell::ShellError;

pub mod dmi;
pub mod net;
pub mod pci;
pub mod rfkill;
pub mod storage;
pub mod system;
pub mod usb;

verus! {

pub open spec fn probe_error_view(probe: Seq<char>, e: ShellError) -> ProbeErrorView {
    ProbeErrorView { probe, message: e.message_spec() }
}

/// Records the failure `e` of the probe named `probe` in `errors`.
pub fn record_error(errors: &mut Vec<ProbeError>, probe: &str, e: &ShellError)
    ensures
        final(errors).deep_view() == old(errors).deep_view().push(probe_error_view(probe@, *e)),
{
    let entry = ProbeError { probe: probe.to_owned(), message: e.message() };
    let ghost before = errors.deep_view();
    errors.push(entry);
    assert(errors.deep_view() =~= before.push(probe_error_view(probe@, *e)));
}

} // verus!
