//! The per-tap job dispatcher's decision: route one badge tap to exactly one
//! print job, or drop it for exactly one logged reason. The slow outside
//! steps — decoding the badge, the network check-in, rasterizing, driving
//! the printer — happen around this decision and hand their outcomes in as
//! plain values; the assignment lookup is the only step that needs the
//! table, so callers hold its lock only for that.

use vstd::prelude::*;
use crate::registry::PrinterRegistry;

verus! {

/// What the remote check-in call came back with.
pub enum CheckinOutcome {
    /// Check-in succeeded; the label carries this display name.
    Success { display_name: String },
    /// The distinguished "unknown user id" answer.
    UnknownUser,
    /// Any other transport, auth or server failure.
    Failure,
}

/// Everything learned about one badge tap before routing it.
pub enum TapContext {
    /// The badge payload did not decode to a user identifier; no check-in
    /// call was made.
    DecodeFailed,
    /// The payload decoded and the check-in call returned.
    CheckedIn { outcome: CheckinOutcome },
}

/// Why a tap was dropped. A dropped tap is logged once and never printed;
/// the holder taps again.
#[derive(PartialEq, Eq, Structural, Debug, Clone, Copy)]
pub enum DropReason {
    /// The badge payload was malformed.
    BadgeDecodeFailed,
    /// The check-in service does not know the user id on the badge.
    UnknownUser,
    /// The check-in call failed for any other reason.
    CheckinFailed,
    /// The reader is unknown or holds no printer assignment.
    NoAssignment,
    /// The assigned printer serial is not in the registry (stale assignment).
    UnknownPrinter,
}

/// The verdict on one badge tap: exactly one print job, or exactly one drop.
pub enum TapDecision {
    /// Print the holder's name on the printer at this registry position.
    Print { printer_index: usize, label_name: String },
    /// Log the reason, drop the event, serve the next one.
    Drop { reason: DropReason },
}

/// The registry position of the printer a reader's assignment points at.
/// `None` assignments and stale serials are the two routing failures.
pub fn resolve_printer(assignment: &Option<String>, registry: &PrinterRegistry) -> (r: Result<
    usize,
    DropReason,
>)
    ensures
        match r {
            Ok(i) => assignment matches Some(s) && i < registry@.len() && registry@[
                i as int
            ].serial_number == s@,
            Err(DropReason::NoAssignment) => assignment is None,
            Err(DropReason::UnknownPrinter) => assignment matches Some(s) && !registry.has_serial(
                s@,
            ),
            Err(_) => false,
        },
{
    match assignment {
        Some(serial) => match registry.index_of(serial) {
            Some(i) => Ok(i),
            None => Err(DropReason::UnknownPrinter),
        },
        None => Err(DropReason::NoAssignment),
    }
}

/// Decide one badge tap, mirroring the dispatch steps in order: a failed
/// decode, an unknown user and a failed check-in each drop the event before
/// any routing; a successful check-in is routed through the reader's
/// assignment and drops only on a missing assignment or a stale serial;
/// otherwise exactly one print job comes out, carrying the checked-in user's
/// display name.
pub fn decide_tap(ctx: &TapContext, assignment: &Option<String>, registry: &PrinterRegistry) -> (d:
    TapDecision)
    ensures
        ctx is DecodeFailed ==> d == (TapDecision::Drop {
            reason: DropReason::BadgeDecodeFailed,
        }),
        ctx matches TapContext::CheckedIn { outcome: CheckinOutcome::UnknownUser } ==> d == (
        TapDecision::Drop { reason: DropReason::UnknownUser }),
        ctx matches TapContext::CheckedIn { outcome: CheckinOutcome::Failure } ==> d == (
        TapDecision::Drop { reason: DropReason::CheckinFailed }),
        ctx matches TapContext::CheckedIn {
            outcome: CheckinOutcome::Success { display_name },
        } ==> {
            &&& assignment is None ==> d == (TapDecision::Drop {
                reason: DropReason::NoAssignment,
            })
            &&& assignment matches Some(s) ==> {
                &&& !registry.has_serial(s@) ==> d == (TapDecision::Drop {
                    reason: DropReason::UnknownPrinter,
                })
                &&& registry.has_serial(s@) ==> (d matches TapDecision::Print {
                    printer_index,
                    label_name,
                } && printer_index < registry@.len() && registry@[
                    printer_index as int
                ].serial_number == s@ && label_name@ == display_name@)
            }
        },
{
    match ctx {
        TapContext::DecodeFailed => TapDecision::Drop { reason: DropReason::BadgeDecodeFailed },
        TapContext::CheckedIn { outcome } => match outcome {
            CheckinOutcome::UnknownUser => TapDecision::Drop { reason: DropReason::UnknownUser },
            CheckinOutcome::Failure => TapDecision::Drop { reason: DropReason::CheckinFailed },
            CheckinOutcome::Success { display_name } => match resolve_printer(
                assignment,
                registry,
            ) {
                Ok(i) => TapDecision::Print {
                    printer_index: i,
                    label_name: display_name.clone(),
                },
                Err(reason) => TapDecision::Drop { reason },
            },
        },
    }
}

} // verus!
