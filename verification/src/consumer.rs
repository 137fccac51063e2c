//! The consumption side of the broker boundary: what is decided about each
//! delivered payload. The broker transport itself is an outside
//! collaborator; the loop that polls it hands every payload to
//! [`Consumer::handle_payload`] and commits as the returned disposition says.

use vstd::prelude::*;

use crate::codec::{decode_message, spec_decode};
use crate::controller::Registry;
use crate::errors::{ErrorInfo, KserErrors};
use crate::results::ExecResult;

verus! {

/// What became of one delivered payload.
pub enum RecordOutcome {
    /// The payload was not a message envelope; it is consumed and skipped.
    Skipped(KserErrors),
    /// The payload was dispatched; the resulting envelope is carried here.
    Dispatched(ExecResult),
    /// A terminal hook of the handler failed; its error is surfaced.
    HookFailed(ErrorInfo),
}

/// The decision taken for one delivered record: its outcome, and whether
/// the record's offset is to be committed.
pub struct RecordDisposition {
    pub outcome: RecordOutcome,
    pub commit: bool,
}

/// A consumer: a registry to dispatch into. The broker client that polls
/// payloads and commits offsets stays outside and drives this object.
pub struct Consumer<R: Registry> {
    pub registry: R,
}

impl<R: Registry> Consumer<R> {
    /// A consumer dispatching into `registry`.
    pub fn new(registry: R) -> (r: Consumer<R>)
        ensures
            r.registry == registry,
    {
        Consumer { registry }
    }

    /// Processes one delivered payload: decodes it as a message envelope
    /// and dispatches it through the registry. A payload that does not
    /// decode is skipped, never dispatched, and never stops the loop. The
    /// offset is committed whatever the outcome.
    pub fn handle_payload(&self, payload: &str) -> (d: RecordDisposition)
        ensures
            d.commit == true,
            (match d.outcome {
                RecordOutcome::Skipped(_) => spec_decode(payload@) is None,
                RecordOutcome::Dispatched(res) => spec_decode(payload@) is Some && res@.uuid == (
                spec_decode(payload@)->0).uuid,
                RecordOutcome::HookFailed(e) => spec_decode(payload@) is Some && e.wf(),
            }),
    {
        match decode_message(payload) {
            Err(e) => RecordDisposition { outcome: RecordOutcome::Skipped(e), commit: true },
            Ok(mut msg) => match self.registry.execute(&mut msg) {
                Ok(res) => RecordDisposition {
                    outcome: RecordOutcome::Dispatched(res),
                    commit: true,
                },
                Err(e) => RecordDisposition {
                    outcome: RecordOutcome::HookFailed(e),
                    commit: true,
                },
            },
        }
    }
}

} // verus!
