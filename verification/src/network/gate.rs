//! The validation gate: the structural check, the authenticity check and the
//! duplicate check that an inbound envelope passes before it is remembered and
//! propagated.

use super::seen::{remembered, SeenCache};
use crate::identity::{signature_verifies, verify_signature};
use crate::types::envelope::{opened, MessageEnvelope, MessageEnvelopeView};
use crate::types::{
    verdict_of, MessageId, ValidationResult, ValidationResultView,
};
use vstd::prelude::*;

verus! {

/// What validation decides about an inbound envelope.
#[derive(Debug)]
pub enum Admission {
    /// The envelope passed every check and its identifier is now remembered.
    Accepted(MessageEnvelope, MessageId),
    /// The envelope is valid, and its identifier was remembered already.
    Duplicate(MessageId),
    /// The envelope did not pass the stateless checks.
    Rejected(ValidationResult),
}

/// Mathematical value of an [`Admission`].
pub enum AdmissionView {
    Accepted(MessageEnvelopeView, MessageId),
    Duplicate(MessageId),
    Rejected(ValidationResultView),
}

impl View for Admission {
    type V = AdmissionView;

    open spec fn view(&self) -> AdmissionView {
        match self {
            Admission::Accepted(e, id) => AdmissionView::Accepted(e@, *id),
            Admission::Duplicate(id) => AdmissionView::Duplicate(*id),
            Admission::Rejected(v) => AdmissionView::Rejected(v@),
        }
    }
}

/// The decision about an envelope: one that did not decode, or whose
/// signature was not checked or does not verify, is rejected; a valid one is a
/// duplicate when the window holds its identifier, and accepted otherwise.
pub open spec fn admission_of(
    window: Seq<MessageId>,
    decoded: Option<MessageEnvelopeView>,
    signature_ok: Option<bool>,
) -> AdmissionView {
    match decoded {
        Some(e) => if signature_ok == Some(true) {
            if window.contains(e.id()) {
                AdmissionView::Duplicate(e.id())
            } else {
                AdmissionView::Accepted(e, e.id())
            }
        } else {
            AdmissionView::Rejected(verdict_of(true, signature_ok))
        },
        None => AdmissionView::Rejected(verdict_of(false, signature_ok)),
    }
}

/// The window after the decision: only an accepted envelope is
/// remembered.
pub open spec fn window_after(
    window: Seq<MessageId>,
    capacity: nat,
    decoded: Option<MessageEnvelopeView>,
    signature_ok: Option<bool>,
) -> Seq<MessageId> {
    match admission_of(window, decoded, signature_ok) {
        AdmissionView::Accepted(_, id) => remembered(window, capacity, id),
        _ => window,
    }
}

/// The signature check of an envelope, where it decoded.
pub open spec fn authenticity_of(decoded: Option<MessageEnvelopeView>) -> Option<bool> {
    match decoded {
        Some(e) => Some(signature_verifies(e.sender, e.signed_part(), e.signature)),
        None => None,
    }
}

/// Decides about an envelope from the outcome of the two stateless checks:
/// `decoded` is what the structural check gave, `signature_ok` what the
/// signature check gave, where it was made.
pub fn decide(
    seen: &mut SeenCache,
    decoded: Option<MessageEnvelope>,
    signature_ok: Option<bool>,
) -> (a: Admission)
    requires
        old(seen).wf(),
    ensures
        final(seen).wf(),
        final(seen).spec_capacity() == old(seen).spec_capacity(),
        a@ == admission_of(
            old(seen)@,
            match decoded {
                Some(e) => Some(e@),
                None => None,
            },
            signature_ok,
        ),
        final(seen)@ == window_after(
            old(seen)@,
            old(seen).spec_capacity(),
            match decoded {
                Some(e) => Some(e@),
                None => None,
            },
            signature_ok,
        ),
        a is Rejected ==> final(seen)@ == old(seen)@,
{
    let verdict = ValidationResult::of(decoded.is_some(), signature_ok);
    match decoded {
        Some(envelope) => {
            if verdict.is_valid() {
                let id = envelope.id();
                if seen.insert(id) {
                    Admission::Accepted(envelope, id)
                } else {
                    Admission::Duplicate(id)
                }
            } else {
                Admission::Rejected(verdict)
            }
        },
        None => Admission::Rejected(verdict),
    }
}

/// Checks the signature of an envelope against the public key that the
/// envelope names as its sender.
pub fn authenticate(envelope: &MessageEnvelope) -> (ok: bool)
    ensures
        ok == signature_verifies(envelope@.sender, envelope@.signed_part(), envelope@.signature),
{
    let input = MessageEnvelope::signing_input(
        &envelope.message,
        envelope.sender.as_slice(),
        envelope.sequence,
    );
    verify_signature(envelope.sender.as_slice(), input.as_slice(), envelope.signature.as_slice())
}

/// Validates wire bytes: decodes them, checks the signature, and
/// decides.
pub fn validate(seen: &mut SeenCache, wire: &[u8]) -> (a: Admission)
    requires
        old(seen).wf(),
    ensures
        final(seen).wf(),
        final(seen).spec_capacity() == old(seen).spec_capacity(),
        a@ == admission_of(old(seen)@, opened(wire@), authenticity_of(opened(wire@))),
        final(seen)@ == window_after(
            old(seen)@,
            old(seen).spec_capacity(),
            opened(wire@),
            authenticity_of(opened(wire@)),
        ),
        a is Rejected ==> final(seen)@ == old(seen)@,
{
    match MessageEnvelope::decode(wire) {
        Ok(envelope) => {
            let ok = authenticate(&envelope);
            decide(seen, Some(envelope), Some(ok))
        },
        Err(_) => decide(seen, None, None),
    }
}

} // verus!
