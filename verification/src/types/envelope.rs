//! The envelope that travels between peers: a message, the public key of the
//! peer that published it, that peer's sequence number, and its signature over
//! all of these.

use super::codec::{dec_message, enc_message, lemma_message_round_trip, malformed_text};
use super::message::{IpdmMessage, IpdmMessageView};
use super::wire::{
    dec_bytes, dec_u64, enc_bytes, enc_u64, lemma_bytes_round_trip, lemma_u64_round_trip,
    put_bytes, put_u64, take_bytes, take_u64, unread,
};
use super::MessageId;
use crate::error::{IpdmError, IpdmErrorView};
use std::collections::hash_map::DefaultHasher;
use std::hash::Hasher;
use vstd::bytes::*;
use vstd::prelude::*;
use vstd::std_specs::hash::*;
use vstd::string::*;

verus! {

/// A signed message on its way through the overlay.
#[derive(Debug, PartialEq, Eq)]
pub struct MessageEnvelope {
    pub message: IpdmMessage,
    /// The encoded public key of the publisher.
    pub sender: Vec<u8>,
    /// The publisher's sequence number.
    pub sequence: u64,
    /// The publisher's signature over message, sender and sequence number.
    pub signature: Vec<u8>,
}

/// Mathematical value of a [`MessageEnvelope`].
pub struct MessageEnvelopeView {
    pub message: IpdmMessageView,
    pub sender: Seq<u8>,
    pub sequence: u64,
    pub signature: Seq<u8>,
}

impl View for MessageEnvelope {
    type V = MessageEnvelopeView;

    open spec fn view(&self) -> MessageEnvelopeView {
        MessageEnvelopeView {
            message: self.message@,
            sender: self.sender@,
            sequence: self.sequence,
            signature: self.signature@,
        }
    }
}

impl Clone for MessageEnvelope {
    fn clone(&self) -> (r: MessageEnvelope)
        ensures
            r@ == self@,
    {
        MessageEnvelope {
            message: self.message.clone(),
            sender: self.sender.clone(),
            sequence: self.sequence,
            signature: self.signature.clone(),
        }
    }
}

/// The identifier of a payload: the standard hasher's digest of the payload's
/// length and bytes.
pub open spec fn message_id_of(payload: Seq<u8>) -> MessageId {
    MessageId(DefaultHasher::spec_finish(seq![enc_u64(payload.len() as u64), payload]))
}

/// Computes the identifier of a payload.
pub fn message_id_fn(payload: &[u8]) -> (id: MessageId)
    ensures
        id == message_id_of(payload@),
{
    let mut hasher = DefaultHasher::new();
    let length = u64_to_le_bytes(payload.len() as u64);
    hasher.write(length.as_slice());
    hasher.write(payload);
    assert(hasher@ =~= seq![enc_u64(payload@.len() as u64), payload@]);
    MessageId(hasher.finish())
}

impl MessageEnvelopeView {
    /// Every length of the envelope can be written as a 64-bit integer.
    pub open spec fn fits(self) -> bool {
        self.message.fits() && self.sender.len() <= u64::MAX && self.signature.len() <= u64::MAX
    }

    /// The bytes that the signature is made over.
    pub open spec fn signed_part(self) -> Seq<u8> {
        enc_message(self.message) + enc_bytes(self.sender) + enc_u64(self.sequence)
    }

    /// The identifier of the envelope. It depends on the message alone.
    pub open spec fn id(self) -> MessageId {
        message_id_of(enc_message(self.message))
    }
}

/// The wire form of an envelope.
pub open spec fn enc_envelope(e: MessageEnvelopeView) -> Seq<u8> {
    e.signed_part() + enc_bytes(e.signature)
}

/// One envelope from the front of `b`, with what follows it.
pub open spec fn dec_envelope(b: Seq<u8>) -> Option<(MessageEnvelopeView, Seq<u8>)> {
    match dec_message(b) {
        Some((message, b1)) => match dec_bytes(b1) {
            Some((sender, b2)) => match dec_u64(b2) {
                Some((sequence, b3)) => match dec_bytes(b3) {
                    Some((signature, b4)) => Some(
                        (MessageEnvelopeView { message, sender, sequence, signature }, b4),
                    ),
                    None => None,
                },
                None => None,
            },
            None => None,
        },
        None => None,
    }
}

/// The envelope that `b` starts with, if it starts with one.
pub open spec fn opened(b: Seq<u8>) -> Option<MessageEnvelopeView> {
    match dec_envelope(b) {
        Some((e, _)) => Some(e),
        None => None,
    }
}

/// Decoding an encoded envelope gives the envelope back, whatever follows it
/// on the wire.
pub proof fn lemma_envelope_round_trip(e: MessageEnvelopeView, rest: Seq<u8>)
    requires
        e.fits(),
    ensures
        dec_envelope(enc_envelope(e) + rest) == Some((e, rest)),
        opened(enc_envelope(e)) == Some(e),
{
    lemma_envelope_round_trip_with(e, rest);
    lemma_envelope_round_trip_with(e, Seq::empty());
    assert(enc_envelope(e) + Seq::<u8>::empty() =~= enc_envelope(e));
}

proof fn lemma_envelope_round_trip_with(e: MessageEnvelopeView, rest: Seq<u8>)
    requires
        e.fits(),
    ensures
        dec_envelope(enc_envelope(e) + rest) == Some((e, rest)),
{
    let r3 = enc_bytes(e.signature) + rest;
    let r2 = enc_u64(e.sequence) + r3;
    let r1 = enc_bytes(e.sender) + r2;
    assert(enc_envelope(e) + rest =~= enc_message(e.message) + r1);
    lemma_message_round_trip(e.message, r1);
    lemma_bytes_round_trip(e.sender, r2);
    lemma_u64_round_trip(e.sequence, r3);
    lemma_bytes_round_trip(e.signature, rest);
}

/// Envelopes with the same wire form have the same identifier.
pub proof fn lemma_wire_form_fixes_id(a: MessageEnvelopeView, b: MessageEnvelopeView)
    requires
        a.fits(),
        b.fits(),
        enc_envelope(a) == enc_envelope(b),
    ensures
        a == b,
        a.id() == b.id(),
{
    lemma_envelope_round_trip(a, Seq::empty());
    lemma_envelope_round_trip(b, Seq::empty());
}

impl MessageEnvelope {
    /// The bytes that the signature is made over.
    pub fn signing_input(message: &IpdmMessage, sender: &[u8], sequence: u64) -> (bytes: Vec<u8>)
        ensures
            bytes@ == enc_message(message@) + enc_bytes(sender@) + enc_u64(sequence),
            message@.fits(),
            sender@.len() <= u64::MAX,
    {
        let mut out: Vec<u8> = Vec::new();
        message.encode_into(&mut out);
        put_bytes(&mut out, sender);
        put_u64(&mut out, sequence);
        assert(out@ =~= enc_message(message@) + enc_bytes(sender@) + enc_u64(sequence));
        out
    }

    /// The wire form of the envelope. Decoding it gives the envelope back.
    pub fn encode(&self) -> (bytes: Vec<u8>)
        ensures
            bytes@ == enc_envelope(self@),
            opened(bytes@) == Some(self@),
            self@.fits(),
    {
        let mut out = MessageEnvelope::signing_input(
            &self.message,
            self.sender.as_slice(),
            self.sequence,
        );
        put_bytes(&mut out, self.signature.as_slice());
        proof {
            lemma_envelope_round_trip(self@, Seq::empty());
        }
        out
    }

    /// The envelope that `bytes` start with. Bytes after it are ignored; bytes
    /// that start with no envelope are a `Serialization` error.
    pub fn decode(bytes: &[u8]) -> (r: Result<MessageEnvelope, IpdmError>)
        ensures
            match r {
                Ok(e) => opened(bytes@) == Some(e@),
                Err(e) => opened(bytes@) is None && e@ == IpdmErrorView::Serialization(
                    malformed_text(),
                ),
            },
    {
        assert(unread(bytes@, 0) =~= bytes@);
        let parsed = MessageEnvelope::decode_at(bytes);
        match parsed {
            Some(e) => Ok(e),
            None => Err(IpdmError::Serialization(String::from_str("bytes do not hold a message"))),
        }
    }

    fn decode_at(bytes: &[u8]) -> (r: Option<MessageEnvelope>)
        ensures
            match r {
                Some(e) => opened(bytes@) == Some(e@),
                None => opened(bytes@) is None,
            },
    {
        assert(unread(bytes@, 0) =~= bytes@);
        let (message, end1) = match IpdmMessage::decode_at(bytes, 0) {
            Some(x) => x,
            None => { return None; },
        };
        let (sender, end2) = match take_bytes(bytes, end1) {
            Some(x) => x,
            None => { return None; },
        };
        let (sequence, end3) = match take_u64(bytes, end2) {
            Some(x) => x,
            None => { return None; },
        };
        let (signature, _end4) = match take_bytes(bytes, end3) {
            Some(x) => x,
            None => { return None; },
        };
        Some(MessageEnvelope { message, sender, sequence, signature })
    }

    /// The identifier of the envelope: that of its message's wire form.
    pub fn id(&self) -> (id: MessageId)
        ensures
            id == self@.id(),
    {
        let payload = self.message.encode();
        message_id_fn(payload.as_slice())
    }
}

} // verus!
