//! The wire form of a message: a 32-bit tag for the kind of payload, then the
//! payload's fields in their declared order. Parsing reads one message from the
//! front of its input and leaves what follows unread.

use super::message::{
    AccountMessage, AccountMessageView, IpdmMessage, IpdmMessageView, SlotMessage, SlotMessageView,
    TransactionMessage, TransactionMessageView,
};
use super::wire::{
    dec_bool, dec_bytes, dec_opt_u64, dec_str, dec_u32, dec_u64, enc_bool, enc_bytes, enc_opt_u64,
    enc_str, enc_u32, enc_u64, lemma_bool_round_trip, lemma_bytes_round_trip,
    lemma_opt_u64_round_trip, lemma_str_round_trip, lemma_u32_round_trip, lemma_u64_round_trip,
    put_bool, put_bytes, put_opt_u64, put_u32, put_u64, take_bool, take_bytes, take_opt_u64,
    take_str, take_u32, take_u64, unread,
};
use crate::error::{IpdmError, IpdmErrorView};
use vstd::prelude::*;
use vstd::string::*;
use vstd::utf8::*;

verus! {

pub open spec fn text_fits(s: Seq<char>) -> bool {
    encode_utf8(s).len() <= u64::MAX
}

impl AccountMessageView {
    /// Every length of the message can be written as a 64-bit integer.
    pub open spec fn fits(self) -> bool {
        text_fits(self.pubkey) && text_fits(self.owner) && self.data.len() <= u64::MAX
    }
}

impl SlotMessageView {
    pub open spec fn fits(self) -> bool {
        text_fits(self.status)
    }
}

impl TransactionMessageView {
    pub open spec fn fits(self) -> bool {
        text_fits(self.signature)
    }
}

impl IpdmMessageView {
    pub open spec fn fits(self) -> bool {
        match self {
            IpdmMessageView::Account(a) => a.fits(),
            IpdmMessageView::Slot(s) => s.fits(),
            IpdmMessageView::Transaction(t) => t.fits(),
        }
    }

    /// The tag that announces this kind of payload.
    pub open spec fn tag(self) -> u32 {
        match self {
            IpdmMessageView::Account(_) => 0,
            IpdmMessageView::Slot(_) => 1,
            IpdmMessageView::Transaction(_) => 2,
        }
    }
}

pub open spec fn enc_account(a: AccountMessageView) -> Seq<u8> {
    enc_str(a.pubkey) + enc_str(a.owner) + enc_u64(a.lamports) + enc_u64(a.slot) + enc_bytes(
        a.data,
    ) + enc_bool(a.executable) + enc_u64(a.rent_epoch) + enc_u64(a.write_version)
}

pub open spec fn enc_slot(s: SlotMessageView) -> Seq<u8> {
    enc_u64(s.slot) + enc_opt_u64(s.parent) + enc_str(s.status) + enc_u64(s.timestamp)
}

pub open spec fn enc_transaction(t: TransactionMessageView) -> Seq<u8> {
    enc_str(t.signature) + enc_u64(t.slot) + enc_bool(t.success) + enc_u64(t.timestamp)
}

pub open spec fn enc_message(m: IpdmMessageView) -> Seq<u8> {
    enc_u32(m.tag()) + match m {
        IpdmMessageView::Account(a) => enc_account(a),
        IpdmMessageView::Slot(s) => enc_slot(s),
        IpdmMessageView::Transaction(t) => enc_transaction(t),
    }
}

pub open spec fn dec_account(b: Seq<u8>) -> Option<(AccountMessageView, Seq<u8>)> {
    match dec_str(b) {
        Some((pubkey, b1)) => match dec_str(b1) {
            Some((owner, b2)) => match dec_u64(b2) {
                Some((lamports, b3)) => match dec_u64(b3) {
                    Some((slot, b4)) => match dec_bytes(b4) {
                        Some((data, b5)) => match dec_bool(b5) {
                            Some((executable, b6)) => match dec_u64(b6) {
                                Some((rent_epoch, b7)) => match dec_u64(b7) {
                                    Some((write_version, b8)) => Some(
                                        (
                                            AccountMessageView {
                                                pubkey,
                                                owner,
                                                lamports,
                                                slot,
                                                data,
                                                executable,
                                                rent_epoch,
                                                write_version,
                                            },
                                            b8,
                                        ),
                                    ),
                                    None => None,
                                },
                                None => None,
                            },
                            None => None,
                        },
                        None => None,
                    },
                    None => None,
                },
                None => None,
            },
            None => None,
        },
        None => None,
    }
}

pub open spec fn dec_slot(b: Seq<u8>) -> Option<(SlotMessageView, Seq<u8>)> {
    match dec_u64(b) {
        Some((slot, b1)) => match dec_opt_u64(b1) {
            Some((parent, b2)) => match dec_str(b2) {
                Some((status, b3)) => match dec_u64(b3) {
                    Some((timestamp, b4)) => Some(
                        (SlotMessageView { slot, parent, status, timestamp }, b4),
                    ),
                    None => None,
                },
                None => None,
            },
            None => None,
        },
        None => None,
    }
}

pub open spec fn dec_transaction(b: Seq<u8>) -> Option<(TransactionMessageView, Seq<u8>)> {
    match dec_str(b) {
        Some((signature, b1)) => match dec_u64(b1) {
            Some((slot, b2)) => match dec_bool(b2) {
                Some((success, b3)) => match dec_u64(b3) {
                    Some((timestamp, b4)) => Some(
                        (TransactionMessageView { signature, slot, success, timestamp }, b4),
                    ),
                    None => None,
                },
                None => None,
            },
            None => None,
        },
        None => None,
    }
}

/// One message from the front of `b`, with what follows it. A tag other than
/// the three known ones is refused.
pub open spec fn dec_message(b: Seq<u8>) -> Option<(IpdmMessageView, Seq<u8>)> {
    match dec_u32(b) {
        Some((tag, body)) => if tag == 0 {
            match dec_account(body) {
                Some((a, rest)) => Some((IpdmMessageView::Account(a), rest)),
                None => None,
            }
        } else if tag == 1 {
            match dec_slot(body) {
                Some((s, rest)) => Some((IpdmMessageView::Slot(s), rest)),
                None => None,
            }
        } else if tag == 2 {
            match dec_transaction(body) {
                Some((t, rest)) => Some((IpdmMessageView::Transaction(t), rest)),
                None => None,
            }
        } else {
            None
        },
        None => None,
    }
}

/// The message that `b` starts with, if it starts with one.
pub open spec fn decoded(b: Seq<u8>) -> Option<IpdmMessageView> {
    match dec_message(b) {
        Some((m, _)) => Some(m),
        None => None,
    }
}

pub proof fn lemma_account_round_trip(a: AccountMessageView, rest: Seq<u8>)
    requires
        a.fits(),
    ensures
        dec_account(enc_account(a) + rest) == Some((a, rest)),
{
    let r7 = enc_u64(a.write_version) + rest;
    let r6 = enc_u64(a.rent_epoch) + r7;
    let r5 = enc_bool(a.executable) + r6;
    let r4 = enc_bytes(a.data) + r5;
    let r3 = enc_u64(a.slot) + r4;
    let r2 = enc_u64(a.lamports) + r3;
    let r1 = enc_str(a.owner) + r2;
    assert(enc_account(a) + rest =~= enc_str(a.pubkey) + r1);
    lemma_str_round_trip(a.pubkey, r1);
    lemma_str_round_trip(a.owner, r2);
    lemma_u64_round_trip(a.lamports, r3);
    lemma_u64_round_trip(a.slot, r4);
    lemma_bytes_round_trip(a.data, r5);
    lemma_bool_round_trip(a.executable, r6);
    lemma_u64_round_trip(a.rent_epoch, r7);
    lemma_u64_round_trip(a.write_version, rest);
}

pub proof fn lemma_slot_round_trip(s: SlotMessageView, rest: Seq<u8>)
    requires
        s.fits(),
    ensures
        dec_slot(enc_slot(s) + rest) == Some((s, rest)),
{
    let r3 = enc_u64(s.timestamp) + rest;
    let r2 = enc_str(s.status) + r3;
    let r1 = enc_opt_u64(s.parent) + r2;
    assert(enc_slot(s) + rest =~= enc_u64(s.slot) + r1);
    lemma_u64_round_trip(s.slot, r1);
    lemma_opt_u64_round_trip(s.parent, r2);
    lemma_str_round_trip(s.status, r3);
    lemma_u64_round_trip(s.timestamp, rest);
}

pub proof fn lemma_transaction_round_trip(t: TransactionMessageView, rest: Seq<u8>)
    requires
        t.fits(),
    ensures
        dec_transaction(enc_transaction(t) + rest) == Some((t, rest)),
{
    let r3 = enc_u64(t.timestamp) + rest;
    let r2 = enc_bool(t.success) + r3;
    let r1 = enc_u64(t.slot) + r2;
    assert(enc_transaction(t) + rest =~= enc_str(t.signature) + r1);
    lemma_str_round_trip(t.signature, r1);
    lemma_u64_round_trip(t.slot, r2);
    lemma_bool_round_trip(t.success, r3);
    lemma_u64_round_trip(t.timestamp, rest);
}

/// Parsing what was encoded gives the message back, and leaves whatever
/// followed it.
pub proof fn lemma_message_round_trip(m: IpdmMessageView, rest: Seq<u8>)
    requires
        m.fits(),
    ensures
        dec_message(enc_message(m) + rest) == Some((m, rest)),
        decoded(enc_message(m)) == Some(m),
{
    match m {
        IpdmMessageView::Account(a) => {
            lemma_account_round_trip(a, rest);
            lemma_account_round_trip(a, Seq::empty());
            lemma_u32_round_trip(0, enc_account(a) + rest);
            lemma_u32_round_trip(0, enc_account(a) + Seq::<u8>::empty());
            assert(enc_message(m) + rest =~= enc_u32(0) + (enc_account(a) + rest));
            assert(enc_message(m) =~= enc_u32(0) + (enc_account(a) + Seq::<u8>::empty()));
        },
        IpdmMessageView::Slot(s) => {
            lemma_slot_round_trip(s, rest);
            lemma_slot_round_trip(s, Seq::empty());
            lemma_u32_round_trip(1, enc_slot(s) + rest);
            lemma_u32_round_trip(1, enc_slot(s) + Seq::<u8>::empty());
            assert(enc_message(m) + rest =~= enc_u32(1) + (enc_slot(s) + rest));
            assert(enc_message(m) =~= enc_u32(1) + (enc_slot(s) + Seq::<u8>::empty()));
        },
        IpdmMessageView::Transaction(t) => {
            lemma_transaction_round_trip(t, rest);
            lemma_transaction_round_trip(t, Seq::empty());
            lemma_u32_round_trip(2, enc_transaction(t) + rest);
            lemma_u32_round_trip(2, enc_transaction(t) + Seq::<u8>::empty());
            assert(enc_message(m) + rest =~= enc_u32(2) + (enc_transaction(t) + rest));
            assert(enc_message(m) =~= enc_u32(2) + (enc_transaction(t) + Seq::<u8>::empty()));
        },
    }
}

/// Writes a text and records that its length fits the length field.
fn put_text(out: &mut Vec<u8>, s: &String)
    ensures
        final(out)@ == old(out)@ + enc_str(s@),
        text_fits(s@),
{
    put_bytes(out, s.as_str().as_bytes());
}

impl AccountMessage {
    /// Appends the fields of the message to `out`.
    pub fn encode_into(&self, out: &mut Vec<u8>)
        ensures
            final(out)@ == old(out)@ + enc_account(self@),
            self@.fits(),
    {
        put_text(out, &self.pubkey);
        put_text(out, &self.owner);
        put_u64(out, self.lamports);
        put_u64(out, self.slot);
        put_bytes(out, self.data.as_slice());
        put_bool(out, self.executable);
        put_u64(out, self.rent_epoch);
        put_u64(out, self.write_version);
        assert(out@ =~= old(out)@ + enc_account(self@));
    }

    /// Reads the fields of a message from `input`, starting at `pos`.
    pub fn decode_at(input: &[u8], pos: usize) -> (r: Option<(AccountMessage, usize)>)
        requires
            pos <= input@.len(),
        ensures
            match r {
                Some((m, next)) => pos <= next <= input@.len() && dec_account(unread(input@, pos))
                    == Some((m@, unread(input@, next))),
                None => dec_account(unread(input@, pos)) is None,
            },
    {
        let (pubkey, end1) = match take_str(input, pos) {
            Some(x) => x,
            None => { return None; },
        };
        let (owner, end2) = match take_str(input, end1) {
            Some(x) => x,
            None => { return None; },
        };
        let (lamports, end3) = match take_u64(input, end2) {
            Some(x) => x,
            None => { return None; },
        };
        let (slot, end4) = match take_u64(input, end3) {
            Some(x) => x,
            None => { return None; },
        };
        let (data, end5) = match take_bytes(input, end4) {
            Some(x) => x,
            None => { return None; },
        };
        let (executable, end6) = match take_bool(input, end5) {
            Some(x) => x,
            None => { return None; },
        };
        let (rent_epoch, end7) = match take_u64(input, end6) {
            Some(x) => x,
            None => { return None; },
        };
        let (write_version, end8) = match take_u64(input, end7) {
            Some(x) => x,
            None => { return None; },
        };
        Some(
            (
                AccountMessage {
                    pubkey,
                    owner,
                    lamports,
                    slot,
                    data,
                    executable,
                    rent_epoch,
                    write_version,
                },
                end8,
            ),
        )
    }
}

impl SlotMessage {
    /// Appends the fields of the message to `out`.
    pub fn encode_into(&self, out: &mut Vec<u8>)
        ensures
            final(out)@ == old(out)@ + enc_slot(self@),
            self@.fits(),
    {
        put_u64(out, self.slot);
        put_opt_u64(out, self.parent);
        put_text(out, &self.status);
        put_u64(out, self.timestamp);
        assert(out@ =~= old(out)@ + enc_slot(self@));
    }

    /// Reads the fields of a message from `input`, starting at `pos`.
    pub fn decode_at(input: &[u8], pos: usize) -> (r: Option<(SlotMessage, usize)>)
        requires
            pos <= input@.len(),
        ensures
            match r {
                Some((m, next)) => pos <= next <= input@.len() && dec_slot(unread(input@, pos))
                    == Some((m@, unread(input@, next))),
                None => dec_slot(unread(input@, pos)) is None,
            },
    {
        let (slot, end1) = match take_u64(input, pos) {
            Some(x) => x,
            None => { return None; },
        };
        let (parent, end2) = match take_opt_u64(input, end1) {
            Some(x) => x,
            None => { return None; },
        };
        let (status, end3) = match take_str(input, end2) {
            Some(x) => x,
            None => { return None; },
        };
        let (timestamp, end4) = match take_u64(input, end3) {
            Some(x) => x,
            None => { return None; },
        };
        Some((SlotMessage { slot, parent, status, timestamp }, end4))
    }
}

impl TransactionMessage {
    /// Appends the fields of the message to `out`.
    pub fn encode_into(&self, out: &mut Vec<u8>)
        ensures
            final(out)@ == old(out)@ + enc_transaction(self@),
            self@.fits(),
    {
        put_text(out, &self.signature);
        put_u64(out, self.slot);
        put_bool(out, self.success);
        put_u64(out, self.timestamp);
        assert(out@ =~= old(out)@ + enc_transaction(self@));
    }

    /// Reads the fields of a message from `input`, starting at `pos`.
    pub fn decode_at(input: &[u8], pos: usize) -> (r: Option<(TransactionMessage, usize)>)
        requires
            pos <= input@.len(),
        ensures
            match r {
                Some((m, next)) => pos <= next <= input@.len() && dec_transaction(
                    unread(input@, pos),
                ) == Some((m@, unread(input@, next))),
                None => dec_transaction(unread(input@, pos)) is None,
            },
    {
        let (signature, end1) = match take_str(input, pos) {
            Some(x) => x,
            None => { return None; },
        };
        let (slot, end2) = match take_u64(input, end1) {
            Some(x) => x,
            None => { return None; },
        };
        let (success, end3) = match take_bool(input, end2) {
            Some(x) => x,
            None => { return None; },
        };
        let (timestamp, end4) = match take_u64(input, end3) {
            Some(x) => x,
            None => { return None; },
        };
        Some((TransactionMessage { signature, slot, success, timestamp }, end4))
    }
}

/// The detail of the error for bytes that hold no message.
pub open spec fn malformed_text() -> Seq<char> {
    "bytes do not hold a message"@
}

impl IpdmMessage {
    /// Appends the wire form of the message to `out`.
    pub fn encode_into(&self, out: &mut Vec<u8>)
        ensures
            final(out)@ == old(out)@ + enc_message(self@),
            self@.fits(),
    {
        match self {
            IpdmMessage::Account(a) => {
                put_u32(out, 0);
                a.encode_into(out);
            },
            IpdmMessage::Slot(s) => {
                put_u32(out, 1);
                s.encode_into(out);
            },
            IpdmMessage::Transaction(t) => {
                put_u32(out, 2);
                t.encode_into(out);
            },
        }
        assert(out@ =~= old(out)@ + enc_message(self@));
    }

    /// The wire form of the message. Parsing it gives the message back.
    pub fn encode(&self) -> (bytes: Vec<u8>)
        ensures
            bytes@ == enc_message(self@),
            decoded(bytes@) == Some(self@),
    {
        let mut out: Vec<u8> = Vec::new();
        self.encode_into(&mut out);
        proof {
            assert(out@ =~= enc_message(self@));
            lemma_message_round_trip(self@, Seq::empty());
        }
        out
    }

    /// Reads one message from `input`, starting at `pos`, and says where it
    /// ends.
    pub fn decode_at(input: &[u8], pos: usize) -> (r: Option<(IpdmMessage, usize)>)
        requires
            pos <= input@.len(),
        ensures
            match r {
                Some((m, next)) => pos <= next <= input@.len() && dec_message(unread(input@, pos))
                    == Some((m@, unread(input@, next))),
                None => dec_message(unread(input@, pos)) is None,
            },
    {
        let (tag, body) = match take_u32(input, pos) {
            Some(x) => x,
            None => { return None; },
        };
        if tag == 0 {
            match AccountMessage::decode_at(input, body) {
                Some((a, next)) => Some((IpdmMessage::Account(a), next)),
                None => None,
            }
        } else if tag == 1 {
            match SlotMessage::decode_at(input, body) {
                Some((s, next)) => Some((IpdmMessage::Slot(s), next)),
                None => None,
            }
        } else if tag == 2 {
            match TransactionMessage::decode_at(input, body) {
                Some((t, next)) => Some((IpdmMessage::Transaction(t), next)),
                None => None,
            }
        } else {
            None
        }
    }

    /// The message that `bytes` start with. Bytes after it are ignored; bytes
    /// that start with no message are a `Serialization` error.
    pub fn decode(bytes: &[u8]) -> (r: Result<IpdmMessage, IpdmError>)
        ensures
            match r {
                Ok(m) => decoded(bytes@) == Some(m@),
                Err(e) => decoded(bytes@) is None && e@ == IpdmErrorView::Serialization(
                    malformed_text(),
                ),
            },
    {
        assert(unread(bytes@, 0) =~= bytes@);
        match IpdmMessage::decode_at(bytes, 0) {
            Some((m, _)) => Ok(m),
            None => Err(IpdmError::Serialization(String::from_str("bytes do not hold a message"))),
        }
    }
}

} // verus!
