//! The application payloads carried by the overlay.

use vstd::prelude::*;

verus! {

/// An account update.
#[derive(Debug, PartialEq, Eq)]
pub struct AccountMessage {
    pub pubkey: String,
    pub owner: String,
    pub lamports: u64,
    pub slot: u64,
    pub data: Vec<u8>,
    pub executable: bool,
    pub rent_epoch: u64,
    pub write_version: u64,
}

/// A slot or finality update.
#[derive(Debug, PartialEq, Eq)]
pub struct SlotMessage {
    pub slot: u64,
    pub parent: Option<u64>,
    pub status: String,
    pub timestamp: u64,
}

/// The result of a transaction.
#[derive(Debug, PartialEq, Eq)]
pub struct TransactionMessage {
    pub signature: String,
    pub slot: u64,
    pub success: bool,
    pub timestamp: u64,
}

/// The three kinds of payload.
#[derive(Debug, PartialEq, Eq)]
pub enum IpdmMessage {
    Account(AccountMessage),
    Slot(SlotMessage),
    Transaction(TransactionMessage),
}

/// Mathematical value of an [`AccountMessage`].
pub struct AccountMessageView {
    pub pubkey: Seq<char>,
    pub owner: Seq<char>,
    pub lamports: u64,
    pub slot: u64,
    pub data: Seq<u8>,
    pub executable: bool,
    pub rent_epoch: u64,
    pub write_version: u64,
}

/// Mathematical value of a [`SlotMessage`].
pub struct SlotMessageView {
    pub slot: u64,
    pub parent: Option<u64>,
    pub status: Seq<char>,
    pub timestamp: u64,
}

/// Mathematical value of a [`TransactionMessage`].
pub struct TransactionMessageView {
    pub signature: Seq<char>,
    pub slot: u64,
    pub success: bool,
    pub timestamp: u64,
}

/// Mathematical value of an [`IpdmMessage`].
pub enum IpdmMessageView {
    Account(AccountMessageView),
    Slot(SlotMessageView),
    Transaction(TransactionMessageView),
}

impl View for AccountMessage {
    type V = AccountMessageView;

    open spec fn view(&self) -> AccountMessageView {
        AccountMessageView {
            pubkey: self.pubkey@,
            owner: self.owner@,
            lamports: self.lamports,
            slot: self.slot,
            data: self.data@,
            executable: self.executable,
            rent_epoch: self.rent_epoch,
            write_version: self.write_version,
        }
    }
}

impl View for SlotMessage {
    type V = SlotMessageView;

    open spec fn view(&self) -> SlotMessageView {
        SlotMessageView {
            slot: self.slot,
            parent: self.parent,
            status: self.status@,
            timestamp: self.timestamp,
        }
    }
}

impl View for TransactionMessage {
    type V = TransactionMessageView;

    open spec fn view(&self) -> TransactionMessageView {
        TransactionMessageView {
            signature: self.signature@,
            slot: self.slot,
            success: self.success,
            timestamp: self.timestamp,
        }
    }
}

impl View for IpdmMessage {
    type V = IpdmMessageView;

    open spec fn view(&self) -> IpdmMessageView {
        match self {
            IpdmMessage::Account(a) => IpdmMessageView::Account(a@),
            IpdmMessage::Slot(s) => IpdmMessageView::Slot(s@),
            IpdmMessage::Transaction(t) => IpdmMessageView::Transaction(t@),
        }
    }
}

impl Clone for AccountMessage {
    fn clone(&self) -> (r: AccountMessage)
        ensures
            r@ == self@,
    {
        AccountMessage {
            pubkey: self.pubkey.clone(),
            owner: self.owner.clone(),
            lamports: self.lamports,
            slot: self.slot,
            data: self.data.clone(),
            executable: self.executable,
            rent_epoch: self.rent_epoch,
            write_version: self.write_version,
        }
    }
}

impl Clone for SlotMessage {
    fn clone(&self) -> (r: SlotMessage)
        ensures
            r@ == self@,
    {
        SlotMessage {
            slot: self.slot,
            parent: self.parent,
            status: self.status.clone(),
            timestamp: self.timestamp,
        }
    }
}

impl Clone for TransactionMessage {
    fn clone(&self) -> (r: TransactionMessage)
        ensures
            r@ == self@,
    {
        TransactionMessage {
            signature: self.signature.clone(),
            slot: self.slot,
            success: self.success,
            timestamp: self.timestamp,
        }
    }
}

impl Clone for IpdmMessage {
    fn clone(&self) -> (r: IpdmMessage)
        ensures
            r@ == self@,
    {
        match self {
            IpdmMessage::Account(a) => IpdmMessage::Account(a.clone()),
            IpdmMessage::Slot(s) => IpdmMessage::Slot(s.clone()),
            IpdmMessage::Transaction(t) => IpdmMessage::Transaction(t.clone()),
        }
    }
}

} // verus!
