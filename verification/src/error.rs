//! The error taxonomy of the overlay.

use vstd::prelude::*;
use vstd::string::*;

verus! {

/// Everything that an operation of this library can fail with.
///
/// `Network` is a dial or connection failure, which the caller retries.
/// `Validation` is a message that is malformed or not authentic. `Serialization`
/// is a payload that cannot be put on the wire. `Config` is a configuration that
/// violates the mesh bounds, fatal at start-up. `Topic` is an operation on a
/// topic without a local subscription; it carries the topic's name.
#[derive(Debug, PartialEq, Eq)]
pub enum IpdmError {
    Network(String),
    Validation(String),
    Serialization(String),
    Config(String),
    Topic(String),
}

/// Mathematical value of an [`IpdmError`].
pub enum IpdmErrorView {
    Network(Seq<char>),
    Validation(Seq<char>),
    Serialization(Seq<char>),
    Config(Seq<char>),
    Topic(Seq<char>),
}

impl View for IpdmError {
    type V = IpdmErrorView;

    open spec fn view(&self) -> IpdmErrorView {
        match self {
            IpdmError::Network(m) => IpdmErrorView::Network(m@),
            IpdmError::Validation(m) => IpdmErrorView::Validation(m@),
            IpdmError::Serialization(m) => IpdmErrorView::Serialization(m@),
            IpdmError::Config(m) => IpdmErrorView::Config(m@),
            IpdmError::Topic(m) => IpdmErrorView::Topic(m@),
        }
    }
}

impl Clone for IpdmError {
    fn clone(&self) -> (r: IpdmError)
        ensures
            r@ == self@,
    {
        match self {
            IpdmError::Network(m) => IpdmError::Network(m.clone()),
            IpdmError::Validation(m) => IpdmError::Validation(m.clone()),
            IpdmError::Serialization(m) => IpdmError::Serialization(m.clone()),
            IpdmError::Config(m) => IpdmError::Config(m.clone()),
            IpdmError::Topic(m) => IpdmError::Topic(m.clone()),
        }
    }
}

pub type Result<T> = std::result::Result<T, IpdmError>;

impl IpdmErrorView {
    /// The heading under which an error of this kind is reported.
    pub open spec fn heading(self) -> Seq<char> {
        match self {
            IpdmErrorView::Network(_) => "Network error: "@,
            IpdmErrorView::Validation(_) => "Validation error: "@,
            IpdmErrorView::Serialization(_) => "Serialization error: "@,
            IpdmErrorView::Config(_) => "Configuration error: "@,
            IpdmErrorView::Topic(_) => "Topic error: "@,
        }
    }

    /// What the error carries.
    pub open spec fn detail(self) -> Seq<char> {
        match self {
            IpdmErrorView::Network(m) => m,
            IpdmErrorView::Validation(m) => m,
            IpdmErrorView::Serialization(m) => m,
            IpdmErrorView::Config(m) => m,
            IpdmErrorView::Topic(m) => m,
        }
    }
}

impl IpdmError {
    /// The error as one line of text: its heading, then its detail.
    pub fn message(&self) -> (s: String)
        ensures
            s@ == self@.heading() + self@.detail(),
    {
        match self {
            IpdmError::Network(m) => String::from_str("Network error: ").concat(m.as_str()),
            IpdmError::Validation(m) => String::from_str("Validation error: ").concat(m.as_str()),
            IpdmError::Serialization(m) => String::from_str("Serialization error: ").concat(
                m.as_str(),
            ),
            IpdmError::Config(m) => String::from_str("Configuration error: ").concat(m.as_str()),
            IpdmError::Topic(m) => String::from_str("Topic error: ").concat(m.as_str()),
        }
    }
}

} // verus!
