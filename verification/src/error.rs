//! The errors that the library reports.

use vstd::prelude::*;

verus! {

/// Why an input was turned away.
#[derive(Clone, Debug, PartialEq, Eq)]
pub enum Error {
    /// The text is not of the form `service.group` or `service.group@organization`.
    InvalidServiceGroup(String),
    /// The text names none of the known topologies.
    UnknownTopology(String),
    /// The text names none of the update strategies.
    UnknownStrategy(String),
    /// The text names none of the sub-commands.
    CommandNotImplemented(String),
    /// The text of a listen address is not an address and a port.
    InvalidListenAddr(String),
    /// The ring key is not 32 bytes long.
    InvalidRingKey,
}

/// An error with its text as a sequence of characters.
pub enum ErrorView {
    InvalidServiceGroup(Seq<char>),
    UnknownTopology(Seq<char>),
    UnknownStrategy(Seq<char>),
    CommandNotImplemented(Seq<char>),
    InvalidListenAddr(Seq<char>),
    InvalidRingKey,
}

impl View for Error {
    type V = ErrorView;

    open spec fn view(&self) -> ErrorView {
        match *self {
            Error::InvalidServiceGroup(text) => ErrorView::InvalidServiceGroup(text@),
            Error::UnknownTopology(text) => ErrorView::UnknownTopology(text@),
            Error::UnknownStrategy(text) => ErrorView::UnknownStrategy(text@),
            Error::CommandNotImplemented(text) => ErrorView::CommandNotImplemented(text@),
            Error::InvalidListenAddr(text) => ErrorView::InvalidListenAddr(text@),
            Error::InvalidRingKey => ErrorView::InvalidRingKey,
        }
    }
}

} // verus!
