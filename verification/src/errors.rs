//! Error taxonomy and the terminal outcome of one tunnel session.

use vstd::prelude::*;

verus! {

/// Why a session, a message, or the relayed transaction failed.
///
/// Every failure is fatal for its session; nothing is retried internally.
#[derive(Clone, Copy, Debug, PartialEq, Eq, Structural)]
pub enum TunnelError {
    /// A control line could not be parsed as a well-formed operation.
    MalformedMessage,
    /// A protocol-sequencing violation: a duplicate answer, a duplicate
    /// offer, or configuration arriving after the offer was processed.
    UnexpectedMessage,
    /// The requested route key has no configured mapping and the table
    /// holds no wildcard entry.
    UnknownRoute,
    /// The control stream ended without a line terminator.
    StreamClosed,
    /// The underlying transport reported that the peer connection failed.
    NegotiationFailed,
    /// The deadline elapsed before any data channel opened.
    NoChannelInPeerConnectionTimeout,
    /// The data channel opened but the relayed HTTP transaction did not
    /// end with a success status.
    RelayFailed,
}

/// The single terminal outcome of one tunnel session.
#[derive(Clone, Copy, Debug, PartialEq, Eq, Structural)]
pub enum Outcome {
    /// The relayed transaction completed with a success status.
    Success,
    /// The session ended for the given reason.
    Failure(TunnelError),
}

impl TunnelError {
    /// A short stable description, for callers that report the failure.
    pub fn describe(&self) -> (r: &'static str)
        ensures
            r@ == self.describe_spec(),
    {
        match self {
            TunnelError::MalformedMessage => "malformed message",
            TunnelError::UnexpectedMessage => "unexpected message",
            TunnelError::UnknownRoute => "unknown route",
            TunnelError::StreamClosed => "stream closed",
            TunnelError::NegotiationFailed => "negotiation failed",
            TunnelError::NoChannelInPeerConnectionTimeout => {
                "no channel in peer connection timeout"
            },
            TunnelError::RelayFailed => "relay failed",
        }
    }

    /// What `describe` returns for each variant.
    pub open spec fn describe_spec(&self) -> Seq<char> {
        match self {
            TunnelError::MalformedMessage => "malformed message"@,
            TunnelError::UnexpectedMessage => "unexpected message"@,
            TunnelError::UnknownRoute => "unknown route"@,
            TunnelError::StreamClosed => "stream closed"@,
            TunnelError::NegotiationFailed => "negotiation failed"@,
            TunnelError::NoChannelInPeerConnectionTimeout => {
                "no channel in peer connection timeout"@
            },
            TunnelError::RelayFailed => "relay failed"@,
        }
    }
}

impl Outcome {
    /// True of the one successful outcome.
    pub fn is_success(&self) -> (r: bool)
        ensures
            r == (*self == Outcome::Success),
    {
        match self {
            Outcome::Success => true,
            Outcome::Failure(_) => false,
        }
    }
}

} // verus!
