//! Control operations exchanged over the signaling stream.
//!
//! One operation travels per line. The payloads are opaque byte strings: SDP
//! blobs and serialized ICE candidates pass through the engine untouched.

use vstd::prelude::*;

use crate::routes::{RouteEntry, RouteEntryModel};

verus! {

/// The routing and ICE-server configuration carried by a `Config` operation.
#[derive(Debug, PartialEq, Eq)]
pub struct ConfigData {
    /// STUN/TURN server URLs handed to the transport.
    pub stun_servers: Vec<Vec<u8>>,
    /// Route key to backend origin pairs, in configured order.
    pub http_routes: Vec<RouteEntry>,
}

/// The ghost value of a `ConfigData`.
pub struct ConfigModel {
    pub stun_servers: Seq<Seq<u8>>,
    pub http_routes: Seq<RouteEntryModel>,
}

impl View for ConfigData {
    type V = ConfigModel;

    open spec fn view(&self) -> ConfigModel {
        ConfigModel {
            stun_servers: self.stun_servers.deep_view(),
            http_routes: self.http_routes.deep_view(),
        }
    }
}

impl DeepView for ConfigData {
    type V = ConfigModel;

    open spec fn deep_view(&self) -> ConfigModel {
        self.view()
    }
}

/// One control operation, created by either side, sent as one line, and
/// discarded after handling.
#[derive(Debug, PartialEq, Eq)]
pub enum ControlOperation {
    /// Routing and ICE-server configuration; must precede the offer.
    Config(ConfigData),
    /// Asks the receiving side to start negotiation for the named channel.
    RequestOffer(Vec<u8>),
    /// A serialized SDP offer.
    Offer(Vec<u8>),
    /// A serialized SDP answer.
    Answer(Vec<u8>),
    /// A serialized ICE candidate, or the empty string as the
    /// end-of-candidates marker.
    Candidate(Vec<u8>),
}

/// The ghost value of a `ControlOperation`.
pub enum OpModel {
    Config(ConfigModel),
    RequestOffer(Seq<u8>),
    Offer(Seq<u8>),
    Answer(Seq<u8>),
    Candidate(Seq<u8>),
}

impl View for ControlOperation {
    type V = OpModel;

    open spec fn view(&self) -> OpModel {
        match self {
            ControlOperation::Config(c) => OpModel::Config(c@),
            ControlOperation::RequestOffer(name) => OpModel::RequestOffer(name@),
            ControlOperation::Offer(sdp) => OpModel::Offer(sdp@),
            ControlOperation::Answer(sdp) => OpModel::Answer(sdp@),
            ControlOperation::Candidate(c) => OpModel::Candidate(c@),
        }
    }
}

impl DeepView for ControlOperation {
    type V = OpModel;

    open spec fn deep_view(&self) -> OpModel {
        self.view()
    }
}

} // verus!
