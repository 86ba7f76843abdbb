//! The events the web server's main loop handles.
use vstd::prelude::*;
use crate::telldus_types;
use crate::webserver::webtypes;

verus! {

/// An event for the web server's main loop.
#[derive(Clone, Debug, PartialEq)]
pub enum InternalAction {
    /// A web client asks for the current status; the reply goes back on the
    /// channel the requester holds.
    RequestStatus,
    /// The reporter sent a new tellstick status.
    TellstickStatus(telldus_types::Status),
    /// A web client sets a zone's target temperature.
    SetTemp(webtypes::ZoneTemp),
}

} // verus!
