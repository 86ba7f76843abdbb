//! What the web server and its web clients say to each other.
use vstd::prelude::*;
use crate::extmsg::State;
use crate::temperature::Temperature;

verus! {

/// A switch as web clients see it.
#[derive(Clone, Debug, PartialEq)]
pub struct Switch {
    pub name: String,
    pub state: State,
}

/// A zone as web clients see it: measured temperature, target, switches.
#[derive(Clone, Debug, PartialEq)]
pub struct Zone {
    pub name: String,
    pub temp: Temperature,
    pub target: Temperature,
    pub switches: Vec<Switch>,
}

/// The status web clients see.
#[derive(Clone, Debug, PartialEq)]
pub struct Status {
    pub zones: Vec<Zone>,
}

/// A new target temperature for the zone of that name.
#[derive(Clone, Debug, PartialEq)]
pub struct ZoneTemp {
    pub name: String,
    pub temp: Temperature,
}

/// What a web client asks.
#[derive(Clone, Debug, PartialEq)]
pub enum Action {
    Login,
    RequestStatus,
    Status(Status),
    SetTemp(ZoneTemp),
}

/// A web client's message: its hash and the action asked for.
#[derive(Clone, Debug, PartialEq)]
pub struct Message {
    pub hash: String,
    pub action: Action,
}

} // verus!
