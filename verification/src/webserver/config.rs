//! The web server's configuration and the mapping from heating zones to the
//! sensor and switches that serve them.
use vstd::prelude::*;
use crate::temperature::Temperature;

verus! {

/// The web server's configuration.
#[derive(Clone, Debug, PartialEq)]
pub struct Config {
    /// Hash that a web client must present.
    pub hash: String,
    pub websocket_port: i32,
    pub status_port: i32,
    /// Address of the reporter, `host:port`.
    pub telldus_client: String,
    pub telldus_password: String,
}

/// The example configuration that `write_config` prints.
pub fn sample_config() -> (c: Config)
    ensures
        c.hash@ == "98398f51aa78aaf6309be3d93ad27fb1c1b21cb6"@,
        c.websocket_port == 8876,
        c.status_port == 8875,
        c.telldus_client@ == "localhost:8890"@,
        c.telldus_password@ == "passord"@,
{
    let port: i32 = 8876;
    Config {
        hash: String::from_str("98398f51aa78aaf6309be3d93ad27fb1c1b21cb6"),
        websocket_port: port,
        status_port: port - 1,
        telldus_client: String::from_str("localhost:8890"),
        telldus_password: String::from_str("passord"),
    }
}

/// A switch that serves a zone.
#[derive(Clone, Debug, PartialEq)]
pub struct Switch {
    pub id: i32,
    pub name: String,
}

/// A heating zone: the sensor with the zone's id measures it, and its
/// switches heat it towards the target.
#[derive(Clone, Debug, PartialEq)]
pub struct Zone {
    pub id: i32,
    pub name: String,
    pub target: Temperature,
    pub switches: Vec<Switch>,
}

/// All zones.
#[derive(Clone, Debug, PartialEq)]
pub struct Mapping {
    pub zones: Vec<Zone>,
}

/// The example mapping that `write_mapping_test` prints: zone 1, target 1.0,
/// served by switches 1 and 2.
pub fn sample_mapping() -> (m: Mapping)
    ensures
        m.zones@.len() == 1,
        m.zones@[0].id == 1,
        m.zones@[0].name@ == "zone1"@,
        m.zones@[0].target == (Temperature { bits: 0x3f80_0000 }),
        m.zones@[0].switches@.len() == 2,
        m.zones@[0].switches@[0].id == 1,
        m.zones@[0].switches@[0].name@ == "sw1"@,
        m.zones@[0].switches@[1].id == 2,
        m.zones@[0].switches@[1].name@ == "sw2"@,
{
    let mut switches: Vec<Switch> = Vec::new();
    switches.push(Switch { id: 1, name: String::from_str("sw1") });
    switches.push(Switch { id: 2, name: String::from_str("sw2") });
    let zone1 = Zone {
        id: 1,
        name: String::from_str("zone1"),
        target: Temperature { bits: 0x3f80_0000 },
        switches,
    };
    let mut zones: Vec<Zone> = Vec::new();
    zones.push(zone1);
    Mapping { zones }
}

} // verus!
