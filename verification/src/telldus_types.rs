//! What the reporter learns from the tellstick: sensors with their temperature
//! and on/off devices with their last known state.
use vstd::prelude::*;
use crate::temperature::Temperature;
use crate::text::{i32_to_string, int_decimal};

pub use crate::extmsg::State;

verus! {

/// A sensor reading.
#[derive(Clone, Debug, PartialEq)]
pub struct Sensor {
    pub id: i32,
    pub protocol: String,
    pub model: String,
    pub datatypes: i32,
    pub temperature: Temperature,
    pub timestamp: i32,
}

/// An on/off device and the state last sent to it.
#[derive(Clone, Debug, PartialEq)]
pub struct Device {
    pub id: i32,
    pub name: String,
    pub state: State,
}

/// Everything the reporter sends to its clients.
#[derive(Clone, Debug, PartialEq)]
pub struct Status {
    pub sensors: Vec<Sensor>,
    pub devices: Vec<Device>,
}

/// `Device: id=<id> name=<name> state=<ON|OFF>`.
pub open spec fn device_text(d: Device) -> Seq<char> {
    "Device: id="@ + int_decimal(d.id as int) + " name="@ + d.name@ + " state="@ + d.state.text()
}

impl Device {
    /// The text that names `state`.
    pub fn state_to_string(&self, state: &State) -> (r: String)
        ensures
            r@ == state.text(),
    {
        state.to_string()
    }

    /// `Device: id=<id> name=<name> state=<ON|OFF>`.
    pub fn to_string(&self) -> (r: String)
        ensures
            r@ == device_text(*self),
    {
        let mut r = String::from_str("Device: id=");
        let id = i32_to_string(self.id);
        r.append(id.as_str());
        r.append(" name=");
        r.append(self.name.as_str());
        r.append(" state=");
        let st = self.state_to_string(&self.state);
        r.append(st.as_str());
        r
    }
}

/// The devices part of a status text: each device overwrites the text of the
/// one before, so only the last device shows, followed by `"  ]"`; with no
/// devices the text is `"[  ]"`.
pub open spec fn devices_text(devices: Seq<Device>) -> Seq<char> {
    if devices.len() == 0 {
        "[ "@ + " ]"@
    } else {
        device_text(devices.last()) + " "@ + " ]"@
    }
}

/// The devices part of the text that describes a status.
pub fn devices_to_string(devices: &Vec<Device>) -> (r: String)
    ensures
        r@ == devices_text(devices@),
{
    let mut tmp = String::from_str("[ ");
    let mut i: usize = 0;
    while i < devices.len()
        invariant
            i <= devices@.len(),
            i == 0 ==> tmp@ == "[ "@,
            i > 0 ==> tmp@ == device_text(devices@[i - 1]) + " "@,
        decreases devices@.len() - i,
    {
        let mut next = devices[i].to_string();
        next.append(" ");
        tmp = next;
        i = i + 1;
    }
    tmp.append(" ]");
    tmp
}

} // verus!
