//! Decisions the reporter makes about what the tellstick reports: which
//! devices count as on/off switches, what state a device is in, which sensor
//! readings are kept, and which command switches a device.
//!
//! The tellstick itself is queried by the application through the telldus-core
//! C library; it hands the raw answers to the functions here.
use vstd::prelude::*;
use crate::extmsg::State;
use crate::temperature::Temperature;
use crate::telldus_types::{Device, Sensor, Status};

verus! {

/// Device method: turn on.
pub const TURN_ON: i32 = 1;

/// Device method: turn off.
pub const TURN_OFF: i32 = 2;

/// Sensor value kind: temperature.
pub const TEMPERATURE: i32 = 1;

/// The code telldus-core returns on success; failures are negative.
pub const SUCCESS: i32 = 0;

/// The state a device is in after `value` was the last command sent to it.
pub open spec fn state_after(value: i32) -> State {
    if value == TURN_ON {
        State::On
    } else {
        State::Off
    }
}

/// The state a device is in after `value` was the last command sent to it:
/// on after a turn-on command, off after anything else.
pub fn map_state(value: i32) -> (s: State)
    ensures
        s == state_after(value),
{
    if value == TURN_ON {
        State::On
    } else {
        State::Off
    }
}

/// The method mask supports turning on or turning off.
pub open spec fn on_off_methods(methods: i32) -> bool {
    (3i32 & methods) != 0
}

/// Whether a device whose supported methods are `methods` can be turned on or off.
pub fn is_on_off_device(methods: i32) -> (r: bool)
    ensures
        r == on_off_methods(methods),
{
    let req = TURN_ON | TURN_OFF;
    assert(req == 3i32) by (bit_vector)
        requires
            req == (1i32 | 2i32),
    ;
    let mask = req & methods;
    mask != 0
}

/// The methods query succeeded and names an on/off device.
pub open spec fn methods_accepted(methods: i32) -> bool {
    methods >= SUCCESS && on_off_methods(methods)
}

/// Whether a device is kept, judged by its answer to the methods query: the
/// query did not fail and the device can be turned on or off.
pub fn accepts_methods(methods: i32) -> (r: bool)
    ensures
        r == methods_accepted(methods),
{
    methods >= SUCCESS && is_on_off_device(methods)
}

/// The answers the tellstick gave about one device.
#[derive(Clone, Debug, PartialEq)]
pub struct DeviceReading {
    pub id: i32,
    /// Answer to the methods query (negative on failure).
    pub methods: i32,
    pub name: String,
    /// Last command sent to the device (negative on failure).
    pub lastsent: i32,
}

/// The answers the tellstick gave about one sensor.
#[derive(Clone, Debug, PartialEq)]
pub struct SensorReading {
    pub id: i32,
    pub protocol: String,
    pub model: String,
    pub datatypes: i32,
    /// Answer to the temperature query (negative on failure).
    pub value_code: i32,
    pub temperature: Temperature,
    pub timestamp: i32,
}

/// The device a reading describes, if it is kept.
pub open spec fn device_of(r: DeviceReading) -> Option<Device> {
    if methods_accepted(r.methods) && r.lastsent >= SUCCESS {
        Some(Device { id: r.id, name: r.name, state: state_after(r.lastsent) })
    } else {
        None
    }
}

/// The devices kept from a sequence of readings, in order.
pub open spec fn kept_devices(s: Seq<DeviceReading>) -> Seq<Device>
    decreases s.len(),
{
    if s.len() == 0 {
        seq![]
    } else {
        kept_devices(s.drop_last()) + match device_of(s.last()) {
            Some(d) => seq![d],
            None => seq![],
        }
    }
}

/// The sensor a reading describes, if it is kept.
pub open spec fn sensor_of(r: SensorReading) -> Option<Sensor> {
    if r.value_code == SUCCESS {
        Some(
            Sensor {
                id: r.id,
                protocol: r.protocol,
                model: r.model,
                datatypes: r.datatypes,
                temperature: r.temperature,
                timestamp: r.timestamp,
            },
        )
    } else {
        None
    }
}

/// The sensors kept from a sequence of readings, in order.
pub open spec fn kept_sensors(s: Seq<SensorReading>) -> Seq<Sensor>
    decreases s.len(),
{
    if s.len() == 0 {
        seq![]
    } else {
        kept_sensors(s.drop_last()) + match sensor_of(s.last()) {
            Some(x) => seq![x],
            None => seq![],
        }
    }
}

/// The on/off devices among the readings, in order: a device is kept when its
/// methods query succeeded and names an on/off device, and the query for the
/// last command sent to it succeeded; its state follows from that command.
pub fn get_devices(readings: &Vec<DeviceReading>) -> (r: Vec<Device>)
    ensures
        r@ == kept_devices(readings@),
{
    let mut devices: Vec<Device> = Vec::new();
    let mut i: usize = 0;
    while i < readings.len()
        invariant
            i <= readings@.len(),
            devices@ == kept_devices(readings@.take(i as int)),
        decreases readings@.len() - i,
    {
        let reading = &readings[i];
        assert(readings@.take(i + 1).drop_last() =~= readings@.take(i as int));
        if accepts_methods(reading.methods) && reading.lastsent >= SUCCESS {
            let state = map_state(reading.lastsent);
            devices.push(Device { id: reading.id, name: reading.name.clone(), state });
        }
        i = i + 1;
    }
    assert(readings@.take(readings@.len() as int) =~= readings@);
    devices
}

/// The sensors among the readings whose temperature could be read, in order.
pub fn get_sensors(readings: &Vec<SensorReading>) -> (r: Vec<Sensor>)
    ensures
        r@ == kept_sensors(readings@),
{
    let mut sensors: Vec<Sensor> = Vec::new();
    let mut i: usize = 0;
    while i < readings.len()
        invariant
            i <= readings@.len(),
            sensors@ == kept_sensors(readings@.take(i as int)),
        decreases readings@.len() - i,
    {
        let reading = &readings[i];
        assert(readings@.take(i + 1).drop_last() =~= readings@.take(i as int));
        if reading.value_code == SUCCESS {
            sensors.push(
                Sensor {
                    id: reading.id,
                    protocol: reading.protocol.clone(),
                    model: reading.model.clone(),
                    datatypes: reading.datatypes,
                    temperature: reading.temperature,
                    timestamp: reading.timestamp,
                },
            );
        }
        i = i + 1;
    }
    assert(readings@.take(readings@.len() as int) =~= readings@);
    sensors
}

/// The status the tellstick readings describe.
pub fn get_status(sensors: &Vec<SensorReading>, devices: &Vec<DeviceReading>) -> (s: Status)
    ensures
        s.sensors@ == kept_sensors(sensors@),
        s.devices@ == kept_devices(devices@),
{
    Status { sensors: get_sensors(sensors), devices: get_devices(devices) }
}

/// A command for the tellstick.
#[derive(Clone, Copy, Debug, PartialEq, Eq, Structural)]
pub enum Command {
    TurnOn(i32),
    TurnOff(i32),
}

/// The command that puts device `id` into `newstate`.
pub fn switch(id: i32, newstate: State) -> (c: Command)
    ensures
        c == (match newstate {
            State::On => Command::TurnOn(id),
            State::Off => Command::TurnOff(id),
        }),
{
    match newstate {
        State::On => Command::TurnOn(id),
        State::Off => Command::TurnOff(id),
    }
}

/// Every kept device is an on/off device whose state follows from the last
/// command sent to it.
pub proof fn lemma_kept_devices_are_on_off(s: Seq<DeviceReading>)
    ensures
        forall|i: int|
            0 <= i < kept_devices(s).len() ==> exists|j: int|
                0 <= j < s.len() && #[trigger] device_of(s[j]) == Some(
                    #[trigger] kept_devices(s)[i],
                ),
    decreases s.len(),
{
    if s.len() > 0 {
        lemma_kept_devices_are_on_off(s.drop_last());
        let prev = kept_devices(s.drop_last());
        assert forall|i: int| 0 <= i < kept_devices(s).len() implies exists|j: int|
            0 <= j < s.len() && #[trigger] device_of(s[j]) == Some(
                #[trigger] kept_devices(s)[i],
            ) by {
            if i < prev.len() {
                assert(kept_devices(s)[i] == prev[i]);
                let j = choose|j: int|
                    0 <= j < s.drop_last().len() && #[trigger] device_of(s.drop_last()[j])
                        == Some(#[trigger] prev[i]);
                assert(s[j] == s.drop_last()[j]);
            } else {
                assert(device_of(s[s.len() - 1]) == Some(kept_devices(s)[i]));
            }
        }
    }
}

/// `kept` is the sensors read from `s` at the increasing positions `idx`:
/// exactly the readings whose temperature query succeeded (code 0), each
/// sensor carrying its reading's own fields.
pub open spec fn selects_sensors(s: Seq<SensorReading>, kept: Seq<Sensor>, idx: Seq<int>) -> bool {
    &&& idx.len() == kept.len()
    &&& forall|i: int|
        0 <= i < idx.len() ==> {
            let r = s[#[trigger] idx[i]];
            &&& 0 <= idx[i] < s.len()
            &&& r.value_code == 0
            &&& kept[i].id == r.id
            &&& kept[i].protocol == r.protocol
            &&& kept[i].model == r.model
            &&& kept[i].datatypes == r.datatypes
            &&& kept[i].temperature == r.temperature
            &&& kept[i].timestamp == r.timestamp
        }
    &&& forall|i1: int, i2: int| 0 <= i1 < i2 < idx.len() ==> #[trigger] idx[i1] < #[trigger] idx[i2]
    &&& forall|j: int|
        0 <= j < s.len() && (#[trigger] s[j]).value_code == 0 ==> exists|i: int|
            0 <= i < idx.len() && #[trigger] idx[i] == j
}

/// The kept sensors are the readings whose temperature was read, in order,
/// each with the reading's id, protocol, model, data types, temperature and
/// timestamp.
pub proof fn lemma_kept_sensors_are_readings(s: Seq<SensorReading>)
    ensures
        exists|idx: Seq<int>| selects_sensors(s, kept_sensors(s), idx),
    decreases s.len(),
{
    if s.len() == 0 {
        assert(selects_sensors(s, kept_sensors(s), Seq::<int>::empty()));
    } else {
        let t = s.drop_last();
        lemma_kept_sensors_are_readings(t);
        let idx0 = choose|idx: Seq<int>| selects_sensors(t, kept_sensors(t), idx);
        let k0 = kept_sensors(t);
        let n = s.len() - 1;
        assert forall|j: int| 0 <= j < t.len() implies #[trigger] t[j] == s[j] by {}
        if s.last().value_code == 0 {
            let idx = idx0.push(n);
            let kept = kept_sensors(s);
            assert(kept =~= k0.push(sensor_of(s.last())->0));
            assert forall|j: int|
                0 <= j < s.len() && (#[trigger] s[j]).value_code == 0 implies exists|i: int|
                0 <= i < idx.len() && #[trigger] idx[i] == j by {
                if j == n {
                    assert(idx[idx0.len() as int] == j);
                } else {
                    assert(t[j] == s[j]);
                    let i = choose|i: int| 0 <= i < idx0.len() && #[trigger] idx0[i] == j;
                    assert(idx[i] == j);
                }
            }
            assert forall|i: int| 0 <= i < idx.len() implies {
                let r = s[#[trigger] idx[i]];
                &&& 0 <= idx[i] < s.len()
                &&& r.value_code == 0
                &&& kept[i].id == r.id
                &&& kept[i].protocol == r.protocol
                &&& kept[i].model == r.model
                &&& kept[i].datatypes == r.datatypes
                &&& kept[i].temperature == r.temperature
                &&& kept[i].timestamp == r.timestamp
            } by {
                if i < idx0.len() {
                    assert(idx[i] == idx0[i]);
                    assert(kept[i] == k0[i]);
                    assert(s[idx0[i]] == t[idx0[i]]);
                } else {
                    assert(s.last() == s[n]);
                }
            }
            assert forall|i1: int, i2: int| 0 <= i1 < i2 < idx.len() implies #[trigger] idx[i1]
                < #[trigger] idx[i2] by {
                if i2 < idx0.len() {
                    assert(idx0[i1] < idx0[i2]);
                } else {
                    assert(0 <= idx0[i1] < t.len());
                }
            }
            assert(selects_sensors(s, kept, idx));
        } else {
            assert(kept_sensors(s) =~= k0);
            assert forall|j: int|
                0 <= j < s.len() && (#[trigger] s[j]).value_code == 0 implies exists|i: int|
                0 <= i < idx0.len() && #[trigger] idx0[i] == j by {
                assert(s.last() == s[n]);
                assert(t[j] == s[j]);
            }
            assert forall|i: int| 0 <= i < idx0.len() implies #[trigger] s[idx0[i]] == t[idx0[i]] by {}
            assert(selects_sensors(s, kept_sensors(s), idx0));
        }
    }
}

/// `kept` is the devices read from `s` at the increasing positions `idx`:
/// exactly the readings whose methods query succeeded, naming a device that
/// can be turned on (bit 0) or off (bit 1), and whose last-command query
/// succeeded; each device carries its reading's id and name, and is on
/// exactly when the last command sent to it was the turn-on command (1).
pub open spec fn selects_devices(s: Seq<DeviceReading>, kept: Seq<Device>, idx: Seq<int>) -> bool {
    &&& idx.len() == kept.len()
    &&& forall|i: int|
        0 <= i < idx.len() ==> {
            let r = s[#[trigger] idx[i]];
            &&& 0 <= idx[i] < s.len()
            &&& r.methods >= 0 && r.methods % 4 != 0 && r.lastsent >= 0
            &&& kept[i].id == r.id
            &&& kept[i].name == r.name
            &&& (kept[i].state == State::On) == (r.lastsent == 1)
        }
    &&& forall|i1: int, i2: int| 0 <= i1 < i2 < idx.len() ==> #[trigger] idx[i1] < #[trigger] idx[i2]
    &&& forall|j: int|
        0 <= j < s.len() && (#[trigger] s[j]).methods >= 0 && s[j].methods % 4 != 0
            && s[j].lastsent >= 0 ==> exists|i: int| 0 <= i < idx.len() && #[trigger] idx[i] == j
}

proof fn lemma_on_off_methods(m: i32)
    ensures
        m >= 0 ==> (on_off_methods(m) <==> m % 4 != 0),
{
    assert(m >= 0 ==> ((3i32 & m) != 0 <==> m % 4 != 0)) by (bit_vector);
}

/// The kept devices are the on/off devices among the readings, in order, each
/// with the reading's id and name, and on exactly when the last command sent
/// to it turned it on.
pub proof fn lemma_kept_devices_are_readings(s: Seq<DeviceReading>)
    ensures
        exists|idx: Seq<int>| selects_devices(s, kept_devices(s), idx),
    decreases s.len(),
{
    if s.len() == 0 {
        assert(selects_devices(s, kept_devices(s), Seq::<int>::empty()));
    } else {
        let t = s.drop_last();
        lemma_kept_devices_are_readings(t);
        let idx0 = choose|idx: Seq<int>| selects_devices(t, kept_devices(t), idx);
        let k0 = kept_devices(t);
        let n = s.len() - 1;
        let last = s.last();
        lemma_on_off_methods(last.methods);
        assert(last == s[n]);
        assert forall|j: int| 0 <= j < t.len() implies #[trigger] t[j] == s[j] by {}
        if last.methods >= 0 && last.methods % 4 != 0 && last.lastsent >= 0 {
            let idx = idx0.push(n);
            let kept = kept_devices(s);
            assert(kept =~= k0.push(device_of(last)->0));
            assert forall|j: int|
                0 <= j < s.len() && (#[trigger] s[j]).methods >= 0 && s[j].methods % 4 != 0
                    && s[j].lastsent >= 0 implies exists|i: int|
                0 <= i < idx.len() && #[trigger] idx[i] == j by {
                if j == n {
                    assert(idx[idx0.len() as int] == j);
                } else {
                    assert(t[j] == s[j]);
                    let i = choose|i: int| 0 <= i < idx0.len() && #[trigger] idx0[i] == j;
                    assert(idx[i] == j);
                }
            }
            assert forall|i: int| 0 <= i < idx.len() implies {
                let r = s[#[trigger] idx[i]];
                &&& 0 <= idx[i] < s.len()
                &&& r.methods >= 0 && r.methods % 4 != 0 && r.lastsent >= 0
                &&& kept[i].id == r.id
                &&& kept[i].name == r.name
                &&& (kept[i].state == State::On) == (r.lastsent == 1)
            } by {
                if i < idx0.len() {
                    assert(idx[i] == idx0[i]);
                    assert(kept[i] == k0[i]);
                    assert(s[idx0[i]] == t[idx0[i]]);
                }
            }
            assert forall|i1: int, i2: int| 0 <= i1 < i2 < idx.len() implies #[trigger] idx[i1]
                < #[trigger] idx[i2] by {
                if i2 < idx0.len() {
                    assert(idx0[i1] < idx0[i2]);
                } else {
                    assert(0 <= idx0[i1] < t.len());
                }
            }
            assert(selects_devices(s, kept, idx));
        } else {
            assert(kept_devices(s) =~= k0);
            assert forall|j: int|
                0 <= j < s.len() && (#[trigger] s[j]).methods >= 0 && s[j].methods % 4 != 0
                    && s[j].lastsent >= 0 implies exists|i: int|
                0 <= i < idx0.len() && #[trigger] idx0[i] == j by {
                assert(t[j] == s[j]);
            }
            assert forall|i: int| 0 <= i < idx0.len() implies #[trigger] s[idx0[i]] == t[idx0[i]] by {}
            assert(selects_devices(s, kept_devices(s), idx0));
        }
    }
}

} // verus!
