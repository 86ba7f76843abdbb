//! The web server: it turns the tellstick status into what web clients see,
//! keeps zone targets, and decides which switches to flip.
use vstd::prelude::*;
use crate::extmsg::{Action, Message, State, SwitchData};
use crate::telldus_types::{Device, Sensor, Status};
use crate::temperature::Temperature;

pub mod config;
pub mod internaltypes;
pub mod webtypes;

verus! {

/// The state of the first device with id `id`.
pub open spec fn first_device_state(devices: Seq<Device>, id: i32) -> Option<State>
    decreases devices.len(),
{
    if devices.len() == 0 {
        None
    } else if devices[0].id == id {
        Some(devices[0].state)
    } else {
        first_device_state(devices.drop_first(), id)
    }
}

/// The temperature of the first sensor with id `id`.
pub open spec fn first_sensor_temp(sensors: Seq<Sensor>, id: i32) -> Option<Temperature>
    decreases sensors.len(),
{
    if sensors.len() == 0 {
        None
    } else if sensors[0].id == id {
        Some(sensors[0].temperature)
    } else {
        first_sensor_temp(sensors.drop_first(), id)
    }
}

/// The state of the first device in `status` with id `id`.
pub fn get_switch_state(status: &Status, id: i32) -> (r: Option<State>)
    ensures
        r == first_device_state(status.devices@, id),
{
    let devices = &status.devices;
    let mut i: usize = 0;
    assert(devices@.skip(0) =~= devices@);
    while i < devices.len()
        invariant
            devices@ == status.devices@,
            i <= devices@.len(),
            first_device_state(devices@, id) == first_device_state(devices@.skip(i as int), id),
        decreases devices@.len() - i,
    {
        let ghost rest = devices@.skip(i as int);
        assert(rest.len() > 0);
        assert(rest[0] == devices@[i as int]);
        if devices[i].id == id {
            assert(first_device_state(rest, id) == Some(rest[0].state));
            return Some(devices[i].state);
        }
        assert(rest.drop_first() =~= devices@.skip(i + 1));
        i = i + 1;
    }
    assert(devices@.skip(i as int).len() == 0);
    None
}

/// The temperature of the first sensor in `status` with id `id`.
pub fn get_temp(status: &Status, id: i32) -> (r: Option<Temperature>)
    ensures
        r == first_sensor_temp(status.sensors@, id),
{
    let sensors = &status.sensors;
    let mut i: usize = 0;
    assert(sensors@.skip(0) =~= sensors@);
    while i < sensors.len()
        invariant
            sensors@ == status.sensors@,
            i <= sensors@.len(),
            first_sensor_temp(sensors@, id) == first_sensor_temp(sensors@.skip(i as int), id),
        decreases sensors@.len() - i,
    {
        let ghost rest = sensors@.skip(i as int);
        assert(rest.len() > 0);
        assert(rest[0] == sensors@[i as int]);
        if sensors[i].id == id {
            assert(first_sensor_temp(rest, id) == Some(rest[0].temperature));
            return Some(sensors[i].temperature);
        }
        assert(rest.drop_first() =~= sensors@.skip(i + 1));
        i = i + 1;
    }
    assert(sensors@.skip(i as int).len() == 0);
    None
}

/// Every switch of `zone` has a device in `status`.
pub open spec fn zone_complete(status: Status, zone: config::Zone) -> bool {
    forall|j: int|
        0 <= j < zone.switches@.len() ==> (#[trigger] first_device_state(
            status.devices@,
            zone.switches@[j].id,
        )) is Some
}

/// The temperature shown for a zone: that of its sensor, or zero without one.
pub open spec fn shown_temp(status: Status, zone: config::Zone) -> Temperature {
    match first_sensor_temp(status.sensors@, zone.id) {
        Some(t) => t,
        None => Temperature { bits: 0 },
    }
}

/// `web` shows `zone` as it stands in `status`: same name and target, the
/// zone's temperature, and each switch with the state of its device.
pub open spec fn zone_shown(status: Status, zone: config::Zone, web: webtypes::Zone) -> bool {
    &&& web.name == zone.name
    &&& web.target == zone.target
    &&& web.temp == shown_temp(status, zone)
    &&& web.switches@.len() == zone.switches@.len()
    &&& forall|j: int|
        0 <= j < zone.switches@.len() ==> {
            &&& (#[trigger] web.switches@[j]).name == zone.switches@[j].name
            &&& Some(web.switches@[j].state) == first_device_state(
                status.devices@,
                zone.switches@[j].id,
            )
        }
}

/// `web` is what web clients see of `status` under `mapping`: the zones in
/// mapping order, up to (not including) the first zone that has a switch
/// without a device.
pub open spec fn is_webstatus_of(web: webtypes::Status, status: Status, mapping: config::Mapping) -> bool {
    let n = web.zones@.len();
    &&& n <= mapping.zones@.len()
    &&& forall|i: int|
        0 <= i < n ==> zone_complete(status, #[trigger] mapping.zones@[i]) && zone_shown(
            status,
            mapping.zones@[i],
            web.zones@[i],
        )
    &&& n < mapping.zones@.len() ==> !zone_complete(status, mapping.zones@[n as int])
}

/// What web clients see of `status` under `mapping`.
pub fn to_webstatus(status: &Status, mapping: &config::Mapping) -> (web: webtypes::Status)
    ensures
        is_webstatus_of(web, *status, *mapping),
{
    let mut zones: Vec<webtypes::Zone> = Vec::new();
    let mut i: usize = 0;
    while i < mapping.zones.len()
        invariant
            i <= mapping.zones@.len(),
            zones@.len() == i,
            forall|k: int|
                0 <= k < i ==> zone_complete(*status, #[trigger] mapping.zones@[k]) && zone_shown(
                    *status,
                    mapping.zones@[k],
                    zones@[k],
                ),
        decreases mapping.zones@.len() - i,
    {
        let zone = &mapping.zones[i];
        let mut webswitches: Vec<webtypes::Switch> = Vec::new();
        let mut j: usize = 0;
        while j < zone.switches.len()
            invariant
                i < mapping.zones@.len(),
                *zone == mapping.zones@[i as int],
                zones@.len() == i,
                forall|k: int|
                    0 <= k < i ==> zone_complete(*status, #[trigger] mapping.zones@[k])
                        && zone_shown(*status, mapping.zones@[k], zones@[k]),
                j <= zone.switches@.len(),
                webswitches@.len() == j,
                forall|k: int|
                    0 <= k < j ==> {
                        &&& (#[trigger] webswitches@[k]).name == zone.switches@[k].name
                        &&& Some(webswitches@[k].state) == first_device_state(
                            status.devices@,
                            zone.switches@[k].id,
                        )
                    },
            decreases zone.switches@.len() - j,
        {
            let switch = &zone.switches[j];
            let state = match get_switch_state(status, switch.id) {
                Some(s) => s,
                None => {
                    assert(first_device_state(status.devices@, zone.switches@[j as int].id)
                        is None);
                    return webtypes::Status { zones };
                },
            };
            webswitches.push(webtypes::Switch { name: switch.name.clone(), state });
            j = j + 1;
        }
        let temp = match get_temp(status, zone.id) {
            Some(t) => t,
            None => Temperature::zero(),
        };
        let webzone = webtypes::Zone {
            name: zone.name.clone(),
            temp,
            target: zone.target,
            switches: webswitches,
        };
        zones.push(webzone);
        proof {
            assert forall|k: int| 0 <= k < zone.switches@.len() implies (#[trigger] first_device_state(
                status.devices@,
                zone.switches@[k].id,
            )) is Some by {
                assert(Some(webswitches@[k].state) == first_device_state(
                    status.devices@,
                    zone.switches@[k].id,
                ));
            }
            assert(zone_complete(*status, mapping.zones@[i as int]));
            assert(zone_shown(*status, mapping.zones@[i as int], zones@[i as int]));
        }
        i = i + 1;
    }
    webtypes::Status { zones }
}

/// `new` is `old` with its target set to the temperature of `zt` when the
/// names match, and unchanged otherwise.
pub open spec fn zone_retargeted(old: config::Zone, new: config::Zone, zt: webtypes::ZoneTemp) -> bool {
    &&& new.id == old.id
    &&& new.name == old.name
    &&& new.switches == old.switches
    &&& new.target == if old.name@ == zt.name@ {
        zt.temp
    } else {
        old.target
    }
}

/// `new` is `old` with the target of every zone named as in `zt` set to the
/// temperature of `zt`.
pub open spec fn mapping_retargeted(old: config::Mapping, new: config::Mapping, zt: webtypes::ZoneTemp) -> bool {
    &&& new.zones@.len() == old.zones@.len()
    &&& forall|i: int|
        0 <= i < old.zones@.len() ==> zone_retargeted(#[trigger] old.zones@[i], new.zones@[i], zt)
}

/// Sets the target of every zone named as in `zonetemp` to its temperature.
pub fn set_new_temp(oldmapping: &mut config::Mapping, zonetemp: webtypes::ZoneTemp)
    ensures
        mapping_retargeted(*old(oldmapping), *final(oldmapping), zonetemp),
{
    let mut i: usize = 0;
    while i < oldmapping.zones.len()
        invariant
            i <= oldmapping.zones@.len(),
            oldmapping.zones@.len() == old(oldmapping).zones@.len(),
            forall|k: int|
                0 <= k < i ==> zone_retargeted(
                    #[trigger] old(oldmapping).zones@[k],
                    oldmapping.zones@[k],
                    zonetemp,
                ),
            forall|k: int|
                i <= k < oldmapping.zones@.len() ==> #[trigger] oldmapping.zones@[k]
                    == old(oldmapping).zones@[k],
        decreases oldmapping.zones@.len() - i,
    {
        if oldmapping.zones[i].name.eq(&zonetemp.name) {
            oldmapping.zones[i].target = zonetemp.temp;
        }
        i = i + 1;
    }
}

/// Why no switch commands could be planned.
#[derive(Clone, Copy, Debug, PartialEq, Eq, Structural)]
pub enum SwitchError {
    /// No sensor measures the zone with this id.
    MissingSensor(i32),
    /// A zone below its target has a switch with this id and no device.
    MissingDevice(i32),
}

/// How planning ends when it yields no commands: with an error, or, for a
/// zone above its target with a switch that has no device, in a state the
/// server does not survive (it stops).
#[derive(Clone, Copy, Debug, PartialEq, Eq, Structural)]
pub enum PlanEnd {
    Failed(SwitchError),
    Panics(i32),
}

/// `head` before the commands of `r`, or the error of `r`.
pub open spec fn prepend(head: Seq<SwitchData>, r: Result<Seq<SwitchData>, PlanEnd>) -> Result<
    Seq<SwitchData>,
    PlanEnd,
> {
    match r {
        Ok(s) => Ok(head + s),
        Err(e) => Err(e),
    }
}

/// The commands or the error a planning result holds, with the commands as a sequence.
pub open spec fn plan_view(r: Result<Vec<SwitchData>, PlanEnd>) -> Result<
    Seq<SwitchData>,
    PlanEnd,
> {
    match r {
        Ok(v) => Ok(v@),
        Err(e) => Err(e),
    }
}

/// The command for a device in state `st`: when heating, one that turns it on
/// if it is off; when cooling, one that turns it off if it is on.
pub open spec fn command_for(id: i32, st: State, heat: bool) -> Seq<SwitchData> {
    if heat && st == State::Off {
        seq![SwitchData { id, state: State::On }]
    } else if !heat && st == State::On {
        seq![SwitchData { id, state: State::Off }]
    } else {
        seq![]
    }
}

/// The commands for a zone's switches, in order; the first switch without a
/// device is an error.
pub open spec fn switch_commands(switches: Seq<config::Switch>, devices: Seq<Device>, heat: bool) -> Result<
    Seq<SwitchData>,
    PlanEnd,
>
    decreases switches.len(),
{
    if switches.len() == 0 {
        Ok(seq![])
    } else {
        let id = switches[0].id;
        match first_device_state(devices, id) {
            None => Err(
                if heat {
                    PlanEnd::Failed(SwitchError::MissingDevice(id))
                } else {
                    PlanEnd::Panics(id)
                },
            ),
            Some(st) => prepend(
                command_for(id, st, heat),
                switch_commands(switches.drop_first(), devices, heat),
            ),
        }
    }
}

/// The commands for one zone: its switches heat when its sensor is below the
/// target and cool when it is above; none when it is at the target.
pub open spec fn zone_plan(zone: config::Zone, status: Status) -> Result<Seq<SwitchData>, PlanEnd> {
    match first_sensor_temp(status.sensors@, zone.id) {
        None => Err(PlanEnd::Failed(SwitchError::MissingSensor(zone.id))),
        Some(t) => {
            let cold = if t.below(zone.target) {
                switch_commands(zone.switches@, status.devices@, true)
            } else {
                Ok(seq![])
            };
            let hot = if zone.target.below(t) {
                switch_commands(zone.switches@, status.devices@, false)
            } else {
                Ok(seq![])
            };
            match cold {
                Err(e) => Err(e),
                Ok(a) => prepend(a, hot),
            }
        },
    }
}

/// The commands for all zones, in zone order; the first error stops the plan.
pub open spec fn switch_plan(zones: Seq<config::Zone>, status: Status) -> Result<
    Seq<SwitchData>,
    PlanEnd,
>
    decreases zones.len(),
{
    if zones.len() == 0 {
        Ok(seq![])
    } else {
        match zone_plan(zones[0], status) {
            Err(e) => Err(e),
            Ok(a) => prepend(a, switch_plan(zones.drop_first(), status)),
        }
    }
}

proof fn lemma_prepend_assoc(a: Seq<SwitchData>, b: Seq<SwitchData>, r: Result<Seq<SwitchData>, PlanEnd>)
    ensures
        prepend(a, prepend(b, r)) == prepend(a + b, r),
{
    match r {
        Ok(s) => {
            assert(a + (b + s) =~= (a + b) + s);
        },
        Err(_) => {},
    }
}

proof fn lemma_prepend_empty(r: Result<Seq<SwitchData>, PlanEnd>)
    ensures
        prepend(seq![], r) == r,
{
    match r {
        Ok(s) => {
            assert(Seq::<SwitchData>::empty() + s =~= s);
        },
        Err(_) => {},
    }
}

fn zone_switch_commands(switches: &Vec<config::Switch>, status: &Status, heat: bool) -> (r: Result<
    Vec<SwitchData>,
    PlanEnd,
>)
    ensures
        plan_view(r) == switch_commands(switches@, status.devices@, heat),
{
    let mut list: Vec<SwitchData> = Vec::new();
    let mut j: usize = 0;
    assert(switches@.skip(0) =~= switches@);
    proof {
        lemma_prepend_empty(switch_commands(switches@, status.devices@, heat));
    }
    while j < switches.len()
        invariant
            j <= switches@.len(),
            switch_commands(switches@, status.devices@, heat) == prepend(
                list@,
                switch_commands(switches@.skip(j as int), status.devices@, heat),
            ),
        decreases switches@.len() - j,
    {
        let id = switches[j].id;
        let ghost rest = switches@.skip(j as int);
        assert(rest.len() > 0 && rest[0].id == id);
        assert(rest.drop_first() =~= switches@.skip(j + 1));
        let ghost before = list@;
        match get_switch_state(status, id) {
            None => {
                return Err(
                    if heat {
                        PlanEnd::Failed(SwitchError::MissingDevice(id))
                    } else {
                        PlanEnd::Panics(id)
                    },
                );
            },
            Some(st) => {
                if heat && st == State::Off {
                    list.push(SwitchData { id, state: State::On });
                } else if !heat && st == State::On {
                    list.push(SwitchData { id, state: State::Off });
                }
                proof {
                    assert(list@ =~= before + command_for(id, st, heat));
                    lemma_prepend_assoc(
                        before,
                        command_for(id, st, heat),
                        switch_commands(switches@.skip(j + 1), status.devices@, heat),
                    );
                }
            },
        }
        j = j + 1;
    }
    assert(switches@.skip(j as int).len() == 0);
    assert(list@ + Seq::<SwitchData>::empty() =~= list@);
    Ok(list)
}

fn plan_switches(mapping: &config::Mapping, status: &Status) -> (r: Result<
    Vec<SwitchData>,
    PlanEnd,
>)
    ensures
        plan_view(r) == switch_plan(mapping.zones@, *status),
{
    let mut list: Vec<SwitchData> = Vec::new();
    let mut i: usize = 0;
    assert(mapping.zones@.skip(0) =~= mapping.zones@);
    proof {
        lemma_prepend_empty(switch_plan(mapping.zones@, *status));
    }
    while i < mapping.zones.len()
        invariant
            i <= mapping.zones@.len(),
            switch_plan(mapping.zones@, *status) == prepend(
                list@,
                switch_plan(mapping.zones@.skip(i as int), *status),
            ),
        decreases mapping.zones@.len() - i,
    {
        let zone = &mapping.zones[i];
        let ghost rest = mapping.zones@.skip(i as int);
        assert(rest.len() > 0 && rest[0] == *zone);
        assert(rest.drop_first() =~= mapping.zones@.skip(i + 1));
        let ghost before = list@;
        let temp = match get_temp(status, zone.id) {
            None => {
                return Err(PlanEnd::Failed(SwitchError::MissingSensor(zone.id)));
            },
            Some(t) => t,
        };
        let ghost mut a: Seq<SwitchData> = seq![];
        if temp.less_than(&zone.target) {
            match zone_switch_commands(&zone.switches, status, true) {
                Err(e) => {
                    return Err(e);
                },
                Ok(mut cmds) => {
                    proof {
                        a = cmds@;
                    }
                    list.append(&mut cmds);
                },
            }
        }
        let ghost mut b: Seq<SwitchData> = seq![];
        if zone.target.less_than(&temp) {
            match zone_switch_commands(&zone.switches, status, false) {
                Err(e) => {
                    proof {
                        if temp.below(zone.target) {
                            lemma_prepend_empty(Err(e));
                        }
                    }
                    return Err(e);
                },
                Ok(mut cmds) => {
                    proof {
                        b = cmds@;
                    }
                    list.append(&mut cmds);
                },
            }
        }
        proof {
            assert(list@ =~= before + (a + b));
            assert(zone_plan(*zone, *status) == Ok::<Seq<SwitchData>, PlanEnd>(a + b)) by {
                assert(a + Seq::<SwitchData>::empty() =~= a);
                assert(Seq::<SwitchData>::empty() + b =~= b);
            }
            lemma_prepend_assoc(before, a + b, switch_plan(mapping.zones@.skip(i + 1), *status));
        }
        i = i + 1;
    }
    assert(mapping.zones@.skip(i as int).len() == 0);
    assert(list@ + Seq::<SwitchData>::empty() =~= list@);
    Ok(list)
}

/// Planning ends in a state the server does not survive: a zone above its
/// target has a switch without a device.
pub open spec fn plan_panics(zones: Seq<config::Zone>, status: Status) -> bool {
    switch_plan(zones, status) matches Err(PlanEnd::Panics(_))
}

/// The planning outcome a result of `update_switches` stands for.
pub open spec fn outcome(r: Result<Vec<SwitchData>, SwitchError>) -> Result<Seq<SwitchData>, PlanEnd> {
    match r {
        Ok(v) => Ok(v@),
        Err(e) => Err(PlanEnd::Failed(e)),
    }
}

/// The switch commands that bring each zone towards its target: for a zone
/// whose sensor is below the target, turn on each of its switches that is off;
/// above the target, turn off each that is on. Stops at the first zone without
/// a sensor or zone below its target with a switch without a device. Not
/// defined when a zone above its target has a switch without a device.
pub fn update_switches(mapping: &config::Mapping, status: &Status) -> (r: Result<
    Vec<SwitchData>,
    SwitchError,
>)
    requires
        !plan_panics(mapping.zones@, *status),
    ensures
        outcome(r) == switch_plan(mapping.zones@, *status),
{
    match plan_switches(mapping, status) {
        Ok(v) => Ok(v),
        Err(PlanEnd::Failed(e)) => Err(e),
        Err(PlanEnd::Panics(_)) => {
            assert(false);
            Ok(Vec::new())
        },
    }
}

/// Whether planning the switches for `status` under `mapping` ends in a state
/// the server does not survive.
pub fn plan_would_panic(mapping: &config::Mapping, status: &Status) -> (r: bool)
    ensures
        r == plan_panics(mapping.zones@, *status),
{
    match plan_switches(mapping, status) {
        Err(PlanEnd::Panics(_)) => true,
        _ => false,
    }
}

/// The messages that ask the reporter to carry out `swlist`: one per command,
/// each with the reporter's password; none for an empty list.
pub fn switch_devices(swlist: Vec<SwitchData>, password: &String) -> (r: Vec<Message>)
    ensures
        r@.len() == swlist@.len(),
        forall|i: int|
            0 <= i < swlist@.len() ==> (#[trigger] r@[i]).password == *password && r@[i].action
                == Action::Switch(swlist@[i]),
{
    let mut messages: Vec<Message> = Vec::new();
    let mut i: usize = 0;
    while i < swlist.len()
        invariant
            i <= swlist@.len(),
            messages@.len() == i,
            forall|k: int|
                0 <= k < i ==> (#[trigger] messages@[k]).password == *password
                    && messages@[k].action == Action::Switch(swlist@[k]),
        decreases swlist@.len() - i,
    {
        messages.push(Message { password: password.clone(), action: Action::Switch(swlist[i]) });
        i = i + 1;
    }
    messages
}

/// What the web server does with a web client's message.
#[derive(Clone, Debug, PartialEq)]
pub enum MessageDecision {
    /// The client logged in; the text of its message is echoed back.
    LoggedIn(String),
    /// Reply with the current status.
    StatusRequested,
    /// Set a zone's target temperature.
    NewTarget(webtypes::ZoneTemp),
    /// Nothing to do.
    Ignored,
}

/// The web server's answer to a web client's message `message`, whose text is
/// `text`: a message with a hash other than `hash` is ignored, and so is a
/// status sent by a client.
pub fn handle_message(message: webtypes::Message, text: String, hash: &String) -> (r:
    MessageDecision)
    ensures
        message.hash@ != hash@ ==> r == MessageDecision::Ignored,
        message.hash@ == hash@ ==> r == match message.action {
            webtypes::Action::Login => MessageDecision::LoggedIn(text),
            webtypes::Action::RequestStatus => MessageDecision::StatusRequested,
            webtypes::Action::Status(_) => MessageDecision::Ignored,
            webtypes::Action::SetTemp(zt) => MessageDecision::NewTarget(zt),
        },
{
    if !message.hash.eq(hash) {
        return MessageDecision::Ignored;
    }
    match message.action {
        webtypes::Action::Login => MessageDecision::LoggedIn(text),
        webtypes::Action::RequestStatus => MessageDecision::StatusRequested,
        webtypes::Action::Status(_) => MessageDecision::Ignored,
        webtypes::Action::SetTemp(zonetemp) => MessageDecision::NewTarget(zonetemp),
    }
}

/// The protocol a web client must offer.
pub open spec fn offers_protocol(protocols: Seq<String>) -> bool {
    exists|i: int| 0 <= i < protocols.len() && (#[trigger] protocols[i])@ == "rust-websocket"@
}

/// Whether a web client that offers `protocols` is served: it must offer
/// `rust-websocket`.
pub fn accepts_protocols(protocols: &Vec<String>) -> (r: bool)
    ensures
        r == offers_protocol(protocols@),
{
    let wanted = String::from_str("rust-websocket");
    let mut i: usize = 0;
    while i < protocols.len()
        invariant
            i <= protocols@.len(),
            wanted@ == "rust-websocket"@,
            forall|k: int| 0 <= k < i ==> (#[trigger] protocols@[k])@ != "rust-websocket"@,
        decreases protocols@.len() - i,
    {
        if protocols[i].eq(&wanted) {
            return true;
        }
        i = i + 1;
    }
    false
}

/// What the web server's main loop holds: the last tellstick status, the zone
/// mapping and the status web clients see.
#[derive(Clone, Debug, PartialEq)]
pub struct WebState {
    pub telldus_status: Status,
    pub mapping: config::Mapping,
    pub webstatus: webtypes::Status,
}

/// The status the web server starts from before the reporter has sent one:
/// sensor 1 at 10.0 degrees and device 1, `dummyswitch`, off.
pub open spec fn is_initial_status(status: Status) -> bool {
    &&& status.sensors@.len() == 1
    &&& status.sensors@[0].id == 1
    &&& status.sensors@[0].protocol@ == "dummy"@
    &&& status.sensors@[0].model@ == "dummy"@
    &&& status.sensors@[0].datatypes == 1
    &&& status.sensors@[0].temperature == (Temperature { bits: 0x4120_0000 })
    &&& status.sensors@[0].timestamp == 0
    &&& status.devices@.len() == 1
    &&& status.devices@[0].id == 1
    &&& status.devices@[0].name@ == "dummyswitch"@
    &&& status.devices@[0].state == State::Off
}

impl WebState {
    /// The state the main loop starts in with `mapping`.
    pub fn new(mapping: config::Mapping) -> (s: WebState)
        ensures
            s.mapping == mapping,
            is_initial_status(s.telldus_status),
            is_webstatus_of(s.webstatus, s.telldus_status, s.mapping),
    {
        let sensor = Sensor {
            id: 1,
            protocol: String::from_str("dummy"),
            model: String::from_str("dummy"),
            datatypes: 1,
            temperature: Temperature { bits: 0x4120_0000 },
            timestamp: 0,
        };
        let device = Device { id: 1, name: String::from_str("dummyswitch"), state: State::Off };
        let mut sensors: Vec<Sensor> = Vec::new();
        sensors.push(sensor);
        let mut devices: Vec<Device> = Vec::new();
        devices.push(device);
        let telldus_status = Status { sensors, devices };
        let webstatus = to_webstatus(&telldus_status, &mapping);
        WebState { telldus_status, mapping, webstatus }
    }
}

/// What the main loop must do after an event.
#[derive(Debug, PartialEq)]
pub enum Effect {
    /// Answer the request with the current web status.
    Reply,
    /// Send the new web status to every web client, then send the reporter
    /// the planned switch commands (or report why there are none).
    Publish(Result<Vec<SwitchData>, SwitchError>),
    /// Nothing.
    Nothing,
}

/// One step of the web server's main loop. Not defined for a tellstick status
/// under which planning the switches ends in a state the server does not
/// survive.
pub fn process_action(state: &mut WebState, action: internaltypes::InternalAction) -> (e: Effect)
    requires
        action matches internaltypes::InternalAction::TellstickStatus(status) ==> !plan_panics(
            old(state).mapping.zones@,
            status,
        ),
    ensures
        match action {
            internaltypes::InternalAction::RequestStatus => {
                &&& *final(state) == *old(state)
                &&& e == Effect::Reply
            },
            internaltypes::InternalAction::TellstickStatus(status) => {
                &&& final(state).telldus_status == status
                &&& final(state).mapping == old(state).mapping
                &&& is_webstatus_of(final(state).webstatus, status, old(state).mapping)
                &&& e matches Effect::Publish(plan) && outcome(plan) == switch_plan(
                    old(state).mapping.zones@,
                    status,
                )
            },
            internaltypes::InternalAction::SetTemp(zt) => {
                &&& final(state).telldus_status == old(state).telldus_status
                &&& final(state).webstatus == old(state).webstatus
                &&& mapping_retargeted(old(state).mapping, final(state).mapping, zt)
                &&& e == Effect::Nothing
            },
        },
{
    match action {
        internaltypes::InternalAction::RequestStatus => Effect::Reply,
        internaltypes::InternalAction::TellstickStatus(status) => {
            state.telldus_status = status;
            state.webstatus = to_webstatus(&state.telldus_status, &state.mapping);
            let plan = update_switches(&state.mapping, &state.telldus_status);
            Effect::Publish(plan)
        },
        internaltypes::InternalAction::SetTemp(zonetemp) => {
            set_new_temp(&mut state.mapping, zonetemp);
            Effect::Nothing
        },
    }
}

/// After a zone's target is set, every shown zone of that name shows the new
/// target.
pub proof fn lemma_new_target_shown(
    before: config::Mapping,
    after: config::Mapping,
    zt: webtypes::ZoneTemp,
    status: Status,
    web: webtypes::Status,
)
    requires
        mapping_retargeted(before, after, zt),
        is_webstatus_of(web, status, after),
    ensures
        forall|i: int|
            0 <= i < web.zones@.len() && (#[trigger] web.zones@[i]).name@ == zt.name@
                ==> web.zones@[i].target == zt.temp,
{
    assert forall|i: int|
        0 <= i < web.zones@.len() && (#[trigger] web.zones@[i]).name@ == zt.name@ implies web.zones@[i].target
        == zt.temp by {
        assert(zone_shown(status, after.zones@[i], web.zones@[i]));
        assert(zone_retargeted(before.zones@[i], after.zones@[i], zt));
    }
}

/// Setting a target changes nothing of what web clients see but targets: the
/// same zones are shown, with the same names, temperatures and switches.
pub proof fn lemma_new_target_changes_only_targets(
    before: config::Mapping,
    after: config::Mapping,
    zt: webtypes::ZoneTemp,
    status: Status,
    web_before: webtypes::Status,
    web_after: webtypes::Status,
)
    requires
        mapping_retargeted(before, after, zt),
        is_webstatus_of(web_before, status, before),
        is_webstatus_of(web_after, status, after),
    ensures
        web_after.zones@.len() == web_before.zones@.len(),
        forall|i: int|
            0 <= i < web_before.zones@.len() ==> {
                &&& (#[trigger] web_after.zones@[i]).name == web_before.zones@[i].name
                &&& web_after.zones@[i].temp == web_before.zones@[i].temp
                &&& web_after.zones@[i].switches@ == web_before.zones@[i].switches@
            },
{
    let n1 = web_before.zones@.len();
    let n2 = web_after.zones@.len();
    assert forall|i: int| 0 <= i < before.zones@.len() implies zone_complete(status, #[trigger] before.zones@[i])
        == zone_complete(status, after.zones@[i]) by {
        assert(zone_retargeted(before.zones@[i], after.zones@[i], zt));
    }
    if n1 < n2 {
        assert(zone_complete(status, after.zones@[n1 as int]));
    }
    if n2 < n1 {
        assert(zone_complete(status, before.zones@[n2 as int]));
    }
    assert(n1 == n2);
    assert forall|i: int| 0 <= i < n1 implies {
        &&& (#[trigger] web_after.zones@[i]).name == web_before.zones@[i].name
        &&& web_after.zones@[i].temp == web_before.zones@[i].temp
        &&& web_after.zones@[i].switches@ == web_before.zones@[i].switches@
    } by {
        let zb = before.zones@[i];
        let za = after.zones@[i];
        assert(zone_retargeted(zb, za, zt));
        assert(zone_shown(status, zb, web_before.zones@[i]));
        assert(zone_shown(status, za, web_after.zones@[i]));
        let sb = web_before.zones@[i].switches@;
        let sa = web_after.zones@[i].switches@;
        assert forall|j: int| 0 <= j < sa.len() implies sa[j] == sb[j] by {
            assert(sa[j].name == za.switches@[j].name);
            assert(sb[j].name == zb.switches@[j].name);
            assert(Some(sa[j].state) == first_device_state(status.devices@, za.switches@[j].id));
            assert(Some(sb[j].state) == first_device_state(status.devices@, zb.switches@[j].id));
        }
        assert(sa =~= sb);
    }
}

/// The state a command turns a device away from.
pub open spec fn opposite(st: State) -> State {
    match st {
        State::On => State::Off,
        State::Off => State::On,
    }
}

/// The command changes the state of the device it names.
pub open spec fn flips(devices: Seq<Device>, c: SwitchData) -> bool {
    first_device_state(devices, c.id) == Some(opposite(c.state))
}

proof fn lemma_switch_commands_flip(switches: Seq<config::Switch>, devices: Seq<Device>, heat: bool)
    ensures
        switch_commands(switches, devices, heat) matches Ok(cmds) ==> forall|k: int|
            0 <= k < cmds.len() ==> flips(devices, #[trigger] cmds[k]),
    decreases switches.len(),
{
    if switches.len() > 0 {
        lemma_switch_commands_flip(switches.drop_first(), devices, heat);
        let id = switches[0].id;
        if let Some(st) = first_device_state(devices, id) {
            if let Ok(rest) = switch_commands(switches.drop_first(), devices, heat) {
                let head = command_for(id, st, heat);
                let cmds = head + rest;
                assert forall|k: int| 0 <= k < cmds.len() implies flips(devices, #[trigger] cmds[k]) by {
                    if k < head.len() {
                        assert(cmds[k] == head[k]);
                    } else {
                        assert(cmds[k] == rest[k - head.len()]);
                    }
                }
            }
        }
    }
}

/// Every planned command changes the state of the device it names: only a
/// device that is off is turned on, and only one that is on is turned off.
pub proof fn lemma_plan_only_flips(zones: Seq<config::Zone>, status: Status)
    ensures
        switch_plan(zones, status) matches Ok(cmds) ==> forall|k: int|
            0 <= k < cmds.len() ==> flips(status.devices@, #[trigger] cmds[k]),
    decreases zones.len(),
{
    if zones.len() > 0 {
        lemma_plan_only_flips(zones.drop_first(), status);
        let z = zones[0];
        lemma_switch_commands_flip(z.switches@, status.devices@, true);
        lemma_switch_commands_flip(z.switches@, status.devices@, false);
        if let Ok(a) = zone_plan(z, status) {
            if let Ok(rest) = switch_plan(zones.drop_first(), status) {
                let cmds = a + rest;
                assert forall|k: int| 0 <= k < a.len() implies flips(status.devices@, #[trigger] a[k]) by {
                    let t = first_sensor_temp(status.sensors@, z.id)->0;
                    let cold = if t.below(z.target) {
                        switch_commands(z.switches@, status.devices@, true)
                    } else {
                        Ok(seq![])
                    };
                    let hot = if z.target.below(t) {
                        switch_commands(z.switches@, status.devices@, false)
                    } else {
                        Ok(seq![])
                    };
                    let ca = cold->Ok_0;
                    let hb = hot->Ok_0;
                    assert(a == ca + hb);
                    if k < ca.len() {
                        assert(a[k] == ca[k]);
                    } else {
                        assert(a[k] == hb[k - ca.len()]);
                    }
                }
                assert forall|k: int| 0 <= k < cmds.len() implies flips(status.devices@, #[trigger] cmds[k]) by {
                    if k < a.len() {
                        assert(cmds[k] == a[k]);
                    } else {
                        assert(cmds[k] == rest[k - a.len()]);
                    }
                }
            }
        }
    }
}

/// A zone whose sensor reads neither below nor above its target.
pub open spec fn at_target(zone: config::Zone, status: Status) -> bool {
    match first_sensor_temp(status.sensors@, zone.id) {
        Some(t) => !t.below(zone.target) && !zone.target.below(t),
        None => false,
    }
}

/// When every zone is at its target, nothing is switched.
pub proof fn lemma_no_commands_at_target(zones: Seq<config::Zone>, status: Status)
    requires
        forall|i: int| 0 <= i < zones.len() ==> at_target(#[trigger] zones[i], status),
    ensures
        switch_plan(zones, status) == Ok::<Seq<SwitchData>, PlanEnd>(seq![]),
    decreases zones.len(),
{
    if zones.len() > 0 {
        assert(at_target(zones[0], status));
        assert forall|i: int| 0 <= i < zones.drop_first().len() implies at_target(
            #[trigger] zones.drop_first()[i],
            status,
        ) by {
            assert(zones.drop_first()[i] == zones[i + 1]);
        }
        lemma_no_commands_at_target(zones.drop_first(), status);
        assert(Seq::<SwitchData>::empty() + Seq::<SwitchData>::empty() =~= Seq::<SwitchData>::empty());
    }
}

/// Every zone has its sensor and every switch its device.
pub open spec fn plan_ready(zones: Seq<config::Zone>, status: Status) -> bool {
    forall|i: int|
        0 <= i < zones.len() ==> first_sensor_temp(status.sensors@, (#[trigger] zones[i]).id) is Some
            && zone_complete(status, zones[i])
}

/// No switch id belongs to two zones.
pub open spec fn switch_ids_disjoint(zones: Seq<config::Zone>) -> bool {
    forall|i: int, j: int, a: int, b: int|
        0 <= i < zones.len() && 0 <= j < zones.len() && i != j && 0 <= a < zones[i].switches@.len()
            && 0 <= b < zones[j].switches@.len() ==> #[trigger] zones[i].switches@[a].id
            != #[trigger] zones[j].switches@[b].id
}

/// The devices after command `c` took effect: every device with its id is in
/// the commanded state.
pub open spec fn apply_command(devices: Seq<Device>, c: SwitchData) -> Seq<Device> {
    devices.map_values(
        |d: Device|
            if d.id == c.id {
                Device { id: d.id, name: d.name, state: c.state }
            } else {
                d
            },
    )
}

/// The devices after the commands took effect, in order.
pub open spec fn apply_commands(devices: Seq<Device>, cmds: Seq<SwitchData>) -> Seq<Device>
    decreases cmds.len(),
{
    if cmds.len() == 0 {
        devices
    } else {
        apply_command(apply_commands(devices, cmds.drop_last()), cmds.last())
    }
}

/// The state of device `id`, in state `st` before, once the commands took effect.
pub open spec fn state_after_commands(st: State, cmds: Seq<SwitchData>, id: i32) -> State
    decreases cmds.len(),
{
    if cmds.len() == 0 {
        st
    } else if cmds.last().id == id {
        cmds.last().state
    } else {
        state_after_commands(st, cmds.drop_last(), id)
    }
}

/// The state a zone's switches are driven to: on when heating, off when cooling.
pub open spec fn driven_state(heat: bool) -> State {
    if heat {
        State::On
    } else {
        State::Off
    }
}

/// The commands planned for all zones when every zone is ready, in zone order.
pub open spec fn plan_cmds(zones: Seq<config::Zone>, status: Status) -> Seq<SwitchData>
    decreases zones.len(),
{
    if zones.len() == 0 {
        seq![]
    } else {
        zone_plan(zones[0], status)->Ok_0 + plan_cmds(zones.drop_first(), status)
    }
}

proof fn lemma_apply_command(devices: Seq<Device>, c: SwitchData, id: i32)
    ensures
        first_device_state(apply_command(devices, c), id) == match first_device_state(devices, id) {
            None => None,
            Some(st) => Some(
                if id == c.id {
                    c.state
                } else {
                    st
                },
            ),
        },
    decreases devices.len(),
{
    if devices.len() > 0 {
        let ad = apply_command(devices, c);
        assert(ad.drop_first() =~= apply_command(devices.drop_first(), c));
        lemma_apply_command(devices.drop_first(), c, id);
    }
}

proof fn lemma_apply_commands(devices: Seq<Device>, cmds: Seq<SwitchData>, id: i32)
    ensures
        first_device_state(apply_commands(devices, cmds), id) == match first_device_state(
            devices,
            id,
        ) {
            None => None,
            Some(st) => Some(state_after_commands(st, cmds, id)),
        },
    decreases cmds.len(),
{
    if cmds.len() > 0 {
        lemma_apply_commands(devices, cmds.drop_last(), id);
        lemma_apply_command(apply_commands(devices, cmds.drop_last()), cmds.last(), id);
    }
}

proof fn lemma_state_after_concat(st: State, x: Seq<SwitchData>, y: Seq<SwitchData>, id: i32)
    ensures
        state_after_commands(st, x + y, id) == state_after_commands(
            state_after_commands(st, x, id),
            y,
            id,
        ),
    decreases y.len(),
{
    if y.len() == 0 {
        assert(x + y =~= x);
    } else {
        assert((x + y).drop_last() =~= x + y.drop_last());
        assert((x + y).last() == y.last());
        lemma_state_after_concat(st, x, y.drop_last(), id);
    }
}

proof fn lemma_state_after_no_hit(st: State, cmds: Seq<SwitchData>, id: i32)
    requires
        forall|k: int| 0 <= k < cmds.len() ==> (#[trigger] cmds[k]).id != id,
    ensures
        state_after_commands(st, cmds, id) == st,
    decreases cmds.len(),
{
    if cmds.len() > 0 {
        assert(cmds.last() == cmds[cmds.len() - 1]);
        assert forall|k: int| 0 <= k < cmds.drop_last().len() implies (
        #[trigger] cmds.drop_last()[k]).id != id by {
            assert(cmds.drop_last()[k] == cmds[k]);
        }
        lemma_state_after_no_hit(st, cmds.drop_last(), id);
    }
}

proof fn lemma_state_after_uniform(st: State, cmds: Seq<SwitchData>, id: i32, x: State)
    requires
        forall|k: int| 0 <= k < cmds.len() ==> (#[trigger] cmds[k]).state == x,
    ensures
        state_after_commands(st, cmds, id) == st || state_after_commands(st, cmds, id) == x,
        (exists|k: int| 0 <= k < cmds.len() && (#[trigger] cmds[k]).id == id)
            ==> state_after_commands(st, cmds, id) == x,
    decreases cmds.len(),
{
    if cmds.len() > 0 {
        let d = cmds.drop_last();
        assert(cmds.last() == cmds[cmds.len() - 1]);
        assert forall|k: int| 0 <= k < d.len() implies (#[trigger] d[k]).state == x by {
            assert(d[k] == cmds[k]);
        }
        lemma_state_after_uniform(st, d, id, x);
        if exists|k: int| 0 <= k < cmds.len() && (#[trigger] cmds[k]).id == id {
            let k = choose|k: int| 0 <= k < cmds.len() && (#[trigger] cmds[k]).id == id;
            if k < cmds.len() - 1 {
                assert(d[k] == cmds[k]);
            }
        }
    }
}

proof fn lemma_switch_commands_facts(switches: Seq<config::Switch>, devices: Seq<Device>, heat: bool)
    ensures
        (forall|j: int|
            0 <= j < switches.len() ==> (#[trigger] first_device_state(devices, switches[j].id))
                is Some) ==> switch_commands(switches, devices, heat) is Ok,
        switch_commands(switches, devices, heat) matches Ok(cs) ==> {
            &&& forall|k: int|
                0 <= k < cs.len() ==> (#[trigger] cs[k]).state == driven_state(heat) && exists|j: int|
                    0 <= j < switches.len() && (#[trigger] switches[j]).id == cs[k].id
            &&& forall|j: int|
                0 <= j < switches.len() && first_device_state(devices, (#[trigger] switches[j]).id)
                    == Some(opposite(driven_state(heat))) ==> exists|k: int|
                    0 <= k < cs.len() && (#[trigger] cs[k]).id == switches[j].id
        },
        (forall|j: int|
            0 <= j < switches.len() ==> (#[trigger] first_device_state(devices, switches[j].id))
                == Some(driven_state(heat))) ==> switch_commands(switches, devices, heat) == Ok::<
            Seq<SwitchData>,
            PlanEnd,
        >(seq![]),
    decreases switches.len(),
{
    if switches.len() > 0 {
        let t = switches.drop_first();
        lemma_switch_commands_facts(t, devices, heat);
        let id = switches[0].id;
        assert forall|j: int| 0 <= j < t.len() implies #[trigger] t[j] == switches[j + 1] by {}
        if forall|j: int|
            0 <= j < switches.len() ==> (#[trigger] first_device_state(devices, switches[j].id))
                is Some {
            assert(first_device_state(devices, switches[0].id) is Some);
            assert forall|j: int| 0 <= j < t.len() implies (#[trigger] first_device_state(
                devices,
                t[j].id,
            )) is Some by {
                assert(first_device_state(devices, switches[j + 1].id) is Some);
            }
        }
        if forall|j: int|
            0 <= j < switches.len() ==> (#[trigger] first_device_state(devices, switches[j].id))
                == Some(driven_state(heat)) {
            assert(first_device_state(devices, switches[0].id) == Some(driven_state(heat)));
            assert forall|j: int| 0 <= j < t.len() implies (#[trigger] first_device_state(
                devices,
                t[j].id,
            )) == Some(driven_state(heat)) by {
                assert(first_device_state(devices, switches[j + 1].id) == Some(driven_state(heat)));
            }
            assert(command_for(id, driven_state(heat), heat) =~= Seq::<SwitchData>::empty());
            assert(Seq::<SwitchData>::empty() + Seq::<SwitchData>::empty() =~= Seq::<
                SwitchData,
            >::empty());
        }
        if let Some(st) = first_device_state(devices, id) {
            if let Ok(rest) = switch_commands(t, devices, heat) {
                let head = command_for(id, st, heat);
                let cs = head + rest;
                assert forall|k: int| 0 <= k < cs.len() implies (#[trigger] cs[k]).state
                    == driven_state(heat) && exists|j: int|
                    0 <= j < switches.len() && (#[trigger] switches[j]).id == cs[k].id by {
                    if k < head.len() {
                        assert(cs[k] == head[k]);
                        assert(switches[0].id == cs[k].id);
                    } else {
                        assert(cs[k] == rest[k - head.len()]);
                        let j = choose|j: int|
                            0 <= j < t.len() && (#[trigger] t[j]).id == rest[k - head.len()].id;
                        assert(switches[j + 1].id == cs[k].id);
                    }
                }
                assert forall|j: int|
                    0 <= j < switches.len() && first_device_state(
                        devices,
                        (#[trigger] switches[j]).id,
                    ) == Some(opposite(driven_state(heat))) implies exists|k: int|
                    0 <= k < cs.len() && (#[trigger] cs[k]).id == switches[j].id by {
                    if j == 0 {
                        assert(head.len() == 1);
                        assert(cs[0] == head[0]);
                    } else {
                        assert(t[j - 1] == switches[j]);
                        let k = choose|k: int|
                            0 <= k < rest.len() && (#[trigger] rest[k]).id == t[j - 1].id;
                        assert(cs[head.len() + k] == rest[k]);
                    }
                }
            }
        }
    }
}

/// Every command in `cs` drives towards the heating (or cooling) state, and
/// every switch of `z` in the opposite state gets a command.
pub open spec fn zone_drives(status: Status, z: config::Zone, cs: Seq<SwitchData>, heat: bool) -> bool {
    &&& forall|k: int| 0 <= k < cs.len() ==> (#[trigger] cs[k]).state == driven_state(heat)
    &&& forall|j: int|
        0 <= j < z.switches@.len() && first_device_state(
            status.devices@,
            (#[trigger] z.switches@[j]).id,
        ) == Some(opposite(driven_state(heat))) ==> exists|k: int|
            0 <= k < cs.len() && (#[trigger] cs[k]).id == z.switches@[j].id
}

/// What one ready zone plans: commands only for its own switches; below the
/// target every command turns on and every switch that is off gets one; above
/// it every command turns off and every switch that is on gets one; at the
/// target there are none.
proof fn lemma_zone_cmds_facts(z: config::Zone, status: Status)
    requires
        first_sensor_temp(status.sensors@, z.id) is Some,
        zone_complete(status, z),
    ensures
        zone_plan(z, status) is Ok,
        ({
            let t = first_sensor_temp(status.sensors@, z.id)->0;
            let cs = zone_plan(z, status)->Ok_0;
            &&& forall|k: int|
                0 <= k < cs.len() ==> exists|j: int|
                    0 <= j < z.switches@.len() && (#[trigger] z.switches@[j]).id == (
                    #[trigger] cs[k]).id
            &&& (!t.below(z.target) && !z.target.below(t)) ==> cs.len() == 0
            &&& t.below(z.target) ==> zone_drives(status, z, cs, true)
            &&& z.target.below(t) ==> zone_drives(status, z, cs, false)
        }),
{
    let t = first_sensor_temp(status.sensors@, z.id)->0;
    let sws = z.switches@;
    lemma_switch_commands_facts(sws, status.devices@, true);
    lemma_switch_commands_facts(sws, status.devices@, false);
    assert forall|j: int| 0 <= j < sws.len() implies (#[trigger] first_device_state(
        status.devices@,
        sws[j].id,
    )) is Some by {}
    let e = Seq::<SwitchData>::empty();
    if t.below(z.target) {
        let a = switch_commands(sws, status.devices@, true)->Ok_0;
        assert(!z.target.below(t));
        assert(a + e =~= a);
        assert(zone_plan(z, status) == Ok::<Seq<SwitchData>, PlanEnd>(a));
    } else if z.target.below(t) {
        let b = switch_commands(sws, status.devices@, false)->Ok_0;
        assert(e + b =~= b);
        assert(zone_plan(z, status) == Ok::<Seq<SwitchData>, PlanEnd>(b));
    } else {
        assert(e + e =~= e);
        assert(zone_plan(z, status) == Ok::<Seq<SwitchData>, PlanEnd>(e));
    }
}

proof fn lemma_ready_plan(zones: Seq<config::Zone>, status: Status)
    requires
        plan_ready(zones, status),
    ensures
        switch_plan(zones, status) == Ok::<Seq<SwitchData>, PlanEnd>(plan_cmds(zones, status)),
        forall|k: int|
            0 <= k < plan_cmds(zones, status).len() ==> exists|i: int, j: int|
                0 <= i < zones.len() && 0 <= j < zones[i].switches@.len() && (
                #[trigger] zones[i].switches@[j]).id == (#[trigger] plan_cmds(zones, status)[k]).id,
    decreases zones.len(),
{
    if zones.len() > 0 {
        let t = zones.drop_first();
        assert forall|i: int| 0 <= i < t.len() implies first_sensor_temp(
            status.sensors@,
            (#[trigger] t[i]).id,
        ) is Some && zone_complete(status, t[i]) by {
            assert(t[i] == zones[i + 1]);
        }
        lemma_ready_plan(t, status);
        lemma_zone_cmds_facts(zones[0], status);
        let a = zone_plan(zones[0], status)->Ok_0;
        let r = plan_cmds(t, status);
        assert forall|k: int| 0 <= k < plan_cmds(zones, status).len() implies exists|i: int, j: int|
            0 <= i < zones.len() && 0 <= j < zones[i].switches@.len() && (
            #[trigger] zones[i].switches@[j]).id == (#[trigger] plan_cmds(zones, status)[k]).id by {
            let p = plan_cmds(zones, status);
            if k < a.len() {
                assert(p[k] == a[k]);
                let j = choose|j: int|
                    0 <= j < zones[0].switches@.len() && (#[trigger] zones[0].switches@[j]).id == (
                    #[trigger] a[k]).id;
                assert(zones[0].switches@[j].id == p[k].id);
            } else {
                assert(p[k] == r[k - a.len()]);
                let (i, j) = choose|i: int, j: int|
                    0 <= i < t.len() && 0 <= j < t[i].switches@.len() && (
                    #[trigger] t[i].switches@[j]).id == (#[trigger] r[k - a.len()]).id;
                assert(t[i] == zones[i + 1]);
                assert(zones[i + 1].switches@[j].id == p[k].id);
            }
        }
    }
}

proof fn lemma_plan_isolates_zone(zones: Seq<config::Zone>, status: Status, i: int, id: i32, st: State)
    requires
        plan_ready(zones, status),
        0 <= i < zones.len(),
        forall|i2: int, j: int|
            0 <= i2 < zones.len() && i2 != i && 0 <= j < zones[i2].switches@.len() ==> (
            #[trigger] zones[i2].switches@[j]).id != id,
    ensures
        state_after_commands(st, plan_cmds(zones, status), id) == state_after_commands(
            st,
            zone_plan(zones[i], status)->Ok_0,
            id,
        ),
    decreases zones.len(),
{
    let t = zones.drop_first();
    assert forall|i2: int| 0 <= i2 < t.len() implies first_sensor_temp(
        status.sensors@,
        (#[trigger] t[i2]).id,
    ) is Some && zone_complete(status, t[i2]) by {
        assert(t[i2] == zones[i2 + 1]);
    }
    let a = zone_plan(zones[0], status)->Ok_0;
    let r = plan_cmds(t, status);
    lemma_state_after_concat(st, a, r, id);
    if i == 0 {
        lemma_ready_plan(t, status);
        assert forall|k: int| 0 <= k < r.len() implies (#[trigger] r[k]).id != id by {
            let (i2, j) = choose|i2: int, j: int|
                0 <= i2 < t.len() && 0 <= j < t[i2].switches@.len() && (
                #[trigger] t[i2].switches@[j]).id == (#[trigger] r[k]).id;
            assert(t[i2] == zones[i2 + 1]);
            assert(zones[i2 + 1].switches@[j].id != id);
        }
        lemma_state_after_no_hit(state_after_commands(st, a, id), r, id);
    } else {
        lemma_zone_cmds_facts(zones[0], status);
        assert forall|k: int| 0 <= k < a.len() implies (#[trigger] a[k]).id != id by {
            let j = choose|j: int|
                0 <= j < zones[0].switches@.len() && (#[trigger] zones[0].switches@[j]).id == (
                #[trigger] a[k]).id;
            assert(zones[0].switches@[j].id != id);
        }
        lemma_state_after_no_hit(st, a, id);
        assert forall|i2: int, j: int|
            0 <= i2 < t.len() && i2 != i - 1 && 0 <= j < t[i2].switches@.len() implies (
            #[trigger] t[i2].switches@[j]).id != id by {
            assert(t[i2] == zones[i2 + 1]);
        }
        lemma_plan_isolates_zone(t, status, i - 1, id, st);
        assert(t[i - 1] == zones[i]);
    }
}

proof fn lemma_settled_zones(zones: Seq<config::Zone>, status: Status)
    requires
        forall|i: int|
            0 <= i < zones.len() ==> zone_plan(#[trigger] zones[i], status) == Ok::<
                Seq<SwitchData>,
                PlanEnd,
            >(seq![]),
    ensures
        switch_plan(zones, status) == Ok::<Seq<SwitchData>, PlanEnd>(seq![]),
    decreases zones.len(),
{
    if zones.len() > 0 {
        let t = zones.drop_first();
        assert(zone_plan(zones[0], status) == Ok::<Seq<SwitchData>, PlanEnd>(seq![]));
        assert forall|i: int| 0 <= i < t.len() implies zone_plan(#[trigger] t[i], status) == Ok::<
            Seq<SwitchData>,
            PlanEnd,
        >(seq![]) by {
            assert(t[i] == zones[i + 1]);
        }
        lemma_settled_zones(t, status);
        assert(Seq::<SwitchData>::empty() + Seq::<SwitchData>::empty() =~= Seq::<SwitchData>::empty());
    }
}

/// Switching settles: when every zone has its sensor and every switch its
/// device, and no switch serves two zones, then once the planned commands have
/// taken effect (sensors unchanged) planning again gives no command.
pub proof fn lemma_plan_settles(zones: Seq<config::Zone>, status: Status, status2: Status)
    requires
        plan_ready(zones, status),
        switch_ids_disjoint(zones),
        status2.sensors@ == status.sensors@,
        status2.devices@ == apply_commands(status.devices@, switch_plan(zones, status)->Ok_0),
    ensures
        switch_plan(zones, status) is Ok,
        switch_plan(zones, status2) == Ok::<Seq<SwitchData>, PlanEnd>(seq![]),
{
    lemma_ready_plan(zones, status);
    let cmds = plan_cmds(zones, status);
    assert forall|i: int| 0 <= i < zones.len() implies zone_plan(#[trigger] zones[i], status2)
        == Ok::<Seq<SwitchData>, PlanEnd>(seq![]) by {
        let z = zones[i];
        assert(first_sensor_temp(status.sensors@, z.id) is Some && zone_complete(status, z));
        lemma_zone_cmds_facts(z, status);
        let t = first_sensor_temp(status.sensors@, z.id)->0;
        let zc = zone_plan(z, status)->Ok_0;
        let sws = z.switches@;
        let e = Seq::<SwitchData>::empty();
        if !t.below(z.target) && !z.target.below(t) {
            assert(e + e =~= e);
        } else {
            let heat = t.below(z.target);
            assert(zone_drives(status, z, zc, heat));
            assert forall|j: int| 0 <= j < sws.len() implies (#[trigger] first_device_state(
                status2.devices@,
                sws[j].id,
            )) == Some(driven_state(heat)) by {
                let id = sws[j].id;
                assert(first_device_state(status.devices@, sws[j].id) is Some);
                let st = first_device_state(status.devices@, id)->0;
                lemma_apply_commands(status.devices@, cmds, id);
                assert forall|i2: int, j2: int|
                    0 <= i2 < zones.len() && i2 != i && 0 <= j2 < zones[i2].switches@.len() implies (
                    #[trigger] zones[i2].switches@[j2]).id != id by {
                    assert(zones[i].switches@[j].id != zones[i2].switches@[j2].id);
                }
                lemma_plan_isolates_zone(zones, status, i, id, st);
                lemma_state_after_uniform(st, zc, id, driven_state(heat));
                if st != driven_state(heat) {
                    assert(st == opposite(driven_state(heat)));
                    assert(exists|k: int| 0 <= k < zc.len() && (#[trigger] zc[k]).id == sws[j].id);
                }
            }
            lemma_switch_commands_facts(sws, status2.devices@, heat);
            if heat {
                assert(!z.target.below(t));
                assert(e + e =~= e);
            } else {
                assert(e + e =~= e);
            }
        }
    }
    lemma_settled_zones(zones, status2);
}

/// `k` is the position of the first sensor with id `id`.
pub open spec fn first_sensor_at(sensors: Seq<Sensor>, id: i32, k: int) -> bool {
    &&& 0 <= k < sensors.len()
    &&& sensors[k].id == id
    &&& forall|k2: int| 0 <= k2 < k ==> (#[trigger] sensors[k2]).id != id
}

/// `k` is the position of the first device with id `id`.
pub open spec fn first_device_at(devices: Seq<Device>, id: i32, k: int) -> bool {
    &&& 0 <= k < devices.len()
    &&& devices[k].id == id
    &&& forall|k2: int| 0 <= k2 < k ==> (#[trigger] devices[k2]).id != id
}

proof fn lemma_first_sensor(sensors: Seq<Sensor>, id: i32)
    ensures
        match first_sensor_temp(sensors, id) {
            Some(t) => exists|k: int| first_sensor_at(sensors, id, k) && sensors[k].temperature == t,
            None => forall|k: int| 0 <= k < sensors.len() ==> (#[trigger] sensors[k]).id != id,
        },
    decreases sensors.len(),
{
    if sensors.len() > 0 {
        let t = sensors.drop_first();
        lemma_first_sensor(t, id);
        assert forall|k: int| 0 <= k < t.len() implies #[trigger] t[k] == sensors[k + 1] by {}
        if sensors[0].id == id {
            assert(first_sensor_at(sensors, id, 0));
        } else {
            match first_sensor_temp(t, id) {
                Some(temp) => {
                    let k = choose|k: int| first_sensor_at(t, id, k) && t[k].temperature == temp;
                    assert forall|k2: int| 0 <= k2 < k + 1 implies (#[trigger] sensors[k2]).id
                        != id by {
                        if k2 > 0 {
                            assert(sensors[k2] == t[k2 - 1]);
                        }
                    }
                    assert(first_sensor_at(sensors, id, k + 1));
                },
                None => {
                    assert forall|k: int| 0 <= k < sensors.len() implies (
                    #[trigger] sensors[k]).id != id by {
                        if k > 0 {
                            assert(sensors[k] == t[k - 1]);
                        }
                    }
                },
            }
        }
    }
}

proof fn lemma_first_device(devices: Seq<Device>, id: i32)
    ensures
        match first_device_state(devices, id) {
            Some(st) => exists|k: int| first_device_at(devices, id, k) && devices[k].state == st,
            None => forall|k: int| 0 <= k < devices.len() ==> (#[trigger] devices[k]).id != id,
        },
    decreases devices.len(),
{
    if devices.len() > 0 {
        let t = devices.drop_first();
        lemma_first_device(t, id);
        assert forall|k: int| 0 <= k < t.len() implies #[trigger] t[k] == devices[k + 1] by {}
        if devices[0].id == id {
            assert(first_device_at(devices, id, 0));
        } else {
            match first_device_state(t, id) {
                Some(st) => {
                    let k = choose|k: int| first_device_at(t, id, k) && t[k].state == st;
                    assert forall|k2: int| 0 <= k2 < k + 1 implies (#[trigger] devices[k2]).id
                        != id by {
                        if k2 > 0 {
                            assert(devices[k2] == t[k2 - 1]);
                        }
                    }
                    assert(first_device_at(devices, id, k + 1));
                },
                None => {
                    assert forall|k: int| 0 <= k < devices.len() implies (
                    #[trigger] devices[k]).id != id by {
                        if k > 0 {
                            assert(devices[k] == t[k - 1]);
                        }
                    }
                },
            }
        }
    }
}

/// What web clients see of a zone, read directly off the tellstick status:
/// the zone's name and target; the temperature of the first sensor whose id
/// is the zone's id, or zero when no sensor has it; and each switch with its
/// name and the state of the first device with the switch's id.
pub open spec fn shows_zone(status: Status, zone: config::Zone, web: webtypes::Zone) -> bool {
    &&& web.name == zone.name
    &&& web.target == zone.target
    &&& (exists|k: int|
        first_sensor_at(status.sensors@, zone.id, k) && web.temp == status.sensors@[k].temperature)
        || ((forall|k: int|
        0 <= k < status.sensors@.len() ==> (#[trigger] status.sensors@[k]).id != zone.id)
        && web.temp.bits == 0)
    &&& web.switches@.len() == zone.switches@.len()
    &&& forall|j: int|
        0 <= j < zone.switches@.len() ==> {
            &&& (#[trigger] web.switches@[j]).name == zone.switches@[j].name
            &&& exists|k: int|
                first_device_at(status.devices@, zone.switches@[j].id, k) && web.switches@[j].state
                    == status.devices@[k].state
        }
}

/// The status web clients see shows the mapping's zones in order, each as
/// `shows_zone` reads it off the tellstick status, and stops exactly before
/// the first zone that has a switch with no device of its id.
pub proof fn lemma_webstatus_reads_status(web: webtypes::Status, status: Status, mapping: config::Mapping)
    requires
        is_webstatus_of(web, status, mapping),
    ensures
        web.zones@.len() <= mapping.zones@.len(),
        forall|i: int|
            0 <= i < web.zones@.len() ==> shows_zone(
                status,
                mapping.zones@[i],
                #[trigger] web.zones@[i],
            ),
        web.zones@.len() < mapping.zones@.len() ==> exists|j: int|
            0 <= j < mapping.zones@[web.zones@.len() as int].switches@.len() && forall|k: int|
                0 <= k < status.devices@.len() ==> (#[trigger] status.devices@[k]).id != (
                #[trigger] mapping.zones@[web.zones@.len() as int].switches@[j]).id,
{
    let n = web.zones@.len();
    assert forall|i: int| 0 <= i < n implies shows_zone(
        status,
        mapping.zones@[i],
        #[trigger] web.zones@[i],
    ) by {
        let z = mapping.zones@[i];
        let w = web.zones@[i];
        assert(zone_complete(status, z) && zone_shown(status, z, w));
        lemma_first_sensor(status.sensors@, z.id);
        assert forall|j: int| 0 <= j < z.switches@.len() implies {
            &&& (#[trigger] w.switches@[j]).name == z.switches@[j].name
            &&& exists|k: int|
                first_device_at(status.devices@, z.switches@[j].id, k) && w.switches@[j].state
                    == status.devices@[k].state
        } by {
            lemma_first_device(status.devices@, z.switches@[j].id);
            assert(Some(w.switches@[j].state) == first_device_state(
                status.devices@,
                z.switches@[j].id,
            ));
        }
    }
    if n < mapping.zones@.len() {
        let z = mapping.zones@[n as int];
        assert(!zone_complete(status, z));
        let j = choose|j: int|
            0 <= j < z.switches@.len() && !((#[trigger] first_device_state(
                status.devices@,
                z.switches@[j].id,
            )) is Some);
        lemma_first_device(status.devices@, z.switches@[j].id);
    }
}

/// Setting a target by name: every zone whose name is the requested name gets
/// the requested temperature as its target, every other zone keeps its
/// target, and no zone changes its id, name or switches.
pub proof fn lemma_set_new_temp_by_name(
    before: config::Mapping,
    after: config::Mapping,
    zt: webtypes::ZoneTemp,
)
    requires
        mapping_retargeted(before, after, zt),
    ensures
        after.zones@.len() == before.zones@.len(),
        forall|i: int|
            0 <= i < before.zones@.len() && (#[trigger] before.zones@[i]).name@ != zt.name@
                ==> after.zones@[i].target == before.zones@[i].target,
        forall|i: int|
            0 <= i < before.zones@.len() && (#[trigger] before.zones@[i]).name@ == zt.name@
                ==> after.zones@[i].target == zt.temp,
        forall|i: int|
            0 <= i < before.zones@.len() ==> {
                &&& (#[trigger] after.zones@[i]).id == before.zones@[i].id
                &&& after.zones@[i].name == before.zones@[i].name
                &&& after.zones@[i].switches == before.zones@[i].switches
            },
{
    assert forall|i: int| 0 <= i < before.zones@.len() implies zone_retargeted(
        #[trigger] before.zones@[i],
        after.zones@[i],
        zt,
    ) by {}
}

} // verus!
