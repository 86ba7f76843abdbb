use tellstickreport::extmsg::{Action as ReportAction, State, SwitchData};
use tellstickreport::telldus_types::{Device, Sensor, Status};
use tellstickreport::temperature::Temperature;
use tellstickreport::webserver::config::{sample_config, sample_mapping, Mapping, Switch, Zone};
use tellstickreport::webserver::internaltypes::InternalAction;
use tellstickreport::webserver::webtypes::{self, ZoneTemp};
use tellstickreport::webserver::{
    accepts_protocols, get_switch_state, plan_would_panic, get_temp, handle_message, process_action,
    set_new_temp, switch_devices, to_webstatus, update_switches, Effect, MessageDecision,
    SwitchError, WebState,
};

fn t(x: f32) -> Temperature {
    Temperature { bits: x.to_bits() }
}

fn sensor(id: i32, temp: f32) -> Sensor {
    Sensor {
        id,
        protocol: "p".to_string(),
        model: "m".to_string(),
        datatypes: 1,
        temperature: t(temp),
        timestamp: 0,
    }
}

fn device(id: i32, state: State) -> Device {
    Device { id, name: format!("dev{}", id), state }
}

fn zone(id: i32, name: &str, target: f32, switch_ids: &[i32]) -> Zone {
    Zone {
        id,
        name: name.to_string(),
        target: t(target),
        switches: switch_ids.iter().map(|&i| Switch { id: i, name: format!("sw{}", i) }).collect(),
    }
}

#[test]
fn looks_up_first_match() {
    let status = Status {
        sensors: vec![sensor(1, 20.0), sensor(1, 30.0)],
        devices: vec![device(2, State::On), device(2, State::Off)],
    };
    assert_eq!(get_switch_state(&status, 2), Some(State::On));
    assert_eq!(get_switch_state(&status, 9), None);
    assert_eq!(get_temp(&status, 1), Some(t(20.0)));
    assert_eq!(get_temp(&status, 9), None);
}

#[test]
fn web_status_shows_zones() {
    let status = Status {
        sensors: vec![sensor(1, 19.5)],
        devices: vec![device(10, State::On), device(11, State::Off)],
    };
    let mapping = Mapping { zones: vec![zone(1, "living", 21.0, &[10, 11]), zone(2, "attic", 5.0, &[])] };
    let web = to_webstatus(&status, &mapping);
    assert_eq!(web.zones.len(), 2);
    assert_eq!(web.zones[0].name, "living");
    assert_eq!(web.zones[0].temp, t(19.5));
    assert_eq!(web.zones[0].target, t(21.0));
    assert_eq!(
        web.zones[0].switches,
        vec![
            webtypes::Switch { name: "sw10".to_string(), state: State::On },
            webtypes::Switch { name: "sw11".to_string(), state: State::Off },
        ]
    );
    // no sensor for the attic: its temperature shows as zero
    assert_eq!(web.zones[1].temp, t(0.0));
}

#[test]
fn web_status_stops_at_zone_with_unknown_switch() {
    let status = Status { sensors: vec![sensor(1, 19.5)], devices: vec![device(10, State::On)] };
    let mapping = Mapping {
        zones: vec![zone(1, "a", 21.0, &[10]), zone(2, "b", 21.0, &[10, 99]), zone(3, "c", 1.0, &[])],
    };
    let web = to_webstatus(&status, &mapping);
    assert_eq!(web.zones.len(), 1);
    assert_eq!(web.zones[0].name, "a");
}

#[test]
fn sets_new_target_by_name() {
    let mut mapping = Mapping { zones: vec![zone(1, "a", 21.0, &[1]), zone(2, "b", 18.0, &[]), zone(3, "a", 5.0, &[])] };
    set_new_temp(&mut mapping, ZoneTemp { name: "a".to_string(), temp: t(23.5) });
    assert_eq!(mapping.zones[0].target, t(23.5));
    assert_eq!(mapping.zones[1].target, t(18.0));
    assert_eq!(mapping.zones[2].target, t(23.5));
    assert_eq!(mapping.zones[0].switches.len(), 1);
    set_new_temp(&mut mapping, ZoneTemp { name: "none".to_string(), temp: t(1.0) });
    assert_eq!(mapping.zones[1].target, t(18.0));
}

#[test]
fn cold_zone_turns_switches_on() {
    let status = Status {
        sensors: vec![sensor(1, 18.0)],
        devices: vec![device(10, State::Off), device(11, State::On)],
    };
    let mapping = Mapping { zones: vec![zone(1, "a", 21.0, &[10, 11])] };
    assert_eq!(update_switches(&mapping, &status), Ok(vec![SwitchData { id: 10, state: State::On }]));
}

#[test]
fn warm_zone_turns_switches_off() {
    let status = Status {
        sensors: vec![sensor(1, 23.0)],
        devices: vec![device(10, State::Off), device(11, State::On)],
    };
    let mapping = Mapping { zones: vec![zone(1, "a", 21.0, &[10, 11])] };
    assert_eq!(update_switches(&mapping, &status), Ok(vec![SwitchData { id: 11, state: State::Off }]));
}

#[test]
fn zone_at_target_switches_nothing() {
    let status = Status {
        sensors: vec![sensor(1, 21.0), sensor(2, f32::NAN)],
        devices: vec![device(10, State::Off), device(11, State::On)],
    };
    let mapping = Mapping { zones: vec![zone(1, "a", 21.0, &[10, 11]), zone(2, "b", 21.0, &[10, 11])] };
    assert_eq!(update_switches(&mapping, &status), Ok(vec![]));
}

#[test]
fn plans_across_zones_in_order() {
    let status = Status {
        sensors: vec![sensor(1, 10.0), sensor(2, 30.0)],
        devices: vec![device(10, State::Off), device(20, State::On)],
    };
    let mapping = Mapping { zones: vec![zone(1, "a", 21.0, &[10]), zone(2, "b", 21.0, &[20])] };
    assert_eq!(
        update_switches(&mapping, &status),
        Ok(vec![SwitchData { id: 10, state: State::On }, SwitchData { id: 20, state: State::Off }])
    );
}

#[test]
fn planning_errors() {
    let status = Status { sensors: vec![sensor(1, 10.0), sensor(2, 30.0)], devices: vec![device(10, State::Off)] };
    let no_sensor = Mapping { zones: vec![zone(1, "a", 21.0, &[10]), zone(3, "c", 21.0, &[10])] };
    assert_eq!(update_switches(&no_sensor, &status), Err(SwitchError::MissingSensor(3)));
    let no_device_cold = Mapping { zones: vec![zone(1, "a", 21.0, &[10, 77])] };
    assert_eq!(update_switches(&no_device_cold, &status), Err(SwitchError::MissingDevice(77)));
    assert!(!plan_would_panic(&no_device_cold, &status));
    let no_device_warm = Mapping { zones: vec![zone(2, "b", 21.0, &[88])] };
    assert!(plan_would_panic(&no_device_warm, &status));
    // a zone without a sensor stops planning before a later warm zone is looked at
    let sensor_first = Mapping { zones: vec![zone(3, "c", 21.0, &[]), zone(2, "b", 21.0, &[88])] };
    assert!(!plan_would_panic(&sensor_first, &status));
    assert_eq!(update_switches(&sensor_first, &status), Err(SwitchError::MissingSensor(3)));
}

#[test]
fn builds_switch_messages() {
    let pw = "passord".to_string();
    assert!(switch_devices(vec![], &pw).is_empty());
    let msgs = switch_devices(
        vec![SwitchData { id: 1, state: State::On }, SwitchData { id: 2, state: State::Off }],
        &pw,
    );
    assert_eq!(msgs.len(), 2);
    assert_eq!(msgs[0].password, "passord");
    assert_eq!(msgs[1].action, ReportAction::Switch(SwitchData { id: 2, state: State::Off }));
}

#[test]
fn handles_web_messages() {
    let hash = "h".to_string();
    let msg = |hash: &str, action: webtypes::Action| webtypes::Message { hash: hash.to_string(), action };
    assert_eq!(handle_message(msg("x", webtypes::Action::Login), "t".to_string(), &hash), MessageDecision::Ignored);
    assert_eq!(
        handle_message(msg("h", webtypes::Action::Login), "text".to_string(), &hash),
        MessageDecision::LoggedIn("text".to_string())
    );
    assert_eq!(
        handle_message(msg("h", webtypes::Action::RequestStatus), "t".to_string(), &hash),
        MessageDecision::StatusRequested
    );
    assert_eq!(
        handle_message(msg("h", webtypes::Action::Status(webtypes::Status { zones: vec![] })), "t".to_string(), &hash),
        MessageDecision::Ignored
    );
    let zt = ZoneTemp { name: "a".to_string(), temp: t(20.0) };
    assert_eq!(
        handle_message(msg("h", webtypes::Action::SetTemp(zt.clone())), "t".to_string(), &hash),
        MessageDecision::NewTarget(zt)
    );
}

#[test]
fn accepts_only_rust_websocket_protocol() {
    assert!(accepts_protocols(&vec!["chat".to_string(), "rust-websocket".to_string()]));
    assert!(!accepts_protocols(&vec!["chat".to_string()]));
    assert!(!accepts_protocols(&vec![]));
}

#[test]
fn main_loop_steps() {
    let mapping = Mapping { zones: vec![zone(1, "a", 21.0, &[1])] };
    let mut state = WebState::new(mapping);
    // the initial dummy status: sensor 1 at 10.0, device 1 off
    assert_eq!(state.webstatus.zones.len(), 1);
    assert_eq!(state.webstatus.zones[0].temp, t(10.0));
    assert_eq!(state.webstatus.zones[0].switches[0].state, State::Off);

    let before = state.clone();
    assert_eq!(process_action(&mut state, InternalAction::RequestStatus), Effect::Reply);
    assert_eq!(state, before);

    let effect = process_action(
        &mut state,
        InternalAction::SetTemp(ZoneTemp { name: "a".to_string(), temp: t(25.0) }),
    );
    assert_eq!(effect, Effect::Nothing);
    assert_eq!(state.mapping.zones[0].target, t(25.0));
    // the web status shows the new target only after the next tellstick status
    assert_eq!(state.webstatus.zones[0].target, t(21.0));

    let status = Status { sensors: vec![sensor(1, 22.0)], devices: vec![device(1, State::Off)] };
    let effect = process_action(&mut state, InternalAction::TellstickStatus(status.clone()));
    assert_eq!(effect, Effect::Publish(Ok(vec![SwitchData { id: 1, state: State::On }])));
    assert_eq!(state.telldus_status, status);
    assert_eq!(state.webstatus.zones[0].target, t(25.0));
    assert_eq!(state.webstatus.zones[0].temp, t(22.0));
}

#[test]
fn example_configuration() {
    let c = sample_config();
    assert_eq!(c.hash, "98398f51aa78aaf6309be3d93ad27fb1c1b21cb6");
    assert_eq!(c.websocket_port, 8876);
    assert_eq!(c.status_port, 8875);
    assert_eq!(c.telldus_client, "localhost:8890");
    assert_eq!(c.telldus_password, "passord");
    let m = sample_mapping();
    assert_eq!(m.zones.len(), 1);
    assert_eq!(m.zones[0].target, t(1.0));
    assert_eq!(m.zones[0].switches[1].name, "sw2");
}

#[test]
fn new_target_changes_only_targets() {
    let status = Status { sensors: vec![sensor(1, 19.0)], devices: vec![device(10, State::On)] };
    let mut mapping = Mapping { zones: vec![zone(1, "a", 21.0, &[10]), zone(2, "b", 18.0, &[10])] };
    let before = to_webstatus(&status, &mapping);
    set_new_temp(&mut mapping, ZoneTemp { name: "b".to_string(), temp: t(22.0) });
    let after = to_webstatus(&status, &mapping);
    assert_eq!(before.zones.len(), after.zones.len());
    for (x, y) in before.zones.iter().zip(after.zones.iter()) {
        assert_eq!(x.name, y.name);
        assert_eq!(x.temp, y.temp);
        assert_eq!(x.switches, y.switches);
    }
    assert_eq!(after.zones[0].target, t(21.0));
    assert_eq!(after.zones[1].target, t(22.0));
}

#[test]
fn switching_settles_once_commands_took_effect() {
    let status = Status {
        sensors: vec![sensor(1, 10.0), sensor(2, 30.0), sensor(3, 21.0)],
        devices: vec![
            device(10, State::Off),
            device(11, State::On),
            device(20, State::On),
            device(21, State::Off),
            device(30, State::Off),
        ],
    };
    let mapping = Mapping {
        zones: vec![zone(1, "cold", 21.0, &[10, 11]), zone(2, "warm", 21.0, &[20, 21]), zone(3, "ok", 21.0, &[30])],
    };
    let cmds = update_switches(&mapping, &status).unwrap();
    assert_eq!(cmds.len(), 2);
    let mut after = status.clone();
    for c in &cmds {
        for d in after.devices.iter_mut() {
            if d.id == c.id {
                d.state = c.state;
            }
        }
    }
    assert_eq!(update_switches(&mapping, &after), Ok(vec![]));
}
