use tellstickreport::extmsg::{sample_message, Action, State, SwitchData};
use tellstickreport::telldus::{
    accepts_methods, get_devices, get_sensors, get_status, is_on_off_device, map_state, switch,
    Command, DeviceReading, SensorReading,
};
use tellstickreport::telldus_types::{devices_to_string, Device};
use tellstickreport::temperature::Temperature;

fn t(x: f32) -> Temperature {
    Temperature { bits: x.to_bits() }
}

#[test]
fn state_names() {
    assert_eq!(State::On.to_string(), "ON");
    assert_eq!(State::Off.to_string(), "OFF");
}

#[test]
fn maps_last_command_to_state() {
    assert_eq!(map_state(1), State::On);
    assert_eq!(map_state(2), State::Off);
    assert_eq!(map_state(0), State::Off);
    assert_eq!(map_state(16), State::Off);
}

#[test]
fn recognises_on_off_devices() {
    assert!(is_on_off_device(1));
    assert!(is_on_off_device(2));
    assert!(is_on_off_device(3));
    assert!(!is_on_off_device(4));
    assert!(!is_on_off_device(0));
    assert!(is_on_off_device(-1));
    assert!(accepts_methods(3));
    assert!(!accepts_methods(-1));
    assert!(!accepts_methods(16));
}

fn reading(id: i32, methods: i32, name: &str, lastsent: i32) -> DeviceReading {
    DeviceReading { id, methods, name: name.to_string(), lastsent }
}

#[test]
fn keeps_only_on_off_devices_with_known_state() {
    let readings = vec![
        reading(1, 3, "lamp", 1),
        reading(2, -1, "broken", 1),
        reading(3, 16, "dimmer", 1),
        reading(4, 3, "heater", -5),
        reading(5, 2, "fan", 2),
    ];
    let devices = get_devices(&readings);
    assert_eq!(
        devices,
        vec![
            Device { id: 1, name: "lamp".to_string(), state: State::On },
            Device { id: 5, name: "fan".to_string(), state: State::Off },
        ]
    );
}

#[test]
fn keeps_sensors_whose_value_was_read() {
    let readings = vec![
        SensorReading {
            id: 11,
            protocol: "fineoffset".to_string(),
            model: "temperature".to_string(),
            datatypes: 1,
            value_code: 0,
            temperature: t(21.5),
            timestamp: 100,
        },
        SensorReading {
            id: 12,
            protocol: "fineoffset".to_string(),
            model: "temperature".to_string(),
            datatypes: 1,
            value_code: -1,
            temperature: t(0.0),
            timestamp: 0,
        },
    ];
    let sensors = get_sensors(&readings);
    assert_eq!(sensors.len(), 1);
    assert_eq!(sensors[0].id, 11);
    assert_eq!(sensors[0].temperature, t(21.5));
    let status = get_status(&readings, &vec![reading(1, 3, "lamp", 2)]);
    assert_eq!(status.sensors, sensors);
    assert_eq!(status.devices.len(), 1);
    assert_eq!(status.devices[0].state, State::Off);
}

#[test]
fn switch_commands() {
    assert_eq!(switch(4, State::On), Command::TurnOn(4));
    assert_eq!(switch(4, State::Off), Command::TurnOff(4));
}

#[test]
fn device_text() {
    let d = Device { id: 7, name: "lamp".to_string(), state: State::On };
    assert_eq!(d.to_string(), "Device: id=7 name=lamp state=ON");
    assert_eq!(d.state_to_string(&State::Off), "OFF");
    let n = Device { id: -3, name: "x".to_string(), state: State::Off };
    assert_eq!(n.to_string(), "Device: id=-3 name=x state=OFF");
}

#[test]
fn devices_text_shows_last_device() {
    assert_eq!(devices_to_string(&vec![]), "[  ]");
    let a = Device { id: 1, name: "a".to_string(), state: State::On };
    let b = Device { id: 2, name: "b".to_string(), state: State::Off };
    assert_eq!(devices_to_string(&vec![a, b]), "Device: id=2 name=b state=OFF  ]");
}

#[test]
fn example_message() {
    let m = sample_message();
    assert_eq!(m.password, "pwd");
    assert_eq!(m.action, Action::Switch(SwitchData { id: 1, state: State::On }));
}
