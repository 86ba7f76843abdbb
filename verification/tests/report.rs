use tellstickreport::extmsg::{Action, Message, State, SwitchData};
use tellstickreport::report::{
    client_address, handle_datagram, sample_config, sender_pause, sender_step, update_clients,
    validate_message, ReceiverAction, SenderAction,
};
use tellstickreport::telldus::Command;

#[test]
fn validates_client_addresses() {
    assert!(validate_message(&"host:8888".to_string()));
    assert!(validate_message(&":".to_string()));
    assert!(!validate_message(&"host".to_string()));
    assert!(!validate_message(&"a:b:c".to_string()));
    assert!(!validate_message(&"".to_string()));
}

#[test]
fn registers_valid_clients_only() {
    let mut clients = vec!["a:1".to_string()];
    let r = update_clients(&mut clients, "b:2".to_string());
    assert_eq!(clients, vec!["a:1".to_string(), "b:2".to_string()]);
    assert_eq!(r, clients);
    let r = update_clients(&mut clients, "bad".to_string());
    assert_eq!(clients, vec!["a:1".to_string(), "b:2".to_string()]);
    assert_eq!(r, clients);
}

#[test]
fn sender_steps() {
    let mut clients = Vec::new();
    sender_step(&mut clients, SenderAction::Update);
    assert!(clients.is_empty());
    sender_step(&mut clients, SenderAction::Register("10.0.0.2:9000".to_string()));
    sender_step(&mut clients, SenderAction::Register("nope".to_string()));
    assert_eq!(clients, vec!["10.0.0.2:9000".to_string()]);
}

#[test]
fn sender_pauses_for_rest_of_interval() {
    assert_eq!(sender_pause(0), Some(5000));
    assert_eq!(sender_pause(1200), Some(3800));
    assert_eq!(sender_pause(4999), Some(1));
    assert_eq!(sender_pause(5000), None);
    assert_eq!(sender_pause(9000), None);
}

#[test]
fn splits_client_addresses() {
    assert_eq!(client_address("someserver:8888"), Some(("someserver".to_string(), 8888)));
    assert_eq!(client_address("h:1:2"), Some(("h".to_string(), 1)));
    assert_eq!(client_address(":80"), Some(("".to_string(), 80)));
    assert_eq!(client_address("nocolon"), None);
    assert_eq!(client_address("h:port"), None);
    assert_eq!(client_address("h:70000"), None);
    assert_eq!(client_address("h:"), None);
}

#[test]
fn address_roundtrip() {
    for port in [0u16, 1, 80, 8888, 65535] {
        let text = format!("10.1.2.3:{}", port);
        assert_eq!(client_address(&text), Some(("10.1.2.3".to_string(), port)));
    }
}

fn message(password: &str, action: Action) -> Message {
    Message { password: password.to_string(), action }
}

#[test]
fn handles_datagrams() {
    let pw = "secret".to_string();
    assert_eq!(handle_datagram(message("secret", Action::Register), &pw), ReceiverAction::Register);
    assert_eq!(
        handle_datagram(message("secret", Action::Switch(SwitchData { id: 3, state: State::Off })), &pw),
        ReceiverAction::Switch(Command::TurnOff(3))
    );
    assert_eq!(
        handle_datagram(message("secret", Action::Switch(SwitchData { id: 4, state: State::On })), &pw),
        ReceiverAction::Switch(Command::TurnOn(4))
    );
}

#[test]
fn drops_datagrams_with_wrong_password() {
    let pw = "secret".to_string();
    assert_eq!(handle_datagram(message("guess", Action::Register), &pw), ReceiverAction::Ignore);
    assert_eq!(
        handle_datagram(message("", Action::Switch(SwitchData { id: 3, state: State::On })), &pw),
        ReceiverAction::Ignore
    );
}

#[test]
fn example_config() {
    let c = sample_config();
    assert_eq!(c.receiver_port, 8877);
    assert_eq!(c.password, "passwordhash");
    assert_eq!(c.clients, vec!["someserver:8888".to_string()]);
}
