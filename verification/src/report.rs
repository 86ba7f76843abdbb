//! The reporter: it keeps a list of clients that registered by UDP, sends
//! them the tellstick status, and switches devices when a client asks.
//!
//! Sockets, channels and timers belong to the application; the decisions the
//! reporter takes stand here.
use vstd::prelude::*;
use crate::extmsg::{Action, Message};
use crate::telldus::{self, Command};
use crate::text::{
    count_char,
    count_occurrences,
    find_char,
    first_index,
    is_first_index,
    lemma_count_char_concat,
    lemma_count_char_zero,
    lemma_first_index,
    lemma_first_index_props,
    lemma_nat_decimal,
    lemma_parse_u16_of_decimal,
    nat_decimal,
    parse_u16,
    spec_parse_u16,
};

verus! {

/// The reporter's configuration.
#[derive(Clone, Debug, PartialEq)]
pub struct Config {
    pub receiver_port: u16,
    pub password: String,
    pub clients: Vec<String>,
}

/// The example configuration that `write_config` prints.
pub fn sample_config() -> (c: Config)
    ensures
        c.receiver_port == 8877,
        c.password@ == "passwordhash"@,
        c.clients@.len() == 1,
        c.clients@[0]@ == "someserver:8888"@,
{
    let mut clients: Vec<String> = Vec::new();
    clients.push(String::from_str("someserver:8888"));
    Config { receiver_port: 8877, password: String::from_str("passwordhash"), clients }
}

/// A client address has the form `host:port`: it holds exactly one `:`.
pub open spec fn valid_client(s: Seq<char>) -> bool {
    count_char(s, ':') == 1
}

/// A client address is valid exactly when it holds one `:`, wherever it
/// stands and however long the text is.
pub proof fn lemma_valid_client_one_colon(s: Seq<char>)
    ensures
        valid_client(s) <==> exists|i: int|
            0 <= i < s.len() && s[i] == ':' && forall|k: int|
                0 <= k < s.len() && k != i ==> s[k] != ':',
{
    if valid_client(s) {
        let i = first_index(s, ':');
        let head = s.take(i as int);
        let tail = s.skip(i + 1 as int);
        if i >= s.len() {
            assert(s.take(s.len() as int) =~= s);
            assert forall|k: int| 0 <= k < s.len() implies s[k] != ':' by {
                assert(forall|k2: int| 0 <= k2 < first_index(s, ':') ==> s[k2] != ':') by {
                    lemma_first_index_props(s, ':');
                }
            }
            lemma_count_char_zero(s, ':');
        } else {
            lemma_first_index_props(s, ':');
            assert(s =~= head + seq![':'] + tail);
            lemma_count_char_concat(head + seq![':'], tail, ':');
            lemma_count_char_concat(head, seq![':'], ':');
            assert(seq![':'].drop_last() =~= Seq::<char>::empty());
            lemma_count_char_zero(head, ':');
            lemma_count_char_zero(tail, ':');
            assert forall|k: int| 0 <= k < s.len() && k != i implies s[k] != ':' by {
                if k > i {
                    assert(s[k] == tail[k - i - 1]);
                }
            }
        }
    } else {
        if exists|i: int|
            0 <= i < s.len() && s[i] == ':' && forall|k: int|
                0 <= k < s.len() && k != i ==> s[k] != ':' {
            let i = choose|i: int|
                0 <= i < s.len() && s[i] == ':' && forall|k: int|
                    0 <= k < s.len() && k != i ==> s[k] != ':';
            lemma_host_port_valid(s.take(i), s.skip(i + 1));
            assert(s =~= s.take(i) + seq![':'] + s.skip(i + 1));
        }
    }
}

/// `host:port`, with host and port free of `:`, is a valid client address,
/// whatever their length.
pub proof fn lemma_host_port_valid(host: Seq<char>, port: Seq<char>)
    requires
        forall|k: int| 0 <= k < host.len() ==> host[k] != ':',
        forall|k: int| 0 <= k < port.len() ==> port[k] != ':',
    ensures
        valid_client(host + seq![':'] + port),
{
    lemma_count_char_zero(host, ':');
    lemma_count_char_zero(port, ':');
    lemma_count_char_concat(host + seq![':'], port, ':');
    lemma_count_char_concat(host, seq![':'], ':');
    let colon = seq![':'];
    assert(colon.drop_last() =~= Seq::<char>::empty());
    assert(count_char(colon.drop_last(), ':') == 0);
    assert(colon.last() == ':');
    assert(count_char(colon, ':') == 1);
}

/// Whether `msg` splits at `:` into exactly two parts.
pub fn validate_message(msg: &String) -> (r: bool)
    ensures
        r == valid_client(msg@),
{
    count_occurrences(msg.as_str(), ':') == 1
}

/// Adds `newclient` to `clients` when it is a valid address, and returns a copy
/// of the resulting list.
pub fn update_clients(clients: &mut Vec<String>, newclient: String) -> (r: Vec<String>)
    ensures
        valid_client(newclient@) ==> final(clients)@ == old(clients)@.push(newclient),
        !valid_client(newclient@) ==> final(clients)@ == old(clients)@,
        r@ == final(clients)@,
{
    if validate_message(&newclient) {
        clients.push(newclient);
    }
    copy_clients(clients)
}

fn copy_clients(clients: &Vec<String>) -> (r: Vec<String>)
    ensures
        r@ == clients@,
{
    let mut r: Vec<String> = Vec::new();
    let mut i: usize = 0;
    while i < clients.len()
        invariant
            i <= clients@.len(),
            r@ == clients@.take(i as int),
        decreases clients@.len() - i,
    {
        r.push(clients[i].clone());
        assert(r@ =~= clients@.take(i + 1));
        i = i + 1;
    }
    assert(clients@.take(clients@.len() as int) =~= clients@);
    r
}

/// What the reporter's sender is told.
#[derive(Clone, Debug, PartialEq)]
pub enum SenderAction {
    /// Time to send the status again.
    Update,
    /// A client at this address asked to receive the status.
    Register(String),
}

/// The sender's step on an action: a registration adds the client when its
/// address is valid; an update leaves the clients as they are. After every
/// step the status goes to each client in `clients`.
pub fn sender_step(clients: &mut Vec<String>, action: SenderAction)
    ensures
        match action {
            SenderAction::Update => final(clients)@ == old(clients)@,
            SenderAction::Register(c) => if valid_client(c@) {
                final(clients)@ == old(clients)@.push(c)
            } else {
                final(clients)@ == old(clients)@
            },
        },
{
    match action {
        SenderAction::Update => {},
        SenderAction::Register(newclient) => {
            let _ = update_clients(clients, newclient);
        },
    }
}

/// Time between two status rounds, in milliseconds.
pub const INTERVAL: u32 = 5000;

/// How long the sender sleeps after a round that took `elapsed` milliseconds:
/// the rest of the interval, or not at all when the round took the whole
/// interval.
pub fn sender_pause(elapsed: i64) -> (r: Option<u32>)
    requires
        elapsed >= 0,
    ensures
        elapsed < INTERVAL ==> r == Some((INTERVAL - elapsed) as u32),
        elapsed >= INTERVAL ==> r is None,
{
    if elapsed < INTERVAL as i64 {
        Some(INTERVAL - elapsed as u32)
    } else {
        None
    }
}

/// Where a client address points: the text before the first `:` and the
/// port that the text after it (up to a second `:`) gives; none when there is
/// no `:` or the port does not parse.
pub open spec fn spec_client_address(s: Seq<char>) -> Option<(Seq<char>, u16)> {
    let i = first_index(s, ':');
    if i >= s.len() {
        None
    } else {
        let rest = s.skip(i + 1 as int);
        match spec_parse_u16(rest.take(first_index(rest, ':') as int)) {
            Some(port) => Some((s.take(i as int), port)),
            None => None,
        }
    }
}

/// Splits a client address `host:port` into the host and the port number.
pub fn client_address(client: &str) -> (r: Option<(String, u16)>)
    ensures
        match r {
            Some((host, port)) => spec_client_address(client@) == Some((host@, port)),
            None => spec_client_address(client@) is None,
        },
{
    let len = client.unicode_len();
    let i = find_char(client, ':', 0);
    proof {
        assert(client@.skip(0) =~= client@);
        lemma_first_index(client@, ':', i as int);
    }
    if i == len {
        return None;
    }
    let j = find_char(client, ':', i + 1);
    let ghost rest = client@.skip(i + 1);
    proof {
        lemma_first_index(rest, ':', j - (i + 1));
        assert(rest.take(j - (i + 1)) =~= client@.subrange(i + 1, j as int));
    }
    let port_text = client.substring_char(i + 1, j);
    match parse_u16(port_text) {
        Some(port) => {
            let host = client.substring_char(0, i);
            assert(host@ =~= client@.take(i as int));
            Some((String::from_str(host), port))
        },
        None => None,
    }
}

/// A client address written as `host:port`, with a host free of `:`, splits
/// back into that host and port.
pub proof fn lemma_client_address_roundtrip(host: Seq<char>, port: u16)
    requires
        forall|k: int| 0 <= k < host.len() ==> host[k] != ':',
    ensures
        spec_client_address(host + seq![':'] + nat_decimal(port as nat)) == Some((host, port)),
{
    let digits = nat_decimal(port as nat);
    let s = host + seq![':'] + digits;
    lemma_nat_decimal(port as nat);
    lemma_parse_u16_of_decimal(port);
    assert forall|k: int| 0 <= k < host.len() implies s[k] != ':' by {
        assert(s[k] == host[k]);
    }
    assert(s[host.len() as int] == ':');
    lemma_first_index(s, ':', host.len() as int);
    let rest = s.skip(host.len() + 1 as int);
    assert(rest =~= digits);
    lemma_first_index(rest, ':', rest.len() as int);
    assert(rest.take(rest.len() as int) =~= digits);
    assert(s.take(host.len() as int) =~= host);
}

/// What the reporter does with a message a client sent.
#[derive(Clone, Copy, Debug, PartialEq, Eq, Structural)]
pub enum ReceiverAction {
    /// Drop the message.
    Ignore,
    /// Register the sender's address for status updates.
    Register,
    /// Send this command to the tellstick.
    Switch(Command),
}

/// The reporter's answer to a message: a message that does not carry the
/// reporter's password is silently dropped; otherwise a registration
/// registers the sender and a switch request becomes the matching tellstick
/// command.
pub fn handle_datagram(message: Message, password: &String) -> (r: ReceiverAction)
    ensures
        message.password@ != password@ ==> r == ReceiverAction::Ignore,
        message.password@ == password@ ==> r == match message.action {
            Action::Register => ReceiverAction::Register,
            Action::Switch(d) => ReceiverAction::Switch(
                match d.state {
                    crate::extmsg::State::On => Command::TurnOn(d.id),
                    crate::extmsg::State::Off => Command::TurnOff(d.id),
                },
            ),
        },
{
    if !message.password.eq(password) {
        return ReceiverAction::Ignore;
    }
    match message.action {
        Action::Register => ReceiverAction::Register,
        Action::Switch(d) => ReceiverAction::Switch(telldus::switch(d.id, d.state)),
    }
}

} // verus!
