//! Messages that a client sends to the reporter: register for status updates,
//! or switch a device.
use vstd::prelude::*;

verus! {

/// Whether a switch is on or off.
#[derive(Clone, Copy, Debug, PartialEq, Eq, Structural)]
pub enum State {
    On,
    Off,
}

impl State {
    /// The text that names the state.
    pub open spec fn text(self) -> Seq<char> {
        match self {
            State::On => seq!['O', 'N'],
            State::Off => seq!['O', 'F', 'F'],
        }
    }

    /// `"ON"` or `"OFF"`.
    pub fn to_string(&self) -> (r: String)
        ensures
            r@ == self.text(),
    {
        match self {
            State::On => {
                proof {
                    reveal_strlit("ON");
                }
                String::from_str("ON")
            },
            State::Off => {
                proof {
                    reveal_strlit("OFF");
                }
                String::from_str("OFF")
            },
        }
    }
}

/// The two states are named by different texts.
pub proof fn lemma_state_text_distinct(a: State, b: State)
    requires
        a != b,
    ensures
        a.text() != b.text(),
{
    assert(State::On.text().len() != State::Off.text().len());
}

/// A request to put one device into a state.
#[derive(Clone, Copy, Debug, PartialEq, Eq, Structural)]
pub struct SwitchData {
    pub id: i32,
    pub state: State,
}

/// What a client asks of the reporter.
#[derive(Clone, Debug, PartialEq)]
pub enum Action {
    Register,
    Switch(SwitchData),
}

/// A client's message: the shared password and the action asked for.
#[derive(Clone, Debug, PartialEq)]
pub struct Message {
    pub password: String,
    pub action: Action,
}

/// The example message that `write_message` prints: switch device 1 on.
pub fn sample_message() -> (m: Message)
    ensures
        m.password@ == "pwd"@,
        m.action == Action::Switch(SwitchData { id: 1, state: State::On }),
{
    Message {
        password: String::from_str("pwd"),
        action: Action::Switch(SwitchData { id: 1, state: State::On }),
    }
}

} // verus!
