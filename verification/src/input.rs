use vstd::prelude::*;

verus! {

/// What the engine does in response to input.
#[derive(Clone, Copy, Debug, PartialEq, Eq, Structural)]
pub enum EngineAction {
    Continue,
    Quit,
}

/// The part of a key press the engine looks at.
#[derive(Clone, Copy, Debug, PartialEq, Eq, Structural)]
pub enum KeyInput {
    Esc,
    Char(char),
    Other,
}

/// Escape, `q` and `Q` quit; every other key is ignored.
pub open spec fn spec_key_action(key: KeyInput) -> EngineAction {
    match key {
        KeyInput::Esc => EngineAction::Quit,
        KeyInput::Char(c) => if c == 'q' || c == 'Q' {
            EngineAction::Quit
        } else {
            EngineAction::Continue
        },
        KeyInput::Other => EngineAction::Continue,
    }
}

pub fn key_event_to_action(key: KeyInput) -> (action: EngineAction)
    ensures
        action == spec_key_action(key),
{
    match key {
        KeyInput::Esc => EngineAction::Quit,
        KeyInput::Char(c) => if c == 'q' || c == 'Q' {
            EngineAction::Quit
        } else {
            EngineAction::Continue
        },
        KeyInput::Other => EngineAction::Continue,
    }
}

} // verus!
