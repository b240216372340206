//! The events that the script manager itself hands to its history.
use vstd::prelude::*;

verus! {

/// The kinds of events.
#[derive(Debug, Copy, Clone, PartialEq, Eq, Structural)]
pub enum EventType {
    Exec,
    Read,
}

/// An event: an execution with its content, or a read.
#[derive(Debug)]
pub enum EventData {
    Exec(String),
    Read,
}

impl EventData {
    /// The kind of the event.
    pub fn get_type(&self) -> (r: EventType)
        ensures
            r == match self {
                EventData::Exec(_) => EventType::Exec,
                EventData::Read => EventType::Read,
            },
    {
        match self {
            EventData::Exec(_) => EventType::Exec,
            EventData::Read => EventType::Read,
        }
    }
}

impl EventType {
    /// The name of the kind.
    pub fn to_string(&self) -> (r: String)
        ensures
            r@ == match *self {
                EventType::Exec => "Exec"@,
                EventType::Read => "Read"@,
            },
    {
        match self {
            EventType::Exec => "Exec".to_owned(),
            EventType::Read => "Read".to_owned(),
        }
    }
}

/// An event of a script.
#[derive(Debug)]
pub struct Event {
    pub data: EventData,
    pub script_id: i64,
}

} // verus!
