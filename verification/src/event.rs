//! The events recorded in a script's history.
use vstd::prelude::*;

verus! {

/// The kinds of events.
#[derive(Debug, Copy, Clone, PartialEq, Eq, Structural)]
pub enum EventType {
    Exec,
    ExecDone,
    Read,
    Write,
    Miss,
}

/// An event with what it records. Directories are carried as their text.
#[derive(Debug)]
pub enum EventData<'a> {
    Exec { content: &'a str, args: &'a str, dir: Option<&'a str> },
    ExecDone { code: i32, main_event_id: i64 },
    Read,
    Write,
    Miss,
}

impl EventData<'_> {
    /// The kind of the event.
    pub fn get_type(&self) -> (r: EventType)
        ensures
            r == match self {
                EventData::Exec { .. } => EventType::Exec,
                EventData::ExecDone { .. } => EventType::ExecDone,
                EventData::Read => EventType::Read,
                EventData::Write => EventType::Write,
                EventData::Miss => EventType::Miss,
            },
    {
        match self {
            EventData::Exec { .. } => EventType::Exec,
            EventData::ExecDone { .. } => EventType::ExecDone,
            EventData::Read => EventType::Read,
            EventData::Write => EventType::Write,
            EventData::Miss => EventType::Miss,
        }
    }
}

/// The name of a kind of event, as stored.
pub open spec fn event_type_name(t: EventType) -> Seq<char> {
    match t {
        EventType::ExecDone => "ExecDone"@,
        EventType::Exec => "Exec"@,
        EventType::Read => "Read"@,
        EventType::Write => "Write"@,
        EventType::Miss => "Miss"@,
    }
}

impl EventType {
    pub fn get_str(&self) -> (r: &'static str)
        ensures
            r@ == event_type_name(*self),
    {
        match self {
            EventType::ExecDone => "ExecDone",
            EventType::Exec => "Exec",
            EventType::Read => "Read",
            EventType::Write => "Write",
            EventType::Miss => "Miss",
        }
    }
}

/// An event of a script at a time (seconds since the epoch).
#[derive(Debug)]
pub struct Event<'a> {
    pub data: EventData<'a>,
    pub script_id: i64,
    pub time: i64,
}

/// Script ids written as `[id]` one after the other, the form the history
/// database matches ids against.
pub open spec fn id_list_text(ids: Seq<i64>) -> Seq<char>
    decreases ids.len(),
{
    if ids.len() == 0 {
        Seq::empty()
    } else {
        id_list_text(ids.drop_last()) + seq!['['] + crate::num::signed_decimal(ids.last() as int) + seq![']']
    }
}

pub fn join_id_str(ids: &[i64]) -> (r: String)
    ensures
        r@ == id_list_text(ids@),
{
    let mut v: Vec<char> = Vec::new();
    let mut i: usize = 0;
    while i < ids.len()
        invariant
            i <= ids@.len(),
            v@ == id_list_text(ids@.take(i as int)),
        decreases ids@.len() - i,
    {
        assert(ids@.take(i + 1).drop_last() =~= ids@.take(i as int));
        v.push('[');
        let d = crate::num::signed_decimal_chars(ids[i]);
        crate::text::push_all(&mut v, d.as_slice());
        v.push(']');
        i = i + 1;
    }
    assert(ids@.take(ids@.len() as int) =~= ids@);
    crate::text::from_chars(v.as_slice())
}

/// The entries of a history range `min..max` (counted from 1, the latest first)
/// as an offset and a count; no end means no limit, written `-1`.
pub fn range_offset_limit(min: u64, max: Option<u64>) -> (r: (i64, i64))
    requires
        1 <= min <= i64::MAX,
        max matches Some(m) ==> min <= m <= i64::MAX,
    ensures
        r.0 == min - 1,
        r.1 == match max {
            Some(m) => m - min,
            None => -1,
        },
{
    let offset = (min - 1) as i64;
    let limit = match max {
        Some(m) => (m - min) as i64,
        None => -1,
    };
    (offset, limit)
}

/// The content a run records: none when it equals the content of the script's
/// last recorded run.
pub fn exec_content_to_store<'a>(content: &'a str, last_content: Option<&str>) -> (r: Option<&'a str>)
    ensures
        match last_content {
            Some(l) => if l@ == content@ {
                r is None
            } else {
                r == Some(content)
            },
            None => r == Some(content),
        },
{
    match last_content {
        Some(l) => {
            if crate::text::str_eq(l, content) {
                None
            } else {
                Some(content)
            }
        },
        None => Some(content),
    }
}

/// Whether the end of a run is recorded, given its run as `(ignored, humble)`:
/// not when the run is gone or ignored; otherwise humbly when the run was humble.
pub fn exec_done_plan(main_event: Option<(bool, bool)>) -> (r: Option<bool>)
    ensures
        r == match main_event {
            None => None,
            Some((ignored, humble)) => if ignored {
                None
            } else {
                Some(humble)
            },
        },
{
    match main_event {
        None => None,
        Some((ignored, humble)) => {
            if ignored {
                None
            } else {
                Some(humble)
            }
        },
    }
}

/// How the end of a run is recorded, given whether the end event itself is humble
/// and its run as `(ignored, humble)`: not at all when the run is gone or
/// ignored; otherwise humbly when the end event or its run is humble.
pub fn exec_done_humble(event_humble: bool, main_event: Option<(bool, bool)>) -> (r: Option<bool>)
    ensures
        r == match main_event {
            None => None,
            Some((ignored, humble)) => if ignored {
                None
            } else {
                Some(event_humble || humble)
            },
        },
{
    match exec_done_plan(main_event) {
        None => None,
        Some(humble) => Some(event_humble || humble),
    }
}

/// The id a recorded end of a run reports: none (0) for a humble one, so that the
/// script's latest time is left alone.
pub fn exec_done_id(humble: bool, id: i64) -> (r: i64)
    ensures
        r == if humble {
            0
        } else {
            id
        },
{
    if humble {
        0
    } else {
        id
    }
}

/// Whether the times a script holds (last run, end of the last run, last humble
/// event) differ from what the history says after some of it was removed.
pub fn time_changed(
    held: (Option<i64>, Option<i64>, Option<i64>),
    recorded: (Option<i64>, Option<i64>, Option<i64>),
) -> (r: bool)
    ensures
        r == (held != recorded),
{
    !(opt_eq(held.0, recorded.0) && opt_eq(held.1, recorded.1) && opt_eq(held.2, recorded.2))
}

fn opt_eq(a: Option<i64>, b: Option<i64>) -> (r: bool)
    ensures
        r == (a == b),
{
    match (a, b) {
        (Some(x), Some(y)) => x == y,
        (None, None) => true,
        _ => false,
    }
}

} // verus!
