//! Data model: event and transition kinds, raw focus samples, and the row
//! types stored in the activity ledger. All timestamps are epoch seconds held
//! in one integer representation.

use vstd::prelude::*;

verus! {

/// Kind of a window-activity row.
#[derive(Debug, Clone, Copy, PartialEq, Eq, Structural)]
pub enum EventType {
    Focus,
    Blur,
    AppOpen,
    AppClose,
    WindowCreate,
    WindowDestroy,
}

impl EventType {
    /// The canonical string under which this kind is persisted.
    pub fn as_str(&self) -> (r: &'static str)
        ensures
            r@ == self.str_spec(),
    {
        match self {
            EventType::Focus => "focus",
            EventType::Blur => "blur",
            EventType::AppOpen => "app_open",
            EventType::AppClose => "app_close",
            EventType::WindowCreate => "window_create",
            EventType::WindowDestroy => "window_destroy",
        }
    }

    pub open spec fn str_spec(self) -> Seq<char> {
        match self {
            EventType::Focus => "focus"@,
            EventType::Blur => "blur"@,
            EventType::AppOpen => "app_open"@,
            EventType::AppClose => "app_close"@,
            EventType::WindowCreate => "window_create"@,
            EventType::WindowDestroy => "window_destroy"@,
        }
    }
}

/// Parses the canonical string of an event kind. Succeeds if and only if
/// the string is one of the canonical spellings, and then returns the kind
/// that spells so.
pub fn parse_event_type(s: &str) -> (r: Result<EventType, crate::error::AppError>)
    ensures
        match r {
            Ok(t) => s@ == t.str_spec(),
            Err(e) => {
                &&& forall|t: EventType| s@ != #[trigger] t.str_spec()
                &&& e matches crate::error::AppError::InvalidInput(_)
            },
        },
{
    let owned = s.to_owned();
    let r = if owned == String::from_str("focus") {
        Ok(EventType::Focus)
    } else if owned == String::from_str("blur") {
        Ok(EventType::Blur)
    } else if owned == String::from_str("app_open") {
        Ok(EventType::AppOpen)
    } else if owned == String::from_str("app_close") {
        Ok(EventType::AppClose)
    } else if owned == String::from_str("window_create") {
        Ok(EventType::WindowCreate)
    } else if owned == String::from_str("window_destroy") {
        Ok(EventType::WindowDestroy)
    } else {
        Err(crate::error::AppError::InvalidInput(String::from_str("unknown event type")))
    };
    proof {
        if r is Err {
            assert forall|t: EventType| s@ != #[trigger] t.str_spec() by {
                match t {
                    EventType::Focus => assert(s@ != "focus"@),
                    EventType::Blur => assert(s@ != "blur"@),
                    EventType::AppOpen => assert(s@ != "app_open"@),
                    EventType::AppClose => assert(s@ != "app_close"@),
                    EventType::WindowCreate => assert(s@ != "window_create"@),
                    EventType::WindowDestroy => assert(s@ != "window_destroy"@),
                }
            }
        }
    }
    r
}

/// Kind of a recorded focus transition.
#[derive(Debug, Clone, Copy, PartialEq, Eq, Structural)]
pub enum TransitionType {
    AppSwitch,
    WindowSwitch,
    NewWindow,
    CloseWindow,
}

impl TransitionType {
    /// The canonical string under which this kind is persisted.
    pub fn as_str(&self) -> (r: &'static str)
        ensures
            r@ == self.str_spec(),
    {
        match self {
            TransitionType::AppSwitch => "app_switch",
            TransitionType::WindowSwitch => "window_switch",
            TransitionType::NewWindow => "new_window",
            TransitionType::CloseWindow => "close_window",
        }
    }

    pub open spec fn str_spec(self) -> Seq<char> {
        match self {
            TransitionType::AppSwitch => "app_switch"@,
            TransitionType::WindowSwitch => "window_switch"@,
            TransitionType::NewWindow => "new_window"@,
            TransitionType::CloseWindow => "close_window"@,
        }
    }
}

} // verus!
