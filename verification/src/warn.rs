//! Temporary warnings shown by the terminal UI.
//!
//! Time is given in nanoseconds on a clock the caller keeps (the program
//! reads a monotonic clock and hands the reading in).

use vstd::prelude::*;

verus! {

/// How long a warning stays, in nanoseconds.
pub const WARN_DURATION_NS: u64 = 3_000_000_000;

/// The warning currently shown, if any, with the time it was shown.
pub struct WarnPopup {
    current: Option<(String, u64)>,
}

pub struct WarnView {
    pub current: Option<(Seq<char>, u64)>,
}

impl View for WarnPopup {
    type V = WarnView;

    closed spec fn view(&self) -> WarnView {
        WarnView {
            current: match self.current {
                Some((m, t)) => Some((m@, t)),
                None => None,
            },
        }
    }
}

/// Whether a warning shown at `shown_at` has expired at `now`.
pub open spec fn expired(shown_at: u64, now: u64) -> bool {
    now >= shown_at && now - shown_at >= WARN_DURATION_NS
}

/// The text displayed for a warning.
pub open spec fn warn_text(msg: Seq<char>) -> Seq<char> {
    "!warn: "@ + msg
}

impl WarnPopup {
    /// No warning shown.
    pub fn new() -> (r: Self)
        ensures
            r@.current is None,
    {
        WarnPopup { current: None }
    }

    /// Show `message` from time `now_ns` on, replacing any earlier warning.
    pub fn show(&mut self, message: String, now_ns: u64)
        ensures
            final(self)@.current == Some((message@, now_ns)),
    {
        self.current = Some((message, now_ns));
    }

    /// Drop the warning once it has been shown for `WARN_DURATION_NS`.
    pub fn tick(&mut self, now_ns: u64)
        ensures
            final(self)@.current == match old(self)@.current {
                Some((m, t)) => if expired(t, now_ns) { None } else { Some((m, t)) },
                None => None,
            },
    {
        let expire = match &self.current {
            Some((_, shown_at)) => now_ns >= *shown_at && now_ns - *shown_at >= WARN_DURATION_NS,
            None => false,
        };
        if expire {
            self.current = None;
        }
    }

    /// The text to display, if a warning is shown.
    pub fn render_text(&self) -> (r: Option<String>)
        ensures
            match self@.current {
                Some((m, _)) => r matches Some(s) && s@ == warn_text(m),
                None => r is None,
            },
    {
        match &self.current {
            Some((msg, _)) => {
                let mut s = String::from_str("!warn: ");
                s.append(msg.as_str());
                Some(s)
            },
            None => None,
        }
    }
}

/// A warning shown stays until `WARN_DURATION_NS` have passed, and then goes.
pub proof fn lemma_warning_lifetime(m: Seq<char>, shown: u64, now: u64)
    requires
        now >= shown,
    ensures
        expired(shown, now) <==> now - shown >= WARN_DURATION_NS,
        now - shown < WARN_DURATION_NS ==> !expired(shown, now),
{
}

} // verus!
