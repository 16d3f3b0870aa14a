use vstd::prelude::*;
use vstd::string::StringExecFns;

use crate::text::{decimal, decimal_string};

verus! {

/// What an activity record holds, as plain mathematical values.
pub ghost struct ActivityEntry {
    pub user: Seq<char>,
    pub active_mins: u32,
    pub steps_made: u32,
    pub date: Seq<char>,
}

/// The line shown for an activity of `user`.
pub open spec fn activity_text(user: Seq<char>, mins: u32, steps: u32, date: Seq<char>) -> Seq<
    char,
> {
    user + " active mins: "@ + decimal(mins as nat) + " steps made: "@ + decimal(steps as nat)
        + " from: "@ + date
}

impl ActivityEntry {
    pub open spec fn text(self) -> Seq<char> {
        activity_text(self.user, self.active_mins, self.steps_made, self.date)
    }
}

/// One accepted activity. Records are only ever appended to the log.
pub struct ActivityRecord {
    pub user: String,
    pub active_mins: u32,
    pub steps_made: u32,
    pub date: String,
}

impl View for ActivityRecord {
    type V = ActivityEntry;

    open spec fn view(&self) -> ActivityEntry {
        ActivityEntry {
            user: self.user@,
            active_mins: self.active_mins,
            steps_made: self.steps_made,
            date: self.date@,
        }
    }
}

impl ActivityRecord {
    /// The line that presents this record.
    pub fn display(&self) -> (r: String)
        ensures
            r@ == self@.text(),
    {
        let mut s = self.user.clone();
        s.append(" active mins: ");
        let mins = decimal_string(self.active_mins);
        s.append(mins.as_str());
        s.append(" steps made: ");
        let steps = decimal_string(self.steps_made);
        s.append(steps.as_str());
        s.append(" from: ");
        s.append(self.date.as_str());
        s
    }
}

} // verus!
