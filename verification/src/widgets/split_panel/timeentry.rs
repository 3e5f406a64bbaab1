use vstd::prelude::*;

verus! {

/// A time in nanoseconds, with the time it held before its last change.
///
/// `u64::MAX` stands for a time that has not been set.
#[derive(Clone, Copy, Debug, PartialEq, Eq, Structural)]
pub struct TimeEntry {
    pub time: u64,
    pub old_time: u64,
}

impl TimeEntry {
    /// The entry after its time is set to `new_time`.
    pub open spec fn after_set(self, new_time: u64) -> TimeEntry {
        TimeEntry { time: new_time, old_time: self.time }
    }

    /// A new entry holding `time`, with zero as its previous time.
    pub open spec fn new_spec(time: u64) -> TimeEntry {
        TimeEntry { time, old_time: 0 }
    }

    /// A new entry holding `time`; its previous time is zero.
    pub fn new(time: u64) -> (e: Self)
        ensures
            e == TimeEntry::new_spec(time),
    {
        TimeEntry { time, old_time: 0 }
    }

    pub fn get_time(&self) -> (t: u64)
        ensures
            t == self.time,
    {
        self.time
    }

    /// Sets a new time; the time held so far becomes the old time.
    pub fn set_time(&mut self, new_time: u64)
        ensures
            *final(self) == old(self).after_set(new_time),
    {
        self.old_time = self.time;
        self.time = new_time;
    }

    pub fn get_old_time(&self) -> (t: u64)
        ensures
            t == self.old_time,
    {
        self.old_time
    }
}

/// After a change, the entry holds the new time and remembers the one before.
pub proof fn lemma_set_time_remembers(e: TimeEntry, t: u64)
    ensures
        e.after_set(t).time == t,
        e.after_set(t).old_time == e.time,
        e.after_set(t).after_set(e.time).time == e.time,
{
}

} // verus!
