use vstd::prelude::*;
use crate::widgets::seek_bar::seek_bar::{
    bar_synced, is_marks_length, placement, Mark, MarkPlacement, SeekBar as MarkedSeekBar,
    SeekBarView,
};
use crate::widgets::split_panel::splittable::SplitTable;
use crate::widgets::split_panel::timeentry::TimeEntry;

verus! {

/// A player's own seek bar: marks whose times are measured from the start
/// of the video.
pub struct SeekBar {
    bar: MarkedSeekBar,
}

/// The offset a player's own marks are measured from.
pub open spec fn no_offset() -> TimeEntry {
    TimeEntry { time: 0, old_time: 0 }
}

/// The seek bar after the mark `id` for `time_entry` is added: a set time
/// past the timeline marks the length for recomputing when marks set it.
pub open spec fn mark_added(b: SeekBarView, id: Seq<char>, time_entry: TimeEntry) -> SeekBarView {
    SeekBarView {
        marks: b.marks.insert(id, Mark { time: time_entry, offset: no_offset() }),
        dirty: b.dirty || (time_entry.time != u64::MAX && time_entry.time > b.timeline_length && b.auto_length),
        ..b
    }
}

/// The seek bar after the mark `id` is linked to the split time of player
/// `index` in the row with id `row_id`.
pub open spec fn mark_linked(b: SeekBarView, id: Seq<char>, row_id: Seq<char>, index: u32) -> SeekBarView {
    SeekBarView { sources: b.sources.insert(id, (row_id, index)), ..b }
}

impl View for SeekBar {
    type V = SeekBarView;

    closed spec fn view(&self) -> SeekBarView {
        self.bar@
    }
}

impl SeekBar {
    /// Every mark is measured from the start of the video.
    pub closed spec fn wf(&self) -> bool {
        &&& self.bar.wf()
        &&& forall|k: Seq<char>| #[trigger] self.bar@.marks.contains_key(k) ==> self.bar@.marks[k].offset
            == no_offset()
    }

    pub fn new(timeline_length: u64, auto_timeline_length_handling: bool) -> (b: Self)
        ensures
            b.wf(),
            b@ == (SeekBarView {
                marks: Map::empty(),
                sources: Map::empty(),
                timeline_length,
                dirty: false,
                auto_length: auto_timeline_length_handling,
            }),
    {
        SeekBar { bar: MarkedSeekBar::new(timeline_length, auto_timeline_length_handling) }
    }

    /// Adds the mark `id` for `time_entry`; a set time past the timeline
    /// marks the length for recomputing when marks set it.
    pub fn add_mark(&mut self, id: String, time_entry: TimeEntry)
        requires
            old(self).wf(),
        ensures
            final(self).wf(),
            final(self)@ == mark_added(old(self)@, id@, time_entry),
    {
        self.bar.add_mark(id, time_entry, TimeEntry::new(0));
    }

    /// Removes the mark `id`; `true` if there was one.
    pub fn remove_mark(&mut self, id: &str) -> (removed: bool)
        requires
            old(self).wf(),
        ensures
            final(self).wf(),
            removed == old(self)@.marks.contains_key(id@),
            final(self)@ == (SeekBarView {
                marks: old(self)@.marks.remove(id@),
                sources: old(self)@.sources.remove(id@),
                ..old(self)@
            }),
    {
        self.bar.remove_mark(id)
    }

    /// Moves the mark `id` to `new_time` and says where it goes then; `None`
    /// (and no change) when there is no such mark.
    pub fn update_mark_time(&mut self, id: &str, new_time: u64) -> (p: Option<MarkPlacement>)
        requires
            old(self).wf(),
        ensures
            final(self).wf(),
            match p {
                None => !old(self)@.marks.contains_key(id@) && final(self)@ == old(self)@,
                Some(p) => {
                    let e = old(self)@.marks[id@].time.after_set(new_time);
                    let marks = old(self)@.marks.insert(id@, Mark { time: e, offset: no_offset() });
                    let old_position = if e.old_time == u64::MAX {
                        0
                    } else {
                        e.old_time
                    };
                    let dirty = old(self)@.dirty || ((old_position == old(self)@.timeline_length
                        || new_time > old(self)@.timeline_length) && old(self)@.auto_length);
                    &&& old(self)@.marks.contains_key(id@)
                    &&& final(self)@.marks == marks
                    &&& final(self)@.sources == old(self)@.sources
                    &&& final(self)@.auto_length == old(self)@.auto_length
                    &&& if dirty {
                        !final(self)@.dirty && is_marks_length(marks, final(self)@.timeline_length)
                    } else {
                        final(self)@.dirty == old(self)@.dirty && final(self)@.timeline_length
                            == old(self)@.timeline_length
                    }
                    &&& p == placement(Mark { time: e, offset: no_offset() }, final(self)@.timeline_length)
                },
            },
    {
        match self.bar.get_mark(id) {
            Some(m) => {
                let mut e = m.time;
                e.set_time(new_time);
                let p = self.bar.mark_time_changed(id, e, TimeEntry::new(0));
                proof {
                    assert forall|k: Seq<char>| #[trigger] self.bar@.marks.contains_key(k) implies self.bar@.marks[k].offset
                        == no_offset() by {
                        if k != id@ {
                            assert(old(self).bar@.marks.contains_key(k));
                        }
                    }
                }
                Some(p)
            },
            None => None,
        }
    }

    /// The placement of every mark, by id; none while the timeline has no length.
    pub fn update_mark_positions(&self) -> (ps: Vec<(String, MarkPlacement)>)
        requires
            self.wf(),
        ensures
            self@.timeline_length == 0 ==> ps@.len() == 0,
            self@.timeline_length != 0 ==> ps@.len() == self@.marks.dom().len(),
            forall|i: int|
                0 <= i < ps@.len() ==> self@.marks.contains_key(#[trigger] ps@[i].0@) && ps@[i].1
                    == placement(self@.marks[ps@[i].0@], self@.timeline_length),
            forall|i: int, j: int| 0 <= i < j < ps@.len() ==> ps@[i].0@ != ps@[j].0@,
    {
        self.bar.update_mark_positions()
    }

    pub fn get_timeline_length(&self) -> (l: u64)
        ensures
            l == self@.timeline_length,
    {
        self.bar.get_timeline_length()
    }

    pub fn set_timeline_length(&mut self, timeline_length: u64)
        ensures
            final(self).wf() == old(self).wf(),
            final(self)@ == (SeekBarView { timeline_length, ..old(self)@ }),
    {
        self.bar.set_timeline_length(timeline_length);
        assert(self.bar@.marks == old(self).bar@.marks);
    }

    pub fn set_auto_timeline_length_handling(&mut self, flag: bool)
        ensures
            final(self).wf() == old(self).wf(),
            final(self)@ == (SeekBarView { auto_length: flag, ..old(self)@ }),
    {
        self.bar.set_auto_timeline_length_handling(flag);
        assert(self.bar@.marks == old(self).bar@.marks);
    }

    /// Sets the timeline length to the furthest mark time (zero without marks).
    pub fn update_timeline_length(&mut self)
        requires
            old(self).wf(),
        ensures
            final(self).wf(),
            final(self)@.marks == old(self)@.marks,
            final(self)@.sources == old(self)@.sources,
            final(self)@.auto_length == old(self)@.auto_length,
            !final(self)@.dirty,
            is_marks_length(old(self)@.marks, final(self)@.timeline_length),
    {
        self.bar.update_timeline_length();
    }

    /// Links the mark `id` to the split time of player `index` in the row
    /// with id `row_id` (see `sync_times`).
    pub fn link_mark(&mut self, id: String, row_id: String, index: u32)
        requires
            old(self).wf(),
        ensures
            final(self).wf(),
            final(self)@ == (SeekBarView {
                sources: old(self)@.sources.insert(id@, (row_id@, index)),
                ..old(self)@
            }),
    {
        self.bar.link_mark(id, row_id, index);
    }

    /// Brings every linked mark in line with the table (see
    /// `SeekBar::sync_times` of the marked seek bar).
    pub fn sync_times(&mut self, table: &SplitTable)
        requires
            old(self).wf(),
            table.wf(),
        ensures
            final(self).wf(),
            bar_synced(old(self)@, final(self)@, table@.rows),
    {
        self.bar.sync_times(table);
        proof {
            assert forall|k: Seq<char>| #[trigger] self.bar@.marks.contains_key(k) implies self.bar@.marks[k].offset
                == no_offset() by {
                if old(self).bar@.sources.contains_key(k) {
                    assert(self.bar@.marks[k].offset == old(self).bar@.marks[k].offset);
                }
            }
        }
    }
}

} // verus!
