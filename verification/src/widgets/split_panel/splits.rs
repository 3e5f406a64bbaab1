use vstd::prelude::*;
use crate::helpers::str_map::StrMap;
use crate::helpers::text::{decimal, push_decimal};
use crate::widgets::split_panel::timeentry::TimeEntry;

verus! {

/// One video player's part of a row: the split time, the length of the
/// segment that ends there, and the player's start time offset.
#[derive(Clone, Copy, Debug, PartialEq, Eq)]
pub struct Segment {
    pub time: TimeEntry,
    pub duration: Option<u64>,
    pub offset: TimeEntry,
}

/// A row of the split table: a named segment with one `Segment` per video player.
pub struct VideoSegment {
    name: String,
    id: String,
    segments: StrMap<Segment>,
}

/// What a `VideoSegment` holds: its name, its id, and the segments by player key.
pub struct VideoSegmentView {
    pub name: Seq<char>,
    pub id: Seq<char>,
    pub segments: Map<Seq<char>, Segment>,
}

impl View for VideoSegment {
    type V = VideoSegmentView;

    closed spec fn view(&self) -> VideoSegmentView {
        VideoSegmentView { name: self.name@, id: self.id@, segments: self.segments@ }
    }
}

/// The segment a new row starts with for each player: no split time yet, no
/// duration, a zero offset.
pub open spec fn empty_segment() -> Segment {
    Segment {
        time: TimeEntry { time: u64::MAX, old_time: 0 },
        duration: None,
        offset: TimeEntry { time: 0, old_time: 0 },
    }
}

impl VideoSegmentView {
    /// This row after the split time of player `key` is set to `time`.
    pub open spec fn with_time(self, key: Seq<char>, time: u64) -> VideoSegmentView {
        let s = self.segments[key];
        VideoSegmentView {
            segments: self.segments.insert(key, Segment { time: s.time.after_set(time), ..s }),
            ..self
        }
    }

    /// This row after the duration of player `key` is set to `duration`.
    pub open spec fn with_duration(self, key: Seq<char>, duration: u64) -> VideoSegmentView {
        let s = self.segments[key];
        VideoSegmentView {
            segments: self.segments.insert(key, Segment { duration: Some(duration), ..s }),
            ..self
        }
    }

    /// This row after the offset of player `key` is set to `offset`.
    pub open spec fn with_offset(self, key: Seq<char>, offset: u64) -> VideoSegmentView {
        let s = self.segments[key];
        VideoSegmentView {
            segments: self.segments.insert(key, Segment { offset: s.offset.after_set(offset), ..s }),
            ..self
        }
    }

    /// The split time of player `key`, if the row has a segment for it.
    pub open spec fn time_of(self, key: Seq<char>) -> Option<u64> {
        if self.segments.contains_key(key) {
            Some(self.segments[key].time.time)
        } else {
            None
        }
    }
}

impl VideoSegment {
    /// No player key is stored twice.
    pub closed spec fn wf(&self) -> bool {
        self.segments.wf()
    }

    /// A row named `name` with the id `id` (written in decimal) and no segments.
    pub fn new(name: &str, id: u32) -> (v: Self)
        ensures
            v.wf(),
            v@.name == name@,
            v@.id == decimal(id as nat),
            v@.segments == Map::<Seq<char>, Segment>::empty(),
    {
        let mut id_text = String::new();
        push_decimal(&mut id_text, id as u64);
        assert(id_text@ =~= decimal(id as nat));
        VideoSegment { name: name.to_owned(), id: id_text, segments: StrMap::new() }
    }

    pub fn get_name(&self) -> (r: String)
        ensures
            r@ == self@.name,
    {
        self.name.clone()
    }

    pub fn set_name(&mut self, new_name: String)
        ensures
            final(self)@ == (VideoSegmentView { name: new_name@, ..old(self)@ }),
            final(self).wf() == old(self).wf(),
    {
        self.name = new_name;
    }

    pub fn get_segment_id(&self) -> (r: String)
        ensures
            r@ == self@.id,
    {
        self.id.clone()
    }

    /// The segment of player `video_player_id`, if the row has one.
    pub fn get_segment(&self, video_player_id: &str) -> (r: Option<Segment>)
        requires
            self.wf(),
        ensures
            match r {
                Some(s) => self@.segments.contains_key(video_player_id@) && s
                    == self@.segments[video_player_id@],
                None => !self@.segments.contains_key(video_player_id@),
            },
    {
        match self.segments.get(video_player_id) {
            Some(s) => Some(*s),
            None => None,
        }
    }

    pub fn get_time(&self, video_player_index: &str) -> (t: u64)
        requires
            self.wf(),
            self@.segments.contains_key(video_player_index@),
        ensures
            t == self@.segments[video_player_index@].time.time,
    {
        self.segments.get(video_player_index).unwrap().time.time
    }

    pub fn get_duration(&self, video_player_index: &str) -> (d: Option<u64>)
        requires
            self.wf(),
            self@.segments.contains_key(video_player_index@),
        ensures
            d == self@.segments[video_player_index@].duration,
    {
        self.segments.get(video_player_index).unwrap().duration
    }

    pub fn get_offset(&self, video_player_id: &str) -> (o: u64)
        requires
            self.wf(),
            self@.segments.contains_key(video_player_id@),
        ensures
            o == self@.segments[video_player_id@].offset.time,
    {
        self.segments.get(video_player_id).unwrap().offset.time
    }

    /// A copy of the split time entry of player `video_player_id`: a value,
    /// so a later change of the row does not reach it, nor a change of it
    /// the row. A seek bar mark follows its row through its link to it:
    /// `Window` brings every linked mark in line after each edit of its
    /// table (see `Window::marks_in_step`).
    pub fn get_time_entry_copy(&self, video_player_id: &str) -> (e: TimeEntry)
        requires
            self.wf(),
            self@.segments.contains_key(video_player_id@),
        ensures
            e == self@.segments[video_player_id@].time,
    {
        self.segments.get(video_player_id).unwrap().time
    }

    /// Number of players with a segment in this row.
    pub fn get_segment_count(&self) -> (n: usize)
        requires
            self.wf(),
        ensures
            n == self@.segments.dom().len(),
    {
        self.segments.len()
    }

    /// Adds (or resets) the segment of player `id` to an empty one and returns it.
    pub fn add_empty_segment(&mut self, id: &str) -> (s: Segment)
        requires
            old(self).wf(),
        ensures
            final(self).wf(),
            s == empty_segment(),
            final(self)@ == (VideoSegmentView {
                segments: old(self)@.segments.insert(id@, empty_segment()),
                ..old(self)@
            }),
    {
        let new_segment = Segment {
            time: TimeEntry::new(u64::MAX),
            duration: None,
            offset: TimeEntry::new(0),
        };
        self.segments.insert(id.to_owned(), new_segment);
        new_segment
    }

    pub fn set_time(&mut self, video_player_id: &str, time: u64)
        requires
            old(self).wf(),
            old(self)@.segments.contains_key(video_player_id@),
        ensures
            final(self).wf(),
            final(self)@ == old(self)@.with_time(video_player_id@, time),
    {
        let mut s = *self.segments.get(video_player_id).unwrap();
        s.time.set_time(time);
        self.segments.insert(video_player_id.to_owned(), s);
    }

    pub fn set_duration(&mut self, video_player_id: &str, duration: u64)
        requires
            old(self).wf(),
            old(self)@.segments.contains_key(video_player_id@),
        ensures
            final(self).wf(),
            final(self)@ == old(self)@.with_duration(video_player_id@, duration),
    {
        let mut s = *self.segments.get(video_player_id).unwrap();
        s.duration = Some(duration);
        self.segments.insert(video_player_id.to_owned(), s);
    }

    pub fn set_offset(&mut self, video_player_id: &str, offset: u64)
        requires
            old(self).wf(),
            old(self)@.segments.contains_key(video_player_id@),
        ensures
            final(self).wf(),
            final(self)@ == old(self)@.with_offset(video_player_id@, offset),
    {
        let mut s = *self.segments.get(video_player_id).unwrap();
        s.offset.set_time(offset);
        self.segments.insert(video_player_id.to_owned(), s);
    }

    /// The player keys of this row, each once, in no particular order.
    pub fn get_keys(&self) -> (ks: Vec<String>)
        requires
            self.wf(),
        ensures
            ks@.len() == self@.segments.dom().len(),
            forall|i: int| 0 <= i < ks@.len() ==> self@.segments.contains_key(#[trigger] ks@[i]@),
            forall|i: int, j: int| 0 <= i < j < ks@.len() ==> ks@[i]@ != ks@[j]@,
    {
        proof {
            self.segments.lemma_entries();
        }
        let ks = self.segments.keys();
        proof {
            assert forall|i: int, j: int| 0 <= i < j < ks@.len() implies ks@[i]@ != ks@[j]@ by {
                assert(ks@[i]@ == self.segments.key_seq()[i]);
                assert(ks@[j]@ == self.segments.key_seq()[j]);
            }
        }
        ks
    }

    pub fn remove_segment(&mut self, video_player_id: &str)
        requires
            old(self).wf(),
        ensures
            final(self).wf(),
            final(self)@ == (VideoSegmentView {
                segments: old(self)@.segments.remove(video_player_id@),
                ..old(self)@
            }),
    {
        self.segments.remove(video_player_id);
    }
}

} // verus!
