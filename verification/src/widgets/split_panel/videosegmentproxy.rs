use vstd::prelude::*;
use crate::widgets::split_panel::splits::{VideoSegment, VideoSegmentView};

verus! {

/// The value a proxy shows for field `field` of player `id` in a row:
/// the split time, the duration, the offset, or the split time less the
/// offset (not below zero); `u64::MAX` for an unset value or an unknown field.
pub open spec fn proxy_value(seg: VideoSegmentView, id: Seq<char>, field: Seq<char>) -> u64 {
    if field == "time"@ {
        seg.segments[id].time.time
    } else if field == "duration"@ {
        match seg.segments[id].duration {
            Some(d) => d,
            None => u64::MAX,
        }
    } else if field == "offset"@ {
        seg.segments[id].offset.time
    } else if field == "relative-time"@ {
        let t = seg.segments[id].time.time;
        let o = seg.segments[id].offset.time;
        if t == u64::MAX {
            u64::MAX
        } else if t >= o {
            (t - o) as u64
        } else {
            0
        }
    } else {
        u64::MAX
    }
}

/// A field the proxy knows.
pub open spec fn known_field(field: Seq<char>) -> bool {
    field == "time"@ || field == "duration"@ || field == "offset"@ || field == "relative-time"@
}

/// The row signals whose change moves a field: the field itself, and both
/// the time and the offset for the time relative to the offset.
pub open spec fn signals_for(field: Seq<char>) -> Seq<Seq<char>> {
    if field == "time"@ {
        seq!["time"@]
    } else if field == "duration"@ {
        seq!["duration"@]
    } else if field == "offset"@ {
        seq!["offset"@]
    } else if field == "relative-time"@ {
        seq!["time"@, "offset"@]
    } else {
        seq![]
    }
}

/// One field of one player's segment in a row, as a single value.
pub struct VideoSegmentProxy<'a> {
    segment: &'a VideoSegment,
    video_player_id: String,
    field: String,
}

impl<'a> VideoSegmentProxy<'a> {
    pub closed spec fn segment_view(&self) -> VideoSegmentView {
        self.segment@
    }

    pub closed spec fn id_view(&self) -> Seq<char> {
        self.video_player_id@
    }

    pub closed spec fn field_view(&self) -> Seq<char> {
        self.field@
    }

    pub closed spec fn wf(&self) -> bool {
        self.segment.wf()
    }

    pub fn new(segment: &'a VideoSegment, video_player_id: &str, field: &str) -> (p: Self)
        requires
            segment.wf(),
        ensures
            p.wf(),
            p.segment_view() == segment@,
            p.id_view() == video_player_id@,
            p.field_view() == field@,
    {
        VideoSegmentProxy { segment, video_player_id: video_player_id.to_owned(), field: field.to_owned() }
    }

    /// The value of the field (see `proxy_value`).
    pub fn value(&self) -> (v: u64)
        requires
            self.wf(),
            known_field(self.field_view()) ==> self.segment_view().segments.contains_key(self.id_view()),
        ensures
            v == proxy_value(self.segment_view(), self.id_view(), self.field_view()),
    {
        let id = self.video_player_id.as_str();
        proof {
            reveal_strlit("time");
            reveal_strlit("duration");
            reveal_strlit("offset");
            reveal_strlit("relative-time");
        }
        if self.field == "time".to_owned() {
            self.segment.get_time(id)
        } else if self.field == "duration".to_owned() {
            match self.segment.get_duration(id) {
                Some(d) => d,
                None => u64::MAX,
            }
        } else if self.field == "offset".to_owned() {
            self.segment.get_offset(id)
        } else if self.field == "relative-time".to_owned() {
            let time = self.segment.get_time(id);
            if time == u64::MAX {
                time
            } else {
                time.saturating_sub(self.segment.get_offset(id))
            }
        } else {
            u64::MAX
        }
    }

    /// The row signals that change the value (see `signals_for`).
    pub fn relevant_signals(&self) -> (signals: Vec<String>)
        ensures
            signals@.map_values(|s: String| s@) == signals_for(self.field_view()),
    {
        proof {
            reveal_strlit("time");
            reveal_strlit("duration");
            reveal_strlit("offset");
            reveal_strlit("relative-time");
        }
        let mut signals: Vec<String> = Vec::new();
        if self.field == "time".to_owned() {
            signals.push("time".to_owned());
        } else if self.field == "duration".to_owned() {
            signals.push("duration".to_owned());
        } else if self.field == "offset".to_owned() {
            signals.push("offset".to_owned());
        } else if self.field == "relative-time".to_owned() {
            signals.push("time".to_owned());
            signals.push("offset".to_owned());
        }
        assert(signals@.map_values(|s: String| s@) =~= signals_for(self.field_view()));
        signals
    }

    /// A row signal about player `emitted_id` changes the value only when it
    /// is this proxy's player.
    pub fn concerns(&self, emitted_id: &str) -> (b: bool)
        ensures
            b == (emitted_id@ == self.id_view()),
    {
        self.video_player_id == emitted_id.to_owned()
    }
}

} // verus!
