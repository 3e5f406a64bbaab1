use vstd::prelude::*;
use crate::helpers::str_map::StrMap;
use crate::widgets::split_panel::splits::{VideoSegment, VideoSegmentView};
use crate::widgets::split_panel::splittable::{player_key, player_key_text, SplitTable};
use crate::widgets::split_panel::timeentry::TimeEntry;

verus! {

/// A mark on the seek bar: the split time it shows and the start time
/// offset that time is measured from.
#[derive(Clone, Copy, Debug, PartialEq, Eq, Structural)]
pub struct Mark {
    pub time: TimeEntry,
    pub offset: TimeEntry,
}

/// Where a mark goes on the timeline after a change.
#[derive(Clone, Copy, Debug, PartialEq, Eq)]
pub enum MarkPlacement {
    /// The timeline has no length yet; the mark is left as it is.
    NoTimeline,
    /// The mark's time is unset or before its offset; the mark is hidden.
    Hidden,
    /// The mark is shown at `time` nanoseconds from the start of the timeline.
    Visible { time: u64 },
}

/// The position of a mark on the timeline: its time less its offset, or
/// zero when the time is unset or before the offset.
pub open spec fn mark_position(m: Mark) -> u64 {
    if m.time.time == u64::MAX || m.time.time < m.offset.time {
        0
    } else {
        (m.time.time - m.offset.time) as u64
    }
}

/// Where a mark is placed on a timeline of length `timeline_length`.
pub open spec fn placement(m: Mark, timeline_length: u64) -> MarkPlacement {
    if timeline_length == 0 {
        MarkPlacement::NoTimeline
    } else if m.time.time == u64::MAX || m.time.time < m.offset.time {
        MarkPlacement::Hidden
    } else {
        MarkPlacement::Visible { time: (m.time.time - m.offset.time) as u64 }
    }
}

/// `len` is the length the marks give the timeline: the furthest mark
/// position, or zero.
pub open spec fn is_marks_length(marks: Map<Seq<char>, Mark>, len: u64) -> bool {
    &&& forall|k: Seq<char>| #[trigger] marks.contains_key(k) ==> mark_position(marks[k]) <= len
    &&& len == 0 || exists|k: Seq<char>| #[trigger] marks.contains_key(k) && mark_position(marks[k]) == len
}

/// The first row from `i` on that has id `row_id` and a segment for the
/// player with key `key`, or -1 if there is none.
pub open spec fn source_row(rows: Seq<VideoSegmentView>, row_id: Seq<char>, key: Seq<char>, i: int) -> int
    decreases rows.len() - i,
{
    if i < 0 || i >= rows.len() {
        -1
    } else if rows[i].id == row_id && rows[i].segments.contains_key(key) {
        i
    } else {
        source_row(rows, row_id, key, i + 1)
    }
}

/// The mark `k` as its table cell shows it now: the split time of its row,
/// measured from the mark's offset; the mark as it is when its row is gone.
pub open spec fn linked_mark(b: SeekBarView, rows: Seq<VideoSegmentView>, k: Seq<char>) -> Mark {
    let key = player_key(b.sources[k].1);
    let i = source_row(rows, b.sources[k].0, key, 0);
    if i >= 0 {
        Mark { time: rows[i].segments[key].time, offset: b.marks[k].offset }
    } else {
        b.marks[k]
    }
}

/// The marks once every linked mark shows its table cell's time.
pub open spec fn synced_marks(b: SeekBarView, rows: Seq<VideoSegmentView>) -> Map<Seq<char>, Mark> {
    Map::new(
        |k: Seq<char>| b.marks.contains_key(k),
        |k: Seq<char>|
            if b.sources.contains_key(k) {
                linked_mark(b, rows, k)
            } else {
                b.marks[k]
            },
    )
}

/// Bringing the marks in line with the rows moves a mark that sat at the
/// end of the timeline, or moves one past it.
pub open spec fn sync_moves_end(b: SeekBarView, rows: Seq<VideoSegmentView>) -> bool {
    exists|k: Seq<char>|
        #[trigger] b.marks.contains_key(k) && b.sources.contains_key(k) && linked_mark(b, rows, k) != b.marks[k]
            && (mark_position(b.marks[k]) == b.timeline_length || mark_position(linked_mark(b, rows, k))
            > b.timeline_length)
}

proof fn lemma_source_row(rows: Seq<VideoSegmentView>, row_id: Seq<char>, key: Seq<char>, i: int)
    requires
        0 <= i,
    ensures
        source_row(rows, row_id, key, i) >= 0 ==> {
            let r = source_row(rows, row_id, key, i);
            &&& i <= r < rows.len()
            &&& rows[r].id == row_id
            &&& rows[r].segments.contains_key(key)
        },
    decreases rows.len() - i,
{
    if i < rows.len() {
        lemma_source_row(rows, row_id, key, i + 1);
    }
}

/// `after` is the seek bar `before` once its marks are brought in line
/// with `rows`: every linked mark shows its cell's split time (see
/// `synced_marks`), and the timeline length is set from the marks when a
/// mark at the end moved or one moved past it and marks set the length, or
/// when it was to be recomputed anyway.
pub open spec fn bar_synced(before: SeekBarView, after: SeekBarView, rows: Seq<VideoSegmentView>) -> bool {
    &&& after.marks == synced_marks(before, rows)
    &&& after.sources == before.sources
    &&& after.auto_length == before.auto_length
    &&& if before.dirty || (before.auto_length && sync_moves_end(before, rows)) {
        !after.dirty && is_marks_length(after.marks, after.timeline_length)
    } else {
        after.dirty == before.dirty && after.timeline_length == before.timeline_length
    }
}

/// The first row of `rows` from `from` on with id `row_id` and a segment for
/// the player with key `key`.
fn find_source_row(rows: &Vec<VideoSegment>, row_id: &String, key: &String) -> (r: Option<usize>)
    requires
        forall|j: int| 0 <= j < rows@.len() ==> (#[trigger] rows@[j]).wf(),
    ensures
        match r {
            Some(i) => i < rows@.len() && i as int == source_row(
                rows@.map_values(|v: VideoSegment| v@),
                row_id@,
                key@,
                0,
            ),
            None => source_row(rows@.map_values(|v: VideoSegment| v@), row_id@, key@, 0) == -1,
        },
{
    let ghost vs = rows@.map_values(|v: VideoSegment| v@);
    let n = rows.len();
    let mut i: usize = 0;
    while i < n
        invariant
            n == rows@.len() == vs.len(),
            vs == rows@.map_values(|v: VideoSegment| v@),
            forall|j: int| 0 <= j < rows@.len() ==> (#[trigger] rows@[j]).wf(),
            i <= n,
            source_row(vs, row_id@, key@, 0) == source_row(vs, row_id@, key@, i as int),
        decreases n - i,
    {
        assert(vs[i as int] == rows@[i as int]@);
        if rows[i].get_segment_id() == *row_id && rows[i].get_segment(key.as_str()).is_some() {
            return Some(i);
        }
        i = i + 1;
    }
    None
}

/// The seek bar's marks and timeline, with the table cell each linked mark
/// shows: the id of its row and the index of its player.
pub struct SeekBar {
    marks: StrMap<Mark>,
    sources: StrMap<(String, u32)>,
    timeline_length: u64,
    timeline_dirty_flag: bool,
    auto_length_from_marks: bool,
}

/// What a `SeekBar` holds: the marks by id, the timeline length, whether
/// that length must be recomputed from the marks, and whether marks set
/// the length at all.
pub struct SeekBarView {
    pub marks: Map<Seq<char>, Mark>,
    pub sources: Map<Seq<char>, (Seq<char>, u32)>,
    pub timeline_length: u64,
    pub dirty: bool,
    pub auto_length: bool,
}

impl View for SeekBar {
    type V = SeekBarView;

    closed spec fn view(&self) -> SeekBarView {
        SeekBarView {
            marks: self.marks@,
            sources: self.sources@.map_values(|v: (String, u32)| (v.0@, v.1)),
            timeline_length: self.timeline_length,
            dirty: self.timeline_dirty_flag,
            auto_length: self.auto_length_from_marks,
        }
    }
}

impl SeekBar {
    pub closed spec fn wf(&self) -> bool {
        self.marks.wf() && self.sources.wf()
    }

    pub fn new(timeline_length: u64, auto_timeline_length_handling: bool) -> (b: Self)
        ensures
            b.wf(),
            b@ == (SeekBarView {
                marks: Map::empty(),
                sources: Map::empty(),
                timeline_length,
                dirty: false,
                auto_length: auto_timeline_length_handling,
            }),
    {
        let b = SeekBar {
            marks: StrMap::new(),
            sources: StrMap::new(),
            timeline_length,
            timeline_dirty_flag: false,
            auto_length_from_marks: auto_timeline_length_handling,
        };
        assert(b@.sources =~= Map::empty());
        b
    }

    /// Adds the mark `id` for `time_entry` measured from `offset`; a set
    /// time past the timeline marks the length for recomputing when marks
    /// set it.
    pub fn add_mark(&mut self, id: String, time_entry: TimeEntry, offset: TimeEntry)
        requires
            old(self).wf(),
            time_entry.time == u64::MAX || time_entry.time >= offset.time,
        ensures
            final(self).wf(),
            final(self)@ == (SeekBarView {
                marks: old(self)@.marks.insert(id@, Mark { time: time_entry, offset }),
                dirty: old(self)@.dirty || (time_entry.time != u64::MAX && time_entry.time
                    - offset.time > old(self)@.timeline_length && old(self)@.auto_length),
                ..old(self)@
            }),
    {
        let entry_time = if time_entry.get_time() == u64::MAX {
            u64::MAX
        } else {
            time_entry.get_time() - offset.get_time()
        };
        if entry_time != u64::MAX && entry_time > self.timeline_length && self.auto_length_from_marks {
            self.timeline_dirty_flag = true;
        }
        self.marks.insert(id, Mark { time: time_entry, offset });
    }

    /// The mark `id`, if there is one.
    pub fn get_mark(&self, id: &str) -> (m: Option<Mark>)
        requires
            self.wf(),
        ensures
            match m {
                Some(m) => self@.marks.contains_key(id@) && m == self@.marks[id@],
                None => !self@.marks.contains_key(id@),
            },
    {
        match self.marks.get(id) {
            Some(m) => Some(*m),
            None => None,
        }
    }

    /// Gives the mark `id`, if there is one, the offset `offset`, keeping
    /// its time; `true` if there was one.
    pub fn set_mark_offset(&mut self, id: &str, offset: TimeEntry) -> (changed: bool)
        requires
            old(self).wf(),
        ensures
            final(self).wf(),
            changed == old(self)@.marks.contains_key(id@),
            final(self)@ == (SeekBarView {
                marks: if changed {
                    old(self)@.marks.insert(id@, Mark { time: old(self)@.marks[id@].time, offset })
                } else {
                    old(self)@.marks
                },
                ..old(self)@
            }),
    {
        match self.marks.get(id) {
            Some(m) => {
                let time = m.time;
                self.marks.insert(id.to_owned(), Mark { time, offset });
                true
            },
            None => false,
        }
    }

    /// Links the mark `id` to the split time of player `index` in the row
    /// with id `row_id` (see `sync_times`).
    pub fn link_mark(&mut self, id: String, row_id: String, index: u32)
        requires
            old(self).wf(),
        ensures
            final(self).wf(),
            final(self)@ == (SeekBarView {
                sources: old(self)@.sources.insert(id@, (row_id@, index)),
                ..old(self)@
            }),
    {
        let ghost k = id@;
        let ghost r = row_id@;
        self.sources.insert(id, (row_id, index));
        assert(self@.sources =~= old(self)@.sources.insert(k, (r, index)));
    }

    /// Brings every linked mark in line with the table: each shows the
    /// split time of its row as the table holds it now (see
    /// `synced_marks`). When that moves a mark that sat at the end of the
    /// timeline, or moves one past it, and marks set the length, or when the
    /// length was to be recomputed anyway, it is set from the marks.
    pub fn sync_times(&mut self, table: &SplitTable)
        requires
            old(self).wf(),
            table.wf(),
        ensures
            final(self).wf(),
            bar_synced(old(self)@, final(self)@, table@.rows),
    {
        let rows = table.get_split_table_liststore();
        let ghost vs = table@.rows;
        let ghost b = self@;
        proof {
            self.marks.lemma_entries();
        }
        let ks = self.marks.keys();
        let ghost key_seq = self.marks.key_seq();
        let n = ks.len();
        let mut moved = false;
        for i in 0..n
            invariant
                self.wf(),
                table.wf(),
                n == ks@.len() == key_seq.len(),
                forall|j: int| 0 <= j < n ==> #[trigger] ks@[j]@ == key_seq[j],
                key_seq.no_duplicates(),
                b.marks.dom() == key_seq.to_set(),
                rows@.map_values(|r: VideoSegment| r@) == vs,
                vs == table@.rows,
                forall|j: int| 0 <= j < rows@.len() ==> (#[trigger] rows@[j]).wf(),
                self@.sources == b.sources,
                self@.timeline_length == b.timeline_length,
                self@.dirty == b.dirty,
                self@.auto_length == b.auto_length,
                self@.marks == Map::new(
                    |k: Seq<char>| b.marks.contains_key(k),
                    |k: Seq<char>|
                        if b.sources.contains_key(k) && exists|j: int| 0 <= j < i && key_seq[j] == k {
                            linked_mark(b, vs, k)
                        } else {
                            b.marks[k]
                        },
                ),
                moved == exists|j: int|
                    0 <= j < i && {
                        let k = #[trigger] key_seq[j];
                        b.sources.contains_key(k) && linked_mark(b, vs, k) != b.marks[k] && (mark_position(
                            b.marks[k],
                        ) == b.timeline_length || mark_position(linked_mark(b, vs, k)) > b.timeline_length)
                    },
        {
            let ghost k = key_seq[i as int];
            let ghost cur = self@.marks;
            assert(k == ks@[i as int]@);
            assert(b.marks.contains_key(k)) by {
                assert(key_seq.to_set().contains(k));
            }
            assert(forall|j: int| 0 <= j < i ==> key_seq[j] != k);
            assert(cur[k] == b.marks[k]);
            let id = &ks[i];
            match self.sources.get(id.as_str()) {
                Some(src) => {
                    let row_id = &src.0;
                    let index = src.1;
                    assert(b.sources[k] == (row_id@, index));
                    let key = player_key_text(index);
                    let m = *self.marks.get(id.as_str()).unwrap();
                    let new_mark = match find_source_row(rows, row_id, &key) {
                        Some(r) => {
                            proof {
                                lemma_source_row(vs, row_id@, key@, 0);
                            }
                            assert(rows@[r as int]@ == vs[r as int]);
                            Mark { time: rows[r].get_time_entry_copy(key.as_str()), offset: m.offset }
                        },
                        None => m,
                    };
                    assert(new_mark == linked_mark(b, vs, k));
                    if new_mark != m {
                        let old_pos = if m.time.time == u64::MAX || m.time.time < m.offset.time {
                            0
                        } else {
                            m.time.time - m.offset.time
                        };
                        let new_pos = if new_mark.time.time == u64::MAX || new_mark.time.time < new_mark.offset.time {
                            0
                        } else {
                            new_mark.time.time - new_mark.offset.time
                        };
                        if old_pos == self.timeline_length || new_pos > self.timeline_length {
                            moved = true;
                        }
                        self.marks.insert(id.clone(), new_mark);
                        assert(self@.marks =~= cur.insert(k, linked_mark(b, vs, k)));
                    } else {
                        assert(self@.marks =~= cur.insert(k, linked_mark(b, vs, k)));
                    }
                },
                None => {
                    assert(!b.sources.contains_key(k));
                    assert(self@.marks =~= cur.insert(k, b.marks[k]));
                },
            }
            proof {
                let target = Map::new(
                    |kk: Seq<char>| b.marks.contains_key(kk),
                    |kk: Seq<char>|
                        if b.sources.contains_key(kk) && exists|j: int| 0 <= j < i + 1 && key_seq[j] == kk {
                            linked_mark(b, vs, kk)
                        } else {
                            b.marks[kk]
                        },
                );
                assert forall|kk: Seq<char>| target.contains_key(kk) implies #[trigger] self@.marks[kk] == target[kk] by {
                    if kk != k {
                        if exists|j: int| 0 <= j < i + 1 && key_seq[j] == kk {
                            let j = choose|j: int| 0 <= j < i + 1 && key_seq[j] == kk;
                            assert(j != i);
                        }
                    } else {
                        assert(key_seq[i as int] == kk);
                    }
                }
                assert(self@.marks =~= target);
            }
        }
        proof {
            assert forall|k: Seq<char>| #[trigger] b.marks.contains_key(k) implies exists|j: int| 0 <= j < n && key_seq[j] == k by {
                assert(key_seq.to_set().contains(k));
            }
            assert(self@.marks =~= synced_marks(b, vs));
            if sync_moves_end(b, vs) {
                let k = choose|k: Seq<char>|
                    #[trigger] b.marks.contains_key(k) && b.sources.contains_key(k) && linked_mark(b, vs, k) != b.marks[k]
                        && (mark_position(b.marks[k]) == b.timeline_length || mark_position(linked_mark(b, vs, k))
                        > b.timeline_length);
                assert(key_seq.to_set().contains(k));
                let j = choose|j: int| 0 <= j < n && key_seq[j] == k;
                assert(key_seq[j] == k);
            }
            if moved {
                let j = choose|j: int|
                    0 <= j < n && {
                        let k = #[trigger] key_seq[j];
                        b.sources.contains_key(k) && linked_mark(b, vs, k) != b.marks[k] && (mark_position(
                            b.marks[k],
                        ) == b.timeline_length || mark_position(linked_mark(b, vs, k)) > b.timeline_length)
                    };
                assert(b.marks.contains_key(key_seq[j]));
            }
        }
        if moved && self.auto_length_from_marks {
            self.timeline_dirty_flag = true;
        }
        if self.timeline_dirty_flag {
            self.update_timeline_length();
        }
    }

    /// Removes the mark `id`; `true` if there was one.
    pub fn remove_mark(&mut self, id: &str) -> (removed: bool)
        requires
            old(self).wf(),
        ensures
            final(self).wf(),
            removed == old(self)@.marks.contains_key(id@),
            final(self)@ == (SeekBarView {
                marks: old(self)@.marks.remove(id@),
                sources: old(self)@.sources.remove(id@),
                ..old(self)@
            }),
    {
        self.sources.remove(id);
        assert(self@.sources =~= old(self)@.sources.remove(id@));
        match self.marks.remove(id) {
            Some(_) => true,
            None => false,
        }
    }

    /// The placement of every mark, by id; none while the timeline has no length.
    pub fn update_mark_positions(&self) -> (ps: Vec<(String, MarkPlacement)>)
        requires
            self.wf(),
        ensures
            self@.timeline_length == 0 ==> ps@.len() == 0,
            self@.timeline_length != 0 ==> ps@.len() == self@.marks.dom().len(),
            forall|i: int|
                0 <= i < ps@.len() ==> self@.marks.contains_key(#[trigger] ps@[i].0@) && ps@[i].1
                    == placement(self@.marks[ps@[i].0@], self@.timeline_length),
            forall|i: int, j: int| 0 <= i < j < ps@.len() ==> ps@[i].0@ != ps@[j].0@,
    {
        let mut ps: Vec<(String, MarkPlacement)> = Vec::new();
        proof {
            self.marks.lemma_entries();
        }
        if self.timeline_length == 0 {
            return ps;
        }
        let n = self.marks.len();
        for i in 0..n
            invariant
                self.wf(),
                self.timeline_length != 0,
                n == self.marks.key_seq().len(),
                ps@.len() == i,
                forall|j: int|
                    0 <= j < i ==> (#[trigger] ps@[j]).0@ == self.marks.key_seq()[j] && ps@[j].1
                        == placement(self@.marks[ps@[j].0@], self@.timeline_length),
        {
            proof {
                self.marks.lemma_entries();
            }
            let m = *self.marks.value_at(i);
            let p = if m.time.time == u64::MAX || m.time.time < m.offset.time {
                MarkPlacement::Hidden
            } else {
                MarkPlacement::Visible { time: m.time.time - m.offset.time }
            };
            ps.push((self.marks.key_at(i).clone(), p));
        }
        proof {
            self.marks.lemma_entries();
            assert forall|i: int, j: int| 0 <= i < j < ps@.len() implies ps@[i].0@ != ps@[j].0@ by {
                assert(ps@[i].0@ == self.marks.key_seq()[i]);
                assert(ps@[j].0@ == self.marks.key_seq()[j]);
            }
        }
        ps
    }

    pub fn get_timeline_length(&self) -> (l: u64)
        ensures
            l == self@.timeline_length,
    {
        self.timeline_length
    }

    pub fn set_timeline_length(&mut self, timeline_length: u64)
        ensures
            final(self).wf() == old(self).wf(),
            final(self)@ == (SeekBarView { timeline_length, ..old(self)@ }),
    {
        self.timeline_length = timeline_length;
    }

    pub fn set_auto_timeline_length_handling(&mut self, flag: bool)
        ensures
            final(self).wf() == old(self).wf(),
            final(self)@ == (SeekBarView { auto_length: flag, ..old(self)@ }),
    {
        self.auto_length_from_marks = flag;
    }

    /// Sets the timeline length to the furthest mark position (zero without
    /// marks) and clears the recompute flag.
    pub fn update_timeline_length(&mut self)
        requires
            old(self).wf(),
        ensures
            final(self).wf(),
            final(self)@.marks == old(self)@.marks,
            final(self)@.sources == old(self)@.sources,
            final(self)@.auto_length == old(self)@.auto_length,
            !final(self)@.dirty,
            is_marks_length(old(self)@.marks, final(self)@.timeline_length),
    {
        proof {
            self.marks.lemma_entries();
        }
        let n = self.marks.len();
        let mut largest_time: u64 = 0;
        for i in 0..n
            invariant
                self.wf(),
                n == self.marks.key_seq().len(),
                forall|j: int| 0 <= j < i ==> mark_position(#[trigger] self.marks.value_seq()[j]) <= largest_time,
                largest_time == 0 || exists|j: int|
                    0 <= j < i && mark_position(#[trigger] self.marks.value_seq()[j]) == largest_time,
        {
            let m = *self.marks.value_at(i);
            let time = m.time.get_time();
            let position = if time == u64::MAX || time < m.offset.get_time() {
                0
            } else {
                time - m.offset.get_time()
            };
            if position > largest_time {
                largest_time = position;
            }
        }
        proof {
            self.marks.lemma_entries();
            let marks = self@.marks;
            let ks = self.marks.key_seq();
            let vs = self.marks.value_seq();
            assert forall|k: Seq<char>| #[trigger] marks.contains_key(k) implies mark_position(marks[k])
                <= largest_time by {
                assert(ks.to_set().contains(k));
                let j = choose|j: int| 0 <= j < ks.len() && ks[j] == k;
                assert(marks[ks[j]] == vs[j]);
            }
            if largest_time != 0 {
                let j = choose|j: int| 0 <= j < n && mark_position(#[trigger] vs[j]) == largest_time;
                assert(marks.contains_key(ks[j]));
                assert(marks[ks[j]] == vs[j]);
            }
        }
        self.timeline_length = largest_time;
        self.timeline_dirty_flag = false;
    }

    /// Handles a change of the time of mark `id`, now `time_entry` measured
    /// from `offset`: stores it, recomputes the timeline length when the
    /// change may move its end (and marks set the length), and says where
    /// the mark goes.
    pub fn mark_time_changed(&mut self, id: &str, time_entry: TimeEntry, offset: TimeEntry) -> (p:
        MarkPlacement)
        requires
            old(self).wf(),
            time_entry.old_time == u64::MAX || time_entry.old_time >= offset.time,
            ({
                let old_position = if time_entry.old_time == u64::MAX {
                    0
                } else {
                    time_entry.old_time - offset.time
                };
                old_position == old(self)@.timeline_length || time_entry.time >= offset.time
            }),
        ensures
            final(self).wf(),
            ({
                let marks = if old(self)@.marks.contains_key(id@) {
                    old(self)@.marks.insert(id@, Mark { time: time_entry, offset })
                } else {
                    old(self)@.marks
                };
                let old_position = if time_entry.old_time == u64::MAX {
                    0
                } else {
                    time_entry.old_time - offset.time
                };
                let dirty = old(self)@.dirty || ((old_position == old(self)@.timeline_length
                    || time_entry.time - offset.time > old(self)@.timeline_length)
                    && old(self)@.auto_length);
                &&& final(self)@.marks == marks
                &&& final(self)@.sources == old(self)@.sources
                &&& final(self)@.auto_length == old(self)@.auto_length
                &&& if dirty {
                    !final(self)@.dirty && is_marks_length(marks, final(self)@.timeline_length)
                } else {
                    final(self)@.dirty == old(self)@.dirty && final(self)@.timeline_length
                        == old(self)@.timeline_length
                }
                &&& p == placement(Mark { time: time_entry, offset }, final(self)@.timeline_length)
            }),
    {
        if self.marks.contains_key(id) {
            self.marks.insert(id.to_owned(), Mark { time: time_entry, offset });
        }
        let old_time = if time_entry.get_old_time() == u64::MAX {
            0
        } else {
            time_entry.get_old_time() - offset.get_time()
        };
        if (old_time == self.timeline_length || time_entry.get_time() - offset.get_time()
            > self.timeline_length) && self.auto_length_from_marks {
            self.timeline_dirty_flag = true;
        }
        if self.timeline_dirty_flag {
            self.update_timeline_length();
        }
        if self.timeline_length == 0 {
            return MarkPlacement::NoTimeline;
        }
        if time_entry.get_time() == u64::MAX || time_entry.get_time() < offset.get_time() {
            MarkPlacement::Hidden
        } else {
            MarkPlacement::Visible { time: time_entry.get_time() - offset.get_time() }
        }
    }

    /// Removes every mark; the timeline length becomes zero.
    pub fn reset_all_marks(&mut self)
        requires
            old(self).wf(),
        ensures
            final(self).wf(),
            final(self)@ == (SeekBarView {
                marks: Map::empty(),
                sources: Map::empty(),
                timeline_length: 0,
                dirty: false,
                ..old(self)@
            }),
    {
        self.marks = StrMap::new();
        self.sources = StrMap::new();
        assert(self@.sources =~= Map::empty());
        self.update_timeline_length();
    }
}

proof fn lemma_source_row_is(rows: Seq<VideoSegmentView>, row_id: Seq<char>, key: Seq<char>, i: int, j: int)
    requires
        0 <= j <= i < rows.len(),
        rows[i].id == row_id,
        rows[i].segments.contains_key(key),
        forall|m: int| 0 <= m < i ==> (#[trigger] rows[m]).id != row_id,
    ensures
        source_row(rows, row_id, key, j) == i,
    decreases i - j,
{
    if j < i {
        lemma_source_row_is(rows, row_id, key, i, j + 1);
    }
}

/// Once the marks are brought in line with the table, a linked mark shows
/// the split time that the row it is linked to holds for its player
/// (the rows' ids being distinct), measured from the same offset.
pub proof fn lemma_synced_mark_shows_row(b: SeekBarView, rows: Seq<VideoSegmentView>, k: Seq<char>, i: int)
    requires
        forall|x: int, y: int| 0 <= x < y < rows.len() ==> (#[trigger] rows[x]).id != (#[trigger] rows[y]).id,
        b.marks.contains_key(k),
        b.sources.contains_key(k),
        0 <= i < rows.len(),
        rows[i].id == b.sources[k].0,
        rows[i].segments.contains_key(player_key(b.sources[k].1)),
    ensures
        synced_marks(b, rows)[k] == (Mark {
            time: rows[i].segments[player_key(b.sources[k].1)].time,
            offset: b.marks[k].offset,
        }),
{
    assert forall|m: int| 0 <= m < i implies (#[trigger] rows[m]).id != b.sources[k].0 by {
        assert(rows[m].id != rows[i].id);
    }
    lemma_source_row_is(rows, b.sources[k].0, player_key(b.sources[k].1), i, 0);
}

/// After the length is recomputed from the marks, every mark lies on the
/// timeline, and the timeline ends at the furthest one.
pub proof fn lemma_marks_fit_timeline(marks: Map<Seq<char>, Mark>, len: u64, id: Seq<char>)
    requires
        is_marks_length(marks, len),
        marks.contains_key(id),
    ensures
        mark_position(marks[id]) <= len,
        len > 0 ==> placement(marks[id], len) != MarkPlacement::NoTimeline,
{
}

} // verus!
