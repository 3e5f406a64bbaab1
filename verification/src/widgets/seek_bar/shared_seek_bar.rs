use vstd::prelude::*;
use vstd::string::StringExecFns;
use crate::widgets::seek_bar::seek_bar::{
    bar_synced, is_marks_length, Mark, SeekBar, SeekBarView,
};
use crate::widgets::split_panel::splits::VideoSegment;
use crate::widgets::split_panel::splittable::{
    player_key, player_key_text, previous_time, SplitTable, SplitTableView,
};
use crate::widgets::sync::sync_manager::SyncEvent;

verus! {

/// The id of the shared seek bar mark of the player with key `key` for the
/// row whose id is `segment_id`.
pub open spec fn mark_id(key: Seq<char>, segment_id: Seq<char>) -> Seq<char> {
    "video-"@ + key + ", segment-"@ + segment_id
}

/// The id of the shared seek bar mark of player `video_player_id` for the
/// row whose id is `segment_id`.
pub fn shared_mark_id(video_player_id: &str, segment_id: &str) -> (id: String)
    ensures
        id@ == mark_id(video_player_id@, segment_id@),
{
    let mut id = "video-".to_owned();
    id.append(video_player_id);
    id.append(", segment-");
    id.append(segment_id);
    id
}

/// Where the clamp of a player ends when shared control is taken, and the
/// new timeline length if the shared seek bar has to grow: the player's last
/// split time when the table has rows and the player has one; otherwise the
/// end of the video, which stretches the timeline when it is longer.
pub fn clamp_end_for_player(length: u64, row_count: u32, last_split: Option<u64>, timeline_length: u64) -> (r: (
    u64,
    Option<u64>,
))
    ensures
        r == (if row_count > 0 && last_split is Some {
            (last_split.unwrap(), None)
        } else if length > timeline_length {
            (length, Some(length))
        } else {
            (length, None)
        }),
{
    let mut end_time = length;
    let mut new_timeline: Option<u64> = None;
    if row_count > 0 {
        match last_split {
            Some(time) => {
                end_time = time;
            },
            None => {
                if end_time > timeline_length {
                    new_timeline = Some(end_time);
                }
            },
        }
    } else {
        if end_time > timeline_length {
            new_timeline = Some(end_time);
        }
    }
    (end_time, new_timeline)
}

/// Where a player starts when jumping to segment `starting_segment`: its
/// start time offset for the first segment, else the split time that ends
/// the segment before.
pub fn start_time_for_syncing(
    starting_segment: u32,
    start_time_offset: u64,
    rows: &Vec<VideoSegment>,
    video_player_id: &str,
) -> (t: u64)
    requires
        starting_segment > 0 ==> {
            &&& starting_segment - 1 < rows@.len()
            &&& rows@[starting_segment - 1].wf()
            &&& rows@[starting_segment - 1]@.segments.contains_key(video_player_id@)
        },
    ensures
        t == if starting_segment == 0 {
            start_time_offset
        } else {
            rows@[starting_segment - 1]@.segments[video_player_id@].time.time
        },
{
    if starting_segment == 0 {
        start_time_offset
    } else {
        rows[(starting_segment - 1) as usize].get_time(video_player_id)
    }
}

/// The shared mark of player `index` in row `row`: the row's split time of
/// the player, measured from the player's start time offset.
pub open spec fn row_mark(t: SplitTableView, row: int, index: u32) -> Mark {
    Mark { time: t.rows[row].segments[player_key(index)].time, offset: t.offsets[index as int] }
}

/// A mark can be put on the seek bar: its time is unset or not before its offset.
pub open spec fn mark_fits(m: Mark) -> bool {
    m.time.time == u64::MAX || m.time.time >= m.offset.time
}

/// A set mark lies past a timeline of length `timeline_length`.
pub open spec fn past_timeline(m: Mark, timeline_length: u64) -> bool {
    m.time.time != u64::MAX && m.time.time - m.offset.time > timeline_length
}

/// The marks once the marks of `players[..n]` for row `row` are added, in that order.
pub open spec fn row_marks_added(
    marks: Map<Seq<char>, Mark>,
    t: SplitTableView,
    row: int,
    players: Seq<u32>,
    n: int,
) -> Map<Seq<char>, Mark>
    decreases n,
{
    if n <= 0 {
        marks
    } else {
        row_marks_added(marks, t, row, players, n - 1).insert(
            mark_id(player_key(players[n - 1]), t.rows[row].id),
            row_mark(t, row, players[n - 1]),
        )
    }
}

/// The marks once the marks of player `index` for rows `..n` are added, in that order.
pub open spec fn column_marks_added(marks: Map<Seq<char>, Mark>, t: SplitTableView, index: u32, n: int) -> Map<
    Seq<char>,
    Mark,
>
    decreases n,
{
    if n <= 0 {
        marks
    } else {
        column_marks_added(marks, t, index, n - 1).insert(
            mark_id(player_key(index), t.rows[n - 1].id),
            row_mark(t, n - 1, index),
        )
    }
}

/// The links once the marks of `players[..n]` for row `row` are linked to
/// their cells, in that order.
pub open spec fn row_sources_added(
    sources: Map<Seq<char>, (Seq<char>, u32)>,
    t: SplitTableView,
    row: int,
    players: Seq<u32>,
    n: int,
) -> Map<Seq<char>, (Seq<char>, u32)>
    decreases n,
{
    if n <= 0 {
        sources
    } else {
        row_sources_added(sources, t, row, players, n - 1).insert(
            mark_id(player_key(players[n - 1]), t.rows[row].id),
            (t.rows[row].id, players[n - 1]),
        )
    }
}

/// The links once the marks of player `index` for rows `..n` are linked to
/// their cells, in that order.
pub open spec fn column_sources_added(
    sources: Map<Seq<char>, (Seq<char>, u32)>,
    t: SplitTableView,
    index: u32,
    n: int,
) -> Map<Seq<char>, (Seq<char>, u32)>
    decreases n,
{
    if n <= 0 {
        sources
    } else {
        column_sources_added(sources, t, index, n - 1).insert(
            mark_id(player_key(index), t.rows[n - 1].id),
            (t.rows[n - 1].id, index),
        )
    }
}

/// The ids of the shared marks of player `index`, one per row.
pub open spec fn column_ids(t: SplitTableView, index: u32) -> Set<Seq<char>> {
    Set::new(|k: Seq<char>| exists|i: int| 0 <= i < t.rows.len() && k == mark_id(player_key(index), #[trigger] t.rows[i].id))
}

proof fn lemma_remove_undoes_connect_upto(marks: Map<Seq<char>, Mark>, t: SplitTableView, index: u32, n: int)
    requires
        n <= t.rows.len(),
    ensures
        column_marks_added(marks, t, index, n).remove_keys(column_ids(t, index)) == marks.remove_keys(
            column_ids(t, index),
        ),
    decreases n,
{
    if n > 0 {
        lemma_remove_undoes_connect_upto(marks, t, index, n - 1);
        let ids = column_ids(t, index);
        let k = mark_id(player_key(index), t.rows[n - 1].id);
        assert(ids.contains(k));
        let before = column_marks_added(marks, t, index, n - 1);
        assert(before.insert(k, row_mark(t, n - 1, index)).remove_keys(ids) =~= before.remove_keys(ids));
    }
}

/// Taking a player's marks off the seek bar undoes putting them on: the
/// other marks are as they were before.
pub proof fn lemma_remove_undoes_connect(marks: Map<Seq<char>, Mark>, t: SplitTableView, index: u32)
    ensures
        column_marks_added(marks, t, index, t.rows.len() as int).remove_keys(column_ids(t, index))
            == marks.remove_keys(column_ids(t, index)),
{
    lemma_remove_undoes_connect_upto(marks, t, index, t.rows.len() as int);
}

/// The last split time of player `index`, if the table has rows and the
/// player has a set split time in one of them.
pub open spec fn last_split(t: SplitTableView, index: u32) -> Option<u64> {
    if t.rows.len() > 0 {
        previous_time(t.rows, player_key(index), t.rows.len() as int)
    } else {
        None
    }
}

/// Where the clamp of player `index`, whose video lasts `length`, ends under
/// shared control: its last split time, else the end of its video.
pub open spec fn clamp_end(t: SplitTableView, index: u32, length: u64) -> u64 {
    match last_split(t, index) {
        Some(s) => s,
        None => length,
    }
}

/// The timeline length after the players `lengths[..n]` (player index and
/// video length) are clamped: each video without a split that ends past
/// the timeline stretches it to its end.
pub open spec fn grown_timeline(timeline_length: u64, t: SplitTableView, lengths: Seq<(u32, u64)>, n: int) -> u64
    decreases n,
{
    if n <= 0 {
        timeline_length
    } else {
        let g = grown_timeline(timeline_length, t, lengths, n - 1);
        if last_split(t, lengths[n - 1].0) is None && lengths[n - 1].1 > g {
            lengths[n - 1].1
        } else {
            g
        }
    }
}

/// One tick of the shared seek bar while the videos play.
#[derive(Clone, Copy, Debug, PartialEq, Eq)]
pub enum ProgressStep {
    /// The clock is unknown or has not reached the base time yet.
    Wait,
    /// Show `media_time` and keep going.
    Show { media_time: u64 },
    /// Show `media_time`, the end of the timeline, and stop.
    Finish { media_time: u64 },
}

/// The progress shown at clock time `current_time`, the videos having
/// started at `base_time` from `scale_position`.
pub fn progress_step(current_time: Option<u64>, base_time: u64, scale_position: u64, timeline_length: u64) -> (p:
    ProgressStep)
    requires
        current_time matches Some(c) ==> (c >= base_time ==> c - base_time + scale_position <= u64::MAX),
    ensures
        p == match current_time {
            Some(c) if c >= base_time => {
                let media_time = (c - base_time + scale_position) as u64;
                if media_time >= timeline_length {
                    ProgressStep::Finish { media_time }
                } else {
                    ProgressStep::Show { media_time }
                }
            },
            _ => ProgressStep::Wait,
        },
{
    match current_time {
        Some(current_time) => {
            if current_time >= base_time {
                let media_time = current_time - base_time + scale_position;
                if media_time >= timeline_length {
                    ProgressStep::Finish { media_time }
                } else {
                    ProgressStep::Show { media_time }
                }
            } else {
                ProgressStep::Wait
            }
        },
        None => ProgressStep::Wait,
    }
}

/// What the shared seek bar does on an event of the sync manager.
#[derive(Clone, Copy, Debug, PartialEq, Eq)]
pub enum ProgressCommand {
    /// Start moving the seek bar from `scale_position`, the videos running from `base_time`.
    Start { base_time: u64, scale_position: u64 },
    /// Stop moving the seek bar.
    Stop,
    /// Nothing to do.
    Ignore,
}

/// The shared control state: whether the shared seek bar controls the
/// players, whether they are paused, whether its scale is being dragged,
/// and the segment a jump goes to.
pub struct SharedSeekBar {
    seek_bar: SeekBar,
    has_control: bool,
    is_paused: bool,
    is_dragging: bool,
    starting_segment: u32,
}

/// What a `SharedSeekBar` holds: its seek bar and its flags.
pub struct SharedSeekBarView {
    pub bar: SeekBarView,
    pub has_control: bool,
    pub is_paused: bool,
    pub is_dragging: bool,
    pub starting_segment: u32,
}

impl View for SharedSeekBar {
    type V = SharedSeekBarView;

    closed spec fn view(&self) -> SharedSeekBarView {
        SharedSeekBarView {
            bar: self.seek_bar@,
            has_control: self.has_control,
            is_paused: self.is_paused,
            is_dragging: self.is_dragging,
            starting_segment: self.starting_segment,
        }
    }
}

impl SharedSeekBar {
    /// Its seek bar is well formed.
    pub closed spec fn wf(&self) -> bool {
        self.seek_bar.wf()
    }

    /// No control, not paused, no marks on an empty timeline whose length
    /// the marks set.
    pub fn new() -> (b: Self)
        ensures
            b.wf(),
            b@ == (SharedSeekBarView {
                bar: SeekBarView {
                    marks: Map::empty(),
                    sources: Map::empty(),
                    timeline_length: 0,
                    dirty: false,
                    auto_length: true,
                },
                has_control: false,
                is_paused: false,
                is_dragging: false,
                starting_segment: 0,
            }),
    {
        SharedSeekBar {
            seek_bar: SeekBar::new(0, true),
            has_control: false,
            is_paused: false,
            is_dragging: false,
            starting_segment: 0,
        }
    }

    /// The seek bar with the marks.
    pub fn get_seek_bar(&self) -> (b: &SeekBar)
        ensures
            b@ == self@.bar,
            b.wf() == self.wf(),
    {
        &self.seek_bar
    }

    /// The seek bar with the marks, to change it.
    pub fn get_seek_bar_mut(&mut self) -> (b: &mut SeekBar)
        ensures
            b@ == old(self)@.bar,
            b.wf() == old(self).wf(),
            final(self)@ == (SharedSeekBarView { bar: final(b)@, ..old(self)@ }),
            final(self).wf() == final(b).wf(),
    {
        &mut self.seek_bar
    }

    /// Puts on the seek bar the mark of each player in `players` for row
    /// `row_index` (see `row_mark`), in that order, each linked to its cell
    /// (see `sync_times`), and returns their ids.
    pub fn connect_row(&mut self, table: &SplitTable, row_index: u32, players: &Vec<u32>) -> (ids: Vec<String>)
        requires
            old(self).wf(),
            table.wf(),
            row_index < table@.rows.len(),
            forall|i: int|
                0 <= i < players@.len() ==> {
                    &&& (#[trigger] players@[i]) < table@.offsets.len()
                    &&& table@.rows[row_index as int].segments.contains_key(player_key(players@[i]))
                    &&& mark_fits(row_mark(table@, row_index as int, players@[i]))
                },
        ensures
            final(self).wf(),
            ids@.len() == players@.len(),
            forall|i: int|
                0 <= i < ids@.len() ==> (#[trigger] ids@[i])@ == mark_id(
                    player_key(players@[i]),
                    table@.rows[row_index as int].id,
                ),
            final(self)@ == (SharedSeekBarView {
                bar: SeekBarView {
                    marks: row_marks_added(
                        old(self)@.bar.marks,
                        table@,
                        row_index as int,
                        players@,
                        players@.len() as int,
                    ),
                    sources: row_sources_added(
                        old(self)@.bar.sources,
                        table@,
                        row_index as int,
                        players@,
                        players@.len() as int,
                    ),
                    dirty: old(self)@.bar.dirty || (old(self)@.bar.auto_length && exists|i: int|
                        0 <= i < players@.len() && past_timeline(
                            row_mark(table@, row_index as int, #[trigger] players@[i]),
                            old(self)@.bar.timeline_length,
                        )),
                    ..old(self)@.bar
                },
                ..old(self)@
            }),
    {
        let rows = table.get_split_table_liststore();
        let offsets = table.get_start_time_offset_liststore();
        let row = &rows[row_index as usize];
        assert(row@ == table@.rows[row_index as int]);
        let segment_id = row.get_segment_id();
        let mut ids: Vec<String> = Vec::new();
        let n = players.len();
        for i in 0..n
            invariant
                self.wf(),
                table.wf(),
                n == players@.len(),
                row@ == table@.rows[row_index as int],
                row.wf(),
                segment_id@ == table@.rows[row_index as int].id,
                offsets@ == table@.offsets,
                forall|j: int|
                    0 <= j < players@.len() ==> {
                        &&& (#[trigger] players@[j]) < table@.offsets.len()
                        &&& table@.rows[row_index as int].segments.contains_key(player_key(players@[j]))
                        &&& mark_fits(row_mark(table@, row_index as int, players@[j]))
                    },
                ids@.len() == i,
                forall|j: int|
                    0 <= j < i ==> (#[trigger] ids@[j])@ == mark_id(
                        player_key(players@[j]),
                        table@.rows[row_index as int].id,
                    ),
                self@ == (SharedSeekBarView {
                    bar: SeekBarView {
                        marks: row_marks_added(old(self)@.bar.marks, table@, row_index as int, players@, i as int),
                        sources: row_sources_added(old(self)@.bar.sources, table@, row_index as int, players@, i as int),
                        dirty: old(self)@.bar.dirty || (old(self)@.bar.auto_length && exists|j: int|
                            0 <= j < i && past_timeline(
                                row_mark(table@, row_index as int, #[trigger] players@[j]),
                                old(self)@.bar.timeline_length,
                            )),
                        ..old(self)@.bar
                    },
                    ..old(self)@
                }),
        {
            let p = players[i];
            let key = player_key_text(p);
            let time_entry = row.get_time_entry_copy(key.as_str());
            let offset = offsets[p as usize];
            let id = shared_mark_id(key.as_str(), segment_id.as_str());
            self.seek_bar.add_mark(id.clone(), time_entry, offset);
            self.seek_bar.link_mark(id.clone(), segment_id.clone(), p);
            ids.push(id);
            proof {
                assert(row_mark(table@, row_index as int, players@[i as int]) == Mark { time: time_entry, offset });
                if past_timeline(row_mark(table@, row_index as int, players@[i as int]), old(self)@.bar.timeline_length) {
                    assert(exists|j: int|
                        0 <= j < i + 1 && past_timeline(
                            row_mark(table@, row_index as int, #[trigger] players@[j]),
                            old(self)@.bar.timeline_length,
                        ));
                }
            }
        }
        ids
    }

    /// Puts on the seek bar the mark of player `video_player_index` for
    /// each row (see `row_mark`), in row order, each linked to its cell
    /// (see `sync_times`), and returns their ids.
    pub fn connect_column(&mut self, table: &SplitTable, video_player_index: u32) -> (ids: Vec<String>)
        requires
            old(self).wf(),
            table.wf(),
            video_player_index < table@.offsets.len(),
            forall|i: int|
                0 <= i < table@.rows.len() ==> {
                    &&& (#[trigger] table@.rows[i]).segments.contains_key(player_key(video_player_index))
                    &&& mark_fits(row_mark(table@, i, video_player_index))
                },
        ensures
            final(self).wf(),
            ids@.len() == table@.rows.len(),
            forall|i: int|
                0 <= i < ids@.len() ==> (#[trigger] ids@[i])@ == mark_id(
                    player_key(video_player_index),
                    table@.rows[i].id,
                ),
            final(self)@ == (SharedSeekBarView {
                bar: SeekBarView {
                    marks: column_marks_added(
                        old(self)@.bar.marks,
                        table@,
                        video_player_index,
                        table@.rows.len() as int,
                    ),
                    sources: column_sources_added(
                        old(self)@.bar.sources,
                        table@,
                        video_player_index,
                        table@.rows.len() as int,
                    ),
                    dirty: old(self)@.bar.dirty || (old(self)@.bar.auto_length && exists|i: int|
                        0 <= i < table@.rows.len() && past_timeline(
                            #[trigger] row_mark(table@, i, video_player_index),
                            old(self)@.bar.timeline_length,
                        )),
                    ..old(self)@.bar
                },
                ..old(self)@
            }),
    {
        let rows = table.get_split_table_liststore();
        let offsets = table.get_start_time_offset_liststore();
        let key = player_key_text(video_player_index);
        let offset = offsets[video_player_index as usize];
        let mut ids: Vec<String> = Vec::new();
        let n = rows.len();
        for i in 0..n
            invariant
                self.wf(),
                table.wf(),
                n == table@.rows.len(),
                rows@.map_values(|r: VideoSegment| r@) == table@.rows,
                forall|j: int| 0 <= j < rows@.len() ==> (#[trigger] rows@[j]).wf(),
                key@ == player_key(video_player_index),
                offset == table@.offsets[video_player_index as int],
                forall|j: int|
                    0 <= j < table@.rows.len() ==> {
                        &&& (#[trigger] table@.rows[j]).segments.contains_key(player_key(video_player_index))
                        &&& mark_fits(row_mark(table@, j, video_player_index))
                    },
                ids@.len() == i,
                forall|j: int|
                    0 <= j < i ==> (#[trigger] ids@[j])@ == mark_id(player_key(video_player_index), table@.rows[j].id),
                self@ == (SharedSeekBarView {
                    bar: SeekBarView {
                        marks: column_marks_added(old(self)@.bar.marks, table@, video_player_index, i as int),
                        sources: column_sources_added(old(self)@.bar.sources, table@, video_player_index, i as int),
                        dirty: old(self)@.bar.dirty || (old(self)@.bar.auto_length && exists|j: int|
                            0 <= j < i && past_timeline(
                                #[trigger] row_mark(table@, j, video_player_index),
                                old(self)@.bar.timeline_length,
                            )),
                        ..old(self)@.bar
                    },
                    ..old(self)@
                }),
        {
            assert(rows@[i as int]@ == table@.rows[i as int]);
            let time_entry = rows[i].get_time_entry_copy(key.as_str());
            let segment_id = rows[i].get_segment_id();
            let id = shared_mark_id(key.as_str(), segment_id.as_str());
            self.seek_bar.add_mark(id.clone(), time_entry, offset);
            self.seek_bar.link_mark(id.clone(), segment_id, video_player_index);
            ids.push(id);
            proof {
                assert(row_mark(table@, i as int, video_player_index) == Mark { time: time_entry, offset });
                if past_timeline(row_mark(table@, i as int, video_player_index), old(self)@.bar.timeline_length) {
                    assert(exists|j: int|
                        0 <= j < i + 1 && past_timeline(
                            #[trigger] row_mark(table@, j, video_player_index),
                            old(self)@.bar.timeline_length,
                        ));
                }
            }
        }
        ids
    }

    /// Brings every mark in line with the table: each shows the split time
    /// that its row holds now (see `SeekBar::sync_times`).
    pub fn sync_times(&mut self, table: &SplitTable)
        requires
            old(self).wf(),
            table.wf(),
        ensures
            final(self).wf(),
            bar_synced(old(self)@.bar, final(self)@.bar, table@.rows),
            final(self)@ == (SharedSeekBarView { bar: final(self)@.bar, ..old(self)@ }),
    {
        self.seek_bar.sync_times(table);
    }

    /// Takes the marks of player `video_player_index` off the seek bar, one
    /// per row, then sets the timeline length from the marks left.
    pub fn remove_marks(&mut self, table: &SplitTable, video_player_index: u32)
        requires
            old(self).wf(),
            table.wf(),
        ensures
            final(self).wf(),
            final(self)@.bar.marks == old(self)@.bar.marks.remove_keys(column_ids(table@, video_player_index)),
            final(self)@.bar.sources == old(self)@.bar.sources.remove_keys(column_ids(table@, video_player_index)),
            final(self)@.bar.auto_length == old(self)@.bar.auto_length,
            !final(self)@.bar.dirty,
            is_marks_length(final(self)@.bar.marks, final(self)@.bar.timeline_length),
            final(self)@ == (SharedSeekBarView { bar: final(self)@.bar, ..old(self)@ }),
    {
        let rows = table.get_split_table_liststore();
        let key = player_key_text(video_player_index);
        let n = rows.len();
        for i in 0..n
            invariant
                self.wf(),
                n == table@.rows.len(),
                rows@.map_values(|r: VideoSegment| r@) == table@.rows,
                key@ == player_key(video_player_index),
                self@.bar.marks == old(self)@.bar.marks.remove_keys(
                    Set::new(|k: Seq<char>| exists|j: int| 0 <= j < i && k == mark_id(key@, #[trigger] table@.rows[j].id)),
                ),
                self@.bar.sources == old(self)@.bar.sources.remove_keys(
                    Set::new(|k: Seq<char>| exists|j: int| 0 <= j < i && k == mark_id(key@, #[trigger] table@.rows[j].id)),
                ),
                self@ == (SharedSeekBarView {
                    bar: SeekBarView { marks: self@.bar.marks, sources: self@.bar.sources, ..old(self)@.bar },
                    ..old(self)@
                }),
        {
            assert(rows@[i as int]@ == table@.rows[i as int]);
            let segment_id = rows[i].get_segment_id();
            let id = shared_mark_id(key.as_str(), segment_id.as_str());
            let ghost before = self@.bar.marks;
            let ghost before_sources = self@.bar.sources;
            self.seek_bar.remove_mark(id.as_str());
            proof {
                let s_old = Set::new(|k: Seq<char>| exists|j: int| 0 <= j < i && k == mark_id(key@, #[trigger] table@.rows[j].id));
                let s_new = Set::new(|k: Seq<char>| exists|j: int| 0 <= j < i + 1 && k == mark_id(key@, #[trigger] table@.rows[j].id));
                assert(s_new =~= s_old.insert(id@));
                assert(old(self)@.bar.marks.remove_keys(s_new) =~= before.remove(id@));
                assert(old(self)@.bar.sources.remove_keys(s_new) =~= before_sources.remove(id@));
            }
        }
        proof {
            assert(Set::new(|k: Seq<char>| exists|j: int| 0 <= j < n && k == mark_id(key@, #[trigger] table@.rows[j].id))
                =~= column_ids(table@, video_player_index));
        }
        self.seek_bar.update_timeline_length();
    }

    /// Sets the timeline length from the marks (see `SeekBar::update_timeline_length`).
    pub fn update_timeline_length(&mut self)
        requires
            old(self).wf(),
        ensures
            final(self).wf(),
            final(self)@.bar.marks == old(self)@.bar.marks,
            final(self)@.bar.sources == old(self)@.bar.sources,
            final(self)@.bar.auto_length == old(self)@.bar.auto_length,
            !final(self)@.bar.dirty,
            is_marks_length(old(self)@.bar.marks, final(self)@.bar.timeline_length),
            final(self)@ == (SharedSeekBarView { bar: final(self)@.bar, ..old(self)@ }),
    {
        self.seek_bar.update_timeline_length();
    }

    /// The start time offset of player `video_player_index` has changed:
    /// its marks are measured from the new offset, and the timeline length
    /// is set from the marks again.
    pub fn offset_changed(&mut self, table: &SplitTable, video_player_index: u32)
        requires
            old(self).wf(),
            table.wf(),
            video_player_index < table@.offsets.len(),
        ensures
            final(self).wf(),
            final(self)@.bar.marks == Map::new(
                |k: Seq<char>| old(self)@.bar.marks.contains_key(k),
                |k: Seq<char>|
                    if column_ids(table@, video_player_index).contains(k) {
                        Mark {
                            time: old(self)@.bar.marks[k].time,
                            offset: table@.offsets[video_player_index as int],
                        }
                    } else {
                        old(self)@.bar.marks[k]
                    },
            ),
            final(self)@.bar.sources == old(self)@.bar.sources,
            final(self)@.bar.auto_length == old(self)@.bar.auto_length,
            !final(self)@.bar.dirty,
            is_marks_length(final(self)@.bar.marks, final(self)@.bar.timeline_length),
            final(self)@ == (SharedSeekBarView { bar: final(self)@.bar, ..old(self)@ }),
    {
        let rows = table.get_split_table_liststore();
        let offsets = table.get_start_time_offset_liststore();
        let offset = offsets[video_player_index as usize];
        let key = player_key_text(video_player_index);
        let n = rows.len();
        let ghost orig = old(self)@.bar.marks;
        for i in 0..n
            invariant
                self.wf(),
                n == table@.rows.len(),
                rows@.map_values(|r: VideoSegment| r@) == table@.rows,
                key@ == player_key(video_player_index),
                offset == table@.offsets[video_player_index as int],
                orig == old(self)@.bar.marks,
                self@.bar.marks == Map::new(
                    |k: Seq<char>| orig.contains_key(k),
                    |k: Seq<char>|
                        if exists|j: int| 0 <= j < i && k == mark_id(key@, #[trigger] table@.rows[j].id) {
                            Mark { time: orig[k].time, offset }
                        } else {
                            orig[k]
                        },
                ),
                self@ == (SharedSeekBarView { bar: SeekBarView { marks: self@.bar.marks, ..old(self)@.bar }, ..old(self)@ }),
        {
            assert(rows@[i as int]@ == table@.rows[i as int]);
            let segment_id = rows[i].get_segment_id();
            let id = shared_mark_id(key.as_str(), segment_id.as_str());
            self.seek_bar.set_mark_offset(id.as_str(), offset);
            proof {
                assert(id@ == mark_id(key@, table@.rows[i as int].id));
                let target = Map::new(
                    |k: Seq<char>| orig.contains_key(k),
                    |k: Seq<char>|
                        if exists|j: int| 0 <= j < i + 1 && k == mark_id(key@, #[trigger] table@.rows[j].id) {
                            Mark { time: orig[k].time, offset }
                        } else {
                            orig[k]
                        },
                );
                assert forall|k: Seq<char>| #[trigger] self@.bar.marks.contains_key(k) == target.contains_key(k) by {}
                assert forall|k: Seq<char>| target.contains_key(k) implies #[trigger] self@.bar.marks[k] == target[k] by {
                    if k == id@ {
                        assert(exists|j: int| 0 <= j < i + 1 && k == mark_id(key@, #[trigger] table@.rows[j].id));
                    } else {
                        if exists|j: int| 0 <= j < i + 1 && k == mark_id(key@, #[trigger] table@.rows[j].id) {
                            let j = choose|j: int| 0 <= j < i + 1 && k == mark_id(key@, #[trigger] table@.rows[j].id);
                            assert(j != i);
                        }
                    }
                }
                assert(self@.bar.marks =~= target);
            }
        }
        proof {
            assert(self@.bar.marks =~= Map::new(
                |k: Seq<char>| old(self)@.bar.marks.contains_key(k),
                |k: Seq<char>|
                    if column_ids(table@, video_player_index).contains(k) {
                        Mark { time: old(self)@.bar.marks[k].time, offset: table@.offsets[video_player_index as int] }
                    } else {
                        old(self)@.bar.marks[k]
                    },
            ));
        }
        self.seek_bar.update_timeline_length();
    }

    /// Takes shared control of the players `lengths` (player index and the
    /// length of its video): returns, for each, the clamp its video is held
    /// in, from its start time offset to `clamp_end`; videos without a split
    /// that end past the timeline stretch it (see `grown_timeline`). The
    /// players are paused.
    pub fn take_shared_control(&mut self, table: &SplitTable, lengths: &Vec<(u32, u64)>) -> (clamps: Vec<(u64, u64)>)
        requires
            old(self).wf(),
            table.wf(),
            table@.rows.len() <= u32::MAX,
            forall|i: int| 0 <= i < lengths@.len() ==> (#[trigger] lengths@[i]).0 < table@.offsets.len(),
        ensures
            final(self).wf(),
            clamps@.len() == lengths@.len(),
            forall|i: int|
                0 <= i < clamps@.len() ==> #[trigger] clamps@[i] == (
                    table@.offsets[lengths@[i].0 as int].time,
                    clamp_end(table@, lengths@[i].0, lengths@[i].1),
                ),
            final(self)@ == (SharedSeekBarView {
                bar: SeekBarView {
                    timeline_length: grown_timeline(
                        old(self)@.bar.timeline_length,
                        table@,
                        lengths@,
                        lengths@.len() as int,
                    ),
                    ..old(self)@.bar
                },
                has_control: true,
                is_paused: true,
                ..old(self)@
            }),
    {
        let n = table.get_split_table_liststore().len();
        let row_count: u32 = if n > 0 {
            1
        } else {
            0
        };
        let offsets = table.get_start_time_offset_liststore();
        let mut clamps: Vec<(u64, u64)> = Vec::new();
        let m = lengths.len();
        for i in 0..m
            invariant
                self.wf(),
                table.wf(),
                m == lengths@.len(),
                n == table@.rows.len(),
                n <= u32::MAX,
                row_count > 0 <==> n > 0,
                offsets@ == table@.offsets,
                forall|j: int| 0 <= j < lengths@.len() ==> (#[trigger] lengths@[j]).0 < table@.offsets.len(),
                clamps@.len() == i,
                forall|j: int|
                    0 <= j < i ==> #[trigger] clamps@[j] == (
                        table@.offsets[lengths@[j].0 as int].time,
                        clamp_end(table@, lengths@[j].0, lengths@[j].1),
                    ),
                self@ == (SharedSeekBarView {
                    bar: SeekBarView {
                        timeline_length: grown_timeline(old(self)@.bar.timeline_length, table@, lengths@, i as int),
                        ..old(self)@.bar
                    },
                    ..old(self)@
                }),
        {
            let (index, length) = lengths[i];
            let start_time = offsets[index as usize].time;
            let last = if n > 0 {
                table.get_previous_time(index, n as u32)
            } else {
                None
            };
            let (end_time, new_timeline) = clamp_end_for_player(
                length,
                row_count,
                last,
                self.seek_bar.get_timeline_length(),
            );
            match new_timeline {
                Some(t) => self.seek_bar.set_timeline_length(t),
                None => {},
            }
            clamps.push((start_time, end_time));
        }
        self.is_paused = true;
        self.has_control = true;
        clamps
    }

    /// Whether the shared seek bar controls the players.
    pub fn get_control_state(&self) -> (b: bool)
        ensures
            b == self@.has_control,
    {
        self.has_control
    }

    /// Whether a toggle releases the shared control (`true`) or takes it (`false`).
    pub fn toggle_has_control(&self) -> (release: bool)
        ensures
            release == self@.has_control,
    {
        self.has_control
    }

    /// Shared control released: the players are paused.
    pub fn release_shared_control(&mut self)
        ensures
            final(self)@ == (SharedSeekBarView { has_control: false, is_paused: true, ..old(self)@ }),
            final(self).wf() == old(self).wf(),
    {
        self.is_paused = true;
        self.has_control = false;
    }

    /// The play button: plays all players (`true`) when paused, else pauses
    /// them (`false`); the paused flag flips.
    pub fn play_clicked(&mut self) -> (play: bool)
        ensures
            play == old(self)@.is_paused,
            final(self)@ == (SharedSeekBarView { is_paused: !old(self)@.is_paused, ..old(self)@ }),
            final(self).wf() == old(self).wf(),
    {
        let play = self.is_paused;
        self.is_paused = !self.is_paused;
        play
    }

    /// The scale is pressed: the players must be paused if they are not
    /// (`true`); dragging starts.
    pub fn seek_pressed(&mut self) -> (pause: bool)
        ensures
            pause == !old(self)@.is_paused,
            final(self)@ == (SharedSeekBarView { is_paused: true, is_dragging: true, ..old(self)@ }),
            final(self).wf() == old(self).wf(),
    {
        let pause = !self.is_paused;
        self.is_paused = true;
        self.is_dragging = true;
        pause
    }

    /// The scale is released: dragging ends.
    pub fn seek_released(&mut self)
        ensures
            final(self)@ == (SharedSeekBarView { is_dragging: false, ..old(self)@ }),
            final(self).wf() == old(self).wf(),
    {
        self.is_dragging = false;
    }

    /// A jump goes to the selected segment, or to the first one when the
    /// table has no selection; returns the segment.
    pub fn jump_to_segment(&mut self, selected: Option<u32>) -> (s: u32)
        ensures
            s == match selected {
                Some(i) => i,
                None => 0,
            },
            final(self)@ == (SharedSeekBarView { starting_segment: s, ..old(self)@ }),
            final(self).wf() == old(self).wf(),
    {
        let s = match selected {
            Some(i) => i,
            None => 0u32,
        };
        self.starting_segment = s;
        s
    }

    /// What an event of the sync manager does to the seek bar: playback
    /// starting moves it, playback pausing stops it.
    pub fn handle_sync_event(&self, event: SyncEvent) -> (c: ProgressCommand)
        ensures
            c == match event {
                SyncEvent::PlaybackStarted { base_time, scale_position } => ProgressCommand::Start {
                    base_time,
                    scale_position,
                },
                SyncEvent::PlaybackPaused => ProgressCommand::Stop,
                _ => ProgressCommand::Ignore,
            },
    {
        match event {
            SyncEvent::PlaybackStarted { base_time, scale_position } => ProgressCommand::Start {
                base_time,
                scale_position,
            },
            SyncEvent::PlaybackPaused => ProgressCommand::Stop,
            _ => ProgressCommand::Ignore,
        }
    }
}

} // verus!
