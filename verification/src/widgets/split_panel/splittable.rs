use vstd::prelude::*;
use crate::helpers::text::{decimal, push_decimal};
use crate::widgets::split_panel::splits::{empty_segment, Segment, VideoSegment, VideoSegmentView};
use crate::widgets::split_panel::timeentry::TimeEntry;
use crate::widgets::video_player_widget::seek_bar::{mark_added, mark_linked, SeekBar as PlayerSeekBar};
use crate::widgets::seek_bar::seek_bar::SeekBarView;
use vstd::string::StringExecFns;

verus! {

/// The key under which the segments of video player `index` are stored in
/// each row: the index written in decimal.
pub open spec fn player_key(index: u32) -> Seq<char> {
    decimal(index as nat)
}

/// The name a new row starts with.
pub open spec fn new_row_name() -> Seq<char> {
    seq!['S', 'e', 'g', 'm', 'e', 'n', 't', ' ', 'N', 'a', 'm', 'e']
}

/// `o` holds a split time that has been set (`u64::MAX` marks an unset one).
pub open spec fn is_set(o: Option<u64>) -> bool {
    o is Some && o.unwrap() != u64::MAX
}

/// The last split time of player `key` that is set in a row before `row`.
pub open spec fn previous_time(rows: Seq<VideoSegmentView>, key: Seq<char>, row: int) -> Option<u64>
    decreases row,
{
    if row <= 0 {
        None
    } else if is_set(rows[row - 1].time_of(key)) {
        rows[row - 1].time_of(key)
    } else {
        previous_time(rows, key, row - 1)
    }
}

/// A row whose duration for player `key` is refreshed: it has a set split
/// time and a duration.
pub open spec fn duration_tracked(r: VideoSegmentView, key: Seq<char>) -> bool {
    r.segments.contains_key(key) && r.segments[key].duration is Some && r.segments[key].time.time
        != u64::MAX
}

/// The rows after the durations of player `key` are refreshed from row `i`
/// on, `prev` being the split time before row `i`: each tracked row gets the
/// time since the previous split, which then moves on to its own time.
pub open spec fn refresh_durations(
    rows: Seq<VideoSegmentView>,
    key: Seq<char>,
    i: int,
    prev: u64,
) -> Seq<VideoSegmentView>
    decreases rows.len() - i,
{
    if i < 0 || i >= rows.len() {
        rows
    } else if duration_tracked(rows[i], key) {
        let t = rows[i].segments[key].time.time;
        refresh_durations(rows.update(i, rows[i].with_duration(key, (t - prev) as u64)), key, i + 1, t)
    } else {
        refresh_durations(rows, key, i + 1, prev)
    }
}

/// No tracked row from `i` on has a split time before the split that precedes it.
pub open spec fn durations_fit(rows: Seq<VideoSegmentView>, key: Seq<char>, i: int, prev: u64) -> bool
    decreases rows.len() - i,
{
    if i < 0 || i >= rows.len() {
        true
    } else if duration_tracked(rows[i], key) {
        let t = rows[i].segments[key].time.time;
        prev <= t && durations_fit(rows, key, i + 1, t)
    } else {
        durations_fit(rows, key, i + 1, prev)
    }
}

/// Changing the row `r` does not change the previous time of any row up to `r`.
proof fn lemma_previous_time_ignores_later(
    rows: Seq<VideoSegmentView>,
    key: Seq<char>,
    row: int,
    r: int,
    x: VideoSegmentView,
)
    requires
        0 <= row <= r < rows.len(),
    ensures
        previous_time(rows.update(r, x), key, row) == previous_time(rows, key, row),
    decreases row,
{
    if row > 0 {
        lemma_previous_time_ignores_later(rows, key, row - 1, r, x);
    }
}

/// Changing a row before `j` does not change whether the durations from `j` on fit.
proof fn lemma_fit_ignores_earlier(
    rows: Seq<VideoSegmentView>,
    key: Seq<char>,
    j: int,
    prev: u64,
    i: int,
    x: VideoSegmentView,
)
    requires
        0 <= i < j,
        i < rows.len(),
    ensures
        durations_fit(rows.update(i, x), key, j, prev) == durations_fit(rows, key, j, prev),
    decreases rows.len() - j,
{
    if j < rows.len() {
        let t = rows[j].segments[key].time.time;
        lemma_fit_ignores_earlier(rows, key, j + 1, prev, i, x);
        lemma_fit_ignores_earlier(rows, key, j + 1, t, i, x);
    }
}

/// The split time that the duration refresh from row `start` measures from:
/// the last set time before `start`, else the player's offset in the first row.
pub open spec fn refresh_base(rows: Seq<VideoSegmentView>, key: Seq<char>, start: int) -> u64 {
    match previous_time(rows, key, start) {
        Some(t) => t,
        None => rows[0].segments[key].offset.time,
    }
}

/// The last row before `i` whose set split time of player `key` is at most
/// `target`, or -1 if there is none.
pub open spec fn stop_before(rows: Seq<VideoSegmentView>, key: Seq<char>, i: int, target: u64) -> int
    decreases i,
{
    if i <= 0 {
        -1
    } else if is_set(rows[i - 1].time_of(key)) && rows[i - 1].time_of(key).unwrap() <= target {
        i - 1
    } else {
        stop_before(rows, key, i - 1, target)
    }
}

/// The first row from `i` on whose set split time of player `key` is at
/// least `target`, or the number of rows if there is none.
pub open spec fn stop_after(rows: Seq<VideoSegmentView>, key: Seq<char>, i: int, target: u64) -> int
    decreases rows.len() - i,
{
    if i >= rows.len() {
        rows.len() as int
    } else if is_set(rows[i].time_of(key)) && rows[i].time_of(key).unwrap() >= target {
        i
    } else {
        stop_after(rows, key, i + 1, target)
    }
}

/// The rows after the split times of player `key` are brought in line with
/// the one of row `start`: walking back from `start`, each set time later
/// than it is moved to it until a time no later is met; walking forward,
/// each set time earlier than it is moved to it until a time no earlier is met.
pub open spec fn conflicts_fixed(rows: Seq<VideoSegmentView>, key: Seq<char>, start: int) -> Seq<
    VideoSegmentView,
> {
    let target = rows[start].segments[key].time.time;
    let lo = stop_before(rows, key, start, target);
    let hi = stop_after(rows, key, start + 1, target);
    Seq::new(
        rows.len(),
        |j: int|
            if ((lo < j < start) || (start < j < hi)) && is_set(rows[j].time_of(key)) {
                rows[j].with_time(key, target)
            } else {
                rows[j]
            },
    )
}

/// The rows after `correct_conflicts` on row `start` for player `key`: the
/// conflicts fixed, then the durations refreshed from the first row, which
/// measure from the player's offset.
pub open spec fn conflicts_corrected(rows: Seq<VideoSegmentView>, key: Seq<char>, start: int) -> Seq<
    VideoSegmentView,
> {
    refresh_durations(conflicts_fixed(rows, key, start), key, 0, rows[0].segments[key].offset.time)
}

/// `correct_conflicts` on row `start` can recompute the durations without
/// a split time coming before the one it is measured from.
pub open spec fn corrections_fit(rows: Seq<VideoSegmentView>, key: Seq<char>, start: int) -> bool {
    &&& 0 <= start < rows.len()
    &&& rows[start].segments.contains_key(key)
    &&& rows[0].segments.contains_key(key)
    &&& durations_fit(conflicts_fixed(rows, key, start), key, 0, rows[0].segments[key].offset.time)
}

/// The rows after the split time of player `key` in row `row` is set to
/// `time` and the conflicts this makes are corrected.
pub open spec fn split_time_set(rows: Seq<VideoSegmentView>, key: Seq<char>, row: int, time: u64) -> Seq<
    VideoSegmentView,
> {
    conflicts_corrected(rows.update(row, rows[row].with_time(key, time)), key, row)
}

/// Setting the split time of player `key` in row `row` to `time` can be corrected.
pub open spec fn split_time_fits(rows: Seq<VideoSegmentView>, key: Seq<char>, row: int, time: u64) -> bool {
    &&& 0 <= row < rows.len()
    &&& rows[row].segments.contains_key(key)
    &&& corrections_fit(rows.update(row, rows[row].with_time(key, time)), key, row)
}

/// The split time that a duration typed into row `row` for player `key` is
/// added to: the last set split time before that row, else zero.
pub open spec fn duration_base(rows: Seq<VideoSegmentView>, key: Seq<char>, row: int) -> u64 {
    match previous_time(rows, key, row) {
        Some(t) => t,
        None => 0,
    }
}

/// A duration typed into row `row` for player `key` can be taken: the row
/// has a segment for the player, the split time it gives fits in a `u64`,
/// and setting that split time can be corrected.
pub open spec fn duration_entry_fits(rows: Seq<VideoSegmentView>, key: Seq<char>, row: int, duration: u64) -> bool {
    &&& 0 <= row < rows.len()
    &&& rows[row].segments.contains_key(key)
    &&& duration_base(rows, key, row) + duration <= u64::MAX
    &&& split_time_fits(
        rows.update(row, rows[row].with_duration(key, duration)),
        key,
        row,
        (duration_base(rows, key, row) + duration) as u64,
    )
}

/// The rows once the split time of player `key` in row `row` is `time`, its
/// duration being set to `duration` first if one is given.
pub open spec fn entry_rows(
    rows: Seq<VideoSegmentView>,
    key: Seq<char>,
    row: int,
    time: u64,
    duration: Option<u64>,
) -> Seq<VideoSegmentView> {
    let r = match duration {
        Some(d) => rows[row].with_duration(key, d),
        None => rows[row],
    };
    rows.update(row, r.with_time(key, time))
}

/// A new row: `"Segment Name"`, the id `id`, and an empty segment for each
/// of the first `players` players.
pub open spec fn new_row(id: u32, players: u32) -> VideoSegmentView {
    VideoSegmentView {
        name: new_row_name(),
        id: decimal(id as nat),
        segments: Map::new(
            |k: Seq<char>| exists|i: u32| i < players && k == player_key(i),
            |k: Seq<char>| empty_segment(),
        ),
    }
}

/// What the split table holds: its rows, the start time offset of each
/// player, and the number of players a new row gets segments for.
pub struct SplitTableView {
    pub rows: Seq<VideoSegmentView>,
    pub offsets: Seq<TimeEntry>,
    pub max_players: u32,
}

/// The table of splits: one row per segment, one start time offset per video player.
pub struct SplitTable {
    rows: Vec<VideoSegment>,
    offsets: Vec<TimeEntry>,
    max_number_of_video_players: u32,
}

impl View for SplitTable {
    type V = SplitTableView;

    closed spec fn view(&self) -> SplitTableView {
        SplitTableView {
            rows: self.rows@.map_values(|r: VideoSegment| r@),
            offsets: self.offsets@,
            max_players: self.max_number_of_video_players,
        }
    }
}

/// The id of the mark that `connect_row_to_seekbar` puts on the seek bar of
/// player `index` when the table has `row_count` rows.
pub open spec fn row_mark_id(index: u32, row_count: nat) -> Seq<char> {
    "video-"@ + decimal(index as nat) + ", row-"@ + decimal((row_count - 1) as nat)
}

/// The id of the mark that `connect_column_to_seekbar` puts on the seek bar
/// of player `index` for row `row`.
pub open spec fn column_mark_id(index: u32, row: nat) -> Seq<char> {
    "video-"@ + decimal(index as nat) + ", seg-"@ + decimal(row)
}

/// A player's seek bar after the marks of player `index` for rows `..n` are added, in that order.
pub open spec fn player_column_added(b: SeekBarView, rows: Seq<VideoSegmentView>, index: u32, n: int) -> SeekBarView
    decreases n,
{
    if n <= 0 {
        b
    } else {
        mark_linked(
            mark_added(
                player_column_added(b, rows, index, n - 1),
                column_mark_id(index, (n - 1) as nat),
                rows[n - 1].segments[player_key(index)].time,
            ),
            column_mark_id(index, (n - 1) as nat),
            rows[n - 1].id,
            index,
        )
    }
}

/// The rows once each has an empty segment for the player with key `key`.
pub open spec fn with_column(rows: Seq<VideoSegmentView>, key: Seq<char>) -> Seq<VideoSegmentView> {
    Seq::new(
        rows.len(),
        |i: int| VideoSegmentView { segments: rows[i].segments.insert(key, empty_segment()), ..rows[i] },
    )
}

/// The rows once none has a segment for the player with key `key`.
pub open spec fn without_column(rows: Seq<VideoSegmentView>, key: Seq<char>) -> Seq<VideoSegmentView> {
    Seq::new(rows.len(), |i: int| VideoSegmentView { segments: rows[i].segments.remove(key), ..rows[i] })
}

/// Removing a player's column undoes adding it, for a player that had no
/// segment in any row.
pub proof fn lemma_remove_column_undoes_add(rows: Seq<VideoSegmentView>, key: Seq<char>)
    requires
        forall|i: int| 0 <= i < rows.len() ==> !(#[trigger] rows[i]).segments.contains_key(key),
    ensures
        without_column(with_column(rows, key), key) == rows,
{
    let r = without_column(with_column(rows, key), key);
    assert forall|i: int| 0 <= i < rows.len() implies #[trigger] r[i] == rows[i] by {
        assert(r[i].segments =~= rows[i].segments);
    }
    assert(r =~= rows);
}

/// The key of player `index`, as text.
pub fn player_key_text(index: u32) -> (k: String)
    ensures
        k@ == player_key(index),
{
    let mut k = String::new();
    push_decimal(&mut k, index as u64);
    assert(k@ =~= player_key(index));
    k
}

impl SplitTable {
    /// Every row keeps each player key once.
    pub closed spec fn wf(&self) -> bool {
        forall|i: int| 0 <= i < self.rows@.len() ==> (#[trigger] self.rows@[i]).wf()
    }

    pub fn new() -> (t: Self)
        ensures
            t.wf(),
            t@.rows == Seq::<VideoSegmentView>::empty(),
            t@.offsets == Seq::<TimeEntry>::empty(),
            t@.max_players == 1,
    {
        let t = SplitTable { rows: Vec::new(), offsets: Vec::new(), max_number_of_video_players: 1 };
        assert(t@.rows =~= Seq::<VideoSegmentView>::empty());
        t
    }

    pub fn set_max_number_of_video_players(&mut self, max_number_of_video_players: u32)
        ensures
            final(self)@ == (SplitTableView { max_players: max_number_of_video_players, ..old(self)@ }),
            final(self).wf() == old(self).wf(),
    {
        self.max_number_of_video_players = max_number_of_video_players;
        assert(self@.rows =~= old(self)@.rows);
    }

    /// The rows of the table.
    pub fn get_split_table_liststore(&self) -> (rows: &Vec<VideoSegment>)
        ensures
            rows@.map_values(|r: VideoSegment| r@) == self@.rows,
            self.wf() ==> forall|i: int| 0 <= i < rows@.len() ==> (#[trigger] rows@[i]).wf(),
    {
        &self.rows
    }

    /// The start time offsets, one per player.
    pub fn get_start_time_offset_liststore(&self) -> (offsets: &Vec<TimeEntry>)
        ensures
            offsets@ == self@.offsets,
    {
        &self.offsets
    }

    /// Adds a start time offset of zero for a new player and returns it.
    pub fn add_start_time_offset_row(&mut self) -> (e: TimeEntry)
        ensures
            e == TimeEntry::new_spec(0),
            final(self)@ == (SplitTableView { offsets: old(self)@.offsets.push(e), ..old(self)@ }),
            final(self).wf() == old(self).wf(),
    {
        let e = TimeEntry::new(0);
        self.offsets.push(e);
        assert(self@.rows =~= old(self)@.rows);
        e
    }

    /// The last split time of player `video_player_index` that is set in a
    /// row before `row_index`.
    pub fn get_previous_time(&self, video_player_index: u32, row_index: u32) -> (r: Option<u64>)
        requires
            self.wf(),
            row_index <= self@.rows.len(),
        ensures
            r == previous_time(self@.rows, player_key(video_player_index), row_index as int),
    {
        let key = player_key_text(video_player_index);
        let ghost rows = self@.rows;
        let mut i = row_index;
        while i > 0
            invariant
                self.wf(),
                rows == self@.rows,
                key@ == player_key(video_player_index),
                i <= row_index <= rows.len(),
                previous_time(rows, key@, row_index as int) == previous_time(rows, key@, i as int),
            decreases i,
        {
            i = i - 1;
            assert(self.rows@[i as int]@ == rows[i as int]);
            match self.rows[i as usize].get_segment(key.as_str()) {
                Some(s) => {
                    if s.time.time != u64::MAX {
                        return Some(s.time.time);
                    }
                },
                None => {},
            }
        }
        None
    }

    /// Inserts a new row at `insert_index`, named `"Segment Name"`, with id
    /// `segment_id` and an empty segment for each of the players.
    pub fn insert_empty_row(&mut self, insert_index: u32, segment_id: u32)
        requires
            old(self).wf(),
            insert_index <= old(self)@.rows.len(),
        ensures
            final(self).wf(),
            final(self)@ == (SplitTableView {
                rows: old(self)@.rows.insert(
                    insert_index as int,
                    new_row(segment_id, old(self)@.max_players),
                ),
                ..old(self)@
            }),
    {
        let name = "Segment Name";
        proof {
            reveal_strlit("Segment Name");
        }
        let mut new_row_segment = VideoSegment::new(name, segment_id);
        let max = self.max_number_of_video_players;
        for k in 0..max
            invariant
                new_row_segment.wf(),
                new_row_segment@.name == new_row_name(),
                new_row_segment@.id == decimal(segment_id as nat),
                new_row_segment@.segments == Map::new(
                    |key: Seq<char>| exists|i: u32| i < k && key == player_key(i),
                    |key: Seq<char>| empty_segment(),
                ),
        {
            let key = player_key_text(k);
            let ghost before = new_row_segment@.segments;
            new_row_segment.add_empty_segment(key.as_str());
            proof {
                let target = Map::new(
                    |key: Seq<char>| exists|i: u32| i < k + 1 && key == player_key(i),
                    |key: Seq<char>| empty_segment(),
                );
                assert forall|kk: Seq<char>| #[trigger] new_row_segment@.segments.contains_key(kk)
                    == target.contains_key(kk) by {
                    if kk == player_key(k) {
                        assert(target.dom().contains(kk));
                    } else if before.contains_key(kk) {
                        let i = choose|i: u32| i < k && kk == player_key(i);
                        assert(target.dom().contains(kk));
                    } else if target.contains_key(kk) {
                        let i = choose|i: u32| i < k + 1 && kk == player_key(i);
                        assert(i != k);
                        assert(before.contains_key(kk));
                    }
                }
                assert(new_row_segment@.segments =~= target);
            }
        }
        let ghost row_view = new_row_segment@;
        assert(row_view == new_row(segment_id, max));
        let ghost old_rows = self.rows@;
        self.rows.insert(insert_index as usize, new_row_segment);
        proof {
            assert(self.rows@ == old_rows.insert(insert_index as int, new_row_segment));
            assert(self@.rows =~= old(self)@.rows.insert(insert_index as int, row_view));
            assert forall|i: int| 0 <= i < self.rows@.len() implies (#[trigger] self.rows@[i]).wf() by {
                if i < insert_index {
                    assert(self.rows@[i] == old_rows[i]);
                } else if i > insert_index {
                    assert(self.rows@[i] == old_rows[i - 1]);
                }
            }
        }
    }

    /// Appends a new row (see `insert_empty_row`).
    pub fn append_empty_row(&mut self, segment_id: u32)
        requires
            old(self).wf(),
            old(self)@.rows.len() <= u32::MAX,
        ensures
            final(self).wf(),
            final(self)@ == (SplitTableView {
                rows: old(self)@.rows.push(new_row(segment_id, old(self)@.max_players)),
                ..old(self)@
            }),
    {
        let insert_index = self.rows.len() as u32;
        self.insert_empty_row(insert_index, segment_id);
        assert(old(self)@.rows.insert(insert_index as int, new_row(segment_id, old(self)@.max_players))
            =~= old(self)@.rows.push(new_row(segment_id, old(self)@.max_players)));
    }

    /// Recomputes, from row `starting_row_index` on, the duration of each
    /// row of player `video_player_index` that has a set split time and a
    /// duration: the time since the previous set split time (or, before the
    /// first one, since the player's offset in the first row).
    pub fn update_durations(&mut self, video_player_index: u32, starting_row_index: u32)
        requires
            old(self).wf(),
            starting_row_index <= old(self)@.rows.len(),
            old(self)@.rows.len() > 0 && previous_time(
                old(self)@.rows,
                player_key(video_player_index),
                starting_row_index as int,
            ) is None ==> old(self)@.rows[0].segments.contains_key(player_key(video_player_index)),
            old(self)@.rows.len() > 0 ==> durations_fit(
                old(self)@.rows,
                player_key(video_player_index),
                starting_row_index as int,
                refresh_base(old(self)@.rows, player_key(video_player_index), starting_row_index as int),
            ),
        ensures
            final(self).wf(),
            final(self)@ == (SplitTableView {
                rows: if old(self)@.rows.len() == 0 {
                    old(self)@.rows
                } else {
                    refresh_durations(
                        old(self)@.rows,
                        player_key(video_player_index),
                        starting_row_index as int,
                        refresh_base(old(self)@.rows, player_key(video_player_index), starting_row_index as int),
                    )
                },
                ..old(self)@
            }),
    {
        let n = self.rows.len();
        if n == 0 {
            return;
        }
        let key = player_key_text(video_player_index);
        let ghost old_rows = self@.rows;
        let ghost base = refresh_base(old_rows, key@, starting_row_index as int);
        let mut previous_time: u64 = match self.get_previous_time(video_player_index, starting_row_index) {
            Some(time) => time,
            None => {
                assert(self.rows@[0]@ == old_rows[0]);
                self.rows[0].get_offset(key.as_str())
            },
        };
        let mut i = starting_row_index as usize;
        while i < n
            invariant
                self.wf(),
                n == self.rows@.len(),
                starting_row_index <= i <= n,
                key@ == player_key(video_player_index),
                self@.offsets == old(self)@.offsets,
                self@.max_players == old(self)@.max_players,
                refresh_durations(old_rows, key@, starting_row_index as int, base)
                    == refresh_durations(self@.rows, key@, i as int, previous_time),
                durations_fit(self@.rows, key@, i as int, previous_time),
            decreases n - i,
        {
            let ghost cur = self@.rows;
            assert(self.rows@[i as int]@ == cur[i as int]);
            match self.rows[i].get_segment(key.as_str()) {
                Some(s) => {
                    if s.duration.is_some() {
                        let time = s.time.time;
                        if time != u64::MAX {
                            let ghost old_vec = self.rows@;
                            let ghost prev0 = previous_time;
                            self.rows[i].set_duration(key.as_str(), time - previous_time);
                            previous_time = time;
                            proof {
                                assert(self@.rows =~= cur.update(
                                    i as int,
                                    cur[i as int].with_duration(key@, (time - prev0) as u64),
                                ));
                                lemma_fit_ignores_earlier(
                                    cur,
                                    key@,
                                    i + 1,
                                    time,
                                    i as int,
                                    cur[i as int].with_duration(key@, (time - prev0) as u64),
                                );
                                assert forall|j: int| 0 <= j < self.rows@.len() implies (#[trigger] self.rows@[j]).wf() by {
                                    if j != i {
                                        assert(self.rows@[j] == old_vec[j]);
                                    }
                                }
                            }
                        }
                    }
                },
                None => {},
            }
            i = i + 1;
        }
    }

    /// Sets the split time of player `video_player_index` in row `row_index`
    /// to `time` and corrects the conflicts this makes.
    pub fn apply_time_entry(&mut self, video_player_index: u32, row_index: u32, time: u64)
        requires
            old(self).wf(),
            split_time_fits(old(self)@.rows, player_key(video_player_index), row_index as int, time),
        ensures
            final(self).wf(),
            final(self)@ == (SplitTableView {
                rows: split_time_set(old(self)@.rows, player_key(video_player_index), row_index as int, time),
                ..old(self)@
            }),
    {
        let key = player_key_text(video_player_index);
        let ghost old_vec = self.rows@;
        assert(self.rows@[row_index as int]@ == self@.rows[row_index as int]);
        self.rows[row_index as usize].set_time(key.as_str(), time);
        proof {
            assert(self@.rows =~= old(self)@.rows.update(
                row_index as int,
                old(self)@.rows[row_index as int].with_time(key@, time),
            ));
            assert forall|j: int| 0 <= j < self.rows@.len() implies (#[trigger] self.rows@[j]).wf() by {
                if j != row_index {
                    assert(self.rows@[j] == old_vec[j]);
                }
            }
        }
        self.correct_conflicts(video_player_index, row_index);
    }

    /// Sets the split time of player `video_player_index` in the selected
    /// row to `video_player_position` and corrects the conflicts this makes;
    /// fails when no row is selected (`selected_row` is past the last row).
    pub fn set_split(&mut self, video_player_index: u32, video_player_position: u64, selected_row: u32) -> (r:
        Result<(), String>)
        requires
            old(self).wf(),
            selected_row < old(self)@.rows.len() ==> split_time_fits(
                old(self)@.rows,
                player_key(video_player_index),
                selected_row as int,
                video_player_position,
            ),
        ensures
            final(self).wf(),
            match r {
                Ok(()) => selected_row < old(self)@.rows.len() && final(self)@ == (SplitTableView {
                    rows: split_time_set(
                        old(self)@.rows,
                        player_key(video_player_index),
                        selected_row as int,
                        video_player_position,
                    ),
                    ..old(self)@
                }),
                Err(e) => selected_row >= old(self)@.rows.len() && final(self)@ == old(self)@ && e@
                    == "Segment not selected"@,
            },
    {
        if (selected_row as usize) < self.rows.len() {
            self.apply_time_entry(video_player_index, selected_row, video_player_position);
            Ok(())
        } else {
            Err("Segment not selected".to_owned())
        }
    }

    /// Sets the duration of player `video_player_index` in row `row_index`,
    /// moves the row's split time to the previous set split time (or zero)
    /// plus that duration, and corrects the conflicts this makes.
    pub fn apply_duration_entry(&mut self, video_player_index: u32, row_index: u32, duration: u64)
        requires
            old(self).wf(),
            duration_entry_fits(old(self)@.rows, player_key(video_player_index), row_index as int, duration),
        ensures
            final(self).wf(),
            final(self)@ == (SplitTableView {
                rows: ({
                    let key = player_key(video_player_index);
                    let prev = match previous_time(old(self)@.rows, key, row_index as int) {
                        Some(t) => t,
                        None => 0,
                    };
                    split_time_set(
                        old(self)@.rows.update(
                            row_index as int,
                            old(self)@.rows[row_index as int].with_duration(key, duration),
                        ),
                        key,
                        row_index as int,
                        (prev + duration) as u64,
                    )
                }),
                ..old(self)@
            }),
    {
        let key = player_key_text(video_player_index);
        let ghost old_vec = self.rows@;
        assert(self.rows@[row_index as int]@ == self@.rows[row_index as int]);
        self.rows[row_index as usize].set_duration(key.as_str(), duration);
        let ghost rows1 = old(self)@.rows.update(
            row_index as int,
            old(self)@.rows[row_index as int].with_duration(key@, duration),
        );
        proof {
            assert(self@.rows =~= rows1);
            assert forall|j: int| 0 <= j < self.rows@.len() implies (#[trigger] self.rows@[j]).wf() by {
                if j != row_index {
                    assert(self.rows@[j] == old_vec[j]);
                }
            }
            lemma_previous_time_ignores_later(old(self)@.rows, key@, row_index as int, row_index as int, rows1[row_index as int]);
        }
        let previous_time: u64 = match self.get_previous_time(video_player_index, row_index) {
            Some(time) => time,
            None => 0,
        };
        self.apply_time_entry(video_player_index, row_index, previous_time + duration);
    }

    /// Sets the start time offset of player `video_player_index` to `time`
    /// in the offsets and in every row.
    pub fn apply_start_time_offset_entry(&mut self, video_player_index: u32, time: u64)
        requires
            old(self).wf(),
            video_player_index < old(self)@.offsets.len(),
            forall|i: int|
                0 <= i < old(self)@.rows.len() ==> (#[trigger] old(self)@.rows[i]).segments.contains_key(
                    player_key(video_player_index),
                ),
        ensures
            final(self).wf(),
            final(self)@ == (SplitTableView {
                rows: Seq::new(
                    old(self)@.rows.len(),
                    |i: int| old(self)@.rows[i].with_offset(player_key(video_player_index), time),
                ),
                offsets: old(self)@.offsets.update(
                    video_player_index as int,
                    old(self)@.offsets[video_player_index as int].after_set(time),
                ),
                ..old(self)@
            }),
    {
        let idx = video_player_index as usize;
        let mut entry = self.offsets[idx];
        entry.set_time(time);
        self.offsets.set(idx, entry);
        self.set_offsets_in_rows(video_player_index, time);
    }

    /// Sets the offset of player `video_player_index` to `time` in every row.
    fn set_offsets_in_rows(&mut self, video_player_index: u32, time: u64)
        requires
            old(self).wf(),
            forall|i: int|
                0 <= i < old(self)@.rows.len() ==> (#[trigger] old(self)@.rows[i]).segments.contains_key(
                    player_key(video_player_index),
                ),
        ensures
            final(self).wf(),
            final(self)@ == (SplitTableView {
                rows: Seq::new(
                    old(self)@.rows.len(),
                    |i: int| old(self)@.rows[i].with_offset(player_key(video_player_index), time),
                ),
                ..old(self)@
            }),
    {
        let key = player_key_text(video_player_index);
        let ghost orig = self@.rows;
        let n = self.rows.len();
        for i in 0..n
            invariant
                self.wf(),
                n == self.rows@.len() == orig.len(),
                key@ == player_key(video_player_index),
                self@.offsets == old(self)@.offsets,
                self@.max_players == old(self)@.max_players,
                forall|j: int| 0 <= j < n ==> (#[trigger] orig[j]).segments.contains_key(key@),
                self@.rows == Seq::new(
                    n as nat,
                    |j: int|
                        if j < i {
                            orig[j].with_offset(key@, time)
                        } else {
                            orig[j]
                        },
                ),
        {
            let ghost old_vec = self.rows@;
            let ghost cur = self@.rows;
            assert(cur[i as int] == orig[i as int]);
            assert(self.rows@[i as int]@ == cur[i as int]);
            self.rows[i].set_offset(key.as_str(), time);
            proof {
                assert forall|j: int| 0 <= j < self.rows@.len() implies (#[trigger] self.rows@[j]).wf() by {
                    if j != i {
                        assert(self.rows@[j] == old_vec[j]);
                    }
                }
                assert(self@.rows =~= cur.update(i as int, orig[i as int].with_offset(key@, time)));
                assert(self@.rows =~= Seq::new(
                    n as nat,
                    |j: int|
                        if j < i + 1 {
                            orig[j].with_offset(key@, time)
                        } else {
                            orig[j]
                        },
                ));
            }
        }
        assert(self@.rows =~= Seq::new(n as nat, |j: int| orig[j].with_offset(key@, time)));
    }

    /// Records `video_player_position` as the start time offset of player
    /// `video_player_index`, in the offsets and in every row; the duration
    /// of the player's segment in the first row is set to that segment's
    /// split time.
    pub fn set_start_time_offset(&mut self, video_player_index: u32, video_player_position: u64) -> (r:
        Result<(), String>)
        requires
            old(self).wf(),
            video_player_index < old(self)@.offsets.len(),
            forall|i: int|
                0 <= i < old(self)@.rows.len() ==> (#[trigger] old(self)@.rows[i]).segments.contains_key(
                    player_key(video_player_index),
                ),
        ensures
            r is Ok,
            final(self).wf(),
            final(self)@ == (SplitTableView {
                rows: Seq::new(
                    old(self)@.rows.len(),
                    |i: int|
                        if i == 0 {
                            old(self)@.rows[0].with_duration(
                                player_key(video_player_index),
                                old(self)@.rows[0].segments[player_key(video_player_index)].time.time,
                            ).with_offset(player_key(video_player_index), video_player_position)
                        } else {
                            old(self)@.rows[i].with_offset(player_key(video_player_index), video_player_position)
                        },
                ),
                offsets: old(self)@.offsets.update(
                    video_player_index as int,
                    old(self)@.offsets[video_player_index as int].after_set(video_player_position),
                ),
                ..old(self)@
            }),
    {
        let idx = video_player_index as usize;
        let mut entry = self.offsets[idx];
        entry.set_time(video_player_position);
        self.offsets.set(idx, entry);
        if self.rows.len() > 0 {
            let key = player_key_text(video_player_index);
            assert(self.rows@[0]@ == old(self)@.rows[0]);
            let time = self.rows[0].get_time(key.as_str());
            let ghost old_vec = self.rows@;
            self.rows[0].set_duration(key.as_str(), time);
            proof {
                assert(self.rows@[0]@ == old(self)@.rows[0].with_duration(key@, time));
                assert forall|j: int| 0 <= j < self.rows@.len() implies (#[trigger] self.rows@[j]).wf() by {
                    if j != 0 {
                        assert(self.rows@[j] == old_vec[j]);
                    }
                }
                assert forall|i: int| 0 <= i < self@.rows.len() implies (#[trigger] self@.rows[i]).segments.contains_key(
                    player_key(video_player_index)) by {
                    assert(self@.rows[i] == self.rows@[i]@);
                    if i != 0 {
                        assert(self.rows@[i] == old_vec[i]);
                        assert(old_vec[i]@ == old(self)@.rows[i]);
                    }
                }
            }
        }
        self.set_offsets_in_rows(video_player_index, video_player_position);
        assert(self@.rows =~= Seq::new(
            old(self)@.rows.len(),
            |i: int|
                if i == 0 {
                    old(self)@.rows[0].with_duration(
                        player_key(video_player_index),
                        old(self)@.rows[0].segments[player_key(video_player_index)].time.time,
                    ).with_offset(player_key(video_player_index), video_player_position)
                } else {
                    old(self)@.rows[i].with_offset(player_key(video_player_index), video_player_position)
                },
        ));
        Ok(())
    }

    /// Brings the split times of player `video_player_index` in line with
    /// the one of row `starting_row_index` (see `conflicts_fixed`), then
    /// recomputes the player's durations from the first row on.
    pub fn correct_conflicts(&mut self, video_player_index: u32, starting_row_index: u32)
        requires
            old(self).wf(),
            corrections_fit(old(self)@.rows, player_key(video_player_index), starting_row_index as int),
        ensures
            final(self).wf(),
            final(self)@ == (SplitTableView {
                rows: conflicts_corrected(
                    old(self)@.rows,
                    player_key(video_player_index),
                    starting_row_index as int,
                ),
                ..old(self)@
            }),
    {
        let key = player_key_text(video_player_index);
        let ghost orig = self@.rows;
        let n = self.rows.len();
        let start = starting_row_index as usize;
        assert(self.rows@[start as int]@ == orig[start as int]);
        let target = self.rows[start].get_time(key.as_str());
        let ghost lo = stop_before(orig, key@, start as int, target);
        let ghost hi = stop_after(orig, key@, start + 1, target);
        // Walk back from the starting row.
        let mut i = start;
        let mut stopped = false;
        while i > 0 && !stopped
            invariant
                self.wf(),
                n == self.rows@.len() == orig.len(),
                key@ == player_key(video_player_index),
                start < n,
                orig[start as int].segments.contains_key(key@),
                target == orig[start as int].segments[key@].time.time,
                lo == stop_before(orig, key@, start as int, target),
                i <= start,
                self@.offsets == old(self)@.offsets,
                self@.max_players == old(self)@.max_players,
                stopped ==> lo == i,
                !stopped ==> lo == stop_before(orig, key@, i as int, target),
                self@.rows == Seq::new(
                    n as nat,
                    |j: int|
                        if (if stopped { i as int } else { i - 1 }) < j < start && is_set(
                            orig[j].time_of(key@),
                        ) {
                            orig[j].with_time(key@, target)
                        } else {
                            orig[j]
                        },
                ),
            decreases i,
        {
            i = i - 1;
            let ghost cur = self@.rows;
            assert(self.rows@[i as int]@ == cur[i as int]);
            assert(cur[i as int] == orig[i as int]);
            match self.rows[i].get_segment(key.as_str()) {
                Some(s) => {
                    if s.time.time != u64::MAX {
                        if s.time.time > target {
                            let ghost old_vec = self.rows@;
                            self.rows[i].set_time(key.as_str(), target);
                            proof {
                                assert(self@.rows =~= cur.update(
                                    i as int,
                                    cur[i as int].with_time(key@, target),
                                ));
                                assert forall|j: int| 0 <= j < self.rows@.len() implies (
                                #[trigger] self.rows@[j]).wf() by {
                                    if j != i {
                                        assert(self.rows@[j] == old_vec[j]);
                                    }
                                }
                            }
                        } else {
                            stopped = true;
                        }
                    }
                },
                None => {},
            }
            proof {
                assert(self@.rows =~= Seq::new(
                    n as nat,
                    |j: int|
                        if (if stopped { i as int } else { i - 1 }) < j < start && is_set(
                            orig[j].time_of(key@),
                        ) {
                            orig[j].with_time(key@, target)
                        } else {
                            orig[j]
                        },
                ));
            }
        }
        // Walk forward from the starting row.
        let mut i = start + 1;
        let mut stopped = false;
        while i < n && !stopped
            invariant
                self.wf(),
                n == self.rows@.len() == orig.len(),
                key@ == player_key(video_player_index),
                start < i <= n,
                target == orig[start as int].segments[key@].time.time,
                lo == stop_before(orig, key@, start as int, target),
                hi == stop_after(orig, key@, start + 1, target),
                self@.offsets == old(self)@.offsets,
                self@.max_players == old(self)@.max_players,
                stopped ==> hi == i,
                !stopped ==> hi == stop_after(orig, key@, i as int, target),
                self@.rows == Seq::new(
                    n as nat,
                    |j: int|
                        if ((lo < j < start) || (start < j < i)) && is_set(orig[j].time_of(key@)) {
                            orig[j].with_time(key@, target)
                        } else {
                            orig[j]
                        },
                ),
            decreases (n - i) * 2 + (if stopped { 0int } else { 1int }),
        {
            let ghost cur = self@.rows;
            assert(self.rows@[i as int]@ == cur[i as int]);
            assert(cur[i as int] == orig[i as int]);
            let mut stop = false;
            match self.rows[i].get_segment(key.as_str()) {
                Some(s) => {
                    if s.time.time != u64::MAX {
                        if s.time.time < target {
                            let ghost old_vec = self.rows@;
                            self.rows[i].set_time(key.as_str(), target);
                            proof {
                                assert(self@.rows =~= cur.update(
                                    i as int,
                                    cur[i as int].with_time(key@, target),
                                ));
                                assert forall|j: int| 0 <= j < self.rows@.len() implies (
                                #[trigger] self.rows@[j]).wf() by {
                                    if j != i {
                                        assert(self.rows@[j] == old_vec[j]);
                                    }
                                }
                            }
                        } else {
                            stop = true;
                        }
                    }
                },
                None => {},
            }
            if stop {
                stopped = true;
            } else {
                i = i + 1;
            }
            proof {
                assert(self@.rows =~= Seq::new(
                    n as nat,
                    |j: int|
                        if ((lo < j < start) || (start < j < i)) && is_set(orig[j].time_of(key@)) {
                            orig[j].with_time(key@, target)
                        } else {
                            orig[j]
                        },
                ));
            }
        }
        assert(self@.rows =~= conflicts_fixed(orig, key@, start as int));
        assert(previous_time(self@.rows, key@, 0) is None);
        self.update_durations(video_player_index, 0);
    }

    /// Whether setting the split time of player `video_player_index` in row
    /// `row_index` to `time` can be corrected (see `split_time_fits`), as
    /// `set_split` and `apply_time_entry` need.
    pub fn split_fits(&self, video_player_index: u32, row_index: u32, time: u64) -> (b: bool)
        requires
            self.wf(),
        ensures
            b == split_time_fits(self@.rows, player_key(video_player_index), row_index as int, time),
    {
        let key = player_key_text(video_player_index);
        let row = row_index as usize;
        if row >= self.rows.len() {
            return false;
        }
        assert(self.rows@[row as int]@ == self@.rows[row as int]);
        if self.rows[row].get_segment(key.as_str()).is_none() {
            return false;
        }
        self.entry_fits(&key, row, time, None)
    }

    /// Whether a duration typed into row `row_index` for player
    /// `video_player_index` can be taken (see `duration_entry_fits`), as
    /// `apply_duration_entry` needs.
    pub fn duration_fits(&self, video_player_index: u32, row_index: u32, duration: u64) -> (b: bool)
        requires
            self.wf(),
        ensures
            b == duration_entry_fits(self@.rows, player_key(video_player_index), row_index as int, duration),
    {
        let key = player_key_text(video_player_index);
        let row = row_index as usize;
        if row >= self.rows.len() {
            return false;
        }
        assert(self.rows@[row as int]@ == self@.rows[row as int]);
        if self.rows[row].get_segment(key.as_str()).is_none() {
            return false;
        }
        let prev = match self.get_previous_time(video_player_index, row_index) {
            Some(t) => t,
            None => 0,
        };
        match prev.checked_add(duration) {
            None => false,
            Some(time) => {
                proof {
                    let rows = self@.rows;
                    let rows2 = rows.update(row as int, rows[row as int].with_duration(key@, duration));
                    assert(rows2.update(row as int, rows2[row as int].with_time(key@, time)) =~= entry_rows(
                        rows,
                        key@,
                        row as int,
                        time,
                        Some(duration),
                    ));
                }
                self.entry_fits(&key, row, time, Some(duration))
            },
        }
    }

    /// Whether the conflicts can be corrected once the split time of the
    /// player with key `key` in row `row` is `time` (and its duration
    /// `duration`, if given).
    fn entry_fits(&self, key: &String, row: usize, time: u64, duration: Option<u64>) -> (b: bool)
        requires
            self.wf(),
            row < self@.rows.len(),
            self@.rows[row as int].segments.contains_key(key@),
        ensures
            b == corrections_fit(entry_rows(self@.rows, key@, row as int, time, duration), key@, row as int),
    {
        let ghost rows = self@.rows;
        let ghost rr = entry_rows(rows, key@, row as int, time, duration);
        let n = self.rows.len();
        assert(rr[row as int].segments[key@].time.time == time);
        assert(self.rows@[0]@ == rows[0]);
        let base = match self.rows[0].get_segment(key.as_str()) {
            Some(s) => s.offset.time,
            None => {
                return false;
            },
        };
        assert(rr[0].segments.contains_key(key@));
        assert(base == rr[0].segments[key@].offset.time);
        // The last row before `row` whose set time is at most `time`.
        let mut i = row;
        let mut found = false;
        while i > 0 && !found
            invariant
                self.wf(),
                n == self@.rows.len(),
                rows == self@.rows,
                rr == entry_rows(rows, key@, row as int, time, duration),
                i <= row < n,
                found ==> stop_before(rr, key@, row as int, time) == i as int,
                !found ==> stop_before(rr, key@, row as int, time) == stop_before(rr, key@, i as int, time),
            decreases i,
        {
            i = i - 1;
            assert(self.rows@[i as int]@ == rows[i as int]);
            assert(rr[i as int] == rows[i as int]);
            match self.rows[i].get_segment(key.as_str()) {
                Some(s) => {
                    if s.time.time != u64::MAX && s.time.time <= time {
                        found = true;
                    }
                },
                None => {},
            }
        }
        let lo_next: usize = if found {
            i + 1
        } else {
            0
        };
        let ghost lo = stop_before(rr, key@, row as int, time);
        assert(lo == lo_next - 1);
        // The first row after `row` whose set time is at least `time`.
        let mut h = row + 1;
        let mut stop = false;
        while h < n && !stop
            invariant
                self.wf(),
                n == self@.rows.len(),
                rows == self@.rows,
                rr == entry_rows(rows, key@, row as int, time, duration),
                row < h <= n,
                stop ==> stop_after(rr, key@, row + 1, time) == h as int,
                !stop ==> stop_after(rr, key@, row + 1, time) == stop_after(rr, key@, h as int, time),
            decreases (n - h) * 2 + (if stop { 0int } else { 1int }),
        {
            assert(self.rows@[h as int]@ == rows[h as int]);
            assert(rr[h as int] == rows[h as int]);
            let mut at_stop = false;
            match self.rows[h].get_segment(key.as_str()) {
                Some(s) => {
                    if s.time.time != u64::MAX && s.time.time >= time {
                        at_stop = true;
                    }
                },
                None => {},
            }
            if at_stop {
                stop = true;
            } else {
                h = h + 1;
            }
        }
        let hi = h;
        assert(hi == stop_after(rr, key@, row + 1, time));
        let ghost f = conflicts_fixed(rr, key@, row as int);
        // Walk the rows as `conflicts_fixed` leaves them, checking each
        // tracked split time against the one before.
        let mut prev = base;
        let mut j: usize = 0;
        while j < n
            invariant
                self.wf(),
                n == self@.rows.len() == f.len(),
                rows == self@.rows,
                rr == entry_rows(rows, key@, row as int, time, duration),
                f == conflicts_fixed(rr, key@, row as int),
                row < n,
                rows[row as int].segments.contains_key(key@),
                lo == stop_before(rr, key@, row as int, time),
                lo == lo_next - 1,
                hi == stop_after(rr, key@, row + 1, time),
                j <= n,
                base == rr[0].segments[key@].offset.time,
                rr[0].segments.contains_key(key@),
                durations_fit(f, key@, 0, base) == durations_fit(f, key@, j as int, prev),
            decreases n - j,
        {
            assert(self.rows@[j as int]@ == rows[j as int]);
            let mut counted = false;
            let mut t: u64 = 0;
            if j == row {
                let s = self.rows[row].get_segment(key.as_str()).unwrap();
                let d = match duration {
                    Some(d) => Some(d),
                    None => s.duration,
                };
                counted = d.is_some() && time != u64::MAX;
                t = time;
                assert(f[j as int] == rr[j as int]);
            } else {
                assert(rr[j as int] == rows[j as int]);
                match self.rows[j].get_segment(key.as_str()) {
                    Some(s) => {
                        let in_range = (lo_next <= j && j < row) || (row < j && j < hi);
                        t = if in_range && s.time.time != u64::MAX {
                            time
                        } else {
                            s.time.time
                        };
                        counted = s.duration.is_some() && t != u64::MAX;
                        if in_range && s.time.time != u64::MAX {
                            assert(f[j as int] == rr[j as int].with_time(key@, time));
                        } else {
                            assert(f[j as int] == rr[j as int]);
                        }
                    },
                    None => {
                        assert(f[j as int] == rr[j as int]);
                    },
                }
            }
            assert(counted == duration_tracked(f[j as int], key@));
            assert(counted ==> t == f[j as int].segments[key@].time.time);
            if counted {
                if prev > t {
                    assert(!durations_fit(f, key@, j as int, prev));
                    return false;
                }
                prev = t;
            }
            j = j + 1;
        }
        true
    }

    /// Renames row `row_index` to `name`.
    pub fn set_row_name(&mut self, row_index: u32, name: String)
        requires
            old(self).wf(),
            row_index < old(self)@.rows.len(),
        ensures
            final(self).wf(),
            final(self)@ == (SplitTableView {
                rows: old(self)@.rows.update(
                    row_index as int,
                    VideoSegmentView { name: name@, ..old(self)@.rows[row_index as int] },
                ),
                ..old(self)@
            }),
    {
        let ghost old_vec = self.rows@;
        let ghost new_name = name@;
        assert(self.rows@[row_index as int]@ == self@.rows[row_index as int]);
        self.rows[row_index as usize].set_name(name);
        proof {
            assert(self@.rows =~= old(self)@.rows.update(
                row_index as int,
                VideoSegmentView { name: new_name, ..old(self)@.rows[row_index as int] },
            ));
            assert forall|j: int| 0 <= j < self.rows@.len() implies (#[trigger] self.rows@[j]).wf() by {
                if j != row_index {
                    assert(self.rows@[j] == old_vec[j]);
                }
            }
        }
    }

    /// Puts on the seek bar of player `video_player_index` a mark for its
    /// split time in row `row_index` (see `row_mark_id`), linked to that
    /// cell so that `sync_times` keeps it in step with the table.
    pub fn connect_row_to_seekbar(&self, row_index: u32, video_player_index: u32, seek_bar: &mut PlayerSeekBar) -> (id:
        String)
        requires
            self.wf(),
            old(seek_bar).wf(),
            row_index < self@.rows.len(),
            self@.rows[row_index as int].segments.contains_key(player_key(video_player_index)),
        ensures
            id@ == row_mark_id(video_player_index, self@.rows.len()),
            final(seek_bar).wf(),
            final(seek_bar)@ == mark_linked(
                mark_added(
                    old(seek_bar)@,
                    row_mark_id(video_player_index, self@.rows.len()),
                    self@.rows[row_index as int].segments[player_key(video_player_index)].time,
                ),
                row_mark_id(video_player_index, self@.rows.len()),
                self@.rows[row_index as int].id,
                video_player_index,
            ),
    {
        let key = player_key_text(video_player_index);
        let n = self.rows.len();
        assert(self.rows@[row_index as int]@ == self@.rows[row_index as int]);
        let time = self.rows[row_index as usize].get_time_entry_copy(key.as_str());
        let mut id = "video-".to_owned();
        push_decimal(&mut id, video_player_index as u64);
        id.append(", row-");
        push_decimal(&mut id, (n - 1) as u64);
        seek_bar.add_mark(id.clone(), time);
        seek_bar.link_mark(id.clone(), self.rows[row_index as usize].get_segment_id(), video_player_index);
        id
    }

    /// Puts on the seek bar of player `video_player_index` a mark for its
    /// split time in each row, in row order (see `column_mark_id`), each
    /// linked to its cell so that `sync_times` keeps it in step with the table.
    pub fn connect_column_to_seekbar(&self, video_player_index: u32, seek_bar: &mut PlayerSeekBar) -> (ids: Vec<
        String,
    >)
        requires
            self.wf(),
            old(seek_bar).wf(),
            forall|i: int|
                0 <= i < self@.rows.len() ==> (#[trigger] self@.rows[i]).segments.contains_key(
                    player_key(video_player_index),
                ),
        ensures
            ids@.len() == self@.rows.len(),
            forall|i: int| 0 <= i < ids@.len() ==> (#[trigger] ids@[i])@ == column_mark_id(video_player_index, i as nat),
            final(seek_bar).wf(),
            final(seek_bar)@ == player_column_added(
                old(seek_bar)@,
                self@.rows,
                video_player_index,
                self@.rows.len() as int,
            ),
    {
        let key = player_key_text(video_player_index);
        let n = self.rows.len();
        let mut ids: Vec<String> = Vec::new();
        for i in 0..n
            invariant
                self.wf(),
                seek_bar.wf(),
                ids@.len() == i,
                forall|j: int| 0 <= j < i ==> (#[trigger] ids@[j])@ == column_mark_id(video_player_index, j as nat),
                n == self@.rows.len(),
                key@ == player_key(video_player_index),
                forall|j: int|
                    0 <= j < self@.rows.len() ==> (#[trigger] self@.rows[j]).segments.contains_key(
                        player_key(video_player_index),
                    ),
                seek_bar@ == player_column_added(old(seek_bar)@, self@.rows, video_player_index, i as int),
        {
            assert(self.rows@[i as int]@ == self@.rows[i as int]);
            let time = self.rows[i].get_time_entry_copy(key.as_str());
            let mut id = "video-".to_owned();
            push_decimal(&mut id, video_player_index as u64);
            id.append(", seg-");
            push_decimal(&mut id, i as u64);
            seek_bar.add_mark(id.clone(), time);
            seek_bar.link_mark(id.clone(), self.rows[i].get_segment_id(), video_player_index);
            ids.push(id);
        }
        ids
    }

    /// Whether every row has a segment for player `video_player_index`.
    pub fn has_column(&self, video_player_index: u32) -> (b: bool)
        requires
            self.wf(),
        ensures
            b == forall|i: int|
                0 <= i < self@.rows.len() ==> (#[trigger] self@.rows[i]).segments.contains_key(
                    player_key(video_player_index),
                ),
    {
        let key = player_key_text(video_player_index);
        let n = self.rows.len();
        for i in 0..n
            invariant
                self.wf(),
                n == self@.rows.len(),
                key@ == player_key(video_player_index),
                forall|j: int| 0 <= j < i ==> (#[trigger] self@.rows[j]).segments.contains_key(key@),
        {
            assert(self.rows@[i as int]@ == self@.rows[i as int]);
            if self.rows[i].get_segment(key.as_str()).is_none() {
                return false;
            }
        }
        true
    }

    /// Gives every row an empty segment for player `video_player_index`.
    pub fn add_empty_column(&mut self, video_player_index: u32)
        requires
            old(self).wf(),
        ensures
            final(self).wf(),
            final(self)@ == (SplitTableView {
                rows: with_column(old(self)@.rows, player_key(video_player_index)),
                ..old(self)@
            }),
    {
        let key = player_key_text(video_player_index);
        let ghost orig = self@.rows;
        let n = self.rows.len();
        for i in 0..n
            invariant
                self.wf(),
                n == self.rows@.len() == orig.len(),
                key@ == player_key(video_player_index),
                self@.offsets == old(self)@.offsets,
                self@.max_players == old(self)@.max_players,
                self@.rows == Seq::new(
                    n as nat,
                    |j: int|
                        if j < i {
                            VideoSegmentView {
                                segments: orig[j].segments.insert(key@, empty_segment()),
                                ..orig[j]
                            }
                        } else {
                            orig[j]
                        },
                ),
        {
            let ghost old_vec = self.rows@;
            let ghost cur = self@.rows;
            assert(self.rows@[i as int]@ == cur[i as int]);
            self.rows[i].add_empty_segment(key.as_str());
            proof {
                assert(cur[i as int] == orig[i as int]);
                assert(self@.rows =~= cur.update(
                    i as int,
                    VideoSegmentView {
                        segments: orig[i as int].segments.insert(key@, empty_segment()),
                        ..orig[i as int]
                    },
                ));
                assert forall|j: int| 0 <= j < self.rows@.len() implies (#[trigger] self.rows@[j]).wf() by {
                    if j != i {
                        assert(self.rows@[j] == old_vec[j]);
                    }
                }
                assert(self@.rows =~= Seq::new(
                    n as nat,
                    |j: int|
                        if j < i + 1 {
                            VideoSegmentView {
                                segments: orig[j].segments.insert(key@, empty_segment()),
                                ..orig[j]
                            }
                        } else {
                            orig[j]
                        },
                ));
            }
        }
        assert(self@.rows =~= Seq::new(
            n as nat,
            |j: int|
                VideoSegmentView { segments: orig[j].segments.insert(key@, empty_segment()), ..orig[j] },
        ));
    }

    /// Drops the segment of player `video_player_index` from every row.
    pub fn remove_column(&mut self, video_player_index: u32)
        requires
            old(self).wf(),
        ensures
            final(self).wf(),
            final(self)@ == (SplitTableView {
                rows: without_column(old(self)@.rows, player_key(video_player_index)),
                ..old(self)@
            }),
    {
        let key = player_key_text(video_player_index);
        let ghost orig = self@.rows;
        let n = self.rows.len();
        for i in 0..n
            invariant
                self.wf(),
                n == self.rows@.len() == orig.len(),
                key@ == player_key(video_player_index),
                self@.offsets == old(self)@.offsets,
                self@.max_players == old(self)@.max_players,
                self@.rows == Seq::new(
                    n as nat,
                    |j: int|
                        if j < i {
                            VideoSegmentView { segments: orig[j].segments.remove(key@), ..orig[j] }
                        } else {
                            orig[j]
                        },
                ),
        {
            let ghost old_vec = self.rows@;
            let ghost cur = self@.rows;
            assert(self.rows@[i as int]@ == cur[i as int]);
            self.rows[i].remove_segment(key.as_str());
            proof {
                assert(cur[i as int] == orig[i as int]);
                assert(self@.rows =~= cur.update(
                    i as int,
                    VideoSegmentView { segments: orig[i as int].segments.remove(key@), ..orig[i as int] },
                ));
                assert forall|j: int| 0 <= j < self.rows@.len() implies (#[trigger] self.rows@[j]).wf() by {
                    if j != i {
                        assert(self.rows@[j] == old_vec[j]);
                    }
                }
                assert(self@.rows =~= Seq::new(
                    n as nat,
                    |j: int|
                        if j < i + 1 {
                            VideoSegmentView { segments: orig[j].segments.remove(key@), ..orig[j] }
                        } else {
                            orig[j]
                        },
                ));
            }
        }
        assert(self@.rows =~= Seq::new(
            n as nat,
            |j: int| VideoSegmentView { segments: orig[j].segments.remove(key@), ..orig[j] },
        ));
    }
}

/// The set split times of player `key` never decrease from one row to a
/// later one, leaving row `skip` out of the comparison.
pub open spec fn times_ordered_except(rows: Seq<VideoSegmentView>, key: Seq<char>, skip: int) -> bool {
    forall|i: int, j: int|
        0 <= i < j < rows.len() && i != skip && j != skip && is_set(#[trigger] rows[i].time_of(key))
            && is_set(#[trigger] rows[j].time_of(key)) ==> rows[i].time_of(key).unwrap()
            <= rows[j].time_of(key).unwrap()
}

/// The set split times of player `key` never decrease from one row to a later one.
pub open spec fn times_ordered(rows: Seq<VideoSegmentView>, key: Seq<char>) -> bool {
    times_ordered_except(rows, key, -1)
}

proof fn lemma_stop_before_facts(rows: Seq<VideoSegmentView>, key: Seq<char>, i: int, target: u64)
    requires
        0 <= i <= rows.len(),
    ensures
        -1 <= stop_before(rows, key, i, target) < i,
        stop_before(rows, key, i, target) >= 0 ==> is_set(
            rows[stop_before(rows, key, i, target)].time_of(key),
        ) && rows[stop_before(rows, key, i, target)].time_of(key).unwrap() <= target,
        forall|j: int|
            stop_before(rows, key, i, target) < j < i && is_set(#[trigger] rows[j].time_of(key))
                ==> rows[j].time_of(key).unwrap() > target,
    decreases i,
{
    if i > 0 {
        lemma_stop_before_facts(rows, key, i - 1, target);
    }
}

proof fn lemma_stop_after_facts(rows: Seq<VideoSegmentView>, key: Seq<char>, i: int, target: u64)
    requires
        0 <= i <= rows.len(),
    ensures
        i <= stop_after(rows, key, i, target) <= rows.len(),
        stop_after(rows, key, i, target) < rows.len() ==> is_set(
            rows[stop_after(rows, key, i, target)].time_of(key),
        ) && rows[stop_after(rows, key, i, target)].time_of(key).unwrap() >= target,
        forall|j: int|
            i <= j < stop_after(rows, key, i, target) && is_set(#[trigger] rows[j].time_of(key))
                ==> rows[j].time_of(key).unwrap() < target,
    decreases rows.len() - i,
{
    if i < rows.len() {
        lemma_stop_after_facts(rows, key, i + 1, target);
    }
}

/// If the split times of a player were in order apart from the one just
/// changed in row `start`, they are in order once the conflicts around
/// that row are fixed.
pub proof fn lemma_conflicts_fixed_ordered(rows: Seq<VideoSegmentView>, key: Seq<char>, start: int)
    requires
        0 <= start < rows.len(),
        rows[start].segments.contains_key(key),
        times_ordered_except(rows, key, start),
    ensures
        times_ordered(conflicts_fixed(rows, key, start), key),
{
    let target = rows[start].segments[key].time.time;
    let lo = stop_before(rows, key, start, target);
    let hi = stop_after(rows, key, start + 1, target);
    lemma_stop_before_facts(rows, key, start, target);
    lemma_stop_after_facts(rows, key, start + 1, target);
    let f = conflicts_fixed(rows, key, start);
    assert forall|x: int| 0 <= x < rows.len() && is_set(#[trigger] f[x].time_of(key)) implies {
        &&& x <= lo ==> f[x].time_of(key).unwrap() <= target && f[x] == rows[x]
        &&& lo < x < hi ==> f[x].time_of(key).unwrap() == target
        &&& x >= hi ==> f[x].time_of(key).unwrap() >= target && f[x] == rows[x]
    } by {
        if x < lo {
            assert(f[x] == rows[x]);
            assert(rows[x].time_of(key).unwrap() <= rows[lo].time_of(key).unwrap());
        } else if x > hi && hi < rows.len() {
            assert(f[x] == rows[x]);
            assert(rows[hi].time_of(key).unwrap() <= rows[x].time_of(key).unwrap());
        } else if lo < x < hi && x != start {
            if is_set(rows[x].time_of(key)) {
                assert(f[x] == rows[x].with_time(key, target));
            } else {
                assert(f[x] == rows[x]);
            }
        }
    }
    assert forall|i: int, j: int|
        0 <= i < j < f.len() && i != -1 && j != -1 && is_set(#[trigger] f[i].time_of(key)) && is_set(
            #[trigger] f[j].time_of(key),
        ) implies f[i].time_of(key).unwrap() <= f[j].time_of(key).unwrap() by {
        if j <= lo || i >= hi {
            assert(f[i] == rows[i] && f[j] == rows[j]);
            assert(i != start && j != start);
        }
    }
}

/// Refreshing durations leaves every split time as it was.
pub proof fn lemma_refresh_keeps_times(
    rows: Seq<VideoSegmentView>,
    key: Seq<char>,
    i: int,
    prev: u64,
    k: Seq<char>,
)
    ensures
        refresh_durations(rows, key, i, prev).len() == rows.len(),
        forall|j: int|
            0 <= j < rows.len() ==> (#[trigger] refresh_durations(rows, key, i, prev)[j]).time_of(k)
                == rows[j].time_of(k),
    decreases rows.len() - i,
{
    if 0 <= i < rows.len() {
        if duration_tracked(rows[i], key) {
            let t = rows[i].segments[key].time.time;
            let r2 = rows.update(i, rows[i].with_duration(key, (t - prev) as u64));
            lemma_refresh_keeps_times(r2, key, i + 1, t, k);
            assert forall|j: int| 0 <= j < rows.len() implies r2[j].time_of(k) == rows[j].time_of(k) by {
                if j == i {
                    if k == key {
                    } else {
                        assert(r2[j].segments[k] == rows[j].segments[k] || !rows[j].segments.contains_key(k));
                    }
                }
            }
        } else {
            lemma_refresh_keeps_times(rows, key, i + 1, prev, k);
        }
    }
}

/// After `correct_conflicts` on row `start`, the split times of the player
/// are in order, provided they were in order apart from row `start`.
pub proof fn lemma_correct_conflicts_orders(rows: Seq<VideoSegmentView>, key: Seq<char>, start: int)
    requires
        0 <= start < rows.len(),
        rows[start].segments.contains_key(key),
        times_ordered_except(rows, key, start),
    ensures
        times_ordered(conflicts_corrected(rows, key, start), key),
{
    let f = conflicts_fixed(rows, key, start);
    lemma_conflicts_fixed_ordered(rows, key, start);
    let g = refresh_durations(f, key, 0, rows[0].segments[key].offset.time);
    lemma_refresh_keeps_times(f, key, 0, rows[0].segments[key].offset.time, key);
    assert forall|i: int, j: int|
        0 <= i < j < g.len() && i != -1 && j != -1 && is_set(#[trigger] g[i].time_of(key)) && is_set(
            #[trigger] g[j].time_of(key),
        ) implies g[i].time_of(key).unwrap() <= g[j].time_of(key).unwrap() by {
        assert(g[i].time_of(key) == f[i].time_of(key));
        assert(g[j].time_of(key) == f[j].time_of(key));
    }
}

/// Setting a split time keeps the player's split times in order: if they
/// were in order, they are in order once the change is corrected.
pub proof fn lemma_split_keeps_order(rows: Seq<VideoSegmentView>, key: Seq<char>, row: int, time: u64)
    requires
        0 <= row < rows.len(),
        rows[row].segments.contains_key(key),
        times_ordered(rows, key),
    ensures
        times_ordered(split_time_set(rows, key, row, time), key),
{
    let r2 = rows.update(row, rows[row].with_time(key, time));
    assert forall|i: int, j: int|
        0 <= i < j < r2.len() && i != row && j != row && is_set(#[trigger] r2[i].time_of(key))
            && is_set(#[trigger] r2[j].time_of(key)) implies r2[i].time_of(key).unwrap()
        <= r2[j].time_of(key).unwrap() by {
        assert(r2[i] == rows[i] && r2[j] == rows[j]);
    }
    lemma_correct_conflicts_orders(r2, key, row);
}

/// What is written is read back: once the split time of player `key` in
/// row `row` is set to `time` and the conflicts are corrected, the row
/// holds `time` for the player.
pub proof fn lemma_split_sets_time(rows: Seq<VideoSegmentView>, key: Seq<char>, row: int, time: u64)
    requires
        0 <= row < rows.len(),
        rows[row].segments.contains_key(key),
    ensures
        split_time_set(rows, key, row, time)[row].time_of(key) == Some(time),
{
    let r1 = rows.update(row, rows[row].with_time(key, time));
    let f = conflicts_fixed(r1, key, row);
    assert(f[row] == r1[row]);
    lemma_refresh_keeps_times(f, key, 0, r1[0].segments[key].offset.time, key);
    assert(split_time_set(rows, key, row, time)[row].time_of(key) == f[row].time_of(key));
}

/// Where setting the split time of player `key` in row `row` to `time`
/// leaves the other rows, once the conflicts are corrected. A row either
/// keeps its split time or gets exactly `time`. An earlier row whose set
/// time is later than `time`, with only later set times between it and
/// `row`, is pulled back to `time`; a later row whose set time is earlier
/// than `time`, with only earlier set times between, is pushed forward to
/// `time`. A row whose time does not conflict (unset, not later than `time`
/// before `row`, not earlier than `time` after it) keeps it.
pub proof fn lemma_split_moves_conflicts_to_time(
    rows: Seq<VideoSegmentView>,
    key: Seq<char>,
    row: int,
    time: u64,
    j: int,
)
    requires
        0 <= row < rows.len(),
        rows[row].segments.contains_key(key),
        0 <= j < rows.len(),
        j != row,
    ensures
        split_time_set(rows, key, row, time).len() == rows.len(),
        split_time_set(rows, key, row, time)[j].time_of(key) == rows[j].time_of(key)
            || split_time_set(rows, key, row, time)[j].time_of(key) == Some(time),
        j < row && is_set(rows[j].time_of(key)) && rows[j].time_of(key).unwrap() > time && (forall|m: int|
            j < m < row && is_set(#[trigger] rows[m].time_of(key)) ==> rows[m].time_of(key).unwrap() > time)
            ==> split_time_set(rows, key, row, time)[j].time_of(key) == Some(time),
        j > row && is_set(rows[j].time_of(key)) && rows[j].time_of(key).unwrap() < time && (forall|m: int|
            row < m < j && is_set(#[trigger] rows[m].time_of(key)) ==> rows[m].time_of(key).unwrap() < time)
            ==> split_time_set(rows, key, row, time)[j].time_of(key) == Some(time),
        j < row && !(is_set(rows[j].time_of(key)) && rows[j].time_of(key).unwrap() > time)
            ==> split_time_set(rows, key, row, time)[j].time_of(key) == rows[j].time_of(key),
        j > row && !(is_set(rows[j].time_of(key)) && rows[j].time_of(key).unwrap() < time)
            ==> split_time_set(rows, key, row, time)[j].time_of(key) == rows[j].time_of(key),
{
    let r1 = rows.update(row, rows[row].with_time(key, time));
    assert(r1[row].segments[key].time.time == time);
    assert(r1[j] == rows[j]);
    let lo = stop_before(r1, key, row, time);
    let hi = stop_after(r1, key, row + 1, time);
    lemma_stop_before_facts(r1, key, row, time);
    lemma_stop_after_facts(r1, key, row + 1, time);
    let f = conflicts_fixed(r1, key, row);
    lemma_refresh_keeps_times(f, key, 0, r1[0].segments[key].offset.time, key);
    let g = split_time_set(rows, key, row, time);
    assert(g[j].time_of(key) == f[j].time_of(key));
    if ((lo < j < row) || (row < j < hi)) && is_set(r1[j].time_of(key)) {
        assert(f[j] == r1[j].with_time(key, time));
        assert(f[j].time_of(key) == Some(time));
    } else {
        assert(f[j] == r1[j]);
    }
    if j < row && is_set(rows[j].time_of(key)) && rows[j].time_of(key).unwrap() > time && (forall|m: int|
        j < m < row && is_set(#[trigger] rows[m].time_of(key)) ==> rows[m].time_of(key).unwrap() > time) {
        if lo >= j {
            if lo == j {
            } else {
                assert(r1[lo] == rows[lo]);
            }
        }
        assert(lo < j);
    }
    if j > row && is_set(rows[j].time_of(key)) && rows[j].time_of(key).unwrap() < time && (forall|m: int|
        row < m < j && is_set(#[trigger] rows[m].time_of(key)) ==> rows[m].time_of(key).unwrap() < time) {
        if hi <= j {
            if hi == j {
            } else {
                assert(r1[hi] == rows[hi]);
            }
        }
        assert(hi > j);
    }
}

/// Where `correct_conflicts` on row `start` leaves the other rows: each
/// keeps its split time or gets exactly the time `t` of row `start`. An
/// earlier row whose set time is later than `t`, with only later set times
/// between it and `start`, is pulled back to `t`; a later row whose set
/// time is earlier than `t`, with only earlier set times between, is pushed
/// forward to `t`. A row whose time does not conflict keeps it.
pub proof fn lemma_correction_moves_conflicts(rows: Seq<VideoSegmentView>, key: Seq<char>, start: int, j: int)
    requires
        0 <= start < rows.len(),
        rows[start].segments.contains_key(key),
        0 <= j < rows.len(),
        j != start,
    ensures
        ({
            let t = rows[start].segments[key].time.time;
            let g = conflicts_corrected(rows, key, start);
            &&& g.len() == rows.len()
            &&& g[j].time_of(key) == rows[j].time_of(key) || g[j].time_of(key) == Some(t)
            &&& j < start && is_set(rows[j].time_of(key)) && rows[j].time_of(key).unwrap() > t && (forall|m: int|
                j < m < start && is_set(#[trigger] rows[m].time_of(key)) ==> rows[m].time_of(key).unwrap() > t)
                ==> g[j].time_of(key) == Some(t)
            &&& j > start && is_set(rows[j].time_of(key)) && rows[j].time_of(key).unwrap() < t && (forall|m: int|
                start < m < j && is_set(#[trigger] rows[m].time_of(key)) ==> rows[m].time_of(key).unwrap() < t)
                ==> g[j].time_of(key) == Some(t)
            &&& j < start && !(is_set(rows[j].time_of(key)) && rows[j].time_of(key).unwrap() > t)
                ==> g[j].time_of(key) == rows[j].time_of(key)
            &&& j > start && !(is_set(rows[j].time_of(key)) && rows[j].time_of(key).unwrap() < t)
                ==> g[j].time_of(key) == rows[j].time_of(key)
        }),
{
    let t = rows[start].segments[key].time.time;
    let lo = stop_before(rows, key, start, t);
    let hi = stop_after(rows, key, start + 1, t);
    lemma_stop_before_facts(rows, key, start, t);
    lemma_stop_after_facts(rows, key, start + 1, t);
    let f = conflicts_fixed(rows, key, start);
    lemma_refresh_keeps_times(f, key, 0, rows[0].segments[key].offset.time, key);
    let g = conflicts_corrected(rows, key, start);
    assert(g[j].time_of(key) == f[j].time_of(key));
    if ((lo < j < start) || (start < j < hi)) && is_set(rows[j].time_of(key)) {
        assert(f[j] == rows[j].with_time(key, t));
        assert(f[j].time_of(key) == Some(t));
    } else {
        assert(f[j] == rows[j]);
    }
}

} // verus!
