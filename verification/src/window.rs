use vstd::prelude::*;
use crate::helpers::text::{decimal, lemma_decimal_injective};
use crate::widgets::seek_bar::color_picker::{assign_spec, release_spec, ColorPool, ColorPoolView};
use crate::widgets::seek_bar::seek_bar::{
    bar_synced, lemma_synced_mark_shows_row, linked_mark, synced_marks, Mark, SeekBarView,
};
use crate::widgets::seek_bar::shared_seek_bar::{
    clamp_end, column_ids, column_sources_added, grown_timeline, mark_id, row_sources_added, SharedSeekBar,
    SharedSeekBarView,
};
use crate::widgets::split_panel::splits::VideoSegmentView;
use crate::widgets::split_panel::splittable::{
    conflicts_fixed, duration_entry_fits, duration_tracked, new_row, player_column_added, player_key,
    lemma_split_sets_time, player_key_text, previous_time, refresh_durations, row_mark_id, split_time_fits,
    split_time_set,
    with_column, without_column, SplitTable, SplitTableView,
};
use crate::widgets::split_panel::timeentry::TimeEntry;
use crate::widgets::video_player_widget::seek_bar::SeekBar as PlayerSeekBar;

verus! {

/// The most video players the window shows at once.
pub const MAX_VIDEO_PLAYERS: u32 = 6;

/// The colors of the players' marks, in the order they are handed out.
pub open spec fn mark_colors() -> Seq<Seq<char>> {
    seq!["red"@, "blue"@, "green"@, "black"@, "coral"@, "lavender"@]
}

/// The window's pool of mark colors (see `mark_colors`), none in use.
pub fn new_color_pool() -> (p: ColorPool)
    ensures
        p.wf(),
        p@.available == mark_colors(),
        p@.in_use == Map::<Seq<char>, Seq<char>>::empty(),
        p.intact(),
{
    let colors = vec![
        "red".to_owned(),
        "blue".to_owned(),
        "green".to_owned(),
        "black".to_owned(),
        "coral".to_owned(),
        "lavender".to_owned(),
    ];
    let p = ColorPool::new(colors);
    assert(p@.available =~= mark_colors());
    p
}

/// What becomes of a request for a new video player.
#[derive(Debug, PartialEq, Eq)]
pub enum Admission {
    /// The window already shows `MAX_VIDEO_PLAYERS`.
    Full,
    /// The player is shown, with marks in `color`.
    Admitted { color: String },
}

/// Every linked mark of `b` shows the split time that its cell holds in
/// `rows` (see `synced_marks`).
pub open spec fn in_step(b: SeekBarView, rows: Seq<VideoSegmentView>) -> bool {
    b.marks == synced_marks(b, rows)
}

/// Once a seek bar is brought in line with the rows, its marks are in step
/// with them.
pub proof fn lemma_synced_in_step(before: SeekBarView, after: SeekBarView, rows: Seq<VideoSegmentView>)
    requires
        bar_synced(before, after, rows),
    ensures
        in_step(after, rows),
{
    assert forall|k: Seq<char>| after.marks.contains_key(k) implies #[trigger] synced_marks(after, rows)[k]
        == after.marks[k] by {
        if after.sources.contains_key(k) {
            assert(linked_mark(after, rows, k) == linked_mark(before, rows, k));
        }
    }
    assert(synced_marks(after, rows) =~= after.marks);
}

/// A mark in step with the rows shows the split time that the row it is
/// linked to holds for its player, the rows' ids being distinct.
proof fn lemma_in_step_mark_shows_cell(b: SeekBarView, rows: Seq<VideoSegmentView>, k: Seq<char>, i: int)
    requires
        in_step(b, rows),
        forall|x: int, y: int| 0 <= x < y < rows.len() ==> (#[trigger] rows[x]).id != (#[trigger] rows[y]).id,
        b.marks.contains_key(k),
        b.sources.contains_key(k),
        0 <= i < rows.len(),
        rows[i].id == b.sources[k].0,
        rows[i].segments.contains_key(player_key(b.sources[k].1)),
    ensures
        b.marks[k].time == rows[i].segments[player_key(b.sources[k].1)].time,
{
    lemma_synced_mark_shows_row(b, rows, k, i);
}

/// In a window, whatever edits its table has had, a shared mark linked to
/// a row shows the split time that the row holds now for the mark's
/// player, measured from the mark's offset.
pub proof fn lemma_shared_mark_shows_cell(w: WindowView, k: Seq<char>, i: int)
    requires
        w.marks_in_step(),
        w.rows_identified(),
        w.shared.bar.marks.contains_key(k),
        w.shared.bar.sources.contains_key(k),
        0 <= i < w.table.rows.len(),
        w.table.rows[i].id == w.shared.bar.sources[k].0,
        w.table.rows[i].segments.contains_key(player_key(w.shared.bar.sources[k].1)),
    ensures
        w.shared.bar.marks[k].time == w.table.rows[i].segments[player_key(w.shared.bar.sources[k].1)].time,
{
    lemma_in_step_mark_shows_cell(w.shared.bar, w.table.rows, k, i);
}

/// In a window, whatever edits its table has had, a mark on the seek bar of
/// the `j`-th player that is linked to a row shows the split time that the
/// row holds now for that player.
pub proof fn lemma_player_mark_shows_cell(w: WindowView, j: int, k: Seq<char>, i: int)
    requires
        w.marks_in_step(),
        w.rows_identified(),
        0 <= j < w.bars.len(),
        w.bars[j].marks.contains_key(k),
        w.bars[j].sources.contains_key(k),
        0 <= i < w.table.rows.len(),
        w.table.rows[i].id == w.bars[j].sources[k].0,
        w.table.rows[i].segments.contains_key(player_key(w.bars[j].sources[k].1)),
    ensures
        w.bars[j].marks[k].time == w.table.rows[i].segments[player_key(w.bars[j].sources[k].1)].time,
{
    lemma_in_step_mark_shows_cell(w.bars[j], w.table.rows, k, i);
}

/// What is written is read back on the marks: once the split time of
/// player `p` in row `r` is set to `t` through the window (see
/// `Window::apply_time_entry`), a shared mark linked to that cell shows `t`.
pub proof fn lemma_written_time_on_shared_mark(before: WindowView, after: WindowView, p: u32, r: int, t: u64, k: Seq<char>)
    requires
        0 <= r < before.table.rows.len(),
        before.table.rows[r].segments.contains_key(player_key(p)),
        after.table.rows == split_time_set(before.table.rows, player_key(p), r, t),
        after.marks_in_step(),
        after.rows_identified(),
        after.shared.bar.marks.contains_key(k),
        after.shared.bar.sources.contains_key(k),
        after.shared.bar.sources[k] == (after.table.rows[r].id, p),
    ensures
        after.shared.bar.marks[k].time.time == t,
{
    lemma_split_sets_time(before.table.rows, player_key(p), r, t);
    lemma_split_keeps_ids(before.table.rows, player_key(p), r, t);
    lemma_shared_mark_shows_cell(after, k, r);
}

/// While the window shows fewer than `MAX_VIDEO_PLAYERS`, a color is free
/// for the next one; it never shows more.
pub proof fn lemma_free_color_below_max(w: WindowView)
    requires
        w.admits(),
    ensures
        w.players.len() <= MAX_VIDEO_PLAYERS,
        w.players.len() < MAX_VIDEO_PLAYERS ==> w.colors.available.len() > 0,
{
}

/// `a` has as many rows as `b`, each with the id of its row in `b`.
pub open spec fn same_ids(a: Seq<VideoSegmentView>, b: Seq<VideoSegmentView>) -> bool {
    &&& a.len() == b.len()
    &&& forall|i: int| 0 <= i < a.len() ==> (#[trigger] a[i]).id == b[i].id
}

/// `id` is the decimal text of a number below `next`.
pub open spec fn id_below(id: Seq<char>, next: u32) -> bool {
    exists|n: u32| n < next && id == decimal(n as nat)
}

proof fn lemma_same_ids_trans(a: Seq<VideoSegmentView>, b: Seq<VideoSegmentView>, c: Seq<VideoSegmentView>)
    requires
        same_ids(a, b),
        same_ids(b, c),
    ensures
        same_ids(a, c),
{
    assert forall|i: int| 0 <= i < a.len() implies (#[trigger] a[i]).id == c[i].id by {
        assert(a[i].id == b[i].id);
    }
}

/// Refreshing the durations keeps the rows and their ids.
proof fn lemma_refresh_keeps_ids(rows: Seq<VideoSegmentView>, key: Seq<char>, i: int, prev: u64)
    ensures
        same_ids(refresh_durations(rows, key, i, prev), rows),
    decreases rows.len() - i,
{
    if i < 0 || i >= rows.len() {
    } else if duration_tracked(rows[i], key) {
        let t = rows[i].segments[key].time.time;
        let r2 = rows.update(i, rows[i].with_duration(key, (t - prev) as u64));
        lemma_refresh_keeps_ids(r2, key, i + 1, t);
        assert(same_ids(r2, rows));
        lemma_same_ids_trans(refresh_durations(r2, key, i + 1, t), r2, rows);
    } else {
        lemma_refresh_keeps_ids(rows, key, i + 1, prev);
    }
}

/// Setting a split time, conflicts corrected, keeps the rows and their ids.
proof fn lemma_split_keeps_ids(rows: Seq<VideoSegmentView>, key: Seq<char>, row: int, time: u64)
    requires
        0 <= row < rows.len(),
    ensures
        same_ids(split_time_set(rows, key, row, time), rows),
{
    let r1 = rows.update(row, rows[row].with_time(key, time));
    assert(same_ids(r1, rows));
    let r2 = conflicts_fixed(r1, key, row);
    assert(same_ids(r2, r1));
    lemma_refresh_keeps_ids(r2, key, 0, r1[0].segments[key].offset.time);
    lemma_same_ids_trans(split_time_set(rows, key, row, time), r2, r1);
    lemma_same_ids_trans(split_time_set(rows, key, row, time), r1, rows);
}

/// Rows with the same ids as rows that are identified are identified.
proof fn lemma_same_ids_identified(a: WindowView, b: WindowView)
    requires
        a.rows_identified(),
        same_ids(b.table.rows, a.table.rows),
        b.next_row_id == a.next_row_id,
    ensures
        b.rows_identified(),
{
    assert forall|x: int, y: int| 0 <= x < y < b.table.rows.len() implies (#[trigger] b.table.rows[x]).id
        != (#[trigger] b.table.rows[y]).id by {
        assert(b.table.rows[x].id == a.table.rows[x].id);
        assert(b.table.rows[y].id == a.table.rows[y].id);
    }
    assert forall|i: int| 0 <= i < b.table.rows.len() implies id_below(#[trigger] b.table.rows[i].id, b.next_row_id) by {
        assert(b.table.rows[i].id == a.table.rows[i].id);
    }
}

/// The marks of a player are the same in two tables whose rows have the
/// same ids.
proof fn lemma_same_ids_same_column_ids(a: SplitTableView, b: SplitTableView, index: u32)
    requires
        a.rows.len() == b.rows.len(),
        forall|i: int| 0 <= i < a.rows.len() ==> (#[trigger] a.rows[i]).id == b.rows[i].id,
    ensures
        column_ids(a, index) == column_ids(b, index),
{
    assert forall|k: Seq<char>| column_ids(a, index).contains(k) == column_ids(b, index).contains(k) by {
        if column_ids(a, index).contains(k) {
            let i = choose|i: int| 0 <= i < a.rows.len() && k == mark_id(player_key(index), #[trigger] a.rows[i].id);
            assert(b.rows[i].id == a.rows[i].id);
        }
        if column_ids(b, index).contains(k) {
            let i = choose|i: int| 0 <= i < b.rows.len() && k == mark_id(player_key(index), #[trigger] b.rows[i].id);
            assert(a.rows[i].id == b.rows[i].id);
        }
    }
    assert(column_ids(a, index) =~= column_ids(b, index));
}

/// The window: the split table, the shared seek bar, the players it shows
/// (by their index in the table) with the seek bar of each, and the pool
/// of mark colors.
pub struct Window {
    table: SplitTable,
    shared: SharedSeekBar,
    players: Vec<u32>,
    bars: Vec<PlayerSeekBar>,
    colors: ColorPool,
    next_row_id: u32,
}

/// What a `Window` holds.
pub struct WindowView {
    pub table: SplitTableView,
    pub shared: SharedSeekBarView,
    pub players: Seq<u32>,
    pub bars: Seq<SeekBarView>,
    pub colors: ColorPoolView,
    pub next_row_id: u32,
}

impl View for Window {
    type V = WindowView;

    closed spec fn view(&self) -> WindowView {
        WindowView {
            table: self.table@,
            shared: self.shared@,
            players: self.players@,
            bars: self.bars@.map_values(|b: PlayerSeekBar| b@),
            colors: self.colors@,
            next_row_id: self.next_row_id,
        }
    }
}

impl WindowView {
    /// Every linked mark, on the shared seek bar and on each player's own,
    /// shows the split time its cell holds now.
    pub open spec fn marks_in_step(self) -> bool {
        &&& in_step(self.shared.bar, self.table.rows)
        &&& forall|j: int| 0 <= j < self.bars.len() ==> in_step(#[trigger] self.bars[j], self.table.rows)
    }

    /// The window shows at most `MAX_VIDEO_PLAYERS`, and there is a free
    /// color for each place left.
    pub open spec fn admits(self) -> bool {
        &&& self.players.len() <= MAX_VIDEO_PLAYERS
        &&& self.players.len() + self.colors.available.len() == MAX_VIDEO_PLAYERS
    }

    /// Each player is shown once, has a seek bar, an index that the table
    /// has handed out, and a color; no one else holds a color.
    pub open spec fn consistent(self) -> bool {
        &&& self.players.no_duplicates()
        &&& self.bars.len() == self.players.len()
        &&& self.table.offsets.len() <= self.table.max_players
        &&& forall|j: int| 0 <= j < self.players.len() ==> #[trigger] self.players[j] < self.table.offsets.len()
        &&& forall|k: Seq<char>|
            #[trigger] self.colors.in_use.contains_key(k) <==> exists|j: int|
                0 <= j < self.players.len() && k == player_key(#[trigger] self.players[j])
    }

    /// Each row has its own id, the decimal text of a number below
    /// `next_row_id`, which the next new row gets.
    pub open spec fn rows_identified(self) -> bool {
        &&& forall|x: int, y: int|
            0 <= x < y < self.table.rows.len() ==> (#[trigger] self.table.rows[x]).id != (#[trigger] self.table.rows[y]).id
        &&& forall|i: int| 0 <= i < self.table.rows.len() ==> id_below(#[trigger] self.table.rows[i].id, self.next_row_id)
    }

    /// The same window once the marks are brought in line with `rows`: the
    /// players, their colors and the shared flags stay.
    pub open spec fn marks_follow(self, after: WindowView) -> bool {
        &&& after.players == self.players
        &&& after.colors == self.colors
        &&& after.next_row_id == self.next_row_id
        &&& after.bars.len() == self.bars.len()
        &&& bar_synced(self.shared.bar, after.shared.bar, after.table.rows)
        &&& after.shared == (SharedSeekBarView { bar: after.shared.bar, ..self.shared })
        &&& forall|j: int| 0 <= j < self.bars.len() ==> bar_synced(#[trigger] self.bars[j], after.bars[j], after.table.rows)
    }
}

impl Window {
    /// The parts are well formed, the window admits players as it should,
    /// and every mark is in step with the table.
    pub open spec fn wf(&self) -> bool {
        &&& self.parts_wf()
        &&& self@.consistent()
        &&& self@.admits()
        &&& self@.marks_in_step()
        &&& self@.rows_identified()
    }

    /// The table, the seek bars and the pool are well formed, and the pool
    /// has lost no color (see `ColorPool::intact`).
    pub closed spec fn parts_wf(&self) -> bool {
        &&& self.table.wf()
        &&& self.shared.wf()
        &&& self.colors.wf()
        &&& self.colors.intact()
        &&& forall|j: int| 0 <= j < self.bars@.len() ==> (#[trigger] self.bars@[j]).wf()
    }

    /// An empty table, no players, every color free.
    pub fn new() -> (w: Self)
        ensures
            w.wf(),
            w@.players == Seq::<u32>::empty(),
            w@.bars == Seq::<SeekBarView>::empty(),
            w@.colors.available == mark_colors(),
            w@.colors.in_use == Map::<Seq<char>, Seq<char>>::empty(),
            w@.table.rows == Seq::<VideoSegmentView>::empty(),
            w@.table.offsets == Seq::<TimeEntry>::empty(),
            w@.table.max_players == 1,
            w@.shared.bar.marks == Map::<Seq<char>, Mark>::empty(),
            w@.shared.bar.sources == Map::<Seq<char>, (Seq<char>, u32)>::empty(),
            !w@.shared.has_control,
    {
        let w = Window {
            table: SplitTable::new(),
            shared: SharedSeekBar::new(),
            players: Vec::new(),
            bars: Vec::new(),
            colors: new_color_pool(),
            next_row_id: 0,
        };
        assert(w@.bars =~= Seq::<SeekBarView>::empty());
        assert(synced_marks(w@.shared.bar, w@.table.rows) =~= w@.shared.bar.marks);
        w
    }

    /// Brings every mark in line with the table.
    fn sync_all(&mut self)
        requires
            old(self).parts_wf(),
        ensures
            final(self).parts_wf(),
            final(self).colors == old(self).colors,
            final(self).next_row_id == old(self).next_row_id,
            final(self)@.table == old(self)@.table,
            old(self)@.marks_follow(final(self)@),
            final(self)@.marks_in_step(),
    {
        self.shared.sync_times(&self.table);
        proof {
            lemma_synced_in_step(old(self)@.shared.bar, self@.shared.bar, self@.table.rows);
        }
        let n = self.bars.len();
        for j in 0..n
            invariant
                n == self.bars@.len() == old(self).bars@.len(),
                self.table == old(self).table,
                self.colors == old(self).colors,
                self.players == old(self).players,
                self.next_row_id == old(self).next_row_id,
                self.shared.wf(),
                self.table.wf(),
                self.colors.wf(),
                self.colors.intact(),
                bar_synced(old(self)@.shared.bar, self@.shared.bar, self@.table.rows),
                self@.shared == (SharedSeekBarView { bar: self@.shared.bar, ..old(self)@.shared }),
                in_step(self@.shared.bar, self@.table.rows),
                forall|m: int| 0 <= m < n ==> (#[trigger] self.bars@[m]).wf(),
                forall|m: int| j <= m < n ==> #[trigger] self.bars@[m] == old(self).bars@[m],
                forall|m: int|
                    0 <= m < j ==> bar_synced(old(self).bars@[m]@, #[trigger] self.bars@[m]@, self@.table.rows),
                forall|m: int| 0 <= m < j ==> in_step(#[trigger] self.bars@[m]@, self@.table.rows),
        {
            self.bars[j].sync_times(&self.table);
            proof {
                lemma_synced_in_step(old(self).bars@[j as int]@, self.bars@[j as int]@, self@.table.rows);
            }
        }
    }

    /// Sets the split time of player `video_player_index` in row `row_index`
    /// to `time`, corrects the conflicts this makes, and brings the marks in
    /// line (see `SplitTable::apply_time_entry`).
    pub fn apply_time_entry(&mut self, video_player_index: u32, row_index: u32, time: u64)
        requires
            old(self).wf(),
            split_time_fits(old(self)@.table.rows, player_key(video_player_index), row_index as int, time),
        ensures
            final(self).wf(),
            final(self)@.table == (SplitTableView {
                rows: split_time_set(old(self)@.table.rows, player_key(video_player_index), row_index as int, time),
                ..old(self)@.table
            }),
            old(self)@.marks_follow(final(self)@),
    {
        self.table.apply_time_entry(video_player_index, row_index, time);
        self.sync_all();
        proof {
            lemma_split_keeps_ids(old(self)@.table.rows, player_key(video_player_index), row_index as int, time);
            lemma_same_ids_identified(old(self)@, self@);
        }
    }

    /// Sets the split time of player `video_player_index` in the selected
    /// row to `video_player_position`, as `SplitTable::set_split` does, and
    /// brings the marks in line; fails when no row is selected.
    pub fn set_split(&mut self, video_player_index: u32, video_player_position: u64, selected_row: u32) -> (r:
        Result<(), String>)
        requires
            old(self).wf(),
            selected_row < old(self)@.table.rows.len() ==> split_time_fits(
                old(self)@.table.rows,
                player_key(video_player_index),
                selected_row as int,
                video_player_position,
            ),
        ensures
            final(self).wf(),
            match r {
                Ok(()) => selected_row < old(self)@.table.rows.len() && final(self)@.table == (SplitTableView {
                    rows: split_time_set(
                        old(self)@.table.rows,
                        player_key(video_player_index),
                        selected_row as int,
                        video_player_position,
                    ),
                    ..old(self)@.table
                }),
                Err(e) => selected_row >= old(self)@.table.rows.len() && final(self)@.table == old(self)@.table
                    && e@ == "Segment not selected"@,
            },
            old(self)@.marks_follow(final(self)@),
    {
        let r = self.table.set_split(video_player_index, video_player_position, selected_row);
        self.sync_all();
        proof {
            if selected_row < old(self)@.table.rows.len() {
                lemma_split_keeps_ids(
                    old(self)@.table.rows,
                    player_key(video_player_index),
                    selected_row as int,
                    video_player_position,
                );
            }
            lemma_same_ids_identified(old(self)@, self@);
        }
        r
    }

    /// Sets the duration of player `video_player_index` in row `row_index`
    /// and moves the split time to match, as `SplitTable::apply_duration_entry`
    /// does, and brings the marks in line.
    pub fn apply_duration_entry(&mut self, video_player_index: u32, row_index: u32, duration: u64)
        requires
            old(self).wf(),
            duration_entry_fits(old(self)@.table.rows, player_key(video_player_index), row_index as int, duration),
        ensures
            final(self).wf(),
            final(self)@.table == (SplitTableView {
                rows: ({
                    let key = player_key(video_player_index);
                    let prev = match previous_time(old(self)@.table.rows, key, row_index as int) {
                        Some(t) => t,
                        None => 0,
                    };
                    split_time_set(
                        old(self)@.table.rows.update(
                            row_index as int,
                            old(self)@.table.rows[row_index as int].with_duration(key, duration),
                        ),
                        key,
                        row_index as int,
                        (prev + duration) as u64,
                    )
                }),
                ..old(self)@.table
            }),
            old(self)@.marks_follow(final(self)@),
    {
        self.table.apply_duration_entry(video_player_index, row_index, duration);
        self.sync_all();
        proof {
            let key = player_key(video_player_index);
            let rows = old(self)@.table.rows;
            let rows1 = rows.update(row_index as int, rows[row_index as int].with_duration(key, duration));
            let prev = match previous_time(rows, key, row_index as int) {
                Some(t) => t,
                None => 0,
            };
            assert(same_ids(rows1, rows));
            lemma_split_keeps_ids(rows1, key, row_index as int, (prev + duration) as u64);
            lemma_same_ids_trans(self@.table.rows, rows1, rows);
            lemma_same_ids_identified(old(self)@, self@);
        }
    }

    /// Renames row `row_index`.
    pub fn set_row_name(&mut self, row_index: u32, name: String)
        requires
            old(self).wf(),
            row_index < old(self)@.table.rows.len(),
        ensures
            final(self).wf(),
            final(self)@.table == (SplitTableView {
                rows: old(self)@.table.rows.update(
                    row_index as int,
                    VideoSegmentView { name: name@, ..old(self)@.table.rows[row_index as int] },
                ),
                ..old(self)@.table
            }),
            old(self)@.marks_follow(final(self)@),
    {
        self.table.set_row_name(row_index, name);
        self.sync_all();
    }

    /// The start time offset of player `video_player_index` has changed in
    /// the table: its shared marks are measured from the new offset, and
    /// every mark is brought in line.
    fn offset_moved(&mut self, video_player_index: u32)
        requires
            old(self).parts_wf(),
            video_player_index < old(self)@.table.offsets.len(),
        ensures
            final(self).parts_wf(),
            final(self).colors == old(self).colors,
            final(self).next_row_id == old(self).next_row_id,
            final(self)@.table == old(self)@.table,
            final(self)@.players == old(self)@.players,
            final(self)@.colors == old(self)@.colors,
            final(self)@.bars.len() == old(self)@.bars.len(),
            forall|j: int|
                0 <= j < old(self)@.bars.len() ==> bar_synced(
                    #[trigger] old(self)@.bars[j],
                    final(self)@.bars[j],
                    final(self)@.table.rows,
                ),
            final(self)@.shared == (SharedSeekBarView { bar: final(self)@.shared.bar, ..old(self)@.shared }),
            final(self)@.shared.bar.sources == old(self)@.shared.bar.sources,
            final(self)@.shared.bar.marks.dom() == old(self)@.shared.bar.marks.dom(),
            forall|k: Seq<char>|
                #[trigger] final(self)@.shared.bar.marks.contains_key(k) ==> final(self)@.shared.bar.marks[k].offset
                    == if column_ids(old(self)@.table, video_player_index).contains(k) {
                    old(self)@.table.offsets[video_player_index as int]
                } else {
                    old(self)@.shared.bar.marks[k].offset
                },
            final(self)@.marks_in_step(),
    {
        self.shared.offset_changed(&self.table, video_player_index);
        let ghost mid = self@.shared.bar;
        self.sync_all();
        proof {
            assert(self@.shared.bar.marks.dom() =~= old(self)@.shared.bar.marks.dom());
            assert forall|k: Seq<char>| #[trigger] self@.shared.bar.marks.contains_key(k) implies self@.shared.bar.marks[k].offset
                == mid.marks[k].offset by {
                if mid.sources.contains_key(k) {
                    assert(self@.shared.bar.marks[k] == linked_mark(mid, self@.table.rows, k));
                }
            }
        }
    }

    /// Records `video_player_position` as the start time offset of player
    /// `video_player_index`, as `SplitTable::set_start_time_offset` does;
    /// the player's shared marks are measured from it, and every mark is
    /// brought in line.
    pub fn set_start_time_offset(&mut self, video_player_index: u32, video_player_position: u64) -> (r:
        Result<(), String>)
        requires
            old(self).wf(),
            video_player_index < old(self)@.table.offsets.len(),
            forall|i: int|
                0 <= i < old(self)@.table.rows.len() ==> (#[trigger] old(self)@.table.rows[i]).segments.contains_key(
                    player_key(video_player_index),
                ),
        ensures
            r is Ok,
            final(self).wf(),
            final(self)@.table == (SplitTableView {
                rows: Seq::new(
                    old(self)@.table.rows.len(),
                    |i: int|
                        if i == 0 {
                            old(self)@.table.rows[0].with_duration(
                                player_key(video_player_index),
                                old(self)@.table.rows[0].segments[player_key(video_player_index)].time.time,
                            ).with_offset(player_key(video_player_index), video_player_position)
                        } else {
                            old(self)@.table.rows[i].with_offset(player_key(video_player_index), video_player_position)
                        },
                ),
                offsets: old(self)@.table.offsets.update(
                    video_player_index as int,
                    old(self)@.table.offsets[video_player_index as int].after_set(video_player_position),
                ),
                ..old(self)@.table
            }),
            final(self)@.players == old(self)@.players,
            final(self)@.colors == old(self)@.colors,
            final(self)@.bars.len() == old(self)@.bars.len(),
            forall|j: int|
                0 <= j < old(self)@.bars.len() ==> bar_synced(
                    #[trigger] old(self)@.bars[j],
                    final(self)@.bars[j],
                    final(self)@.table.rows,
                ),
            final(self)@.shared == (SharedSeekBarView { bar: final(self)@.shared.bar, ..old(self)@.shared }),
            final(self)@.shared.bar.sources == old(self)@.shared.bar.sources,
            final(self)@.shared.bar.marks.dom() == old(self)@.shared.bar.marks.dom(),
            forall|k: Seq<char>|
                #[trigger] final(self)@.shared.bar.marks.contains_key(k) ==> final(self)@.shared.bar.marks[k].offset
                    == if column_ids(final(self)@.table, video_player_index).contains(k) {
                    final(self)@.table.offsets[video_player_index as int]
                } else {
                    old(self)@.shared.bar.marks[k].offset
                },
    {
        let r = self.table.set_start_time_offset(video_player_index, video_player_position);
        proof {
            lemma_same_ids_same_column_ids(old(self)@.table, self@.table, video_player_index);
        }
        self.offset_moved(video_player_index);
        proof {
            assert(same_ids(self@.table.rows, old(self)@.table.rows));
            lemma_same_ids_identified(old(self)@, self@);
        }
        r
    }

    /// Sets the start time offset of player `video_player_index` to `time`,
    /// as `SplitTable::apply_start_time_offset_entry` does; the player's
    /// shared marks are measured from it, and every mark is brought in line.
    pub fn apply_start_time_offset_entry(&mut self, video_player_index: u32, time: u64)
        requires
            old(self).wf(),
            video_player_index < old(self)@.table.offsets.len(),
            forall|i: int|
                0 <= i < old(self)@.table.rows.len() ==> (#[trigger] old(self)@.table.rows[i]).segments.contains_key(
                    player_key(video_player_index),
                ),
        ensures
            final(self).wf(),
            final(self)@.table == (SplitTableView {
                rows: Seq::new(
                    old(self)@.table.rows.len(),
                    |i: int| old(self)@.table.rows[i].with_offset(player_key(video_player_index), time),
                ),
                offsets: old(self)@.table.offsets.update(
                    video_player_index as int,
                    old(self)@.table.offsets[video_player_index as int].after_set(time),
                ),
                ..old(self)@.table
            }),
            final(self)@.players == old(self)@.players,
            final(self)@.colors == old(self)@.colors,
            final(self)@.bars.len() == old(self)@.bars.len(),
            forall|j: int|
                0 <= j < old(self)@.bars.len() ==> bar_synced(
                    #[trigger] old(self)@.bars[j],
                    final(self)@.bars[j],
                    final(self)@.table.rows,
                ),
            final(self)@.shared == (SharedSeekBarView { bar: final(self)@.shared.bar, ..old(self)@.shared }),
            final(self)@.shared.bar.sources == old(self)@.shared.bar.sources,
            final(self)@.shared.bar.marks.dom() == old(self)@.shared.bar.marks.dom(),
            forall|k: Seq<char>|
                #[trigger] final(self)@.shared.bar.marks.contains_key(k) ==> final(self)@.shared.bar.marks[k].offset
                    == if column_ids(final(self)@.table, video_player_index).contains(k) {
                    final(self)@.table.offsets[video_player_index as int]
                } else {
                    old(self)@.shared.bar.marks[k].offset
                },
    {
        self.table.apply_start_time_offset_entry(video_player_index, time);
        proof {
            lemma_same_ids_same_column_ids(old(self)@.table, self@.table, video_player_index);
        }
        self.offset_moved(video_player_index);
        proof {
            assert(same_ids(self@.table.rows, old(self)@.table.rows));
            lemma_same_ids_identified(old(self)@, self@);
        }
    }
    /// A new video player: refused once the window shows
    /// `MAX_VIDEO_PLAYERS` (nothing changes). Otherwise the player gets the
    /// next index of the table and the first free color (there always is
    /// one), a start time offset of zero, an empty segment in every row, and
    /// a mark for every row on the shared seek bar and on its own seek bar.
    pub fn add_player(&mut self) -> (a: Admission)
        requires
            old(self).wf(),
            old(self)@.table.offsets.len() < u32::MAX,
        ensures
            final(self).wf(),
            old(self)@.players.len() == MAX_VIDEO_PLAYERS ==> a == Admission::Full && final(self)@ == old(self)@,
            old(self)@.players.len() < MAX_VIDEO_PLAYERS ==> {
                let index = old(self)@.table.offsets.len() as u32;
                let key = player_key(index);
                let n = old(self)@.bars.len();
                &&& a matches Admission::Admitted { color } && color@ == old(self)@.colors.available[0]
                &&& final(self)@.players == old(self)@.players.push(index)
                &&& final(self)@.colors == assign_spec(old(self)@.colors, key).0
                &&& final(self)@.table == (SplitTableView {
                    rows: with_column(old(self)@.table.rows, key),
                    offsets: old(self)@.table.offsets.push(TimeEntry::new_spec(0)),
                    max_players: (index + 1) as u32,
                })
                &&& final(self)@.shared == (SharedSeekBarView { bar: final(self)@.shared.bar, ..old(self)@.shared })
                &&& final(self)@.shared.bar.sources == column_sources_added(
                    old(self)@.shared.bar.sources,
                    final(self)@.table,
                    index,
                    final(self)@.table.rows.len() as int,
                )
                &&& final(self)@.bars.len() == n + 1
                &&& forall|j: int| 0 <= j < n ==> bar_synced(
                    #[trigger] old(self)@.bars[j],
                    final(self)@.bars[j],
                    final(self)@.table.rows,
                )
                &&& final(self)@.bars[n as int].sources == player_column_added(
                    SeekBarView {
                        marks: Map::empty(),
                        sources: Map::empty(),
                        timeline_length: 0,
                        dirty: false,
                        auto_length: false,
                    },
                    final(self)@.table.rows,
                    index,
                    final(self)@.table.rows.len() as int,
                ).sources
            },
    {
        if self.players.len() >= MAX_VIDEO_PLAYERS as usize {
            return Admission::Full;
        }
        let index = self.table.get_start_time_offset_liststore().len() as u32;
        let key = player_key_text(index);
        proof {
            if old(self)@.colors.in_use.contains_key(key@) {
                let j = choose|j: int| 0 <= j < old(self)@.players.len() && key@ == player_key(#[trigger] old(self)@.players[j]);
                lemma_decimal_injective(index as nat, old(self)@.players[j] as nat);
            }
        }
        let color = self.colors.assign_color(key.as_str()).unwrap();
        self.table.set_max_number_of_video_players(index + 1);
        self.table.add_start_time_offset_row();
        self.table.add_empty_column(index);
        let mut bar = PlayerSeekBar::new(0, false);
        self.table.connect_column_to_seekbar(index, &mut bar);
        self.shared.connect_column(&self.table, index);
        let ghost old_players = self@.players;
        self.players.push(index);
        let ghost old_bars = self.bars@;
        self.bars.push(bar);
        proof {
            assert(self@.bars =~= old(self)@.bars.push(bar@));
            assert forall|j: int| 0 <= j < self.bars@.len() implies (#[trigger] self.bars@[j]).wf() by {
                if j < old_bars.len() {
                    assert(self.bars@[j] == old_bars[j]);
                }
            }
            assert forall|k: Seq<char>|
                #[trigger] self@.colors.in_use.contains_key(k) <==> exists|j: int|
                    0 <= j < self@.players.len() && k == player_key(#[trigger] self@.players[j]) by {
                if k == key@ {
                    assert(self@.players[old_players.len() as int] == index);
                } else if old(self)@.colors.in_use.contains_key(k) {
                    let j = choose|j: int| 0 <= j < old_players.len() && k == player_key(#[trigger] old_players[j]);
                    assert(self@.players[j] == old_players[j]);
                } else if exists|j: int| 0 <= j < self@.players.len() && k == player_key(#[trigger] self@.players[j]) {
                    let j = choose|j: int| 0 <= j < self@.players.len() && k == player_key(#[trigger] self@.players[j]);
                    if j < old_players.len() {
                        assert(old_players[j] == self@.players[j]);
                    }
                }
            }
            assert forall|x: int, y: int| 0 <= x < y < self@.players.len() implies self@.players[x] != self@.players[y] by {
                if y == old_players.len() {
                    assert(old_players[x] < index);
                } else {
                    assert(old_players[x] != old_players[y]);
                }
            }
        }
        let ghost mid = self@;
        self.sync_all();
        proof {
            let nb = old(self)@.bars.len();
            assert(self@.players == old(self)@.players.push(index));
            assert(self@.colors == assign_spec(old(self)@.colors, key@).0);
            assert(self@.table == (SplitTableView {
                rows: with_column(old(self)@.table.rows, key@),
                offsets: old(self)@.table.offsets.push(TimeEntry::new_spec(0)),
                max_players: (index + 1) as u32,
            }));
            assert(self@.bars.len() == nb + 1);
            assert(bar_synced(mid.bars[nb as int], self@.bars[nb as int], self@.table.rows));
            assert(mid.bars[nb as int] == bar@);
            assert forall|j: int| 0 <= j < nb implies bar_synced(
                #[trigger] old(self)@.bars[j],
                self@.bars[j],
                self@.table.rows,
            ) by {
                assert(bar_synced(mid.bars[j], self@.bars[j], self@.table.rows));
                assert(mid.bars[j] == old(self)@.bars[j]);
            }
        }
        Admission::Admitted { color }
    }

    /// Takes player `video_player_index` out of the window, if it is shown:
    /// its segments leave every row, its shared marks leave the shared seek
    /// bar, its color goes back to the pool, and its seek bar goes.
    pub fn remove_player(&mut self, video_player_index: u32) -> (removed: bool)
        requires
            old(self).wf(),
        ensures
            final(self).wf(),
            removed == old(self)@.players.contains(video_player_index),
            !removed ==> final(self)@ == old(self)@,
            removed ==> exists|j: int|
                0 <= j < old(self)@.players.len() && #[trigger] old(self)@.players[j] == video_player_index && {
                    let key = player_key(video_player_index);
                    &&& final(self)@.players == old(self)@.players.remove(j)
                    &&& final(self)@.colors == release_spec(old(self)@.colors, key)
                    &&& final(self)@.table == (SplitTableView {
                        rows: without_column(old(self)@.table.rows, key),
                        ..old(self)@.table
                    })
                    &&& final(self)@.shared == (SharedSeekBarView { bar: final(self)@.shared.bar, ..old(self)@.shared })
                    &&& final(self)@.shared.bar.sources == old(self)@.shared.bar.sources.remove_keys(
                        column_ids(old(self)@.table, video_player_index),
                    )
                    &&& final(self)@.shared.bar.marks.dom() == old(self)@.shared.bar.marks.dom().difference(
                        column_ids(old(self)@.table, video_player_index),
                    )
                    &&& final(self)@.bars.len() == old(self)@.bars.len() - 1
                    &&& forall|m: int|
                        0 <= m < final(self)@.bars.len() ==> bar_synced(
                            #[trigger] old(self)@.bars.remove(j)[m],
                            final(self)@.bars[m],
                            final(self)@.table.rows,
                        )
                },
    {
        let n = self.players.len();
        let mut pos: usize = 0;
        while pos < n
            invariant
                n == self.players@.len(),
                self == old(self),
                pos <= n,
                forall|m: int| 0 <= m < pos ==> self.players@[m] != video_player_index,
            ensures
                n == self.players@.len(),
                self == old(self),
                pos <= n,
                forall|m: int| 0 <= m < pos ==> self.players@[m] != video_player_index,
                pos < n ==> self.players@[pos as int] == video_player_index,
            decreases n - pos,
        {
            if self.players[pos] == video_player_index {
                break;
            }
            pos = pos + 1;
        }
        if pos == n {
            return false;
        }
        assert(old(self)@.players[pos as int] == video_player_index);
        self.table.remove_column(video_player_index);
        proof {
            lemma_same_ids_same_column_ids(old(self)@.table, self@.table, video_player_index);
        }
        self.shared.remove_marks(&self.table, video_player_index);
        let key = player_key_text(video_player_index);
        self.colors.release_color(key.as_str());
        let ghost old_players = self@.players;
        self.players.remove(pos);
        let ghost old_bars = self.bars@;
        self.bars.remove(pos);
        proof {
            assert(self@.bars =~= old(self)@.bars.remove(pos as int));
            assert forall|j: int| 0 <= j < self.bars@.len() implies (#[trigger] self.bars@[j]).wf() by {
                if j < pos {
                    assert(self.bars@[j] == old_bars[j]);
                } else {
                    assert(self.bars@[j] == old_bars[j + 1]);
                }
            }
            assert forall|k: Seq<char>|
                #[trigger] self@.colors.in_use.contains_key(k) <==> exists|j: int|
                    0 <= j < self@.players.len() && k == player_key(#[trigger] self@.players[j]) by {
                if self@.colors.in_use.contains_key(k) {
                    let j = choose|j: int| 0 <= j < old_players.len() && k == player_key(#[trigger] old_players[j]);
                    if j == pos {
                        assert(k == key@);
                    } else if j < pos {
                        assert(self@.players[j] == old_players[j]);
                    } else {
                        assert(self@.players[j - 1] == old_players[j]);
                    }
                }
                if exists|j: int| 0 <= j < self@.players.len() && k == player_key(#[trigger] self@.players[j]) {
                    let j = choose|j: int| 0 <= j < self@.players.len() && k == player_key(#[trigger] self@.players[j]);
                    let jj = if j < pos { j } else { j + 1 };
                    assert(old_players[jj] == self@.players[j]);
                    assert(old_players[jj] != video_player_index);
                    if k == key@ {
                        lemma_decimal_injective(video_player_index as nat, old_players[jj] as nat);
                    }
                    assert(old(self)@.colors.in_use.contains_key(k));
                }
            }
            assert forall|x: int, y: int| 0 <= x < y < self@.players.len() implies self@.players[x] != self@.players[y] by {
                let xx = if x < pos { x } else { x + 1 };
                let yy = if y < pos { y } else { y + 1 };
                assert(old_players[xx] != old_players[yy]);
            }
            assert(self@.shared.bar.marks.dom() =~= old(self)@.shared.bar.marks.dom().difference(
                column_ids(old(self)@.table, video_player_index),
            ));
        }
        self.sync_all();
        proof {
            assert(self@.shared.bar.marks.dom() =~= old(self)@.shared.bar.marks.dom().difference(
                column_ids(old(self)@.table, video_player_index),
            ));
        }
        true
    }

    /// Inserts a new row at `insert_index` (see `SplitTable::insert_empty_row`),
    /// with the next row id, which it returns, and puts its marks on the
    /// shared seek bar, for each player in turn, and on each player's own
    /// seek bar, each linked to its cell.
    pub fn insert_row(&mut self, insert_index: u32) -> (segment_id: u32)
        requires
            old(self).wf(),
            insert_index <= old(self)@.table.rows.len(),
            old(self)@.next_row_id < u32::MAX,
        ensures
            final(self).wf(),
            segment_id == old(self)@.next_row_id,
            final(self)@.next_row_id == old(self)@.next_row_id + 1,
            final(self)@.table == (SplitTableView {
                rows: old(self)@.table.rows.insert(
                    insert_index as int,
                    new_row(segment_id, old(self)@.table.max_players),
                ),
                ..old(self)@.table
            }),
            final(self)@.players == old(self)@.players,
            final(self)@.colors == old(self)@.colors,
            final(self)@.shared == (SharedSeekBarView { bar: final(self)@.shared.bar, ..old(self)@.shared }),
            final(self)@.shared.bar.sources == row_sources_added(
                old(self)@.shared.bar.sources,
                final(self)@.table,
                insert_index as int,
                old(self)@.players,
                old(self)@.players.len() as int,
            ),
            final(self)@.bars.len() == old(self)@.bars.len(),
            forall|j: int|
                0 <= j < old(self)@.bars.len() ==> (#[trigger] final(self)@.bars[j]).sources == old(self)@.bars[j].sources.insert(
                    row_mark_id(old(self)@.players[j], final(self)@.table.rows.len()),
                    (final(self)@.table.rows[insert_index as int].id, old(self)@.players[j]),
                ),
    {
        let segment_id = self.next_row_id;
        self.table.insert_empty_row(insert_index, segment_id);
        self.next_row_id = segment_id + 1;
        proof {
            let rows = self@.table.rows;
            let old_rows = old(self)@.table.rows;
            let ix = insert_index as int;
            assert forall|i: int| 0 <= i < rows.len() && i != ix implies (#[trigger] rows[i]).id != rows[ix].id
                && id_below(rows[i].id, self.next_row_id) by {
                let oi = if i < ix { i } else { i - 1 };
                assert(rows[i] == old_rows[oi]);
                assert(id_below(old_rows[oi].id, old(self).next_row_id));
                let n = choose|n: u32| n < old(self).next_row_id && old_rows[oi].id == decimal(n as nat);
                if rows[i].id == rows[ix].id {
                    lemma_decimal_injective(n as nat, segment_id as nat);
                }
            }
            assert(id_below(rows[ix].id, self.next_row_id));
            assert forall|x: int, y: int| 0 <= x < y < rows.len() implies (#[trigger] rows[x]).id != (#[trigger] rows[y]).id by {
                if x != ix && y != ix {
                    let ox = if x < ix { x } else { x - 1 };
                    let oy = if y < ix { y } else { y - 1 };
                    assert(rows[x] == old_rows[ox]);
                    assert(rows[y] == old_rows[oy]);
                }
            }
            assert(self@.rows_identified());
        }
        proof {
            assert forall|i: int| 0 <= i < self@.players.len() implies self@.table.rows[insert_index as int].segments.contains_key(
                player_key(#[trigger] self@.players[i])) by {
                let p = self@.players[i];
                assert(p < self@.table.max_players && player_key(p) == player_key(p));
            }
        }
        self.shared.connect_row(&self.table, insert_index, &self.players);
        let ghost table0 = self.table;
        let ghost shared0 = self.shared;
        let n = self.bars.len();
        for j in 0..n
            invariant
                n == self.bars@.len() == old(self).bars@.len() == self.players@.len(),
                self.players == old(self).players,
                self.table == table0,
                self.shared == shared0,
                self.colors == old(self).colors,
                self.next_row_id == segment_id + 1,
                self@.rows_identified(),
                self.table.wf(),
                self.shared.wf(),
                self.colors.wf(),
                self.colors.intact(),
                self@.table.rows.len() == old(self)@.table.rows.len() + 1,
                insert_index < self@.table.rows.len(),
                forall|i: int| 0 <= i < self@.players.len() ==> self@.table.rows[insert_index as int].segments.contains_key(
                    player_key(#[trigger] self@.players[i])),
                forall|m: int| 0 <= m < n ==> (#[trigger] self.bars@[m]).wf(),
                forall|m: int| j <= m < n ==> #[trigger] self.bars@[m] == old(self).bars@[m],
                forall|m: int|
                    0 <= m < j ==> (#[trigger] self.bars@[m])@.sources == old(self).bars@[m]@.sources.insert(
                        row_mark_id(old(self)@.players[m], self@.table.rows.len()),
                        (self@.table.rows[insert_index as int].id, old(self)@.players[m]),
                    ),
        {
            let p = self.players[j];
            assert(self@.table.rows[insert_index as int].segments.contains_key(player_key(self@.players[j as int])));
            self.table.connect_row_to_seekbar(insert_index, p, &mut self.bars[j]);
        }
        let ghost mid = self@;
        self.sync_all();
        proof {
            assert forall|j: int| 0 <= j < old(self)@.bars.len() implies (#[trigger] self@.bars[j]).sources
                == mid.bars[j].sources by {
                assert(bar_synced(mid.bars[j], self@.bars[j], self@.table.rows));
                assert(old(self)@.bars[j] == old(self).bars@[j]@);
            }
        }
        segment_id
    }
    /// The split table.
    pub fn table(&self) -> (t: &SplitTable)
        ensures
            t@ == self@.table,
            self.wf() ==> t.wf(),
    {
        &self.table
    }

    /// The shared seek bar.
    pub fn shared(&self) -> (b: &SharedSeekBar)
        ensures
            b@ == self@.shared,
            self.wf() ==> b.wf(),
    {
        &self.shared
    }

    /// The id the next new row gets.
    pub fn next_row_id(&self) -> (id: u32)
        ensures
            id == self@.next_row_id,
    {
        self.next_row_id
    }

    /// The index of each shown player, in the order they were added.
    pub fn players(&self) -> (p: &Vec<u32>)
        ensures
            p@ == self@.players,
    {
        &self.players
    }

    /// The seek bar of the `j`-th shown player.
    pub fn bar(&self, j: usize) -> (b: &PlayerSeekBar)
        requires
            j < self@.bars.len(),
        ensures
            b@ == self@.bars[j as int],
            self.wf() ==> b.wf(),
    {
        &self.bars[j]
    }

    /// The pool of mark colors.
    pub fn colors(&self) -> (p: &ColorPool)
        ensures
            p@ == self@.colors,
            self.wf() ==> p.wf() && p.intact(),
    {
        &self.colors
    }

    /// Sets the timeline length of the `j`-th player's seek bar (the
    /// length of its video).
    pub fn set_player_timeline_length(&mut self, j: usize, timeline_length: u64)
        requires
            old(self).wf(),
            j < old(self)@.bars.len(),
        ensures
            final(self).wf(),
            final(self)@ == (WindowView {
                bars: old(self)@.bars.update(
                    j as int,
                    SeekBarView { timeline_length, ..old(self)@.bars[j as int] },
                ),
                ..old(self)@
            }),
    {
        self.bars[j].set_timeline_length(timeline_length);
        proof {
            assert(self@.bars =~= old(self)@.bars.update(
                j as int,
                SeekBarView { timeline_length, ..old(self)@.bars[j as int] },
            ));
            assert forall|m: int| 0 <= m < self.bars@.len() implies (#[trigger] self.bars@[m]).wf() by {
                if m != j {
                    assert(self.bars@[m] == old(self).bars@[m]);
                }
            }
            assert(in_step(self@.bars[j as int], self@.table.rows)) by {
                assert(synced_marks(self@.bars[j as int], self@.table.rows) =~= synced_marks(
                    old(self)@.bars[j as int],
                    self@.table.rows,
                ));
            }
        }
    }

    /// Shared control of the players in `lengths` (see
    /// `SharedSeekBar::take_shared_control`): the clamp each video is held in.
    pub fn take_shared_control(&mut self, lengths: &Vec<(u32, u64)>) -> (clamps: Vec<(u64, u64)>)
        requires
            old(self).wf(),
            old(self)@.table.rows.len() <= u32::MAX,
            forall|i: int| 0 <= i < lengths@.len() ==> (#[trigger] lengths@[i]).0 < old(self)@.table.offsets.len(),
        ensures
            final(self).wf(),
            clamps@.len() == lengths@.len(),
            forall|i: int|
                0 <= i < clamps@.len() ==> #[trigger] clamps@[i] == (
                    old(self)@.table.offsets[lengths@[i].0 as int].time,
                    clamp_end(old(self)@.table, lengths@[i].0, lengths@[i].1),
                ),
            final(self)@ == (WindowView {
                shared: SharedSeekBarView {
                    bar: SeekBarView {
                        timeline_length: grown_timeline(
                            old(self)@.shared.bar.timeline_length,
                            old(self)@.table,
                            lengths@,
                            lengths@.len() as int,
                        ),
                        ..old(self)@.shared.bar
                    },
                    has_control: true,
                    is_paused: true,
                    ..old(self)@.shared
                },
                ..old(self)@
            }),
    {
        let clamps = self.shared.take_shared_control(&self.table, lengths);
        proof {
            let b0 = old(self)@.shared.bar;
            let b1 = self@.shared.bar;
            assert forall|k: Seq<char>| b1.marks.contains_key(k) implies #[trigger] synced_marks(b1, self@.table.rows)[k]
                == synced_marks(b0, self@.table.rows)[k] by {
                if b1.sources.contains_key(k) {
                    assert(linked_mark(b1, self@.table.rows, k) == linked_mark(b0, self@.table.rows, k));
                }
            }
            assert(synced_marks(b1, self@.table.rows) =~= synced_marks(b0, self@.table.rows));
            assert(self@.players == old(self)@.players);
            assert(self@.colors == old(self)@.colors);
            assert(self@.bars == old(self)@.bars);
            assert(self@.table == old(self)@.table);
        }
        clamps
    }

    /// Shared control released: the players are paused.
    pub fn release_shared_control(&mut self)
        requires
            old(self).wf(),
        ensures
            final(self).wf(),
            final(self)@ == (WindowView {
                shared: SharedSeekBarView { has_control: false, is_paused: true, ..old(self)@.shared },
                ..old(self)@
            }),
    {
        self.shared.release_shared_control();
    }

    /// The shared play button (see `SharedSeekBar::play_clicked`).
    pub fn play_clicked(&mut self) -> (play: bool)
        requires
            old(self).wf(),
        ensures
            final(self).wf(),
            play == old(self)@.shared.is_paused,
            final(self)@ == (WindowView {
                shared: SharedSeekBarView { is_paused: !old(self)@.shared.is_paused, ..old(self)@.shared },
                ..old(self)@
            }),
    {
        self.shared.play_clicked()
    }

    /// The shared scale is pressed (see `SharedSeekBar::seek_pressed`).
    pub fn seek_pressed(&mut self) -> (pause: bool)
        requires
            old(self).wf(),
        ensures
            final(self).wf(),
            pause == !old(self)@.shared.is_paused,
            final(self)@ == (WindowView {
                shared: SharedSeekBarView { is_paused: true, is_dragging: true, ..old(self)@.shared },
                ..old(self)@
            }),
    {
        self.shared.seek_pressed()
    }

    /// The shared scale is released.
    pub fn seek_released(&mut self)
        requires
            old(self).wf(),
        ensures
            final(self).wf(),
            final(self)@ == (WindowView {
                shared: SharedSeekBarView { is_dragging: false, ..old(self)@.shared },
                ..old(self)@
            }),
    {
        self.shared.seek_released()
    }

    /// A jump to the selected segment, or to the first one (see
    /// `SharedSeekBar::jump_to_segment`).
    pub fn jump_to_segment(&mut self, selected: Option<u32>) -> (s: u32)
        requires
            old(self).wf(),
        ensures
            final(self).wf(),
            s == match selected {
                Some(i) => i,
                None => 0,
            },
            final(self)@ == (WindowView {
                shared: SharedSeekBarView { starting_segment: s, ..old(self)@.shared },
                ..old(self)@
            }),
    {
        self.shared.jump_to_segment(selected)
    }
}

} // verus!