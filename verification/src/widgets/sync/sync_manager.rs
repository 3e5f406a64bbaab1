use vstd::prelude::*;
use crate::helpers::str_map::StrMap;

verus! {

/// What the sync manager tells its listeners. Times are in nanoseconds.
#[derive(Clone, Copy, Debug, PartialEq, Eq)]
pub enum SyncEvent {
    SyncEnabled { base_time: u64 },
    SyncDisabled,
    PlaybackStarted { base_time: u64, scale_position: u64 },
    PlaybackPaused,
    Seeked,
}

/// The pipelines played together, by player id, and whether they are synced.
pub struct SyncManager<P> {
    pipelines: StrMap<P>,
    is_synced: bool,
}

impl<P> SyncManager<P> {
    pub closed spec fn wf(&self) -> bool {
        self.pipelines.wf()
    }

    /// The pipelines by player id.
    pub closed spec fn pipelines_view(&self) -> Map<Seq<char>, P> {
        self.pipelines@
    }

    /// The player ids in the order the pipelines are visited.
    pub closed spec fn order(&self) -> Seq<Seq<char>> {
        self.pipelines.key_seq()
    }

    pub closed spec fn synced(&self) -> bool {
        self.is_synced
    }

    pub fn new() -> (m: Self)
        ensures
            m.wf(),
            m.pipelines_view() == Map::<Seq<char>, P>::empty(),
            !m.synced(),
    {
        SyncManager { pipelines: StrMap::new(), is_synced: false }
    }

    /// Adds (or replaces) the pipeline of player `pipeline_id`.
    pub fn add_pipeline(&mut self, pipeline_id: &str, pipeline: P)
        requires
            old(self).wf(),
        ensures
            final(self).wf(),
            final(self).pipelines_view() == old(self).pipelines_view().insert(pipeline_id@, pipeline),
            final(self).synced() == old(self).synced(),
    {
        self.pipelines.insert(pipeline_id.to_owned(), pipeline);
    }

    /// Drops the pipeline of player `pipeline_id`.
    pub fn remove_pipeline(&mut self, pipeline_id: &str)
        requires
            old(self).wf(),
        ensures
            final(self).wf(),
            final(self).pipelines_view() == old(self).pipelines_view().remove(pipeline_id@),
            final(self).synced() == old(self).synced(),
    {
        self.pipelines.remove(pipeline_id);
    }

    /// Number of pipelines.
    pub fn pipeline_count(&self) -> (n: usize)
        requires
            self.wf(),
        ensures
            n == self.order().len(),
            n == self.pipelines_view().dom().len(),
    {
        self.pipelines.len()
    }

    /// The `i`-th pipeline visited, with its player id.
    pub fn pipeline_at(&self, i: usize) -> (r: (&String, &P))
        requires
            self.wf(),
            i < self.order().len(),
        ensures
            r.0@ == self.order()[i as int],
            self.pipelines_view().contains_key(r.0@),
            *r.1 == self.pipelines_view()[r.0@],
    {
        proof {
            self.pipelines.lemma_entries();
        }
        (self.pipelines.key_at(i), self.pipelines.value_at(i))
    }

    /// Whether the pipelines play synced; playing them together does nothing then.
    pub fn is_synced(&self) -> (b: bool)
        ensures
            b == self.synced(),
    {
        self.is_synced
    }
}

/// The base time of a pipeline started together with the others at
/// `shared_clock_time`, its start time offset being `offset`.
pub fn playback_base_time(shared_clock_time: u64, offset: u64) -> (t: u64)
    requires
        shared_clock_time + offset <= u64::MAX,
    ensures
        t == shared_clock_time + offset,
{
    shared_clock_time + offset
}

/// The base time of a pipeline sent to `position` at `shared_clock_time`.
pub fn seek_base_time(shared_clock_time: u64, position: u64) -> (t: u64)
    requires
        position <= shared_clock_time,
    ensures
        t == shared_clock_time - position,
{
    shared_clock_time - position
}

/// The longest clamped pipeline, given for each pipeline (in visiting
/// order) the end of its clamp and its start time offset: the position of
/// the first one whose clamp end less offset is greatest, and that length.
pub fn get_longest_pipeline(ends_and_offsets: &Vec<(u64, u64)>) -> (r: Option<(usize, u64)>)
    requires
        forall|i: int| 0 <= i < ends_and_offsets@.len() ==> (#[trigger] ends_and_offsets@[i]).0
            >= ends_and_offsets@[i].1,
    ensures
        match r {
            None => ends_and_offsets@.len() == 0,
            Some((k, d)) => {
                &&& k < ends_and_offsets@.len()
                &&& d == ends_and_offsets@[k as int].0 - ends_and_offsets@[k as int].1
                &&& forall|j: int|
                    0 <= j < ends_and_offsets@.len() ==> (#[trigger] ends_and_offsets@[j]).0
                        - ends_and_offsets@[j].1 <= d
                &&& forall|j: int| 0 <= j < k ==> (#[trigger] ends_and_offsets@[j]).0 - ends_and_offsets@[j].1 < d
            },
        },
{
    let n = ends_and_offsets.len();
    let mut longest: Option<(usize, u64)> = None;
    for i in 0..n
        invariant
            n == ends_and_offsets@.len(),
            forall|j: int| 0 <= j < n ==> (#[trigger] ends_and_offsets@[j]).0 >= ends_and_offsets@[j].1,
            i == 0 <==> longest is None,
            match longest {
                None => true,
                Some((k, d)) => {
                    &&& k < i
                    &&& d == ends_and_offsets@[k as int].0 - ends_and_offsets@[k as int].1
                    &&& forall|j: int| 0 <= j < i ==> (#[trigger] ends_and_offsets@[j]).0 - ends_and_offsets@[j].1 <= d
                    &&& forall|j: int| 0 <= j < k ==> (#[trigger] ends_and_offsets@[j]).0 - ends_and_offsets@[j].1 < d
                },
            },
    {
        let (end, offset) = ends_and_offsets[i];
        let duration = end - offset;
        match longest {
            Some((_, longest_duration)) => {
                if duration > longest_duration {
                    longest = Some((i, duration));
                }
            },
            None => {
                longest = Some((i, duration));
            },
        }
    }
    longest
}

} // verus!
