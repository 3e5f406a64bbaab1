use vstd::prelude::*;
use once_cell::sync::OnceCell;

verus! {

/// Which way a video plays.
#[derive(Debug, Copy, Clone, PartialEq, Eq, Structural)]
pub enum PlaybackDirection {
    Forward,
    Reverse,
}

/// The playback state a pipeline keeps.
#[derive(Debug, Copy, Clone, PartialEq, Eq, Structural)]
pub struct PipelineState {
    pub direction: PlaybackDirection,
}

impl PipelineState {
    pub fn new() -> (s: Self)
        ensures
            s.direction == PlaybackDirection::Forward,
    {
        PipelineState { direction: PlaybackDirection::Forward }
    }
}

/// What the clamp monitor does with a playing video at a given position.
#[derive(Debug, Copy, Clone, PartialEq, Eq, Structural)]
pub enum ClampAction {
    /// Nothing: the video is not playing, its position is unknown, or it is inside the clamp.
    Keep,
    /// Pause the video and seek to the end of the clamp.
    PauseAtEnd,
    /// Seek to the start of the clamp.
    SeekToStart,
}

/// A window `[start_time, end_time]` (in nanoseconds) that playback is held in.
#[derive(Debug, Copy, Clone, PartialEq, Eq, Structural)]
pub struct VideoClamp {
    pub start_time: u64,
    pub end_time: u64,
}

/// `position` brought into `[start, end]`: first capped at `end`, then
/// raised to `start` (so `start` wins when `start > end`).
pub open spec fn clamp_spec(position: u64, start: u64, end: u64) -> u64 {
    let capped = if position <= end {
        position
    } else {
        end
    };
    if capped >= start {
        capped
    } else {
        start
    }
}

impl VideoClamp {
    pub fn new(start: u64, end: u64) -> (c: Self)
        ensures
            c.start_time == start,
            c.end_time == end,
    {
        VideoClamp { start_time: start, end_time: end }
    }

    pub fn clamp_position(&self, position: u64) -> (r: u64)
        ensures
            r == clamp_spec(position, self.start_time, self.end_time),
    {
        let capped = if position <= self.end_time {
            position
        } else {
            self.end_time
        };
        if capped >= self.start_time {
            capped
        } else {
            self.start_time
        }
    }

    /// What to do with a video that is `playing` at `position` (if known):
    /// at or past the end of the clamp it is paused there, before the start
    /// it is sent back to the start.
    pub fn check_and_clamp_position(&self, playing: bool, position: Option<u64>) -> (a: ClampAction)
        ensures
            a == (match position {
                Some(p) if playing => if p >= self.end_time {
                    ClampAction::PauseAtEnd
                } else if p < self.start_time {
                    ClampAction::SeekToStart
                } else {
                    ClampAction::Keep
                },
                _ => ClampAction::Keep,
            }),
    {
        if playing {
            if let Some(position) = position {
                if position >= self.end_time {
                    return ClampAction::PauseAtEnd;
                } else if position < self.start_time {
                    return ClampAction::SeekToStart;
                }
            }
        }
        ClampAction::Keep
    }
}

/// A clamp never moves a position out of its window, and leaves a position
/// inside it where it is.
pub proof fn lemma_clamp_in_window(position: u64, start: u64, end: u64)
    requires
        start <= end,
    ensures
        start <= clamp_spec(position, start, end) <= end,
        start <= position <= end ==> clamp_spec(position, start, end) == position,
        clamp_spec(clamp_spec(position, start, end), start, end) == clamp_spec(position, start, end),
{
}

/// A seek that turns playback around: playing forward from `start` to the
/// end of the video (`stop` is `None`), or backward over `[start, stop]`.
#[derive(Debug, Copy, Clone, PartialEq, Eq, Structural)]
pub struct DirectionSeek {
    pub forward: bool,
    pub start: u64,
    pub stop: Option<u64>,
}

/// How a one-frame step is carried out.
#[derive(Debug, Copy, Clone, PartialEq, Eq, Structural)]
pub enum StepPlan {
    /// No step: the step would leave the clamp.
    Blocked,
    /// No step: the video is not paused.
    NotPaused,
    /// Step one frame, first turning playback around if `turn` is set.
    Step { turn: bool },
}

/// Holds the frame duration once it is known.
#[verifier::external_type_specification]
#[verifier::external_body]
#[verifier::reject_recursive_types(T)]
pub struct ExOnceCell<T>(OnceCell<T>);

/// The value a frame duration cell holds, if it holds one.
pub uninterp spec fn frame_cell_value(cell: OnceCell<u64>) -> Option<u64>;

/// `OnceCell::new`: an empty cell.
#[verifier::external_body]
fn frame_cell_new() -> (c: OnceCell<u64>)
    ensures
        frame_cell_value(c) == None::<u64>,
{
    OnceCell::new()
}

/// `OnceCell::get`: the value held, if any.
#[verifier::external_body]
fn frame_cell_get(c: &OnceCell<u64>) -> (r: Option<u64>)
    ensures
        r == frame_cell_value(*c),
{
    c.get().copied()
}

/// `OnceCell::set`: an empty cell takes `v` and reports `Ok`; a full cell
/// keeps its value and hands `v` back.
#[verifier::external_body]
fn frame_cell_set(c: &mut OnceCell<u64>, v: u64) -> (r: Result<(), u64>)
    ensures
        match frame_cell_value(*old(c)) {
            None => r == Ok::<(), u64>(()) && frame_cell_value(*final(c)) == Some(v),
            Some(x) => r == Err::<(), u64>(v) && frame_cell_value(*final(c)) == Some(x),
        },
{
    c.set(v)
}

/// The playback logic of a video pipeline: its direction, the duration of
/// one frame once known, the clamp it is held in, and whether the clamp
/// monitor runs.
pub struct VideoPipeline {
    state: PipelineState,
    frame_duration: OnceCell<u64>,
    clamp: Option<VideoClamp>,
    monitor_active: bool,
}

/// What a `VideoPipeline` holds.
pub struct VideoPipelineView {
    pub direction: PlaybackDirection,
    pub frame_duration: Option<u64>,
    pub clamp: Option<VideoClamp>,
    pub monitor_active: bool,
}

impl View for VideoPipeline {
    type V = VideoPipelineView;

    closed spec fn view(&self) -> VideoPipelineView {
        VideoPipelineView {
            direction: self.state.direction,
            frame_duration: frame_cell_value(self.frame_duration),
            clamp: self.clamp,
            monitor_active: self.monitor_active,
        }
    }
}

impl VideoPipeline {
    /// A clamp, when there is one, does not start after it ends.
    pub closed spec fn wf(&self) -> bool {
        self.clamp matches Some(c) ==> c.start_time <= c.end_time
    }

    pub fn new() -> (p: Self)
        ensures
            p.wf(),
            p@.direction == PlaybackDirection::Forward,
            p@.frame_duration == None::<u64>,
            p@.clamp == None::<VideoClamp>,
            !p@.monitor_active,
    {
        VideoPipeline {
            state: PipelineState::new(),
            frame_duration: frame_cell_new(),
            clamp: None,
            monitor_active: false,
        }
    }

    /// Back to the state of a new pipeline.
    pub fn reset(&mut self)
        ensures
            final(self).wf(),
            final(self)@.direction == PlaybackDirection::Forward,
            final(self)@.frame_duration == None::<u64>,
            final(self)@.clamp == None::<VideoClamp>,
            !final(self)@.monitor_active,
    {
        *self = Self::new();
    }

    pub fn direction(&self) -> (d: PlaybackDirection)
        ensures
            d == self@.direction,
    {
        self.state.direction
    }

    /// The duration of one frame, once it is known.
    pub fn frame_duration(&self) -> (d: Option<u64>)
        ensures
            d == self@.frame_duration,
    {
        frame_cell_get(&self.frame_duration)
    }

    /// Records `frame_duration_ns` as the duration of one frame, unless a
    /// duration is known already (the first one stays), and returns it.
    pub fn set_frame_duration(&mut self, frame_duration_ns: u64) -> (r: u64)
        ensures
            r == frame_duration_ns,
            final(self)@.frame_duration == (match old(self)@.frame_duration {
                Some(d) => Some(d),
                None => Some(frame_duration_ns),
            }),
            final(self)@.direction == old(self)@.direction,
            final(self)@.clamp == old(self)@.clamp,
            final(self)@.monitor_active == old(self)@.monitor_active,
            final(self).wf() == old(self).wf(),
    {
        let _ = frame_cell_set(&mut self.frame_duration, frame_duration_ns);
        frame_duration_ns
    }

    /// Where a seek to `position` goes in a video of length `duration`: a
    /// seek to the very end goes one frame before it, any other as asked.
    pub fn seek_position(&self, position: u64, duration: u64) -> (target: u64)
        requires
            position == duration ==> (self@.frame_duration matches Some(d) && d <= position),
        ensures
            target == if position == duration {
                (position - self@.frame_duration.unwrap()) as u64
            } else {
                position
            },
    {
        if position == duration {
            let frame_time = frame_cell_get(&self.frame_duration).unwrap();
            position - frame_time
        } else {
            position
        }
    }

    /// Length of the clamp window.
    pub fn get_logical_duration(&self) -> (r: Result<u64, String>)
        requires
            self.wf(),
        ensures
            match self@.clamp {
                Some(c) => r == Ok::<u64, String>((c.end_time - c.start_time) as u64),
                None => r matches Err(e) && e@ == "Video is not currently clamped"@,
            },
    {
        match &self.clamp {
            Some(clamp) => Ok(clamp.end_time - clamp.start_time),
            None => Err("Video is not currently clamped".to_owned()),
        }
    }

    /// Start of the clamp window.
    pub fn get_start(&self) -> (r: Result<u64, String>)
        ensures
            match self@.clamp {
                Some(c) => r == Ok::<u64, String>(c.start_time),
                None => r matches Err(e) && e@ == "Video not is currently clamped"@,
            },
    {
        match &self.clamp {
            Some(clamp) => Ok(clamp.start_time),
            None => Err("Video not is currently clamped".to_owned()),
        }
    }

    /// End of the clamp window.
    pub fn get_end(&self) -> (r: Result<u64, String>)
        ensures
            match self@.clamp {
                Some(c) => r == Ok::<u64, String>(c.end_time),
                None => r matches Err(e) && e@ == "Video not is currently clamped"@,
            },
    {
        match &self.clamp {
            Some(clamp) => Ok(clamp.end_time),
            None => Err("Video not is currently clamped".to_owned()),
        }
    }

    /// Lifts the clamp and stops its monitor.
    pub fn reset_clamps(&mut self) -> (r: Result<(), String>)
        ensures
            r is Ok,
            final(self).wf(),
            final(self)@ == (VideoPipelineView { clamp: None, monitor_active: false, ..old(self)@ }),
    {
        self.clamp = None;
        self.stop_position_monitor();
        Ok(())
    }

    /// Holds playback in `[start, end]`. Fails, changing nothing, when
    /// `start > end`; otherwise reports whether the clamp monitor has to be
    /// started (it was not running; it counts as running from now on).
    pub fn apply_clamp(&mut self, start: u64, end: u64) -> (r: Result<bool, String>)
        requires
            old(self).wf(),
        ensures
            final(self).wf(),
            match r {
                Ok(start_monitor) => start <= end && start_monitor == !old(self)@.monitor_active
                    && final(self)@ == (VideoPipelineView {
                    clamp: Some(VideoClamp { start_time: start, end_time: end }),
                    monitor_active: true,
                    ..old(self)@
                }),
                Err(e) => start > end && final(self)@ == old(self)@ && e@
                    == "start exceeds end clamp"@,
            },
    {
        if start > end {
            return Err("start exceeds end clamp".to_owned());
        }
        self.clamp = Some(VideoClamp::new(start, end));
        Ok(self.start_position_monitor())
    }

    /// Marks the clamp monitor as running; `true` if it was not running before.
    fn start_position_monitor(&mut self) -> (started: bool)
        ensures
            started == !old(self)@.monitor_active,
            final(self)@ == (VideoPipelineView { monitor_active: true, ..old(self)@ }),
            final(self).wf() == old(self).wf(),
    {
        if self.monitor_active {
            return false;
        }
        self.monitor_active = true;
        true
    }

    /// Marks the clamp monitor as stopped.
    fn stop_position_monitor(&mut self)
        ensures
            final(self)@ == (VideoPipelineView { monitor_active: false, ..old(self)@ }),
            final(self).wf() == old(self).wf(),
    {
        self.monitor_active = false;
    }

    /// Where a seek to the start goes: the start of the clamp, else zero.
    pub fn seek_to_start(&self) -> (p: u64)
        ensures
            p == match self@.clamp {
                Some(c) => c.start_time,
                None => 0,
            },
    {
        match &self.clamp {
            Some(clamp) => clamp.start_time,
            None => 0,
        }
    }

    /// Where a seek to the end goes: the end of the clamp, else the end of
    /// the video (`duration`, if known).
    pub fn seek_to_end(&self, duration: Option<u64>) -> (r: Result<u64, String>)
        ensures
            match self@.clamp {
                Some(c) => r == Ok::<u64, String>(c.end_time),
                None => match duration {
                    Some(d) => r == Ok::<u64, String>(d),
                    None => r matches Err(e) && e@ == "Could not get video duration"@,
                },
            },
    {
        match &self.clamp {
            Some(clamp) => Ok(clamp.end_time),
            None => match duration {
                Some(d) => Ok(d),
                None => Err("Could not get video duration".to_owned()),
            },
        }
    }

    /// Where a seek to `position` goes once clamped.
    pub fn seek_clamped(&self, position: u64) -> (p: u64)
        ensures
            p == match self@.clamp {
                Some(c) => clamp_spec(position, c.start_time, c.end_time),
                None => position,
            },
    {
        match &self.clamp {
            Some(clamp) => clamp.clamp_position(position),
            None => position,
        }
    }

    /// Turns playback forward from `position`; without a position nothing changes.
    pub fn set_direction_forward(&mut self, position: Option<u64>) -> (s: Option<DirectionSeek>)
        ensures
            final(self).wf() == old(self).wf(),
            match position {
                Some(p) => s == Some(DirectionSeek { forward: true, start: p, stop: None })
                    && final(self)@ == (VideoPipelineView {
                    direction: PlaybackDirection::Forward,
                    ..old(self)@
                }),
                None => s is None && final(self)@ == old(self)@,
            },
    {
        match position {
            Some(p) => {
                self.state.direction = PlaybackDirection::Forward;
                Some(DirectionSeek { forward: true, start: p, stop: None })
            },
            None => None,
        }
    }

    /// Turns playback backward over `[0, position]`; without a position
    /// nothing changes.
    pub fn set_direction_backward(&mut self, position: Option<u64>) -> (s: Option<DirectionSeek>)
        ensures
            final(self).wf() == old(self).wf(),
            match position {
                Some(p) => s == Some(DirectionSeek { forward: false, start: 0, stop: Some(p) })
                    && final(self)@ == (VideoPipelineView {
                    direction: PlaybackDirection::Reverse,
                    ..old(self)@
                }),
                None => s is None && final(self)@ == old(self)@,
            },
    {
        match position {
            Some(p) => {
                self.state.direction = PlaybackDirection::Reverse;
                Some(DirectionSeek { forward: false, start: 0, stop: Some(p) })
            },
            None => None,
        }
    }

    /// Whether playback has to be turned forward before it is started.
    pub fn play_video(&self) -> (turn: bool)
        ensures
            turn == (self@.direction == PlaybackDirection::Reverse),
    {
        self.state.direction == PlaybackDirection::Reverse
    }

    /// How to step one frame forward: only when paused, turning playback
    /// forward first if it runs backward.
    pub fn frame_forward(&self, paused: bool) -> (p: StepPlan)
        ensures
            p == if !paused {
                StepPlan::NotPaused
            } else {
                StepPlan::Step { turn: self@.direction == PlaybackDirection::Reverse }
            },
    {
        if !paused {
            return StepPlan::NotPaused;
        }
        StepPlan::Step { turn: self.state.direction == PlaybackDirection::Reverse }
    }

    /// How to step one frame backward: only when paused, turning playback
    /// backward first if it runs forward.
    pub fn frame_backward(&self, paused: bool) -> (p: StepPlan)
        ensures
            p == if !paused {
                StepPlan::NotPaused
            } else {
                StepPlan::Step { turn: self@.direction == PlaybackDirection::Forward }
            },
    {
        if !paused {
            return StepPlan::NotPaused;
        }
        StepPlan::Step { turn: self.state.direction == PlaybackDirection::Forward }
    }

    /// How to step one frame forward inside the clamp: a step that would
    /// pass the end of the clamp is not taken; otherwise as `frame_forward`.
    pub fn frame_forward_clamped(&self, position: Option<u64>, paused: bool) -> (p: StepPlan)
        requires
            self@.clamp is Some && position is Some ==> (self@.frame_duration matches Some(d)
                && position.unwrap() + d <= u64::MAX),
        ensures
            p == if self@.clamp is Some && position is Some && position.unwrap()
                + self@.frame_duration.unwrap() > self@.clamp.unwrap().end_time {
                StepPlan::Blocked
            } else if !paused {
                StepPlan::NotPaused
            } else {
                StepPlan::Step { turn: self@.direction == PlaybackDirection::Reverse }
            },
    {
        if let Some(clamp) = &self.clamp {
            if let Some(position) = position {
                let next_position = position + frame_cell_get(&self.frame_duration).unwrap();
                if next_position > clamp.end_time {
                    return StepPlan::Blocked;
                }
            }
        }
        self.frame_forward(paused)
    }

    /// Where a one-frame step backward inside the clamp goes: one frame
    /// before `position` (not below zero), to be seeked to clamped; `None`
    /// when that is before the start of the clamp or the video is not
    /// paused. Fails without a position.
    pub fn frame_backward_clamped(&self, position: Option<u64>, paused: bool) -> (r: Result<
        Option<u64>,
        String,
    >)
        requires
            position is Some ==> self@.frame_duration is Some,
        ensures
            match position {
                None => r matches Err(e) && e@ == "Could not get video position"@,
                Some(p) => {
                    let prev = if p >= self@.frame_duration.unwrap() {
                        (p - self@.frame_duration.unwrap()) as u64
                    } else {
                        0
                    };
                    r == Ok::<Option<u64>, String>(
                        if (self@.clamp matches Some(c) && prev < c.start_time) || !paused {
                            None
                        } else {
                            Some(prev)
                        },
                    )
                },
            },
    {
        match position {
            Some(position) => {
                let prev_position = position.saturating_sub(
                    frame_cell_get(&self.frame_duration).unwrap(),
                );
                if let Some(clamp) = &self.clamp {
                    if prev_position < clamp.start_time {
                        return Ok(None);
                    }
                }
                if !paused {
                    return Ok(None);
                }
                Ok(Some(prev_position))
            },
            None => Err("Could not get video position".to_owned()),
        }
    }
}

/// The frame a video shows at `position_ns` when it runs at `fps` frames
/// per second (whole nanoseconds per frame).
pub fn get_current_frame(position_ns: u64, fps: i32) -> (frame: u64)
    requires
        1 <= fps <= 1_000_000_000,
    ensures
        frame == position_ns / (1_000_000_000u64 / fps as u64),
{
    let time_per_frame = 1_000_000_000 / fps as u64;
    assert(time_per_frame >= 1) by (nonlinear_arith)
        requires
            1 <= fps <= 1_000_000_000,
            time_per_frame == 1_000_000_000u64 / fps as u64,
    ;
    position_ns / time_per_frame
}

} // verus!
