use vstd::prelude::*;

verus! {

/// How long a button ignores clicks after one it took, in milliseconds.
pub const DEBOUNCE_MS: u64 = 200;

/// A button's click filter: a click is taken only when the last click taken
/// lies at least `debounce_ms` milliseconds back.
pub struct ClickDebounce {
    debounce_ms: u64,
    last_click_ms: Option<u64>,
}

/// What a `ClickDebounce` holds: the quiet time and when the last click
/// taken came, in milliseconds.
pub struct ClickDebounceView {
    pub debounce_ms: u64,
    pub last_click_ms: Option<u64>,
}

impl View for ClickDebounce {
    type V = ClickDebounceView;

    closed spec fn view(&self) -> ClickDebounceView {
        ClickDebounceView { debounce_ms: self.debounce_ms, last_click_ms: self.last_click_ms }
    }
}

/// Whether a click at `now_ms` is taken: always the first one; later ones
/// when the time since the last click taken (zero if the clock went back)
/// is at least the quiet time.
pub open spec fn click_taken(d: ClickDebounceView, now_ms: u64) -> bool {
    match d.last_click_ms {
        None => true,
        Some(last) => (if now_ms >= last {
            now_ms - last
        } else {
            0
        }) >= d.debounce_ms,
    }
}

impl ClickDebounce {
    /// A filter with quiet time `debounce_ms` that has taken no click yet.
    pub fn new(debounce_ms: u64) -> (d: Self)
        ensures
            d@ == (ClickDebounceView { debounce_ms, last_click_ms: None }),
    {
        ClickDebounce { debounce_ms, last_click_ms: None }
    }

    /// A click at `now_ms`: `true` if it is taken (see `click_taken`), and
    /// then it is the last click taken.
    pub fn click(&mut self, now_ms: u64) -> (taken: bool)
        ensures
            taken == click_taken(old(self)@, now_ms),
            final(self)@ == (ClickDebounceView {
                last_click_ms: if taken {
                    Some(now_ms)
                } else {
                    old(self)@.last_click_ms
                },
                ..old(self)@
            }),
    {
        let taken = match self.last_click_ms {
            None => true,
            Some(last) => now_ms.saturating_sub(last) >= self.debounce_ms,
        };
        if taken {
            self.last_click_ms = Some(now_ms);
        }
        taken
    }
}

} // verus!
