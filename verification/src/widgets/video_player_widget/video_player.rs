use vstd::prelude::*;

verus! {

/// Whether a player's video plays or is paused.
#[derive(Clone, Copy, Debug, PartialEq, Eq)]
pub enum PlayerState {
    Playing,
    Paused,
}

/// What the play button does.
#[derive(Clone, Copy, Debug, PartialEq, Eq)]
pub enum PlayAction {
    Play,
    Pause,
}

/// A video player's own data: its id, the color of its marks, and whether
/// its video plays.
pub struct VideoPlayer {
    id: String,
    color: String,
    state: PlayerState,
}

impl VideoPlayer {
    pub closed spec fn id_view(&self) -> Seq<char> {
        self.id@
    }

    pub closed spec fn color_view(&self) -> Seq<char> {
        self.color@
    }

    pub closed spec fn state_view(&self) -> PlayerState {
        self.state
    }

    /// A player with id `id`, black marks and a paused video.
    pub fn new(id: &str) -> (p: Self)
        ensures
            p.id_view() == id@,
            p.color_view() == "black"@,
            p.state_view() == PlayerState::Paused,
    {
        VideoPlayer { id: id.to_owned(), color: "black".to_owned(), state: PlayerState::Paused }
    }

    pub fn get_id(&self) -> (id: String)
        ensures
            id@ == self.id_view(),
    {
        self.id.clone()
    }

    pub fn set_color(&mut self, color: &str)
        ensures
            final(self).color_view() == color@,
            final(self).id_view() == old(self).id_view(),
            final(self).state_view() == old(self).state_view(),
    {
        self.color = color.to_owned();
    }

    pub fn get_color(&self) -> (c: String)
        ensures
            c@ == self.color_view(),
    {
        self.color.clone()
    }

    /// The play button: a playing video is paused and a paused one plays.
    pub fn play_clicked(&mut self) -> (a: PlayAction)
        ensures
            a == match old(self).state_view() {
                PlayerState::Playing => PlayAction::Pause,
                PlayerState::Paused => PlayAction::Play,
            },
            final(self).state_view() == match old(self).state_view() {
                PlayerState::Playing => PlayerState::Paused,
                PlayerState::Paused => PlayerState::Playing,
            },
            final(self).id_view() == old(self).id_view(),
            final(self).color_view() == old(self).color_view(),
    {
        match self.state {
            PlayerState::Playing => {
                self.state = PlayerState::Paused;
                PlayAction::Pause
            },
            PlayerState::Paused => {
                self.state = PlayerState::Playing;
                PlayAction::Play
            },
        }
    }
}

} // verus!
