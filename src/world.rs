use vstd::prelude::*;

use crate::error::RemoteError;

verus! {

/// A replay session the backend offers.
#[derive(Clone, Debug)]
pub struct WorldMeta {
    pub id: String,
    pub total_frame_num: u32,
}

/// The result of a session-list request.
pub type WorldListResult = Result<Vec<WorldMeta>, RemoteError>;

/// The session that plays when the user has chosen none.
pub open spec fn default_session() -> Seq<char> {
    seq!['s', 'l', 'a', 'm']
}

/// The frame count announced for session `name`; when the list names it
/// more than once the last entry counts, and an unlisted session has none.
pub open spec fn frame_total_spec(worlds: Seq<WorldMeta>, name: Seq<char>) -> u32
    decreases worlds.len(),
{
    if worlds.len() == 0 {
        0
    } else if worlds.last().id@ == name {
        worlds.last().total_frame_num
    } else {
        frame_total_spec(worlds.drop_last(), name)
    }
}

/// The frame count that `worlds` announces for session `name`.
pub fn frame_total(worlds: &Vec<WorldMeta>, name: &String) -> (r: u32)
    ensures
        r == frame_total_spec(worlds@, name@),
{
    let n = worlds.len();
    let mut total: u32 = 0;
    let mut i: usize = 0;
    while i < n
        invariant
            n == worlds@.len(),
            i <= n,
            total == frame_total_spec(worlds@.subrange(0, i as int), name@),
        decreases n - i,
    {
        proof {
            assert(worlds@.subrange(0, i + 1).drop_last() =~= worlds@.subrange(0, i as int));
        }
        if worlds[i].id == *name {
            total = worlds[i].total_frame_num;
        }
        i = i + 1;
    }
    proof {
        assert(worlds@.subrange(0, n as int) =~= worlds@);
    }
    total
}

/// The user's choice of replay session.
#[derive(Clone, Debug)]
pub struct WorldPlayer {
    pub selected_world_name: Option<String>,
}

impl Default for WorldPlayer {
    /// A player with no session chosen.
    fn default() -> (r: WorldPlayer)
        ensures
            r.selected_world_name is None,
    {
        WorldPlayer { selected_world_name: None }
    }
}

impl WorldPlayer {
    /// Chooses session `name`.
    pub fn select(&mut self, name: String)
        ensures
            final(self).selected_world_name == Some(name),
    {
        self.selected_world_name = Some(name);
    }

    /// The session to play: the chosen one, or the default session.
    pub fn session_name(&self) -> (r: String)
        ensures
            match self.selected_world_name {
                Some(s) => r@ == s@,
                None => r@ == default_session(),
            },
    {
        match &self.selected_world_name {
            Some(s) => s.clone(),
            None => {
                let r = String::from_str("slam");
                proof {
                    reveal_strlit("slam");
                    assert(r@ =~= default_session());
                }
                r
            },
        }
    }

    /// The frame count of the chosen session, or 0 when none is chosen.
    pub fn history_len(&self, worlds: &Vec<WorldMeta>) -> (r: u32)
        ensures
            match self.selected_world_name {
                Some(s) => r == frame_total_spec(worlds@, s@),
                None => r == 0,
            },
    {
        match &self.selected_world_name {
            Some(s) => frame_total(worlds, s),
            None => 0,
        }
    }
}

/// The sessions the backend offers, with the marker of the request that
/// refreshes them.
pub struct WorldCatalog {
    worlds: Vec<WorldMeta>,
    refreshing: bool,
}

impl WorldCatalog {
    /// Whether a refresh is in flight.
    pub closed spec fn refreshing(&self) -> bool {
        self.refreshing
    }

    /// The last list received.
    pub closed spec fn worlds_view(&self) -> Seq<WorldMeta> {
        self.worlds@
    }

    /// A catalog with no session known and no refresh in flight.
    pub fn new() -> (r: WorldCatalog)
        ensures
            r.worlds_view().len() == 0,
            !r.refreshing(),
    {
        WorldCatalog { worlds: Vec::new(), refreshing: false }
    }

    /// Asks for a fresh list: with no refresh in flight, marks one as issued
    /// and returns `true`, and the caller issues it; otherwise returns
    /// `false`.
    pub fn update_world_list(&mut self) -> (r: bool)
        ensures
            r == !old(self).refreshing(),
            final(self).refreshing(),
            final(self).worlds_view() == old(self).worlds_view(),
    {
        let r = !self.refreshing;
        self.refreshing = true;
        r
    }

    /// Takes in the answer to the refresh: a list replaces the held one
    /// wholesale, a failure is dropped.
    pub fn on_world_list(&mut self, result: WorldListResult)
        ensures
            !final(self).refreshing(),
            match result {
                Ok(list) => final(self).worlds_view() == list@,
                Err(_) => final(self).worlds_view() == old(self).worlds_view(),
            },
    {
        self.refreshing = false;
        if let Ok(list) = result {
            self.worlds = list;
        }
    }

    /// The last list received.
    pub fn get_world_list(&self) -> (r: &Vec<WorldMeta>)
        ensures
            r@ == self.worlds_view(),
    {
        &self.worlds
    }
}

} // verus!
