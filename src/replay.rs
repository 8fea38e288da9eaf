use vstd::prelude::*;

use std::collections::VecDeque;

use crate::codec::{chunks_view, concat_chunks, decode_frame, decode_frame_spec, flatten, Frame};
use crate::dataset::ChunkResult;
use crate::error::RemoteError;
use crate::world::{default_session, frame_total, frame_total_spec, WorldMeta, WorldPlayer};

verus! {

/// How many round-trip latencies the rolling window keeps.
pub const LATENCY_WINDOW: usize = 10;

/// Frame indices ascend strictly along the history.
pub open spec fn frames_ascending(h: Seq<Frame>) -> bool {
    forall|i: int, j: int| 0 <= i < j < h.len() ==> (#[trigger] h[i]).frame_index < (#[trigger] h[j]).frame_index
}

/// The history after a frame arrives: a frame whose index does not exceed
/// the last stored one means the session looped, and starts a new epoch.
pub open spec fn accept_spec(h: Seq<Frame>, f: Frame) -> Seq<Frame> {
    if h.len() > 0 && f.frame_index <= h.last().frame_index {
        seq![f]
    } else {
        h.push(f)
    }
}

/// The history after frames arrive one by one, from an empty one.
pub open spec fn history_after(fs: Seq<Frame>) -> Seq<Frame>
    decreases fs.len(),
{
    if fs.len() == 0 {
        Seq::empty()
    } else {
        accept_spec(history_after(fs.drop_last()), fs.last())
    }
}

/// Where the current epoch of an arrival sequence starts: the last position
/// whose frame index does not exceed its predecessor's.
pub open spec fn epoch_start(fs: Seq<Frame>) -> int
    decreases fs.len(),
{
    if fs.len() <= 1 {
        0
    } else if fs.last().frame_index <= fs[fs.len() - 2].frame_index {
        fs.len() - 1
    } else {
        epoch_start(fs.drop_last())
    }
}

/// The timeline after session `name` is selected: a different session
/// starts from an empty history.
pub open spec fn select_spec(t: TimelineModel, name: Seq<char>) -> TimelineModel {
    if name == t.session {
        t
    } else {
        TimelineModel { session: name, history: Seq::empty(), cursor: 0, ..t }
    }
}

/// The rolling latency window after one more sample: the newest samples, at
/// most [`LATENCY_WINDOW`] of them.
pub open spec fn window_spec(w: Seq<u64>, x: u64) -> Seq<u64> {
    if w.len() + 1 > LATENCY_WINDOW {
        w.push(x).drop_first()
    } else {
        w.push(x)
    }
}

/// The replay timeline of the selected session.
#[derive(Debug)]
pub struct ReplayTimeline {
    session_name: String,
    history: Vec<Frame>,
    cursor: usize,
    playing: bool,
    latencies: VecDeque<u64>,
}

/// The mathematical view of a replay timeline.
pub struct TimelineModel {
    pub session: Seq<char>,
    pub history: Seq<Frame>,
    pub cursor: nat,
    pub playing: bool,
    pub latencies: Seq<u64>,
}

impl View for ReplayTimeline {
    type V = TimelineModel;

    closed spec fn view(&self) -> TimelineModel {
        TimelineModel {
            session: self.session_name@,
            history: self.history@,
            cursor: self.cursor as nat,
            playing: self.playing,
            latencies: self.latencies@,
        }
    }
}

/// The timeline's invariant: the history ascends, the display cursor points
/// into it (or is 0 on an empty one), and the latency window is bounded.
pub open spec fn timeline_wf(t: TimelineModel) -> bool {
    &&& frames_ascending(t.history)
    &&& (t.cursor < t.history.len() || (t.history.len() == 0 && t.cursor == 0))
    &&& t.latencies.len() <= LATENCY_WINDOW
}

impl ReplayTimeline {
    /// A timeline for `session`, empty, playing, with no latency sample.
    pub fn new(session: String) -> (r: ReplayTimeline)
        ensures
            timeline_wf(r@),
            r@.session == session@,
            r@.history.len() == 0,
            r@.cursor == 0,
            r@.playing,
            r@.latencies.len() == 0,
    {
        ReplayTimeline {
            session_name: session,
            history: Vec::new(),
            cursor: 0,
            playing: true,
            latencies: VecDeque::new(),
        }
    }

    /// Switches to `name`. A different session clears the history.
    pub fn select_session(&mut self, name: String)
        requires
            timeline_wf(old(self)@),
        ensures
            timeline_wf(final(self)@),
            final(self)@ == select_spec(old(self)@, name@),
    {
        if name != self.session_name {
            self.history.clear();
            self.cursor = 0;
            self.session_name = name;
            proof {
                assert(self@.history =~= Seq::<Frame>::empty());
            }
        }
    }

    /// Takes in an arriving frame. A frame whose index does not exceed the
    /// last stored one signals a loop: the history is cleared first, and the
    /// display cursor returns to its start.
    pub fn accept_frame(&mut self, frame: Frame)
        requires
            timeline_wf(old(self)@),
            old(self)@.history.len() < usize::MAX,
        ensures
            timeline_wf(final(self)@),
            final(self)@.history == accept_spec(old(self)@.history, frame),
            final(self)@.session == old(self)@.session,
            final(self)@.playing == old(self)@.playing,
            final(self)@.latencies == old(self)@.latencies,
            final(self)@.history.len() == 1 ==> final(self)@.cursor == 0,
            final(self)@.history.len() > 1 ==> final(self)@.cursor == old(self)@.cursor,
    {
        let n = self.history.len();
        if n > 0 && frame.frame_index <= self.history[n - 1].frame_index {
            self.history.clear();
            self.cursor = 0;
        }
        self.history.push(frame);
        proof {
            let h = self@.history;
            assert(h == accept_spec(old(self)@.history, frame));
            assert forall|i: int, j: int| 0 <= i < j < h.len() implies (#[trigger] h[i]).frame_index < (
            #[trigger] h[j]).frame_index by {
                if j == h.len() - 1 && h.len() > 1 {
                    assert(h[i] == old(self)@.history[i]);
                    assert(old(self)@.history.last() == old(self)@.history[n - 1]);
                    if i < n - 1 {
                        assert(old(self)@.history[i].frame_index < old(self)@.history[n - 1].frame_index);
                    }
                }
            }
        }
    }

    /// Adds a round-trip latency sample, evicting the oldest when the window
    /// is full.
    pub fn record_latency(&mut self, nanos: u64)
        requires
            timeline_wf(old(self)@),
        ensures
            timeline_wf(final(self)@),
            final(self)@.latencies == window_spec(old(self)@.latencies, nanos),
            final(self)@.history == old(self)@.history,
            final(self)@.session == old(self)@.session,
            final(self)@.cursor == old(self)@.cursor,
            final(self)@.playing == old(self)@.playing,
    {
        self.latencies.push_back(nanos);
        if self.latencies.len() > LATENCY_WINDOW {
            self.latencies.pop_front();
        }
        proof {
            assert(self@.latencies =~= window_spec(old(self)@.latencies, nanos));
        }
    }

    /// The index of the next frame to fetch, while fewer than `total`
    /// frames are stored.
    pub fn next_fetch_index(&self, total: u64) -> (r: Option<u64>)
        ensures
            (self@.history.len() < total) ==> r == Some(self@.history.len() as u64),
            (self@.history.len() >= total) ==> r is None,
    {
        let n = self.history.len();
        if (n as u64) < total {
            Some(n as u64)
        } else {
            None
        }
    }

    /// Starts advancing the display cursor on each pass.
    pub fn play(&mut self)
        ensures
            final(self)@ == (TimelineModel { playing: true, ..old(self)@ }),
    {
        self.playing = true;
    }

    /// Stops advancing the display cursor.
    pub fn pause(&mut self)
        ensures
            final(self)@ == (TimelineModel { playing: false, ..old(self)@ }),
    {
        self.playing = false;
    }

    /// Moves the display cursor one frame on, unless it shows the last
    /// fetched frame.
    pub fn step(&mut self)
        requires
            timeline_wf(old(self)@),
        ensures
            timeline_wf(final(self)@),
            old(self)@.cursor + 1 < old(self)@.history.len() ==> final(self)@ == (TimelineModel {
                cursor: old(self)@.cursor + 1,
                ..old(self)@
            }),
            old(self)@.cursor + 1 >= old(self)@.history.len() ==> final(self)@ == old(self)@,
    {
        if self.history.len() > 0 && self.cursor < self.history.len() - 1 {
            self.cursor = self.cursor + 1;
        }
    }

    /// Moves the display cursor one frame back, unless it shows the first.
    pub fn previous(&mut self)
        requires
            timeline_wf(old(self)@),
        ensures
            timeline_wf(final(self)@),
            old(self)@.cursor > 0 ==> final(self)@ == (TimelineModel {
                cursor: (old(self)@.cursor - 1) as nat,
                ..old(self)@
            }),
            old(self)@.cursor == 0 ==> final(self)@ == old(self)@,
    {
        if self.cursor > 0 {
            self.cursor = self.cursor - 1;
        }
    }

    /// The fetched frames, in order.
    pub fn history(&self) -> (r: &Vec<Frame>)
        ensures
            r@ == self@.history,
    {
        &self.history
    }

    /// The frame under the display cursor.
    pub fn current_frame(&self) -> (r: Option<&Frame>)
        requires
            timeline_wf(self@),
        ensures
            self@.history.len() == 0 ==> r is None,
            self@.history.len() > 0 ==> r == Some(&self@.history[self@.cursor as int]),
    {
        if self.cursor < self.history.len() {
            Some(&self.history[self.cursor])
        } else {
            None
        }
    }

    /// The display cursor's position.
    pub fn cursor(&self) -> (r: usize)
        ensures
            r == self@.cursor,
    {
        self.cursor
    }

    /// Whether the cursor advances on each pass.
    pub fn is_playing(&self) -> (r: bool)
        ensures
            r == self@.playing,
    {
        self.playing
    }

    /// The selected session.
    pub fn session_name(&self) -> (r: &String)
        ensures
            r@ == self@.session,
    {
        &self.session_name
    }

    /// The latency samples, oldest first.
    pub fn latencies(&self) -> (r: Vec<u64>)
        ensures
            r@ == self@.latencies,
    {
        let mut r: Vec<u64> = Vec::new();
        let n = self.latencies.len();
        let mut i: usize = 0;
        while i < n
            invariant
                n == self@.latencies.len(),
                i <= n,
                r@ == self@.latencies.subrange(0, i as int),
            decreases n - i,
        {
            r.push(self.latencies[i]);
            i = i + 1;
            proof {
                assert(r@ =~= self@.latencies.subrange(0, i as int));
            }
        }
        proof {
            assert(self@.latencies.subrange(0, n as int) =~= self@.latencies);
        }
        r
    }
}

/// Whatever frames arrive, the history is the current epoch of the
/// arrivals: the frames since the last loop, in arrival order, strictly
/// ascending. It never holds more frames than arrived since the last reset.
pub proof fn lemma_history_is_epoch(fs: Seq<Frame>)
    ensures
        0 <= epoch_start(fs) <= fs.len(),
        history_after(fs) == fs.subrange(epoch_start(fs), fs.len() as int),
        frames_ascending(history_after(fs)),
    decreases fs.len(),
{
    if fs.len() > 0 {
        let d = fs.drop_last();
        lemma_history_is_epoch(d);
        let h = history_after(d);
        if fs.len() == 1 {
            assert(history_after(fs) =~= fs.subrange(0, 1));
        } else {
            assert(h.last() == fs[fs.len() - 2]);
            if fs.last().frame_index <= fs[fs.len() - 2].frame_index {
                assert(history_after(fs) =~= fs.subrange(fs.len() - 1, fs.len() as int));
            } else {
                assert(history_after(fs) =~= fs.subrange(epoch_start(fs), fs.len() as int));
                let g = history_after(fs);
                assert forall|i: int, j: int| 0 <= i < j < g.len() implies (#[trigger] g[i]).frame_index
                    < (#[trigger] g[j]).frame_index by {
                    if j == g.len() - 1 && i < j - 1 {
                        assert(h[i].frame_index < h[h.len() - 1].frame_index);
                    }
                }
            }
        }
    }
}

/// The latency window keeps the newest samples, never more than its
/// capacity.
pub proof fn lemma_window_bounded(w: Seq<u64>, x: u64)
    requires
        w.len() <= LATENCY_WINDOW,
    ensures
        window_spec(w, x).len() <= LATENCY_WINDOW,
        window_spec(w, x).last() == x,
        w.len() < LATENCY_WINDOW ==> window_spec(w, x) == w.push(x),
        w.len() == LATENCY_WINDOW ==> window_spec(w, x) == w.subrange(1, w.len() as int).push(x),
{
    if w.len() == LATENCY_WINDOW {
        assert(w.push(x).drop_first() =~= w.subrange(1, w.len() as int).push(x));
    }
}

/// `web_time::Instant`, the moment a fetch was issued; carried opaquely.
#[verifier::external_type_specification]
#[verifier::external_body]
pub struct ExInstant(web_time::Instant);

/// Relies on `web_time::Instant::now`: reads the monotonic clock.
#[verifier::external_body]
fn now() -> web_time::Instant {
    web_time::Instant::now()
}

/// Relies on `web_time::Instant::elapsed`: the time since `start`, in
/// nanoseconds.
#[verifier::external_body]
fn elapsed_nanos(start: &web_time::Instant) -> u128 {
    start.elapsed().as_nanos()
}

/// What became of a finished frame fetch.
#[derive(Clone, Copy, Debug, PartialEq, Eq, Structural)]
pub enum FetchEvent {
    /// A frame arrived and entered the history.
    Accepted,
    /// The fetch ended without a usable frame; a later pass may retry.
    Dropped(RemoteError),
}

/// The frame a finished fetch brought, as index, timestamp and snapshot,
/// or why it brought none.
pub open spec fn fetched_frame(r: Result<Seq<Seq<u8>>, RemoteError>) -> Result<(u64, u64, Seq<u8>), RemoteError> {
    match r {
        Err(e) => Err(e),
        Ok(cs) => if flatten(cs).len() > usize::MAX {
            Err(RemoteError::Decode)
        } else {
            match decode_frame_spec(flatten(cs)) {
                None => Err(RemoteError::Decode),
                Some(w) => Ok(w),
            }
        },
    }
}

pub open spec fn chunk_result_view(r: ChunkResult) -> Result<Seq<Seq<u8>>, RemoteError> {
    match r {
        Ok(cs) => Ok(chunks_view(cs@)),
        Err(e) => Err(e),
    }
}

/// The cursor after one pass: it advances while playing, up to the last
/// fetched frame.
pub open spec fn advance_spec(t: TimelineModel) -> TimelineModel {
    if t.playing && t.cursor + 1 < t.history.len() {
        TimelineModel { cursor: t.cursor + 1, ..t }
    } else {
        t
    }
}

/// The timeline after frame `f` arrived with round-trip latency `x`.
pub open spec fn after_frame(t: TimelineModel, f: Frame, x: u64) -> TimelineModel {
    let h = accept_spec(t.history, f);
    TimelineModel {
        history: h,
        latencies: window_spec(t.latencies, x),
        cursor: if h.len() == 1 {
            0
        } else {
            t.cursor
        },
        ..t
    }
}

/// How a finished fetch settles: `old` and `new` are the timeline before
/// and after, `fs` the session the fetch was issued for, `x` its
/// round-trip latency. A failed or undecodable fetch, or one for a session
/// no longer selected, changes nothing; a frame otherwise enters the history
/// and its latency the window.
pub open spec fn settled(
    old: TimelineModel,
    fs: Seq<char>,
    res: Result<Seq<Seq<u8>>, RemoteError>,
    x: u64,
    new: TimelineModel,
    r: FetchEvent,
) -> bool {
    match fetched_frame(res) {
        Err(e) => r == FetchEvent::Dropped(e) && new == old,
        Ok(w) => if fs != old.session {
            r == FetchEvent::Dropped(RemoteError::Stale) && new == old
        } else {
            r == FetchEvent::Accepted && exists|f: Frame|
                f.frame_index == w.0 && f.timestamp_bits == w.1 && f.snapshot@ == w.2 && new
                    == #[trigger] after_frame(old, f, x)
        },
    }
}

/// The index a pass asks for: the next one, while no fetch is in flight
/// and fewer than `total` frames are stored.
pub open spec fn request_index(t: TimelineModel, fetching: bool, total: u64) -> Option<u64> {
    if !fetching && t.history.len() < usize::MAX && t.history.len() < total {
        Some(t.history.len() as u64)
    } else {
        None
    }
}

/// The replay timeline with the bookkeeping of its one frame fetch.
pub struct ReplayController {
    timeline: ReplayTimeline,
    in_flight: bool,
    fetch_session: String,
    started: Option<web_time::Instant>,
}

impl ReplayController {
    pub closed spec fn wf(&self) -> bool {
        &&& timeline_wf(self.timeline@)
        &&& self.in_flight ==> self.started.is_some() && self.timeline@.history.len() < usize::MAX
    }

    pub closed spec fn model(&self) -> TimelineModel {
        self.timeline@
    }

    /// Whether a frame fetch is in flight.
    pub closed spec fn fetching(&self) -> bool {
        self.in_flight
    }

    /// The session the fetch in flight was issued for.
    pub closed spec fn fetch_session(&self) -> Seq<char> {
        self.fetch_session@
    }

    /// The controller's invariant includes the timeline's.
    pub proof fn lemma_wf_timeline(&self)
        requires
            self.wf(),
        ensures
            timeline_wf(self.model()),
    {
    }

    /// A controller for `session` with no frame and no fetch in flight.
    pub fn new(session: String) -> (r: ReplayController)
        ensures
            r.wf(),
            !r.fetching(),
            r.model().session == session@,
            r.model().history.len() == 0,
            r.model().cursor == 0,
            r.model().playing,
            r.model().latencies.len() == 0,
    {
        ReplayController {
            timeline: ReplayTimeline::new(session),
            in_flight: false,
            fetch_session: String::new(),
            started: None,
        }
    }

    /// Read access to the timeline.
    pub fn timeline(&self) -> (r: &ReplayTimeline)
        ensures
            r@ == self.model(),
    {
        &self.timeline
    }

    /// See [`ReplayTimeline::select_session`]. A fetch in flight stays in
    /// flight; its frame is dropped when it arrives.
    pub fn select_session(&mut self, name: String)
        requires
            old(self).wf(),
        ensures
            final(self).wf(),
            final(self).model() == select_spec(old(self).model(), name@),
            final(self).fetching() == old(self).fetching(),
            final(self).fetch_session() == old(self).fetch_session(),
    {
        self.timeline.select_session(name)
    }

    /// See [`ReplayTimeline::play`].
    pub fn play(&mut self)
        requires
            old(self).wf(),
        ensures
            final(self).wf(),
            final(self).model() == (TimelineModel { playing: true, ..old(self).model() }),
            final(self).fetching() == old(self).fetching(),
            final(self).fetch_session() == old(self).fetch_session(),
    {
        self.timeline.play()
    }

    /// See [`ReplayTimeline::pause`].
    pub fn pause(&mut self)
        requires
            old(self).wf(),
        ensures
            final(self).wf(),
            final(self).model() == (TimelineModel { playing: false, ..old(self).model() }),
            final(self).fetching() == old(self).fetching(),
            final(self).fetch_session() == old(self).fetch_session(),
    {
        self.timeline.pause()
    }

    /// See [`ReplayTimeline::step`].
    pub fn step(&mut self)
        requires
            old(self).wf(),
        ensures
            final(self).wf(),
            final(self).model() == (if old(self).model().cursor + 1 < old(self).model().history.len() {
                TimelineModel { cursor: old(self).model().cursor + 1, ..old(self).model() }
            } else {
                old(self).model()
            }),
            final(self).fetching() == old(self).fetching(),
            final(self).fetch_session() == old(self).fetch_session(),
    {
        self.timeline.step()
    }

    /// See [`ReplayTimeline::previous`].
    pub fn previous(&mut self)
        requires
            old(self).wf(),
        ensures
            final(self).wf(),
            final(self).model() == (if old(self).model().cursor > 0 {
                TimelineModel { cursor: (old(self).model().cursor - 1) as nat, ..old(self).model() }
            } else {
                old(self).model()
            }),
            final(self).fetching() == old(self).fetching(),
            final(self).fetch_session() == old(self).fetch_session(),
    {
        self.timeline.previous()
    }

    /// The first half of a pass, called once per frame: advance the cursor
    /// while playing; then, with no fetch in flight and fewer than `total`
    /// frames stored, note the time and return the index of the next frame
    /// of the session, which the caller fetches. While a fetch is in flight
    /// nothing is requested.
    pub fn begin_pass(&mut self, total: u64) -> (r: Option<u64>)
        requires
            old(self).wf(),
        ensures
            final(self).wf(),
            final(self).model() == advance_spec(old(self).model()),
            r == request_index(old(self).model(), old(self).fetching(), total),
            r is Some ==> final(self).fetching() && final(self).fetch_session() == old(self).model().session,
            r is None ==> final(self).fetching() == old(self).fetching() && final(self).fetch_session()
                == old(self).fetch_session(),
    {
        if self.timeline.playing {
            self.timeline.step();
        }
        if self.in_flight {
            return None;
        }
        let n = self.timeline.history.len();
        if n < usize::MAX && (n as u64) < total {
            self.started = Some(now());
            self.fetch_session = self.timeline.session_name.clone();
            self.in_flight = true;
            Some(n as u64)
        } else {
            None
        }
    }

    /// Settles the fetch in flight with what it brought and its round-trip
    /// latency `nanos`.
    pub fn settle_fetch(&mut self, result: ChunkResult, nanos: u64) -> (r: FetchEvent)
        requires
            old(self).wf(),
            old(self).fetching(),
        ensures
            final(self).wf(),
            !final(self).fetching(),
            settled(old(self).model(), old(self).fetch_session(), chunk_result_view(result), nanos, final(self).model(), r),
    {
        self.in_flight = false;
        self.started = None;
        let ghost res = chunk_result_view(result);
        let decoded = match result {
            Err(e) => Err(e),
            Ok(chunks) => match concat_chunks(&chunks) {
                Some(b) => {
                    let blen = b.len();
                    assert(flatten(chunks_view(chunks@)).len() == blen);
                    decode_frame(b.as_slice())
                },
                None => Err(RemoteError::Decode),
            },
        };
        assert(match fetched_frame(res) {
            Err(e) => decoded == Err::<Frame, RemoteError>(e),
            Ok(w) => decoded is Ok && decoded->Ok_0.frame_index == w.0 && decoded->Ok_0.timestamp_bits
                == w.1 && decoded->Ok_0.snapshot@ == w.2,
        });
        match decoded {
            Err(e) => FetchEvent::Dropped(e),
            Ok(frame) => {
                if self.fetch_session != self.timeline.session_name {
                    FetchEvent::Dropped(RemoteError::Stale)
                } else {
                    let ghost fr = frame;
                    let ghost before = self.timeline@;
                    self.timeline.accept_frame(frame);
                    self.timeline.record_latency(nanos);
                    assert(self.timeline@ == after_frame(before, fr, nanos));
                    FetchEvent::Accepted
                }
            },
        }
    }

    /// Settles the fetch in flight with what it brought, measuring its round
    /// trip from the time noted when it was issued.
    pub fn on_frame(&mut self, result: ChunkResult) -> (r: FetchEvent)
        requires
            old(self).wf(),
            old(self).fetching(),
        ensures
            final(self).wf(),
            !final(self).fetching(),
            exists|x: u64|
                #[trigger] settled(
                    old(self).model(),
                    old(self).fetch_session(),
                    chunk_result_view(result),
                    x,
                    final(self).model(),
                    r,
                ),
    {
        let nanos: u64 = match &self.started {
            Some(t) => {
                let e = elapsed_nanos(t);
                if e > u64::MAX as u128 {
                    u64::MAX
                } else {
                    e as u64
                }
            },
            None => 0,
        };
        self.settle_fetch(result, nanos)
    }
}

/// The session a player shows: the chosen one, or the default session.
pub open spec fn session_of(p: WorldPlayer) -> Seq<char> {
    match p.selected_world_name {
        Some(s) => s@,
        None => default_session(),
    }
}

impl ReplayController {
    /// The first half of a pass for the player's session: switch to the
    /// session the player shows (the chosen one, or the default session),
    /// then run [`ReplayController::begin_pass`] with the frame count that
    /// `worlds` announces for it.
    pub fn follow(&mut self, player: &WorldPlayer, worlds: &Vec<WorldMeta>) -> (r: Option<u64>)
        requires
            old(self).wf(),
        ensures
            final(self).wf(),
            final(self).model() == advance_spec(select_spec(old(self).model(), session_of(*player))),
            r == request_index(
                select_spec(old(self).model(), session_of(*player)),
                old(self).fetching(),
                frame_total_spec(worlds@, session_of(*player)) as u64,
            ),
            r is Some ==> final(self).fetching() && final(self).fetch_session() == session_of(*player),
            r is None ==> final(self).fetching() == old(self).fetching() && final(self).fetch_session()
                == old(self).fetch_session(),
    {
        let name = player.session_name();
        let total = frame_total(worlds, &name);
        self.select_session(name);
        self.begin_pass(total as u64)
    }
}

} // verus!
