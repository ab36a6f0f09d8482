//! The playback scheduler: a state machine that takes messages (commands,
//! timer ticks, fetched frames) and answers each with the action to perform.
//! It owns the frame sequence, the playback cursor, the blink flag and the
//! session clock; whoever drives it runs the timers and the fetches.

use crate::clock::{elapsed_after, ClockReading, SessionClock};
use crate::fetch::FetchError;
use crate::frame::{frame_views, strictly_increasing, Frame, FrameView};
use crate::sequence::{appended, lemma_appended, lemma_appended_to_empty, FrameSequence};
use vstd::prelude::*;

verus! {

/// The period of the clock tick while playing, in milliseconds.
pub const TICK_PERIOD_MS: u64 = 10;

/// The period of the tick that advances the cursor and blinks, in
/// milliseconds.
pub const BLINK_PERIOD_MS: u64 = 100;

/// How long a refill waits before it fetches, in milliseconds.
pub const REFILL_DELAY_MS: u64 = 334;

/// The number of participants in one batch of a fetch.
pub const BATCH_SIZE: usize = 3;

/// The number of valid samples that a fetch asks of each participant.
pub const PER_PARTICIPANT_LIMIT: usize = 120;

/// Where the scheduler stands.
#[derive(Clone, Copy, Debug, PartialEq, Eq, Structural)]
pub enum State {
    /// Nothing runs.
    Idle,
    /// The first fetch is under way; nothing is played yet.
    Fetching,
    /// Frames are played. Refills may be under way.
    Playing,
}

/// A fetch to run: over all participants, after a delay.
#[derive(Clone, Copy, Debug, PartialEq, Eq, Structural)]
pub struct FetchPlan {
    pub delay_ms: u64,
    pub batch_size: usize,
    pub per_participant_limit: usize,
}

/// What the driver is to do after a message.
#[derive(Clone, Copy, Debug, PartialEq, Eq, Structural)]
pub enum Action {
    /// Nothing.
    Nothing,
    /// Run this fetch, build its frames, and send them back in a
    /// `DataFetched` message.
    Fetch(FetchPlan),
}

/// What the scheduler is told.
#[derive(Debug)]
pub enum Message {
    /// The start and stop command.
    Toggle,
    /// The reset command.
    Reset,
    /// The clock tick, with the time at which it fell, in milliseconds.
    Tick(u64),
    /// The tick that advances the cursor and blinks.
    Blink,
    /// A fetch has ended, at the time `now_ms`: its frames, or its failure.
    DataFetched { result: Result<Vec<Frame>, FetchError>, now_ms: u64 },
}

/// The scheduler's state.
pub struct SchedulerView {
    pub state: State,
    pub blink: bool,
    pub frames: Seq<FrameView>,
    pub cursor: nat,
    pub elapsed_ms: u64,
    pub last_tick_ms: Option<u64>,
    pub participant_ids: Seq<u32>,
}

/// What holds of the scheduler at all times: the frames are in strict
/// order; the cursor points at a frame, or is 0 where there is none; frames
/// are played only if there are any, and none are held while the first fetch
/// runs; the clock runs exactly while frames are played.
pub open spec fn well_formed(s: SchedulerView) -> bool {
    &&& strictly_increasing(s.frames)
    &&& if s.frames.len() == 0 {
        s.cursor == 0
    } else {
        s.cursor < s.frames.len()
    }
    &&& s.state is Playing ==> s.frames.len() > 0
    &&& s.state is Fetching ==> s.frames.len() == 0
    &&& s.last_tick_ms is Some <==> s.state is Playing
}

/// The first fetch of a playback: at once.
pub open spec fn first_fetch() -> FetchPlan {
    FetchPlan { delay_ms: 0, batch_size: BATCH_SIZE, per_participant_limit: PER_PARTICIPANT_LIMIT }
}

/// A refill: after the refill delay.
pub open spec fn refill() -> FetchPlan {
    FetchPlan {
        delay_ms: REFILL_DELAY_MS,
        batch_size: BATCH_SIZE,
        per_participant_limit: PER_PARTICIPANT_LIMIT,
    }
}

/// The state after a start or stop command. From `Idle` it starts: the
/// frames of an earlier playback are let go and the cursor goes to 0. From
/// `Fetching` and `Playing` it stops: the blink flag is cleared and the
/// clock halts, while the frames, the cursor and the elapsed time stay.
pub open spec fn after_toggle(s: SchedulerView) -> SchedulerView {
    match s.state {
        State::Idle => SchedulerView { state: State::Fetching, frames: Seq::empty(), cursor: 0, ..s },
        State::Fetching => SchedulerView { state: State::Idle, blink: false, ..s },
        State::Playing => SchedulerView {
            state: State::Idle,
            blink: false,
            last_tick_ms: None,
            ..s
        },
    }
}

/// The state after a reset: elapsed time and cursor at zero, the blink flag
/// cleared; the state and the frames stay.
pub open spec fn after_reset(s: SchedulerView) -> SchedulerView {
    SchedulerView { elapsed_ms: 0, blink: false, cursor: 0, ..s }
}

/// The state after a clock tick at `now_ms`: while playing, the time since
/// the last tick is added; otherwise nothing changes.
pub open spec fn after_tick(s: SchedulerView, now_ms: u64) -> SchedulerView {
    match s.last_tick_ms {
        Some(last) if s.state is Playing => SchedulerView {
            elapsed_ms: elapsed_after(s.elapsed_ms, last, now_ms),
            last_tick_ms: Some(now_ms),
            ..s
        },
        _ => s,
    }
}

/// The state after a blink tick: while playing, the cursor moves on by one
/// frame, from the last frame to the first, and the blink flag flips;
/// otherwise nothing changes.
pub open spec fn after_blink(s: SchedulerView) -> SchedulerView {
    if s.state is Playing && s.frames.len() > 0 {
        SchedulerView {
            blink: !s.blink,
            cursor: (s.cursor + 1) % s.frames.len(),
            ..s
        }
    } else {
        s
    }
}

/// The state after a fetch has delivered `batch` at `now_ms`. In `Idle` the
/// delivery is dropped. In `Fetching` the frames are taken in; with a frame
/// to show, playing begins and the clock starts, and without one the
/// scheduler goes back to `Idle`. In `Playing` the frames are appended.
pub open spec fn after_frames(s: SchedulerView, batch: Seq<FrameView>, now_ms: u64) -> SchedulerView {
    match s.state {
        State::Idle => s,
        State::Fetching => {
            let frames = appended(s.frames, batch);
            if frames.len() > 0 {
                SchedulerView {
                    state: State::Playing,
                    frames,
                    last_tick_ms: Some(now_ms),
                    ..s
                }
            } else {
                SchedulerView { state: State::Idle, frames, ..s }
            }
        },
        State::Playing => SchedulerView { frames: appended(s.frames, batch), ..s },
    }
}

/// The state after a fetch has failed: the first fetch of a playback sends
/// the scheduler back to `Idle`; a refill that fails changes nothing.
pub open spec fn after_failure(s: SchedulerView) -> SchedulerView {
    match s.state {
        State::Fetching => SchedulerView { state: State::Idle, ..s },
        _ => s,
    }
}

/// The state after a message.
pub open spec fn after_message(s: SchedulerView, message: Message) -> SchedulerView {
    match message {
        Message::Toggle => after_toggle(s),
        Message::Reset => after_reset(s),
        Message::Tick(now_ms) => after_tick(s, now_ms),
        Message::Blink => after_blink(s),
        Message::DataFetched { result: Ok(batch), now_ms } => after_frames(
            s,
            frame_views(batch@),
            now_ms,
        ),
        Message::DataFetched { result: Err(_), now_ms } => after_failure(s),
    }
}

/// The action that answers a message. A start asks for the first fetch.
/// A delivery that begins playing, or that makes the played sequence longer,
/// asks for a refill; one that adds nothing, and a failure, ask for nothing,
/// so that refilling ends there.
pub open spec fn action_for(s: SchedulerView, message: Message) -> Action {
    match message {
        Message::Toggle if s.state is Idle => Action::Fetch(first_fetch()),
        Message::DataFetched { result: Ok(batch), now_ms } => {
            let frames = appended(s.frames, frame_views(batch@));
            if s.state is Fetching && frames.len() > 0 || s.state is Playing && frames.len()
                > s.frames.len() {
                Action::Fetch(refill())
            } else {
                Action::Nothing
            }
        },
        _ => Action::Nothing,
    }
}

/// Every message leaves a well-formed scheduler well formed.
pub proof fn lemma_well_formed_kept(s: SchedulerView, message: Message)
    requires
        well_formed(s),
    ensures
        well_formed(after_message(s, message)),
{
    match message {
        Message::DataFetched { result: Ok(batch), now_ms } => {
            lemma_appended(s.frames, frame_views(batch@));
        },
        Message::Blink => {
            if s.state is Playing {
                let n = s.frames.len();
                assert(0 <= (s.cursor + 1) % n < n);
            }
        },
        _ => {},
    }
}

/// The frame sequence only grows at its end, whatever the message, but for
/// a start from `Idle`, which begins a new sequence.
pub proof fn lemma_frames_kept(s: SchedulerView, message: Message)
    requires
        !(message is Toggle && s.state is Idle),
    ensures
        s.frames.is_prefix_of(after_message(s, message).frames),
{
    match message {
        Message::DataFetched { result: Ok(batch), now_ms } => {
            lemma_appended(s.frames, frame_views(batch@));
        },
        _ => {},
    }
}

/// The state of a scheduler at rest for the given participants.
pub open spec fn at_rest(participant_ids: Seq<u32>) -> SchedulerView {
    SchedulerView {
        state: State::Idle,
        blink: false,
        frames: Seq::empty(),
        cursor: 0,
        elapsed_ms: 0,
        last_tick_ms: None,
        participant_ids,
    }
}

/// The state after a run of messages, taken in their order.
pub open spec fn after_messages(s: SchedulerView, messages: Seq<Message>) -> SchedulerView
    decreases messages.len(),
{
    if messages.len() == 0 {
        s
    } else {
        after_message(after_messages(s, messages.drop_last()), messages.last())
    }
}

/// Whatever messages arrive, in whatever order, the scheduler stays well
/// formed: the cursor points at a frame whenever there is one, the frames
/// are in strict order, and frames are played only while there are any.
pub proof fn lemma_always_well_formed(participant_ids: Seq<u32>, messages: Seq<Message>)
    ensures
        well_formed(after_messages(at_rest(participant_ids), messages)),
    decreases messages.len(),
{
    if messages.len() > 0 {
        lemma_always_well_formed(participant_ids, messages.drop_last());
        lemma_well_formed_kept(
            after_messages(at_rest(participant_ids), messages.drop_last()),
            messages.last(),
        );
    }
}

/// A start from `Idle` leads to `Fetching`, and the delivery that follows
/// leads on to `Playing` exactly if it brings a frame, and back to `Idle`
/// if it brings none; a failure leads back to `Idle` too.
pub proof fn lemma_first_delivery(s: SchedulerView, batch: Seq<FrameView>, now_ms: u64)
    requires
        s.state is Idle,
    ensures
        after_toggle(s).state is Fetching,
        batch.len() > 0 ==> after_frames(after_toggle(s), batch, now_ms).state is Playing,
        batch.len() == 0 ==> after_frames(after_toggle(s), batch, now_ms).state is Idle,
        after_failure(after_toggle(s)).state is Idle,
{
    lemma_appended_to_empty(batch);
}

/// The state after `n` blink ticks in a row.
pub open spec fn after_blinks(s: SchedulerView, n: nat) -> SchedulerView
    decreases n,
{
    if n == 0 {
        s
    } else {
        after_blink(after_blinks(s, (n - 1) as nat))
    }
}

/// While playing, `n` blink ticks move the cursor `n` frames on, round the
/// sequence as often as it takes, and flip the blink flag `n` times; nothing
/// else changes.
pub proof fn lemma_cursor_wraps(s: SchedulerView, n: nat)
    requires
        well_formed(s),
        s.state is Playing,
    ensures
        after_blinks(s, n).cursor == (s.cursor + n) % s.frames.len(),
        after_blinks(s, n).blink == (if n % 2 == 0 {
            s.blink
        } else {
            !s.blink
        }),
        after_blinks(s, n).frames == s.frames,
        after_blinks(s, n).state == s.state,
        after_blinks(s, n).elapsed_ms == s.elapsed_ms,
    decreases n,
{
    let len = s.frames.len() as int;
    let start = s.cursor as int;
    if n == 0 {
        vstd::arithmetic::div_mod::lemma_small_mod(s.cursor, s.frames.len());
    } else {
        lemma_cursor_wraps(s, (n - 1) as nat);
        assert((((start + n - 1) % len) + 1) % len == (start + n) % len) by {
            vstd::arithmetic::div_mod::lemma_add_mod_noop(start + n - 1, 1, len);
            vstd::arithmetic::div_mod::lemma_mod_twice(start + n - 1, len);
            vstd::arithmetic::div_mod::lemma_add_mod_noop((start + n - 1) % len, 1, len);
        }
    }
}

/// The playback scheduler.
pub struct Scheduler {
    state: State,
    blink: bool,
    frames: FrameSequence,
    cursor: usize,
    clock: SessionClock,
    participant_ids: Vec<u32>,
}

impl View for Scheduler {
    type V = SchedulerView;

    closed spec fn view(&self) -> SchedulerView {
        SchedulerView {
            state: self.state,
            blink: self.blink,
            frames: self.frames@,
            cursor: self.cursor as nat,
            elapsed_ms: self.clock.elapsed(),
            last_tick_ms: self.clock.last_tick(),
            participant_ids: self.participant_ids@,
        }
    }
}

impl Scheduler {
    /// A scheduler at rest for the given participants: `Idle`, no frame,
    /// cursor and clock at zero, blink flag clear.
    pub fn new(participant_ids: Vec<u32>) -> (scheduler: Scheduler)
        ensures
            well_formed(scheduler@),
            scheduler@ == at_rest(participant_ids@),
    {
        let scheduler = Scheduler {
            state: State::Idle,
            blink: false,
            frames: FrameSequence::new(),
            cursor: 0,
            clock: SessionClock::new(),
            participant_ids,
        };
        proof {
            assert(scheduler@.frames =~= Seq::<FrameView>::empty());
        }
        scheduler
    }

    /// Takes a message in and says what to do next. A scheduler that was
    /// well formed before is so after.
    pub fn update(&mut self, message: Message) -> (action: Action)
        ensures
            final(self)@ == after_message(old(self)@, message),
            action == action_for(old(self)@, message),
            well_formed(old(self)@) ==> well_formed(final(self)@),
            !(message is Toggle && old(self)@.state is Idle) ==> old(self)@.frames.is_prefix_of(
                final(self)@.frames,
            ),
    {
        proof {
            if well_formed(self@) {
                lemma_well_formed_kept(self@, message);
            }
            if !(message is Toggle && self@.state is Idle) {
                lemma_frames_kept(self@, message);
            }
        }
        match message {
            Message::Toggle => match self.state {
                State::Idle => {
                    self.state = State::Fetching;
                    self.frames.clear();
                    self.cursor = 0;
                    proof {
                        assert(self@.frames =~= Seq::<FrameView>::empty());
                    }
                    Action::Fetch(
                        FetchPlan {
                            delay_ms: 0,
                            batch_size: BATCH_SIZE,
                            per_participant_limit: PER_PARTICIPANT_LIMIT,
                        },
                    )
                },
                State::Fetching => {
                    self.state = State::Idle;
                    self.blink = false;
                    Action::Nothing
                },
                State::Playing => {
                    self.state = State::Idle;
                    self.blink = false;
                    self.clock.stop();
                    Action::Nothing
                },
            },
            Message::Reset => {
                self.clock.reset();
                self.blink = false;
                self.cursor = 0;
                Action::Nothing
            },
            Message::Tick(now_ms) => {
                match self.state {
                    State::Playing => {
                        self.clock.advance(now_ms);
                    },
                    _ => {},
                }
                Action::Nothing
            },
            Message::Blink => {
                match self.state {
                    State::Playing => {
                        let count = self.frames.len();
                        if count > 0 {
                            proof {
                                vstd::arithmetic::div_mod::lemma_add_mod_noop(
                                    self.cursor as int,
                                    1,
                                    count as int,
                                );
                                vstd::arithmetic::div_mod::lemma_add_mod_noop(
                                    (self.cursor % count) as int,
                                    1,
                                    count as int,
                                );
                                vstd::arithmetic::div_mod::lemma_mod_twice(
                                    self.cursor as int,
                                    count as int,
                                );
                            }
                            self.blink = !self.blink;
                            self.cursor = (self.cursor % count + 1) % count;
                        }
                    },
                    _ => {},
                }
                Action::Nothing
            },
            Message::DataFetched { result, now_ms } => match result {
                Ok(batch) => match self.state {
                    State::Idle => Action::Nothing,
                    State::Fetching => {
                        self.frames.append(batch);
                        if !self.frames.is_empty() {
                            self.state = State::Playing;
                            self.clock.start(now_ms);
                            Action::Fetch(
                                FetchPlan {
                                    delay_ms: REFILL_DELAY_MS,
                                    batch_size: BATCH_SIZE,
                                    per_participant_limit: PER_PARTICIPANT_LIMIT,
                                },
                            )
                        } else {
                            self.state = State::Idle;
                            Action::Nothing
                        }
                    },
                    State::Playing => {
                        let added = self.frames.append(batch);
                        if added > 0 {
                            Action::Fetch(
                                FetchPlan {
                                    delay_ms: REFILL_DELAY_MS,
                                    batch_size: BATCH_SIZE,
                                    per_participant_limit: PER_PARTICIPANT_LIMIT,
                                },
                            )
                        } else {
                            Action::Nothing
                        }
                    },
                },
                Err(_) => {
                    match self.state {
                        State::Fetching => {
                            self.state = State::Idle;
                        },
                        _ => {},
                    }
                    Action::Nothing
                },
            },
        }
    }

    /// Where the scheduler stands.
    pub fn state(&self) -> (state: State)
        ensures
            state == self@.state,
    {
        self.state
    }

    /// The blink flag.
    pub fn blink(&self) -> (blink: bool)
        ensures
            blink == self@.blink,
    {
        self.blink
    }

    /// The place of the frame to show.
    pub fn cursor(&self) -> (cursor: usize)
        ensures
            cursor == self@.cursor,
    {
        self.cursor
    }

    /// The number of frames held.
    pub fn frame_count(&self) -> (count: usize)
        ensures
            count == self@.frames.len(),
    {
        self.frames.len()
    }

    /// The frame at place `index`, `None` past the end.
    pub fn frame(&self, index: usize) -> (frame: Option<&Frame>)
        ensures
            match frame {
                Some(f) => index < self@.frames.len() && f@ == self@.frames[index as int],
                None => index >= self@.frames.len(),
            },
    {
        self.frames.get(index)
    }

    /// The frame under the cursor. A well-formed scheduler has one exactly
    /// where it holds a frame at all.
    pub fn current_frame(&self) -> (frame: Option<&Frame>)
        ensures
            match frame {
                Some(f) => self@.cursor < self@.frames.len() && f@
                    == self@.frames[self@.cursor as int],
                None => self@.cursor >= self@.frames.len(),
            },
            well_formed(self@) ==> (frame is None <==> self@.frames.len() == 0),
    {
        self.frames.get(self.cursor)
    }

    /// The elapsed session time, in milliseconds.
    pub fn elapsed_ms(&self) -> (elapsed: u64)
        ensures
            elapsed == self@.elapsed_ms,
    {
        self.clock.elapsed_ms()
    }

    /// The elapsed session time as a display shows it.
    pub fn reading(&self) -> (reading: ClockReading)
        ensures
            reading == crate::clock::reading_of(self@.elapsed_ms),
    {
        self.clock.reading()
    }

    /// The participants that every fetch covers.
    pub fn participant_ids(&self) -> (ids: &Vec<u32>)
        ensures
            ids@ == self@.participant_ids,
    {
        &self.participant_ids
    }

    /// Whether the two timers run: they do exactly while frames are played.
    pub fn timers_active(&self) -> (active: bool)
        ensures
            active == (self@.state is Playing),
    {
        match self.state {
            State::Playing => true,
            _ => false,
        }
    }
}

} // verus!
