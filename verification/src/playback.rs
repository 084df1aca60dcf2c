//! The playback scheduler: the sequence of tone and silence events that an
//! encoded string is played as, and the state machine that hands them out one
//! at a time.
//!
//! The scheduler keeps no clock and makes no sound. Whoever drives it asks
//! for the next step, plays the tone or waits out the silence for the length
//! that the event gives, and asks again.

use vstd::prelude::*;
use crate::options::{Options, OptionsView};
use crate::text::chars_of;

verus! {

/// The length of a dot, in time units.
pub const DOT_UNITS: u8 = 1;

/// The length of a dash, in time units.
pub const DASH_UNITS: u8 = 3;

/// The length of the silence that follows a mark or an unknown character.
pub const GAP_UNITS: u8 = 1;

/// The length of the silence that a separator or a space symbol stands for.
pub const SEPARATOR_UNITS: u8 = 3;

/// The length of the silence that any other character stands for.
pub const UNKNOWN_UNITS: u8 = 7;

/// What is to be heard during an event.
#[derive(Debug, Clone, Copy, PartialEq, Eq, Structural)]
pub enum PlaybackKind {
    /// A tone.
    Tone,
    /// Nothing.
    Silence,
}

/// A tone or a silence of a given length.
#[derive(Debug, Clone, Copy, PartialEq, Eq, Structural)]
pub struct PlaybackEvent {
    /// Whether a tone sounds.
    pub kind: PlaybackKind,
    /// The length in time units.
    pub duration_units: u8,
}

impl PlaybackEvent {
    /// A tone of the given length.
    pub open spec fn tone(units: u8) -> PlaybackEvent {
        PlaybackEvent { kind: PlaybackKind::Tone, duration_units: units }
    }

    /// A silence of the given length.
    pub open spec fn silence(units: u8) -> PlaybackEvent {
        PlaybackEvent { kind: PlaybackKind::Silence, duration_units: units }
    }

    /// The length of the event in milliseconds, for a time unit given in
    /// milliseconds.
    pub fn duration_ms(&self, time_unit: u32) -> (ms: u64)
        ensures
            ms == self.duration_units * time_unit,
    {
        assert(self.duration_units * time_unit <= 255 * 0xffff_ffff) by (nonlinear_arith)
            requires
                self.duration_units <= 255,
                time_unit <= 0xffff_ffff,
        ;
        (self.duration_units as u64) * (time_unit as u64)
    }
}

/// The events that one character of an encoded string is played as.
///
/// A dot is a tone of one unit and a dash a tone of three, each followed by a
/// silence of one unit. A separator or a space symbol is a silence of three
/// units and nothing more. Any other character is a silence of seven units,
/// followed by a silence of one unit. Where two symbols are the same
/// character, the dot goes before the dash, and both before the separator
/// and the space symbol.
pub open spec fn events_for(options: OptionsView, c: char) -> Seq<PlaybackEvent> {
    if c == options.dot {
        seq![PlaybackEvent::tone(DOT_UNITS), PlaybackEvent::silence(GAP_UNITS)]
    } else if c == options.dash {
        seq![PlaybackEvent::tone(DASH_UNITS), PlaybackEvent::silence(GAP_UNITS)]
    } else if c == options.separator || c == options.space {
        seq![PlaybackEvent::silence(SEPARATOR_UNITS)]
    } else {
        seq![PlaybackEvent::silence(UNKNOWN_UNITS), PlaybackEvent::silence(GAP_UNITS)]
    }
}

/// The events that an encoded string is played as: those of its characters,
/// one after the other.
pub open spec fn schedule(options: OptionsView, pattern: Seq<char>) -> Seq<PlaybackEvent>
    decreases pattern.len(),
{
    if pattern.len() == 0 {
        Seq::empty()
    } else {
        schedule(options, pattern.drop_last()) + events_for(options, pattern.last())
    }
}

/// The events of the first characters of a string are the first events of
/// the string.
pub proof fn lemma_schedule_prefix(options: OptionsView, pattern: Seq<char>, k: int)
    requires
        0 <= k <= pattern.len(),
    ensures
        schedule(options, pattern.take(k)).len() <= schedule(options, pattern).len(),
        schedule(options, pattern.take(k)) == schedule(options, pattern).take(
            schedule(options, pattern.take(k)).len() as int,
        ),
    decreases pattern.len(),
{
    let whole = schedule(options, pattern);
    if k == pattern.len() {
        assert(pattern.take(k) =~= pattern);
        assert(whole.take(whole.len() as int) =~= whole);
    } else {
        let front = pattern.drop_last();
        assert(front.take(k) =~= pattern.take(k));
        lemma_schedule_prefix(options, front, k);
        let part = schedule(options, front.take(k));
        assert(schedule(options, front).take(part.len() as int) =~= whole.take(part.len() as int));
    }
}

/// The events of one more character follow those of the characters before
/// it.
pub proof fn lemma_schedule_step(options: OptionsView, pattern: Seq<char>, k: int)
    requires
        0 <= k < pattern.len(),
    ensures
        schedule(options, pattern.take(k + 1)) == schedule(options, pattern.take(k)) + events_for(
            options,
            pattern[k],
        ),
{
    assert(pattern.take(k + 1).drop_last() =~= pattern.take(k));
    assert(pattern.take(k + 1).last() == pattern[k]);
}

/// The events that one character is played as.
fn events_of(options: &Options, c: char) -> (r: Vec<PlaybackEvent>)
    ensures
        r@ == events_for(options@, c),
{
    let gap = PlaybackEvent { kind: PlaybackKind::Silence, duration_units: GAP_UNITS };
    let mut r: Vec<PlaybackEvent> = Vec::new();
    if c == options.dot {
        r.push(PlaybackEvent { kind: PlaybackKind::Tone, duration_units: DOT_UNITS });
        r.push(gap);
    } else if c == options.dash {
        r.push(PlaybackEvent { kind: PlaybackKind::Tone, duration_units: DASH_UNITS });
        r.push(gap);
    } else if c == options.separator || c == options.space {
        r.push(PlaybackEvent { kind: PlaybackKind::Silence, duration_units: SEPARATOR_UNITS });
    } else {
        r.push(PlaybackEvent { kind: PlaybackKind::Silence, duration_units: UNKNOWN_UNITS });
        r.push(gap);
    }
    assert(r@ =~= events_for(options@, c));
    r
}

/// All events that an encoded string is played as, in order.
pub fn schedule_events(pattern: &str, options: &Options) -> (r: Vec<PlaybackEvent>)
    ensures
        r@ == schedule(options@, pattern@),
{
    let pattern = chars_of(pattern);
    let mut r: Vec<PlaybackEvent> = Vec::new();
    let mut i: usize = 0;
    assert(pattern@.take(0) =~= Seq::<char>::empty());
    while i < pattern.len()
        invariant
            i <= pattern.len(),
            r@ == schedule(options@, pattern@.take(i as int)),
        decreases pattern.len() - i,
    {
        proof {
            lemma_schedule_step(options@, pattern@, i as int);
        }
        let mut events = events_of(options, pattern[i]);
        r.append(&mut events);
        i += 1;
    }
    assert(pattern@.take(i as int) =~= pattern@);
    r
}

/// What a playback run is doing.
#[derive(Debug, Clone, Copy, PartialEq, Eq, Structural)]
pub enum PlaybackState {
    /// No event is under way: the run has not begun.
    AdvancingToNextMark,
    /// The tone that the last step gave is sounding.
    EmittingTone,
    /// The silence that the last step gave is being waited out.
    EmittingSilence,
    /// The string is exhausted and the completion has been reported.
    Finished,
}

/// What the driver of a playback run has to do next.
#[derive(Debug, Clone, Copy, PartialEq, Eq, Structural)]
pub enum PlaybackStep {
    /// Play the tone or wait out the silence, then ask again.
    Emit(PlaybackEvent),
    /// Every event has been played: report the completion. This step comes
    /// once.
    Complete,
    /// Nothing is left to do: the run is finished or was cancelled.
    Idle,
}

/// The mathematical content of a playback run.
pub struct SchedulerView {
    /// All events of the run.
    pub events: Seq<PlaybackEvent>,
    /// How many of them have been handed out.
    pub emitted: nat,
    /// What the run is doing.
    pub state: PlaybackState,
    /// Whether the run was cancelled.
    pub cancelled: bool,
}

impl SchedulerView {
    /// The run of a string before its first step.
    pub open spec fn start(options: OptionsView, pattern: Seq<char>) -> SchedulerView {
        SchedulerView {
            events: schedule(options, pattern),
            emitted: 0,
            state: PlaybackState::AdvancingToNextMark,
            cancelled: false,
        }
    }

    /// The run after a request to cancel it.
    pub open spec fn cancel(self) -> SchedulerView {
        SchedulerView { cancelled: true, ..self }
    }

    /// Nothing is left to do.
    pub open spec fn idle(self) -> bool {
        self.cancelled || self.state == PlaybackState::Finished
    }

    /// The next step of the run.
    ///
    /// A run that was cancelled or is finished is idle. Otherwise the next
    /// event is handed out while there is one, and the completion is
    /// reported when there is none.
    pub open spec fn step(self) -> PlaybackStep {
        if self.idle() {
            PlaybackStep::Idle
        } else if self.emitted < self.events.len() {
            PlaybackStep::Emit(self.events[self.emitted as int])
        } else {
            PlaybackStep::Complete
        }
    }

    /// The run after its next step.
    pub open spec fn after_step(self) -> SchedulerView {
        if self.idle() {
            self
        } else if self.emitted < self.events.len() {
            SchedulerView {
                emitted: self.emitted + 1,
                state: match self.events[self.emitted as int].kind {
                    PlaybackKind::Tone => PlaybackState::EmittingTone,
                    PlaybackKind::Silence => PlaybackState::EmittingSilence,
                },
                ..self
            }
        } else {
            SchedulerView { state: PlaybackState::Finished, ..self }
        }
    }

    /// The run after `n` steps.
    pub open spec fn after_steps(self, n: nat) -> SchedulerView
        decreases n,
    {
        if n == 0 {
            self
        } else {
            self.after_steps((n - 1) as nat).after_step()
        }
    }
}

/// A playback run: a cursor over the characters of an encoded string.
#[derive(Debug)]
pub struct PlaybackScheduler {
    pattern: Vec<char>,
    options: Options,
    cursor: usize,
    gap_owed: bool,
    state: PlaybackState,
    cancelled: bool,
}

impl View for PlaybackScheduler {
    type V = SchedulerView;

    closed spec fn view(&self) -> SchedulerView {
        let begun = schedule(self.options@, self.pattern@.take(self.cursor as int));
        let owed: int = if self.gap_owed {
            1
        } else {
            0
        };
        SchedulerView {
            events: schedule(self.options@, self.pattern@),
            emitted: (begun.len() - owed) as nat,
            state: self.state,
            cancelled: self.cancelled,
        }
    }
}

impl PlaybackScheduler {
    #[verifier::type_invariant]
    spec fn cursor_fits(&self) -> bool {
        &&& self.cursor <= self.pattern@.len()
        &&& self.gap_owed ==> self.cursor > 0 && events_for(
            self.options@,
            self.pattern@[self.cursor - 1],
        ).len() == 2
        &&& self.state == PlaybackState::Finished ==> self.cursor == self.pattern@.len()
            && !self.gap_owed
    }

    /// A run for an encoded string, before its first step.
    pub fn new(pattern: &str, options: &Options) -> (r: PlaybackScheduler)
        ensures
            r@ == SchedulerView::start(options@, pattern@),
    {
        let pattern = chars_of(pattern);
        assert(pattern@.take(0) =~= Seq::<char>::empty());
        PlaybackScheduler {
            pattern,
            options: options.clone(),
            cursor: 0,
            gap_owed: false,
            state: PlaybackState::AdvancingToNextMark,
            cancelled: false,
        }
    }

    /// What the run is doing.
    pub fn state(&self) -> (r: PlaybackState)
        ensures
            r == self@.state,
    {
        self.state
    }

    /// Whether the run was cancelled.
    pub fn is_cancelled(&self) -> (r: bool)
        ensures
            r == self@.cancelled,
    {
        self.cancelled
    }

    /// Cancels the run: from now on every step is idle, so no further event
    /// is handed out and the completion is never reported.
    pub fn cancel(&mut self)
        ensures
            final(self)@ == old(self)@.cancel(),
    {
        proof {
            use_type_invariant(&*self);
        }
        self.cancelled = true;
    }

    /// The next step of the run.
    pub fn next(&mut self) -> (step: PlaybackStep)
        ensures
            step == old(self)@.step(),
            final(self)@ == old(self)@.after_step(),
    {
        proof {
            use_type_invariant(&*self);
            lemma_schedule_prefix(self.options@, self.pattern@, self.cursor as int);
        }
        let ghost whole = schedule(self.options@, self.pattern@);
        let ghost done = schedule(self.options@, self.pattern@.take(self.cursor as int));
        if self.cancelled || self.state == PlaybackState::Finished {
            return PlaybackStep::Idle;
        }
        if self.gap_owed {
            proof {
                lemma_schedule_step(self.options@, self.pattern@, self.cursor - 1);
                assert(done.last() == PlaybackEvent::silence(GAP_UNITS));
                assert(whole.take(done.len() as int)[done.len() - 1] == whole[done.len() - 1]);
            }
            self.gap_owed = false;
            self.state = PlaybackState::EmittingSilence;
            return PlaybackStep::Emit(
                PlaybackEvent { kind: PlaybackKind::Silence, duration_units: GAP_UNITS },
            );
        }
        if self.cursor < self.pattern.len() {
            let c = self.pattern[self.cursor];
            proof {
                lemma_schedule_step(self.options@, self.pattern@, self.cursor as int);
                lemma_schedule_prefix(self.options@, self.pattern@, self.cursor + 1);
                let more = schedule(self.options@, self.pattern@.take(self.cursor + 1));
                assert(whole.take(more.len() as int)[done.len() as int] == whole[done.len() as int]);
                assert(more[done.len() as int] == events_for(self.options@, c)[0]);
            }
            let events = events_of(&self.options, c);
            let event = events[0];
            self.cursor = self.cursor + 1;
            self.gap_owed = events.len() == 2;
            self.state = match event.kind {
                PlaybackKind::Tone => PlaybackState::EmittingTone,
                PlaybackKind::Silence => PlaybackState::EmittingSilence,
            };
            return PlaybackStep::Emit(event);
        }
        proof {
            assert(self.pattern@.take(self.cursor as int) =~= self.pattern@);
        }
        self.state = PlaybackState::Finished;
        PlaybackStep::Complete
    }
}

/// A cancelled run stays idle: whatever number of steps is taken after the
/// request, each of them is idle, the number of events handed out does not
/// grow, and the run never becomes finished by them.
pub proof fn lemma_cancelled_run_is_idle(run: SchedulerView, n: nat)
    ensures
        run.cancel().after_steps(n) == run.cancel(),
        run.cancel().after_steps(n).step() == PlaybackStep::Idle,
    decreases n,
{
    if n > 0 {
        lemma_cancelled_run_is_idle(run, (n - 1) as nat);
    }
}

/// A run that is not cancelled hands out its events in order, then reports
/// the completion once, and is idle ever after.
pub proof fn lemma_run_in_order(options: OptionsView, pattern: Seq<char>, n: nat)
    ensures
        ({
            let run = SchedulerView::start(options, pattern);
            let events = schedule(options, pattern);
            &&& n < events.len() ==> run.after_steps(n).step() == PlaybackStep::Emit(events[n as int])
            &&& n == events.len() ==> run.after_steps(n).step() == PlaybackStep::Complete
            &&& n > events.len() ==> run.after_steps(n).step() == PlaybackStep::Idle
            &&& n <= events.len() ==> run.after_steps(n).emitted == n && !run.after_steps(n).idle()
            &&& n > events.len() ==> run.after_steps(n).state == PlaybackState::Finished
            &&& run.after_steps(n).events == events
            &&& !run.after_steps(n).cancelled
        }),
    decreases n,
{
    if n > 0 {
        lemma_run_in_order(options, pattern, (n - 1) as nat);
    }
}

/// The mathematical content of a player.
pub struct PlayerView {
    /// How many runs were begun.
    pub begun: nat,
    /// The run that owns the tone generator, if there is one.
    pub run: Option<SchedulerView>,
}

impl PlayerView {
    /// The next step of the run with the given ticket: the step of the
    /// current run where the ticket is its own, and idle for any other.
    pub open spec fn step(self, ticket: u64) -> PlaybackStep {
        match self.run {
            Some(run) if ticket == self.begun => run.step(),
            _ => PlaybackStep::Idle,
        }
    }

    /// The player after the step of the run with the given ticket.
    pub open spec fn after_step(self, ticket: u64) -> PlayerView {
        match self.run {
            Some(run) if ticket == self.begun => PlayerView {
                run: Some(run.after_step()),
                ..self
            },
            _ => self,
        }
    }
}

/// The owner of the tone generator: it holds at most one playback run, and a
/// new run takes the place of the one before it.
///
/// Each run gets a ticket when it begins, and its driver shows the ticket
/// with every step. Once another run has begun, the steps of the earlier one
/// are idle: it hands out no further event and never completes.
#[derive(Debug)]
pub struct Player {
    run: Option<PlaybackScheduler>,
    begun: u64,
}

impl View for Player {
    type V = PlayerView;

    closed spec fn view(&self) -> PlayerView {
        PlayerView {
            begun: self.begun as nat,
            run: match self.run {
                Some(run) => Some(run@),
                None => None,
            },
        }
    }
}

impl Player {
    /// A player without a run.
    pub fn new() -> (r: Player)
        ensures
            r@ == (PlayerView { begun: 0, run: None }),
    {
        Player { run: None, begun: 0 }
    }

    /// The ticket of the current run, if there is one.
    pub fn current(&self) -> (r: Option<u64>)
        ensures
            r == match self@.run {
                Some(_) => Some(self@.begun as u64),
                None => None,
            },
    {
        match &self.run {
            Some(_) => Some(self.begun),
            None => None,
        }
    }

    /// Begins the run of an encoded string in place of the current one, and
    /// gives its ticket. Only where as many runs were begun as a ticket can
    /// count, no run begins and the player stays as it is.
    pub fn start(&mut self, pattern: &str, options: &Options) -> (ticket: Option<u64>)
        ensures
            old(self)@.begun < u64::MAX ==> ticket == Some((old(self)@.begun + 1) as u64)
                && final(self)@ == (PlayerView {
                begun: old(self)@.begun + 1,
                run: Some(SchedulerView::start(options@, pattern@)),
            }),
            old(self)@.begun >= u64::MAX ==> ticket is None && final(self)@ == old(self)@,
    {
        if self.begun == u64::MAX {
            return None;
        }
        self.begun = self.begun + 1;
        self.run = Some(PlaybackScheduler::new(pattern, options));
        Some(self.begun)
    }

    /// The next step of the run with the given ticket.
    pub fn next(&mut self, ticket: u64) -> (step: PlaybackStep)
        ensures
            step == old(self)@.step(ticket),
            final(self)@ == old(self)@.after_step(ticket),
    {
        if ticket != self.begun {
            return PlaybackStep::Idle;
        }
        match &mut self.run {
            Some(run) => run.next(),
            None => PlaybackStep::Idle,
        }
    }

    /// Cancels the current run, if there is one.
    pub fn cancel(&mut self)
        ensures
            final(self)@ == (PlayerView {
                run: match old(self)@.run {
                    Some(run) => Some(run.cancel()),
                    None => None,
                },
                ..old(self)@
            }),
    {
        match &mut self.run {
            Some(run) => run.cancel(),
            None => {},
        }
    }
}

/// Once a run has begun, every run before it is idle.
pub proof fn lemma_replaced_run_is_idle(player: PlayerView, ticket: u64)
    requires
        ticket != player.begun,
    ensures
        player.step(ticket) == PlaybackStep::Idle,
        player.after_step(ticket) == player,
{
}

} // verus!
