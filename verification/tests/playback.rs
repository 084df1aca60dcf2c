use morsify::playback::schedule_events;
use morsify::{
    IEncoderDecoder, MorseCode, Options, PlaybackEvent, PlaybackKind, PlaybackScheduler,
    PlaybackState, PlaybackStep, Player,
};

fn tone(units: u8) -> PlaybackEvent {
    PlaybackEvent { kind: PlaybackKind::Tone, duration_units: units }
}

fn silence(units: u8) -> PlaybackEvent {
    PlaybackEvent { kind: PlaybackKind::Silence, duration_units: units }
}

fn run(pattern: &str, options: &Options) -> Vec<PlaybackStep> {
    let mut scheduler = PlaybackScheduler::new(pattern, options);
    let mut steps = Vec::new();
    loop {
        let step = scheduler.next();
        steps.push(step);
        if step == PlaybackStep::Idle {
            return steps;
        }
    }
}

#[test]
fn a_dot_is_a_tone_and_a_gap_of_one_unit() {
    let options = Options::default();
    let steps = run(".", &options);
    assert_eq!(
        steps,
        vec![
            PlaybackStep::Emit(tone(1)),
            PlaybackStep::Emit(silence(1)),
            PlaybackStep::Complete,
            PlaybackStep::Idle,
        ]
    );
    let events = schedule_events(".", &options);
    assert_eq!(events, vec![tone(1), silence(1)]);
    assert_eq!(events[0].duration_ms(60), 60);
    assert_eq!(events[1].duration_ms(60), 60);
}

#[test]
fn a_dash_is_a_tone_of_three_units_and_a_gap_of_one() {
    let options = Options::default();
    let steps = run("-", &options);
    assert_eq!(
        steps,
        vec![
            PlaybackStep::Emit(tone(3)),
            PlaybackStep::Emit(silence(1)),
            PlaybackStep::Complete,
            PlaybackStep::Idle,
        ]
    );
    let events = schedule_events("-", &options);
    assert_eq!(events[0].duration_ms(60), 180);
    assert_eq!(events[1].duration_ms(60), 60);
}

#[test]
fn separators_and_unknown_characters_are_silences() {
    let options = Options::default();
    assert_eq!(schedule_events(" ", &options), vec![silence(3)]);
    assert_eq!(schedule_events("/", &options), vec![silence(3)]);
    assert_eq!(schedule_events("#", &options), vec![silence(7), silence(1)]);
    assert_eq!(schedule_events("", &options), vec![]);
    assert_eq!(
        schedule_events(".- /", &options),
        vec![tone(1), silence(1), tone(3), silence(1), silence(3), silence(3)]
    );
}

#[test]
fn the_symbols_of_the_options_are_the_marks() {
    let options = Options { dot: '*', dash: '~', space: '|', separator: '_', ..Default::default() };
    assert_eq!(
        schedule_events("*~_|.", &options),
        vec![
            tone(1),
            silence(1),
            tone(3),
            silence(1),
            silence(3),
            silence(3),
            silence(7),
            silence(1)
        ]
    );
    let same = Options { dot: 'x', dash: 'x', space: 'x', separator: 'x', ..Default::default() };
    assert_eq!(schedule_events("x", &same), vec![tone(1), silence(1)]);
}

#[test]
fn durations_are_units_times_the_time_unit() {
    assert_eq!(tone(3).duration_ms(0), 0);
    assert_eq!(silence(7).duration_ms(1000), 7000);
    assert_eq!(silence(7).duration_ms(u32::MAX), 7 * (u32::MAX as u64));
    assert_eq!(tone(255).duration_ms(u32::MAX), 255 * (u32::MAX as u64));
}

#[test]
fn the_steps_are_the_events_in_order() {
    let options = Options::default();
    let encoded = MorseCode::default().encode("sos #");
    let events = schedule_events(&encoded, &options);
    let steps = run(&encoded, &options);
    assert_eq!(steps.len(), events.len() + 2);
    for (index, event) in events.iter().enumerate() {
        assert_eq!(steps[index], PlaybackStep::Emit(*event));
    }
    assert_eq!(steps[events.len()], PlaybackStep::Complete);
    assert_eq!(steps[events.len() + 1], PlaybackStep::Idle);
}

#[test]
fn the_state_follows_the_steps() {
    let options = Options::default();
    let mut scheduler = PlaybackScheduler::new(". ", &options);
    assert_eq!(scheduler.state(), PlaybackState::AdvancingToNextMark);
    assert_eq!(scheduler.next(), PlaybackStep::Emit(tone(1)));
    assert_eq!(scheduler.state(), PlaybackState::EmittingTone);
    assert_eq!(scheduler.next(), PlaybackStep::Emit(silence(1)));
    assert_eq!(scheduler.state(), PlaybackState::EmittingSilence);
    assert_eq!(scheduler.next(), PlaybackStep::Emit(silence(3)));
    assert_eq!(scheduler.state(), PlaybackState::EmittingSilence);
    assert_eq!(scheduler.next(), PlaybackStep::Complete);
    assert_eq!(scheduler.state(), PlaybackState::Finished);
    assert_eq!(scheduler.next(), PlaybackStep::Idle);
    assert_eq!(scheduler.next(), PlaybackStep::Idle);
    assert_eq!(scheduler.state(), PlaybackState::Finished);
    assert!(!scheduler.is_cancelled());
}

#[test]
fn an_empty_string_completes_at_once() {
    let options = Options::default();
    assert_eq!(run("", &options), vec![PlaybackStep::Complete, PlaybackStep::Idle]);
}

#[test]
fn a_cancelled_run_emits_nothing_and_never_completes() {
    let options = Options::default();
    let mut scheduler = PlaybackScheduler::new("...", &options);
    assert_eq!(scheduler.next(), PlaybackStep::Emit(tone(1)));
    scheduler.cancel();
    assert!(scheduler.is_cancelled());
    for _ in 0..20 {
        assert_eq!(scheduler.next(), PlaybackStep::Idle);
    }
    assert_eq!(scheduler.state(), PlaybackState::EmittingTone);
    let mut unstarted = PlaybackScheduler::new("", &options);
    unstarted.cancel();
    assert_eq!(unstarted.next(), PlaybackStep::Idle);
    assert_eq!(unstarted.state(), PlaybackState::AdvancingToNextMark);
}

#[test]
fn cancelling_a_finished_run_changes_nothing() {
    let options = Options::default();
    let mut scheduler = PlaybackScheduler::new(".", &options);
    while scheduler.next() != PlaybackStep::Complete {}
    scheduler.cancel();
    assert_eq!(scheduler.next(), PlaybackStep::Idle);
    assert_eq!(scheduler.state(), PlaybackState::Finished);
}

#[test]
fn a_new_run_takes_the_place_of_the_one_before() {
    let options = Options::default();
    let mut player = Player::new();
    assert_eq!(player.current(), None);
    assert_eq!(player.next(0), PlaybackStep::Idle);
    let first = player.start("-", &options).unwrap();
    assert_eq!(first, 1);
    assert_eq!(player.current(), Some(first));
    assert_eq!(player.next(first), PlaybackStep::Emit(tone(3)));
    let second = player.start(".", &options).unwrap();
    assert_eq!(second, 2);
    assert_eq!(player.current(), Some(second));
    for _ in 0..5 {
        assert_eq!(player.next(first), PlaybackStep::Idle);
    }
    assert_eq!(player.next(second), PlaybackStep::Emit(tone(1)));
    assert_eq!(player.next(first), PlaybackStep::Idle);
    assert_eq!(player.next(second), PlaybackStep::Emit(silence(1)));
    assert_eq!(player.next(second), PlaybackStep::Complete);
    assert_eq!(player.next(second), PlaybackStep::Idle);
}

#[test]
fn a_player_cancels_its_run() {
    let options = Options::default();
    let mut player = Player::new();
    player.cancel();
    let ticket = player.start("...", &options).unwrap();
    assert_eq!(player.next(ticket), PlaybackStep::Emit(tone(1)));
    player.cancel();
    for _ in 0..5 {
        assert_eq!(player.next(ticket), PlaybackStep::Idle);
    }
    let next = player.start(".", &options).unwrap();
    assert_eq!(player.next(next), PlaybackStep::Emit(tone(1)));
}
