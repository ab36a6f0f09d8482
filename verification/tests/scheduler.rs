use f1_led_circuit::fetch::FetchError;
use f1_led_circuit::frame::{Color, Frame};
use f1_led_circuit::scheduler::{
    Action, FetchPlan, Message, Scheduler, State, BATCH_SIZE, BLINK_PERIOD_MS, PER_PARTICIPANT_LIMIT,
    REFILL_DELAY_MS, TICK_PERIOD_MS,
};

const FIRST: Action = Action::Fetch(FetchPlan { delay_ms: 0, batch_size: 3, per_participant_limit: 120 });
const REFILL: Action = Action::Fetch(FetchPlan { delay_ms: 334, batch_size: 3, per_participant_limit: 120 });

fn frame(t: i64) -> Frame {
    let mut f = Frame::new(t);
    f.set_marker_color(t as u32, Color { r: 200, g: 100, b: 0 });
    f
}

fn frames(times: &[i64]) -> Vec<Frame> {
    times.iter().map(|t| frame(*t)).collect()
}

fn fetched(times: &[i64], now_ms: u64) -> Message {
    Message::DataFetched { result: Ok(frames(times)), now_ms }
}

fn failed(now_ms: u64) -> Message {
    Message::DataFetched { result: Err(FetchError::Transport("timed out".to_string())), now_ms }
}

/// A scheduler that plays the frames of the given timestamps.
fn playing(times: &[i64]) -> Scheduler {
    let mut scheduler = Scheduler::new(vec![1, 44, 81]);
    assert_eq!(scheduler.update(Message::Toggle), FIRST);
    assert_eq!(scheduler.update(fetched(times, 1_000)), REFILL);
    assert_eq!(scheduler.state(), State::Playing);
    scheduler
}

#[test]
fn the_constants_are_those_of_the_playback() {
    assert_eq!(TICK_PERIOD_MS, 10);
    assert_eq!(BLINK_PERIOD_MS, 100);
    assert_eq!(REFILL_DELAY_MS, 334);
    assert_eq!(BATCH_SIZE, 3);
    assert_eq!(PER_PARTICIPANT_LIMIT, 120);
}

#[test]
fn a_new_scheduler_is_at_rest() {
    let scheduler = Scheduler::new(vec![1, 2, 4]);
    assert_eq!(scheduler.state(), State::Idle);
    assert!(!scheduler.blink());
    assert_eq!(scheduler.cursor(), 0);
    assert_eq!(scheduler.frame_count(), 0);
    assert_eq!(scheduler.elapsed_ms(), 0);
    assert!(scheduler.current_frame().is_none());
    assert!(!scheduler.timers_active());
    assert_eq!(scheduler.participant_ids(), &vec![1, 2, 4]);
}

#[test]
fn start_asks_for_the_first_fetch() {
    let mut scheduler = Scheduler::new(vec![1]);
    assert_eq!(scheduler.update(Message::Toggle), FIRST);
    assert_eq!(scheduler.state(), State::Fetching);
    assert!(!scheduler.timers_active());
}

#[test]
fn an_empty_first_fetch_goes_back_to_idle() {
    let mut scheduler = Scheduler::new(vec![1]);
    let mut seen = vec![scheduler.state()];
    scheduler.update(Message::Toggle);
    seen.push(scheduler.state());
    assert_eq!(scheduler.update(fetched(&[], 50)), Action::Nothing);
    seen.push(scheduler.state());
    assert_eq!(seen, vec![State::Idle, State::Fetching, State::Idle]);
    assert_eq!(scheduler.frame_count(), 0);
    assert!(!scheduler.timers_active());
}

#[test]
fn a_failed_first_fetch_goes_back_to_idle() {
    let mut scheduler = Scheduler::new(vec![1]);
    scheduler.update(Message::Toggle);
    assert_eq!(scheduler.update(failed(50)), Action::Nothing);
    assert_eq!(scheduler.state(), State::Idle);
}

#[test]
fn a_first_fetch_with_a_frame_starts_playing_and_asks_for_a_refill() {
    let mut scheduler = Scheduler::new(vec![1]);
    scheduler.update(Message::Toggle);
    assert_eq!(scheduler.update(fetched(&[100], 1_000)), REFILL);
    assert_eq!(scheduler.state(), State::Playing);
    assert!(scheduler.timers_active());
    assert_eq!(scheduler.frame_count(), 1);
    assert_eq!(scheduler.cursor(), 0);
    assert_eq!(scheduler.current_frame(), Some(&frame(100)));
}

#[test]
fn a_blink_tick_moves_the_cursor_and_flips_the_flag() {
    let mut scheduler = playing(&[100]);
    assert!(!scheduler.blink());
    assert_eq!(scheduler.update(Message::Blink), Action::Nothing);
    assert!(scheduler.blink());
    assert_eq!(scheduler.cursor(), (0 + 1) % 1);
    scheduler.update(Message::Blink);
    assert!(!scheduler.blink());
    assert_eq!(scheduler.cursor(), 0);
}

#[test]
fn the_cursor_wraps_round_the_sequence() {
    let mut scheduler = playing(&[10, 20, 30]);
    let mut seen = Vec::new();
    for _ in 0..7 {
        scheduler.update(Message::Blink);
        seen.push(scheduler.cursor());
    }
    assert_eq!(seen, vec![1, 2, 0, 1, 2, 0, 1]);
    assert_eq!(scheduler.cursor(), 7 % 3);
    assert!(scheduler.blink());
    assert_eq!(scheduler.current_frame(), Some(&frame(20)));
}

#[test]
fn blink_ticks_do_nothing_while_not_playing() {
    let mut scheduler = Scheduler::new(vec![1]);
    scheduler.update(Message::Blink);
    assert_eq!((scheduler.cursor(), scheduler.blink()), (0, false));
    scheduler.update(Message::Toggle);
    scheduler.update(Message::Blink);
    assert_eq!((scheduler.cursor(), scheduler.blink()), (0, false));
    let mut scheduler = playing(&[10, 20, 30]);
    scheduler.update(Message::Blink);
    scheduler.update(Message::Toggle);
    assert_eq!(scheduler.state(), State::Idle);
    scheduler.update(Message::Blink);
    assert_eq!((scheduler.cursor(), scheduler.blink()), (1, false));
}

#[test]
fn clock_ticks_add_up_while_playing() {
    let mut scheduler = playing(&[10]);
    scheduler.update(Message::Tick(1_010));
    scheduler.update(Message::Tick(1_020));
    scheduler.update(Message::Tick(1_033));
    assert_eq!(scheduler.elapsed_ms(), 33);
    assert_eq!(scheduler.reading().centiseconds, 3);
}

#[test]
fn the_clock_is_frozen_while_not_playing() {
    let mut scheduler = Scheduler::new(vec![1]);
    scheduler.update(Message::Tick(500));
    assert_eq!(scheduler.elapsed_ms(), 0);
    scheduler.update(Message::Toggle);
    scheduler.update(Message::Tick(900));
    assert_eq!(scheduler.elapsed_ms(), 0);
    scheduler.update(fetched(&[1], 1_000));
    scheduler.update(Message::Tick(1_250));
    scheduler.update(Message::Toggle);
    scheduler.update(Message::Tick(9_000));
    assert_eq!(scheduler.elapsed_ms(), 250);
}

#[test]
fn stop_keeps_the_frames_and_clears_the_blink_flag() {
    let mut scheduler = playing(&[10, 20, 30]);
    scheduler.update(Message::Blink);
    scheduler.update(Message::Tick(1_400));
    assert_eq!(scheduler.update(Message::Toggle), Action::Nothing);
    assert_eq!(scheduler.state(), State::Idle);
    assert!(!scheduler.blink());
    assert!(!scheduler.timers_active());
    assert_eq!(scheduler.frame_count(), 3);
    assert_eq!(scheduler.cursor(), 1);
    assert_eq!(scheduler.elapsed_ms(), 400);
    assert_eq!(scheduler.current_frame(), Some(&frame(20)));
}

#[test]
fn stop_while_fetching_goes_to_idle() {
    let mut scheduler = Scheduler::new(vec![1]);
    scheduler.update(Message::Toggle);
    assert_eq!(scheduler.update(Message::Toggle), Action::Nothing);
    assert_eq!(scheduler.state(), State::Idle);
}

#[test]
fn a_fetch_that_ends_after_a_stop_is_dropped() {
    let mut scheduler = Scheduler::new(vec![1]);
    scheduler.update(Message::Toggle);
    scheduler.update(Message::Toggle);
    assert_eq!(scheduler.update(fetched(&[10, 20], 70)), Action::Nothing);
    assert_eq!(scheduler.state(), State::Idle);
    assert_eq!(scheduler.frame_count(), 0);
    assert_eq!(scheduler.update(failed(80)), Action::Nothing);
    assert_eq!(scheduler.state(), State::Idle);

    let mut scheduler = playing(&[10, 20]);
    scheduler.update(Message::Toggle);
    assert_eq!(scheduler.update(fetched(&[30, 40], 70)), Action::Nothing);
    assert_eq!(scheduler.frame_count(), 2);
    assert_eq!(scheduler.state(), State::Idle);
}

#[test]
fn a_new_start_lets_the_old_frames_go() {
    let mut scheduler = playing(&[10, 20, 30]);
    scheduler.update(Message::Blink);
    scheduler.update(Message::Blink);
    scheduler.update(Message::Tick(1_500));
    scheduler.update(Message::Toggle);
    assert_eq!(scheduler.update(Message::Toggle), FIRST);
    assert_eq!(scheduler.state(), State::Fetching);
    assert_eq!(scheduler.frame_count(), 0);
    assert_eq!(scheduler.cursor(), 0);
    assert!(scheduler.current_frame().is_none());
    // The elapsed time is that of the session, not of one playback.
    assert_eq!(scheduler.elapsed_ms(), 500);
    scheduler.update(fetched(&[5], 9_000));
    scheduler.update(Message::Tick(9_010));
    assert_eq!(scheduler.elapsed_ms(), 510);
}

#[test]
fn reset_zeroes_clock_and_cursor_and_keeps_the_rest() {
    let mut scheduler = playing(&[10, 20, 30]);
    scheduler.update(Message::Blink);
    scheduler.update(Message::Tick(1_700));
    assert_eq!(scheduler.update(Message::Reset), Action::Nothing);
    assert_eq!(scheduler.state(), State::Playing);
    assert_eq!(scheduler.frame_count(), 3);
    assert_eq!(scheduler.cursor(), 0);
    assert_eq!(scheduler.elapsed_ms(), 0);
    assert!(!scheduler.blink());
    scheduler.update(Message::Tick(1_710));
    assert_eq!(scheduler.elapsed_ms(), 10);

    scheduler.update(Message::Toggle);
    scheduler.update(Message::Reset);
    assert_eq!(scheduler.state(), State::Idle);
    assert_eq!(scheduler.frame_count(), 3);
    assert_eq!(scheduler.elapsed_ms(), 0);
}

#[test]
fn a_refill_is_appended_and_asks_for_the_next() {
    let mut scheduler = playing(&[10, 20]);
    scheduler.update(Message::Blink);
    assert_eq!(scheduler.update(fetched(&[30, 40], 2_000)), REFILL);
    assert_eq!(scheduler.state(), State::Playing);
    assert_eq!(scheduler.frame_count(), 4);
    assert_eq!(scheduler.cursor(), 1);
    assert_eq!(scheduler.frame(3), Some(&frame(40)));
    assert!(scheduler.frame(4).is_none());
    // The longer sequence is walked without a restart.
    let mut seen = Vec::new();
    for _ in 0..4 {
        scheduler.update(Message::Blink);
        seen.push(scheduler.cursor());
    }
    assert_eq!(seen, vec![2, 3, 0, 1]);
}

#[test]
fn a_refill_does_not_restart_the_clock() {
    let mut scheduler = playing(&[10]);
    scheduler.update(Message::Tick(1_100));
    scheduler.update(fetched(&[20], 5_000));
    scheduler.update(Message::Tick(1_200));
    assert_eq!(scheduler.elapsed_ms(), 200);
}

#[test]
fn a_refill_that_brings_nothing_new_ends_the_refilling() {
    let mut scheduler = playing(&[10, 20]);
    assert_eq!(scheduler.update(fetched(&[10, 20], 2_000)), Action::Nothing);
    assert_eq!(scheduler.frame_count(), 2);
    assert_eq!(scheduler.state(), State::Playing);
    let mut scheduler = playing(&[10, 20]);
    assert_eq!(scheduler.update(fetched(&[], 2_000)), Action::Nothing);
    assert_eq!(scheduler.state(), State::Playing);
    assert_eq!(scheduler.update(fetched(&[15, 25], 3_000)), REFILL);
    assert_eq!(scheduler.frame_count(), 3);
}

#[test]
fn a_failed_refill_leaves_the_playback_running() {
    let mut scheduler = playing(&[10, 20, 30]);
    scheduler.update(Message::Blink);
    scheduler.update(Message::Tick(1_050));
    assert_eq!(scheduler.update(failed(1_060)), Action::Nothing);
    assert_eq!(scheduler.state(), State::Playing);
    assert!(scheduler.timers_active());
    assert_eq!(scheduler.frame_count(), 3);
    assert_eq!(scheduler.cursor(), 1);
    assert!(scheduler.blink());
    scheduler.update(Message::Blink);
    scheduler.update(Message::Tick(1_080));
    assert_eq!(scheduler.cursor(), 2);
    assert_eq!(scheduler.elapsed_ms(), 80);
}

#[test]
fn the_cursor_always_points_at_a_frame() {
    let mut scheduler = Scheduler::new(vec![1]);
    let script = [0u8, 4, 3, 3, 5, 3, 1, 3, 2, 3, 0, 3, 0, 4, 3, 3, 3, 6, 3, 5, 3, 3, 1, 0, 0, 7, 3, 3];
    let mut next_time = 10i64;
    for (step, what) in script.iter().enumerate() {
        let message = match *what {
            0 => Message::Toggle,
            1 => Message::Reset,
            2 => Message::Tick(step as u64 * 10),
            3 => Message::Blink,
            4 => {
                next_time += 30;
                fetched(&[next_time - 20, next_time - 10, next_time], step as u64)
            }
            5 => fetched(&[next_time - 10, next_time + 1], step as u64),
            6 => failed(step as u64),
            _ => fetched(&[], step as u64),
        };
        scheduler.update(message);
        if scheduler.frame_count() == 0 {
            assert_eq!(scheduler.cursor(), 0);
            assert!(scheduler.current_frame().is_none());
            assert_ne!(scheduler.state(), State::Playing);
        } else {
            assert!(scheduler.cursor() < scheduler.frame_count());
            assert!(scheduler.current_frame().is_some());
        }
        for i in 1..scheduler.frame_count() {
            assert!(scheduler.frame(i - 1).unwrap().timestamp_ms() < scheduler.frame(i).unwrap().timestamp_ms());
        }
        assert_eq!(scheduler.timers_active(), scheduler.state() == State::Playing);
    }
}

#[test]
fn the_sequence_never_shrinks_between_blink_ticks() {
    let mut scheduler = playing(&[10]);
    let mut last = scheduler.frame_count();
    for round in 0..5i64 {
        scheduler.update(fetched(&[100 + round, 200 + round * 50], 1_000));
        scheduler.update(Message::Tick(1_000 + round as u64));
        scheduler.update(Message::Blink);
        assert!(scheduler.frame_count() >= last);
        last = scheduler.frame_count();
    }
    assert_eq!(last, 7);
}
