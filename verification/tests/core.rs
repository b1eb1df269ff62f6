use soundboard::commands::PlaybackCommand;
use soundboard::coordinator::Coordinator;
use soundboard::queue::CommandQueue;
use soundboard::registry::AudioState;

fn expect_play(cmd: Option<PlaybackCommand>, want: &str) {
    match cmd {
        Some(PlaybackCommand::Play(id)) => assert_eq!(id, want),
        _ => panic!("expected Play({})", want),
    }
}

fn expect_stop(cmd: Option<PlaybackCommand>, want: &str) {
    match cmd {
        Some(PlaybackCommand::Stop(id)) => assert_eq!(id, want),
        _ => panic!("expected Stop({})", want),
    }
}

#[test]
fn toggle_scenario_two_clips() {
    // Registry empty; toggling air_horn starts it, toggling again stops
    // it, and a klaxon toggle is independent of air_horn's final state.
    let mut state = AudioState::new();

    assert!(state.toggle_sound("air_horn.wav").unwrap());
    expect_play(state.next_command(), "uploads/air_horn.wav");

    assert!(!state.toggle_sound("air_horn.wav").unwrap());
    expect_stop(state.next_command(), "uploads/air_horn.wav");

    assert!(state.toggle_sound("klaxon.mp3").unwrap());
    expect_play(state.next_command(), "uploads/klaxon.mp3");

    assert!(state.next_command().is_none());
}

#[test]
fn toggle_failure_path_is_optimistic() {
    // Resolution failure: the registry still believes the clip playing,
    // the coordinator records no handle, and the later Stop is a no-op.
    let mut state = AudioState::new();
    let mut coordinator = Coordinator::new();

    assert!(state.toggle_sound("missing.wav").unwrap());
    expect_play(state.next_command(), "uploads/missing.wav");
    let stop_old = coordinator.begin_play("uploads/missing.wav");
    assert!(stop_old.is_none());
    let token = coordinator.record_play("uploads/missing.wav", false);
    assert!(token.is_none());

    assert!(!state.toggle_sound("missing.wav").unwrap());
    expect_stop(state.next_command(), "uploads/missing.wav");
    let stopped = coordinator.apply_stop("uploads/missing.wav");
    assert!(stopped.is_none());
}

#[test]
fn toggle_alternates() {
    let mut state = AudioState::new();
    for round in 1..=6 {
        let started = state.toggle_sound("beep.ogg").unwrap();
        assert_eq!(started, round % 2 == 1);
    }
}

#[test]
fn toggle_is_isolated_per_clip() {
    let mut state = AudioState::new();
    assert!(state.toggle_sound("one.wav").unwrap());
    assert!(state.toggle_sound("two.wav").unwrap());
    // one.wav's belief was not changed by two.wav's toggle
    assert!(!state.toggle_sound("one.wav").unwrap());
    assert!(!state.toggle_sound("two.wav").unwrap());
}

#[test]
fn queue_is_fifo() {
    let mut q = CommandQueue::new();
    assert!(q.submit(PlaybackCommand::Play("a".to_string())).is_ok());
    assert!(q.submit(PlaybackCommand::Stop("a".to_string())).is_ok());
    assert!(q.submit(PlaybackCommand::Play("b".to_string())).is_ok());
    expect_play(q.recv(), "a");
    expect_stop(q.recv(), "a");
    expect_play(q.recv(), "b");
    assert!(q.recv().is_none());
}

#[test]
fn closed_queue_refuses_submissions() {
    let mut q = CommandQueue::new();
    q.close();
    assert!(q.submit(PlaybackCommand::Play("a".to_string())).is_err());
    assert!(q.recv().is_none());
}

#[test]
fn play_replaces_previous_rendering() {
    let mut c = Coordinator::new();
    assert!(c.begin_play("uploads/horn.wav").is_none());
    let first = c.record_play("uploads/horn.wav", true).unwrap();
    // second play of the same clip retires the first rendering
    let stop_old = c.begin_play("uploads/horn.wav");
    assert_eq!(stop_old, Some(first));
    let second = c.record_play("uploads/horn.wav", true).unwrap();
    assert_ne!(first, second);
}

#[test]
fn stop_without_rendering_is_noop() {
    let mut c = Coordinator::new();
    assert!(c.apply_stop("uploads/horn.wav").is_none());
}

#[test]
fn shutdown_stops_every_rendering() {
    let mut c = Coordinator::new();
    assert!(c.begin_play("uploads/a.wav").is_none());
    let ta = c.record_play("uploads/a.wav", true).unwrap();
    assert!(c.begin_play("uploads/b.ogg").is_none());
    let tb = c.record_play("uploads/b.ogg", true).unwrap();
    let mut stops = c.apply_shutdown();
    stops.sort();
    let mut want = vec![ta, tb];
    want.sort();
    assert_eq!(stops, want);
}

#[test]
fn submissions_after_shutdown_surface_an_error() {
    let mut state = AudioState::new();
    state.shutdown();
    match state.next_command() {
        Some(PlaybackCommand::Shutdown) => {},
        _ => panic!("expected Shutdown"),
    }
    // the worker is gone: the queue closes, later submissions fail
    state.close_queue();
    assert!(state.submit_command(PlaybackCommand::Play("a".to_string())).is_err());
    // a toggle surfaces the queue-closed error too, changing nothing
    assert!(state.toggle_sound("late.wav").is_err());
    assert!(state.next_command().is_none());
}

#[test]
fn submit_command_enqueues_as_is() {
    let mut state = AudioState::new();
    let cmd = PlaybackCommand::Play("uploads/x.wav".to_string());
    assert!(state.submit_command(cmd).is_ok());
    expect_play(state.next_command(), "uploads/x.wav");
}
