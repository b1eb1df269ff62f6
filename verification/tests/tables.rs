use soundboard::commands::PlaybackCommand;
use soundboard::coordinator::Coordinator;
use soundboard::keymap::KeyMap;
use soundboard::registry::AudioState;

#[test]
fn keymap_set_get_remove() {
    let mut m: KeyMap<u64> = KeyMap::new();
    assert_eq!(m.get("a"), None);
    m.set("a", 1);
    m.set("b", 2);
    assert_eq!(m.get("a"), Some(1));
    assert_eq!(m.get("b"), Some(2));
    m.set("a", 3);
    assert_eq!(m.get("a"), Some(3));
    assert_eq!(m.remove("a"), Some(3));
    assert_eq!(m.get("a"), None);
    assert_eq!(m.remove("a"), None);
    assert_eq!(m.get("b"), Some(2));
}

#[test]
fn keymap_drain_returns_all_values() {
    let mut m: KeyMap<u64> = KeyMap::new();
    m.set("a", 1);
    m.set("b", 2);
    m.set("c", 3);
    let mut vals = m.drain_values();
    vals.sort();
    assert_eq!(vals, vec![1, 2, 3]);
    assert_eq!(m.get("a"), None);
}

#[test]
fn worker_applies_commands_in_arrival_order() {
    let mut state = AudioState::new();
    assert!(state.toggle_sound("a.wav").unwrap());
    assert!(state.toggle_sound("b.wav").unwrap());
    assert!(!state.toggle_sound("a.wav").unwrap());

    // drain the queue the way the playback worker does, with every
    // device attempt succeeding
    let mut coordinator = Coordinator::new();
    while let Some(cmd) = state.next_command() {
        match cmd {
            PlaybackCommand::Play(id) => {
                let _ = coordinator.begin_play(&id);
                let _ = coordinator.record_play(&id, true);
            }
            PlaybackCommand::Stop(id) => {
                let _ = coordinator.apply_stop(&id);
            }
            PlaybackCommand::Shutdown => {
                let _ = coordinator.apply_shutdown();
                state.close_queue();
            }
        }
    }

    // a.wav's later Stop landed after its Play: nothing of it renders,
    // while b.wav still does
    assert!(coordinator.apply_stop("uploads/a.wav").is_none());
    assert!(coordinator.apply_stop("uploads/b.wav").is_some());
}
