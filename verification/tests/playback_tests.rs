use stream_worker::playback::PlaybackCommand;
use stream_worker::playback::PlaybackManager;

#[test]
fn commands_come_out_in_arrival_order() {
    let mut manager = PlaybackManager::new();
    manager.enqueue(PlaybackCommand::Pause);
    manager.enqueue(PlaybackCommand::Resume);
    manager.enqueue(PlaybackCommand::Play(vec![1, 2, 3]));
    assert!(matches!(manager.next_command(), Some(PlaybackCommand::Pause)));
    assert!(matches!(manager.next_command(), Some(PlaybackCommand::Resume)));
    match manager.next_command() {
        Some(PlaybackCommand::Play(audio)) => assert_eq!(audio, vec![1, 2, 3]),
        other => panic!("expected the play command, got {:?}", other),
    }
    assert!(manager.next_command().is_none());
}

#[test]
fn fresh_manager_is_idle_and_empty() {
    let mut manager = PlaybackManager::new();
    assert_eq!(manager.next_id, 0);
    assert!(manager.is_idle);
    assert!(manager.current_sink.is_none());
    assert!(manager.next_command().is_none());
}
