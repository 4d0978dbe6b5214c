use tts_relay::engine::EngineRequest;
use tts_relay::error::RelayError;
use tts_relay::playback::{artifact_path, fresh_artifact_path, Playback, DEFAULT_SPEAKER};

#[test]
fn enqueue_without_session_fails_before_any_request() {
    let mut p = Playback::new();
    assert!(matches!(p.start_enqueue(1, "こんにちは".to_string()), Err(RelayError::NoActiveSession)));
    assert_eq!(p.track(1, "temp/a.wav".to_string()), Err(RelayError::NoActiveSession));
    assert!(p.queued(1).is_empty());
}

#[test]
fn enqueue_asks_for_a_plan_with_the_default_speaker() {
    let mut p = Playback::new();
    p.bind(1, 10, 20);
    match p.start_enqueue(1, "こんにちは".to_string()) {
        Ok(EngineRequest::AudioQuery { text, speaker }) => {
            assert_eq!(text, "こんにちは");
            assert_eq!(speaker, DEFAULT_SPEAKER);
        }
        _ => panic!("expected a synthesis plan request"),
    }
}

#[test]
fn two_enqueues_play_in_call_order() {
    let mut p = Playback::new();
    p.bind(7, 1, 2);
    p.bind(8, 3, 4);
    assert_eq!(p.track(7, "temp/first.wav".to_string()), Ok(()));
    assert_eq!(p.track(8, "temp/other.wav".to_string()), Ok(()));
    assert_eq!(p.track(7, "temp/second.wav".to_string()), Ok(()));
    assert_eq!(p.queued(7), vec!["temp/first.wav".to_string(), "temp/second.wav".to_string()]);
    assert_eq!(p.queued(8), vec!["temp/other.wav".to_string()]);
}

#[test]
fn each_file_is_released_exactly_once() {
    let mut p = Playback::new();
    p.bind(7, 1, 2);
    let path = "temp/x.wav".to_string();
    p.track(7, path.clone()).unwrap();
    assert!(p.release(&path));
    assert!(!p.release(&path));
    assert!(!p.release(&path));
    assert!(p.queued(7).is_empty());
    assert!(!p.release(&"temp/never.wav".to_string()));
}

#[test]
fn release_leaves_other_files() {
    let mut p = Playback::new();
    p.bind(7, 1, 2);
    p.track(7, "temp/a.wav".to_string()).unwrap();
    p.track(7, "temp/b.wav".to_string()).unwrap();
    assert!(p.release(&"temp/a.wav".to_string()));
    assert_eq!(p.queued(7), vec!["temp/b.wav".to_string()]);
}

#[test]
fn a_path_is_recorded_once() {
    let mut p = Playback::new();
    p.bind(7, 1, 2);
    p.track(7, "temp/a.wav".to_string()).unwrap();
    assert_eq!(p.track(7, "temp/a.wav".to_string()), Err(RelayError::ArtifactIoFailure));
}

#[test]
fn bind_replaces_the_session_for_a_key() {
    let mut p = Playback::new();
    p.bind(1, 10, 20);
    p.bind(1, 11, 21);
    let b = p.session(1).unwrap();
    assert_eq!((b.voice_channel, b.text_channel), (11, 21));
    assert!(!p.is_bound(1, 10));
    assert!(p.is_bound(1, 11));
    assert!(p.is_bound(1, 21));
    assert!(!p.is_bound(2, 11));
    assert!(p.session(2).is_none());
}

#[test]
fn unbind_matches_either_channel() {
    let mut p = Playback::new();
    p.bind(1, 10, 20);
    p.bind(2, 30, 40);
    assert!(!p.unbind(1, 30));
    assert!(p.session(1).is_some());
    assert!(p.unbind(1, 20));
    assert!(p.session(1).is_none());
    assert!(p.unbind(2, 30));
    assert!(p.session(2).is_none());
    assert!(!p.unbind(2, 30));
}

#[test]
fn purge_ends_every_session() {
    let mut p = Playback::new();
    p.bind(1, 10, 20);
    p.bind(2, 30, 40);
    p.purge_all();
    assert!(p.session(1).is_none());
    assert!(p.session(2).is_none());
    assert_eq!(p.skip(1), Err(RelayError::NoActiveSession));
}

#[test]
fn skip_needs_a_session() {
    let mut p = Playback::new();
    assert_eq!(p.skip(3), Err(RelayError::NoActiveSession));
    p.bind(3, 1, 2);
    assert_eq!(p.skip(3), Ok(()));
}

#[test]
fn artifact_paths() {
    assert_eq!(artifact_path("abc"), "temp/abc.wav");
    let a = fresh_artifact_path();
    let b = fresh_artifact_path();
    assert_eq!(a.len(), 45);
    assert!(a.starts_with("temp/") && a.ends_with(".wav"));
    assert_ne!(a, b);
}
