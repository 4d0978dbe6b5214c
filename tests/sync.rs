use tts_relay::commands::DictionaryCommand;
use tts_relay::dictionary::DictionaryEntry;
use tts_relay::engine::HttpMethod;
use tts_relay::error::RelayError;
use tts_relay::sync::{DictionaryTask, Step, TaskOutcome};

fn entry(surface: &str) -> DictionaryEntry {
    DictionaryEntry { surface: surface.to_string(), pronunciation: "ヨミ".to_string(), accent_type: 2, word_type: None }
}

fn sent(step: &Step) -> (HttpMethod, String) {
    match step {
        Step::Send(r) => (r.method, r.path.clone()),
        _ => panic!("expected a request"),
    }
}

fn ok(s: &str) -> Result<String, RelayError> {
    Ok(s.to_string())
}

#[test]
fn add_fetches_adds_then_saves() {
    let (mut t, s) = DictionaryTask::start(DictionaryCommand::Add(entry("犬")));
    assert_eq!(sent(&s), (HttpMethod::Get, "/user_dict".to_string()));
    let s = t.step(ok(r#"{"u1":{"surface":"猫"}}"#));
    assert_eq!(sent(&s), (HttpMethod::Post, "/user_dict_word".to_string()));
    let s = t.step(ok(""));
    assert_eq!(sent(&s), (HttpMethod::Get, "/user_dict".to_string()));
    let saved = r#"{"u1":{"surface":"猫"},"u2":{"surface":"犬"}}"#;
    match t.step(ok(saved)) {
        Step::WriteSnapshot(doc) => assert_eq!(doc, saved),
        _ => panic!("expected a snapshot write"),
    }
    assert!(matches!(t.step(ok("")), Step::Done(Ok(TaskOutcome::Changed))));
    assert!(t.finished());
}

#[test]
fn add_of_existing_surface_sends_nothing() {
    let (mut t, _) = DictionaryTask::start(DictionaryCommand::Add(entry("猫")));
    assert!(matches!(t.step(ok(r#"{"u1":{"surface":"猫"}}"#)), Step::Done(Err(RelayError::AlreadyExists))));
}

#[test]
fn edit_and_remove_need_the_surface() {
    let (mut t, _) = DictionaryTask::start(DictionaryCommand::Edit(entry("犬")));
    assert!(matches!(t.step(ok("{}")), Step::Done(Err(RelayError::NotFound))));
    let (mut t, _) = DictionaryTask::start(DictionaryCommand::Edit(entry("犬")));
    assert_eq!(sent(&t.step(ok(r#"{"u1":{"surface":"犬"}}"#))), (HttpMethod::Put, "/user_dict_word".to_string()));
    let (mut t, _) = DictionaryTask::start(DictionaryCommand::Remove("犬".to_string()));
    assert!(matches!(t.step(Err(RelayError::EngineUnavailable)), Step::Done(Err(RelayError::NotFound))));
    let (mut t, _) = DictionaryTask::start(DictionaryCommand::Remove("犬".to_string()));
    assert_eq!(sent(&t.step(ok(r#"{"u7":{"surface":"犬"}}"#))), (HttpMethod::Delete, "/user_dict_word/u7".to_string()));
}

#[test]
fn reset_deletes_each_and_stops_at_first_failure() {
    let (mut t, _) = DictionaryTask::start(DictionaryCommand::Reset);
    let doc = r#"{"a":{"surface":"x"},"b":{"surface":"y"},"c":{"surface":"z"}}"#;
    assert_eq!(sent(&t.step(ok(doc))).1, "/user_dict_word/a");
    assert_eq!(sent(&t.step(ok(""))).1, "/user_dict_word/b");
    assert!(matches!(t.step(Err(RelayError::EngineRejected { status: 500 })), Step::Done(Err(RelayError::EngineRejected { status: 500 }))));
}

#[test]
fn reset_of_empty_dictionary_saves() {
    let (mut t, _) = DictionaryTask::start(DictionaryCommand::Reset);
    assert_eq!(sent(&t.step(ok("{}"))), (HttpMethod::Get, "/user_dict".to_string()));
    let (mut t, _) = DictionaryTask::start(DictionaryCommand::Reset);
    assert!(matches!(t.step(ok("{")), Step::Done(Err(RelayError::MalformedDocument))));
}

#[test]
fn restore_imports_the_snapshot() {
    let (mut t, s) = DictionaryTask::start(DictionaryCommand::Restore);
    assert!(matches!(s, Step::ReadSnapshot));
    let snapshot = r#"{"u1":{"surface":"猫"}}"#;
    match t.step(ok(snapshot)) {
        Step::Send(r) => {
            assert_eq!(r.path, "/import_user_dict");
            assert_eq!(r.body.as_deref(), Some(snapshot));
        }
        _ => panic!("expected an import"),
    }
    let (mut t, _) = DictionaryTask::start(DictionaryCommand::Restore);
    assert!(matches!(t.step(Err(RelayError::ArtifactIoFailure)), Step::Done(Err(RelayError::ArtifactIoFailure))));
}

#[test]
fn list_returns_the_document() {
    let (mut t, _) = DictionaryTask::start(DictionaryCommand::List);
    assert!(matches!(t.step(ok("{}")), Step::Done(Ok(TaskOutcome::Listed(d))) if d == "{}"));
}

#[test]
fn failed_save_is_reported() {
    let (mut t, _) = DictionaryTask::start(DictionaryCommand::Remove("猫".to_string()));
    t.step(ok(r#"{"u1":{"surface":"猫"}}"#));
    t.step(ok(""));
    assert!(matches!(t.step(Err(RelayError::EngineUnavailable)), Step::Done(Err(RelayError::EngineUnavailable))));
}
