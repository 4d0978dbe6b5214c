use tts_relay::config::{default_speaker_id, default_timeout};
use tts_relay::dictionary::{
    dictionary_words, find_in_fetched, find_uuid_by_surface, plan_add, plan_edit, plan_remove,
    plan_reset, plan_restore, set_word_type, DictWord, DictionaryEntry, WordType,
};
use tts_relay::engine::{check_reply, to_http, EngineRequest, HttpMethod};
use tts_relay::error::RelayError;

fn word(id: &str, surface: Option<&str>) -> DictWord {
    DictWord {
        id: id.to_string(),
        is_object: true,
        surface: surface.map(|s| s.to_string()),
        pronunciation: None,
        accent_type: None,
    }
}

fn entry(surface: &str) -> DictionaryEntry {
    DictionaryEntry {
        surface: surface.to_string(),
        pronunciation: "ヨミ".to_string(),
        accent_type: 1,
        word_type: None,
    }
}

#[test]
fn word_type_names() {
    assert_eq!(set_word_type(WordType::ProperNoun), "PROPER_NOUN");
    assert_eq!(set_word_type(WordType::CommonNoun), "COMMON_NOUN");
    assert_eq!(set_word_type(WordType::Verb), "VERB");
    assert_eq!(set_word_type(WordType::Adjective), "ADJECTIVE");
    assert_eq!(set_word_type(WordType::Suffix), "SUFFIX");
}

#[test]
fn settings_defaults() {
    assert_eq!(default_speaker_id(), 1);
    assert_eq!(default_timeout(), 10);
}

#[test]
fn find_returns_first_match() {
    let ws = vec![word("a", None), word("b", Some("x")), word("c", Some("y")), word("d", Some("y"))];
    assert_eq!(find_uuid_by_surface(&ws, "y"), Ok("c".to_string()));
    assert_eq!(find_uuid_by_surface(&ws, "x"), Ok("b".to_string()));
    assert_eq!(find_uuid_by_surface(&ws, "z"), Err(RelayError::NotFound));
    assert_eq!(find_uuid_by_surface(&Vec::new(), "x"), Err(RelayError::NotFound));
}

#[test]
fn document_is_parsed() {
    let doc = r#"{"aaa":{"surface":"犬","pronunciation":"イヌ","accent_type":2},"bbb":{"surface":3},"ccc":[1]}"#;
    let ws = dictionary_words(doc).unwrap();
    assert_eq!(ws.len(), 3);
    assert_eq!(ws[0].id, "aaa");
    assert!(ws[0].is_object);
    assert_eq!(ws[0].surface.as_deref(), Some("犬"));
    assert_eq!(ws[0].pronunciation.as_deref(), Some("イヌ"));
    assert_eq!(ws[0].accent_type, Some(2));
    assert_eq!(ws[1].surface, None);
    assert!(!ws[2].is_object);
    assert_eq!(ws[2].surface, None);
}

#[test]
fn document_errors() {
    assert_eq!(dictionary_words("{not json").err(), Some(RelayError::MalformedDocument));
    assert_eq!(dictionary_words("[1,2]").map(|w| w.len()), Ok(0));
}

#[test]
fn lookup_in_fetched_document() {
    let doc = Ok(r#"{"u1":{"surface":"猫"},"u2":{"surface":"犬"}}"#.to_string());
    assert_eq!(find_in_fetched(&doc, "犬"), Ok("u2".to_string()));
    assert_eq!(find_in_fetched(&doc, "鳥"), Err(RelayError::NotFound));
    assert_eq!(find_in_fetched(&Ok("{".to_string()), "犬"), Err(RelayError::MalformedDocument));
    assert_eq!(find_in_fetched(&Ok("3".to_string()), "犬"), Err(RelayError::NotFound));
    assert_eq!(find_in_fetched(&Err(RelayError::EngineUnavailable), "犬"), Err(RelayError::EngineUnavailable));
}

#[test]
fn add_refused_when_surface_exists() {
    assert!(matches!(plan_add(&Ok("u1".to_string()), entry("猫")), Err(RelayError::AlreadyExists)));
    match plan_add(&Err(RelayError::NotFound), entry("猫")) {
        Ok(EngineRequest::AddWord { entry }) => assert_eq!(entry.surface, "猫"),
        _ => panic!("expected an addition"),
    }
}

#[test]
fn add_then_find_in_engine_document() {
    let before = Ok(r#"{"u1":{"surface":"猫"}}"#.to_string());
    let found = find_in_fetched(&before, "犬");
    assert!(matches!(plan_add(&found, entry("犬")), Ok(EngineRequest::AddWord { .. })));
    let after = Ok(r#"{"u1":{"surface":"猫"},"u2":{"surface":"犬"}}"#.to_string());
    assert_eq!(find_in_fetched(&after, "犬"), Ok("u2".to_string()));
}

#[test]
fn edit_needs_existing_surface() {
    assert!(matches!(plan_edit(&Err(RelayError::NotFound), entry("猫")), Err(RelayError::NotFound)));
    assert!(matches!(plan_edit(&Err(RelayError::EngineUnavailable), entry("猫")), Err(RelayError::NotFound)));
    assert!(matches!(plan_edit(&Ok("u1".to_string()), entry("猫")), Ok(EngineRequest::RewriteWord { .. })));
}

#[test]
fn remove_deletes_by_remote_id() {
    assert!(matches!(plan_remove(Err(RelayError::NotFound)), Err(RelayError::NotFound)));
    match plan_remove(Ok("u9".to_string())) {
        Ok(EngineRequest::DeleteWord { id }) => assert_eq!(id, "u9"),
        _ => panic!("expected a deletion"),
    }
}

#[test]
fn remove_then_find_fails() {
    let after = Ok(r#"{"u1":{"surface":"猫"}}"#.to_string());
    assert_eq!(find_in_fetched(&after, "犬"), Err(RelayError::NotFound));
}

#[test]
fn reset_deletes_every_member_in_order() {
    let ws = vec![word("a", Some("x")), word("b", None), word("c", Some("y"))];
    let reqs = plan_reset(&ws);
    let ids: Vec<String> = reqs
        .into_iter()
        .map(|r| match r {
            EngineRequest::DeleteWord { id } => id,
            _ => panic!("expected a deletion"),
        })
        .collect();
    assert_eq!(ids, vec!["a", "b", "c"]);
    assert!(plan_reset(&Vec::new()).is_empty());
}

#[test]
fn restore_imports_snapshot_verbatim() {
    let snapshot = r#"{"u1":{"surface":"猫"}}"#.to_string();
    match plan_restore(snapshot.clone()) {
        EngineRequest::ImportDictionary { document } => {
            assert_eq!(document, snapshot);
            let back = dictionary_words(&document).unwrap();
            assert_eq!(back[0].surface.as_deref(), Some("猫"));
        }
        _ => panic!("expected an import"),
    }
}

#[test]
fn http_form_of_requests() {
    let q = to_http(&EngineRequest::AudioQuery { text: "こんにちは".to_string(), speaker: 8 });
    assert_eq!(q.method, HttpMethod::Post);
    assert_eq!(q.path, "/audio_query");
    assert_eq!(q.query, vec![("text".to_string(), "こんにちは".to_string()), ("speaker".to_string(), "8".to_string())]);
    assert_eq!(q.body, None);

    let s = to_http(&EngineRequest::Synthesis { query: "{}".to_string(), speaker: 255 });
    assert_eq!(s.path, "/synthesis");
    assert_eq!(s.query, vec![("speaker".to_string(), "255".to_string())]);
    assert_eq!(s.body.as_deref(), Some("{}"));

    let g = to_http(&EngineRequest::GetDictionary);
    assert_eq!((g.method, g.path.as_str(), g.query.len()), (HttpMethod::Get, "/user_dict", 0));

    let mut e = entry("猫");
    e.accent_type = 12;
    e.word_type = Some(WordType::Verb);
    let a = to_http(&EngineRequest::AddWord { entry: e });
    assert_eq!(a.method, HttpMethod::Post);
    assert_eq!(a.path, "/user_dict_word");
    let pairs: Vec<(&str, &str)> = a.query.iter().map(|(k, v)| (k.as_str(), v.as_str())).collect();
    assert_eq!(pairs, vec![("surface", "猫"), ("pronunciation", "ヨミ"), ("accent_type", "12"), ("word_type", "VERB"), ("priority", "10")]);

    let r = to_http(&EngineRequest::RewriteWord { entry: entry("猫") });
    assert_eq!(r.method, HttpMethod::Put);
    assert_eq!(r.query[3].1, "PROPER_NOUN");

    let d = to_http(&EngineRequest::DeleteWord { id: "abc-1".to_string() });
    assert_eq!((d.method, d.path.as_str()), (HttpMethod::Delete, "/user_dict_word/abc-1"));

    let i = to_http(&EngineRequest::ImportDictionary { document: "{}".to_string() });
    assert_eq!(i.path, "/import_user_dict");
    assert_eq!(i.query, vec![("override".to_string(), "true".to_string())]);
    assert_eq!(i.body.as_deref(), Some("{}"));
}

#[test]
fn reply_classification() {
    assert_eq!(check_reply(None), Err(RelayError::EngineUnavailable));
    assert_eq!(check_reply(Some(200)), Ok(()));
    assert_eq!(check_reply(Some(204)), Ok(()));
    assert_eq!(check_reply(Some(299)), Ok(()));
    assert_eq!(check_reply(Some(300)), Err(RelayError::EngineRejected { status: 300 }));
    assert_eq!(check_reply(Some(422)), Err(RelayError::EngineRejected { status: 422 }));
    assert_eq!(check_reply(Some(199)), Err(RelayError::EngineRejected { status: 199 }));
}
