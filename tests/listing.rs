use tts_relay::listing::list_dictionary;

#[test]
fn lists_entries_with_defaults() {
    let doc = r#"{"a":{"surface":"犬","pronunciation":"イヌ","accent_type":1},"b":{"surface":"猫"},"c":5}"#;
    assert_eq!(
        list_dictionary(doc),
        "**登録単語数:** 3件\n\n**犬** → イヌ (アクセント: 1)\n**猫** → 不明 (アクセント: 0)"
    );
}

#[test]
fn empty_dictionary_has_notice() {
    assert_eq!(list_dictionary("{}"), "辞書に登録されている単語はありません");
    assert_eq!(list_dictionary("[]"), "辞書に登録されている単語はありません");
    assert_eq!(list_dictionary(r#"{"a":1}"#), "辞書に登録されている単語はありません");
}

#[test]
fn long_dictionary_is_cut_after_twenty() {
    let mut doc = String::from("{");
    for i in 0..23 {
        if i > 0 {
            doc.push(',');
        }
        doc.push_str(&format!(r#""k{:02}":{{"surface":"w{}","pronunciation":"p","accent_type":{}}}"#, i, i, i));
    }
    doc.push('}');
    let out = list_dictionary(&doc);
    assert!(out.starts_with("**登録単語数:** 23件\n\n**w0** → p (アクセント: 0)\n"));
    assert!(out.ends_with("**w19** → p (アクセント: 19)\n... 他3件"));
    assert_eq!(out.lines().count(), 3 + 20);
}

#[test]
fn oversized_listing_becomes_a_notice() {
    let long = "あ".repeat(300);
    let mut doc = String::from("{");
    for i in 0..5 {
        if i > 0 {
            doc.push(',');
        }
        doc.push_str(&format!(r#""k{}":{{"surface":"{}","pronunciation":"p","accent_type":1}}"#, i, long));
    }
    doc.push('}');
    assert_eq!(
        list_dictionary(&doc),
        "**登録単語数:** 5件\n\n登録単語が多すぎるため、詳細な一覧を表示できません。\n`/dictionary remove` で不要な単語を削除してください。"
    );
}

#[test]
fn unreadable_document_is_shown_raw() {
    assert_eq!(list_dictionary("oops"), "```json\noops\n```");
}

#[test]
fn unreadable_long_document_is_cut_on_a_character_boundary() {
    let doc = format!("x{}", "あ".repeat(700));
    let out = list_dictionary(&doc);
    let expected = format!("```json\nx{}...\n\n*データが長すぎるため一部省略されました*\n```", "あ".repeat(633));
    assert_eq!(out, expected);
}
