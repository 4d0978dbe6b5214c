use tts_relay::text::{decimal_chars, format_voicevox_message, replace_user_mentions, Mention};

fn mention(id: u64, name: &str) -> Mention {
    Mention { user_id: id, display_name: name.to_string() }
}

#[test]
fn mention_tokens_become_marker_name_and_separator() {
    let ms = vec![mention(123, "たろう"), mention(45, "Hana")];
    let out = replace_user_mentions("<@123> こんにちは <@!45>!", &ms);
    assert_eq!(out, "アットマークたろう、 こんにちは アットマークHana、!");
}

#[test]
fn exactly_k_markers_for_k_tokens() {
    let ms = vec![mention(7, "A")];
    let out = replace_user_mentions("x<@7>y<@7>z<@!7>", &ms);
    assert_eq!(out, "xアットマークA、yアットマークA、zアットマークA、");
    assert_eq!(out.matches("アットマーク").count(), 3);
}

#[test]
fn unlisted_or_malformed_mentions_are_kept() {
    let ms = vec![mention(12, "B")];
    assert_eq!(replace_user_mentions("<@13> <@012> <@12 <@1>", &ms), "<@13> <@012> <@12 <@1>");
    assert_eq!(replace_user_mentions("<@12>", &Vec::new()), "<@12>");
}

#[test]
fn first_entry_wins_for_a_user_listed_twice() {
    let ms = vec![mention(5, "first"), mention(5, "second")];
    assert_eq!(replace_user_mentions("<@5>", &ms), "アットマークfirst、");
}

#[test]
fn custom_emoji_are_removed() {
    let out = format_voicevox_message("a<:smile:123>b<a:wave_2:456>c", &Vec::new(), 0);
    assert_eq!(out, "abc");
}

#[test]
fn malformed_emoji_are_kept() {
    let out = format_voicevox_message("<:x:> <::1> <:x:1 <b:x:1>", &Vec::new(), 0);
    assert_eq!(out, "<:x:> <::1> <:x:1 <b:x:1>");
}

#[test]
fn emoji_names_use_unicode_word_characters() {
    assert_eq!(format_voicevox_message("<:日本:1>ok", &Vec::new(), 0), "ok");
    assert_eq!(format_voicevox_message("<:a-b:1>", &Vec::new(), 0), "<:a-b:1>");
}

#[test]
fn emoji_ids_use_unicode_decimal_digits() {
    assert_eq!(format_voicevox_message("<:a:１２>x", &Vec::new(), 0), "x");
    assert_eq!(format_voicevox_message("<:a:½>", &Vec::new(), 0), "<:a:½>");
}

#[test]
fn urls_are_replaced() {
    let out = format_voicevox_message("見て https://example.com/a?b=1 と http://x.jp", &Vec::new(), 0);
    assert_eq!(out, "見て URL、 と URL、");
}

#[test]
fn url_needs_a_character_after_the_scheme() {
    assert_eq!(format_voicevox_message("http:// x", &Vec::new(), 0), "http:// x");
    assert_eq!(format_voicevox_message("https://", &Vec::new(), 0), "https://");
}

#[test]
fn url_stops_at_a_colon() {
    assert_eq!(format_voicevox_message("http://http://x", &Vec::new(), 0), "URL、://x");
}

#[test]
fn url_replacement_is_idempotent() {
    let once = format_voicevox_message("go https://a.b/c now http://d", &Vec::new(), 0);
    let twice = format_voicevox_message(&once, &Vec::new(), 0);
    assert_eq!(once, twice);
    assert!(!twice.contains("http"));
}

#[test]
fn attachment_alone_is_announced() {
    assert_eq!(format_voicevox_message("", &Vec::new(), 1), "添付ファイル");
    assert_eq!(format_voicevox_message(" \u{3000}\n", &Vec::new(), 2), "添付ファイル");
    assert_eq!(format_voicevox_message("<:e:1>", &Vec::new(), 1), "添付ファイル");
}

#[test]
fn attachment_with_text_is_prefixed() {
    assert_eq!(format_voicevox_message("見て", &Vec::new(), 1), "添付ファイル、見て");
}

#[test]
fn no_attachment_leaves_text() {
    assert_eq!(format_voicevox_message("", &Vec::new(), 0), "");
    assert_eq!(format_voicevox_message("  ", &Vec::new(), 0), "  ");
}

#[test]
fn steps_apply_in_order() {
    let ms = vec![mention(9, "https://n.example")];
    let out = format_voicevox_message("<@9><:e:1>", &ms, 1);
    assert_eq!(out, "添付ファイル、アットマークURL、、");
}

#[test]
fn decimal_notation() {
    assert_eq!(decimal_chars(0), vec!['0']);
    assert_eq!(decimal_chars(1203), vec!['1', '2', '0', '3']);
    assert_eq!(decimal_chars(u64::MAX).iter().collect::<String>(), "18446744073709551615");
}
