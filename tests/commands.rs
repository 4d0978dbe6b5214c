use tts_relay::commands::{
    decode_dictionary_command, CommandError, CommandOption, DictionaryCommand, OptionName,
    OptionValue, Subcommand,
};

fn text(name: &str, v: &str) -> CommandOption {
    CommandOption { name: name.to_string(), value: OptionValue::Text(v.to_string()) }
}

fn integer(name: &str, v: i64) -> CommandOption {
    CommandOption { name: name.to_string(), value: OptionValue::Integer(v) }
}

fn sub(name: &str, args: Option<Vec<CommandOption>>) -> Subcommand {
    Subcommand { name: name.to_string(), args }
}

#[test]
fn decodes_add_and_edit() {
    let args = vec![integer("accent_type", 3), text("pronunciation", "ネコ"), text("surface", "猫")];
    match decode_dictionary_command(Some(&sub("add", Some(args)))) {
        Ok(DictionaryCommand::Add(e)) => {
            assert_eq!((e.surface.as_str(), e.pronunciation.as_str(), e.accent_type), ("猫", "ネコ", 3));
            assert!(e.word_type.is_none());
        }
        _ => panic!("expected add"),
    }
    let args = vec![text("surface", "猫"), text("pronunciation", "ネコ"), integer("accent_type", 255)];
    assert!(matches!(decode_dictionary_command(Some(&sub("edit", Some(args)))), Ok(DictionaryCommand::Edit(e)) if e.accent_type == 255));
}

#[test]
fn decodes_commands_without_arguments() {
    assert!(matches!(decode_dictionary_command(Some(&sub("list", None))), Ok(DictionaryCommand::List)));
    assert!(matches!(decode_dictionary_command(Some(&sub("reset", None))), Ok(DictionaryCommand::Reset)));
    assert!(matches!(decode_dictionary_command(Some(&sub("restore", None))), Ok(DictionaryCommand::Restore)));
}

#[test]
fn decodes_remove() {
    let args = vec![text("surface", "犬")];
    assert!(matches!(decode_dictionary_command(Some(&sub("remove", Some(args)))), Ok(DictionaryCommand::Remove(s)) if s == "犬"));
}

#[test]
fn first_option_of_a_name_is_used() {
    let args = vec![text("surface", "一"), text("surface", "二")];
    assert!(matches!(decode_dictionary_command(Some(&sub("remove", Some(args)))), Ok(DictionaryCommand::Remove(s)) if s == "一"));
}

#[test]
fn decoding_errors() {
    assert!(matches!(decode_dictionary_command(None), Err(CommandError::MissingSubcommand)));
    assert!(matches!(decode_dictionary_command(Some(&sub("grow", None))), Err(CommandError::UnknownSubcommand { name }) if name == "grow"));
    assert!(matches!(decode_dictionary_command(Some(&sub("add", None))), Err(CommandError::MissingArguments)));
    assert!(matches!(decode_dictionary_command(Some(&sub("remove", None))), Err(CommandError::MissingArguments)));
    let no_surface = vec![text("pronunciation", "ネコ"), integer("accent_type", 1)];
    assert!(matches!(decode_dictionary_command(Some(&sub("add", Some(no_surface)))), Err(CommandError::MissingOption { option: OptionName::Surface })));
    let bad_surface = vec![integer("surface", 1)];
    assert!(matches!(decode_dictionary_command(Some(&sub("edit", Some(bad_surface)))), Err(CommandError::WrongOptionType { option: OptionName::Surface })));
    let no_reading = vec![text("surface", "猫"), integer("accent_type", 1)];
    assert!(matches!(decode_dictionary_command(Some(&sub("add", Some(no_reading)))), Err(CommandError::MissingOption { option: OptionName::Pronunciation })));
    let bad_accent = vec![text("surface", "猫"), text("pronunciation", "ネコ"), text("accent_type", "1")];
    assert!(matches!(decode_dictionary_command(Some(&sub("add", Some(bad_accent)))), Err(CommandError::WrongOptionType { option: OptionName::AccentType })));
    let no_accent = vec![text("surface", "猫"), text("pronunciation", "ネコ")];
    assert!(matches!(decode_dictionary_command(Some(&sub("add", Some(no_accent)))), Err(CommandError::MissingOption { option: OptionName::AccentType })));
    let big = vec![text("surface", "猫"), text("pronunciation", "ネコ"), integer("accent_type", 256)];
    assert!(matches!(decode_dictionary_command(Some(&sub("add", Some(big)))), Err(CommandError::AccentOutOfRange { value: 256 })));
    let negative = vec![text("surface", "猫"), text("pronunciation", "ネコ"), integer("accent_type", -1)];
    assert!(matches!(decode_dictionary_command(Some(&sub("add", Some(negative)))), Err(CommandError::AccentOutOfRange { value: -1 })));
    let other = vec![CommandOption { name: "surface".to_string(), value: OptionValue::Other }];
    assert!(matches!(decode_dictionary_command(Some(&sub("remove", Some(other)))), Err(CommandError::WrongOptionType { option: OptionName::Surface })));
}
