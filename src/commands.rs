//! Decoding of the dictionary command: the subcommand and its arguments,
//! checked once at the boundary.

use vstd::prelude::*;
use vstd::string::StringExecFns;
use crate::dictionary::DictionaryEntry;

verus! {

/// The value of a command option as the chat platform delivered it.
pub enum OptionValue {
    Text(String),
    Integer(i64),
    /// Any other kind of value.
    Other,
}

/// A named option of a subcommand.
pub struct CommandOption {
    pub name: String,
    pub value: OptionValue,
}

/// The subcommand chosen, with its options; `args` is `None` where the
/// platform did not deliver them as a subcommand's options.
pub struct Subcommand {
    pub name: String,
    pub args: Option<Vec<CommandOption>>,
}

/// The options the dictionary subcommands read.
#[derive(Clone, Copy, Debug, PartialEq, Eq, Structural)]
pub enum OptionName {
    Surface,
    Pronunciation,
    AccentType,
}

/// A decoded dictionary operation.
pub enum DictionaryCommand {
    Add(DictionaryEntry),
    Edit(DictionaryEntry),
    List,
    Remove(String),
    Reset,
    Restore,
}

/// Why a dictionary command could not be decoded.
pub enum CommandError {
    MissingSubcommand,
    UnknownSubcommand { name: String },
    MissingArguments,
    MissingOption { option: OptionName },
    WrongOptionType { option: OptionName },
    /// The accent position does not fit in `0..=255`.
    AccentOutOfRange { value: i64 },
}

pub enum ValueView {
    Text(Seq<char>),
    Integer(i64),
    Other,
}

pub enum CommandView {
    Add { surface: Seq<char>, pronunciation: Seq<char>, accent_type: u8 },
    Edit { surface: Seq<char>, pronunciation: Seq<char>, accent_type: u8 },
    List,
    Remove { surface: Seq<char> },
    Reset,
    Restore,
}

pub enum CommandErrorView {
    MissingSubcommand,
    UnknownSubcommand { name: Seq<char> },
    MissingArguments,
    MissingOption { option: OptionName },
    WrongOptionType { option: OptionName },
    AccentOutOfRange { value: i64 },
}

pub open spec fn value_view(v: OptionValue) -> ValueView {
    match v {
        OptionValue::Text(s) => ValueView::Text(s@),
        OptionValue::Integer(i) => ValueView::Integer(i),
        OptionValue::Other => ValueView::Other,
    }
}

pub open spec fn options_view(args: Seq<CommandOption>) -> Seq<(Seq<char>, ValueView)> {
    Seq::new(args.len(), |i: int| (args[i].name@, value_view(args[i].value)))
}

/// The name under which an option is delivered.
pub open spec fn option_key(o: OptionName) -> Seq<char> {
    match o {
        OptionName::Surface => "surface"@,
        OptionName::Pronunciation => "pronunciation"@,
        OptionName::AccentType => "accent_type"@,
    }
}

/// The value of the first option named `name`.
pub open spec fn first_option(args: Seq<(Seq<char>, ValueView)>, name: Seq<char>) -> Option<ValueView>
    decreases args.len(),
{
    if args.len() == 0 {
        None
    } else if args[0].0 == name {
        Some(args[0].1)
    } else {
        first_option(args.subrange(1, args.len() as int), name)
    }
}

pub open spec fn text_arg(args: Seq<(Seq<char>, ValueView)>, o: OptionName) -> Result<Seq<char>, CommandErrorView> {
    match first_option(args, option_key(o)) {
        None => Err(CommandErrorView::MissingOption { option: o }),
        Some(ValueView::Text(s)) => Ok(s),
        Some(_) => Err(CommandErrorView::WrongOptionType { option: o }),
    }
}

pub open spec fn accent_arg(args: Seq<(Seq<char>, ValueView)>) -> Result<u8, CommandErrorView> {
    match first_option(args, option_key(OptionName::AccentType)) {
        None => Err(CommandErrorView::MissingOption { option: OptionName::AccentType }),
        Some(ValueView::Integer(i)) => if 0 <= i <= 255 {
            Ok(i as u8)
        } else {
            Err(CommandErrorView::AccentOutOfRange { value: i })
        },
        Some(_) => Err(CommandErrorView::WrongOptionType { option: OptionName::AccentType }),
    }
}

/// Surface, pronunciation and accent position, checked in that order.
pub open spec fn word_args(args: Seq<(Seq<char>, ValueView)>) -> Result<(Seq<char>, Seq<char>, u8), CommandErrorView> {
    match text_arg(args, OptionName::Surface) {
        Err(e) => Err(e),
        Ok(s) => match text_arg(args, OptionName::Pronunciation) {
            Err(e) => Err(e),
            Ok(p) => match accent_arg(args) {
                Err(e) => Err(e),
                Ok(a) => Ok((s, p, a)),
            },
        },
    }
}

/// What a dictionary command decodes to.
pub open spec fn decoded(sub: Option<(Seq<char>, Option<Seq<(Seq<char>, ValueView)>>)>) -> Result<CommandView, CommandErrorView> {
    match sub {
        None => Err(CommandErrorView::MissingSubcommand),
        Some((name, args)) => if name == "add"@ || name == "edit"@ {
            match args {
                None => Err(CommandErrorView::MissingArguments),
                Some(a) => match word_args(a) {
                    Err(e) => Err(e),
                    Ok((s, p, acc)) => if name == "add"@ {
                        Ok(CommandView::Add { surface: s, pronunciation: p, accent_type: acc })
                    } else {
                        Ok(CommandView::Edit { surface: s, pronunciation: p, accent_type: acc })
                    },
                },
            }
        } else if name == "remove"@ {
            match args {
                None => Err(CommandErrorView::MissingArguments),
                Some(a) => match text_arg(a, OptionName::Surface) {
                    Err(e) => Err(e),
                    Ok(s) => Ok(CommandView::Remove { surface: s }),
                },
            }
        } else if name == "list"@ {
            Ok(CommandView::List)
        } else if name == "reset"@ {
            Ok(CommandView::Reset)
        } else if name == "restore"@ {
            Ok(CommandView::Restore)
        } else {
            Err(CommandErrorView::UnknownSubcommand { name })
        },
    }
}

pub open spec fn subcommand_view(sub: Option<&Subcommand>) -> Option<(Seq<char>, Option<Seq<(Seq<char>, ValueView)>>)> {
    match sub {
        None => None,
        Some(s) => Some((s.name@, match s.args {
            None => None,
            Some(a) => Some(options_view(a@)),
        })),
    }
}

pub open spec fn command_view(c: DictionaryCommand) -> CommandView {
    match c {
        DictionaryCommand::Add(e) => CommandView::Add { surface: e.surface@, pronunciation: e.pronunciation@, accent_type: e.accent_type },
        DictionaryCommand::Edit(e) => CommandView::Edit { surface: e.surface@, pronunciation: e.pronunciation@, accent_type: e.accent_type },
        DictionaryCommand::List => CommandView::List,
        DictionaryCommand::Remove(s) => CommandView::Remove { surface: s@ },
        DictionaryCommand::Reset => CommandView::Reset,
        DictionaryCommand::Restore => CommandView::Restore,
    }
}

pub open spec fn error_view(e: CommandError) -> CommandErrorView {
    match e {
        CommandError::MissingSubcommand => CommandErrorView::MissingSubcommand,
        CommandError::UnknownSubcommand { name } => CommandErrorView::UnknownSubcommand { name: name@ },
        CommandError::MissingArguments => CommandErrorView::MissingArguments,
        CommandError::MissingOption { option } => CommandErrorView::MissingOption { option },
        CommandError::WrongOptionType { option } => CommandErrorView::WrongOptionType { option },
        CommandError::AccentOutOfRange { value } => CommandErrorView::AccentOutOfRange { value },
    }
}

pub open spec fn result_view(r: Result<DictionaryCommand, CommandError>) -> Result<CommandView, CommandErrorView> {
    match r {
        Ok(c) => Ok(command_view(c)),
        Err(e) => Err(error_view(e)),
    }
}

/// Whether `s` reads `lit`.
fn is(s: &String, lit: &str) -> (r: bool)
    ensures
        r == (s@ == lit@),
{
    s.eq(&String::from_str(lit))
}

fn option_name_string(o: OptionName) -> (r: String)
    ensures
        r@ == option_key(o),
{
    match o {
        OptionName::Surface => String::from_str("surface"),
        OptionName::Pronunciation => String::from_str("pronunciation"),
        OptionName::AccentType => String::from_str("accent_type"),
    }
}

/// Index of the first option named `name`, or `args.len()`.
fn find_option(args: &Vec<CommandOption>, name: &String) -> (r: usize)
    ensures
        r <= args.len(),
        r < args.len() ==> first_option(options_view(args@), name@) == Some(value_view(args@[r as int].value)),
        r == args.len() ==> first_option(options_view(args@), name@) is None,
{
    let ghost all = options_view(args@);
    let mut i: usize = 0;
    assert(all.subrange(0, all.len() as int) =~= all);
    while i < args.len()
        invariant
            i <= args.len(),
            all == options_view(args@),
            first_option(all, name@) == first_option(all.subrange(i as int, all.len() as int), name@),
        decreases args.len() - i,
    {
        let ghost rest = all.subrange(i as int, all.len() as int);
        assert(rest[0] == all[i as int]);
        if args[i].name.eq(name) {
            return i;
        }
        assert(rest.subrange(1, rest.len() as int) =~= all.subrange(i + 1, all.len() as int));
        i += 1;
    }
    i
}

fn text_option(args: &Vec<CommandOption>, o: OptionName) -> (r: Result<String, CommandError>)
    ensures
        match (r, text_arg(options_view(args@), o)) {
            (Ok(s), Ok(t)) => s@ == t,
            (Err(e), Err(f)) => error_view(e) == f,
            _ => false,
        },
{
    let name = option_name_string(o);
    let i = find_option(args, &name);
    if i == args.len() {
        return Err(CommandError::MissingOption { option: o });
    }
    match &args[i].value {
        OptionValue::Text(s) => Ok(s.clone()),
        _ => Err(CommandError::WrongOptionType { option: o }),
    }
}

fn accent_option(args: &Vec<CommandOption>) -> (r: Result<u8, CommandError>)
    ensures
        match (r, accent_arg(options_view(args@))) {
            (Ok(a), Ok(b)) => a == b,
            (Err(e), Err(f)) => error_view(e) == f,
            _ => false,
        },
{
    let name = option_name_string(OptionName::AccentType);
    let i = find_option(args, &name);
    if i == args.len() {
        return Err(CommandError::MissingOption { option: OptionName::AccentType });
    }
    match &args[i].value {
        OptionValue::Integer(v) => if 0 <= *v && *v <= 255 {
            Ok(*v as u8)
        } else {
            Err(CommandError::AccentOutOfRange { value: *v })
        },
        _ => Err(CommandError::WrongOptionType { option: OptionName::AccentType }),
    }
}

fn word_entry(args: &Vec<CommandOption>) -> (r: Result<DictionaryEntry, CommandError>)
    ensures
        match (r, word_args(options_view(args@))) {
            (Ok(e), Ok((s, p, a))) => e.surface@ == s && e.pronunciation@ == p && e.accent_type == a
                && e.word_type is None,
            (Err(e), Err(f)) => error_view(e) == f,
            _ => false,
        },
{
    let surface = match text_option(args, OptionName::Surface) {
        Ok(s) => s,
        Err(e) => return Err(e),
    };
    let pronunciation = match text_option(args, OptionName::Pronunciation) {
        Ok(p) => p,
        Err(e) => return Err(e),
    };
    let accent_type = match accent_option(args) {
        Ok(a) => a,
        Err(e) => return Err(e),
    };
    Ok(DictionaryEntry { surface, pronunciation, accent_type, word_type: None })
}

/// Decodes the dictionary command from its first subcommand.
pub fn decode_dictionary_command(sub: Option<&Subcommand>) -> (r: Result<DictionaryCommand, CommandError>)
    ensures
        result_view(r) == decoded(subcommand_view(sub)),
        r matches Ok(DictionaryCommand::Add(e)) ==> e.word_type is None,
        r matches Ok(DictionaryCommand::Edit(e)) ==> e.word_type is None,
{
    let s = match sub {
        None => return Err(CommandError::MissingSubcommand),
        Some(s) => s,
    };
    let is_add = is(&s.name, "add");
    if is_add || is(&s.name, "edit") {
        let args = match &s.args {
            None => return Err(CommandError::MissingArguments),
            Some(a) => a,
        };
        let entry = match word_entry(args) {
            Ok(e) => e,
            Err(e) => return Err(e),
        };
        if is_add { Ok(DictionaryCommand::Add(entry)) } else { Ok(DictionaryCommand::Edit(entry)) }
    } else if is(&s.name, "remove") {
        let args = match &s.args {
            None => return Err(CommandError::MissingArguments),
            Some(a) => a,
        };
        match text_option(args, OptionName::Surface) {
            Ok(surface) => Ok(DictionaryCommand::Remove(surface)),
            Err(e) => Err(e),
        }
    } else if is(&s.name, "list") {
        Ok(DictionaryCommand::List)
    } else if is(&s.name, "reset") {
        Ok(DictionaryCommand::Reset)
    } else if is(&s.name, "restore") {
        Ok(DictionaryCommand::Restore)
    } else {
        Err(CommandError::UnknownSubcommand { name: s.name.clone() })
    }
}

} // verus!
