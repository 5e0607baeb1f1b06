//! What a user of the telephone program types.
use crate::config::{DialTarget, RnphoneConfig};
use crate::hash_text::parse_hash_chars;
use crate::identity::IdentityHash;
use crate::scan::trim;
use crate::text::{chars_of, same_text, text_of};
use vstd::prelude::*;

verus! {

/// What a line asks for.
#[derive(Debug, PartialEq, Eq)]
pub enum Command {
    /// Nothing was typed.
    Empty,
    Help,
    Quit,
    Identity,
    DestHash,
    Phonebook,
    Announce,
    Redial,
    Answer,
    Hangup,
    /// Call an identity.
    Dial(IdentityHash),
    /// Call somebody of the phonebook.
    Call(DialTarget),
    Unknown(String),
}

/// What a line asks for, as a mathematical value.
pub enum CommandModel {
    Empty,
    Help,
    Quit,
    Identity,
    DestHash,
    Phonebook,
    Announce,
    Redial,
    Answer,
    Hangup,
    Dial(Seq<u8>),
    Call(crate::config::EntryModel),
    Unknown(Seq<char>),
}

/// Whether a command is the one that a model says.
pub open spec fn is_command(command: Command, model: CommandModel) -> bool {
    match (command, model) {
        (Command::Empty, CommandModel::Empty) => true,
        (Command::Help, CommandModel::Help) => true,
        (Command::Quit, CommandModel::Quit) => true,
        (Command::Identity, CommandModel::Identity) => true,
        (Command::DestHash, CommandModel::DestHash) => true,
        (Command::Phonebook, CommandModel::Phonebook) => true,
        (Command::Announce, CommandModel::Announce) => true,
        (Command::Redial, CommandModel::Redial) => true,
        (Command::Answer, CommandModel::Answer) => true,
        (Command::Hangup, CommandModel::Hangup) => true,
        (Command::Dial(hash), CommandModel::Dial(bytes)) => hash@ == bytes,
        (Command::Call(target), CommandModel::Call(entry)) => target.label@ == entry.label()
            && target.identity_hash@ == entry.identity,
        (Command::Unknown(text), CommandModel::Unknown(chars)) => text@ == chars,
        _ => false,
    }
}

/// What a line asks for: a command by its name, an identity by its hash, or somebody by their
/// name or alias in the phonebook.
pub open spec fn command_of(
    line: Seq<char>,
    phonebook: Seq<crate::config::EntryModel>,
) -> CommandModel {
    let word = crate::scan::trimmed(line);
    if word.len() == 0 {
        CommandModel::Empty
    } else if word == "?"@ || word == "h"@ || word == "help"@ {
        CommandModel::Help
    } else if word == "q"@ || word == "quit"@ || word == "exit"@ {
        CommandModel::Quit
    } else if word == "i"@ || word == "identity"@ {
        CommandModel::Identity
    } else if word == "d"@ || word == "desthash"@ {
        CommandModel::DestHash
    } else if word == "p"@ || word == "phonebook"@ {
        CommandModel::Phonebook
    } else if word == "a"@ || word == "announce"@ || word == "anounce"@ {
        CommandModel::Announce
    } else if word == "r"@ || word == "redial"@ {
        CommandModel::Redial
    } else if word == "answer"@ {
        CommandModel::Answer
    } else if word == "hangup"@ {
        CommandModel::Hangup
    } else if crate::hash_text::is_hash_text(word) {
        CommandModel::Dial(crate::hash_text::hex_bytes(word))
    } else {
        match crate::config::dialled(phonebook, word) {
            Some(entry) => CommandModel::Call(entry),
            None => CommandModel::Unknown(word),
        }
    }
}

/// Reads what a line asks for.
pub fn read_command(line: &str, config: &RnphoneConfig) -> (command: Command)
    ensures
        is_command(command, command_of(line@, config@.phonebook)),
{
    let chars = trim(&chars_of(line));
    if chars.len() == 0 {
        return Command::Empty;
    }
    let text = text_of(&chars);
    let word = text.as_str();
    if same_text(word, "?") || same_text(word, "h") || same_text(word, "help") {
        Command::Help
    } else if same_text(word, "q") || same_text(word, "quit") || same_text(word, "exit") {
        Command::Quit
    } else if same_text(word, "i") || same_text(word, "identity") {
        Command::Identity
    } else if same_text(word, "d") || same_text(word, "desthash") {
        Command::DestHash
    } else if same_text(word, "p") || same_text(word, "phonebook") {
        Command::Phonebook
    } else if same_text(word, "a") || same_text(word, "announce") || same_text(word, "anounce") {
        Command::Announce
    } else if same_text(word, "r") || same_text(word, "redial") {
        Command::Redial
    } else if same_text(word, "answer") {
        Command::Answer
    } else if same_text(word, "hangup") {
        Command::Hangup
    } else {
        match parse_hash_chars(&chars) {
            Ok(hash) => Command::Dial(hash),
            Err(_) => match config.resolve_dial_target(word) {
                Some(target) => Command::Call(target),
                None => Command::Unknown(text),
            },
        }
    }
}

/// White space around a command is left out, and an empty line asks for nothing.
pub proof fn law_empty_line_asks_for_nothing(
    line: Seq<char>,
    phonebook: Seq<crate::config::EntryModel>,
)
    ensures
        command_of(line, phonebook) is Empty <==> crate::scan::trimmed(line).len() == 0,
{
}

proof fn lemma_words_are_short()
    ensures
        "?"@.len() <= 9 && "h"@.len() <= 9 && "help"@.len() <= 9 && "q"@.len() <= 9
            && "quit"@.len() <= 9 && "exit"@.len() <= 9 && "i"@.len() <= 9 && "identity"@.len()
            <= 9 && "d"@.len() <= 9 && "desthash"@.len() <= 9 && "p"@.len() <= 9
            && "phonebook"@.len() <= 9 && "a"@.len() <= 9 && "announce"@.len() <= 9
            && "anounce"@.len() <= 9 && "r"@.len() <= 9 && "redial"@.len() <= 9
            && "answer"@.len() <= 9 && "hangup"@.len() <= 9,
{
    reveal_strlit("?");
    reveal_strlit("h");
    reveal_strlit("help");
    reveal_strlit("q");
    reveal_strlit("quit");
    reveal_strlit("exit");
    reveal_strlit("i");
    reveal_strlit("identity");
    reveal_strlit("d");
    reveal_strlit("desthash");
    reveal_strlit("p");
    reveal_strlit("phonebook");
    reveal_strlit("a");
    reveal_strlit("announce");
    reveal_strlit("anounce");
    reveal_strlit("r");
    reveal_strlit("redial");
    reveal_strlit("answer");
    reveal_strlit("hangup");
}

/// A hash is dialled as it is, whoever is in the phonebook.
pub proof fn law_hashes_are_dialled(line: Seq<char>, phonebook: Seq<crate::config::EntryModel>)
    requires
        crate::hash_text::is_hash_text(crate::scan::trimmed(line)),
    ensures
        command_of(line, phonebook) == CommandModel::Dial(
            crate::hash_text::hex_bytes(crate::scan::trimmed(line)),
        ),
{
    lemma_words_are_short();
}

/// A line that is no command and no hash calls the entry of the phonebook that it names; where
/// there is none, it is unknown.
pub proof fn law_other_lines_name_an_entry(
    line: Seq<char>,
    phonebook: Seq<crate::config::EntryModel>,
)
    requires
        crate::scan::trimmed(line).len() > 9,
        crate::scan::trimmed(line).len() != 32,
    ensures
        match crate::config::dialled(phonebook, crate::scan::trimmed(line)) {
            Some(entry) => command_of(line, phonebook) == CommandModel::Call(entry),
            None => command_of(line, phonebook) == CommandModel::Unknown(
                crate::scan::trimmed(line),
            ),
        },
{
    lemma_words_are_short();
}

/// A command is asked for by its words and by no others.
pub proof fn law_commands_have_their_words(
    line: Seq<char>,
    phonebook: Seq<crate::config::EntryModel>,
)
    ensures
        ({
            let word = crate::scan::trimmed(line);
            let command = command_of(line, phonebook);
            &&& command is Help ==> word == "?"@ || word == "h"@ || word == "help"@
            &&& command is Quit ==> word == "q"@ || word == "quit"@ || word == "exit"@
            &&& command is Identity ==> word == "i"@ || word == "identity"@
            &&& command is DestHash ==> word == "d"@ || word == "desthash"@
            &&& command is Phonebook ==> word == "p"@ || word == "phonebook"@
            &&& command is Announce ==> word == "a"@ || word == "announce"@ || word == "anounce"@
            &&& command is Redial ==> word == "r"@ || word == "redial"@
            &&& command is Answer ==> word == "answer"@
            &&& command is Hangup ==> word == "hangup"@
            &&& command matches CommandModel::Unknown(text) ==> text == word
        }),
{
}

} // verus!
