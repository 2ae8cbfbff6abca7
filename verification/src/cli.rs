//! The command line: which operation the arguments ask for.
//!
//! The arguments are those after the program's name. They are told apart
//! by their number and by the first of them; nothing else is parsed.

use vstd::prelude::*;

verus! {

/// An operation of the tool.
#[derive(Debug, PartialEq, Eq)]
pub enum Command {
    /// Mirror every configured pair.
    Backup,
    /// Append a pair to the configuration.
    Add { source: String, destination: String },
    /// Register the tool as a background service.
    Register,
    /// Remove the registered service.
    Unregister,
    /// The arguments ask for nothing that the tool does.
    Unrecognized,
}

/// The mathematical value of a [`Command`].
pub enum CommandView {
    Backup,
    Add { source: Seq<char>, destination: Seq<char> },
    Register,
    Unregister,
    Unrecognized,
}

impl View for Command {
    type V = CommandView;

    open spec fn view(&self) -> CommandView {
        match self {
            Command::Backup => CommandView::Backup,
            Command::Add { source, destination } => CommandView::Add {
                source: source@,
                destination: destination@,
            },
            Command::Register => CommandView::Register,
            Command::Unregister => CommandView::Unregister,
            Command::Unrecognized => CommandView::Unrecognized,
        }
    }
}

impl Clone for Command {
    fn clone(&self) -> (out: Command)
        ensures
            out@ == self@,
    {
        match self {
            Command::Backup => Command::Backup,
            Command::Add { source, destination } => Command::Add {
                source: source.clone(),
                destination: destination.clone(),
            },
            Command::Register => Command::Register,
            Command::Unregister => Command::Unregister,
            Command::Unrecognized => Command::Unrecognized,
        }
    }
}

/// The arguments as character sequences.
pub open spec fn argument_views(arguments: Seq<String>) -> Seq<Seq<char>> {
    arguments.map_values(|argument: String| argument@)
}

/// The operation that the arguments ask for: none or `--backup` alone is a
/// backup; `--add` with exactly two paths appends them; `--register` and
/// `--unregister` stand alone; every other shape is unrecognized.
pub open spec fn command_of(arguments: Seq<Seq<char>>) -> CommandView {
    if arguments.len() == 0 {
        CommandView::Backup
    } else if arguments.len() == 1 {
        if arguments[0] == "--backup"@ {
            CommandView::Backup
        } else if arguments[0] == "--register"@ {
            CommandView::Register
        } else if arguments[0] == "--unregister"@ {
            CommandView::Unregister
        } else {
            CommandView::Unrecognized
        }
    } else if arguments.len() == 3 && arguments[0] == "--add"@ {
        CommandView::Add { source: arguments[1], destination: arguments[2] }
    } else {
        CommandView::Unrecognized
    }
}

/// Whether `argument` is the word `word`.
fn is_word(argument: &String, word: &str) -> (out: bool)
    ensures
        out == (argument@ == word@),
{
    let wanted = word.to_owned();
    *argument == wanted
}

/// Tells which operation the arguments after the program's name ask for.
pub fn parse_command(arguments: &Vec<String>) -> (out: Command)
    ensures
        out@ == command_of(argument_views(arguments@)),
{
    let ghost views = argument_views(arguments@);
    if arguments.len() == 0 {
        Command::Backup
    } else if arguments.len() == 1 {
        assert(views[0] == arguments@[0]@);
        if is_word(&arguments[0], "--backup") {
            Command::Backup
        } else if is_word(&arguments[0], "--register") {
            Command::Register
        } else if is_word(&arguments[0], "--unregister") {
            Command::Unregister
        } else {
            Command::Unrecognized
        }
    } else if arguments.len() == 3 && is_word(&arguments[0], "--add") {
        assert(views[0] == arguments@[0]@);
        assert(views[1] == arguments@[1]@);
        assert(views[2] == arguments@[2]@);
        Command::Add { source: arguments[1].clone(), destination: arguments[2].clone() }
    } else {
        assert(arguments.len() == 3 ==> views[0] == arguments@[0]@);
        Command::Unrecognized
    }
}

} // verus!
