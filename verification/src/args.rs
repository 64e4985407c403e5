//! What the user asks for.

use crate::store::Store;
use crate::text::{same_chars, to_chars};
use vstd::prelude::*;

verus! {

/// One request, with the path that it is about.
#[derive(Debug, PartialEq, Eq)]
pub enum Command {
    /// Show every dotfile of the store with its state.
    List,
    /// Link a dotfile of the store into the home directory.
    Install(String),
    /// Remove the link of a dotfile from the home directory.
    Uninstall(String),
    /// Move a file of the home directory into the store and link it back.
    Manage(String),
    /// Move a dotfile out of the store, back to where it was linked.
    Unmanage(String),
}

/// What a `Command` stands for.
pub enum CommandView {
    List,
    Install(Seq<char>),
    Uninstall(Seq<char>),
    Manage(Seq<char>),
    Unmanage(Seq<char>),
}

impl View for Command {
    type V = CommandView;

    open spec fn view(&self) -> CommandView {
        match self {
            Command::List => CommandView::List,
            Command::Install(path) => CommandView::Install(path@),
            Command::Uninstall(path) => CommandView::Uninstall(path@),
            Command::Manage(path) => CommandView::Manage(path@),
            Command::Unmanage(path) => CommandView::Unmanage(path@),
        }
    }
}

/// The store to work on and the request to carry out.
#[derive(Debug)]
pub struct Args {
    pub store: Store,
    pub command: Command,
}

/// The command that the word `verb` names, about `dotfile`: `list` needs no
/// path, `install`, `uninstall`, `manage` and `unmanage` need one.
pub open spec fn command_named(verb: Seq<char>, dotfile: Option<Seq<char>>) -> Option<CommandView> {
    if verb == "list"@ {
        Some(CommandView::List)
    } else if dotfile is None {
        None
    } else if verb == "install"@ {
        Some(CommandView::Install(dotfile->0))
    } else if verb == "uninstall"@ {
        Some(CommandView::Uninstall(dotfile->0))
    } else if verb == "manage"@ {
        Some(CommandView::Manage(dotfile->0))
    } else if verb == "unmanage"@ {
        Some(CommandView::Unmanage(dotfile->0))
    } else {
        None
    }
}

impl Command {
    /// The command that `verb` names, or `None` when `verb` is no command or
    /// lacks the path that it needs.
    pub fn from_verb(verb: &str, dotfile: Option<String>) -> (r: Option<Command>)
        ensures
            match r {
                Some(command) => command_named(verb@, dotfile.deep_view()) == Some(command@),
                None => command_named(verb@, dotfile.deep_view()) is None,
            },
    {
        let word = to_chars(verb);
        if same_chars(&word, &to_chars("list")) {
            return Some(Command::List);
        }
        let path = match dotfile {
            Some(path) => path,
            None => {
                return None;
            },
        };
        if same_chars(&word, &to_chars("install")) {
            Some(Command::Install(path))
        } else if same_chars(&word, &to_chars("uninstall")) {
            Some(Command::Uninstall(path))
        } else if same_chars(&word, &to_chars("manage")) {
            Some(Command::Manage(path))
        } else if same_chars(&word, &to_chars("unmanage")) {
            Some(Command::Unmanage(path))
        } else {
            None
        }
    }
}

} // verus!
