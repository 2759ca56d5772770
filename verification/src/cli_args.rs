//! The command surface: the subcommands the tool accepts and the
//! parameters of the `get` subcommand, held as plain data. Argument
//! parsing itself lives with the binary, which hands values in here.

use vstd::prelude::*;

use crate::trimmed_not_empty_text::NonEmptyText;

verus! {

/// Parameters of the `get` subcommand.
#[derive(Debug)]
pub struct GetParams {
    name: Option<String>,
    clipboard: bool,
    ask_number: bool,
    fuzzy: bool,
}

impl GetParams {
    pub closed spec fn spec_name(&self) -> Option<Seq<char>> {
        match self.name {
            Some(n) => Some(n@),
            None => None,
        }
    }

    pub closed spec fn spec_clipboard(&self) -> bool {
        self.clipboard
    }

    pub closed spec fn spec_ask_number(&self) -> bool {
        self.ask_number
    }

    pub closed spec fn spec_fuzzy(&self) -> bool {
        self.fuzzy
    }

    pub fn new(name: Option<String>, clipboard: bool, ask_number: bool, fuzzy: bool) -> (r:
        GetParams)
        ensures
            r.spec_name() == (match name {
                Some(n) => Some(n@),
                None => None::<Seq<char>>,
            }),
            r.spec_clipboard() == clipboard,
            r.spec_ask_number() == ask_number,
            r.spec_fuzzy() == fuzzy,
    {
        GetParams { name, clipboard, ask_number, fuzzy }
    }

    /// The name to look up, if one was given.
    pub fn get_name(&self) -> (r: Option<&str>)
        ensures
            match r {
                Some(n) => self.spec_name() == Some(n@),
                None => self.spec_name() is None,
            },
    {
        match &self.name {
            Some(n) => Some(n.as_str()),
            None => None,
        }
    }

    pub fn copy_has_clipboard(&self) -> (r: bool)
        ensures
            r == self.spec_clipboard(),
    {
        self.clipboard
    }

    pub fn copy_ask_number(&self) -> (r: bool)
        ensures
            r == self.spec_ask_number(),
    {
        self.ask_number
    }

    pub fn copy_fuzzy(&self) -> (r: bool)
        ensures
            r == self.spec_fuzzy(),
    {
        self.fuzzy
    }
}

/// The subcommands of the tool; free-text arguments arrive already
/// validated as non-empty trimmed text.
#[derive(Debug)]
pub enum CliCommands {
    /// Outputs the location of the given name, or all entries.
    Get(GetParams),
    /// Changes the name of a favorite.
    Rename { old_name_favorite: NonEmptyText, new_name_favorite: NonEmptyText },
    /// Creates or changes the location under a name.
    SetPath { name_favorite: NonEmptyText, new_path: NonEmptyText },
    /// Removes a name with its location.
    Delete { name_favorite: NonEmptyText },
    /// Removes all entries whose location no longer exists.
    Clean,
    /// Creates or changes a name to point at the working directory.
    PwdSet { name_favorite: NonEmptyText },
    /// Deletes the persisted document entirely.
    Reset,
}

} // verus!
