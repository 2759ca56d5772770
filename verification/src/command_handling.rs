//! The decision logic of the `get` subcommand: from a loaded collection
//! and the parsed parameters to either the output text or a request to
//! show the numbered table and ask for a line. The binary performs the
//! printing and reading around it.

use vstd::prelude::*;

use crate::all_favorites::{contains_name, find_idx, lookup, AllFavorites};
use crate::cli_args::GetParams;
use crate::favorite_folder_record::FavModel;
use crate::favorite_table::{draw_favorite_table, table_ok, DrawParam};
use crate::text::{contains_sub, trim_spec};
use crate::trimmed_not_empty_text::NonEmptyText;
use vstd::string::StringExecFns;

verus! {

/// What the `get` subcommand decided: text to output, or a table to
/// show before asking the user for one of its line numbers.
pub enum GetAction {
    Output(String),
    AskNumber { table: String, shown: AllFavorites },
}

/// Why the `get` subcommand failed.
#[derive(Debug)]
pub enum GetError {
    /// The given name trims to nothing.
    InvalidName,
    /// The name is absent and neither fuzzy search nor the number
    /// prompt was asked for; carries the name as given.
    NotFound { name: String },
    /// Nothing to list: no entry matches, or none was created yet.
    NoEntries,
}

impl GetError {
    /// The human-readable description of this error.
    pub fn message(&self) -> (r: String)
        ensures
            self is InvalidName ==> r@ == "Trimmed text must not only contain whitespaces"@,
            self matches GetError::NotFound { name } ==> r@ == "No path found for the name: "@
                + name@,
            self is NoEntries ==> r@
                == "No match found for given name or no labels were created so far"@,
    {
        match self {
            GetError::InvalidName => "Trimmed text must not only contain whitespaces".to_owned(),
            GetError::NotFound { name } => {
                let mut msg = "No path found for the name: ".to_owned();
                msg.append(name.as_str());
                msg
            },
            GetError::NoEntries => {
                "No match found for given name or no labels were created so far".to_owned()
            },
        }
    }
}

/// What listing `shown` must come to: an error on an empty list, the
/// drawn table to show and ask over when numbers were requested, and
/// the drawn table as plain output otherwise.
pub open spec fn listing_outcome(
    r: Result<GetAction, GetError>,
    shown: Seq<FavModel>,
    clipboard: bool,
    ask_number: bool,
) -> bool {
    if shown.len() == 0 {
        r == Err::<GetAction, GetError>(GetError::NoEntries)
    } else if ask_number {
        r matches Ok(GetAction::AskNumber { table, shown: sh }) && sh@ == shown && sh.wf()
            && table_ok(shown, clipboard, ask_number, table@)
    } else {
        r matches Ok(GetAction::Output(content)) && table_ok(shown, clipboard, ask_number, content@)
    }
}

/// Decides the `get` subcommand over the loaded collection: a present
/// name yields its stored location; an absent one is an error unless
/// fuzzy search or the number prompt turns the call into a listing,
/// fuzzy-filtered by the name where asked.
pub fn handle_get_subcommand(favorites: AllFavorites, get_params: &GetParams) -> (r: Result<
    GetAction,
    GetError,
>)
    requires
        favorites.wf(),
    ensures
        ({
            let favs = favorites@;
            let clip = get_params.spec_clipboard();
            let ask = get_params.spec_ask_number();
            let fuzzy = get_params.spec_fuzzy();
            match get_params.spec_name() {
                Some(n) => {
                    let t = trim_spec(n);
                    if t.len() == 0 {
                        r == Err::<GetAction, GetError>(GetError::InvalidName)
                    } else if contains_name(favs, t) {
                        r matches Ok(GetAction::Output(content)) && content@ == lookup(
                            favs,
                            t,
                        ).location
                    } else if !fuzzy && !ask {
                        r matches Err(GetError::NotFound { name }) && name@ == n
                    } else {
                        let shown = if fuzzy {
                            favs.filter(|m: FavModel| contains_sub(m.name, t))
                        } else {
                            favs
                        };
                        listing_outcome(r, shown, clip, ask)
                    }
                },
                None => listing_outcome(r, favs, clip, ask),
            }
        }),
{
    let draw_param = DrawParam::from_get_params(get_params);
    let has_name = match get_params.get_name() {
        Some(_) => true,
        None => false,
    };
    if has_name {
        let name_given = match get_params.get_name() {
            Some(n) => n,
            None => vstd::pervasive::unreached(),
        };
        let name = match NonEmptyText::new(name_given) {
            Ok(t) => t,
            Err(_) => {
                return Err(GetError::InvalidName);
            },
        };
        let found = match favorites.get(name) {
            Some(found) => Some(found.path_str().to_owned()),
            None => None,
        };
        match found {
            Some(content) => Ok(GetAction::Output(content)),
            None => {
                if !get_params.copy_fuzzy() && !get_params.copy_ask_number() {
                    return Err(GetError::NotFound { name: name_given.to_owned() });
                }
                let shown = if get_params.copy_fuzzy() {
                    let filter_name = match NonEmptyText::new(name_given) {
                        Ok(t) => t,
                        Err(_) => vstd::pervasive::unreached(),
                    };
                    favorites.filtered_containing_name(filter_name)
                } else {
                    favorites
                };
                list_all(shown, draw_param)
            },
        }
    } else {
        list_all(favorites, draw_param)
    }
}

fn list_all(shown: AllFavorites, draw_param: DrawParam) -> (r: Result<GetAction, GetError>)
    requires
        shown.wf(),
    ensures
        listing_outcome(r, shown@, draw_param.spec_clipboard(), draw_param.spec_ask_number()),
{
    let records = shown.as_slice();
    if records.len() == 0 {
        return Err(GetError::NoEntries);
    }
    let table = draw_favorite_table(records, draw_param);
    if draw_param.ask_number() {
        Ok(GetAction::AskNumber { table, shown })
    } else {
        Ok(GetAction::Output(table))
    }
}

} // verus!
