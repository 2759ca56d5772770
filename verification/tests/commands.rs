use folder_favorite::cli_args::{CliCommands, GetParams};
use folder_favorite::command_handling::{handle_get_subcommand, GetAction, GetError};
use folder_favorite::data_access::matches_on_all_non_existing_paths;
use folder_favorite::favorite_folder_record::FavoriteFolderPath;
use folder_favorite::paths::DataFolderError;
use folder_favorite::trimmed_not_empty_text::NonEmptyText;
use folder_favorite::AllFavorites;

fn record(name: &str, location: &str) -> FavoriteFolderPath {
    FavoriteFolderPath::new(NonEmptyText::unwrap(name), NonEmptyText::unwrap(location))
}

fn given_favorites() -> AllFavorites {
    AllFavorites::new(vec![
        record("dev_rust", "/home/some_user/Code/rust"),
        record("rust_book", "/home/some_user/Books/rust"),
    ])
}

fn plain_get(name: Option<&str>, clipboard: bool, ask_number: bool, fuzzy: bool) -> GetParams {
    GetParams::new(name.map(|n| n.to_string()), clipboard, ask_number, fuzzy)
}

#[test]
fn get_with_present_name_outputs_its_location() {
    let params = plain_get(Some("dev_rust"), false, false, false);
    match handle_get_subcommand(given_favorites(), &params) {
        Ok(GetAction::Output(content)) => assert_eq!("/home/some_user/Code/rust", content),
        _ => panic!("a present name must yield its location"),
    }
}

#[test]
fn get_with_absent_name_and_no_fallback_is_not_found() {
    let params = plain_get(Some("nope"), false, false, false);
    match handle_get_subcommand(given_favorites(), &params) {
        Err(err) => assert_eq!("No path found for the name: nope", err.message()),
        Ok(_) => panic!("an absent name without fallback flags must fail"),
    }
}

#[test]
fn get_with_whitespace_name_is_invalid() {
    let params = plain_get(Some("   "), false, false, false);
    match handle_get_subcommand(given_favorites(), &params) {
        Err(GetError::InvalidName) => {}
        _ => panic!("a whitespace-only name must be rejected"),
    }
}

#[test]
fn get_without_name_lists_everything_for_the_clipboard() {
    let params = plain_get(None, true, false, false);
    match handle_get_subcommand(given_favorites(), &params) {
        Ok(GetAction::Output(content)) => {
            let expected = "dev_rust   /home/some_user/Code/rust\n\
                            rust_book  /home/some_user/Books/rust";
            assert_eq!(expected, content);
        }
        _ => panic!("listing everything must succeed"),
    }
}

#[test]
fn get_with_fuzzy_fallback_filters_by_the_name() {
    let params = plain_get(Some("book"), true, false, true);
    match handle_get_subcommand(given_favorites(), &params) {
        Ok(GetAction::Output(content)) => {
            assert_eq!("rust_book  /home/some_user/Books/rust", content);
        }
        _ => panic!("fuzzy fallback must list the matching entries"),
    }
}

#[test]
fn get_with_ask_number_hands_back_the_numbered_table() {
    let params = plain_get(None, true, true, false);
    match handle_get_subcommand(given_favorites(), &params) {
        Ok(GetAction::AskNumber { table, shown }) => {
            let expected = "1  dev_rust   /home/some_user/Code/rust\n\
                            2  rust_book  /home/some_user/Books/rust";
            assert_eq!(expected, table);
            assert_eq!(given_favorites(), shown);
        }
        _ => panic!("the ask-number flag must hand back the table"),
    }
}

#[test]
fn get_on_an_empty_collection_reports_no_entries() {
    let params = plain_get(None, true, false, false);
    match handle_get_subcommand(AllFavorites::new(Vec::new()), &params) {
        Err(err) => assert_eq!(
            "No match found for given name or no labels were created so far",
            err.message()
        ),
        Ok(_) => panic!("an empty collection has nothing to list"),
    }
}

#[test]
fn fuzzy_miss_reports_no_entries() {
    let params = plain_get(Some("zzz"), true, false, true);
    match handle_get_subcommand(given_favorites(), &params) {
        Err(GetError::NoEntries) => {}
        _ => panic!("a fuzzy miss leaves nothing to list"),
    }
}

#[test]
fn dangling_check_trusts_only_a_definite_absence() {
    assert!(!matches_on_all_non_existing_paths("/"));
    assert!(matches_on_all_non_existing_paths(
        "/this/path/should/never/exist/anywhere-at-all"
    ));
}

#[test]
fn does_exit_reports_the_filesystem() {
    assert!(record("root", "/").does_exit());
    assert!(!record("gone", "/this/path/should/never/exist/anywhere-at-all").does_exit());
}

#[test]
fn data_folder_error_messages_are_stable() {
    assert_eq!(
        "Could not find a location where a data folder is located in general",
        DataFolderError::CouldNotLocate.message()
    );
    assert_eq!(
        "Could not make sure there is a data folder at (/data) for this application",
        DataFolderError::CouldNotEnsure("/data".to_string()).message()
    );
}

#[test]
fn verify_cli() {
    let get = GetParams::new(Some("dev".to_string()), true, false, true);
    assert_eq!(Some("dev"), get.get_name());
    assert!(get.copy_has_clipboard());
    assert!(!get.copy_ask_number());
    assert!(get.copy_fuzzy());
    let commands = vec![
        CliCommands::Get(GetParams::new(None, false, false, false)),
        CliCommands::Rename {
            old_name_favorite: NonEmptyText::unwrap("old"),
            new_name_favorite: NonEmptyText::unwrap("new"),
        },
        CliCommands::SetPath {
            name_favorite: NonEmptyText::unwrap("name"),
            new_path: NonEmptyText::unwrap("/path"),
        },
        CliCommands::Delete {
            name_favorite: NonEmptyText::unwrap("name"),
        },
        CliCommands::Clean,
        CliCommands::PwdSet {
            name_favorite: NonEmptyText::unwrap("name"),
        },
        CliCommands::Reset,
    ];
    assert_eq!(7, commands.len());
}
