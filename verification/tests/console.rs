use folder_favorite::cli_args::GetParams;
use folder_favorite::console_interaction::{ask_possible_prompt_for_ask_number, prompt_for_ask_number};

fn asking_params() -> GetParams {
    GetParams::new(None, false, true, false)
}

#[test]
fn ask_possible_prompt_for_ask_number_accepts_a_number_in_range() {
    let params = asking_params();
    assert_eq!(Ok(Some(1)), ask_possible_prompt_for_ask_number("1", 3, &params));
    assert_eq!(Ok(Some(3)), ask_possible_prompt_for_ask_number(" 3 \n", 3, &params));
    assert_eq!(Ok(Some(2)), ask_possible_prompt_for_ask_number("+2", 3, &params));
}

#[test]
fn ask_possible_prompt_for_ask_number_rejects_out_of_range_or_garbage() {
    let params = asking_params();
    let expected = Err("Number is not between 1 and 3".to_string());
    assert_eq!(expected, ask_possible_prompt_for_ask_number("0", 3, &params));
    assert_eq!(expected, ask_possible_prompt_for_ask_number("4", 3, &params));
    assert_eq!(expected, ask_possible_prompt_for_ask_number("abc", 3, &params));
    assert_eq!(expected, ask_possible_prompt_for_ask_number("", 3, &params));
    assert_eq!(expected, ask_possible_prompt_for_ask_number("-1", 3, &params));
}

#[test]
fn ask_possible_prompt_for_ask_number_is_silent_without_the_flag() {
    let params = GetParams::new(None, false, false, false);
    assert_eq!(Ok(None), ask_possible_prompt_for_ask_number("2", 3, &params));
}

#[test]
fn prompt_names_the_range() {
    assert_eq!("Enter a whole number between 1 and 7: ", prompt_for_ask_number(7));
}
