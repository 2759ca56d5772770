//! The number prompt of the `get` subcommand: building the prompt text
//! and validating the line the user typed. Reading the line itself is
//! terminal work and stays with the binary.

use vstd::prelude::*;

use crate::cli_args::GetParams;
use crate::text::{dec_str, parse_usize, parse_usize_spec, str_trim, trim_spec, usize_to_string};
use vstd::string::StringExecFns;

verus! {

/// The message shown when the typed line is not a number in range.
pub open spec fn req_number_message(max: nat) -> Seq<char> {
    "Number is not between 1 and "@ + dec_str(max)
}

/// The prompt asking for a line number.
pub open spec fn prompt_message(max: nat) -> Seq<char> {
    "Enter a whole number between 1 and "@ + dec_str(max) + ": "@
}

fn gen_req_number_message(max: usize) -> (r: String)
    ensures
        r@ == req_number_message(max as nat),
{
    let mut msg = "Number is not between 1 and ".to_owned();
    let num = usize_to_string(max);
    msg.append(num.as_str());
    msg
}

/// Builds the prompt for picking one of `max` numbered lines.
pub fn prompt_for_ask_number(max: usize) -> (r: String)
    ensures
        r@ == prompt_message(max as nat),
{
    let mut msg = "Enter a whole number between 1 and ".to_owned();
    let num = usize_to_string(max);
    msg.append(num.as_str());
    msg.append(": ");
    msg
}

/// Validates the line typed at the number prompt: with the ask-number
/// flag off nothing was asked; otherwise the trimmed line must parse as
/// a number between one and `count`, and anything else earns exactly
/// the out-of-range message.
pub fn ask_possible_prompt_for_ask_number(user_input: &str, count: usize, get_params: &GetParams) -> (r:
    Result<Option<usize>, String>)
    ensures
        !get_params.spec_ask_number() ==> (r matches Ok(chosen) && chosen is None),
        get_params.spec_ask_number() ==> (match r {
            Ok(chosen) => chosen matches Some(v) && parse_usize_spec(trim_spec(user_input@))
                == Some(v) && 1 <= v <= count,
            Err(msg) => msg@ == req_number_message(count as nat) && (match parse_usize_spec(
                trim_spec(user_input@),
            ) {
                Some(v) => v == 0 || v > count,
                None => true,
            }),
        }),
{
    if !get_params.copy_ask_number() {
        return Ok(None);
    }
    let trimmed = str_trim(user_input);
    match parse_usize(trimmed) {
        None => Err(gen_req_number_message(count)),
        Some(parsed_number) => {
            if parsed_number == 0 || parsed_number > count {
                Err(gen_req_number_message(count))
            } else {
                Ok(Some(parsed_number))
            }
        },
    }
}

} // verus!
