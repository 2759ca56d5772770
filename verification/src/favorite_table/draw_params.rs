//! What a table rendering needs to know: whether the output goes to the
//! clipboard (and so must stay free of color codes) and whether lines
//! are numbered for a follow-up prompt.

use vstd::prelude::*;

use crate::cli_args::GetParams;

verus! {

#[derive(Debug, Clone, Copy, PartialEq, Eq, Structural)]
pub struct DrawParam {
    clipboard: bool,
    ask_number: bool,
}

impl DrawParam {
    pub closed spec fn spec_clipboard(&self) -> bool {
        self.clipboard
    }

    pub closed spec fn spec_ask_number(&self) -> bool {
        self.ask_number
    }

    pub fn new(clipboard: bool, ask_number: bool) -> (r: Self)
        ensures
            r.spec_clipboard() == clipboard,
            r.spec_ask_number() == ask_number,
    {
        Self { clipboard, ask_number }
    }

    pub fn new_for_clipboard(ask_number: bool) -> (r: Self)
        ensures
            r.spec_clipboard() == true,
            r.spec_ask_number() == ask_number,
    {
        Self { clipboard: true, ask_number }
    }

    /// Carries over the relevant `get` parameters.
    pub fn from_get_params(params: &GetParams) -> (r: Self)
        ensures
            r.spec_clipboard() == params.spec_clipboard(),
            r.spec_ask_number() == params.spec_ask_number(),
    {
        Self { clipboard: params.copy_has_clipboard(), ask_number: params.copy_ask_number() }
    }

    pub fn clipboard(&self) -> (r: bool)
        ensures
            r == self.spec_clipboard(),
    {
        self.clipboard
    }

    pub fn ask_number(&self) -> (r: bool)
        ensures
            r == self.spec_ask_number(),
    {
        self.ask_number
    }
}

} // verus!
