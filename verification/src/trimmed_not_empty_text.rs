//! Validated text: strings that stay non-empty once surrounding whitespace
//! is trimmed away, used for both favorite names and locations.

use vstd::prelude::*;

use crate::text::{lemma_trim_is_trimmed, str_trim, trim_spec};

verus! {

/// A string that is non-empty after leading and trailing whitespace is
/// trimmed; the stored text is kept in trimmed form.
#[derive(Debug)]
pub struct NonEmptyText {
    text: String,
}

/// Error for input text that is empty or holds only whitespace.
#[derive(Debug, PartialEq, Eq, Structural)]
pub struct NotEmptyTextError;

impl NotEmptyTextError {
    /// The human-readable description of this error.
    pub fn message(&self) -> (r: &'static str)
        ensures
            r@ == "Trimmed text must not only contain whitespaces"@,
    {
        "Trimmed text must not only contain whitespaces"
    }
}

/// A trimmed, non-empty character sequence: what a `NonEmptyText` holds.
pub open spec fn valid_text(s: Seq<char>) -> bool {
    s.len() > 0 && trim_spec(s) == s
}

impl View for NonEmptyText {
    type V = Seq<char>;

    closed spec fn view(&self) -> Seq<char> {
        self.text@
    }
}

impl NonEmptyText {
    pub open spec fn wf(&self) -> bool {
        valid_text(self@)
    }

    /// Trims `value`; fails exactly when nothing but whitespace remains.
    pub fn new(value: &str) -> (r: Result<NonEmptyText, NotEmptyTextError>)
        ensures
            r is Ok <==> trim_spec(value@).len() > 0,
            r matches Ok(t) ==> t@ == trim_spec(value@) && t.wf(),
    {
        let trimmed = str_trim(value);
        if trimmed.unicode_len() == 0 {
            Err(NotEmptyTextError)
        } else {
            proof {
                lemma_trim_is_trimmed(value@);
            }
            Ok(NonEmptyText { text: trimmed.to_owned() })
        }
    }

    /// Like `new` for input that is known to trim to something non-empty;
    /// an unverified caller breaking that expectation hits a panic.
    pub fn unwrap(value: &str) -> (r: NonEmptyText)
        requires
            trim_spec(value@).len() > 0,
        ensures
            r@ == trim_spec(value@),
            r.wf(),
    {
        match Self::new(value) {
            Ok(t) => t,
            Err(_) => vstd::pervasive::unreached(),
        }
    }

    /// The trimmed text itself.
    pub fn as_str(&self) -> (r: &str)
        ensures
            r@ == self@,
    {
        self.text.as_str()
    }
}

impl Clone for NonEmptyText {
    fn clone(&self) -> (r: Self)
        ensures
            r@ == self@,
    {
        NonEmptyText { text: self.text.clone() }
    }
}

impl PartialEq for NonEmptyText {
    fn eq(&self, other: &Self) -> (r: bool) {
        self.text == other.text
    }
}

impl Eq for NonEmptyText {

}

impl vstd::std_specs::cmp::PartialEqSpecImpl for NonEmptyText {
    open spec fn obeys_eq_spec() -> bool {
        true
    }

    open spec fn eq_spec(&self, other: &Self) -> bool {
        self@ == other@
    }
}

} // verus!
