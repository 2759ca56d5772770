//! A single favorite: a validated name paired with a location path kept as
//! validated text.

use vstd::prelude::*;

use crate::trimmed_not_empty_text::{valid_text, NonEmptyText, NotEmptyTextError};

verus! {

/// The mathematical value of one favorite: its name and its location text.
#[verifier::ext_equal]
pub ghost struct FavModel {
    pub name: Seq<char>,
    pub location: Seq<char>,
}

impl FavModel {
    pub open spec fn wf(&self) -> bool {
        valid_text(self.name) && valid_text(self.location)
    }
}

/// One favorite created by the user: a non-empty label for a location,
/// stored as text. The location does not need to point at an existing
/// place on disk.
#[derive(Debug)]
pub struct FavoriteFolderPath {
    name: NonEmptyText,
    location: NonEmptyText,
}

impl View for FavoriteFolderPath {
    type V = FavModel;

    closed spec fn view(&self) -> FavModel {
        FavModel { name: self.name@, location: self.location@ }
    }
}

impl FavoriteFolderPath {
    pub open spec fn wf(&self) -> bool {
        self@.wf()
    }

    pub fn new(name: NonEmptyText, location: NonEmptyText) -> (r: Self)
        ensures
            r@.name == name@,
            r@.location == location@,
            name.wf() && location.wf() ==> r.wf(),
    {
        Self { name, location }
    }

    /// Replaces the name in place; uniqueness across a collection is the
    /// caller's concern.
    pub fn set_name(&mut self, new_name: NonEmptyText)
        ensures
            final(self)@.name == new_name@,
            final(self)@.location == old(self)@.location,
            old(self).wf() && new_name.wf() ==> final(self).wf(),
    {
        self.name = new_name;
    }

    pub fn get_name(&self) -> (r: &str)
        ensures
            r@ == self@.name,
    {
        self.name.as_str()
    }

    pub fn path_str(&self) -> (r: &str)
        ensures
            r@ == self@.location,
    {
        self.location.as_str()
    }

    /// The location as path text; paths are carried as plain text here.
    pub fn path(&self) -> (r: &str)
        ensures
            r@ == self@.location,
    {
        self.location.as_str()
    }

    /// Whether the stored location currently resolves to something on the
    /// filesystem. Advisory and display-only: the answer depends on the
    /// disk and may differ between calls.
    pub fn does_exit(&self) -> bool {
        path_exists(self.location.as_str())
    }
}

/// Relies on `std::path::Path::exists`: the result reports the current
/// state of the filesystem, so nothing can be promised of it.
#[verifier::external_body]
pub(crate) fn path_exists(location: &str) -> bool {
    std::path::Path::new(location).exists()
}

impl Clone for FavoriteFolderPath {
    fn clone(&self) -> (r: Self)
        ensures
            r@ == self@,
    {
        let r = FavoriteFolderPath { name: self.name.clone(), location: self.location.clone() };
        proof {
            assert(r@ =~= self@);
        }
        r
    }
}

impl PartialEq for FavoriteFolderPath {
    fn eq(&self, other: &Self) -> (r: bool) {
        let r = self.name == other.name && self.location == other.location;
        proof {
            if r {
                assert(self@ =~= other@);
            }
        }
        r
    }
}

impl Eq for FavoriteFolderPath {

}

impl vstd::std_specs::cmp::PartialEqSpecImpl for FavoriteFolderPath {
    open spec fn obeys_eq_spec() -> bool {
        true
    }

    open spec fn eq_spec(&self, other: &Self) -> bool {
        self@ == other@
    }
}

/// Why a favorite could not be created from raw input.
#[derive(Debug, PartialEq, Eq)]
pub enum InvalidFavoriteFields {
    EmptyName(NotEmptyTextError),
    EmptyPath,
    InvalidUtf8PathStr,
}

impl InvalidFavoriteFields {
    /// The human-readable description of this error.
    pub fn message(&self) -> (r: &'static str)
        ensures
            self matches InvalidFavoriteFields::EmptyName(_) ==> r@
                == "Name of favorite folder should not be empty or only whitespace"@,
            self is EmptyPath ==> r@
                == "Path of favorite folder should not be empty or only whitespace"@,
            self is InvalidUtf8PathStr ==> r@
                == "Path of favorite folder is not a valid utf 8 text"@,
    {
        match self {
            InvalidFavoriteFields::EmptyName(_) => {
                "Name of favorite folder should not be empty or only whitespace"
            },
            InvalidFavoriteFields::EmptyPath => {
                "Path of favorite folder should not be empty or only whitespace"
            },
            InvalidFavoriteFields::InvalidUtf8PathStr => {
                "Path of favorite folder is not a valid utf 8 text"
            },
        }
    }
}

} // verus!
