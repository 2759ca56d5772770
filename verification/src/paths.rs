//! Errors around locating the application's data folder. Resolving the
//! folder itself touches the environment and the filesystem and lives
//! with the binary; the error kind it reports is defined here.

use vstd::prelude::*;
use vstd::string::StringExecFns;

verus! {

/// Why no data folder is available.
#[derive(Debug)]
pub enum DataFolderError {
    /// No location for data folders could be found at all.
    CouldNotLocate,
    /// The application's own folder at the carried path could not be
    /// created or checked.
    CouldNotEnsure(String),
}

impl DataFolderError {
    /// The human-readable description of this error.
    pub fn message(&self) -> (r: String)
        ensures
            self is CouldNotLocate ==> r@
                == "Could not find a location where a data folder is located in general"@,
            self matches DataFolderError::CouldNotEnsure(at) ==> r@
                == "Could not make sure there is a data folder at ("@ + at@
                + ") for this application"@,
    {
        match self {
            DataFolderError::CouldNotLocate => {
                "Could not find a location where a data folder is located in general".to_owned()
            },
            DataFolderError::CouldNotEnsure(at) => {
                let mut msg =
                    "Could not make sure there is a data folder at (".to_owned();
                msg.append(at.as_str());
                msg.append(") for this application");
                msg
            },
        }
    }
}

} // verus!
