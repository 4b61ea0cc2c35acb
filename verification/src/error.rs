//! The failure of a search by name.

use vstd::prelude::*;
use vstd::string::*;

verus! {

/// Why a name did not lead to a colormap.
#[derive(Debug, PartialEq, Eq)]
pub enum ColorcetError {
    /// Neither the catalog nor the color parser knows the name. The name is
    /// kept exactly as it was asked for.
    ColormapNotFound(String),
}

impl ColorcetError {
    /// The name that was asked for.
    pub open spec fn name(self) -> Seq<char> {
        match self {
            ColorcetError::ColormapNotFound(name) => name@,
        }
    }

    /// The text shown to a user.
    pub open spec fn message_text(self) -> Seq<char> {
        "no colormap with name "@ + self.name() + " known"@
    }

    /// Renders the error for a user; the requested name appears unchanged.
    pub fn message(&self) -> (text: String)
        ensures
            text@ == self.message_text(),
    {
        match self {
            ColorcetError::ColormapNotFound(name) => {
                "no colormap with name ".to_owned().concat(name.as_str()).concat(" known")
            },
        }
    }
}

} // verus!
