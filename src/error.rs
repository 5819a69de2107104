//! Errors of link validation and of playlist construction.
use vstd::prelude::*;

verus! {

/// A link does not follow the grammar of its service.
#[derive(Debug, Clone, Copy, PartialEq, Eq, Structural)]
pub enum ValidationError {
    /// No streaming-service playlist link was found in the text.
    NoValidSpoityUrl,
    /// No catalog playlist link was found in the text.
    NoValidAmusicUrl,
}

/// A playlist or one of its tracks lacks required content.
#[derive(Debug, Clone, Copy, PartialEq, Eq, Structural)]
pub enum PlaylistError {
    /// A playlist needs at least one track.
    EmptyTrack,
    /// A track needs a title and a performer.
    EmptyTrackValue,
    /// A playlist needs a title.
    EmptyTitle,
}

impl ValidationError {
    /// The message that describes the error.
    pub fn message(&self) -> (r: String)
        ensures
            r@ == self.message_spec(),
    {
        match self {
            ValidationError::NoValidSpoityUrl => String::from_str("No matching spotify url"),
            ValidationError::NoValidAmusicUrl => String::from_str("No matching apple music url"),
        }
    }

    pub open spec fn message_spec(&self) -> Seq<char> {
        match self {
            ValidationError::NoValidSpoityUrl => "No matching spotify url"@,
            ValidationError::NoValidAmusicUrl => "No matching apple music url"@,
        }
    }
}

impl PlaylistError {
    /// The message that describes the error.
    pub fn message(&self) -> (r: String)
        ensures
            r@ == self.message_spec(),
    {
        match self {
            PlaylistError::EmptyTrack => String::from_str(
                "There must be at least one track in a playlist",
            ),
            PlaylistError::EmptyTrackValue => String::from_str(
                "There must be a title and an interpret.",
            ),
            PlaylistError::EmptyTitle => String::from_str("Title must not be empty"),
        }
    }

    pub open spec fn message_spec(&self) -> Seq<char> {
        match self {
            PlaylistError::EmptyTrack => "There must be at least one track in a playlist"@,
            PlaylistError::EmptyTrackValue => "There must be a title and an interpret."@,
            PlaylistError::EmptyTitle => "Title must not be empty"@,
        }
    }
}

} // verus!
