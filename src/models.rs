//! Tracks, categories and the playlist that aggregates them.
use vstd::prelude::*;
use std::path::PathBuf;
use crate::amusic::AmusicUrl;
use crate::error::PlaylistError;
use crate::identifier::{short_id, short_id_of};
use crate::spotify::SpotifyUrl;

verus! {

/// A file system path, carried through as it is.
#[verifier::external_type_specification]
#[verifier::external_body]
pub struct ExPathBuf(PathBuf);

/// A track of a playlist: its title and its performer.
#[derive(Debug, Clone)]
pub struct Track {
    title: String,
    interpret: String,
}

impl Track {
    /// The title of the track.
    pub closed spec fn title_view(&self) -> Seq<char> {
        self.title@
    }

    /// The performer of the track.
    pub closed spec fn interpret_view(&self) -> Seq<char> {
        self.interpret@
    }

    /// A track with a title and a performer, neither of them empty.
    pub fn new(title: &str, interpret: &str) -> (r: Result<Track, PlaylistError>)
        ensures
            match r {
                Ok(track) => {
                    &&& title@.len() > 0
                    &&& interpret@.len() > 0
                    &&& track.title_view() == title@
                    &&& track.interpret_view() == interpret@
                },
                Err(e) => e == PlaylistError::EmptyTrackValue && (title@.len() == 0
                    || interpret@.len() == 0),
            },
    {
        if title.is_empty() || interpret.is_empty() {
            return Err(PlaylistError::EmptyTrackValue);
        }
        Ok(Track { title: String::from_str(title), interpret: String::from_str(interpret) })
    }

    /// The title of the track.
    pub fn title(&self) -> (r: &str)
        ensures
            r@ == self.title_view(),
    {
        self.title.as_str()
    }

    /// The performer of the track.
    pub fn interpret(&self) -> (r: &str)
        ensures
            r@ == self.interpret_view(),
    {
        self.interpret.as_str()
    }
}

/// A category that playlists are listed in, identified by the short id of
/// its name.
#[derive(Debug, Clone)]
pub struct Category {
    id: String,
    name: String,
}

impl Category {
    /// The short id of the category.
    pub closed spec fn id_view(&self) -> Seq<char> {
        self.id@
    }

    /// The name of the category.
    pub closed spec fn name_view(&self) -> Seq<char> {
        self.name@
    }

    /// The id is the short id of the name.
    pub open spec fn wf(&self) -> bool {
        self.id_view() == short_id_of(self.name_view())
    }

    /// The category named `name`; any name is accepted.
    pub fn new(name: &str) -> (r: Category)
        ensures
            r.name_view() == name@,
            r.id_view() == short_id_of(name@),
            r.wf(),
    {
        Category { id: short_id(name), name: String::from_str(name) }
    }

    /// The short id of the category.
    pub fn id(&self) -> (r: &str)
        ensures
            r@ == self.id_view(),
    {
        self.id.as_str()
    }

    /// The name of the category.
    pub fn name(&self) -> (r: &str)
        ensures
            r@ == self.name_view(),
    {
        self.name.as_str()
    }
}

/// A playlist: its tracks in order, the links where it can be played, and
/// its artwork.
#[derive(Debug)]
pub struct Playlist {
    /// The short id of the title.
    pub id: String,
    /// The title.
    pub title: String,
    /// The category the playlist is listed in.
    pub category: Category,
    /// The link to the streaming service.
    pub spotify: SpotifyUrl,
    /// The link to the music catalog.
    pub amusic: AmusicUrl,
    /// The tracks, in order.
    pub tracks: Vec<Track>,
    /// Path of the artwork.
    pub image: PathBuf,
}

impl Playlist {
    /// A non-empty title, at least one track, and the short id of the title.
    pub open spec fn wf(&self) -> bool {
        &&& self.title@.len() > 0
        &&& self.tracks@.len() > 0
        &&& self.id@ == short_id_of(self.title@)
    }

    /// A playlist titled `title`, with its id derived from the title and
    /// everything else stored as given.
    pub fn new(
        title: &str,
        category: Category,
        spotify: SpotifyUrl,
        amusic: AmusicUrl,
        tracks: Vec<Track>,
        image: PathBuf,
    ) -> (r: Result<Playlist, PlaylistError>)
        ensures
            match r {
                Ok(p) => {
                    &&& p.wf()
                    &&& p.title@ == title@
                    &&& p.category == category
                    &&& p.spotify == spotify
                    &&& p.amusic == amusic
                    &&& p.tracks@ == tracks@
                    &&& p.image == image
                },
                Err(e) => {
                    ||| e == PlaylistError::EmptyTitle && title@.len() == 0
                    ||| e == PlaylistError::EmptyTrack && title@.len() > 0 && tracks@.len() == 0
                },
            },
    {
        if title.is_empty() {
            return Err(PlaylistError::EmptyTitle);
        }
        if tracks.len() == 0 {
            return Err(PlaylistError::EmptyTrack);
        }
        Ok(
            Playlist {
                id: short_id(title),
                title: String::from_str(title),
                category,
                spotify,
                amusic,
                tracks,
                image,
            },
        )
    }
}

} // verus!
