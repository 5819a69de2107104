//! Playlists aggregated from a streaming-service link and a catalog link,
//! with the URL grammars of both services and short identifiers derived
//! from titles.
pub mod amusic;
pub mod error;
pub mod identifier;
pub mod models;
pub mod spotify;
pub mod text;

pub use amusic::AmusicUrl;
pub use error::{PlaylistError, ValidationError};
pub use identifier::{sha_short, short_id};
pub use models::{Category, Playlist, Track};
pub use spotify::SpotifyUrl;
