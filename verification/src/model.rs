//! Provider-neutral domain types: identities, albums, tracks, provider
//! issues and provider errors.

use vstd::prelude::*;

use crate::text::{join_text, signed_decimal, signed_decimal_text};

verus! {

/// The identity a provider (a connected server) is registered under.
#[derive(Clone, Debug, PartialEq, Eq, Hash, PartialOrd, Ord)]
pub struct ProviderId(pub String);

impl ProviderId {
    /// An identity holding the given text.
    pub fn new(value: &str) -> (id: Self)
        ensures
            id.0@ == value@,
    {
        ProviderId(String::from_str(value))
    }

    /// The identity's text.
    pub fn as_str(&self) -> (text: &str)
        ensures
            text@ == self.0@,
    {
        self.0.as_str()
    }

    /// The identity as it is displayed: its text.
    pub fn to_text(&self) -> (text: String)
        ensures
            text@ == self.0@,
    {
        self.0.clone()
    }
}

/// What a media identity points at.
#[derive(Clone, Copy, Debug, PartialEq, Eq, Hash, PartialOrd, Ord, Structural)]
pub enum MediaKind {
    Artist,
    Album,
    Track,
    Artwork,
    Playlist,
}

/// The position of a kind in declaration order, which is the order that the
/// derived `Ord` gives.
pub open spec fn kind_rank(kind: MediaKind) -> nat {
    match kind {
        MediaKind::Artist => 0,
        MediaKind::Album => 1,
        MediaKind::Track => 2,
        MediaKind::Artwork => 3,
        MediaKind::Playlist => 4,
    }
}

impl MediaKind {
    /// The kind's position in declaration order.
    pub fn rank(self) -> (r: u8)
        ensures
            r == kind_rank(self),
    {
        match self {
            MediaKind::Artist => 0,
            MediaKind::Album => 1,
            MediaKind::Track => 2,
            MediaKind::Artwork => 3,
            MediaKind::Playlist => 4,
        }
    }
}

/// Collision-safe media identity: the provider, the kind and the provider's
/// own item identifier, kept apart.
#[derive(Clone, Debug, PartialEq, Eq, Hash, PartialOrd, Ord)]
pub struct MediaId {
    pub provider_id: ProviderId,
    pub kind: MediaKind,
    pub item_id: String,
}

impl MediaId {
    /// The identity of an item of a provider.
    pub fn new(provider_id: ProviderId, kind: MediaKind, item_id: &str) -> (id: Self)
        ensures
            id.provider_id == provider_id,
            id.kind == kind,
            id.item_id@ == item_id@,
    {
        MediaId { provider_id, kind, item_id: String::from_str(item_id) }
    }
}

/// An artist as a provider reports it.
#[derive(Clone, Debug, PartialEq, Eq)]
pub struct Artist {
    pub id: String,
    pub name: String,
    pub album_count: Option<u32>,
    pub cover_art: Option<String>,
}

/// An album as a provider reports it.
#[derive(Clone, Debug, PartialEq, Eq)]
pub struct Album {
    pub id: String,
    pub name: String,
    pub artist: Option<String>,
    pub artist_id: Option<String>,
    pub cover_art: Option<String>,
    pub song_count: Option<u32>,
    pub duration_seconds: Option<u64>,
    pub year: Option<u32>,
}

/// A track as a provider reports it.
#[derive(Clone, Debug, PartialEq, Eq)]
pub struct Track {
    pub id: String,
    pub title: String,
    pub artist: Option<String>,
    pub artist_id: Option<String>,
    pub album: Option<String>,
    pub album_id: Option<String>,
    pub cover_art: Option<String>,
    pub duration_seconds: Option<u64>,
    pub track_number: Option<u32>,
    pub suffix: Option<String>,
}

/// An album with its tracks.
#[derive(Clone, Debug, PartialEq, Eq)]
pub struct AlbumDetail {
    pub album: Album,
    pub tracks: Vec<Track>,
}

/// An album of the unified library, its identities qualified by provider.
#[derive(Clone, Debug, PartialEq, Eq)]
pub struct LibraryAlbum {
    pub id: MediaId,
    pub name: String,
    pub artist: Option<String>,
    pub artist_id: Option<MediaId>,
    pub cover_art: Option<MediaId>,
    pub song_count: Option<u32>,
    pub duration_seconds: Option<u64>,
    pub year: Option<u32>,
    pub source_name: String,
}

/// A track of the unified library, its identities qualified by provider.
#[derive(Clone, Debug, PartialEq, Eq)]
pub struct LibraryTrack {
    pub id: MediaId,
    pub title: String,
    pub artist: Option<String>,
    pub artist_id: Option<MediaId>,
    pub album: Option<String>,
    pub album_id: Option<MediaId>,
    pub cover_art: Option<MediaId>,
    pub duration_seconds: Option<u64>,
    pub track_number: Option<u32>,
    pub suffix: Option<String>,
    pub source_name: String,
}

/// An album of the unified library with its tracks.
#[derive(Clone, Debug, PartialEq, Eq)]
pub struct LibraryAlbumDetail {
    pub album: LibraryAlbum,
    pub tracks: Vec<LibraryTrack>,
}

/// Why a provider could not contribute to a library query.
#[derive(Clone, Copy, Debug, PartialEq, Eq, Structural)]
pub enum ProviderIssueKind {
    Unauthorized,
    Unavailable,
    InvalidResponse,
    Unsupported,
    Timeout,
    Other,
}

/// A provider that could not contribute to a library query, and why.
#[derive(Clone, Debug, PartialEq, Eq)]
pub struct ProviderIssue {
    pub provider_id: ProviderId,
    pub provider_name: String,
    pub kind: ProviderIssueKind,
    pub message: String,
    pub retryable: bool,
}

/// The answer of a query over every provider: what the available providers
/// gave, and an issue for each one that failed.
#[derive(Clone, Debug, PartialEq, Eq)]
pub struct AggregateResponse<T> {
    pub items: Vec<T>,
    pub issues: Vec<ProviderIssue>,
    pub complete: bool,
}

/// What a provider reports of itself when it is pinged.
#[derive(Clone, Debug, PartialEq, Eq)]
pub struct ProviderStatus {
    pub server_version: String,
    pub provider: String,
    pub open_subsonic: bool,
}

/// Why a provider call failed.
#[derive(Clone, Debug, PartialEq, Eq)]
pub enum ProviderError {
    Unauthorized,
    NotFound,
    Remote { code: i32, message: String },
    InvalidResponse(String),
    Unavailable(String),
    Unsupported(String),
}

/// The text an error is displayed as.
pub open spec fn error_message(error: ProviderError) -> Seq<char> {
    match error {
        ProviderError::Unauthorized => "authentication failed"@,
        ProviderError::NotFound => "resource not found"@,
        ProviderError::Remote { code, message } => "provider returned error "@ + signed_decimal(
            code as int,
        ) + ": "@ + message@,
        ProviderError::InvalidResponse(detail) => "provider response was invalid: "@ + detail@,
        ProviderError::Unavailable(detail) => "provider is unavailable: "@ + detail@,
        ProviderError::Unsupported(detail) => "provider does not support "@ + detail@,
    }
}

impl ProviderError {
    /// The text the error is displayed as.
    pub fn message(&self) -> (text: String)
        ensures
            text@ == error_message(*self),
    {
        match self {
            ProviderError::Unauthorized => String::from_str("authentication failed"),
            ProviderError::NotFound => String::from_str("resource not found"),
            ProviderError::Remote { code, message } => {
                let mut text = String::from_str("provider returned error ");
                let number = signed_decimal_text(*code as i64);
                text.append(number.as_str());
                text.append(": ");
                text.append(message.as_str());
                text
            },
            ProviderError::InvalidResponse(detail) => join_text(
                "provider response was invalid: ",
                detail.as_str(),
            ),
            ProviderError::Unavailable(detail) => join_text(
                "provider is unavailable: ",
                detail.as_str(),
            ),
            ProviderError::Unsupported(detail) => join_text(
                "provider does not support ",
                detail.as_str(),
            ),
        }
    }
}

} // verus!
