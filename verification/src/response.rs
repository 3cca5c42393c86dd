//! Reading Subsonic responses: the status check of the response envelope,
//! the failures a request can end in, the metadata values that servers
//! send as numbers or strings, and the conversion of albums, tracks and
//! music directories into the provider-neutral model.

use vstd::prelude::*;

use crate::model::{Album, AlbumDetail, ProviderError, ProviderStatus, Track};
use crate::text::{
    join_text, contains_text, decimal, decimal_text, has_substring, parse_i64, parsed_i64,
    signed_decimal, signed_decimal_text,
};

verus! {

// ---------------------------------------------------------------------------
// The envelope
// ---------------------------------------------------------------------------

/// The error a server reports inside a failed response.
#[derive(Clone, Debug, PartialEq, Eq)]
pub struct ServerError {
    pub code: i32,
    pub message: String,
}

/// The fields every `subsonic-response` envelope carries.
#[derive(Clone, Debug, PartialEq, Eq)]
pub struct ResponseMetadata {
    pub status: String,
    pub version: String,
    pub server_type: Option<String>,
    pub open_subsonic: Option<bool>,
    pub error: Option<ServerError>,
}

/// What a successful response says of the server.
#[derive(Clone, Debug, PartialEq, Eq)]
pub struct ResponseInfo {
    pub version: String,
    pub server_type: Option<String>,
    pub open_subsonic: Option<bool>,
}

/// The Subsonic error code for wrong credentials.
pub const WRONG_CREDENTIALS: i32 = 40;

/// Accepts a response whose status is `ok`; otherwise turns the server's
/// error into a provider error: code 40 means the credentials were refused,
/// any other code is passed on, and a failed response without an error is
/// reported as code 0, "unknown server error".
pub fn check_metadata(metadata: ResponseMetadata) -> (checked: Result<ResponseInfo, ProviderError>)
    ensures
        metadata.status@ == "ok"@ ==> checked == Ok::<ResponseInfo, ProviderError>(
            ResponseInfo {
                version: metadata.version,
                server_type: metadata.server_type,
                open_subsonic: metadata.open_subsonic,
            },
        ),
        metadata.status@ != "ok"@ ==> match metadata.error {
            Some(e) => if e.code == WRONG_CREDENTIALS {
                checked == Err::<ResponseInfo, ProviderError>(ProviderError::Unauthorized)
            } else {
                checked == Err::<ResponseInfo, ProviderError>(
                    ProviderError::Remote { code: e.code, message: e.message },
                )
            },
            None => checked matches Err(ProviderError::Remote { code, message }) && code == 0
                && message@ == "unknown server error"@,
        },
{
    let ok = String::from_str("ok");
    if metadata.status == ok {
        return Ok(
            ResponseInfo {
                version: metadata.version,
                server_type: metadata.server_type,
                open_subsonic: metadata.open_subsonic,
            },
        );
    }
    let error = match metadata.error {
        Some(e) => e,
        None => ServerError { code: 0, message: String::from_str("unknown server error") },
    };
    if error.code == WRONG_CREDENTIALS {
        Err(ProviderError::Unauthorized)
    } else {
        Err(ProviderError::Remote { code: error.code, message: error.message })
    }
}

/// The HTTP status a server answers with when it refuses the credentials.
pub const HTTP_UNAUTHORIZED: u16 = 401;

/// An HTTP 401 answer means the credentials were refused; any other status
/// goes on to the body.
pub fn check_http_status(status: u16) -> (checked: Result<(), ProviderError>)
    ensures
        status == HTTP_UNAUTHORIZED ==> checked == Err::<(), ProviderError>(
            ProviderError::Unauthorized,
        ),
        status != HTTP_UNAUTHORIZED ==> checked == Ok::<(), ProviderError>(()),
{
    if status == HTTP_UNAUTHORIZED {
        Err(ProviderError::Unauthorized)
    } else {
        Ok(())
    }
}

/// What a server reports of itself when pinged: its type ("Subsonic" when it
/// does not say) and version, and whether it speaks OpenSubsonic.
pub fn provider_status(info: ResponseInfo) -> (status: ProviderStatus)
    ensures
        status.server_version == info.version,
        status.provider@ == match info.server_type {
            Some(t) => t@,
            None => "Subsonic"@,
        },
        status.open_subsonic == (info.open_subsonic == Some(true)),
{
    ProviderStatus {
        server_version: info.version,
        provider: match info.server_type {
            Some(t) => t,
            None => String::from_str("Subsonic"),
        },
        open_subsonic: match info.open_subsonic {
            Some(b) => b,
            None => false,
        },
    }
}

/// A request failure: the server could not be reached or its body could not
/// be read.
pub fn unavailable(detail: String) -> (error: ProviderError)
    ensures
        error == ProviderError::Unavailable(detail),
{
    ProviderError::Unavailable(detail)
}

fn join3(a: &str, b: &str, c: &str) -> (joined: String)
    ensures
        joined@ == a@ + b@ + c@,
{
    let mut joined = String::from_str(a);
    joined.append(b);
    joined.append(c);
    joined
}

/// The body of a response was not JSON.
pub fn unparsable_body(method: &str, http_status: &str, content_type: &str, detail: &str) -> (error:
    ProviderError)
    ensures
        error matches ProviderError::InvalidResponse(m) && m@ == method@ + " returned HTTP "@
            + http_status@ + " ("@ + content_type@ + "), not valid JSON: "@ + detail@,
{
    let mut message = join3(method, " returned HTTP ", http_status);
    message.append(" (");
    message.append(content_type);
    message.append("), not valid JSON: ");
    message.append(detail);
    ProviderError::InvalidResponse(message)
}

/// The body of a response had no `subsonic-response` envelope.
pub fn missing_envelope(method: &str) -> (error: ProviderError)
    ensures
        error matches ProviderError::InvalidResponse(m) && m@ == method@
            + " response did not contain subsonic-response"@,
{
    ProviderError::InvalidResponse(join_text(method, " response did not contain subsonic-response"))
}

/// The envelope's status fields could not be read.
pub fn invalid_metadata(method: &str, detail: &str) -> (error: ProviderError)
    ensures
        error matches ProviderError::InvalidResponse(m) && m@ == method@
            + " response metadata was invalid: "@ + detail@,
{
    ProviderError::InvalidResponse(join3(method, " response metadata was invalid: ", detail))
}

/// The envelope did not hold the method's result in the expected shape.
pub fn invalid_schema(method: &str, detail: &str) -> (error: ProviderError)
    ensures
        error matches ProviderError::InvalidResponse(m) && m@ == method@
            + " response schema was invalid: "@ + detail@,
{
    ProviderError::InvalidResponse(join3(method, " response schema was invalid: ", detail))
}

/// Whether an error says that the response lacked the method's result, so
/// that the older (directory based) method is worth trying.
pub open spec fn is_missing_result(error: ProviderError) -> bool {
    match error {
        ProviderError::InvalidResponse(m) => has_substring(m@, "missing field"@) || has_substring(
            m@,
            "did not contain its result"@,
        ),
        _ => false,
    }
}

/// Whether an error says that the response lacked the method's result.
pub fn missing_result(error: &ProviderError) -> (missing: bool)
    ensures
        missing == is_missing_result(*error),
{
    match error {
        ProviderError::InvalidResponse(message) => contains_text(message.as_str(), "missing field")
            || contains_text(message.as_str(), "did not contain its result"),
        _ => false,
    }
}

/// What follows a failed call of a current API method: the older method
/// when the answer lacked the current method's result, otherwise the
/// failure itself.
pub fn fall_back(error: ProviderError, legacy: &'static str) -> (next: Result<
    &'static str,
    ProviderError,
>)
    ensures
        is_missing_result(error) ==> next == Ok::<&'static str, ProviderError>(legacy),
        !is_missing_result(error) ==> next == Err::<&'static str, ProviderError>(error),
{
    if missing_result(&error) {
        Ok(legacy)
    } else {
        Err(error)
    }
}

// ---------------------------------------------------------------------------
// Metadata values
// ---------------------------------------------------------------------------

/// How a text reads as a floating-point number (`str::parse::<f64>`): not a
/// number, a number below zero (or NaN), or a number of at least zero, kept
/// here as its whole part.
#[derive(Clone, Copy, Debug, PartialEq, Eq, Structural)]
pub enum FloatReading {
    Invalid,
    BelowZero,
    AtLeastZero(u64),
}

/// A JSON number: a non-negative integer, a negative integer, or a number
/// with a fraction, kept as its JSON text and (when it is at least zero) its
/// whole part.
#[derive(Clone, Debug, PartialEq, Eq)]
pub enum JsonNumber {
    Unsigned(u64),
    Negative(i64),
    Fraction { text: String, whole: Option<u64> },
}

/// A JSON value where the server may send a scalar: absent or `null`, a
/// boolean, a number, a string (with how it reads as a float), or an array
/// or object (kept as its JSON text).
#[derive(Clone, Debug, PartialEq, Eq)]
pub enum JsonScalar {
    Null,
    Bool(bool),
    Number(JsonNumber),
    Text { text: String, as_float: FloatReading },
    Structured(String),
}

/// The JSON text of a number.
pub open spec fn number_text(n: JsonNumber) -> Seq<char> {
    match n {
        JsonNumber::Unsigned(u) => decimal(u as nat),
        JsonNumber::Negative(i) => signed_decimal(i as int),
        JsonNumber::Fraction { text, .. } => text@,
    }
}

/// The JSON text of a value that is not a string.
pub open spec fn scalar_text(v: JsonScalar) -> Seq<char> {
    match v {
        JsonScalar::Null => "null"@,
        JsonScalar::Bool(b) => if b {
            "true"@
        } else {
            "false"@
        },
        JsonScalar::Number(n) => number_text(n),
        JsonScalar::Text { text, .. } => text@,
        JsonScalar::Structured(text) => text@,
    }
}

fn number_string(n: &JsonNumber) -> (text: String)
    ensures
        text@ == number_text(*n),
{
    match n {
        JsonNumber::Unsigned(u) => decimal_text(*u),
        JsonNumber::Negative(i) => signed_decimal_text(*i),
        JsonNumber::Fraction { text, .. } => text.clone(),
    }
}

fn scalar_string(v: &JsonScalar) -> (text: String)
    ensures
        text@ == scalar_text(*v),
{
    match v {
        JsonScalar::Null => String::from_str("null"),
        JsonScalar::Bool(b) => if *b {
            String::from_str("true")
        } else {
            String::from_str("false")
        },
        JsonScalar::Number(n) => number_string(n),
        JsonScalar::Text { text, .. } => text.clone(),
        JsonScalar::Structured(text) => text.clone(),
    }
}

/// An identifier that the server may send as a string or a number: a
/// number becomes its JSON text; anything else is refused.
pub fn string_from_scalar(value: JsonScalar) -> (read: Result<String, String>)
    ensures
        match value {
            JsonScalar::Text { text, .. } => read == Ok::<String, String>(text),
            JsonScalar::Number(n) => read matches Ok(s) && s@ == number_text(n),
            _ => read matches Err(m) && m@ == "expected string or number, got "@ + scalar_text(
                value,
            ),
        },
{
    match value {
        JsonScalar::Text { text, .. } => Ok(text),
        JsonScalar::Number(n) => Ok(number_string(&n)),
        _ => Err(join_text("expected string or number, got ", scalar_string(&value).as_str())),
    }
}

/// An optional identifier: absent or `null` gives `None`, a string or a
/// number gives its text; anything else is refused.
pub fn optional_string_from_scalar(value: JsonScalar) -> (read: Result<Option<String>, String>)
    ensures
        match value {
            JsonScalar::Null => read == Ok::<Option<String>, String>(None),
            JsonScalar::Text { text, .. } => read == Ok::<Option<String>, String>(Some(text)),
            JsonScalar::Number(n) => read matches Ok(Some(s)) && s@ == number_text(n),
            _ => read matches Err(m) && m@ == "expected string, number, or null, got "@
                + scalar_text(value),
        },
{
    match value {
        JsonScalar::Null => Ok(None),
        JsonScalar::Text { text, .. } => Ok(Some(text)),
        JsonScalar::Number(n) => Ok(Some(number_string(&n))),
        _ => Err(join_text("expected string, number, or null, got ", scalar_string(&value).as_str())),
    }
}

/// How a numeric metadata value (a duration, a count, a year) reads.
pub open spec fn metadata_u64(value: JsonScalar) -> Result<Option<u64>, Seq<char>> {
    match value {
        JsonScalar::Null => Ok(None),
        JsonScalar::Number(JsonNumber::Unsigned(u)) => Ok(Some(u)),
        JsonScalar::Number(JsonNumber::Negative(_)) => Ok(None),
        JsonScalar::Number(JsonNumber::Fraction { whole, .. }) => match whole {
            Some(w) => Ok(Some(w)),
            None => Err("expected numeric metadata"@),
        },
        JsonScalar::Text { text, as_float } => if text@.len() == 0 {
            Ok(None)
        } else {
            match parsed_i64(text@) {
                Some(i) => if i >= 0 {
                    Ok(Some(i as u64))
                } else {
                    Ok(None)
                },
                None => match as_float {
                    FloatReading::AtLeastZero(w) => Ok(Some(w)),
                    FloatReading::BelowZero => Ok(None),
                    FloatReading::Invalid => Err("expected numeric metadata, got "@ + text@),
                },
            }
        },
        _ => Err("expected integer, string, or null, got "@ + scalar_text(value)),
    }
}

/// Reads a numeric metadata value. Servers send such values as numbers or
/// as strings; negative values and empty strings mean that the value is
/// unknown, and a number with a fraction counts by its whole part.
pub fn optional_u64_from_scalar(value: JsonScalar) -> (read: Result<Option<u64>, String>)
    ensures
        match (read, metadata_u64(value)) {
            (Ok(a), Ok(b)) => a == b,
            (Err(m), Err(t)) => m@ == t,
            _ => false,
        },
{
    match value {
        JsonScalar::Null => Ok(None),
        JsonScalar::Number(JsonNumber::Unsigned(u)) => Ok(Some(u)),
        JsonScalar::Number(JsonNumber::Negative(_)) => Ok(None),
        JsonScalar::Number(JsonNumber::Fraction { whole, .. }) => match whole {
            Some(w) => Ok(Some(w)),
            None => Err(String::from_str("expected numeric metadata")),
        },
        JsonScalar::Text { text, as_float } => {
            if text.as_str().is_empty() {
                return Ok(None);
            }
            match parse_i64(text.as_str()) {
                Some(i) => if i >= 0 {
                    Ok(Some(i as u64))
                } else {
                    Ok(None)
                },
                None => match as_float {
                    FloatReading::AtLeastZero(w) => Ok(Some(w)),
                    FloatReading::BelowZero => Ok(None),
                    FloatReading::Invalid => Err(
                        join_text("expected numeric metadata, got ", text.as_str()),
                    ),
                },
            }
        },
        _ => Err(join_text("expected integer, string, or null, got ", scalar_string(&value).as_str())),
    }
}

/// Reads a numeric metadata value that must fit in 32 bits; a larger value
/// is refused.
pub fn optional_u32_from_scalar(value: JsonScalar) -> (read: Result<Option<u32>, String>)
    ensures
        match (read, metadata_u64(value)) {
            (Ok(None), Ok(None)) => true,
            (Ok(Some(a)), Ok(Some(b))) => a == b,
            (Err(m), Ok(Some(b))) => b > u32::MAX && m@
                == "out of range integral type conversion attempted"@,
            (Err(m), Err(t)) => m@ == t,
            _ => false,
        },
{
    match optional_u64_from_scalar(value) {
        Ok(None) => Ok(None),
        Ok(Some(w)) => if w <= 4294967295u64 {
            Ok(Some(w as u32))
        } else {
            Err(String::from_str("out of range integral type conversion attempted"))
        },
        Err(m) => Err(m),
    }
}

// ---------------------------------------------------------------------------
// Albums, tracks and directories
// ---------------------------------------------------------------------------

/// A track or directory entry as a Subsonic server lists it.
#[derive(Clone, Debug, PartialEq, Eq)]
pub struct SubsonicTrack {
    pub id: String,
    pub title: String,
    pub artist: Option<String>,
    pub artist_id: Option<String>,
    pub album: Option<String>,
    pub album_id: Option<String>,
    pub cover_art: Option<String>,
    pub duration: Option<u64>,
    pub track: Option<u32>,
    pub suffix: Option<String>,
    pub is_dir: Option<bool>,
}

/// An album as a Subsonic server lists it, with its songs when the album
/// itself was asked for.
#[derive(Clone, Debug, PartialEq, Eq)]
pub struct SubsonicAlbum {
    pub id: String,
    pub name: String,
    pub artist: Option<String>,
    pub artist_id: Option<String>,
    pub cover_art: Option<String>,
    pub song_count: Option<u32>,
    pub duration: Option<u64>,
    pub year: Option<u32>,
    pub song: Vec<SubsonicTrack>,
}

/// A folder of the server's file tree: the older way of browsing an album.
#[derive(Clone, Debug, PartialEq, Eq)]
pub struct MusicDirectory {
    pub id: String,
    pub name: String,
    pub child: Vec<SubsonicTrack>,
}

/// The provider-neutral track of a Subsonic track.
pub open spec fn track_of(t: SubsonicTrack) -> Track {
    Track {
        id: t.id,
        title: t.title,
        artist: t.artist,
        artist_id: t.artist_id,
        album: t.album,
        album_id: t.album_id,
        cover_art: t.cover_art,
        duration_seconds: t.duration,
        track_number: t.track,
        suffix: t.suffix,
    }
}

/// The provider-neutral album of a Subsonic album (its songs aside).
pub open spec fn album_of(a: SubsonicAlbum) -> Album {
    Album {
        id: a.id,
        name: a.name,
        artist: a.artist,
        artist_id: a.artist_id,
        cover_art: a.cover_art,
        song_count: a.song_count,
        duration_seconds: a.duration,
        year: a.year,
    }
}

impl From<SubsonicTrack> for Track {
    fn from(t: SubsonicTrack) -> (track: Track) {
        Track {
            id: t.id,
            title: t.title,
            artist: t.artist,
            artist_id: t.artist_id,
            album: t.album,
            album_id: t.album_id,
            cover_art: t.cover_art,
            duration_seconds: t.duration,
            track_number: t.track,
            suffix: t.suffix,
        }
    }
}

impl vstd::std_specs::convert::FromSpecImpl<SubsonicTrack> for Track {
    open spec fn obeys_from_spec() -> bool {
        true
    }

    open spec fn from_spec(t: SubsonicTrack) -> Track {
        track_of(t)
    }
}

impl From<SubsonicAlbum> for Album {
    fn from(a: SubsonicAlbum) -> (album: Album) {
        Album {
            id: a.id,
            name: a.name,
            artist: a.artist,
            artist_id: a.artist_id,
            cover_art: a.cover_art,
            song_count: a.song_count,
            duration_seconds: a.duration,
            year: a.year,
        }
    }
}

impl vstd::std_specs::convert::FromSpecImpl<SubsonicAlbum> for Album {
    open spec fn obeys_from_spec() -> bool {
        true
    }

    open spec fn from_spec(a: SubsonicAlbum) -> Album {
        album_of(a)
    }
}

/// The provider-neutral tracks of a list of Subsonic tracks, in order.
pub open spec fn tracks_of(tracks: Seq<SubsonicTrack>) -> Seq<Track> {
    tracks.map_values(|t: SubsonicTrack| track_of(t))
}

/// Converts Subsonic tracks, keeping their order.
pub fn convert_tracks(tracks: Vec<SubsonicTrack>) -> (converted: Vec<Track>)
    ensures
        converted@ == tracks_of(tracks@),
        converted@.len() == tracks@.len(),
        forall|i: int|
            0 <= i < tracks@.len() ==> (#[trigger] converted@[i]).id == tracks@[i].id
                && converted@[i].title == tracks@[i].title && converted@[i].artist
                == tracks@[i].artist && converted@[i].artist_id == tracks@[i].artist_id
                && converted@[i].album == tracks@[i].album && converted@[i].album_id
                == tracks@[i].album_id && converted@[i].cover_art == tracks@[i].cover_art
                && converted@[i].duration_seconds == tracks@[i].duration
                && converted@[i].track_number == tracks@[i].track && converted@[i].suffix
                == tracks@[i].suffix,
{
    let ghost original = tracks@;
    let mut rest = tracks;
    let mut converted: Vec<Track> = Vec::new();
    let total = rest.len();
    let mut taken: usize = 0;
    while rest.len() > 0
        invariant
            total == original.len(),
            taken + rest@.len() == total,
            rest@ == original.skip(taken as int),
            converted@ == tracks_of(original.take(taken as int)),
        decreases rest@.len(),
    {
        let t = rest.remove(0);
        proof {
            assert(original.take(taken + 1) =~= original.take(taken as int).push(t));
            assert(original.skip(taken + 1) =~= original.skip(taken as int).remove(0));
        }
        converted.push(Track::from(t));
        proof {
            assert(converted@ =~= tracks_of(original.take(taken + 1)));
        }
        taken = taken + 1;
    }
    assert(original.take(total as int) =~= original);
    converted
}

/// Converting a Subsonic album keeps what it says of the album: its
/// identifier, name, artist, artist identifier, cover art, song count,
/// duration and year.
pub proof fn album_conversion_keeps_fields(a: SubsonicAlbum)
    ensures
        album_of(a).id == a.id,
        album_of(a).name == a.name,
        album_of(a).artist == a.artist,
        album_of(a).artist_id == a.artist_id,
        album_of(a).cover_art == a.cover_art,
        album_of(a).song_count == a.song_count,
        album_of(a).duration_seconds == a.duration,
        album_of(a).year == a.year,
{
}

/// Converting a Subsonic track keeps what it says of the track: its
/// identifier, title, artist, artist identifier, album, album identifier,
/// cover art, duration, track number and suffix.
pub proof fn track_conversion_keeps_fields(t: SubsonicTrack)
    ensures
        track_of(t).id == t.id,
        track_of(t).title == t.title,
        track_of(t).artist == t.artist,
        track_of(t).artist_id == t.artist_id,
        track_of(t).album == t.album,
        track_of(t).album_id == t.album_id,
        track_of(t).cover_art == t.cover_art,
        track_of(t).duration_seconds == t.duration,
        track_of(t).track_number == t.track,
        track_of(t).suffix == t.suffix,
{
}

/// Converts Subsonic albums, keeping their order.
pub fn convert_albums(albums: Vec<SubsonicAlbum>) -> (converted: Vec<Album>)
    ensures
        converted@ == albums@.map_values(|a: SubsonicAlbum| album_of(a)),
        converted@.len() == albums@.len(),
        forall|i: int|
            0 <= i < albums@.len() ==> (#[trigger] converted@[i]).id == albums@[i].id
                && converted@[i].name == albums@[i].name && converted@[i].artist
                == albums@[i].artist && converted@[i].artist_id == albums@[i].artist_id
                && converted@[i].cover_art == albums@[i].cover_art && converted@[i].song_count
                == albums@[i].song_count && converted@[i].duration_seconds == albums@[i].duration
                && converted@[i].year == albums@[i].year,
{
    let ghost original = albums@;
    let mut rest = albums;
    let mut converted: Vec<Album> = Vec::new();
    let total = rest.len();
    let mut taken: usize = 0;
    while rest.len() > 0
        invariant
            total == original.len(),
            taken + rest@.len() == total,
            rest@ == original.skip(taken as int),
            converted@ == original.take(taken as int).map_values(|a: SubsonicAlbum| album_of(a)),
        decreases rest@.len(),
    {
        let a = rest.remove(0);
        proof {
            assert(original.take(taken + 1) =~= original.take(taken as int).push(a));
            assert(original.skip(taken + 1) =~= original.skip(taken as int).remove(0));
        }
        converted.push(Album::from(a));
        proof {
            assert(converted@ =~= original.take(taken + 1).map_values(
                |a: SubsonicAlbum| album_of(a),
            ));
        }
        taken = taken + 1;
    }
    assert(original.take(total as int) =~= original);
    converted
}

/// An album with its songs, as the modern (ID3 based) album method gives
/// it.
pub fn album_detail(album: SubsonicAlbum) -> (detail: AlbumDetail)
    ensures
        detail.album == album_of(album),
        detail.tracks@ == tracks_of(album.song@),
        detail.album.id == album.id,
        detail.album.name == album.name,
        detail.album.artist == album.artist,
        detail.album.artist_id == album.artist_id,
        detail.album.cover_art == album.cover_art,
        detail.album.song_count == album.song_count,
        detail.album.duration_seconds == album.duration,
        detail.album.year == album.year,
        detail.tracks@.len() == album.song@.len(),
{
    let SubsonicAlbum {
        id,
        name,
        artist,
        artist_id,
        cover_art,
        song_count,
        duration,
        year,
        song,
    } = album;
    AlbumDetail {
        album: Album {
            id,
            name,
            artist,
            artist_id,
            cover_art,
            song_count,
            duration_seconds: duration,
            year,
        },
        tracks: convert_tracks(song),
    }
}

/// The entries of a directory that are files (not sub-directories), as
/// tracks, in order.
pub open spec fn file_tracks(children: Seq<SubsonicTrack>) -> Seq<Track>
    decreases children.len(),
{
    if children.len() == 0 {
        Seq::empty()
    } else {
        let before = file_tracks(children.drop_last());
        if children.last().is_dir == Some(true) {
            before
        } else {
            before.push(track_of(children.last()))
        }
    }
}

/// The sum of the known durations of some tracks.
pub open spec fn known_duration(tracks: Seq<Track>) -> nat
    decreases tracks.len(),
{
    if tracks.len() == 0 {
        0
    } else {
        known_duration(tracks.drop_last()) + match tracks.last().duration_seconds {
            Some(d) => d as nat,
            None => 0,
        }
    }
}

proof fn lemma_known_duration_prefix(tracks: Seq<Track>, i: int)
    requires
        0 <= i <= tracks.len(),
    ensures
        known_duration(tracks.take(i)) <= known_duration(tracks),
    decreases tracks.len() - i,
{
    if i < tracks.len() {
        lemma_known_duration_prefix(tracks, i + 1);
        assert(tracks.take(i + 1).drop_last() =~= tracks.take(i));
    } else {
        assert(tracks.take(i) =~= tracks);
    }
}

/// Whether the known durations of a directory's files add up to at most
/// `u64::MAX`, as [`directory_detail`] needs.
pub fn directory_durations_fit(directory: &MusicDirectory) -> (fits: bool)
    ensures
        fits == (known_duration(file_tracks(directory.child@)) <= u64::MAX),
{
    let ghost children = directory.child@;
    let mut total: u64 = 0;
    let mut i: usize = 0;
    while i < directory.child.len()
        invariant
            i <= children.len(),
            children == directory.child@,
            total == known_duration(file_tracks(children.take(i as int))),
        decreases children.len() - i,
    {
        let child = &directory.child[i];
        proof {
            assert(children.take(i + 1).drop_last() =~= children.take(i as int));
            assert(children.take(i + 1).last() == *child);
        }
        let is_dir = match child.is_dir {
            Some(b) => b,
            None => false,
        };
        if !is_dir {
            let d = match child.duration {
                Some(d) => d,
                None => 0,
            };
            proof {
                assert(file_tracks(children.take(i + 1)) == file_tracks(children.take(i as int)).push(
                    track_of(*child),
                ));
                let ts = file_tracks(children.take(i + 1));
                assert(ts.drop_last() =~= file_tracks(children.take(i as int)));
            }
            if total > u64::MAX - d {
                proof {
                    lemma_file_tracks_grow(children, i + 1);
                }
                return false;
            }
            total = total + d;
        }
        i = i + 1;
    }
    assert(children.take(children.len() as int) =~= children);
    true
}

proof fn lemma_file_tracks_grow(children: Seq<SubsonicTrack>, i: int)
    requires
        0 <= i <= children.len(),
    ensures
        known_duration(file_tracks(children.take(i))) <= known_duration(file_tracks(children)),
    decreases children.len() - i,
{
    if i < children.len() {
        lemma_file_tracks_grow(children, i + 1);
        assert(children.take(i + 1).drop_last() =~= children.take(i));
        let before = file_tracks(children.take(i));
        if children[i].is_dir != Some(true) {
            assert(file_tracks(children.take(i + 1)).drop_last() =~= before);
        }
    } else {
        assert(children.take(i) =~= children);
    }
}

/// An album read from a directory of the server's file tree: the directory's
/// files become the tracks; the album takes its artist, artist identifier
/// and cover from the first track, counts the tracks and adds up their
/// known durations, which must add up to at most `u64::MAX`.
pub fn directory_detail(directory: MusicDirectory) -> (detail: AlbumDetail)
    requires
        known_duration(file_tracks(directory.child@)) <= u64::MAX,
    ensures
        detail.tracks@ == file_tracks(directory.child@),
        detail.album.id == directory.id,
        detail.album.name == directory.name,
        detail.album.artist == (if detail.tracks@.len() > 0 {
            detail.tracks@[0].artist
        } else {
            None
        }),
        detail.album.artist_id == (if detail.tracks@.len() > 0 {
            detail.tracks@[0].artist_id
        } else {
            None
        }),
        detail.album.cover_art == (if detail.tracks@.len() > 0 {
            detail.tracks@[0].cover_art
        } else {
            None
        }),
        detail.album.song_count == Some(detail.tracks@.len() as u32),
        detail.album.duration_seconds == Some(known_duration(detail.tracks@) as u64),
        detail.album.year == None::<u32>,
{
    let MusicDirectory { id, name, child } = directory;
    let ghost original = child@;
    let mut rest = child;
    let mut tracks: Vec<Track> = Vec::new();
    let total = rest.len();
    let mut taken: usize = 0;
    while rest.len() > 0
        invariant
            total == original.len(),
            taken + rest@.len() == total,
            rest@ == original.skip(taken as int),
            tracks@ == file_tracks(original.take(taken as int)),
        decreases rest@.len(),
    {
        let t = rest.remove(0);
        proof {
            assert(original.take(taken + 1).drop_last() =~= original.take(taken as int));
            assert(original.take(taken + 1).last() == t);
            assert(original.skip(taken + 1) =~= original.skip(taken as int).remove(0));
        }
        let is_dir = match t.is_dir {
            Some(b) => b,
            None => false,
        };
        if !is_dir {
            tracks.push(Track::from(t));
        }
        taken = taken + 1;
    }
    assert(original.take(total as int) =~= original);
    let mut duration: u64 = 0;
    let mut i: usize = 0;
    while i < tracks.len()
        invariant
            i <= tracks@.len(),
            known_duration(tracks@) <= u64::MAX,
            duration == known_duration(tracks@.take(i as int)),
        decreases tracks@.len() - i,
    {
        proof {
            assert(tracks@.take(i + 1).drop_last() =~= tracks@.take(i as int));
            lemma_known_duration_prefix(tracks@, i + 1);
        }
        match tracks[i].duration_seconds {
            Some(d) => {
                duration = duration + d;
            },
            None => {},
        }
        i = i + 1;
    }
    assert(tracks@.take(tracks@.len() as int) =~= tracks@);
    let (artist, artist_id, cover_art) = if tracks.len() > 0 {
        (
            copy_text(&tracks[0].artist),
            copy_text(&tracks[0].artist_id),
            copy_text(&tracks[0].cover_art),
        )
    } else {
        (None, None, None)
    };
    let count = tracks.len() as u32;
    AlbumDetail {
        album: Album {
            id,
            name,
            artist,
            artist_id,
            cover_art,
            song_count: Some(count),
            duration_seconds: Some(duration),
            year: None,
        },
        tracks,
    }
}

/// A copy of an optional text.
fn copy_text(text: &Option<String>) -> (copy: Option<String>)
    ensures
        copy == *text,
{
    match text {
        Some(t) => Some(t.clone()),
        None => None,
    }
}

} // verus!
