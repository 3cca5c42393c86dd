use resonance::model::{ProviderError, Track};
use resonance::response::{
    album_detail, check_http_status, check_metadata, convert_albums, directory_detail,
    directory_durations_fit, invalid_metadata, invalid_schema, missing_envelope, missing_result,
    optional_string_from_scalar, optional_u32_from_scalar, optional_u64_from_scalar,
    provider_status, string_from_scalar, unparsable_body, unavailable, FloatReading, JsonNumber,
    JsonScalar, MusicDirectory, ResponseInfo, ResponseMetadata, ServerError, SubsonicAlbum,
    SubsonicTrack,
};

fn text(value: &str, as_float: FloatReading) -> JsonScalar {
    JsonScalar::Text { text: value.into(), as_float }
}

fn child(id: &str, title: &str, duration: Option<u64>, is_dir: Option<bool>) -> SubsonicTrack {
    SubsonicTrack {
        id: id.into(),
        title: title.into(),
        artist: Some("Artist".into()),
        artist_id: Some("ar-1".into()),
        album: None,
        album_id: None,
        cover_art: Some("cover-1".into()),
        duration,
        track: None,
        suffix: None,
        is_dir,
    }
}

#[test]
fn envelope_values_read_as_servers_send_them() {
    // {"id":123,"name":"Signals","songCount":"4","year":-1,"duration":"-1"}
    assert_eq!(
        string_from_scalar(JsonScalar::Number(JsonNumber::Unsigned(123))),
        Ok("123".to_string())
    );
    assert_eq!(
        optional_u32_from_scalar(text("4", FloatReading::AtLeastZero(4))),
        Ok(Some(4))
    );
    assert_eq!(
        optional_u32_from_scalar(JsonScalar::Number(JsonNumber::Negative(-1))),
        Ok(None)
    );
    assert_eq!(
        optional_u64_from_scalar(text("-1", FloatReading::BelowZero)),
        Ok(None)
    );
    // {"id":456,...,"child":[{"id":789,...,"duration":"180"}]}
    assert_eq!(
        string_from_scalar(JsonScalar::Number(JsonNumber::Unsigned(456))),
        Ok("456".to_string())
    );
    assert_eq!(
        optional_u64_from_scalar(text("180", FloatReading::AtLeastZero(180))),
        Ok(Some(180))
    );
}

#[test]
fn metadata_values_read_leniently() {
    assert_eq!(optional_u64_from_scalar(JsonScalar::Null), Ok(None));
    assert_eq!(optional_u64_from_scalar(text("", FloatReading::Invalid)), Ok(None));
    assert_eq!(
        optional_u64_from_scalar(text("12.7", FloatReading::AtLeastZero(12))),
        Ok(Some(12))
    );
    assert_eq!(
        optional_u64_from_scalar(JsonScalar::Number(JsonNumber::Fraction {
            text: "3.5".into(),
            whole: Some(3)
        })),
        Ok(Some(3))
    );
    assert_eq!(
        optional_u64_from_scalar(text("soon", FloatReading::Invalid)),
        Err("expected numeric metadata, got soon".to_string())
    );
    assert_eq!(
        optional_u64_from_scalar(JsonScalar::Bool(true)),
        Err("expected integer, string, or null, got true".to_string())
    );
    assert_eq!(
        optional_u32_from_scalar(JsonScalar::Number(JsonNumber::Unsigned(5_000_000_000))),
        Err("out of range integral type conversion attempted".to_string())
    );
}

#[test]
fn identifiers_accept_strings_and_numbers() {
    assert_eq!(string_from_scalar(text("al-1", FloatReading::Invalid)), Ok("al-1".to_string()));
    assert_eq!(
        string_from_scalar(JsonScalar::Number(JsonNumber::Negative(-12))),
        Ok("-12".to_string())
    );
    assert_eq!(
        string_from_scalar(JsonScalar::Null),
        Err("expected string or number, got null".to_string())
    );
    assert_eq!(optional_string_from_scalar(JsonScalar::Null), Ok(None));
    assert_eq!(
        optional_string_from_scalar(JsonScalar::Number(JsonNumber::Unsigned(9))),
        Ok(Some("9".to_string()))
    );
    assert_eq!(
        optional_string_from_scalar(JsonScalar::Structured("[1]".into())),
        Err("expected string, number, or null, got [1]".to_string())
    );
}

fn metadata(status: &str, error: Option<ServerError>) -> ResponseMetadata {
    ResponseMetadata {
        status: status.into(),
        version: "1.16.1".into(),
        server_type: Some("navidrome".into()),
        open_subsonic: Some(true),
        error,
    }
}

#[test]
fn failed_envelopes_become_provider_errors() {
    assert_eq!(
        check_metadata(metadata("ok", None)),
        Ok(ResponseInfo {
            version: "1.16.1".into(),
            server_type: Some("navidrome".into()),
            open_subsonic: Some(true),
        })
    );
    assert_eq!(
        check_metadata(metadata(
            "failed",
            Some(ServerError { code: 40, message: "Wrong username or password".into() })
        )),
        Err(ProviderError::Unauthorized)
    );
    assert_eq!(
        check_metadata(metadata(
            "failed",
            Some(ServerError { code: 70, message: "Album not found".into() })
        )),
        Err(ProviderError::Remote { code: 70, message: "Album not found".into() })
    );
    assert_eq!(
        check_metadata(metadata("failed", None)),
        Err(ProviderError::Remote { code: 0, message: "unknown server error".into() })
    );
    assert_eq!(check_http_status(401), Err(ProviderError::Unauthorized));
    assert_eq!(check_http_status(200), Ok(()));
    assert_eq!(check_http_status(500), Ok(()));
}

#[test]
fn ping_reports_the_server() {
    let status = provider_status(ResponseInfo {
        version: "1.16.1".into(),
        server_type: None,
        open_subsonic: None,
    });
    assert_eq!(status.provider, "Subsonic");
    assert_eq!(status.server_version, "1.16.1");
    assert!(!status.open_subsonic);
    let open = provider_status(ResponseInfo {
        version: "1.16.1".into(),
        server_type: Some("gonic".into()),
        open_subsonic: Some(true),
    });
    assert_eq!(open.provider, "gonic");
    assert!(open.open_subsonic);
}

#[test]
fn request_failures_read_as_messages() {
    assert_eq!(unavailable("timeout".into()), ProviderError::Unavailable("timeout".into()));
    assert_eq!(
        unparsable_body("ping", "502", "text/html", "expected value"),
        ProviderError::InvalidResponse(
            "ping returned HTTP 502 (text/html), not valid JSON: expected value".into()
        )
    );
    let missing = missing_envelope("getAlbum");
    assert_eq!(
        missing,
        ProviderError::InvalidResponse("getAlbum response did not contain subsonic-response".into())
    );
    assert!(!missing_result(&missing));
    assert_eq!(
        invalid_metadata("ping", "missing field `status`"),
        ProviderError::InvalidResponse("ping response metadata was invalid: missing field `status`".into())
    );
    let schema = invalid_schema("getAlbum", "missing field `album`");
    assert!(missing_result(&schema));
    assert!(!missing_result(&ProviderError::NotFound));
}

#[test]
fn album_details_keep_their_songs() {
    let album = SubsonicAlbum {
        id: "al-1".into(),
        name: "Signals".into(),
        artist: Some("Rush".into()),
        artist_id: Some("ar-1".into()),
        cover_art: None,
        song_count: Some(2),
        duration: Some(500),
        year: Some(1982),
        song: vec![child("t1", "One", Some(200), None), child("t2", "Two", Some(300), None)],
    };
    let detail = album_detail(album.clone());
    assert_eq!(detail.album.id, "al-1");
    assert_eq!(detail.album.duration_seconds, Some(500));
    assert_eq!(detail.album.year, Some(1982));
    assert_eq!(detail.tracks.len(), 2);
    assert_eq!(detail.tracks[1].title, "Two");
    assert_eq!(detail.tracks[0].duration_seconds, Some(200));
    let albums = convert_albums(vec![album]);
    assert_eq!(albums[0].name, "Signals");
    assert_eq!(albums[0].song_count, Some(2));
}

#[test]
fn directories_become_albums_of_their_files() {
    let directory = MusicDirectory {
        id: "456".into(),
        name: "Bandcamp Album".into(),
        child: vec![
            child("d1", "Extras", None, Some(true)),
            child("789", "Track One", Some(180), Some(false)),
            child("790", "Track Two", None, None),
            child("791", "Track Three", Some(20), None),
        ],
    };
    assert!(directory_durations_fit(&directory));
    let detail = directory_detail(directory);
    let titles: Vec<&str> = detail.tracks.iter().map(|t: &Track| t.title.as_str()).collect();
    assert_eq!(titles, vec!["Track One", "Track Two", "Track Three"]);
    assert_eq!(detail.album.id, "456");
    assert_eq!(detail.album.name, "Bandcamp Album");
    assert_eq!(detail.album.artist.as_deref(), Some("Artist"));
    assert_eq!(detail.album.cover_art.as_deref(), Some("cover-1"));
    assert_eq!(detail.album.song_count, Some(3));
    assert_eq!(detail.album.duration_seconds, Some(200));
    assert_eq!(detail.album.year, None);

    let empty = directory_detail(MusicDirectory { id: "1".into(), name: "Empty".into(), child: vec![] });
    assert_eq!(empty.album.artist, None);
    assert_eq!(empty.album.song_count, Some(0));
    assert_eq!(empty.album.duration_seconds, Some(0));
}

#[test]
fn overflowing_durations_are_detected() {
    let directory = MusicDirectory {
        id: "1".into(),
        name: "Long".into(),
        child: vec![child("a", "A", Some(u64::MAX), None), child("b", "B", Some(1), None)],
    };
    assert!(!directory_durations_fit(&directory));
    let folders = MusicDirectory {
        id: "1".into(),
        name: "Folders".into(),
        child: vec![child("a", "A", Some(u64::MAX), None), child("b", "B", Some(1), Some(true))],
    };
    assert!(directory_durations_fit(&folders));
}
