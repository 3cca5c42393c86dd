use resonance::library::{
    aggregate_albums, aggregate_tracks, album_window, environment_registration, provider_issue,
    qualified_id, qualify_album, qualify_detail, qualify_track, search_limit, summary_for,
    timeout_issue, validate_registration, ApiError, AuthMethod, ProviderEntry, ProviderOutcome,
    ProviderRegistry, ProviderSummary, RegisterProvider,
};
use resonance::model::{
    Album, AlbumDetail, MediaKind, ProviderError, ProviderIssueKind, ProviderStatus, Track,
};
use resonance::subsonic::Credentials;

fn summary(id: &str, name: &str) -> ProviderSummary {
    ProviderSummary {
        id: id.into(),
        name: name.into(),
        url: "https://music.example.test".into(),
        username: String::new(),
        auth: "API Key".into(),
        server_type: "navidrome".into(),
        server_version: "1.16.1".into(),
        open_subsonic: true,
    }
}

fn album(id: &str, name: &str) -> Album {
    Album {
        id: id.into(),
        name: name.into(),
        artist: Some("Artist".into()),
        artist_id: Some("ar-1".into()),
        cover_art: Some("co-1".into()),
        song_count: Some(3),
        duration_seconds: Some(600),
        year: Some(2001),
    }
}

fn track(id: &str, title: &str) -> Track {
    Track {
        id: id.into(),
        title: title.into(),
        artist: None,
        artist_id: None,
        album: Some("Album".into()),
        album_id: Some("al-9".into()),
        cover_art: None,
        duration_seconds: Some(200),
        track_number: Some(1),
        suffix: Some("flac".into()),
    }
}

#[test]
fn provider_items_are_qualified_with_their_source() {
    let source = summary("p1", "Home");
    let qualified = qualify_album(&source, album("al-1", "Signals"));
    assert_eq!(qualified.id, qualified_id(&"p1".to_string(), MediaKind::Album, "al-1".into()));
    assert_eq!(qualified.artist_id.as_ref().unwrap().kind, MediaKind::Artist);
    assert_eq!(qualified.cover_art.as_ref().unwrap().kind, MediaKind::Artwork);
    assert_eq!(qualified.source_name, "Home");
    let t = qualify_track(&source, track("t1", "One"));
    assert_eq!(t.id.kind, MediaKind::Track);
    assert_eq!(t.album_id.as_ref().unwrap().kind, MediaKind::Album);
    assert_eq!(t.album_id.as_ref().unwrap().item_id, "al-9");
    assert_eq!(t.artist_id, None);
    assert_eq!(t.source_name, "Home");
    let detail = qualify_detail(
        &source,
        AlbumDetail { album: album("al-1", "Signals"), tracks: vec![track("t1", "One")] },
    );
    assert_eq!(detail.album.id.provider_id.as_str(), "p1");
    assert_eq!(detail.tracks[0].id.provider_id.as_str(), "p1");
}

#[test]
fn issues_say_which_provider_failed_and_why() {
    let source = summary("p1", "Home");
    let issue = provider_issue(&source, ProviderError::Unavailable("refused".into()));
    assert_eq!(issue.provider_id.as_str(), "p1");
    assert_eq!(issue.provider_name, "Home");
    assert_eq!(issue.kind, ProviderIssueKind::Unavailable);
    assert_eq!(issue.message, "provider is unavailable: refused");
    assert!(issue.retryable);
    let refused = provider_issue(&source, ProviderError::Unauthorized);
    assert_eq!(refused.kind, ProviderIssueKind::Unauthorized);
    assert!(!refused.retryable);
    let other = provider_issue(&source, ProviderError::NotFound);
    assert_eq!(other.kind, ProviderIssueKind::Other);
    let late = timeout_issue(&source);
    assert_eq!(late.kind, ProviderIssueKind::Timeout);
    assert!(late.retryable);
    assert_eq!(late.message, "provider query timed out");
}

#[test]
fn album_pages_default_and_clamp() {
    let window = album_window(None, None);
    assert_eq!((window.limit, window.offset, window.provider_limit), (30, 0, 30));
    let window = album_window(Some(0), Some(10));
    assert_eq!((window.limit, window.offset, window.provider_limit), (1, 10, 11));
    let window = album_window(Some(9000), Some(u32::MAX));
    assert_eq!((window.limit, window.provider_limit), (500, u32::MAX));
    assert_eq!(search_limit(None), 50);
    assert_eq!(search_limit(Some(0)), 1);
    assert_eq!(search_limit(Some(501)), 500);
    assert_eq!(search_limit(Some(75)), 75);
}

#[test]
fn successful_providers_are_shown_when_another_fails() {
    let results = vec![
        (
            summary("p2", "Second"),
            ProviderOutcome::Completed(vec![album("b", "beta"), album("a", "Alpha")]),
        ),
        (summary("p1", "First"), ProviderOutcome::Failed(ProviderError::Unauthorized)),
        (summary("p3", "Third"), ProviderOutcome::Completed(vec![album("c", "alpha")])),
        (summary("p0", "Zero"), ProviderOutcome::TimedOut),
    ];
    let response = aggregate_albums(results, album_window(Some(2), Some(0)));
    let names: Vec<&str> = response.items.iter().map(|a| a.name.as_str()).collect();
    // "Alpha" and "alpha" tie by lower-cased name; the identity decides.
    assert_eq!(names, vec!["Alpha", "alpha"]);
    assert_eq!(response.items[0].id.provider_id.as_str(), "p2");
    assert_eq!(response.items[1].id.provider_id.as_str(), "p3");
    let sources: Vec<&str> = response.issues.iter().map(|i| i.provider_id.as_str()).collect();
    assert_eq!(sources, vec!["p0", "p1"]);
    assert!(!response.complete);

    let page = aggregate_albums(
        vec![(
            summary("p2", "Second"),
            ProviderOutcome::Completed(vec![album("b", "beta"), album("a", "Alpha"), album("c", "Gamma")]),
        )],
        album_window(Some(2), Some(1)),
    );
    let names: Vec<&str> = page.items.iter().map(|a| a.name.as_str()).collect();
    assert_eq!(names, vec!["beta", "Gamma"]);
    assert!(page.complete);
    assert!(page.issues.is_empty());
}

#[test]
fn searches_are_merged_and_cut_to_the_limit() {
    let results = vec![
        (summary("p1", "One"), ProviderOutcome::Completed(vec![track("1", "Zulu"), track("2", "echo")])),
        (summary("p2", "Two"), ProviderOutcome::Completed(vec![track("3", "Delta")])),
    ];
    let response = aggregate_tracks(results, 2);
    let titles: Vec<&str> = response.items.iter().map(|t| t.title.as_str()).collect();
    assert_eq!(titles, vec!["Delta", "echo"]);
    assert!(response.complete);
    let none = aggregate_tracks(vec![], 10);
    assert!(none.items.is_empty());
    assert!(none.complete);
}

fn request(name: &str, url: &str, username: Option<&str>, auth: AuthMethod, secret: &str) -> RegisterProvider {
    RegisterProvider {
        name: name.into(),
        url: url.into(),
        username: username.map(String::from),
        auth,
        secret: secret.into(),
    }
}

fn refusal(result: Result<resonance::library::Registration, ApiError>) -> String {
    match result {
        Err(ApiError(ProviderError::InvalidResponse(message))) => message,
        other => panic!("unexpected {other:?}"),
    }
}

#[test]
fn registrations_need_a_name_url_and_secret() {
    assert_eq!(
        refusal(validate_registration(request("  ", "https://x.test", None, AuthMethod::ApiKey, "k"))),
        "name, URL, and credentials are required"
    );
    assert_eq!(
        refusal(validate_registration(request("Home", "https://x.test", None, AuthMethod::ApiKey, ""))),
        "name, URL, and credentials are required"
    );
    assert_eq!(
        refusal(validate_registration(request("Home", "https://x.test", Some(" "), AuthMethod::Password, "pw"))),
        "username is required for password authentication"
    );
    let accepted = validate_registration(request(
        " Home ",
        " https://x.test/ ",
        Some("listener"),
        AuthMethod::Password,
        "pw",
    ))
    .unwrap();
    assert_eq!(accepted.name, "Home");
    assert_eq!(accepted.url, "https://x.test/");
    assert_eq!(accepted.username, "listener");
    assert_eq!(accepted.auth, "Password");
    match accepted.credentials {
        Credentials::Password { username, password } => {
            assert_eq!(username, "listener");
            assert_eq!(password, "pw");
        }
        other => panic!("unexpected {other:?}"),
    }
    let keyed = validate_registration(request("Home", "https://x.test", None, AuthMethod::ApiKey, "k")).unwrap();
    assert_eq!(keyed.username, "");
    assert_eq!(keyed.auth, "API Key");
    assert!(matches!(keyed.credentials, Credentials::ApiKey(k) if k == "k"));
}

#[test]
fn the_environment_provider_prefers_an_api_key() {
    assert!(environment_registration(None, Some("k".into()), None, None).is_none());
    let keyed = environment_registration(
        Some("https://x.test/".into()),
        Some("k".into()),
        Some("listener".into()),
        Some("pw".into()),
    )
    .unwrap();
    assert_eq!(keyed.name, "Default server");
    assert_eq!(keyed.auth, "API Key");
    assert_eq!(keyed.username, "");
    let password =
        environment_registration(Some("https://x.test/".into()), None, Some("listener".into()), Some("pw".into()))
            .unwrap();
    assert_eq!(password.auth, "Password");
    assert_eq!(password.username, "listener");
    assert!(environment_registration(Some("https://x.test/".into()), None, Some("listener".into()), None).is_none());
}

#[test]
fn api_errors_map_to_http_statuses() {
    assert_eq!(ApiError(ProviderError::Unauthorized).status_code(), 401);
    assert_eq!(ApiError(ProviderError::NotFound).status_code(), 404);
    assert_eq!(ApiError(ProviderError::Unavailable("x".into())).status_code(), 502);
    assert_eq!(ApiError::bad_request("nope").status_code(), 400);
    assert_eq!(ApiError(ProviderError::Unsupported("x".into())).status_code(), 501);
    assert_eq!(ApiError(ProviderError::Remote { code: 1, message: "m".into() }).status_code(), 502);
    assert_eq!(ApiError::bad_request("nope").message(), "provider response was invalid: nope");
    let converted: ApiError = ProviderError::NotFound.into();
    assert_eq!(converted.status_code(), 404);
}

#[test]
fn the_registry_reads_back_what_was_written() {
    let mut registry: ProviderRegistry<u32> = ProviderRegistry::new();
    assert!(registry.entry("p1").is_none());
    registry.insert(ProviderEntry { summary: summary("p1", "beta"), client: 1 });
    registry.insert(ProviderEntry { summary: summary("p2", "Alpha"), client: 2 });
    assert_eq!(registry.client("p1"), Some(&1));
    registry.insert(ProviderEntry { summary: summary("p1", "gamma"), client: 3 });
    assert_eq!(registry.client("p1"), Some(&3));
    assert_eq!(registry.all_entries().len(), 2);
    let names: Vec<String> = registry.summaries().into_iter().map(|s| s.name).collect();
    assert_eq!(names, vec!["Alpha".to_string(), "gamma".to_string()]);
    let removed = registry.remove("p2").unwrap();
    assert_eq!(removed.client, 2);
    assert!(registry.remove("p2").is_none());
    assert!(registry.client("p2").is_none());
    assert_eq!(registry.client("p1"), Some(&3));
}

#[test]
fn summaries_carry_the_ping_answer() {
    let s = summary_for(
        "p1".into(),
        "Home".into(),
        "https://x.test".into(),
        "listener".into(),
        "Password".into(),
        ProviderStatus { server_version: "1.16.1".into(), provider: "gonic".into(), open_subsonic: false },
    );
    assert_eq!(s.server_type, "gonic");
    assert_eq!(s.server_version, "1.16.1");
    assert!(!s.open_subsonic);
    assert_eq!(s.duplicate(), s);
}

#[test]
fn an_aborted_provider_task_leaves_the_answer_incomplete() {
    let results = vec![
        (summary("p1", "One"), ProviderOutcome::Completed(vec![album("a", "Alpha")])),
        (summary("p2", "Two"), ProviderOutcome::Aborted),
    ];
    let response = aggregate_albums(results, album_window(None, None));
    assert_eq!(response.items.len(), 1);
    assert!(response.issues.is_empty());
    assert!(!response.complete);
    let tracks = aggregate_tracks(
        vec![(summary("p2", "Two"), ProviderOutcome::<Vec<Track>>::Aborted)],
        10,
    );
    assert!(tracks.items.is_empty());
    assert!(!tracks.complete);
}
