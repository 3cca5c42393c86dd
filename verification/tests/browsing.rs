use resonance::browse::{
    clock_text, format_duration, page_count, page_window, LibraryLoad, RequestGenerations, ALBUMS_PER_PAGE, LIBRARY_PAGE_SIZE,
};
use resonance::catalog::{
    filter_needle, same_media, search_term, visible_albums, visible_artists, visible_playlists, visible_tracks,
    AlbumGrid, AlbumSort, ArtistSort, FavoriteCollection, FavoriteItem, LibraryArtist,
    LibraryPlaylist, PlaylistsScreen,
};
use resonance::model::{
    AggregateResponse, LibraryAlbum, LibraryTrack, MediaId, MediaKind, ProviderId,
    ProviderIssue, ProviderIssueKind,
};

fn id(provider: &str, kind: MediaKind, item: &str) -> MediaId {
    MediaId::new(ProviderId::new(provider), kind, item)
}

fn album(provider: &str, item: &str, name: &str, artist: Option<&str>, year: Option<u32>, source: &str) -> LibraryAlbum {
    LibraryAlbum {
        id: id(provider, MediaKind::Album, item),
        name: name.into(),
        artist: artist.map(String::from),
        artist_id: None,
        cover_art: None,
        song_count: None,
        duration_seconds: None,
        year,
        source_name: source.into(),
    }
}

fn artist(provider: &str, item: &str, name: &str, albums: Option<u32>) -> LibraryArtist {
    LibraryArtist {
        id: id(provider, MediaKind::Artist, item),
        name: name.into(),
        album_count: albums,
        cover_art: None,
        source_name: "Home".into(),
    }
}

fn track(provider: &str, item: &str, title: &str) -> LibraryTrack {
    LibraryTrack {
        id: id(provider, MediaKind::Track, item),
        title: title.into(),
        artist: None,
        artist_id: None,
        album: None,
        album_id: None,
        cover_art: None,
        duration_seconds: Some(61),
        track_number: None,
        suffix: None,
        source_name: "Home".into(),
    }
}

fn issue(name: &str, message: &str) -> ProviderIssue {
    ProviderIssue {
        provider_id: ProviderId::new(name),
        provider_name: name.into(),
        kind: ProviderIssueKind::Unavailable,
        message: message.into(),
        retryable: true,
    }
}

fn names(albums: &[LibraryAlbum]) -> Vec<&str> {
    albums.iter().map(|a| a.name.as_str()).collect()
}

#[test]
fn album_page_count_handles_empty_and_partial_pages() {
    assert_eq!(page_count(0, 24), 1);
    assert_eq!(page_count(24, 24), 1);
    assert_eq!(page_count(25, 24), 2);
    assert_eq!(page_count(81, 24), 4);
    assert_eq!(page_count(usize::MAX, 1), usize::MAX);
    assert_eq!(ALBUMS_PER_PAGE, 24);
}

#[test]
fn durations_show_minutes_and_seconds() {
    assert_eq!(format_duration(Some(0)), "0:00");
    assert_eq!(format_duration(Some(61)), "1:01");
    assert_eq!(format_duration(Some(600)), "10:00");
    assert_eq!(format_duration(Some(3599)), "59:59");
    assert_eq!(format_duration(Some(3725)), "62:05");
    assert_eq!(format_duration(None), "—");
    assert_eq!(clock_text(59), "0:59");
}

#[test]
fn the_library_loads_page_by_page() {
    let mut load = LibraryLoad::new();
    assert_eq!(load.next_offset(), Some(0));
    let full: Vec<LibraryAlbum> = (0..LIBRARY_PAGE_SIZE)
        .map(|i| album("p1", &i.to_string(), "A", None, None, "Home"))
        .collect();
    load.accept_page(AggregateResponse {
        items: full,
        issues: vec![issue("Away", "provider is unavailable: down")],
        complete: false,
    });
    assert_eq!(load.next_offset(), Some(500));
    load.accept_page(AggregateResponse {
        items: vec![album("p1", "last", "Z", None, None, "Home")],
        issues: vec![
            issue("Away", "provider is unavailable: down"),
            issue("Other", "provider query timed out"),
        ],
        complete: false,
    });
    assert_eq!(load.next_offset(), None);
    let (albums, issues) = load.into_parts();
    assert_eq!(albums.len(), 501);
    assert_eq!(albums[500].name, "Z");
    let shown: Vec<&str> = issues.iter().map(|i| i.provider_name.as_str()).collect();
    assert_eq!(shown, vec!["Away", "Other"]);
}

#[test]
fn filters_are_trimmed_and_lower_cased() {
    assert_eq!(filter_needle("  Blue Note "), "blue note");
    assert_eq!(filter_needle("   "), "");
}

fn library() -> Vec<LibraryAlbum> {
    vec![
        album("p1", "1", "Kind of Blue", Some("Miles Davis"), Some(1959), "Home"),
        album("p2", "2", "blue train", Some("John Coltrane"), None, "Away"),
        album("p1", "3", "Giant Steps", Some("John Coltrane"), Some(1960), "Home"),
        album("p2", "4", "A Love Supreme", None, Some(1965), "Away"),
    ]
}

#[test]
fn albums_are_filtered_by_text_and_source() {
    let shown = visible_albums(library(), " BLUE ", "", AlbumSort::Title);
    assert_eq!(names(&shown), vec!["blue train", "Kind of Blue"]);
    let shown = visible_albums(library(), "coltrane", "p1", AlbumSort::Title);
    assert_eq!(names(&shown), vec!["Giant Steps"]);
    let shown = visible_albums(library(), "away", "", AlbumSort::Title);
    assert_eq!(names(&shown), vec!["A Love Supreme", "blue train"]);
    assert!(visible_albums(library(), "zzz", "", AlbumSort::Title).is_empty());
}

#[test]
fn albums_sort_by_the_chosen_order() {
    let by_title = visible_albums(library(), "", "", AlbumSort::Title);
    assert_eq!(names(&by_title), vec!["A Love Supreme", "blue train", "Giant Steps", "Kind of Blue"]);
    let by_artist = visible_albums(library(), "", "", AlbumSort::Artist);
    assert_eq!(names(&by_artist), vec!["A Love Supreme", "blue train", "Giant Steps", "Kind of Blue"]);
    let by_year = visible_albums(library(), "", "", AlbumSort::from_choice("year"));
    assert_eq!(names(&by_year), vec!["A Love Supreme", "Giant Steps", "Kind of Blue", "blue train"]);
    let by_source = visible_albums(library(), "", "", AlbumSort::from_choice("source"));
    assert_eq!(names(&by_source), vec!["A Love Supreme", "blue train", "Giant Steps", "Kind of Blue"]);
    assert_eq!(AlbumSort::from_choice("artist"), AlbumSort::Artist);
    assert_eq!(AlbumSort::from_choice("title"), AlbumSort::Title);
    assert_eq!(AlbumSort::from_choice("anything"), AlbumSort::Title);
}

#[test]
fn equal_keys_keep_their_order() {
    let albums = vec![
        album("p1", "1", "Same", None, None, "Home"),
        album("p2", "2", "same", None, None, "Away"),
        album("p1", "3", "SAME", None, None, "Home"),
    ];
    let shown = visible_albums(albums, "", "", AlbumSort::Title);
    let ids: Vec<&str> = shown.iter().map(|a| a.id.item_id.as_str()).collect();
    assert_eq!(ids, vec!["1", "2", "3"]);
}

#[test]
fn artists_sort_by_name_or_album_count() {
    let artists = vec![
        artist("p1", "1", "miles davis", Some(3)),
        artist("p1", "2", "John Coltrane", Some(12)),
        artist("p2", "3", "Alice Coltrane", None),
        artist("p1", "4", "Bill Evans", Some(12)),
    ];
    let by_name = visible_artists(artists.clone(), "", "", ArtistSort::Name);
    let shown: Vec<&str> = by_name.iter().map(|a| a.name.as_str()).collect();
    assert_eq!(shown, vec!["Alice Coltrane", "Bill Evans", "John Coltrane", "miles davis"]);
    let by_count = visible_artists(artists.clone(), "", "", ArtistSort::from_choice("albums"));
    let shown: Vec<&str> = by_count.iter().map(|a| a.name.as_str()).collect();
    assert_eq!(shown, vec!["Bill Evans", "John Coltrane", "miles davis", "Alice Coltrane"]);
    let filtered = visible_artists(artists, "coltrane", "p1", ArtistSort::Name);
    assert_eq!(filtered.len(), 1);
    assert_eq!(filtered[0].name, "John Coltrane");
    assert_eq!(ArtistSort::from_choice("name"), ArtistSort::Name);
}

#[test]
fn playlists_are_matched_by_owner_too() {
    let playlist = |item: &str, name: &str, owner: Option<&str>| LibraryPlaylist {
        id: id("p1", MediaKind::Playlist, item),
        name: name.into(),
        owner: owner.map(String::from),
        song_count: None,
        duration_seconds: None,
        cover_art: None,
        source_name: "Home".into(),
    };
    let playlists = vec![
        playlist("1", "Road trip", Some("Ana")),
        playlist("2", "focus", Some("ben")),
        playlist("3", "Evening", None),
    ];
    let all = visible_playlists(playlists.clone(), "", "");
    let shown: Vec<&str> = all.iter().map(|p| p.name.as_str()).collect();
    assert_eq!(shown, vec!["Evening", "focus", "Road trip"]);
    let by_owner = visible_playlists(playlists.clone(), "BEN", "");
    assert_eq!(by_owner.len(), 1);
    assert_eq!(by_owner[0].name, "focus");
    assert!(visible_playlists(playlists, "", "p2").is_empty());
}

#[test]
fn search_results_are_narrowed_to_a_source() {
    let tracks = vec![track("p1", "1", "One"), track("p2", "2", "Two"), track("p1", "3", "Three")];
    let shown = visible_tracks(tracks.clone(), "p1");
    let titles: Vec<&str> = shown.iter().map(|t| t.title.as_str()).collect();
    assert_eq!(titles, vec!["One", "Three"]);
    assert_eq!(visible_tracks(tracks, "").len(), 3);
}

#[test]
fn favorites_read_back_what_was_marked() {
    let mut favorites = FavoriteCollection::new();
    let liked = FavoriteItem::Track(track("p1", "1", "One"));
    assert!(!favorites.is_favorite(&liked));
    favorites.set_favorite(FavoriteItem::Track(track("p1", "1", "One")), true);
    assert!(favorites.is_favorite(&liked));
    favorites.set_favorite(FavoriteItem::Track(track("p1", "1", "One (remaster)")), true);
    assert_eq!(favorites.tracks.len(), 1);
    assert_eq!(favorites.tracks[0].title, "One (remaster)");
    let elsewhere = FavoriteItem::Track(track("p2", "1", "One"));
    assert!(!favorites.is_favorite(&elsewhere));
    favorites.set_favorite(FavoriteItem::Album(album("p1", "1", "A", None, None, "Home")), true);
    assert_eq!(favorites.albums.len(), 1);
    assert_eq!(favorites.tracks.len(), 1);
    favorites.set_favorite(FavoriteItem::Track(track("p1", "1", "One")), false);
    assert!(!favorites.is_favorite(&liked));
    assert!(favorites.tracks.is_empty());
    assert!(same_media(liked.id(), &id("p1", MediaKind::Track, "1")));
    assert!(!same_media(liked.id(), &id("p1", MediaKind::Album, "1")));
}

#[test]
fn the_artist_list_keeps_its_favorites_apart() {
    let mut favorites = FavoriteCollection::new();
    favorites.set_favorite(FavoriteItem::Artist(artist("p1", "7", "Bill Evans", None)), true);
    assert!(favorites.is_favorite(&FavoriteItem::Artist(artist("p1", "7", "Bill Evans", None))));
    assert!(!favorites.is_favorite(&FavoriteItem::Album(album("p1", "7", "X", None, None, "Home"))));
}

#[test]
fn blank_searches_are_not_sent() {
    assert_eq!(search_term("   "), None);
    assert_eq!(search_term(""), None);
    assert_eq!(search_term("  blue train "), Some("blue train".to_string()));
}

#[test]
fn releases_are_listed_newest_first() {
    let releases = resonance::catalog::artist_releases(vec![
        album("p1", "1", "Old", None, Some(1959), "Home"),
        album("p1", "2", "unknown", None, None, "Home"),
        album("p1", "3", "New", None, Some(1965), "Home"),
        album("p1", "4", "also new", None, Some(1965), "Home"),
    ]);
    assert_eq!(names(&releases), vec!["also new", "New", "Old", "unknown"]);
}

#[test]
fn only_the_latest_request_is_answered() {
    let mut generations = RequestGenerations::new();
    let first = generations.start();
    assert!(generations.is_current(first));
    let second = generations.start();
    assert!(!generations.is_current(first));
    assert!(generations.is_current(second));
    assert_ne!(first, second);
}

#[test]
fn issues_are_dropped_only_when_equal_in_every_field() {
    let mut load = LibraryLoad::new();
    let mut second = issue("Home", "provider is unavailable: down");
    second.provider_id = ProviderId::new("other-id");
    load.accept_page(AggregateResponse {
        items: vec![],
        issues: vec![issue("Home", "provider is unavailable: down"), second, issue("Home", "provider is unavailable: down")],
        complete: false,
    });
    let (_, issues) = load.into_parts();
    let ids: Vec<&str> = issues.iter().map(|i| i.provider_id.as_str()).collect();
    assert_eq!(ids, vec!["Home", "other-id"]);
}

#[test]
fn a_failed_page_empties_the_library() {
    let mut load = LibraryLoad::new();
    load.accept_page(AggregateResponse {
        items: (0..LIBRARY_PAGE_SIZE).map(|i| album("p1", &i.to_string(), "A", None, None, "Home")).collect(),
        issues: vec![issue("Away", "down")],
        complete: false,
    });
    load.fail();
    assert_eq!(load.next_offset(), None);
    let (albums, issues) = load.into_parts();
    assert!(albums.is_empty());
    assert!(issues.is_empty());
}

#[test]
fn pages_hold_twenty_four_albums() {
    assert_eq!(page_window(0, 0), (0, 0));
    assert_eq!(page_window(81, 0), (0, 24));
    assert_eq!(page_window(81, 3), (72, 81));
    assert_eq!(page_window(81, 4), (81, 81));
    assert_eq!(page_window(10, usize::MAX), (10, 10));
}

#[test]
fn the_album_grid_pages_and_resets() {
    let many: Vec<LibraryAlbum> =
        (0..30).map(|i| album("p1", &i.to_string(), &format!("Album {i:02}"), None, None, "Home")).collect();
    let mut grid = AlbumGrid::new();
    assert_eq!(grid.visible_page(many.clone()).len(), 24);
    grid.previous_page();
    assert_eq!(grid.page, 0);
    grid.next_page(30);
    assert_eq!(grid.page, 1);
    let second = grid.visible_page(many.clone());
    assert_eq!(names(&second), vec!["Album 24", "Album 25", "Album 26", "Album 27", "Album 28", "Album 29"]);
    grid.next_page(30);
    assert_eq!(grid.page, 1);
    grid.set_filter("album 2".to_string());
    assert_eq!(grid.page, 0);
    assert_eq!(grid.visible_page(many.clone()).len(), 10);
    grid.next_page(10);
    assert_eq!(grid.page, 0);
    grid.next_page(30);
    grid.set_sort(AlbumSort::Year);
    assert_eq!(grid.page, 0);
    grid.next_page(30);
    grid.set_source("p2".to_string());
    assert_eq!(grid.page, 0);
    assert!(grid.visible_page(many).is_empty());
}

#[test]
fn the_playlists_screen_ignores_stale_answers() {
    let playlist = |item: &str| LibraryPlaylist {
        id: id("p1", MediaKind::Playlist, item),
        name: item.into(),
        owner: None,
        song_count: None,
        duration_seconds: None,
        cover_art: None,
        source_name: "Home".into(),
    };
    let mut screen = PlaylistsScreen::new();
    let first = screen.providers_changed(true).unwrap();
    assert!(screen.loading);
    let second = screen.providers_changed(true).unwrap();
    screen.listing_arrived(first, Ok(AggregateResponse { items: vec![playlist("old")], issues: vec![], complete: true }));
    assert!(screen.playlists.is_empty());
    assert!(screen.loading);
    screen.listing_arrived(second, Ok(AggregateResponse { items: vec![playlist("new")], issues: vec![], complete: true }));
    assert_eq!(screen.playlists.len(), 1);
    assert!(!screen.loading);
    let third = screen.providers_changed(true).unwrap();
    screen.listing_arrived(third, Err("Cannot reach backend".into()));
    assert!(screen.playlists.is_empty());
    assert_eq!(screen.error.as_deref(), Some("Cannot reach backend"));
    assert!(screen.select(id("p1", MediaKind::Playlist, "x")));
    assert!(!screen.select(id("p1", MediaKind::Playlist, "y")));
    screen.tracks_arrived(Ok(vec![track("p1", "1", "One")]));
    assert_eq!(screen.playlist_tracks.len(), 1);
    assert!(!screen.loading);
    assert_eq!(screen.providers_changed(false), None);
    assert!(screen.playlist_tracks.is_empty());
    assert!(screen.error.is_none());
    assert!(!screen.loading);
}

#[test]
fn a_failed_favorite_change_is_rolled_back() {
    let mut favorites = FavoriteCollection::new();
    assert!(favorites.press(FavoriteItem::Track(track("p1", "1", "One")), false).is_none());
    assert!(favorites.tracks.is_empty());
    let pending = favorites.press(FavoriteItem::Track(track("p1", "1", "One")), true).unwrap();
    assert!(pending.favorite);
    assert_eq!(favorites.tracks.len(), 1);
    favorites.settle(pending, true);
    assert_eq!(favorites.tracks.len(), 1);
    let pending = favorites.press(FavoriteItem::Track(track("p1", "1", "One")), true).unwrap();
    assert!(!pending.favorite);
    assert!(favorites.tracks.is_empty());
    favorites.settle(pending, false);
    assert_eq!(favorites.tracks.len(), 1);
    assert_eq!(favorites.tracks[0].title, "One");
}
