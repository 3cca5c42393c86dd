use resonance::model::{MediaId, MediaKind, ProviderError, ProviderId};

#[test]
fn media_ids_are_qualified_by_provider_and_kind() {
    let first = MediaId::new(ProviderId::new("one"), MediaKind::Track, "42");
    let second = MediaId::new(ProviderId::new("two"), MediaKind::Track, "42");
    let album = MediaId::new(ProviderId::new("one"), MediaKind::Album, "42");
    assert_ne!(first, second);
    assert_ne!(first, album);
}

#[test]
fn media_id_keeps_identity_parts_separate() {
    let id = MediaId::new(ProviderId::new("provider/a"), MediaKind::Track, "song/42");
    assert_eq!(id.provider_id.as_str(), "provider/a");
    assert_eq!(id.kind, MediaKind::Track);
    assert_eq!(id.item_id, "song/42");
    let same = MediaId::new(ProviderId::new("provider/a"), MediaKind::Track, "song/42");
    assert_eq!(id, same);
}

#[test]
fn provider_id_displays_its_text() {
    let id = ProviderId::new("environment");
    assert_eq!(id.to_text(), "environment");
    assert_eq!(id.as_str(), "environment");
}

#[test]
fn media_kinds_rank_in_declaration_order() {
    assert_eq!(MediaKind::Artist.rank(), 0);
    assert_eq!(MediaKind::Album.rank(), 1);
    assert_eq!(MediaKind::Track.rank(), 2);
    assert_eq!(MediaKind::Artwork.rank(), 3);
    assert_eq!(MediaKind::Playlist.rank(), 4);
}

#[test]
fn provider_errors_read_as_their_messages() {
    assert_eq!(ProviderError::Unauthorized.message(), "authentication failed");
    assert_eq!(ProviderError::NotFound.message(), "resource not found");
    assert_eq!(
        ProviderError::Remote { code: 70, message: "missing".into() }.message(),
        "provider returned error 70: missing"
    );
    assert_eq!(
        ProviderError::Remote { code: -3, message: "odd".into() }.message(),
        "provider returned error -3: odd"
    );
    assert_eq!(
        ProviderError::InvalidResponse("bad".into()).message(),
        "provider response was invalid: bad"
    );
    assert_eq!(
        ProviderError::Unavailable("down".into()).message(),
        "provider is unavailable: down"
    );
    assert_eq!(
        ProviderError::Unsupported("favorites".into()).message(),
        "provider does not support favorites"
    );
}
