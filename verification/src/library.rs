//! The unified library service: the registry of connected providers, the
//! qualification of provider items with provider identities, the merging of
//! every provider's answer into one ordered response, and the checks on
//! requests to register a provider.

use vstd::prelude::*;

use crate::model::{
    error_message, AggregateResponse, Album, AlbumDetail, LibraryAlbum, LibraryAlbumDetail,
    LibraryTrack, MediaId, MediaKind, ProviderError, ProviderId, ProviderIssue,
    ProviderIssueKind, ProviderStatus, Track,
};
use crate::ordering::{id_order_view, sort_by_keys, sorted_by_key, KeyView, SortKey};
use crate::subsonic::Credentials;
use crate::text::{is_blank, lowercase_of, to_lowercase, trim, trimmed, trimmed_empty_iff_blank};

verus! {

broadcast use vstd::seq_lib::group_to_multiset_ensures;

// ---------------------------------------------------------------------------
// Providers
// ---------------------------------------------------------------------------

/// What the library shows of a registered provider.
#[derive(Clone, Debug, PartialEq, Eq)]
pub struct ProviderSummary {
    pub id: String,
    pub name: String,
    pub url: String,
    pub username: String,
    pub auth: String,
    pub server_type: String,
    pub server_version: String,
    pub open_subsonic: bool,
}

impl ProviderSummary {
    /// An identical summary.
    pub fn duplicate(&self) -> (copy: Self)
        ensures
            copy == *self,
    {
        ProviderSummary {
            id: self.id.clone(),
            name: self.name.clone(),
            url: self.url.clone(),
            username: self.username.clone(),
            auth: self.auth.clone(),
            server_type: self.server_type.clone(),
            server_version: self.server_version.clone(),
            open_subsonic: self.open_subsonic,
        }
    }
}

/// The summary of a provider whose ping answered with `status`.
pub fn summary_for(
    id: String,
    name: String,
    url: String,
    username: String,
    auth: String,
    status: ProviderStatus,
) -> (summary: ProviderSummary)
    ensures
        summary == (ProviderSummary {
            id,
            name,
            url,
            username,
            auth,
            server_type: status.provider,
            server_version: status.server_version,
            open_subsonic: status.open_subsonic,
        }),
{
    ProviderSummary {
        id,
        name,
        url,
        username,
        auth,
        server_type: status.provider,
        server_version: status.server_version,
        open_subsonic: status.open_subsonic,
    }
}

// ---------------------------------------------------------------------------
// Qualified identities
// ---------------------------------------------------------------------------

/// The identity of an item of the provider registered as `provider_id`.
pub fn qualified_id(provider_id: &String, kind: MediaKind, item_id: String) -> (id: MediaId)
    ensures
        id == (MediaId { provider_id: ProviderId(*provider_id), kind, item_id }),
{
    MediaId { provider_id: ProviderId(provider_id.clone()), kind, item_id }
}

/// An optional provider identifier, qualified.
pub open spec fn qualified_option(
    provider_id: String,
    kind: MediaKind,
    item: Option<String>,
) -> Option<MediaId> {
    match item {
        Some(i) => Some(MediaId { provider_id: ProviderId(provider_id), kind, item_id: i }),
        None => None,
    }
}

fn qualify_option(provider_id: &String, kind: MediaKind, item: Option<String>) -> (id: Option<
    MediaId,
>)
    ensures
        id == qualified_option(*provider_id, kind, item),
{
    match item {
        Some(i) => Some(qualified_id(provider_id, kind, i)),
        None => None,
    }
}

/// An album of a provider as the unified library presents it.
pub open spec fn qualified_album(summary: ProviderSummary, album: Album) -> LibraryAlbum {
    LibraryAlbum {
        id: MediaId {
            provider_id: ProviderId(summary.id),
            kind: MediaKind::Album,
            item_id: album.id,
        },
        name: album.name,
        artist: album.artist,
        artist_id: qualified_option(summary.id, MediaKind::Artist, album.artist_id),
        cover_art: qualified_option(summary.id, MediaKind::Artwork, album.cover_art),
        song_count: album.song_count,
        duration_seconds: album.duration_seconds,
        year: album.year,
        source_name: summary.name,
    }
}

/// A track of a provider as the unified library presents it.
pub open spec fn qualified_track(summary: ProviderSummary, track: Track) -> LibraryTrack {
    LibraryTrack {
        id: MediaId {
            provider_id: ProviderId(summary.id),
            kind: MediaKind::Track,
            item_id: track.id,
        },
        title: track.title,
        artist: track.artist,
        artist_id: qualified_option(summary.id, MediaKind::Artist, track.artist_id),
        album: track.album,
        album_id: qualified_option(summary.id, MediaKind::Album, track.album_id),
        cover_art: qualified_option(summary.id, MediaKind::Artwork, track.cover_art),
        duration_seconds: track.duration_seconds,
        track_number: track.track_number,
        suffix: track.suffix,
        source_name: summary.name,
    }
}

/// Qualifies an album's identities with the provider's.
pub fn qualify_album(summary: &ProviderSummary, album: Album) -> (qualified: LibraryAlbum)
    ensures
        qualified == qualified_album(*summary, album),
{
    let Album { id, name, artist, artist_id, cover_art, song_count, duration_seconds, year } =
        album;
    LibraryAlbum {
        id: qualified_id(&summary.id, MediaKind::Album, id),
        name,
        artist,
        artist_id: qualify_option(&summary.id, MediaKind::Artist, artist_id),
        cover_art: qualify_option(&summary.id, MediaKind::Artwork, cover_art),
        song_count,
        duration_seconds,
        year,
        source_name: summary.name.clone(),
    }
}

/// Qualifies a track's identities with the provider's.
pub fn qualify_track(summary: &ProviderSummary, track: Track) -> (qualified: LibraryTrack)
    ensures
        qualified == qualified_track(*summary, track),
{
    let Track {
        id,
        title,
        artist,
        artist_id,
        album,
        album_id,
        cover_art,
        duration_seconds,
        track_number,
        suffix,
    } = track;
    LibraryTrack {
        id: qualified_id(&summary.id, MediaKind::Track, id),
        title,
        artist,
        artist_id: qualify_option(&summary.id, MediaKind::Artist, artist_id),
        album,
        album_id: qualify_option(&summary.id, MediaKind::Album, album_id),
        cover_art: qualify_option(&summary.id, MediaKind::Artwork, cover_art),
        duration_seconds,
        track_number,
        suffix,
        source_name: summary.name.clone(),
    }
}

/// The tracks of a provider, qualified, in order.
pub open spec fn qualified_tracks(summary: ProviderSummary, tracks: Seq<Track>) -> Seq<
    LibraryTrack,
> {
    tracks.map_values(|t: Track| qualified_track(summary, t))
}

fn qualify_tracks(summary: &ProviderSummary, tracks: Vec<Track>) -> (qualified: Vec<LibraryTrack>)
    ensures
        qualified@ == qualified_tracks(*summary, tracks@),
{
    let ghost original = tracks@;
    let mut rest = tracks;
    let mut out: Vec<LibraryTrack> = Vec::new();
    let total = rest.len();
    let mut taken: usize = 0;
    while rest.len() > 0
        invariant
            total == original.len(),
            taken + rest@.len() == total,
            rest@ == original.skip(taken as int),
            out@ == qualified_tracks(*summary, original.take(taken as int)),
        decreases rest@.len(),
    {
        let t = rest.remove(0);
        proof {
            assert(original.take(taken + 1) =~= original.take(taken as int).push(t));
            assert(original.skip(taken + 1) =~= original.skip(taken as int).remove(0));
        }
        out.push(qualify_track(summary, t));
        proof {
            assert(out@ =~= qualified_tracks(*summary, original.take(taken + 1)));
        }
        taken = taken + 1;
    }
    assert(original.take(total as int) =~= original);
    out
}

/// An album with its tracks, qualified with the provider's identity.
pub fn qualify_detail(summary: &ProviderSummary, detail: AlbumDetail) -> (qualified:
    LibraryAlbumDetail)
    ensures
        qualified.album == qualified_album(*summary, detail.album),
        qualified.tracks@ == qualified_tracks(*summary, detail.tracks@),
{
    let AlbumDetail { album, tracks } = detail;
    LibraryAlbumDetail {
        album: qualify_album(summary, album),
        tracks: qualify_tracks(summary, tracks),
    }
}

// ---------------------------------------------------------------------------
// Issues
// ---------------------------------------------------------------------------

/// An issue by its parts: provider identity, provider name, kind, message,
/// whether retrying may help.
pub type IssueView = (Seq<char>, Seq<char>, ProviderIssueKind, Seq<char>, bool);

/// The parts of an issue.
pub open spec fn issue_view(issue: ProviderIssue) -> IssueView {
    (issue.provider_id.0@, issue.provider_name@, issue.kind, issue.message@, issue.retryable)
}

/// The kind of issue an error is reported as.
pub open spec fn issue_kind(error: ProviderError) -> ProviderIssueKind {
    match error {
        ProviderError::Unauthorized => ProviderIssueKind::Unauthorized,
        ProviderError::Unavailable(_) => ProviderIssueKind::Unavailable,
        ProviderError::InvalidResponse(_) => ProviderIssueKind::InvalidResponse,
        ProviderError::Unsupported(_) => ProviderIssueKind::Unsupported,
        _ => ProviderIssueKind::Other,
    }
}

/// The issue reported for a provider whose query failed: only an
/// unavailable provider is worth retrying.
pub open spec fn failure_issue(summary: ProviderSummary, error: ProviderError) -> IssueView {
    (
        summary.id@,
        summary.name@,
        issue_kind(error),
        error_message(error),
        error is Unavailable,
    )
}

/// The issue reported for a provider that did not answer in time.
pub open spec fn timeout_issue_view(summary: ProviderSummary) -> IssueView {
    (summary.id@, summary.name@, ProviderIssueKind::Timeout, "provider query timed out"@, true)
}

/// The issue for a provider whose query failed.
pub fn provider_issue(summary: &ProviderSummary, error: ProviderError) -> (issue: ProviderIssue)
    ensures
        issue_view(issue) == failure_issue(*summary, error),
{
    let (kind, retryable) = match &error {
        ProviderError::Unauthorized => (ProviderIssueKind::Unauthorized, false),
        ProviderError::Unavailable(_) => (ProviderIssueKind::Unavailable, true),
        ProviderError::InvalidResponse(_) => (ProviderIssueKind::InvalidResponse, false),
        ProviderError::Unsupported(_) => (ProviderIssueKind::Unsupported, false),
        _ => (ProviderIssueKind::Other, false),
    };
    ProviderIssue {
        provider_id: ProviderId::new(summary.id.as_str()),
        provider_name: summary.name.clone(),
        kind,
        message: error.message(),
        retryable,
    }
}

/// The issue for a provider that did not answer in time.
pub fn timeout_issue(summary: &ProviderSummary) -> (issue: ProviderIssue)
    ensures
        issue_view(issue) == timeout_issue_view(*summary),
{
    ProviderIssue {
        provider_id: ProviderId::new(summary.id.as_str()),
        provider_name: summary.name.clone(),
        kind: ProviderIssueKind::Timeout,
        message: String::from_str("provider query timed out"),
        retryable: true,
    }
}

// ---------------------------------------------------------------------------
// Merging the answers of every provider
// ---------------------------------------------------------------------------

/// How one provider's part of a library query ended.
#[derive(Clone, Debug)]
pub enum ProviderOutcome<T> {
    Completed(T),
    Failed(ProviderError),
    TimedOut,
    /// The query's task panicked or was cancelled: nothing is known of the
    /// provider, not even which one it was asked of.
    Aborted,
}

/// How many albums a library page shows, where it starts, and how many
/// albums each provider is asked for (enough to cover the page).
#[derive(Clone, Copy, Debug, PartialEq, Eq, Structural)]
pub struct AlbumWindow {
    pub limit: u32,
    pub offset: u32,
    pub provider_limit: u32,
}

/// A value clamped to `low..=high`.
pub open spec fn clamped(value: u32, low: u32, high: u32) -> u32 {
    if value < low {
        low
    } else if value > high {
        high
    } else {
        value
    }
}

/// The window of a library album page: thirty albums from the start unless
/// asked otherwise, between one and five hundred albums.
pub fn album_window(limit: Option<u32>, offset: Option<u32>) -> (window: AlbumWindow)
    ensures
        window.limit == clamped(
            match limit {
                Some(l) => l,
                None => 30,
            },
            1,
            500,
        ),
        window.offset == match offset {
            Some(o) => o,
            None => 0,
        },
        window.provider_limit == (if window.limit + window.offset > u32::MAX {
            u32::MAX
        } else {
            (window.limit + window.offset) as u32
        }),
{
    let requested = match limit {
        Some(l) => l,
        None => 30,
    };
    let limit = if requested < 1 {
        1
    } else if requested > 500 {
        500
    } else {
        requested
    };
    let offset = match offset {
        Some(o) => o,
        None => 0,
    };
    AlbumWindow { limit, offset, provider_limit: limit.saturating_add(offset) }
}

/// How many tracks a library search shows: fifty unless asked otherwise,
/// between one and five hundred.
pub fn search_limit(limit: Option<u32>) -> (clamped_limit: u32)
    ensures
        clamped_limit == clamped(
            match limit {
                Some(l) => l,
                None => 50,
            },
            1,
            500,
        ),
{
    let requested = match limit {
        Some(l) => l,
        None => 50,
    };
    if requested < 1 {
        1
    } else if requested > 500 {
        500
    } else {
        requested
    }
}

/// The part of a sequence from `offset` on, at most `limit` long.
pub open spec fn window_of<T>(items: Seq<T>, offset: nat, limit: nat) -> Seq<T> {
    if offset >= items.len() {
        Seq::empty()
    } else if offset + limit >= items.len() {
        items.subrange(offset as int, items.len() as int)
    } else {
        items.subrange(offset as int, (offset + limit) as int)
    }
}

/// Every album that the completed providers returned, qualified, provider
/// by provider in the order of the answers.
pub open spec fn completed_albums(results: Seq<(ProviderSummary, ProviderOutcome<Vec<Album>>)>) -> Seq<
    LibraryAlbum,
>
    decreases results.len(),
{
    if results.len() == 0 {
        Seq::empty()
    } else {
        completed_albums(results.drop_last()) + match results.last().1 {
            ProviderOutcome::Completed(albums) => albums@.map_values(
                |a: Album| qualified_album(results.last().0, a),
            ),
            _ => Seq::empty(),
        }
    }
}

/// Every track that the completed providers returned, qualified, provider
/// by provider in the order of the answers.
pub open spec fn completed_tracks(results: Seq<(ProviderSummary, ProviderOutcome<Vec<Track>>)>) -> Seq<
    LibraryTrack,
>
    decreases results.len(),
{
    if results.len() == 0 {
        Seq::empty()
    } else {
        completed_tracks(results.drop_last()) + match results.last().1 {
            ProviderOutcome::Completed(tracks) => qualified_tracks(results.last().0, tracks@),
            _ => Seq::empty(),
        }
    }
}

/// The issues of the providers that failed or timed out, in the order of the
/// answers.
pub open spec fn outcome_issues<T>(results: Seq<(ProviderSummary, ProviderOutcome<T>)>) -> Seq<
    IssueView,
>
    decreases results.len(),
{
    if results.len() == 0 {
        Seq::empty()
    } else {
        outcome_issues(results.drop_last()) + match results.last().1 {
            ProviderOutcome::Completed(_) => Seq::empty(),
            ProviderOutcome::Failed(e) => seq![failure_issue(results.last().0, e)],
            ProviderOutcome::TimedOut => seq![timeout_issue_view(results.last().0)],
            ProviderOutcome::Aborted => Seq::empty(),
        }
    }
}

/// Whether some provider's task was aborted.
pub open spec fn any_aborted<T>(results: Seq<(ProviderSummary, ProviderOutcome<T>)>) -> bool {
    exists|i: int| 0 <= i < results.len() && #[trigger] results[i].1 is Aborted
}

/// Whether no provider failed or timed out.
pub open spec fn none_failed<T>(results: Seq<(ProviderSummary, ProviderOutcome<T>)>) -> bool {
    forall|i: int|
        0 <= i < results.len() ==> (#[trigger] results[i].1 is Completed || results[i].1 is Aborted)
}

/// Whether every provider answered.
pub open spec fn all_answered<T>(results: Seq<(ProviderSummary, ProviderOutcome<T>)>) -> bool {
    forall|i: int| 0 <= i < results.len() ==> #[trigger] results[i].1 is Completed
}

proof fn lemma_no_issue_iff_none_failed<T>(results: Seq<(ProviderSummary, ProviderOutcome<T>)>)
    ensures
        (outcome_issues(results).len() == 0) == none_failed(results),
    decreases results.len(),
{
    if results.len() > 0 {
        let rest = results.drop_last();
        lemma_no_issue_iff_none_failed(rest);
        assert forall|i: int| 0 <= i < rest.len() implies #[trigger] rest[i] == results[i] by {}
        if none_failed(results) {
            assert(results[results.len() - 1].1 is Completed || results[results.len() - 1].1 is Aborted);
            assert(none_failed(rest)) by {
                assert forall|i: int| 0 <= i < rest.len() implies (#[trigger] rest[i].1 is Completed
                    || rest[i].1 is Aborted) by {
                    assert(results[i].1 is Completed || results[i].1 is Aborted);
                }
            }
        } else if none_failed(rest) && (results.last().1 is Completed || results.last().1 is Aborted) {
            assert forall|i: int| 0 <= i < results.len() implies (#[trigger] results[i].1 is Completed
                || results[i].1 is Aborted) by {
                if i < rest.len() {
                    assert(rest[i].1 is Completed || rest[i].1 is Aborted);
                }
            }
        }
    }
}

/// A merged response is complete exactly when every provider answered: no
/// provider failed or timed out (so there is no issue), and no provider's
/// task was aborted.
pub proof fn complete_exactly_when_all_answered<T>(
    results: Seq<(ProviderSummary, ProviderOutcome<T>)>,
    issues: Seq<ProviderIssue>,
)
    requires
        reports_issues(results, issues),
    ensures
        (issues.len() == 0 && !any_aborted(results)) == all_answered(results),
{
    lemma_no_issue_iff_none_failed(results);
    let raw = choose|raw: Seq<ProviderIssue>|
        raw.map_values(|i: ProviderIssue| issue_view(i)) == outcome_issues(results)
            && raw.to_multiset() == issues.to_multiset();
    assert(raw.to_multiset().len() == raw.len());
    assert(issues.to_multiset().len() == issues.len());
    assert(raw.map_values(|i: ProviderIssue| issue_view(i)).len() == raw.len());
    if all_answered(results) {
        assert(!any_aborted(results)) by {
            if any_aborted(results) {
                let i = choose|i: int| 0 <= i < results.len() && #[trigger] results[i].1 is Aborted;
                assert(results[i].1 is Completed);
            }
        }
        assert(none_failed(results)) by {
            assert forall|i: int| 0 <= i < results.len() implies (#[trigger] results[i].1 is Completed
                || results[i].1 is Aborted) by {
                assert(results[i].1 is Completed);
            }
        }
    } else if none_failed(results) && !any_aborted(results) {
        assert forall|i: int| 0 <= i < results.len() implies #[trigger] results[i].1 is Completed by {
            assert(results[i].1 is Completed || results[i].1 is Aborted);
            if results[i].1 is Aborted {
                assert(any_aborted(results));
            }
        }
    }
}

/// A provider that fails or times out takes nothing away from the others:
/// the library still holds every album and track of the providers that
/// answered.
pub proof fn failures_keep_other_answers(
    albums: Seq<(ProviderSummary, ProviderOutcome<Vec<Album>>)>,
    tracks: Seq<(ProviderSummary, ProviderOutcome<Vec<Track>>)>,
    summary: ProviderSummary,
    error: ProviderError,
)
    ensures
        completed_albums(albums.push((summary, ProviderOutcome::Failed(error)))) == completed_albums(
            albums,
        ),
        completed_albums(albums.push((summary, ProviderOutcome::TimedOut))) == completed_albums(
            albums,
        ),
        completed_tracks(tracks.push((summary, ProviderOutcome::Failed(error)))) == completed_tracks(
            tracks,
        ),
        completed_tracks(tracks.push((summary, ProviderOutcome::TimedOut))) == completed_tracks(
            tracks,
        ),
{
    assert(albums.push((summary, ProviderOutcome::<Vec<Album>>::Failed(error))).drop_last() =~= albums);
    assert(albums.push((summary, ProviderOutcome::<Vec<Album>>::TimedOut)).drop_last() =~= albums);
    assert(tracks.push((summary, ProviderOutcome::<Vec<Track>>::Failed(error))).drop_last() =~= tracks);
    assert(tracks.push((summary, ProviderOutcome::<Vec<Track>>::TimedOut)).drop_last() =~= tracks);
    assert(completed_albums(albums.push((summary, ProviderOutcome::Failed(error)))) =~= completed_albums(albums));
    assert(completed_albums(albums.push((summary, ProviderOutcome::TimedOut))) =~= completed_albums(albums));
    assert(completed_tracks(tracks.push((summary, ProviderOutcome::Failed(error)))) =~= completed_tracks(tracks));
    assert(completed_tracks(tracks.push((summary, ProviderOutcome::TimedOut))) =~= completed_tracks(tracks));
}

/// Media identities are qualified by provider and kind: two identities are
/// the same exactly when provider, kind and item all agree, so equal item
/// identifiers from two providers, or for two kinds, never collide.
pub proof fn identities_keep_parts_apart(a: MediaId, b: MediaId)
    ensures
        (id_order_view(a) == id_order_view(b)) == (a.provider_id.0@ == b.provider_id.0@ && a.kind
            == b.kind && a.item_id@ == b.item_id@),
{
}

/// Albums of two different providers never share an identity in the
/// unified library, whatever identifiers the providers gave them.
pub proof fn providers_never_collide(
    first: ProviderSummary,
    second: ProviderSummary,
    a: Album,
    b: Album,
)
    requires
        first.id@ != second.id@,
    ensures
        id_order_view(qualified_album(first, a).id) != id_order_view(qualified_album(second, b).id),
{
}

/// How library albums are ordered: by lower-cased name, then identity.
pub open spec fn album_key(album: LibraryAlbum) -> KeyView {
    (lowercase_of(album.name@), Some(id_order_view(album.id)))
}

/// How library tracks are ordered: by lower-cased title, then identity.
pub open spec fn track_key(track: LibraryTrack) -> KeyView {
    (lowercase_of(track.title@), Some(id_order_view(track.id)))
}

/// How issues are ordered: by provider identity.
pub open spec fn issue_key(issue: ProviderIssue) -> KeyView {
    (issue.provider_id.0@, None)
}

/// Whether `sorted` holds the items of `items`, each as often, in key order.
pub open spec fn is_sorted_arrangement<T>(
    items: Seq<T>,
    sorted: Seq<T>,
    key_of: spec_fn(T) -> KeyView,
) -> bool {
    sorted.to_multiset() == items.to_multiset() && sorted_by_key(sorted, key_of)
}

/// Whether `issues` are the issues of the failed providers, ordered by
/// provider identity.
pub open spec fn reports_issues<T>(
    results: Seq<(ProviderSummary, ProviderOutcome<T>)>,
    issues: Seq<ProviderIssue>,
) -> bool {
    &&& sorted_by_key(issues, |i: ProviderIssue| issue_key(i))
    &&& exists|raw: Seq<ProviderIssue>|
        raw.map_values(|i: ProviderIssue| issue_view(i)) == outcome_issues(results)
            && raw.to_multiset() == issues.to_multiset()
}

fn sorted_issues(issues: Vec<ProviderIssue>) -> (sorted: Vec<ProviderIssue>)
    ensures
        sorted@.to_multiset() == issues@.to_multiset(),
        sorted_by_key(sorted@, |i: ProviderIssue| issue_key(i)),
{
    let mut keys: Vec<SortKey> = Vec::new();
    let mut i: usize = 0;
    while i < issues.len()
        invariant
            i <= issues@.len(),
            keys@.len() == i,
            forall|k: int|
                0 <= k < i ==> #[trigger] keys@[k].key_view() == issue_key(issues@[k]),
        decreases issues@.len() - i,
    {
        keys.push(SortKey::new(issues[i].provider_id.as_str(), None));
        i = i + 1;
    }
    sort_by_keys(issues, keys, Ghost(|i: ProviderIssue| issue_key(i)))
}

/// Collects the issue of one provider's outcome, if it has one.
fn push_issue<T>(
    issues: &mut Vec<ProviderIssue>,
    summary: &ProviderSummary,
    outcome: ProviderOutcome<T>,
) -> (completed: Option<T>)
    ensures
        match outcome {
            ProviderOutcome::Completed(v) => completed == Some(v) && final(issues)@ == old(
                issues,
            )@,
            ProviderOutcome::Failed(e) => completed is None && final(issues)@.len() == old(
                issues,
            )@.len() + 1 && final(issues)@.drop_last() == old(issues)@ && issue_view(
                final(issues)@.last(),
            ) == failure_issue(*summary, e),
            ProviderOutcome::TimedOut => completed is None && final(issues)@.len() == old(
                issues,
            )@.len() + 1 && final(issues)@.drop_last() == old(issues)@ && issue_view(
                final(issues)@.last(),
            ) == timeout_issue_view(*summary),
            ProviderOutcome::Aborted => completed is None && final(issues)@ == old(issues)@,
        },
{
    match outcome {
        ProviderOutcome::Completed(v) => Some(v),
        ProviderOutcome::Failed(e) => {
            issues.push(provider_issue(summary, e));
            proof {
                assert(issues@.drop_last() =~= old(issues)@);
            }
            None
        },
        ProviderOutcome::TimedOut => {
            issues.push(timeout_issue(summary));
            proof {
                assert(issues@.drop_last() =~= old(issues)@);
            }
            None
        },
        ProviderOutcome::Aborted => None,
    }
}

/// Merges the answers of every provider into one page of albums: the albums
/// of all providers that answered, qualified and ordered by lower-cased name
/// and identity, cut to the window; an issue for each provider that failed
/// or timed out, ordered by provider; complete when there is no issue and no
/// provider's task was aborted.
pub fn aggregate_albums(
    results: Vec<(ProviderSummary, ProviderOutcome<Vec<Album>>)>,
    window: AlbumWindow,
) -> (response: AggregateResponse<LibraryAlbum>)
    ensures
        exists|sorted: Seq<LibraryAlbum>|
            is_sorted_arrangement(completed_albums(results@), sorted, |a: LibraryAlbum| album_key(a))
                && response.items@ == window_of(sorted, window.offset as nat, window.limit as nat),
        reports_issues(results@, response.issues@),
        response.complete == (response.issues@.len() == 0 && !any_aborted(results@)),
{
    let ghost original = results@;
    let mut rest = results;
    let mut items: Vec<LibraryAlbum> = Vec::new();
    let mut keys: Vec<SortKey> = Vec::new();
    let mut issues: Vec<ProviderIssue> = Vec::new();
    let total = rest.len();
    let mut aborted = false;
    let mut taken: usize = 0;
    while rest.len() > 0
        invariant
            total == original.len(),
            taken + rest@.len() == total,
            rest@ == original.skip(taken as int),
            items@ == completed_albums(original.take(taken as int)),
            keys@.len() == items@.len(),
            forall|k: int|
                0 <= k < items@.len() ==> #[trigger] keys@[k].key_view() == album_key(items@[k]),
            aborted == any_aborted(original.take(taken as int)),
            issues@.map_values(|i: ProviderIssue| issue_view(i)) == outcome_issues(
                original.take(taken as int),
            ),
        decreases rest@.len(),
    {
        let (summary, outcome) = rest.remove(0);
        let ghost step = original[taken as int];
        proof {
            assert(original.take(taken + 1).drop_last() =~= original.take(taken as int));
            assert(original.take(taken + 1).last() == step);
            assert(original.skip(taken + 1) =~= original.skip(taken as int).remove(0));
            assert(step == (summary, outcome));
        }
        let ghost issues_before = issues@;
        let this_aborted = match &outcome {
            ProviderOutcome::Aborted => true,
            _ => false,
        };
        proof {
            let now = original.take(taken + 1);
            let before = original.take(taken as int);
            assert forall|i: int| 0 <= i < before.len() implies #[trigger] before[i] == now[i] by {}
            if any_aborted(before) {
                let i = choose|i: int| 0 <= i < before.len() && #[trigger] before[i].1 is Aborted;
                assert(now[i].1 is Aborted);
            }
            if this_aborted {
                assert(now[taken as int].1 is Aborted);
            }
            if any_aborted(now) {
                let i = choose|i: int| 0 <= i < now.len() && #[trigger] now[i].1 is Aborted;
                if i < before.len() {
                    assert(before[i].1 is Aborted);
                }
            }
        }
        aborted = aborted || this_aborted;
        let completed = push_issue(&mut issues, &summary, outcome);
        proof {
            assert(issues@.map_values(|i: ProviderIssue| issue_view(i)) =~= outcome_issues(
                original.take(taken + 1),
            )) by {
                assert(issues_before.map_values(|i: ProviderIssue| issue_view(i))
                    == outcome_issues(original.take(taken as int)));
                if issues@.len() > issues_before.len() {
                    assert(issues@ =~= issues_before.push(issues@.last()));
                }
            }
        }
        if let Some(albums) = completed {
            let ghost items_before = items@;
            let ghost page = albums@;
            let mut rest_albums = albums;
            let page_total = rest_albums.len();
            let mut done: usize = 0;
            while rest_albums.len() > 0
                invariant
                    page_total == page.len(),
                    done + rest_albums@.len() == page_total,
                    rest_albums@ == page.skip(done as int),
                    items@ == items_before + page.take(done as int).map_values(
                        |a: Album| qualified_album(summary, a),
                    ),
                    keys@.len() == items@.len(),
                    forall|k: int|
                        0 <= k < items@.len() ==> #[trigger] keys@[k].key_view() == album_key(
                            items@[k],
                        ),
                decreases rest_albums@.len(),
            {
                let album = rest_albums.remove(0);
                proof {
                    assert(page.take(done + 1) =~= page.take(done as int).push(album));
                    assert(page.skip(done + 1) =~= page.skip(done as int).remove(0));
                }
                let qualified = qualify_album(&summary, album);
                let lowered = to_lowercase(qualified.name.as_str());
                let key = SortKey::new(lowered.as_str(), Some(&qualified.id));
                items.push(qualified);
                keys.push(key);
                proof {
                    assert(items@ =~= items_before + page.take(done + 1).map_values(
                        |a: Album| qualified_album(summary, a),
                    ));
                }
                done = done + 1;
            }
            proof {
                assert(page.take(page_total as int) =~= page);
                assert(items@ =~= completed_albums(original.take(taken + 1)));
            }
        } else {
            proof {
                assert(items@ =~= completed_albums(original.take(taken + 1)));
            }
        }
        taken = taken + 1;
    }
    assert(original.take(total as int) =~= original);
    let ghost all = items@;
    let raw_issues = issues;
    let ghost raw = raw_issues@;
    let sorted = sort_by_keys(items, keys, Ghost(|a: LibraryAlbum| album_key(a)));
    let ghost sorted_view = sorted@;
    let page = take_window(sorted, window.offset as usize, window.limit as usize);
    let issues = sorted_issues(raw_issues);
    let complete = issues.len() == 0 && !aborted;
    proof {
        assert(is_sorted_arrangement(all, sorted_view, |a: LibraryAlbum| album_key(a)));
    }
    AggregateResponse { items: page, issues, complete }
}

/// Merges the answers of every provider into one list of search results:
/// the tracks of all providers that answered, qualified and ordered by
/// lower-cased title and identity, at most `limit` of them; an issue for
/// each provider that failed or timed out, ordered by provider; complete
/// when there is no issue and no provider's task was aborted.
pub fn aggregate_tracks(
    results: Vec<(ProviderSummary, ProviderOutcome<Vec<Track>>)>,
    limit: u32,
) -> (response: AggregateResponse<LibraryTrack>)
    ensures
        exists|sorted: Seq<LibraryTrack>|
            is_sorted_arrangement(completed_tracks(results@), sorted, |t: LibraryTrack| track_key(t))
                && response.items@ == window_of(sorted, 0, limit as nat),
        reports_issues(results@, response.issues@),
        response.complete == (response.issues@.len() == 0 && !any_aborted(results@)),
{
    let ghost original = results@;
    let mut rest = results;
    let mut items: Vec<LibraryTrack> = Vec::new();
    let mut keys: Vec<SortKey> = Vec::new();
    let mut issues: Vec<ProviderIssue> = Vec::new();
    let total = rest.len();
    let mut aborted = false;
    let mut taken: usize = 0;
    while rest.len() > 0
        invariant
            total == original.len(),
            taken + rest@.len() == total,
            rest@ == original.skip(taken as int),
            items@ == completed_tracks(original.take(taken as int)),
            keys@.len() == items@.len(),
            forall|k: int|
                0 <= k < items@.len() ==> #[trigger] keys@[k].key_view() == track_key(items@[k]),
            aborted == any_aborted(original.take(taken as int)),
            issues@.map_values(|i: ProviderIssue| issue_view(i)) == outcome_issues(
                original.take(taken as int),
            ),
        decreases rest@.len(),
    {
        let (summary, outcome) = rest.remove(0);
        let ghost step = original[taken as int];
        proof {
            assert(original.take(taken + 1).drop_last() =~= original.take(taken as int));
            assert(original.take(taken + 1).last() == step);
            assert(original.skip(taken + 1) =~= original.skip(taken as int).remove(0));
            assert(step == (summary, outcome));
        }
        let ghost issues_before = issues@;
        let this_aborted = match &outcome {
            ProviderOutcome::Aborted => true,
            _ => false,
        };
        proof {
            let now = original.take(taken + 1);
            let before = original.take(taken as int);
            assert forall|i: int| 0 <= i < before.len() implies #[trigger] before[i] == now[i] by {}
            if any_aborted(before) {
                let i = choose|i: int| 0 <= i < before.len() && #[trigger] before[i].1 is Aborted;
                assert(now[i].1 is Aborted);
            }
            if this_aborted {
                assert(now[taken as int].1 is Aborted);
            }
            if any_aborted(now) {
                let i = choose|i: int| 0 <= i < now.len() && #[trigger] now[i].1 is Aborted;
                if i < before.len() {
                    assert(before[i].1 is Aborted);
                }
            }
        }
        aborted = aborted || this_aborted;
        let completed = push_issue(&mut issues, &summary, outcome);
        proof {
            assert(issues@.map_values(|i: ProviderIssue| issue_view(i)) =~= outcome_issues(
                original.take(taken + 1),
            )) by {
                assert(issues_before.map_values(|i: ProviderIssue| issue_view(i))
                    == outcome_issues(original.take(taken as int)));
                if issues@.len() > issues_before.len() {
                    assert(issues@ =~= issues_before.push(issues@.last()));
                }
            }
        }
        if let Some(tracks) = completed {
            let ghost items_before = items@;
            let ghost page = tracks@;
            let mut rest_tracks = tracks;
            let page_total = rest_tracks.len();
            let mut done: usize = 0;
            while rest_tracks.len() > 0
                invariant
                    page_total == page.len(),
                    done + rest_tracks@.len() == page_total,
                    rest_tracks@ == page.skip(done as int),
                    items@ == items_before + qualified_tracks(summary, page.take(done as int)),
                    keys@.len() == items@.len(),
                    forall|k: int|
                        0 <= k < items@.len() ==> #[trigger] keys@[k].key_view() == track_key(
                            items@[k],
                        ),
                decreases rest_tracks@.len(),
            {
                let track = rest_tracks.remove(0);
                proof {
                    assert(page.take(done + 1) =~= page.take(done as int).push(track));
                    assert(page.skip(done + 1) =~= page.skip(done as int).remove(0));
                }
                let qualified = qualify_track(&summary, track);
                let lowered = to_lowercase(qualified.title.as_str());
                let key = SortKey::new(lowered.as_str(), Some(&qualified.id));
                items.push(qualified);
                keys.push(key);
                proof {
                    assert(items@ =~= items_before + qualified_tracks(
                        summary,
                        page.take(done + 1),
                    ));
                }
                done = done + 1;
            }
            proof {
                assert(page.take(page_total as int) =~= page);
                assert(items@ =~= completed_tracks(original.take(taken + 1)));
            }
        } else {
            proof {
                assert(items@ =~= completed_tracks(original.take(taken + 1)));
            }
        }
        taken = taken + 1;
    }
    assert(original.take(total as int) =~= original);
    let ghost all = items@;
    let raw_issues = issues;
    let sorted = sort_by_keys(items, keys, Ghost(|t: LibraryTrack| track_key(t)));
    let ghost sorted_view = sorted@;
    let page = take_window(sorted, 0, limit as usize);
    let issues = sorted_issues(raw_issues);
    let complete = issues.len() == 0 && !aborted;
    proof {
        assert(is_sorted_arrangement(all, sorted_view, |t: LibraryTrack| track_key(t)));
    }
    AggregateResponse { items: page, issues, complete }
}

/// The items from `offset` on, at most `limit` of them.
fn take_window<T>(items: Vec<T>, offset: usize, limit: usize) -> (page: Vec<T>)
    ensures
        page@ == window_of(items@, offset as nat, limit as nat),
{
    let mut rest = items;
    if offset >= rest.len() {
        return Vec::new();
    }
    let ghost original = rest@;
    let mut tail = rest.split_off(offset);
    if limit < tail.len() {
        tail.truncate(limit);
    }
    proof {
        if offset + limit >= original.len() {
            assert(tail@ =~= original.subrange(offset as int, original.len() as int));
        } else {
            assert(tail@ =~= original.subrange(offset as int, (offset + limit) as int));
        }
    }
    tail
}

// ---------------------------------------------------------------------------
// The registry
// ---------------------------------------------------------------------------

/// A registered provider: its summary and the client that queries it.
pub struct ProviderEntry<C> {
    pub summary: ProviderSummary,
    pub client: C,
}

/// The entry registered under an identity, if any; with distinct
/// identities there is at most one.
pub open spec fn find_entry<C>(entries: Seq<ProviderEntry<C>>, id: Seq<char>) -> Option<
    ProviderEntry<C>,
>
    decreases entries.len(),
{
    if entries.len() == 0 {
        None
    } else if entries.last().summary.id@ == id {
        Some(entries.last())
    } else {
        find_entry(entries.drop_last(), id)
    }
}

/// Whether no two entries share an identity.
pub open spec fn distinct_ids<C>(entries: Seq<ProviderEntry<C>>) -> bool {
    forall|i: int, j: int|
        0 <= i < j < entries.len() ==> #[trigger] entries[i].summary.id@
            != #[trigger] entries[j].summary.id@
}

proof fn lemma_find_entry<C>(entries: Seq<ProviderEntry<C>>, id: Seq<char>)
    requires
        distinct_ids(entries),
    ensures
        find_entry(entries, id) is None <==> forall|i: int|
            0 <= i < entries.len() ==> #[trigger] entries[i].summary.id@ != id,
        forall|i: int|
            0 <= i < entries.len() && #[trigger] entries[i].summary.id@ == id ==> find_entry(
                entries,
                id,
            ) == Some(entries[i]),
    decreases entries.len(),
{
    if entries.len() > 0 {
        let rest = entries.drop_last();
        assert(distinct_ids(rest)) by {
            assert forall|i: int, j: int| 0 <= i < j < rest.len() implies #[trigger] rest[i].summary.id@
                != #[trigger] rest[j].summary.id@ by {
                assert(rest[i] == entries[i] && rest[j] == entries[j]);
            }
        }
        lemma_find_entry(rest, id);
        assert forall|i: int| 0 <= i < rest.len() implies #[trigger] rest[i] == entries[i] by {}
        if entries.last().summary.id@ != id {
            assert forall|i: int|
                0 <= i < entries.len() && #[trigger] entries[i].summary.id@ == id implies find_entry(
                entries,
                id,
            ) == Some(entries[i]) by {
                assert(i < entries.len() - 1);
                assert(rest[i] == entries[i]);
            }
            if find_entry(entries, id) is None {
                assert forall|i: int| 0 <= i < entries.len() implies #[trigger] entries[i].summary.id@
                    != id by {
                    if i < entries.len() - 1 {
                        assert(rest[i] == entries[i]);
                    }
                }
            }
        } else {
            assert forall|i: int|
                0 <= i < entries.len() && #[trigger] entries[i].summary.id@ == id implies find_entry(
                entries,
                id,
            ) == Some(entries[i]) by {
                if i < entries.len() - 1 {
                    assert(entries[i].summary.id@ != entries[entries.len() - 1].summary.id@);
                }
            }
        }
    }
}

/// The connected providers, each under its own identity.
pub struct ProviderRegistry<C> {
    entries: Vec<ProviderEntry<C>>,
}

impl<C> ProviderRegistry<C> {
    /// The registered entries, in the order they were first registered.
    pub closed spec fn entries(&self) -> Seq<ProviderEntry<C>> {
        self.entries@
    }

    /// The entry registered under an identity, if any.
    pub open spec fn lookup(&self, id: Seq<char>) -> Option<ProviderEntry<C>> {
        find_entry(self.entries(), id)
    }

    #[verifier::type_invariant]
    closed spec fn inv(self) -> bool {
        distinct_ids(self.entries@)
    }

    /// A registry with no provider.
    pub fn new() -> (registry: Self)
        ensures
            forall|id: Seq<char>| #[trigger] registry.lookup(id) is None,
            registry.entries().len() == 0,
    {
        ProviderRegistry { entries: Vec::new() }
    }

    fn position(&self, id: &str) -> (index: Option<usize>)
        ensures
            match index {
                Some(i) => i < self.entries@.len() && self.entries@[i as int].summary.id@ == id@,
                None => forall|i: int|
                    0 <= i < self.entries@.len() ==> #[trigger] self.entries@[i].summary.id@
                        != id@,
            },
    {
        let key = String::from_str(id);
        let mut i: usize = 0;
        while i < self.entries.len()
            invariant
                i <= self.entries@.len(),
                key@ == id@,
                forall|k: int| 0 <= k < i ==> #[trigger] self.entries@[k].summary.id@ != id@,
            decreases self.entries@.len() - i,
        {
            if self.entries[i].summary.id == key {
                return Some(i);
            }
            i = i + 1;
        }
        None
    }

    /// Registers a provider under its summary's identity, replacing the
    /// provider registered there before, if any.
    pub fn insert(&mut self, entry: ProviderEntry<C>)
        ensures
            final(self).lookup(entry.summary.id@) == Some(entry),
            forall|other: Seq<char>|
                other != entry.summary.id@ ==> #[trigger] final(self).lookup(other) == old(
                    self,
                ).lookup(other),
    {
        proof {
            use_type_invariant(&*self);
            lemma_find_entry(self.entries@, entry.summary.id@);
        }
        let ghost before = self.entries@;
        let ghost id = entry.summary.id@;
        let position = self.position(entry.summary.id.as_str());
        let mut entries = Vec::new();
        std::mem::swap(&mut entries, &mut self.entries);
        match position {
            Some(i) => {
                entries.set(i, entry);
            },
            None => {
                entries.push(entry);
            },
        }
        let ghost after = entries@;
        proof {
            assert(distinct_ids(after)) by {
                assert forall|a: int, b: int| 0 <= a < b < after.len() implies #[trigger] after[a].summary.id@
                    != #[trigger] after[b].summary.id@ by {
                    if position is Some {
                        let p = position->Some_0 as int;
                        if a != p && b != p {
                            assert(after[a] == before[a] && after[b] == before[b]);
                        } else if a == p {
                            assert(after[b] == before[b]);
                        } else {
                            assert(after[a] == before[a]);
                        }
                    } else {
                        if b < before.len() {
                            assert(after[a] == before[a] && after[b] == before[b]);
                        } else {
                            assert(after[a] == before[a]);
                        }
                    }
                }
            }
            lemma_find_entry(after, id);
            let k = if position is Some {
                position->Some_0 as int
            } else {
                before.len() as int
            };
            assert(after[k] == entry);
            assert forall|other: Seq<char>| other != id implies #[trigger] find_entry(after, other)
                == find_entry(before, other) by {
                lemma_find_entry(after, other);
                lemma_find_entry(before, other);
                if find_entry(before, other) is None {
                    assert forall|i: int| 0 <= i < after.len() implies #[trigger] after[i].summary.id@
                        != other by {
                        if i != k {
                            assert(after[i] == before[i]);
                        }
                    }
                } else {
                    let j = choose|j: int|
                        0 <= j < before.len() && #[trigger] before[j].summary.id@ == other;
                    assert(j != k);
                    assert(after[j] == before[j]);
                }
            }
        }
        self.entries = entries;
    }

    /// Removes the provider registered under an identity, returning it.
    pub fn remove(&mut self, id: &str) -> (removed: Option<ProviderEntry<C>>)
        ensures
            removed == old(self).lookup(id@),
            final(self).lookup(id@) is None,
            forall|other: Seq<char>|
                other != id@ ==> #[trigger] final(self).lookup(other) == old(self).lookup(other),
    {
        proof {
            use_type_invariant(&*self);
            lemma_find_entry(self.entries@, id@);
        }
        let ghost before = self.entries@;
        match self.position(id) {
            None => None,
            Some(i) => {
                let mut entries = Vec::new();
                std::mem::swap(&mut entries, &mut self.entries);
                let removed = entries.remove(i);
                let ghost after = entries@;
                proof {
                    assert(distinct_ids(after)) by {
                        assert forall|a: int, b: int|
                            0 <= a < b < after.len() implies #[trigger] after[a].summary.id@
                            != #[trigger] after[b].summary.id@ by {
                            let a0 = if a < i {
                                a
                            } else {
                                a + 1
                            };
                            let b0 = if b < i {
                                b
                            } else {
                                b + 1
                            };
                            assert(after[a] == before[a0] && after[b] == before[b0]);
                        }
                    }
                    lemma_find_entry(after, id@);
                    assert forall|k: int| 0 <= k < after.len() implies #[trigger] after[k].summary.id@
                        != id@ by {
                        let k0 = if k < i {
                            k
                        } else {
                            k + 1
                        };
                        assert(after[k] == before[k0]);
                    }
                    assert forall|other: Seq<char>| other != id@ implies #[trigger] find_entry(
                        after,
                        other,
                    ) == find_entry(before, other) by {
                        lemma_find_entry(after, other);
                        lemma_find_entry(before, other);
                        if find_entry(before, other) is None {
                            assert forall|k: int| 0 <= k < after.len() implies #[trigger] after[k].summary.id@
                                != other by {
                                let k0 = if k < i {
                                    k
                                } else {
                                    k + 1
                                };
                                assert(after[k] == before[k0]);
                            }
                        } else {
                            let j = choose|j: int|
                                0 <= j < before.len() && #[trigger] before[j].summary.id@ == other;
                            assert(j != i);
                            let j1 = if j < i {
                                j
                            } else {
                                j - 1
                            };
                            assert(after[j1] == before[j]);
                        }
                    }
                }
                self.entries = entries;
                Some(removed)
            },
        }
    }

    /// The entry registered under an identity, if any.
    pub fn entry(&self, id: &str) -> (found: Option<&ProviderEntry<C>>)
        ensures
            match found {
                Some(e) => self.lookup(id@) == Some(*e),
                None => self.lookup(id@) is None,
            },
    {
        proof {
            use_type_invariant(self);
            lemma_find_entry(self.entries@, id@);
        }
        match self.position(id) {
            Some(i) => Some(&self.entries[i]),
            None => None,
        }
    }

    /// The client of the provider registered under an identity, if any.
    pub fn client(&self, id: &str) -> (found: Option<&C>)
        ensures
            match found {
                Some(c) => self.lookup(id@) matches Some(e) && e.client == *c,
                None => self.lookup(id@) is None,
            },
    {
        match self.entry(id) {
            Some(e) => Some(&e.client),
            None => None,
        }
    }

    /// Every registered entry.
    pub fn all_entries(&self) -> (entries: &Vec<ProviderEntry<C>>)
        ensures
            entries@ == self.entries(),
    {
        &self.entries
    }

    /// The summaries of the registered providers, ordered by lower-cased
    /// name.
    pub fn summaries(&self) -> (summaries: Vec<ProviderSummary>)
        ensures
            is_sorted_arrangement(
                self.entries().map_values(|e: ProviderEntry<C>| e.summary),
                summaries@,
                |s: ProviderSummary| summary_key(s),
            ),
    {
        let mut out: Vec<ProviderSummary> = Vec::new();
        let mut keys: Vec<SortKey> = Vec::new();
        let mut i: usize = 0;
        while i < self.entries.len()
            invariant
                i <= self.entries@.len(),
                out@ == self.entries@.take(i as int).map_values(
                    |e: ProviderEntry<C>| e.summary,
                ),
                keys@.len() == out@.len(),
                forall|k: int|
                    0 <= k < out@.len() ==> #[trigger] keys@[k].key_view() == summary_key(out@[k]),
            decreases self.entries@.len() - i,
        {
            let summary = self.entries[i].summary.duplicate();
            let lowered = to_lowercase(summary.name.as_str());
            keys.push(SortKey::new(lowered.as_str(), None));
            out.push(summary);
            proof {
                assert(self.entries@.take(i + 1) =~= self.entries@.take(i as int).push(
                    self.entries@[i as int],
                ));
                assert(out@ =~= self.entries@.take(i + 1).map_values(
                    |e: ProviderEntry<C>| e.summary,
                ));
            }
            i = i + 1;
        }
        assert(self.entries@.take(self.entries@.len() as int) =~= self.entries@);
        sort_by_keys(out, keys, Ghost(|s: ProviderSummary| summary_key(s)))
    }
}

/// How providers are listed: by lower-cased name.
pub open spec fn summary_key(summary: ProviderSummary) -> KeyView {
    (lowercase_of(summary.name@), None)
}

// ---------------------------------------------------------------------------
// Errors of the library service
// ---------------------------------------------------------------------------

/// A failed library request, carrying the provider error behind it.
#[derive(Debug)]
pub struct ApiError(pub ProviderError);

impl ApiError {
    /// A request that was refused because of what it asked for.
    pub fn bad_request(message: &str) -> (error: Self)
        ensures
            error.0 matches ProviderError::InvalidResponse(m) && m@ == message@,
    {
        ApiError(ProviderError::InvalidResponse(String::from_str(message)))
    }

    /// The HTTP status the failure is answered with.
    pub fn status_code(&self) -> (status: u16)
        ensures
            status == match self.0 {
                ProviderError::Unauthorized => 401u16,
                ProviderError::NotFound => 404u16,
                ProviderError::Unavailable(_) => 502u16,
                ProviderError::InvalidResponse(_) => 400u16,
                ProviderError::Unsupported(_) => 501u16,
                _ => 502u16,
            },
    {
        match self.0 {
            ProviderError::Unauthorized => 401,
            ProviderError::NotFound => 404,
            ProviderError::Unavailable(_) => 502,
            ProviderError::InvalidResponse(_) => 400,
            ProviderError::Unsupported(_) => 501,
            _ => 502,
        }
    }

    /// The text of the `error` field of the answer.
    pub fn message(&self) -> (text: String)
        ensures
            text@ == error_message(self.0),
    {
        self.0.message()
    }
}

impl From<ProviderError> for ApiError {
    fn from(value: ProviderError) -> (error: ApiError) {
        ApiError(value)
    }
}

impl vstd::std_specs::convert::FromSpecImpl<ProviderError> for ApiError {
    open spec fn obeys_from_spec() -> bool {
        true
    }

    open spec fn from_spec(value: ProviderError) -> ApiError {
        ApiError(value)
    }
}

// ---------------------------------------------------------------------------
// Registering a provider
// ---------------------------------------------------------------------------

/// How a provider asks to be authenticated.
#[derive(Clone, Copy, Debug, PartialEq, Eq, Structural)]
pub enum AuthMethod {
    Password,
    ApiKey,
}

/// A request to connect a provider.
#[derive(Clone, Debug)]
pub struct RegisterProvider {
    pub name: String,
    pub url: String,
    pub username: Option<String>,
    pub auth: AuthMethod,
    pub secret: String,
}

/// A provider connection that passed the checks, ready to be pinged.
#[derive(Clone, Debug)]
pub struct Registration {
    pub name: String,
    pub url: String,
    pub username: String,
    pub auth: String,
    pub credentials: Credentials,
}

/// The user name of a request, empty when none was given.
pub open spec fn requested_username(request: RegisterProvider) -> Seq<char> {
    match request.username {
        Some(u) => u@,
        None => Seq::empty(),
    }
}

/// A request without a name, a URL or a secret.
pub open spec fn lacks_required(request: RegisterProvider) -> bool {
    is_blank(request.name@) || is_blank(request.url@) || request.secret@.len() == 0
}

/// A password request without a user name.
pub open spec fn lacks_username(request: RegisterProvider) -> bool {
    request.auth == AuthMethod::Password && is_blank(requested_username(request))
}

/// The check failed as a bad request with the given message.
pub open spec fn refused_with(checked: Result<Registration, ApiError>, message: Seq<char>) -> bool {
    checked matches Err(ApiError(ProviderError::InvalidResponse(m))) && m@ == message
}

/// The registration that an accepted request gives.
pub open spec fn registration_of(request: RegisterProvider, r: Registration) -> bool {
    &&& r.name@ == trimmed(request.name@)
    &&& r.url@ == trimmed(request.url@)
    &&& r.username@ == requested_username(request)
    &&& match request.auth {
        AuthMethod::ApiKey => r.auth@ == "API Key"@ && r.credentials == Credentials::ApiKey(
            request.secret,
        ),
        AuthMethod::Password => r.auth@ == "Password"@ && r.credentials == (Credentials::Password {
            username: r.username,
            password: request.secret,
        }),
    }
}

/// Checks a request to connect a provider: a name, a URL and a secret are
/// required, and password authentication needs a user name. The name and
/// the URL lose their surrounding whitespace.
pub fn validate_registration(request: RegisterProvider) -> (checked: Result<Registration, ApiError>)
    ensures
        lacks_required(request) ==> refused_with(
            checked,
            "name, URL, and credentials are required"@,
        ),
        !lacks_required(request) && lacks_username(request) ==> refused_with(
            checked,
            "username is required for password authentication"@,
        ),
        !lacks_required(request) && !lacks_username(request) ==> (checked matches Ok(r)
            && registration_of(request, r)),
{
    let RegisterProvider { name, url, username, auth, secret } = request;
    let name = trim(name.as_str());
    let url = trim(url.as_str());
    proof {
        trimmed_empty_iff_blank(request.name@);
        trimmed_empty_iff_blank(request.url@);
    }
    if name.as_str().is_empty() || url.as_str().is_empty() || secret.as_str().is_empty() {
        return Err(ApiError::bad_request("name, URL, and credentials are required"));
    }
    let username = match username {
        Some(u) => u,
        None => String::new(),
    };
    match auth {
        AuthMethod::ApiKey => Ok(
            Registration {
                name,
                url,
                username,
                auth: String::from_str("API Key"),
                credentials: Credentials::ApiKey(secret),
            },
        ),
        AuthMethod::Password => {
            proof {
                trimmed_empty_iff_blank(username@);
            }
            if trim(username.as_str()).as_str().is_empty() {
                return Err(ApiError::bad_request("username is required for password authentication"));
            }
            Ok(
                Registration {
                    name,
                    url,
                    username: username.clone(),
                    auth: String::from_str("Password"),
                    credentials: Credentials::Password { username, password: secret },
                },
            )
        },
    }
}

/// The registration of the provider configured by environment.
pub open spec fn default_registration(
    r: Registration,
    url: String,
    username: Seq<char>,
    auth: Seq<char>,
    credentials: Credentials,
) -> bool {
    &&& r.name@ == "Default server"@
    &&& r.url == url
    &&& r.username@ == username
    &&& r.auth@ == auth
    &&& r.credentials == credentials
}

/// The provider configured by environment: an API key when one is given,
/// otherwise a user name and password; without a server URL, or without
/// either kind of credentials, there is none.
pub fn environment_registration(
    url: Option<String>,
    api_key: Option<String>,
    username: Option<String>,
    password: Option<String>,
) -> (registration: Option<Registration>)
    ensures
        url is None ==> registration is None,
        url is Some && api_key is None && (username is None || password is None)
            ==> registration is None,
        (url, api_key) matches (Some(u), Some(k)) ==> (registration matches Some(r)
            && default_registration(r, u, Seq::empty(), "API Key"@, Credentials::ApiKey(k))),
        (url, api_key, username, password) matches (Some(u), None, Some(n), Some(p))
            ==> (registration matches Some(r) && default_registration(
            r,
            u,
            n@,
            "Password"@,
            Credentials::Password { username: n, password: p },
        )),
{
    let url = match url {
        Some(u) => u,
        None => {
            return None;
        },
    };
    match api_key {
        Some(key) => Some(
            Registration {
                name: String::from_str("Default server"),
                url,
                username: String::new(),
                auth: String::from_str("API Key"),
                credentials: Credentials::ApiKey(key),
            },
        ),
        None => match (username, password) {
            (Some(username), Some(password)) => Some(
                Registration {
                    name: String::from_str("Default server"),
                    url,
                    username: username.clone(),
                    auth: String::from_str("Password"),
                    credentials: Credentials::Password { username, password },
                },
            ),
            _ => None,
        },
    }
}

} // verus!
