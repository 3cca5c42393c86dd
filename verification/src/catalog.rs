//! What the browsing screens show of the unified library: the albums,
//! artists, playlists and tracks that match the filter text and the chosen
//! source, in the chosen order.
use vstd::prelude::*;

use crate::browse::{
    following_generation, page_bounds, page_count, page_window, RequestGenerations,
    ALBUMS_PER_PAGE,
};
use crate::model::{AggregateResponse, LibraryAlbum, LibraryTrack, MediaId, ProviderIssue};
use crate::ordering::{id_order_view, IdOrderView};
use crate::ranking::{
    is_stable_sort, rank_less, sorted_in_key_order, sorted_keeps_items, stable_sort, RankKey, RankView,
};
use crate::text::{
    contains_text, has_substring, is_blank, lowercase_of, text_less, to_lowercase, trim, trimmed,
    trimmed_empty_iff_blank,
};

verus! {

/// An artist of the unified library, its identities qualified by provider.
#[derive(Clone, Debug, PartialEq, Eq)]
pub struct LibraryArtist {
    pub id: MediaId,
    pub name: String,
    pub album_count: Option<u32>,
    pub cover_art: Option<MediaId>,
    pub source_name: String,
}

/// A playlist of the unified library, its identities qualified by provider.
#[derive(Clone, Debug, PartialEq, Eq)]
pub struct LibraryPlaylist {
    pub id: MediaId,
    pub name: String,
    pub owner: Option<String>,
    pub song_count: Option<u32>,
    pub duration_seconds: Option<u64>,
    pub cover_art: Option<MediaId>,
    pub source_name: String,
}

/// The text an optional text stands for: itself, or nothing.
pub open spec fn optional_text(text: Option<String>) -> Seq<char> {
    match text {
        Some(t) => t@,
        None => Seq::empty(),
    }
}

/// What a filter text is matched as: trimmed and lower-cased.
pub open spec fn needle_of(filter: Seq<char>) -> Seq<char> {
    lowercase_of(trimmed(filter))
}

/// Whether a text, lower-cased, holds the needle.
pub open spec fn mentions(text: Seq<char>, needle: Seq<char>) -> bool {
    has_substring(lowercase_of(text), needle)
}

/// Whether an item belongs to the chosen source; no source chosen means
/// every source.
pub open spec fn from_source(id: MediaId, source: Seq<char>) -> bool {
    source.len() == 0 || id.provider_id.0@ == source
}

/// The needle of a filter text: trimmed and lower-cased.
pub fn filter_needle(filter: &str) -> (needle: String)
    ensures
        needle@ == needle_of(filter@),
{
    let trimmed_filter = trim(filter);
    to_lowercase(trimmed_filter.as_str())
}

fn mentions_text(text: &str, needle: &String) -> (found: bool)
    ensures
        found == mentions(text@, needle@),
{
    let lowered = to_lowercase(text);
    contains_text(lowered.as_str(), needle.as_str())
}

fn mentions_optional(text: &Option<String>, needle: &String) -> (found: bool)
    ensures
        found == mentions(optional_text(*text), needle@),
{
    proof {
        reveal_strlit("");
    }
    match text {
        Some(t) => {
            mentions_text(t.as_str(), needle)
        },
        None => {
            let r = mentions_text("", needle);
            assert(""@ == Seq::<char>::empty());
            r
        },
    }
}

fn in_source(id: &MediaId, source: &str) -> (found: bool)
    ensures
        found == from_source(*id, source@),
{
    let chars = crate::text::chars_of(source);
    chars.len() == 0 || id.provider_id.0 == String::from_str(source)
}

fn lowered_optional(text: &Option<String>) -> (lowered: String)
    ensures
        lowered@ == lowercase_of(optional_text(*text)),
{
    proof {
        reveal_strlit("");
    }
    match text {
        Some(t) => to_lowercase(t.as_str()),
        None => {
            let lowered = to_lowercase("");
            assert(""@ == Seq::<char>::empty());
            lowered
        },
    }
}

/// The largest `u32`, from which a number is subtracted to sort it in
/// descending order.
pub const DESCENDING_BASE: u32 = 4294967295;

// ---------------------------------------------------------------------------
// Albums
// ---------------------------------------------------------------------------

/// How the album grid is ordered.
#[derive(Clone, Copy, Debug, PartialEq, Eq, Structural)]
pub enum AlbumSort {
    /// By lower-cased title.
    Title,
    /// By lower-cased artist, then title.
    Artist,
    /// By year, newest first (an unknown year counts as zero), then title.
    Year,
    /// By lower-cased source name, then title.
    Source,
}

impl AlbumSort {
    /// The order chosen in the sort menu: `artist`, `year` and `source`
    /// name their orders, anything else sorts by title.
    pub fn from_choice(choice: &str) -> (sort: AlbumSort)
        ensures
            choice@ == "artist"@ ==> sort == AlbumSort::Artist,
            choice@ == "year"@ ==> sort == AlbumSort::Year,
            choice@ == "source"@ ==> sort == AlbumSort::Source,
            choice@ != "artist"@ && choice@ != "year"@ && choice@ != "source"@ ==> sort
                == AlbumSort::Title,
    {
        proof {
            reveal_strlit("artist");
            reveal_strlit("year");
            reveal_strlit("source");
            assert("artist"@.len() == 6 && "year"@.len() == 4 && "source"@.len() == 6);
            assert("artist"@ != "source"@) by {
                assert("artist"@[0] != "source"@[0]);
            }
        }
        let text = String::from_str(choice);
        if text == String::from_str("artist") {
            AlbumSort::Artist
        } else if text == String::from_str("year") {
            AlbumSort::Year
        } else if text == String::from_str("source") {
            AlbumSort::Source
        } else {
            AlbumSort::Title
        }
    }
}

/// The number an optional count or year sorts by: zero when unknown.
pub open spec fn or_zero(value: Option<u32>) -> nat {
    match value {
        Some(v) => v as nat,
        None => 0,
    }
}

/// The key an album is sorted by in the given order.
pub open spec fn album_rank(album: LibraryAlbum, sort: AlbumSort) -> RankView {
    let title = lowercase_of(album.name@);
    match sort {
        AlbumSort::Title => (Seq::empty(), 0, title),
        AlbumSort::Artist => (lowercase_of(optional_text(album.artist)), 0, title),
        AlbumSort::Year => (Seq::empty(), (DESCENDING_BASE - or_zero(album.year)) as nat, title),
        AlbumSort::Source => (lowercase_of(album.source_name@), 0, title),
    }
}

/// Whether an album is shown for a needle and a source: its title, artist
/// or source name mentions the needle (or there is no needle), and it comes
/// from the source.
pub open spec fn album_shown(album: LibraryAlbum, needle: Seq<char>, source: Seq<char>) -> bool {
    &&& (needle.len() == 0 || mentions(album.name@, needle) || mentions(
        optional_text(album.artist),
        needle,
    ) || mentions(album.source_name@, needle))
    &&& from_source(album.id, source)
}

/// The albums shown for a needle and a source, as a filter.
pub open spec fn shows_album(needle: Seq<char>, source: Seq<char>) -> spec_fn(LibraryAlbum) -> bool {
    |a: LibraryAlbum| album_shown(a, needle, source)
}

fn album_key(album: &LibraryAlbum, sort: AlbumSort) -> (key: RankKey)
    ensures
        key.rank_view() == album_rank(*album, sort),
{
    proof {
        reveal_strlit("");
        assert(""@ == Seq::<char>::empty());
    }
    let title = to_lowercase(album.name.as_str());
    match sort {
        AlbumSort::Title => RankKey::new("", 0, title.as_str()),
        AlbumSort::Artist => {
            let artist = lowered_optional(&album.artist);
            RankKey::new(artist.as_str(), 0, title.as_str())
        },
        AlbumSort::Year => {
            let year = match album.year {
                Some(y) => y,
                None => 0,
            };
            RankKey::new("", DESCENDING_BASE - year, title.as_str())
        },
        AlbumSort::Source => {
            let source = to_lowercase(album.source_name.as_str());
            RankKey::new(source.as_str(), 0, title.as_str())
        },
    }
}

/// The albums the grid shows: those that match the filter text and the
/// source (an empty source meaning all), in the chosen order; albums that
/// tie keep the order in which they came.
pub fn visible_albums(albums: Vec<LibraryAlbum>, filter: &str, source: &str, sort: AlbumSort) -> (shown:
    Vec<LibraryAlbum>)
    ensures
        is_stable_sort(
            albums@.filter(shows_album(needle_of(filter@), source@)),
            shown@,
            |a: LibraryAlbum| album_rank(a, sort),
        ),
{
    let needle = filter_needle(filter);
    let ghost keep = shows_album(needle_of(filter@), source@);
    let ghost original = albums@;
    let mut rest = albums;
    let mut kept: Vec<LibraryAlbum> = Vec::new();
    let mut keys: Vec<RankKey> = Vec::new();
    let mut taken: usize = 0;
    let total = rest.len();
    while rest.len() > 0
        invariant
            total == original.len(),
            taken + rest@.len() == total,
            rest@ == original.skip(taken as int),
            needle@ == needle_of(filter@),
            keep == shows_album(needle_of(filter@), source@),
            kept@ == original.take(taken as int).filter(keep),
            keys@.len() == kept@.len(),
            forall|i: int|
                0 <= i < kept@.len() ==> #[trigger] keys@[i].rank_view() == album_rank(
                    kept@[i],
                    sort,
                ),
        decreases rest@.len(),
    {
        let album = rest.remove(0);
        proof {
            assert(original.skip(taken + 1) =~= original.skip(taken as int).remove(0));
            assert(original.take(taken + 1) =~= original.take(taken as int).push(album));
            original.take(taken as int).lemma_filter_push(album, keep);
        }
        let chars = crate::text::chars_of(needle.as_str());
        let matches = chars.len() == 0 || mentions_text(album.name.as_str(), &needle)
            || mentions_optional(&album.artist, &needle) || mentions_text(
            album.source_name.as_str(),
            &needle,
        );
        let wanted = matches && in_source(&album.id, source);
        proof {
            assert(keep(album) == wanted);
        }
        if wanted {
            keys.push(album_key(&album, sort));
            kept.push(album);
        }
        taken = taken + 1;
    }
    proof {
        assert(original.take(total as int) =~= original);
    }
    stable_sort(kept, keys, Ghost(|a: LibraryAlbum| album_rank(a, sort)))
}

/// An item is in a filtered list exactly when it is in the list and passes
/// the filter.
proof fn filtered_holds<T>(items: Seq<T>, keep: spec_fn(T) -> bool, x: T)
    ensures
        items.filter(keep).contains(x) == (items.contains(x) && keep(x)),
{
    broadcast use vstd::seq_lib::group_filter_ensures;

    if items.filter(keep).contains(x) {
        items.lemma_filter_contains_rev(keep, x);
        let k = choose|k: int| 0 <= k < items.filter(keep).len() && items.filter(keep)[k] == x;
        items.lemma_filter_pred(keep, k);
    }
    if items.contains(x) && keep(x) {
        let k = choose|k: int| 0 <= k < items.len() && items[k] == x;
        items.lemma_filter_contains(keep, k);
    }
}

/// The album grid's order. By title: no album follows one whose
/// lower-cased title sorts after its own. By artist: lower-cased artists
/// never go down, and albums of one artist go by title. By year: years never
/// go up (an unknown year counting as zero), and albums of one year go by
/// title. By source: lower-cased source names never go down, and albums of
/// one source go by title.
pub proof fn album_grid_order(items: Seq<LibraryAlbum>, shown: Seq<LibraryAlbum>, sort: AlbumSort)
    requires
        is_stable_sort(items, shown, |a: LibraryAlbum| album_rank(a, sort)),
    ensures
        sort == AlbumSort::Title ==> forall|i: int, j: int|
            0 <= i < j < shown.len() ==> !text_less(
                lowercase_of(#[trigger] shown[j].name@),
                lowercase_of(#[trigger] shown[i].name@),
            ),
        sort == AlbumSort::Artist ==> forall|i: int, j: int|
            0 <= i < j < shown.len() ==> {
                &&& !text_less(
                    lowercase_of(optional_text(#[trigger] shown[j].artist)),
                    lowercase_of(optional_text(#[trigger] shown[i].artist)),
                )
                &&& (lowercase_of(optional_text(shown[j].artist)) == lowercase_of(
                    optional_text(shown[i].artist),
                ) ==> !text_less(lowercase_of(shown[j].name@), lowercase_of(shown[i].name@)))
            },
        sort == AlbumSort::Year ==> forall|i: int, j: int|
            0 <= i < j < shown.len() ==> {
                &&& or_zero(#[trigger] shown[j].year) <= or_zero(#[trigger] shown[i].year)
                &&& (or_zero(shown[j].year) == or_zero(shown[i].year) ==> !text_less(
                    lowercase_of(shown[j].name@),
                    lowercase_of(shown[i].name@),
                ))
            },
        sort == AlbumSort::Source ==> forall|i: int, j: int|
            0 <= i < j < shown.len() ==> {
                &&& !text_less(
                    lowercase_of(#[trigger] shown[j].source_name@),
                    lowercase_of(#[trigger] shown[i].source_name@),
                )
                &&& (lowercase_of(shown[j].source_name@) == lowercase_of(shown[i].source_name@)
                    ==> !text_less(lowercase_of(shown[j].name@), lowercase_of(shown[i].name@)))
            },
{
    let key_of = |a: LibraryAlbum| album_rank(a, sort);
    sorted_in_key_order(items, shown, key_of);
    assert forall|i: int, j: int| 0 <= i < j < shown.len() implies !rank_less(
        album_rank(#[trigger] shown[j], sort),
        album_rank(#[trigger] shown[i], sort),
    ) by {
        assert(!rank_less(key_of(shown[j]), key_of(shown[i])));
    }
}

/// The albums the grid shows are exactly the albums of the list that come
/// from the chosen source (any, when none is chosen) and whose lower-cased
/// title, artist or source name holds the trimmed, lower-cased filter text
/// (any album, when that text is empty).
pub proof fn album_grid_members(
    albums: Seq<LibraryAlbum>,
    filter: Seq<char>,
    source: Seq<char>,
    sort: AlbumSort,
    shown: Seq<LibraryAlbum>,
)
    requires
        is_stable_sort(
            albums.filter(shows_album(needle_of(filter), source)),
            shown,
            |a: LibraryAlbum| album_rank(a, sort),
        ),
    ensures
        forall|a: LibraryAlbum| #[trigger]
            shown.contains(a) == (albums.contains(a) && (source.len() == 0 || a.id.provider_id.0@
                == source) && (lowercase_of(trimmed(filter)).len() == 0 || has_substring(
                lowercase_of(a.name@),
                lowercase_of(trimmed(filter)),
            ) || has_substring(
                lowercase_of(optional_text(a.artist)),
                lowercase_of(trimmed(filter)),
            ) || has_substring(lowercase_of(a.source_name@), lowercase_of(trimmed(filter))))),
{
    let keep = shows_album(needle_of(filter), source);
    assert forall|a: LibraryAlbum| #[trigger]
        shown.contains(a) == (albums.contains(a) && keep(a)) by {
        sorted_keeps_items(albums.filter(keep), shown, |a: LibraryAlbum| album_rank(a, sort), a);
        filtered_holds(albums, keep, a);
    }
}

/// What the album grid shows: the filter text, the chosen source (empty for
/// all), the order, and the page.
pub struct AlbumGrid {
    pub filter: String,
    pub source: String,
    pub sort: AlbumSort,
    pub page: usize,
}

impl AlbumGrid {
    /// No filter, every source, by title, on the first page.
    pub fn new() -> (grid: Self)
        ensures
            grid.filter@.len() == 0,
            grid.source@.len() == 0,
            grid.sort == AlbumSort::Title,
            grid.page == 0,
    {
        AlbumGrid { filter: String::new(), source: String::new(), sort: AlbumSort::Title, page: 0 }
    }

    /// A new filter text; the grid goes back to the first page.
    pub fn set_filter(&mut self, filter: String)
        ensures
            final(self).filter == filter,
            final(self).source == old(self).source,
            final(self).sort == old(self).sort,
            final(self).page == 0,
    {
        self.filter = filter;
        self.page = 0;
    }

    /// A new source; the grid goes back to the first page.
    pub fn set_source(&mut self, source: String)
        ensures
            final(self).source == source,
            final(self).filter == old(self).filter,
            final(self).sort == old(self).sort,
            final(self).page == 0,
    {
        self.source = source;
        self.page = 0;
    }

    /// A new order; the grid goes back to the first page.
    pub fn set_sort(&mut self, sort: AlbumSort)
        ensures
            final(self).sort == sort,
            final(self).filter == old(self).filter,
            final(self).source == old(self).source,
            final(self).page == 0,
    {
        self.sort = sort;
        self.page = 0;
    }

    /// The page before, staying on the first page.
    pub fn previous_page(&mut self)
        ensures
            final(self).page == (if old(self).page > 0 {
                (old(self).page - 1) as usize
            } else {
                0
            }),
            final(self).filter == old(self).filter,
            final(self).source == old(self).source,
            final(self).sort == old(self).sort,
    {
        if self.page > 0 {
            self.page = self.page - 1;
        }
    }

    /// The page after, when `shown` items reach beyond the current page;
    /// otherwise the page stays.
    pub fn next_page(&mut self, shown: usize)
        ensures
            final(self).page == (if (old(self).page + 1) * ALBUMS_PER_PAGE < shown {
                (old(self).page + 1) as usize
            } else {
                old(self).page
            }),
            final(self).filter == old(self).filter,
            final(self).source == old(self).source,
            final(self).sort == old(self).sort,
    {
        let pages = page_count(shown, ALBUMS_PER_PAGE);
        let page = self.page;
        proof {
            assert((page + 1 < pages) == ((page + 1) * 24 < shown)) by (nonlinear_arith)
                requires
                    pages >= 1,
                    pages * 24 >= shown,
                    pages == 1 || (pages - 1) * 24 < shown,
            ;
        }
        if page < pages - 1 {
            self.page = page + 1;
        }
    }

    /// The albums on the current page: the albums the filter, source and
    /// order show (see [`visible_albums`]), from `24 * page` on, at most 24.
    pub fn visible_page(&self, albums: Vec<LibraryAlbum>) -> (page: Vec<LibraryAlbum>)
        ensures
            exists|shown: Seq<LibraryAlbum>|
                is_stable_sort(
                    albums@.filter(shows_album(needle_of(self.filter@), self.source@)),
                    shown,
                    |a: LibraryAlbum| album_rank(a, self.sort),
                ) && page@ == shown.subrange(
                    page_bounds(shown.len(), self.page as nat).0 as int,
                    page_bounds(shown.len(), self.page as nat).1 as int,
                ),
    {
        let mut shown = visible_albums(albums, self.filter.as_str(), self.source.as_str(), self.sort);
        let ghost all = shown@;
        let (start, end) = page_window(shown.len(), self.page);
        shown.truncate(end);
        let part = shown.split_off(start);
        proof {
            assert(part@ =~= all.subrange(start as int, end as int));
        }
        part
    }
}

/// The releases of an artist, newest first (an unknown year counts as
/// zero), then by lower-cased title; ties keep the order in which they came.
pub fn artist_releases(albums: Vec<LibraryAlbum>) -> (releases: Vec<LibraryAlbum>)
    ensures
        is_stable_sort(albums@, releases@, |a: LibraryAlbum| album_rank(a, AlbumSort::Year)),
{
    let mut keys: Vec<RankKey> = Vec::new();
    let mut i: usize = 0;
    while i < albums.len()
        invariant
            i <= albums@.len(),
            keys@.len() == i,
            forall|k: int|
                0 <= k < i ==> #[trigger] keys@[k].rank_view() == album_rank(
                    albums@[k],
                    AlbumSort::Year,
                ),
        decreases albums@.len() - i,
    {
        keys.push(album_key(&albums[i], AlbumSort::Year));
        i = i + 1;
    }
    stable_sort(albums, keys, Ghost(|a: LibraryAlbum| album_rank(a, AlbumSort::Year)))
}

// ---------------------------------------------------------------------------
// Artists
// ---------------------------------------------------------------------------

/// How the artist grid is ordered.
#[derive(Clone, Copy, Debug, PartialEq, Eq, Structural)]
pub enum ArtistSort {
    /// By lower-cased name.
    Name,
    /// By album count, largest first (an unknown count counts as zero), then
    /// name.
    AlbumCount,
}

impl ArtistSort {
    /// The order chosen in the sort menu: `albums` sorts by album count,
    /// anything else by name.
    pub fn from_choice(choice: &str) -> (sort: ArtistSort)
        ensures
            sort == (if choice@ == "albums"@ {
                ArtistSort::AlbumCount
            } else {
                ArtistSort::Name
            }),
    {
        if String::from_str(choice) == String::from_str("albums") {
            ArtistSort::AlbumCount
        } else {
            ArtistSort::Name
        }
    }
}

/// The key an artist is sorted by in the given order.
pub open spec fn artist_rank(artist: LibraryArtist, sort: ArtistSort) -> RankView {
    let name = lowercase_of(artist.name@);
    match sort {
        ArtistSort::Name => (Seq::empty(), 0, name),
        ArtistSort::AlbumCount => (
            Seq::empty(),
            (DESCENDING_BASE - or_zero(artist.album_count)) as nat,
            name,
        ),
    }
}

/// Whether an artist is shown for a needle and a source: its name or
/// source name mentions the needle (or there is no needle), and it comes
/// from the source.
pub open spec fn artist_shown(artist: LibraryArtist, needle: Seq<char>, source: Seq<char>) -> bool {
    &&& (needle.len() == 0 || mentions(artist.name@, needle) || mentions(
        artist.source_name@,
        needle,
    ))
    &&& from_source(artist.id, source)
}

/// The artists shown for a needle and a source, as a filter.
pub open spec fn shows_artist(needle: Seq<char>, source: Seq<char>) -> spec_fn(LibraryArtist) -> bool {
    |a: LibraryArtist| artist_shown(a, needle, source)
}

fn artist_key(artist: &LibraryArtist, sort: ArtistSort) -> (key: RankKey)
    ensures
        key.rank_view() == artist_rank(*artist, sort),
{
    proof {
        reveal_strlit("");
        assert(""@ == Seq::<char>::empty());
    }
    let name = to_lowercase(artist.name.as_str());
    match sort {
        ArtistSort::Name => RankKey::new("", 0, name.as_str()),
        ArtistSort::AlbumCount => {
            let count = match artist.album_count {
                Some(c) => c,
                None => 0,
            };
            RankKey::new("", DESCENDING_BASE - count, name.as_str())
        },
    }
}

/// The artists the grid shows: those that match the filter text and the
/// source, in the chosen order; ties keep the order in which they came.
pub fn visible_artists(
    artists: Vec<LibraryArtist>,
    filter: &str,
    source: &str,
    sort: ArtistSort,
) -> (shown: Vec<LibraryArtist>)
    ensures
        is_stable_sort(
            artists@.filter(shows_artist(needle_of(filter@), source@)),
            shown@,
            |a: LibraryArtist| artist_rank(a, sort),
        ),
{
    let needle = filter_needle(filter);
    let ghost keep = shows_artist(needle_of(filter@), source@);
    let ghost original = artists@;
    let mut rest = artists;
    let mut kept: Vec<LibraryArtist> = Vec::new();
    let mut keys: Vec<RankKey> = Vec::new();
    let mut taken: usize = 0;
    let total = rest.len();
    while rest.len() > 0
        invariant
            total == original.len(),
            taken + rest@.len() == total,
            rest@ == original.skip(taken as int),
            needle@ == needle_of(filter@),
            keep == shows_artist(needle_of(filter@), source@),
            kept@ == original.take(taken as int).filter(keep),
            keys@.len() == kept@.len(),
            forall|i: int|
                0 <= i < kept@.len() ==> #[trigger] keys@[i].rank_view() == artist_rank(
                    kept@[i],
                    sort,
                ),
        decreases rest@.len(),
    {
        let artist = rest.remove(0);
        proof {
            assert(original.skip(taken + 1) =~= original.skip(taken as int).remove(0));
            assert(original.take(taken + 1) =~= original.take(taken as int).push(artist));
            original.take(taken as int).lemma_filter_push(artist, keep);
        }
        let chars = crate::text::chars_of(needle.as_str());
        let matches = chars.len() == 0 || mentions_text(artist.name.as_str(), &needle)
            || mentions_text(artist.source_name.as_str(), &needle);
        let wanted = matches && in_source(&artist.id, source);
        proof {
            assert(keep(artist) == wanted);
        }
        if wanted {
            keys.push(artist_key(&artist, sort));
            kept.push(artist);
        }
        taken = taken + 1;
    }
    proof {
        assert(original.take(total as int) =~= original);
    }
    stable_sort(kept, keys, Ghost(|a: LibraryArtist| artist_rank(a, sort)))
}

/// The artists the grid shows are exactly the artists of the list that
/// come from the chosen source (any, when none is chosen) and whose
/// lower-cased name or source name holds the trimmed, lower-cased filter
/// text (any artist, when that text is empty).
pub proof fn artist_grid_members(
    artists: Seq<LibraryArtist>,
    filter: Seq<char>,
    source: Seq<char>,
    sort: ArtistSort,
    shown: Seq<LibraryArtist>,
)
    requires
        is_stable_sort(
            artists.filter(shows_artist(needle_of(filter), source)),
            shown,
            |a: LibraryArtist| artist_rank(a, sort),
        ),
    ensures
        forall|a: LibraryArtist| #[trigger]
            shown.contains(a) == (artists.contains(a) && (source.len() == 0 || a.id.provider_id.0@
                == source) && (lowercase_of(trimmed(filter)).len() == 0 || has_substring(
                lowercase_of(a.name@),
                lowercase_of(trimmed(filter)),
            ) || has_substring(lowercase_of(a.source_name@), lowercase_of(trimmed(filter))))),
{
    let keep = shows_artist(needle_of(filter), source);
    assert forall|a: LibraryArtist| #[trigger]
        shown.contains(a) == (artists.contains(a) && keep(a)) by {
        sorted_keeps_items(artists.filter(keep), shown, |a: LibraryArtist| artist_rank(a, sort), a);
        filtered_holds(artists, keep, a);
    }
}

/// The artist grid's order. By name: no artist follows one whose
/// lower-cased name sorts after its own. By album count: counts never go up
/// (an unknown count counting as zero), and artists with one count go by
/// name.
pub proof fn artist_grid_order(items: Seq<LibraryArtist>, shown: Seq<LibraryArtist>, sort: ArtistSort)
    requires
        is_stable_sort(items, shown, |a: LibraryArtist| artist_rank(a, sort)),
    ensures
        sort == ArtistSort::Name ==> forall|i: int, j: int|
            0 <= i < j < shown.len() ==> !text_less(
                lowercase_of(#[trigger] shown[j].name@),
                lowercase_of(#[trigger] shown[i].name@),
            ),
        sort == ArtistSort::AlbumCount ==> forall|i: int, j: int|
            0 <= i < j < shown.len() ==> {
                &&& or_zero(#[trigger] shown[j].album_count) <= or_zero(
                    #[trigger] shown[i].album_count,
                )
                &&& (or_zero(shown[j].album_count) == or_zero(shown[i].album_count) ==> !text_less(
                    lowercase_of(shown[j].name@),
                    lowercase_of(shown[i].name@),
                ))
            },
{
    let key_of = |a: LibraryArtist| artist_rank(a, sort);
    sorted_in_key_order(items, shown, key_of);
    assert forall|i: int, j: int| 0 <= i < j < shown.len() implies !rank_less(
        artist_rank(#[trigger] shown[j], sort),
        artist_rank(#[trigger] shown[i], sort),
    ) by {
        assert(!rank_less(key_of(shown[j]), key_of(shown[i])));
    }
}

// ---------------------------------------------------------------------------
// Playlists
// ---------------------------------------------------------------------------

/// The key a playlist is sorted by: its lower-cased name.
pub open spec fn playlist_rank(playlist: LibraryPlaylist) -> RankView {
    (Seq::empty(), 0, lowercase_of(playlist.name@))
}

/// Whether a playlist is shown for a needle and a source: its name, owner
/// or source name mentions the needle (or there is no needle), and it comes
/// from the source.
pub open spec fn playlist_shown(playlist: LibraryPlaylist, needle: Seq<char>, source: Seq<char>) -> bool {
    &&& (needle.len() == 0 || mentions(playlist.name@, needle) || mentions(
        optional_text(playlist.owner),
        needle,
    ) || mentions(playlist.source_name@, needle))
    &&& from_source(playlist.id, source)
}

/// The playlists shown for a needle and a source, as a filter.
pub open spec fn shows_playlist(needle: Seq<char>, source: Seq<char>) -> spec_fn(LibraryPlaylist) -> bool {
    |p: LibraryPlaylist| playlist_shown(p, needle, source)
}

/// The playlists the list shows: those that match the filter text and the
/// source, by lower-cased name; ties keep the order in which they came.
pub fn visible_playlists(playlists: Vec<LibraryPlaylist>, filter: &str, source: &str) -> (shown:
    Vec<LibraryPlaylist>)
    ensures
        is_stable_sort(
            playlists@.filter(shows_playlist(needle_of(filter@), source@)),
            shown@,
            |p: LibraryPlaylist| playlist_rank(p),
        ),
{
    proof {
        reveal_strlit("");
        assert(""@ == Seq::<char>::empty());
    }
    let needle = filter_needle(filter);
    let ghost keep = shows_playlist(needle_of(filter@), source@);
    let ghost original = playlists@;
    let mut rest = playlists;
    let mut kept: Vec<LibraryPlaylist> = Vec::new();
    let mut keys: Vec<RankKey> = Vec::new();
    let mut taken: usize = 0;
    let total = rest.len();
    while rest.len() > 0
        invariant
            total == original.len(),
            taken + rest@.len() == total,
            rest@ == original.skip(taken as int),
            needle@ == needle_of(filter@),
            keep == shows_playlist(needle_of(filter@), source@),
            kept@ == original.take(taken as int).filter(keep),
            keys@.len() == kept@.len(),
            ""@ == Seq::<char>::empty(),
            forall|i: int|
                0 <= i < kept@.len() ==> #[trigger] keys@[i].rank_view() == playlist_rank(kept@[i]),
        decreases rest@.len(),
    {
        let playlist = rest.remove(0);
        proof {
            assert(original.skip(taken + 1) =~= original.skip(taken as int).remove(0));
            assert(original.take(taken + 1) =~= original.take(taken as int).push(playlist));
            original.take(taken as int).lemma_filter_push(playlist, keep);
        }
        let chars = crate::text::chars_of(needle.as_str());
        let matches = chars.len() == 0 || mentions_text(playlist.name.as_str(), &needle)
            || mentions_optional(&playlist.owner, &needle) || mentions_text(
            playlist.source_name.as_str(),
            &needle,
        );
        let wanted = matches && in_source(&playlist.id, source);
        proof {
            assert(keep(playlist) == wanted);
        }
        if wanted {
            let name = to_lowercase(playlist.name.as_str());
            keys.push(RankKey::new("", 0, name.as_str()));
            kept.push(playlist);
        }
        taken = taken + 1;
    }
    proof {
        assert(original.take(total as int) =~= original);
    }
    stable_sort(kept, keys, Ghost(|p: LibraryPlaylist| playlist_rank(p)))
}

/// The playlists the list shows are exactly the playlists that come from
/// the chosen source (any, when none is chosen) and whose lower-cased name,
/// owner or source name holds the trimmed, lower-cased filter text (any
/// playlist, when that text is empty); no playlist follows one whose
/// lower-cased name sorts after its own.
pub proof fn playlist_list_members(
    playlists: Seq<LibraryPlaylist>,
    filter: Seq<char>,
    source: Seq<char>,
    shown: Seq<LibraryPlaylist>,
)
    requires
        is_stable_sort(
            playlists.filter(shows_playlist(needle_of(filter), source)),
            shown,
            |p: LibraryPlaylist| playlist_rank(p),
        ),
    ensures
        forall|p: LibraryPlaylist| #[trigger]
            shown.contains(p) == (playlists.contains(p) && (source.len() == 0
                || p.id.provider_id.0@ == source) && (lowercase_of(trimmed(filter)).len() == 0
                || has_substring(lowercase_of(p.name@), lowercase_of(trimmed(filter)))
                || has_substring(lowercase_of(optional_text(p.owner)), lowercase_of(trimmed(filter)))
                || has_substring(lowercase_of(p.source_name@), lowercase_of(trimmed(filter))))),
        forall|i: int, j: int|
            0 <= i < j < shown.len() ==> !text_less(
                lowercase_of(#[trigger] shown[j].name@),
                lowercase_of(#[trigger] shown[i].name@),
            ),
{
    let keep = shows_playlist(needle_of(filter), source);
    let key_of = |p: LibraryPlaylist| playlist_rank(p);
    assert forall|p: LibraryPlaylist| #[trigger]
        shown.contains(p) == (playlists.contains(p) && keep(p)) by {
        sorted_keeps_items(playlists.filter(keep), shown, key_of, p);
        filtered_holds(playlists, keep, p);
    }
    sorted_in_key_order(playlists.filter(keep), shown, key_of);
    assert forall|i: int, j: int| 0 <= i < j < shown.len() implies !rank_less(
        playlist_rank(#[trigger] shown[j]),
        playlist_rank(#[trigger] shown[i]),
    ) by {
        assert(!rank_less(key_of(shown[j]), key_of(shown[i])));
    }
}

/// The state of the playlists screen: the playlists and their issues, the
/// tracks of the selected playlist, whether a request is under way, the
/// error to show, and the generations of its listing requests.
pub struct PlaylistsScreen {
    pub playlists: Vec<LibraryPlaylist>,
    pub playlist_tracks: Vec<LibraryTrack>,
    pub issues: Vec<ProviderIssue>,
    pub loading: bool,
    pub error: Option<String>,
    pub selected: Option<MediaId>,
    pub generations: RequestGenerations,
}

impl PlaylistsScreen {
    /// Nothing loaded, nothing selected, no request made.
    pub fn new() -> (screen: Self)
        ensures
            screen.playlists@.len() == 0,
            screen.playlist_tracks@.len() == 0,
            screen.issues@.len() == 0,
            !screen.loading,
            screen.error is None,
            screen.selected is None,
            screen.generations.latest() == 0,
    {
        PlaylistsScreen {
            playlists: Vec::new(),
            playlist_tracks: Vec::new(),
            issues: Vec::new(),
            loading: false,
            error: None,
            selected: None,
            generations: RequestGenerations::new(),
        }
    }

    /// The connected providers changed. Every change starts a new
    /// generation, so that an answer still under way is ignored. With no
    /// provider left the screen is emptied and no request is made
    /// (`None`); otherwise the screen is loading and the listing request of
    /// the returned generation is to be made.
    pub fn providers_changed(&mut self, any_provider: bool) -> (request: Option<u64>)
        ensures
            final(self).generations.latest() == following_generation(
                old(self).generations.latest(),
            ),
            final(self).selected == old(self).selected,
            final(self).error is None,
            !any_provider ==> request is None && final(self).playlists@.len() == 0
                && final(self).playlist_tracks@.len() == 0 && final(self).issues@.len() == 0
                && !final(self).loading,
            any_provider ==> request == Some(final(self).generations.latest()) && final(self).loading && final(self).playlists == old(self).playlists && final(self).playlist_tracks == old(self).playlist_tracks && final(self).issues == old(self).issues,
    {
        let generation = self.generations.start();
        self.error = None;
        if !any_provider {
            self.playlists = Vec::new();
            self.playlist_tracks = Vec::new();
            self.issues = Vec::new();
            self.loading = false;
            return None;
        }
        self.loading = true;
        Some(generation)
    }

    /// The answer to the listing request of `generation`. An answer to any
    /// request but the latest changes nothing. The latest one sets the
    /// playlists and issues, or on failure empties them and shows the error;
    /// either way loading ends.
    pub fn listing_arrived(
        &mut self,
        generation: u64,
        answer: Result<AggregateResponse<LibraryPlaylist>, String>,
    )
        ensures
            final(self).generations == old(self).generations,
            final(self).playlist_tracks == old(self).playlist_tracks,
            final(self).selected == old(self).selected,
            generation != old(self).generations.latest() ==> final(self).playlists == old(self).playlists && final(self).issues == old(self).issues && final(self).loading == old(self).loading && final(self).error == old(self).error,
            generation == old(self).generations.latest() ==> !final(self).loading && match answer {
                Ok(r) => final(self).playlists == r.items && final(self).issues == r.issues
                    && final(self).error == old(self).error,
                Err(m) => final(self).playlists@.len() == 0 && final(self).issues@.len() == 0
                    && final(self).error == Some(m),
            },
    {
        if !self.generations.is_current(generation) {
            return;
        }
        match answer {
            Ok(response) => {
                self.playlists = response.items;
                self.issues = response.issues;
            },
            Err(message) => {
                self.playlists = Vec::new();
                self.issues = Vec::new();
                self.error = Some(message);
            },
        }
        self.loading = false;
    }

    /// A playlist was chosen. While a request is under way nothing happens
    /// (`false`); otherwise it becomes the selected one, loading starts,
    /// the error is cleared, and its tracks are to be requested (`true`).
    pub fn select(&mut self, id: MediaId) -> (request: bool)
        ensures
            request == !old(self).loading,
            final(self).playlists == old(self).playlists,
            final(self).playlist_tracks == old(self).playlist_tracks,
            final(self).issues == old(self).issues,
            final(self).generations == old(self).generations,
            old(self).loading ==> final(self).loading && final(self).error == old(self).error
                && final(self).selected == old(self).selected,
            !old(self).loading ==> final(self).loading && final(self).error is None && final(self).selected == Some(id),
    {
        if self.loading {
            return false;
        }
        self.loading = true;
        self.error = None;
        self.selected = Some(id);
        true
    }

    /// The tracks of the selected playlist arrived, or their request
    /// failed; loading ends.
    pub fn tracks_arrived(&mut self, answer: Result<Vec<LibraryTrack>, String>)
        ensures
            !final(self).loading,
            final(self).playlists == old(self).playlists,
            final(self).issues == old(self).issues,
            final(self).selected == old(self).selected,
            final(self).generations == old(self).generations,
            match answer {
                Ok(tracks) => final(self).playlist_tracks == tracks && final(self).error == old(self).error,
                Err(m) => final(self).playlist_tracks == old(self).playlist_tracks && final(self).error == Some(m),
            },
    {
        match answer {
            Ok(tracks) => {
                self.playlist_tracks = tracks;
            },
            Err(message) => {
                self.error = Some(message);
            },
        }
        self.loading = false;
    }
}

// ---------------------------------------------------------------------------
// Search results
// ---------------------------------------------------------------------------

/// The text a search asks for: the query without surrounding whitespace,
/// or `None` (no search) when nothing else is left.
pub fn search_term(query: &str) -> (term: Option<String>)
    ensures
        is_blank(query@) ==> term is None,
        !is_blank(query@) ==> (term matches Some(t) && t@ == trimmed(query@)),
{
    let term = trim(query);
    proof {
        trimmed_empty_iff_blank(query@);
    }
    if crate::text::chars_of(term.as_str()).len() == 0 {
        None
    } else {
        Some(term)
    }
}

/// The tracks of the chosen source, as a filter.
pub open spec fn track_from(source: Seq<char>) -> spec_fn(LibraryTrack) -> bool {
    |t: LibraryTrack| from_source(t.id, source)
}

/// The search results shown for the chosen source (all of them when none
/// is chosen), in the order in which they came.
pub fn visible_tracks(tracks: Vec<LibraryTrack>, source: &str) -> (shown: Vec<LibraryTrack>)
    ensures
        shown@ == tracks@.filter(track_from(source@)),
{
    let ghost keep = track_from(source@);
    let ghost original = tracks@;
    let mut rest = tracks;
    let mut kept: Vec<LibraryTrack> = Vec::new();
    let mut taken: usize = 0;
    let total = rest.len();
    while rest.len() > 0
        invariant
            total == original.len(),
            taken + rest@.len() == total,
            rest@ == original.skip(taken as int),
            keep == track_from(source@),
            kept@ == original.take(taken as int).filter(keep),
        decreases rest@.len(),
    {
        let track = rest.remove(0);
        proof {
            assert(original.skip(taken + 1) =~= original.skip(taken as int).remove(0));
            assert(original.take(taken + 1) =~= original.take(taken as int).push(track));
            original.take(taken as int).lemma_filter_push(track, keep);
        }
        if in_source(&track.id, source) {
            kept.push(track);
        }
        taken = taken + 1;
    }
    proof {
        assert(original.take(total as int) =~= original);
    }
    kept
}

/// The search results shown are exactly the results that come from the
/// chosen source (all of them, when none is chosen).
pub proof fn search_results_members(tracks: Seq<LibraryTrack>, source: Seq<char>, shown: Seq<LibraryTrack>)
    requires
        shown == tracks.filter(track_from(source)),
    ensures
        forall|t: LibraryTrack| #[trigger]
            shown.contains(t) == (tracks.contains(t) && (source.len() == 0 || t.id.provider_id.0@
                == source)),
{
    assert forall|t: LibraryTrack| #[trigger]
        shown.contains(t) == (tracks.contains(t) && track_from(source)(t)) by {
        filtered_holds(tracks, track_from(source), t);
    }
}

// ---------------------------------------------------------------------------
// Favorites
// ---------------------------------------------------------------------------

/// Whether two media identities are the same: provider, kind and item.
pub fn same_media(a: &MediaId, b: &MediaId) -> (same: bool)
    ensures
        same == (id_order_view(*a) == id_order_view(*b)),
{
    a.provider_id.0 == b.provider_id.0 && a.kind.rank() == b.kind.rank() && a.item_id == b.item_id
}

/// An item of the library with a media identity.
pub trait Identified {
    /// The item's identity.
    spec fn identity(&self) -> MediaId;

    /// The item's identity.
    fn media_id(&self) -> (id: &MediaId)
        ensures
            *id == self.identity(),
    ;
}

impl Identified for LibraryArtist {
    open spec fn identity(&self) -> MediaId {
        self.id
    }

    fn media_id(&self) -> (id: &MediaId) {
        &self.id
    }
}

impl Identified for LibraryAlbum {
    open spec fn identity(&self) -> MediaId {
        self.id
    }

    fn media_id(&self) -> (id: &MediaId) {
        &self.id
    }
}

impl Identified for LibraryTrack {
    open spec fn identity(&self) -> MediaId {
        self.id
    }

    fn media_id(&self) -> (id: &MediaId) {
        &self.id
    }
}

/// Whether a list holds an item with the given identity.
pub open spec fn lists<T: Identified>(items: Seq<T>, id: IdOrderView) -> bool {
    exists|i: int| 0 <= i < items.len() && id_order_view(#[trigger] items[i].identity()) == id
}

/// The items whose identity is not the given one, as a filter.
pub open spec fn other_than<T: Identified>(id: IdOrderView) -> spec_fn(T) -> bool {
    |x: T| id_order_view(x.identity()) != id
}

fn holds_media<T: Identified>(items: &Vec<T>, id: &MediaId) -> (found: bool)
    ensures
        found == lists(items@, id_order_view(*id)),
{
    let mut i: usize = 0;
    while i < items.len()
        invariant
            i <= items@.len(),
            forall|k: int|
                0 <= k < i ==> id_order_view(#[trigger] items@[k].identity()) != id_order_view(*id),
        decreases items@.len() - i,
    {
        if same_media(items[i].media_id(), id) {
            return true;
        }
        i = i + 1;
    }
    false
}

fn without_media<T: Identified>(items: Vec<T>, id: &MediaId) -> (kept: Vec<T>)
    ensures
        kept@ == items@.filter(other_than::<T>(id_order_view(*id))),
{
    let ghost keep = other_than::<T>(id_order_view(*id));
    let ghost original = items@;
    let mut rest = items;
    let mut kept: Vec<T> = Vec::new();
    let mut taken: usize = 0;
    let total = rest.len();
    while rest.len() > 0
        invariant
            total == original.len(),
            taken + rest@.len() == total,
            rest@ == original.skip(taken as int),
            keep == other_than::<T>(id_order_view(*id)),
            kept@ == original.take(taken as int).filter(keep),
        decreases rest@.len(),
    {
        let item = rest.remove(0);
        proof {
            assert(original.skip(taken + 1) =~= original.skip(taken as int).remove(0));
            assert(original.take(taken + 1) =~= original.take(taken as int).push(item));
            original.take(taken as int).lemma_filter_push(item, keep);
        }
        if !same_media(item.media_id(), id) {
            kept.push(item);
        }
        taken = taken + 1;
    }
    proof {
        assert(original.take(total as int) =~= original);
    }
    kept
}

/// The list after an item is marked (`favorite`) or unmarked: every entry
/// with its identity leaves, and a marked item joins at the end.
pub open spec fn marked<T: Identified>(items: Seq<T>, item: T, favorite: bool) -> Seq<T> {
    let rest = items.filter(other_than::<T>(id_order_view(item.identity())));
    if favorite {
        rest.push(item)
    } else {
        rest
    }
}

fn mark<T: Identified>(items: Vec<T>, item: T, favorite: bool) -> (updated: Vec<T>)
    ensures
        updated@ == marked(items@, item, favorite),
{
    let mut kept = without_media(items, item.media_id());
    if favorite {
        kept.push(item);
    }
    kept
}

/// Marking reads back: afterwards the list holds the item's identity
/// exactly when it was marked, and holds it once at most.
pub proof fn marking_reads_back<T: Identified>(items: Seq<T>, item: T, favorite: bool)
    ensures
        lists(marked(items, item, favorite), id_order_view(item.identity())) == favorite,
        favorite ==> marked(items, item, favorite).last() == item,
{
    broadcast use vstd::seq_lib::group_filter_ensures;

    let id = id_order_view(item.identity());
    let rest = items.filter(other_than::<T>(id));
    assert forall|i: int| 0 <= i < rest.len() implies id_order_view(#[trigger] rest[i].identity())
        != id by {
        items.lemma_filter_pred(other_than::<T>(id), i);
    }
    if favorite {
        let out = rest.push(item);
        assert(id_order_view(out[rest.len() as int].identity()) == id);
    }
}

/// Unmarking keeps every other entry: an entry is in the list afterwards
/// exactly when it was before and has another identity than the item.
/// Marking gives that same list with the item joined at the end.
pub proof fn marking_keeps_other_entries<T: Identified>(items: Seq<T>, item: T, entry: T)
    ensures
        marked(items, item, false).contains(entry) == (items.contains(entry) && id_order_view(
            entry.identity(),
        ) != id_order_view(item.identity())),
        marked(items, item, true) == marked(items, item, false).push(item),
{
    filtered_holds(items, other_than::<T>(id_order_view(item.identity())), entry);
}

/// Unmarking goes entry by entry, keeping the order: unmarking a list made
/// of two parts unmarks each part and joins them, in the same order.
pub proof fn unmarking_keeps_order<T: Identified>(front: Seq<T>, back: Seq<T>, item: T)
    ensures
        marked(front + back, item, false) == marked(front, item, false) + marked(back, item, false),
{
    broadcast use vstd::seq_lib::group_filter_ensures;

    Seq::filter_distributes_over_add(front, back, other_than::<T>(id_order_view(item.identity())));
}

/// Unmarking a single entry drops it when it has the item's identity and
/// keeps it otherwise.
pub proof fn unmarking_one_entry<T: Identified>(entry: T, item: T)
    ensures
        marked(seq![entry], item, false) == (if id_order_view(entry.identity()) == id_order_view(
            item.identity(),
        ) {
            Seq::<T>::empty()
        } else {
            seq![entry]
        }),
{
    broadcast use vstd::seq_lib::group_filter_ensures;

    let keep = other_than::<T>(id_order_view(item.identity()));
    let none = Seq::<T>::empty();
    assert(none.filter(keep).len() == 0);
    assert(none.filter(keep) =~= none);
    assert(seq![entry] =~= none.push(entry));
    none.lemma_filter_push(entry, keep);
    assert(none.push(entry) =~= seq![entry]);
}

/// What is marked as a favorite, per kind, and the providers that could not
/// say.
pub struct FavoriteCollection {
    pub artists: Vec<LibraryArtist>,
    pub albums: Vec<LibraryAlbum>,
    pub tracks: Vec<LibraryTrack>,
    pub issues: Vec<ProviderIssue>,
    pub complete: bool,
}

/// Something that can be marked as a favorite.
pub enum FavoriteItem {
    Artist(LibraryArtist),
    Album(LibraryAlbum),
    Track(LibraryTrack),
}

impl FavoriteItem {
    /// The item's identity.
    pub open spec fn identity(&self) -> MediaId {
        match self {
            FavoriteItem::Artist(a) => a.id,
            FavoriteItem::Album(a) => a.id,
            FavoriteItem::Track(t) => t.id,
        }
    }

    /// The item's identity.
    pub fn id(&self) -> (id: &MediaId)
        ensures
            *id == self.identity(),
    {
        match self {
            FavoriteItem::Artist(a) => &a.id,
            FavoriteItem::Album(a) => &a.id,
            FavoriteItem::Track(t) => &t.id,
        }
    }
}

impl FavoriteCollection {
    /// Whether the item is marked: its list holds its identity.
    pub open spec fn holds(&self, item: FavoriteItem) -> bool {
        match item {
            FavoriteItem::Artist(a) => lists(self.artists@, id_order_view(a.id)),
            FavoriteItem::Album(a) => lists(self.albums@, id_order_view(a.id)),
            FavoriteItem::Track(t) => lists(self.tracks@, id_order_view(t.id)),
        }
    }

    /// An empty collection.
    pub fn new() -> (collection: Self)
        ensures
            collection.artists@.len() == 0,
            collection.albums@.len() == 0,
            collection.tracks@.len() == 0,
            collection.issues@.len() == 0,
            !collection.complete,
    {
        FavoriteCollection {
            artists: Vec::new(),
            albums: Vec::new(),
            tracks: Vec::new(),
            issues: Vec::new(),
            complete: false,
        }
    }

    /// Whether the item is marked as a favorite.
    pub fn is_favorite(&self, item: &FavoriteItem) -> (marked_now: bool)
        ensures
            marked_now == self.holds(*item),
    {
        match item {
            FavoriteItem::Artist(a) => holds_media(&self.artists, &a.id),
            FavoriteItem::Album(a) => holds_media(&self.albums, &a.id),
            FavoriteItem::Track(t) => holds_media(&self.tracks, &t.id),
        }
    }

    /// Marks (`favorite`) or unmarks an item: its list loses every entry
    /// with its identity and, when marked, gains the item at the end; the
    /// other lists stay as they are.
    pub fn set_favorite(&mut self, item: FavoriteItem, favorite: bool)
        ensures
            final(self).holds(item) == favorite,
            final(self).issues@ == old(self).issues@,
            final(self).complete == old(self).complete,
            match item {
                FavoriteItem::Artist(a) => final(self).artists@ == marked(
                    old(self).artists@,
                    a,
                    favorite,
                ) && final(self).albums@ == old(self).albums@ && final(self).tracks@ == old(self).tracks@,
                FavoriteItem::Album(a) => final(self).albums@ == marked(
                    old(self).albums@,
                    a,
                    favorite,
                ) && final(self).artists@ == old(self).artists@ && final(self).tracks@ == old(self).tracks@,
                FavoriteItem::Track(t) => final(self).tracks@ == marked(
                    old(self).tracks@,
                    t,
                    favorite,
                ) && final(self).artists@ == old(self).artists@ && final(self).albums@ == old(self).albums@,
            },
    {
        match item {
            FavoriteItem::Artist(a) => {
                let mut list = Vec::new();
                std::mem::swap(&mut list, &mut self.artists);
                proof {
                    marking_reads_back(list@, a, favorite);
                }
                self.artists = mark(list, a, favorite);
            },
            FavoriteItem::Album(a) => {
                let mut list = Vec::new();
                std::mem::swap(&mut list, &mut self.albums);
                proof {
                    marking_reads_back(list@, a, favorite);
                }
                self.albums = mark(list, a, favorite);
            },
            FavoriteItem::Track(t) => {
                let mut list = Vec::new();
                std::mem::swap(&mut list, &mut self.tracks);
                proof {
                    marking_reads_back(list@, t, favorite);
                }
                self.tracks = mark(list, t, favorite);
            },
        }
    }
}

/// A value that can be copied exactly.
pub trait Duplicate: Sized {
    /// An exact copy.
    fn duplicate(&self) -> (copy: Self)
        ensures
            copy == *self,
    ;
}

fn copy_text(text: &Option<String>) -> (copy: Option<String>)
    ensures
        copy == *text,
{
    match text {
        Some(t) => Some(t.clone()),
        None => None,
    }
}

fn copy_id(id: &MediaId) -> (copy: MediaId)
    ensures
        copy == *id,
{
    MediaId {
        provider_id: crate::model::ProviderId(id.provider_id.0.clone()),
        kind: id.kind,
        item_id: id.item_id.clone(),
    }
}

fn copy_optional_id(id: &Option<MediaId>) -> (copy: Option<MediaId>)
    ensures
        copy == *id,
{
    match id {
        Some(m) => Some(copy_id(m)),
        None => None,
    }
}

impl Duplicate for LibraryArtist {
    fn duplicate(&self) -> (copy: Self) {
        LibraryArtist {
            id: copy_id(&self.id),
            name: self.name.clone(),
            album_count: self.album_count,
            cover_art: copy_optional_id(&self.cover_art),
            source_name: self.source_name.clone(),
        }
    }
}

impl Duplicate for LibraryAlbum {
    fn duplicate(&self) -> (copy: Self) {
        LibraryAlbum {
            id: copy_id(&self.id),
            name: self.name.clone(),
            artist: copy_text(&self.artist),
            artist_id: copy_optional_id(&self.artist_id),
            cover_art: copy_optional_id(&self.cover_art),
            song_count: self.song_count,
            duration_seconds: self.duration_seconds,
            year: self.year,
            source_name: self.source_name.clone(),
        }
    }
}

impl Duplicate for LibraryTrack {
    fn duplicate(&self) -> (copy: Self) {
        LibraryTrack {
            id: copy_id(&self.id),
            title: self.title.clone(),
            artist: copy_text(&self.artist),
            artist_id: copy_optional_id(&self.artist_id),
            album: copy_text(&self.album),
            album_id: copy_optional_id(&self.album_id),
            cover_art: copy_optional_id(&self.cover_art),
            duration_seconds: self.duration_seconds,
            track_number: self.track_number,
            suffix: copy_text(&self.suffix),
            source_name: self.source_name.clone(),
        }
    }
}

impl Duplicate for ProviderIssue {
    fn duplicate(&self) -> (copy: Self) {
        ProviderIssue {
            provider_id: crate::model::ProviderId(self.provider_id.0.clone()),
            provider_name: self.provider_name.clone(),
            kind: self.kind,
            message: self.message.clone(),
            retryable: self.retryable,
        }
    }
}

fn duplicate_all<T: Duplicate>(items: &Vec<T>) -> (copy: Vec<T>)
    ensures
        copy@ == items@,
{
    let mut copy: Vec<T> = Vec::new();
    let mut i: usize = 0;
    while i < items.len()
        invariant
            i <= items@.len(),
            copy@ == items@.take(i as int),
        decreases items@.len() - i,
    {
        copy.push(items[i].duplicate());
        proof {
            assert(items@.take(i + 1) =~= items@.take(i as int).push(items@[i as int]));
        }
        i = i + 1;
    }
    assert(items@.take(items@.len() as int) =~= items@);
    copy
}

/// A favorite change shown at once and not yet confirmed: the collection as
/// it was before, and whether the item was marked or unmarked.
pub struct PendingFavorite {
    pub previous: FavoriteCollection,
    pub favorite: bool,
}

/// The collection after the item is marked or unmarked.
pub open spec fn toggled(before: FavoriteCollection, after: FavoriteCollection, item: FavoriteItem, favorite: bool) -> bool {
    &&& after.issues@ == before.issues@
    &&& after.complete == before.complete
    &&& match item {
        FavoriteItem::Artist(a) => after.artists@ == marked(before.artists@, a, favorite)
            && after.albums@ == before.albums@ && after.tracks@ == before.tracks@,
        FavoriteItem::Album(a) => after.albums@ == marked(before.albums@, a, favorite)
            && after.artists@ == before.artists@ && after.tracks@ == before.tracks@,
        FavoriteItem::Track(t) => after.tracks@ == marked(before.tracks@, t, favorite)
            && after.artists@ == before.artists@ && after.albums@ == before.albums@,
    }
}

impl FavoriteCollection {
    /// An exact copy of the collection.
    pub fn copy(&self) -> (copy: Self)
        ensures
            copy.artists@ == self.artists@,
            copy.albums@ == self.albums@,
            copy.tracks@ == self.tracks@,
            copy.issues@ == self.issues@,
            copy.complete == self.complete,
    {
        FavoriteCollection {
            artists: duplicate_all(&self.artists),
            albums: duplicate_all(&self.albums),
            tracks: duplicate_all(&self.tracks),
            issues: duplicate_all(&self.issues),
            complete: self.complete,
        }
    }

    /// The favorite button of an item was pressed. For a provider without
    /// favorites nothing changes and nothing is to be sent (`None`).
    /// Otherwise the item is unmarked if it was marked and marked if not,
    /// shown at once; the change is to be sent, and the collection as it
    /// was is kept to restore should the change fail.
    pub fn press(&mut self, item: FavoriteItem, supported: bool) -> (pending: Option<
        PendingFavorite,
    >)
        ensures
            !supported ==> pending is None && final(self).artists@ == old(self).artists@
                && final(self).albums@ == old(self).albums@ && final(self).tracks@ == old(
                self).tracks@ && final(self).issues@ == old(self).issues@ && final(self).complete
                == old(self).complete,
            supported ==> (pending matches Some(p) && p.favorite == !old(self).holds(item)
                && p.previous.artists@ == old(self).artists@ && p.previous.albums@ == old(
                self).albums@ && p.previous.tracks@ == old(self).tracks@
                && p.previous.issues@ == old(self).issues@ && p.previous.complete == old(
                self).complete && toggled(*old(self), *final(self), item, p.favorite)),
    {
        if !supported {
            return None;
        }
        let favorite = !self.is_favorite(&item);
        let previous = self.copy();
        self.set_favorite(item, favorite);
        Some(PendingFavorite { previous, favorite })
    }

    /// The server answered a pending change: kept when it succeeded,
    /// otherwise the collection as it was before is restored.
    pub fn settle(&mut self, pending: PendingFavorite, succeeded: bool)
        ensures
            succeeded ==> final(self).artists@ == old(self).artists@ && final(self).albums@ == old(
                self).albums@ && final(self).tracks@ == old(self).tracks@ && final(self).issues@
                == old(self).issues@ && final(self).complete == old(self).complete,
            !succeeded ==> final(self).artists@ == pending.previous.artists@ && final(self).albums@
                == pending.previous.albums@ && final(self).tracks@ == pending.previous.tracks@
                && final(self).issues@ == pending.previous.issues@ && final(self).complete
                == pending.previous.complete,
    {
        if !succeeded {
            let PendingFavorite { previous, favorite: _ } = pending;
            *self = previous;
        }
    }
}

} // verus!
