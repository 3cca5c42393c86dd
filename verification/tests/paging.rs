use resonance::model::Album;
use resonance::paging::{AlbumPager, PageRequest, MAX_ALBUMS, PAGE_SIZE};

fn album(id: usize) -> Album {
    Album {
        id: id.to_string(),
        name: format!("Album {id}"),
        artist: None,
        artist_id: None,
        cover_art: None,
        song_count: None,
        duration_seconds: None,
        year: None,
    }
}

#[test]
fn album_discovery_asks_for_five_hundred_per_page() {
    assert_eq!(PAGE_SIZE, 500);
    let mut pager = AlbumPager::new(500, 0);
    assert_eq!(pager.next_request(), Some(PageRequest { size: 500, offset: 0 }));
    pager.accept_page((0..500).map(album).collect());
    assert_eq!(pager.next_request(), None);
    assert_eq!(pager.into_albums().len(), 500);
}

#[test]
fn listings_stop_at_the_limit_and_skip_repeats() {
    let mut pager = AlbumPager::new(9000, 10);
    assert_eq!(pager.next_request(), Some(PageRequest { size: MAX_ALBUMS, offset: 10 }));
    pager.accept_page((0..3).map(album).collect());
    assert_eq!(pager.next_request(), Some(PageRequest { size: 497, offset: 510 }));
    // A server that ignores the offset repeats the first page: nothing new.
    pager.accept_page((0..3).map(album).collect());
    assert_eq!(pager.next_request(), None);
    let ids: Vec<String> = pager.into_albums().into_iter().map(|a| a.id).collect();
    assert_eq!(ids, vec!["0", "1", "2"]);

    let mut small = AlbumPager::new(2, 0);
    assert_eq!(small.next_request(), Some(PageRequest { size: 2, offset: 0 }));
    small.accept_page(vec![album(1), album(1), album(2)]);
    assert_eq!(small.next_request(), None);
    assert_eq!(small.into_albums().len(), 2);

    let mut empty = AlbumPager::new(5, 0);
    empty.accept_page(vec![]);
    assert_eq!(empty.next_request(), None);
}
