//! Collecting a provider's album list page by page.
//!
//! A provider is asked for successive pages of at most five hundred albums
//! (the API's maximum) until the requested number is reached, a page comes
//! back empty, or a page adds no album that was not already collected (some
//! servers ignore the offset and repeat the first page).

use vstd::prelude::*;

use crate::model::Album;

verus! {

/// The largest number of albums one listing collects.
pub const MAX_ALBUMS: u32 = 500;

/// The number of albums asked for with each page.
pub const PAGE_SIZE: u32 = 500;

/// The identifiers of a sequence of albums, in order.
pub open spec fn album_ids(albums: Seq<Album>) -> Seq<Seq<char>> {
    albums.map_values(|a: Album| a.id@)
}

/// Whether some album of the sequence has the given identifier.
pub open spec fn has_album_id(albums: Seq<Album>, id: Seq<char>) -> bool {
    exists|i: int| 0 <= i < albums.len() && #[trigger] albums[i].id@ == id
}

/// Whether no two albums of the sequence share an identifier.
pub open spec fn ids_distinct(albums: Seq<Album>) -> bool {
    forall|i: int, j: int|
        0 <= i < j < albums.len() ==> #[trigger] albums[i].id@ != #[trigger] albums[j].id@
}

/// The collected albums after a page is taken in: each album of the page,
/// in page order, is appended unless an album with its identifier is already
/// there.
pub open spec fn merge_page(collected: Seq<Album>, page: Seq<Album>) -> Seq<Album>
    decreases page.len(),
{
    if page.len() == 0 {
        collected
    } else {
        let before = merge_page(collected, page.drop_last());
        if has_album_id(before, page.last().id@) {
            before
        } else {
            before.push(page.last())
        }
    }
}

/// The page size to ask for: five hundred, or fewer when fewer are missing.
pub open spec fn request_size_for(target: u32, collected: nat) -> u32 {
    let missing: int = if (collected as u32) < target {
        target - (collected as u32)
    } else {
        0
    };
    if missing < PAGE_SIZE {
        missing as u32
    } else {
        PAGE_SIZE
    }
}

/// One page to fetch: its size and its offset in the provider's list.
#[derive(Clone, Copy, Debug, PartialEq, Eq, Structural)]
pub struct PageRequest {
    pub size: u32,
    pub offset: u32,
}

/// The state of an album listing that is being collected.
pub struct AlbumPager {
    target: u32,
    collected: Vec<Album>,
    page_offset: u32,
    finished: bool,
}

impl AlbumPager {
    /// The number of albums the listing stops at.
    pub closed spec fn target(&self) -> u32 {
        self.target
    }

    /// The albums collected so far, in the order they arrived.
    pub closed spec fn collected(&self) -> Seq<Album> {
        self.collected@
    }

    /// The offset of the next page in the provider's list.
    pub closed spec fn page_offset(&self) -> u32 {
        self.page_offset
    }

    /// Whether a page came back empty or added nothing new.
    pub closed spec fn finished(&self) -> bool {
        self.finished
    }

    /// The page that is asked for next, if any.
    pub open spec fn pending(&self) -> Option<PageRequest> {
        if !self.finished() && (self.collected().len() as u32) < self.target() {
            Some(
                PageRequest {
                    size: request_size_for(self.target(), self.collected().len()),
                    offset: self.page_offset(),
                },
            )
        } else {
            None
        }
    }

    #[verifier::type_invariant]
    closed spec fn inv(self) -> bool {
        ids_distinct(self.collected@)
    }

    /// A listing of at most `limit` albums (and never more than five
    /// hundred) that starts at `offset` in the provider's list.
    pub fn new(limit: u32, offset: u32) -> (pager: Self)
        ensures
            pager.target() == (if limit < MAX_ALBUMS { limit } else { MAX_ALBUMS }),
            pager.collected() == Seq::<Album>::empty(),
            pager.page_offset() == offset,
            !pager.finished(),
    {
        let target = if limit < MAX_ALBUMS {
            limit
        } else {
            MAX_ALBUMS
        };
        AlbumPager { target, collected: Vec::new(), page_offset: offset, finished: false }
    }

    /// The page to fetch next, or `None` when the listing is complete.
    pub fn next_request(&self) -> (request: Option<PageRequest>)
        ensures
            request == self.pending(),
    {
        if self.finished || (self.collected.len() as u32) >= self.target {
            return None;
        }
        let have = self.collected.len() as u32;
        let missing = self.target.saturating_sub(have);
        let size = if missing < PAGE_SIZE {
            missing
        } else {
            PAGE_SIZE
        };
        Some(PageRequest { size, offset: self.page_offset })
    }

    fn contains_id(collected: &Vec<Album>, id: &String) -> (found: bool)
        ensures
            found == has_album_id(collected@, id@),
    {
        let mut i: usize = 0;
        while i < collected.len()
            invariant
                i <= collected.len(),
                forall|k: int| 0 <= k < i ==> #[trigger] collected@[k].id@ != id@,
            decreases collected.len() - i,
        {
            if collected[i].id == *id {
                return true;
            }
            i = i + 1;
        }
        false
    }

    /// Takes in the page that `next_request` asked for. An empty page, or one
    /// that adds no new album, finishes the listing; otherwise the next page
    /// starts where this request ended.
    pub fn accept_page(&mut self, page: Vec<Album>)
        requires
            old(self).pending() is Some,
        ensures
            final(self).target() == old(self).target(),
            final(self).collected() == merge_page(old(self).collected(), page@),
            ids_distinct(final(self).collected()),
            page@.len() == 0 ==> final(self).finished() && final(self).page_offset() == old(
                self,
            ).page_offset(),
            page@.len() > 0 && final(self).collected().len() == old(self).collected().len()
                ==> final(self).finished() && final(self).page_offset() == old(
                self,
            ).page_offset(),
            page@.len() > 0 && final(self).collected().len() > old(self).collected().len()
                ==> !final(self).finished() && final(self).page_offset() as int == {
                let sum = old(self).page_offset() + old(self).pending()->0.size;
                if sum > u32::MAX {
                    u32::MAX as int
                } else {
                    sum
                }
            },
    {
        proof {
            use_type_invariant(&*self);
        }
        let request_size = match self.next_request() {
            Some(request) => request.size,
            None => 0,
        };
        if page.len() == 0 {
            self.finished = true;
            assert(page@ =~= Seq::<Album>::empty());
            return;
        }
        let ghost original = page@;
        let ghost before = self.collected@;
        let mut remaining = page;
        let mut collected = Vec::new();
        std::mem::swap(&mut collected, &mut self.collected);
        let mut added: usize = 0;
        let mut taken: usize = 0;
        let total = remaining.len();
        while remaining.len() > 0
            invariant
                total == original.len(),
                taken + remaining@.len() == total,
                added <= taken,
                remaining@ == original.skip(taken as int),
                collected@ == merge_page(before, original.take(taken as int)),
                ids_distinct(collected@),
                collected@.len() == before.len() + added,
            decreases remaining@.len(),
        {
            let album = remaining.remove(0);
            proof {
                assert(original.take(taken + 1).drop_last() =~= original.take(taken as int));
                assert(original.take(taken + 1).last() == album);
                assert(original.skip(taken + 1) =~= original.skip(taken as int).remove(0));
            }
            if !Self::contains_id(&collected, &album.id) {
                collected.push(album);
                added = added + 1;
            }
            taken = taken + 1;
        }
        assert(original.take(taken as int) =~= original);
        self.collected = collected;
        if added == 0 {
            self.finished = true;
        } else {
            self.page_offset = self.page_offset.saturating_add(request_size);
        }
    }

    /// The collected albums, at most the target number of them.
    pub fn into_albums(self) -> (albums: Vec<Album>)
        ensures
            albums@ == (if self.collected().len() <= self.target() {
                self.collected()
            } else {
                self.collected().take(self.target() as int)
            }),
            albums@.len() <= self.target(),
            ids_distinct(albums@),
    {
        proof {
            use_type_invariant(&self);
        }
        let target = self.target;
        let mut collected = self.collected;
        collected.truncate(target as usize);
        proof {
            if collected@.len() < self.collected@.len() {
                assert(collected@ =~= self.collected@.take(target as int));
            }
        }
        collected
    }
}

} // verus!
