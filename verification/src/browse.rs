//! What the browsing screens compute: how many pages a list of albums fills,
//! how a duration is shown, and how the whole library is gathered page by
//! page from the library service.
use vstd::prelude::*;

use crate::library::{issue_view, IssueView};
use crate::model::{AggregateResponse, LibraryAlbum, ProviderIssue};
use crate::text::{join_text, decimal, decimal_text, push_char};

verus! {

/// Albums shown on one page of the album grid.
pub const ALBUMS_PER_PAGE: usize = 24;

/// Albums asked of the library service per request when the whole library
/// is loaded.
pub const LIBRARY_PAGE_SIZE: usize = 500;

/// The number of pages that `item_count` items fill at `page_size` items a
/// page; an empty list still shows one (empty) page.
pub fn page_count(item_count: usize, page_size: usize) -> (pages: usize)
    requires
        page_size > 0,
    ensures
        pages >= 1,
        pages * page_size >= item_count,
        pages == 1 || (pages - 1) * page_size < item_count,
{
    let full = item_count / page_size;
    let rest = item_count % page_size;
    proof {
        assert(item_count == full * page_size + rest && rest < page_size && full
            <= full * page_size && (full == 0 ==> item_count == rest)) by (nonlinear_arith)
            requires
                page_size > 0,
                full == item_count / page_size,
                rest == item_count % page_size,
        ;
    }
    let pages = if rest > 0 {
        full + 1
    } else {
        full
    };
    if pages == 0 {
        proof {
            assert(item_count == 0);
        }
        1
    } else {
        proof {
            assert(pages * page_size >= item_count && (pages - 1) * page_size < item_count)
                by (nonlinear_arith)
                requires
                    page_size > 0,
                    pages >= 1,
                    item_count == full * page_size + rest,
                    rest < page_size,
                    rest > 0 ==> pages == full + 1,
                    rest == 0 ==> pages == full,
            ;
        }
        pages
    }
}

/// Where page `page` of a grid of `len` items starts and ends, at
/// [`ALBUMS_PER_PAGE`] items a page: `min(24 * page, len)` and
/// `min(24 * page + 24, len)`.
pub open spec fn page_bounds(len: nat, page: nat) -> (nat, nat) {
    let start: nat = (ALBUMS_PER_PAGE * page) as nat;
    let end: nat = start + (ALBUMS_PER_PAGE as nat);
    (if start < len { start } else { len }, if end < len { end } else { len })
}

/// The bounds of page `page` in a list of `len` shown items.
pub fn page_window(len: usize, page: usize) -> (bounds: (usize, usize))
    ensures
        bounds.0 == page_bounds(len as nat, page as nat).0,
        bounds.1 == page_bounds(len as nat, page as nat).1,
{
    let full = len / ALBUMS_PER_PAGE;
    if page > full {
        proof {
            assert(ALBUMS_PER_PAGE * page >= len) by (nonlinear_arith)
                requires
                    page > full,
                    full == len / 24,
                    ALBUMS_PER_PAGE == 24,
            ;
        }
        (len, len)
    } else {
        proof {
            assert(ALBUMS_PER_PAGE * page <= len) by (nonlinear_arith)
                requires
                    page <= full,
                    full == len / 24,
                    ALBUMS_PER_PAGE == 24,
            ;
        }
        let start = ALBUMS_PER_PAGE * page;
        let end = if len - start > ALBUMS_PER_PAGE {
            start + ALBUMS_PER_PAGE
        } else {
            len
        };
        (start, end)
    }
}

/// A number below a hundred with at least two digits.
pub open spec fn two_digits(n: nat) -> Seq<char> {
    if n < 10 {
        seq!['0'] + decimal(n)
    } else {
        decimal(n)
    }
}

/// A number of seconds as minutes and seconds: `m:ss`.
pub open spec fn clock(seconds: nat) -> Seq<char> {
    decimal(seconds / 60) + seq![':'] + two_digits(seconds % 60)
}

/// Shows a number of seconds as minutes and seconds (`m:ss`).
pub fn clock_text(seconds: u64) -> (text: String)
    ensures
        text@ == clock(seconds as nat),
{
    let mut text = decimal_text(seconds / 60);
    push_char(&mut text, ':');
    let rest = seconds % 60;
    if rest < 10 {
        push_char(&mut text, '0');
    }
    let digits = decimal_text(rest);
    let joined = join_text(text.as_str(), digits.as_str());
    proof {
        assert(joined@ =~= clock(seconds as nat));
    }
    joined
}

/// Shows a track or album length: `m:ss`, or a dash when it is not known.
pub fn format_duration(seconds: Option<u64>) -> (text: String)
    ensures
        match seconds {
            Some(s) => text@ == clock(s as nat),
            None => text@ == seq!['—'],
        },
{
    match seconds {
        Some(s) => clock_text(s),
        None => {
            let mut text = String::new();
            push_char(&mut text, '—');
            proof {
                assert(text@ =~= seq!['—']);
            }
            text
        },
    }
}

/// The issues of several answers, each one kept once (an issue equal in
/// every field to an earlier one is dropped), in the order in which it was
/// first reported.
pub open spec fn merged_issues(known: Seq<IssueView>, reported: Seq<IssueView>) -> Seq<IssueView>
    decreases reported.len(),
{
    if reported.len() == 0 {
        known
    } else {
        let before = merged_issues(known, reported.drop_last());
        if before.contains(reported.last()) {
            before
        } else {
            before.push(reported.last())
        }
    }
}

/// The parts of each issue of a list.
pub open spec fn issue_views(issues: Seq<ProviderIssue>) -> Seq<IssueView> {
    issues.map_values(|i: ProviderIssue| issue_view(i))
}

/// Merging keeps every issue once: what was known and reported is all there,
/// nothing else is, and nothing occurs twice.
pub proof fn merged_issues_are_distinct(known: Seq<IssueView>, reported: Seq<IssueView>)
    requires
        known.no_duplicates(),
    ensures
        merged_issues(known, reported).no_duplicates(),
        forall|v: IssueView|
            #[trigger] merged_issues(known, reported).contains(v) <==> (known.contains(v)
                || reported.contains(v)),
    decreases reported.len(),
{
    if reported.len() > 0 {
        let rest = reported.drop_last();
        merged_issues_are_distinct(known, rest);
        assert forall|v: IssueView| reported.contains(v) <==> (rest.contains(v) || v
            == reported.last()) by {
            if reported.contains(v) {
                let k = choose|k: int| 0 <= k < reported.len() && reported[k] == v;
                if k < reported.len() - 1 {
                    assert(rest[k] == v);
                }
            }
            if rest.contains(v) {
                let k = choose|k: int| 0 <= k < rest.len() && rest[k] == v;
                assert(reported[k] == v);
            }
            if v == reported.last() {
                assert(reported[reported.len() - 1] == v);
            }
        }
        let before = merged_issues(known, rest);
        if !before.contains(reported.last()) {
            assert forall|v: IssueView| #[trigger] before.push(reported.last()).contains(v) <==> (
            before.contains(v) || v == reported.last()) by {
                if before.push(reported.last()).contains(v) {
                    let k = choose|k: int|
                        0 <= k < before.len() + 1 && before.push(reported.last())[k] == v;
                    if k < before.len() {
                        assert(before[k] == v);
                    }
                }
                if before.contains(v) {
                    let k = choose|k: int| 0 <= k < before.len() && before[k] == v;
                    assert(before.push(reported.last())[k] == v);
                }
                if v == reported.last() {
                    assert(before.push(reported.last())[before.len() as int] == v);
                }
            }
        }
    }
}

/// Whether two issues are equal in every field.
pub fn same_issue(a: &ProviderIssue, b: &ProviderIssue) -> (same: bool)
    ensures
        same == (issue_view(*a) == issue_view(*b)),
{
    a.provider_id.0 == b.provider_id.0 && a.provider_name == b.provider_name && a.kind == b.kind
        && a.message == b.message && a.retryable == b.retryable
}

/// Whether an issue is in a list already.
pub fn has_issue(issues: &Vec<ProviderIssue>, issue: &ProviderIssue) -> (found: bool)
    ensures
        found == issue_views(issues@).contains(issue_view(*issue)),
{
    let mut i: usize = 0;
    while i < issues.len()
        invariant
            i <= issues@.len(),
            forall|k: int| 0 <= k < i ==> issue_view(#[trigger] issues@[k]) != issue_view(*issue),
        decreases issues@.len() - i,
    {
        if same_issue(&issues[i], issue) {
            assert(issue_views(issues@)[i as int] == issue_view(*issue));
            return true;
        }
        i = i + 1;
    }
    assert forall|k: int| 0 <= k < issues@.len() implies issue_views(issues@)[k] != issue_view(
        *issue,
    ) by {
        assert(issue_views(issues@)[k] == issue_view(issues@[k]));
    }
    false
}

/// What the library screen has gathered so far: the albums of the pages
/// read, each issue once, and where the next page starts.
pub struct LibraryLoad {
    albums: Vec<LibraryAlbum>,
    issues: Vec<ProviderIssue>,
    offset: usize,
    finished: bool,
}

impl LibraryLoad {
    /// The albums gathered so far.
    pub closed spec fn albums(&self) -> Seq<LibraryAlbum> {
        self.albums@
    }

    /// The distinct issues gathered so far.
    pub closed spec fn issues(&self) -> Seq<IssueView> {
        issue_views(self.issues@)
    }

    /// Where the next page starts.
    pub closed spec fn offset(&self) -> nat {
        self.offset as nat
    }

    /// Whether the last page has been read.
    pub closed spec fn finished(&self) -> bool {
        self.finished
    }

    #[verifier::type_invariant]
    spec fn well_formed(&self) -> bool {
        issue_views(self.issues@).no_duplicates()
    }

    /// Nothing gathered yet; the first page starts at the beginning.
    pub fn new() -> (load: Self)
        ensures
            load.albums().len() == 0,
            load.issues().len() == 0,
            load.offset() == 0,
            !load.finished(),
    {
        let load = LibraryLoad { albums: Vec::new(), issues: Vec::new(), offset: 0, finished: false };
        proof {
            assert(issue_views(load.issues@) =~= Seq::<IssueView>::empty());
        }
        load
    }

    /// The offset of the page to ask for next, or `None` once the last page
    /// has been read.
    pub fn next_offset(&self) -> (offset: Option<usize>)
        ensures
            self.finished() ==> offset is None,
            !self.finished() ==> offset == Some(self.offset() as usize),
    {
        if self.finished {
            None
        } else {
            Some(self.offset)
        }
    }

    /// Takes in one page of the library: its albums are appended, its
    /// issues are added unless known, the next page starts after it, and a
    /// page shorter than [`LIBRARY_PAGE_SIZE`] is the last one.
    pub fn accept_page(&mut self, page: AggregateResponse<LibraryAlbum>)
        requires
            !old(self).finished(),
        ensures
            final(self).albums() == old(self).albums() + page.items@,
            final(self).issues() == merged_issues(old(self).issues(), issue_views(page.issues@)),
            final(self).offset() == if old(self).offset() + page.items@.len() <= usize::MAX {
                old(self).offset() + page.items@.len()
            } else {
                usize::MAX as nat
            },
            final(self).finished() == (page.items@.len() < LIBRARY_PAGE_SIZE),
    {
        proof {
            use_type_invariant(&*self);
        }
        let AggregateResponse { items, issues, complete: _ } = page;
        let count = items.len();
        let mut items = items;
        let mut albums = Vec::new();
        std::mem::swap(&mut albums, &mut self.albums);
        albums.append(&mut items);
        let mut known = Vec::new();
        std::mem::swap(&mut known, &mut self.issues);
        let ghost start = issue_views(known@);
        let mut i: usize = 0;
        while i < issues.len()
            invariant
                i <= issues@.len(),
                start.no_duplicates(),
                issue_views(known@) == merged_issues(start, issue_views(issues@).take(i as int)),
                issue_views(known@).no_duplicates(),
            decreases issues@.len() - i,
        {
            let issue = &issues[i];
            let ghost taken = issue_views(issues@).take(i as int);
            let ghost next = issue_views(issues@).take(i + 1);
            proof {
                assert(next.drop_last() =~= taken);
                assert(next.last() == issue_view(*issue));
            }
            if !has_issue(&known, issue) {
                let ghost before = issue_views(known@);
                known.push(issue.clone_issue());
                proof {
                    assert(issue_views(known@) =~= before.push(issue_view(*issue)));
                    merged_issues_are_distinct(start, next);
                }
            }
            i = i + 1;
        }
        proof {
            assert(issue_views(issues@).take(issues@.len() as int) =~= issue_views(issues@));
        }
        self.albums = albums;
        self.issues = known;
        self.offset = self.offset.saturating_add(count);
        self.finished = count < LIBRARY_PAGE_SIZE;
    }

    /// A page request failed: the screen shows no album and no issue (the
    /// error instead), and asks for no further page.
    pub fn fail(&mut self)
        ensures
            final(self).albums().len() == 0,
            final(self).issues().len() == 0,
            final(self).finished(),
    {
        proof {
            use_type_invariant(&*self);
            assert(issue_views(Seq::<ProviderIssue>::empty()) =~= Seq::<IssueView>::empty());
        }
        self.issues = Vec::new();
        self.albums = Vec::new();
        self.finished = true;
    }

    /// The albums and the distinct issues gathered.
    pub fn into_parts(self) -> (parts: (Vec<LibraryAlbum>, Vec<ProviderIssue>))
        ensures
            parts.0@ == self.albums(),
            issue_views(parts.1@) == self.issues(),
            issue_views(parts.1@).no_duplicates(),
    {
        proof {
            use_type_invariant(&self);
        }
        let LibraryLoad { albums, issues, offset: _, finished: _ } = self;
        (albums, issues)
    }
}

impl ProviderIssue {
    /// A copy of the issue.
    pub fn clone_issue(&self) -> (copy: ProviderIssue)
        ensures
            issue_view(copy) == issue_view(*self),
    {
        ProviderIssue {
            provider_id: crate::model::ProviderId(self.provider_id.0.clone()),
            provider_name: self.provider_name.clone(),
            kind: self.kind,
            message: self.message.clone(),
            retryable: self.retryable,
        }
    }
}

/// The generations of a screen's requests: each new request gets the next
/// generation, and only the answer to the latest one is shown, so that a
/// slow earlier answer cannot overwrite a newer one.
pub struct RequestGenerations {
    latest: u64,
}

/// The generation after `g`, wrapping round after the largest.
pub open spec fn following_generation(g: u64) -> u64 {
    if g == u64::MAX {
        0
    } else {
        (g + 1) as u64
    }
}

impl RequestGenerations {
    /// The generation of the latest request.
    pub closed spec fn latest(&self) -> u64 {
        self.latest
    }

    /// No request made yet.
    pub fn new() -> (generations: Self)
        ensures
            generations.latest() == 0,
    {
        RequestGenerations { latest: 0 }
    }

    /// Starts a request: it gets the next generation, which becomes the
    /// latest.
    pub fn start(&mut self) -> (generation: u64)
        ensures
            generation == following_generation(old(self).latest()),
            final(self).latest() == generation,
    {
        self.latest = self.latest.wrapping_add(1);
        self.latest
    }

    /// Whether an answer to the request of this generation is still wanted:
    /// no request was started after it.
    pub fn is_current(&self, generation: u64) -> (current: bool)
        ensures
            current == (generation == self.latest()),
    {
        generation == self.latest
    }
}

/// Starting a new request makes the answer to the one before it stale.
pub proof fn newer_request_discards_older(g: u64)
    ensures
        following_generation(g) != g,
{
}

} // verus!
