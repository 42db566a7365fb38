//! The registry's base address and its paged listing: where a page is
//! requested, how many pages a listing has, and how many entries stand on each.

use vstd::prelude::*;
use vstd::string::StringExecFns;
use crate::text::{decimal, push_decimal};

verus! {

/// The page size of an ordinary run.
pub const PER_PAGE: u32 = 50;

/// The base address of the registry: the listing and the downloads both
/// stand under it.
pub open spec fn registry_base() -> Seq<char> {
    "https://extensions.typo3.org/api/v1"@
}

/// The registry's base address as a text.
pub fn registry_base_text() -> (base: &'static str)
    ensures
        base@ == registry_base(),
{
    "https://extensions.typo3.org/api/v1"
}

/// The address of page `page` of the listing, with `per_page` entries a page.
pub open spec fn page_url_of(page: nat, per_page: nat) -> Seq<char> {
    registry_base() + "/extension?page="@ + decimal(page) + "&per_page="@ + decimal(per_page)
}

/// Builds the address from which a page of the listing is requested.
pub fn page_url(page: u32, per_page: u32) -> (url: String)
    ensures
        url@ == page_url_of(page as nat, per_page as nat),
{
    let mut url = String::from_str(registry_base_text());
    url.append("/extension?page=");
    push_decimal(&mut url, page);
    url.append("&per_page=");
    push_decimal(&mut url, per_page);
    url
}

/// The number of pages that `total_results` entries fill at `per_page`
/// entries a page: the quotient, rounded up.
pub open spec fn page_count_of(total_results: nat, per_page: nat) -> nat
    recommends
        per_page > 0,
{
    if total_results % per_page == 0 {
        total_results / per_page
    } else {
        total_results / per_page + 1
    }
}

/// The page count is the least number of pages that hold all entries: the
/// pages hold at least `total_results`, and one page fewer would not.
pub proof fn lemma_page_count_is_ceiling(total_results: nat, per_page: nat)
    requires
        per_page > 0,
    ensures
        page_count_of(total_results, per_page) * per_page >= total_results,
        total_results > 0 ==> (page_count_of(total_results, per_page) - 1) * per_page
            < total_results,
        total_results == 0 ==> page_count_of(total_results, per_page) == 0,
{
    let q = total_results / per_page;
    let r = total_results % per_page;
    assert(total_results == q * per_page + r && 0 <= r < per_page) by (nonlinear_arith)
        requires
            per_page > 0,
            q == total_results / per_page,
            r == total_results % per_page,
    ;
    assert((q + 1) * per_page == q * per_page + per_page) by (nonlinear_arith);
    assert((q - 1) * per_page == q * per_page - per_page) by (nonlinear_arith);
    if total_results == 0 {
        assert(q == 0) by (nonlinear_arith)
            requires
                q * per_page + r == 0,
                per_page > 0,
                r >= 0,
                q >= 0,
        ;
    }
}

/// Derives the number of pages from the total that the first page reports.
pub fn page_count(total_results: u32, per_page: u32) -> (pages: u32)
    requires
        per_page > 0,
    ensures
        pages == page_count_of(total_results as nat, per_page as nat),
{
    let full = total_results / per_page;
    if total_results % per_page == 0 {
        full
    } else {
        assert(full < u32::MAX) by (nonlinear_arith)
            requires
                full == total_results as int / per_page as int,
                total_results as int % per_page as int != 0,
                per_page > 0,
                total_results <= u32::MAX,
        ;
        full + 1
    }
}

/// The number of entries on page `page`, counted from 1: `per_page` on every
/// page but the last, the rest on the last, none behind it.
pub open spec fn page_len_of(total_results: nat, per_page: nat, page: nat) -> nat {
    if page == 0 || (page - 1) * per_page >= total_results {
        0
    } else if page * per_page <= total_results {
        per_page
    } else {
        (total_results - (page - 1) * per_page) as nat
    }
}

/// The number of entries that stand on page `page` of a listing.
pub fn page_len(total_results: u32, per_page: u32, page: u32) -> (len: u32)
    ensures
        len == page_len_of(total_results as nat, per_page as nat, page as nat),
{
    if page == 0 {
        return 0;
    }
    assert((page - 1) * per_page <= 0xffff_ffff * 0xffff_ffff) by (nonlinear_arith)
        requires
            0 < page <= 0xffff_ffff,
            per_page <= 0xffff_ffff,
    ;
    let before: u64 = (page as u64 - 1) * (per_page as u64);
    if before >= total_results as u64 {
        0
    } else if before + per_page as u64 <= total_results as u64 {
        assert(page * per_page == (page - 1) * per_page + per_page) by (nonlinear_arith);
        per_page
    } else {
        assert(page * per_page == (page - 1) * per_page + per_page) by (nonlinear_arith);
        (total_results as u64 - before) as u32
    }
}

/// The number of entries on the first `pages` pages together.
pub open spec fn entries_through(total_results: nat, per_page: nat, pages: nat) -> nat
    decreases pages,
{
    if pages == 0 {
        0
    } else {
        entries_through(total_results, per_page, (pages - 1) as nat) + page_len_of(
            total_results,
            per_page,
            pages,
        )
    }
}

/// The first `pages` pages hold `pages * per_page` entries, or all of them
/// where the listing has fewer.
pub proof fn lemma_entries_through(total_results: nat, per_page: nat, pages: nat)
    ensures
        entries_through(total_results, per_page, pages) == if pages * per_page <= total_results {
            pages * per_page
        } else {
            total_results
        },
    decreases pages,
{
    if pages > 0 {
        lemma_entries_through(total_results, per_page, (pages - 1) as nat);
        assert(pages * per_page == (pages - 1) * per_page + per_page) by (nonlinear_arith);
        assert((pages - 1) * per_page >= 0) by (nonlinear_arith)
            requires
                pages >= 1,
        ;
    } else {
        assert(pages * per_page == 0) by (nonlinear_arith)
            requires
                pages == 0,
        ;
    }
}

/// The pages of a listing hold all its entries between them, each entry
/// once; every page but the last is full and the last is not empty.
pub proof fn lemma_pages_partition_the_listing(total_results: nat, per_page: nat)
    requires
        per_page > 0,
    ensures
        entries_through(total_results, per_page, page_count_of(total_results, per_page))
            == total_results,
        forall|page: nat|
            1 <= page < page_count_of(total_results, per_page) ==> #[trigger] page_len_of(
                total_results,
                per_page,
                page,
            ) == per_page,
        page_count_of(total_results, per_page) > 0 ==> 0 < page_len_of(
            total_results,
            per_page,
            page_count_of(total_results, per_page),
        ) <= per_page,
{
    let pages = page_count_of(total_results, per_page);
    lemma_page_count_is_ceiling(total_results, per_page);
    lemma_entries_through(total_results, per_page, pages);
    assert forall|page: nat| 1 <= page < pages implies #[trigger] page_len_of(
        total_results,
        per_page,
        page,
    ) == per_page by {
        assert(page * per_page <= (pages - 1) * per_page) by (nonlinear_arith)
            requires
                page <= pages - 1,
                per_page > 0,
        ;
        assert((page - 1) * per_page < page * per_page) by (nonlinear_arith)
            requires
                per_page > 0,
        ;
    }
    if pages > 0 {
        assert(pages * per_page == (pages - 1) * per_page + per_page) by (nonlinear_arith);
    }
}

} // verus!
