//! Page state and slice arithmetic for a windowed result list.

use vstd::prelude::*;
use vstd::arithmetic::div_mod::lemma_basic_div;
use vstd::arithmetic::div_mod::lemma_div_nonincreasing;
use vstd::arithmetic::div_mod::lemma_div_plus_one;
use vstd::arithmetic::div_mod::lemma_remainder;
use vstd::arithmetic::mul::lemma_mul_inequality;
use vstd::arithmetic::mul::lemma_mul_is_distributive_add_other_way;
use vstd::arithmetic::mul::lemma_mul_nonnegative;

verus! {

/// First index of the visible window over a list of `n` records:
/// `current_page * page_size`, clamped to `n` so that a page past the end of
/// the list yields an empty window rather than an invalid range.
pub open spec fn page_start(n: int, page_size: int, current_page: int) -> int {
    if current_page * page_size <= n {
        current_page * page_size
    } else {
        n
    }
}

/// One past the last index of the visible window: the start plus one full
/// page, clamped to `n`.
pub open spec fn page_end(n: int, page_size: int, current_page: int) -> int {
    if page_start(n, page_size, current_page) + page_size <= n {
        page_start(n, page_size, current_page) + page_size
    } else {
        n
    }
}

/// How many pages a list of `n` records fills at `page_size` records per
/// page: ceiling division, with 0 pages for an empty list.
pub open spec fn num_pages(n: int, page_size: int) -> int {
    (n + page_size - 1) / page_size
}

/// A page size derived from the viewport height can come out as 0 rows; it
/// is clamped to at least 1 so that page arithmetic never divides by zero.
pub open spec fn clamped_page_size(raw: int) -> int {
    if raw >= 1 {
        raw
    } else {
        1
    }
}

/// Pagination state for one result list: how many records fit on a page,
/// and which page is currently shown.
#[derive(Clone, Copy, Debug, PartialEq, Eq)]
pub struct PageState {
    /// Records per page; always at least 1.
    pub page_size: usize,
    /// Zero-based index of the page being shown.
    pub current_page: usize,
}

impl PageState {
    /// Well-formedness: a page holds at least one record.
    pub open spec fn wf(self) -> bool {
        self.page_size >= 1
    }

    /// Fresh state on page 0. The raw page size (typically the number of
    /// rows that fit in the viewport) is clamped to at least 1.
    pub fn new(raw_page_size: usize) -> (s: PageState)
        ensures
            s.wf(),
            s.page_size == clamped_page_size(raw_page_size as int),
            s.current_page == 0,
    {
        PageState {
            page_size: if raw_page_size >= 1 {
                raw_page_size
            } else {
                1
            },
            current_page: 0,
        }
    }

    /// Bounds `[start, end)` of the visible window into a list of `n`
    /// records. The window is always a valid range: `start <= end <= n`.
    pub fn slice_bounds(&self, n: usize) -> (r: (usize, usize))
        requires
            self.wf(),
        ensures
            r.0 == page_start(n as int, self.page_size as int, self.current_page as int),
            r.1 == page_end(n as int, self.page_size as int, self.current_page as int),
            r.0 <= r.1 <= n,
    {
        let start: usize = match self.current_page.checked_mul(self.page_size) {
            Some(raw_start) => if raw_start <= n {
                raw_start
            } else {
                n
            },
            None => n,
        };
        let end: usize = if n - start >= self.page_size {
            start + self.page_size
        } else {
            n
        };
        (start, end)
    }

    /// The records to display: the sub-list `[start, end)` of the results,
    /// as given by `slice_bounds` for a list of their number.
    pub fn visible_window<'a, T>(&self, results: &'a [T]) -> (r: &'a [T])
        requires
            self.wf(),
        ensures
            r@ == results@.subrange(
                page_start(results@.len() as int, self.page_size as int, self.current_page as int),
                page_end(results@.len() as int, self.page_size as int, self.current_page as int),
            ),
    {
        let bounds: (usize, usize) = self.slice_bounds(results.len());
        &results[bounds.0..bounds.1]
    }

    /// Total number of pages for `n` records: ceiling division, 0 for an
    /// empty list.
    pub fn page_count(&self, n: usize) -> (r: usize)
        requires
            self.wf(),
        ensures
            r == num_pages(n as int, self.page_size as int),
    {
        let p: usize = self.page_size;
        if n == 0 {
            proof {
                lemma_basic_div(p as int - 1, p as int);
            }
            0
        } else {
            proof {
                lemma_div_plus_one(n as int - 1, p as int);
                lemma_div_nonincreasing(n as int - 1, p as int);
            }
            (n - 1) / p + 1
        }
    }

    /// Advance one page, unless the current window already reaches the end
    /// of the list: at the last page (and beyond) this is a no-op.
    pub fn next_page(&mut self, n: usize)
        requires
            old(self).wf(),
        ensures
            final(self).wf(),
            final(self).page_size == old(self).page_size,
            page_end(n as int, old(self).page_size as int, old(self).current_page as int) < n
                ==> final(self).current_page == old(self).current_page + 1,
            page_end(n as int, old(self).page_size as int, old(self).current_page as int) >= n
                ==> *final(self) == *old(self),
    {
        let bounds: (usize, usize) = self.slice_bounds(n);
        if bounds.1 < n {
            proof {
                lemma_mul_inequality(
                    1,
                    self.page_size as int,
                    self.current_page as int,
                );
            }
            self.current_page = self.current_page + 1;
        }
    }

    /// Go back one page; at page 0 this is a no-op.
    pub fn previous_page(&mut self)
        requires
            old(self).wf(),
        ensures
            final(self).wf(),
            final(self).page_size == old(self).page_size,
            old(self).current_page > 0
                ==> final(self).current_page == old(self).current_page - 1,
            old(self).current_page == 0 ==> *final(self) == *old(self),
    {
        if self.current_page > 0 {
            self.current_page = self.current_page - 1;
        }
    }
}

/// Slicing is always well-formed: for every list length `n >= 0`, page size
/// `page_size >= 1` and page `current_page >= 0`, the visible window
/// satisfies `0 <= start <= end <= n`.
pub proof fn lemma_slice_in_range(n: int, page_size: int, current_page: int)
    requires
        n >= 0,
        page_size >= 1,
        current_page >= 0,
    ensures
        0 <= page_start(n, page_size, current_page),
        page_start(n, page_size, current_page) <= page_end(n, page_size, current_page),
        page_end(n, page_size, current_page) <= n,
{
    lemma_mul_nonnegative(current_page, page_size);
}

/// A valid index is visible on its own page: for `0 <= i < n`, the window
/// of page `i / page_size` contains `i`. The raw bounds
/// `(i / page_size) * page_size <= i < (i / page_size + 1) * page_size`
/// hold as well, so the selection and the page agree.
pub proof fn lemma_selected_index_visible(n: int, page_size: int, i: int)
    requires
        page_size >= 1,
        0 <= i < n,
    ensures
        (i / page_size) * page_size <= i,
        i < (i / page_size + 1) * page_size,
        page_start(n, page_size, i / page_size) <= i,
        i < page_end(n, page_size, i / page_size),
{
    lemma_remainder(i, page_size);
    lemma_mul_is_distributive_add_other_way(page_size, i / page_size, 1);
}

/// On the last page (and on any page past it) the visible window already
/// reaches the end of the list, so `next_page` keeps the state unchanged.
pub proof fn lemma_last_page_reaches_end(n: int, page_size: int, current_page: int)
    requires
        n >= 0,
        page_size >= 1,
        current_page + 1 >= num_pages(n, page_size),
    ensures
        page_end(n, page_size, current_page) == n,
{
    let q: int = num_pages(n, page_size);
    lemma_remainder(n + page_size - 1, page_size);
    assert(q * page_size >= n);
    if current_page * page_size <= n {
        lemma_mul_inequality(q, current_page + 1, page_size);
        lemma_mul_is_distributive_add_other_way(page_size, current_page, 1);
    }
}

} // verus!
