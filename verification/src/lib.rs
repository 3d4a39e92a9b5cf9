//! Windowed list pagination for a result browser.
//!
//! An ordered result list of length `N` is shown one fixed-size page at a
//! time. [`paging`] holds the page state (page size, current page) together
//! with the slice arithmetic and page navigation; [`selection`] holds the
//! globally selected index and the jump-to-index entry, including the parsing
//! of a manually typed index.

pub mod paging;
pub mod selection;
