//! The selected record and the jump-to-index entry.

use vstd::prelude::*;
use crate::paging::PageState;
use crate::paging::page_start;
use crate::paging::page_end;
use crate::paging::lemma_selected_index_visible;

verus! {

/// The globally selected record, if any, as an index into the result list.
#[derive(Clone, Copy, Debug, PartialEq, Eq)]
pub struct SelectionState {
    /// Index of the selected record, or `None` when nothing is selected.
    pub current_index: Option<usize>,
}

impl SelectionState {
    /// Fresh state with nothing selected.
    pub fn new() -> (s: SelectionState)
        ensures
            s.current_index is None,
    {
        SelectionState { current_index: None }
    }
}

/// Selection and pagination agree: the selected index, when present, lies in
/// the page interval `[current_page * page_size, (current_page + 1) * page_size)`.
pub open spec fn in_sync(page: PageState, sel: SelectionState) -> bool {
    match sel.current_index {
        Some(i) => page.current_page * page.page_size <= i
            && i < (page.current_page + 1) * page.page_size,
        None => true,
    }
}

/// Jump to record `i` of a list of `n` records: select it and switch to the
/// page that shows it, so the selected record is inside the visible window.
/// An out-of-range index is ignored silently; both states stay unchanged.
pub fn goto_index(page: &mut PageState, sel: &mut SelectionState, i: usize, n: usize)
    requires
        old(page).wf(),
    ensures
        final(page).wf(),
        final(page).page_size == old(page).page_size,
        i < n ==> final(page).current_page == i as int / old(page).page_size as int
            && final(sel).current_index == Some(i)
            && page_start(n as int, old(page).page_size as int, final(page).current_page as int)
                <= i
            && i < page_end(n as int, old(page).page_size as int, final(page).current_page as int)
            && in_sync(*final(page), *final(sel)),
        i >= n ==> *final(page) == *old(page) && *final(sel) == *old(sel),
{
    if i < n {
        sel.current_index = Some(i);
        page.current_page = i / page.page_size;
        proof {
            lemma_selected_index_visible(n as int, page.page_size as int, i as int);
        }
    }
}

/// One byte of entered text is an ASCII decimal digit.
pub open spec fn is_ascii_digit(b: u8) -> bool {
    48 <= b <= 57
}

/// The entered text is a well-formed number: non-empty, decimal digits only.
pub open spec fn all_digits(s: Seq<u8>) -> bool {
    s.len() > 0 && forall|k: int| 0 <= k < s.len() ==> is_ascii_digit(#[trigger] s[k])
}

/// Value of the text read as a decimal number, most significant digit first.
pub open spec fn decimal_value(s: Seq<u8>) -> int
    decreases s.len(),
{
    if s.len() == 0 {
        0
    } else {
        decimal_value(s.drop_last()) * 10 + (s.last() - 48)
    }
}

/// What a typed index means: its decimal value, or nothing when the text is
/// empty, holds a non-digit, or names a number too large for `usize`.
pub open spec fn parsed_index(s: Seq<u8>) -> Option<int> {
    if all_digits(s) && decimal_value(s) <= usize::MAX {
        Some(decimal_value(s))
    } else {
        None
    }
}

/// Reading further digits never decreases the value of the number read so
/// far.
proof fn lemma_decimal_value_extend(t: Seq<u8>, m: int)
    requires
        0 <= m <= t.len(),
        decimal_value(t.subrange(0, m)) >= 0,
        forall|k: int| m <= k < t.len() ==> is_ascii_digit(#[trigger] t[k]),
    ensures
        decimal_value(t) >= decimal_value(t.subrange(0, m)),
    decreases t.len() - m,
{
    if m < t.len() {
        let w = t.subrange(0, m);
        let w1 = t.subrange(0, m + 1);
        assert(w1.drop_last() =~= w);
        assert(w1.last() == t[m]);
        lemma_decimal_value_extend(t, m + 1);
    } else {
        assert(t.subrange(0, m) =~= t);
    }
}

/// Parse manually entered index text, given as bytes: the result is `Some`
/// exactly when the text is a non-empty string of decimal digits whose value
/// fits in `usize`, and then carries that value.
pub fn parse_index(s: &[u8]) -> (r: Option<usize>)
    ensures
        match r {
            Some(v) => parsed_index(s@) == Some(v as int),
            None => parsed_index(s@) is None,
        },
{
    if s.len() == 0 {
        return None;
    }
    let mut acc: usize = 0;
    let mut idx: usize = 0;
    while idx < s.len()
        invariant
            0 <= idx <= s@.len(),
            s@.len() > 0,
            forall|k: int| 0 <= k < idx ==> is_ascii_digit(#[trigger] s@[k]),
            acc == decimal_value(s@.subrange(0, idx as int)),
        decreases s@.len() - idx,
    {
        let b: u8 = s[idx];
        if b < 48 || b > 57 {
            return None;
        }
        let d: usize = (b - 48) as usize;
        proof {
            assert(s@.subrange(0, idx as int + 1).drop_last() =~= s@.subrange(0, idx as int));
            assert(s@.subrange(0, idx as int + 1).last() == s@[idx as int]);
        }
        let shifted: usize = match acc.checked_mul(10) {
            Some(t) => t,
            None => {
                proof {
                    if all_digits(s@) {
                        lemma_decimal_value_extend(s@, idx as int + 1);
                    }
                }
                return None;
            },
        };
        let next: usize = match shifted.checked_add(d) {
            Some(t) => t,
            None => {
                proof {
                    if all_digits(s@) {
                        lemma_decimal_value_extend(s@, idx as int + 1);
                    }
                }
                return None;
            },
        };
        acc = next;
        idx = idx + 1;
    }
    proof {
        assert(s@.subrange(0, s@.len() as int) =~= s@);
    }
    Some(acc)
}

/// Jump to a manually typed index, given as the bytes of the entered text.
/// The text is read as a decimal number; an unparsable entry or an
/// out-of-range index is ignored silently and both states stay unchanged.
pub fn goto_index_input(page: &mut PageState, sel: &mut SelectionState, input: &[u8], n: usize)
    requires
        old(page).wf(),
    ensures
        final(page).wf(),
        final(page).page_size == old(page).page_size,
        parsed_index(input@) matches Some(i) ==> (
            (i < n ==> final(page).current_page == i / old(page).page_size as int
                && final(sel).current_index == Some(i as usize)
                && page_start(
                    n as int,
                    old(page).page_size as int,
                    final(page).current_page as int,
                ) <= i
                && i < page_end(
                    n as int,
                    old(page).page_size as int,
                    final(page).current_page as int,
                )
                && in_sync(*final(page), *final(sel)))
            && (i >= n ==> *final(page) == *old(page) && *final(sel) == *old(sel))
        ),
        parsed_index(input@) is None
            ==> *final(page) == *old(page) && *final(sel) == *old(sel),
{
    match parse_index(input) {
        Some(i) => {
            goto_index(page, sel, i, n);
        },
        None => {},
    }
}

} // verus!
