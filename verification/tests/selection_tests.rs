use camo_pager::paging::PageState;
use camo_pager::selection::SelectionState;
use camo_pager::selection::goto_index;
use camo_pager::selection::goto_index_input;
use camo_pager::selection::parse_index;

#[test]
fn new_selection_is_empty() {
    let s = SelectionState::new();
    assert_eq!(s.current_index, None);
}

#[test]
fn goto_valid_index_selects_and_turns_the_page() {
    let mut page = PageState { page_size: 10, current_page: 0 };
    let mut sel = SelectionState::new();
    goto_index(&mut page, &mut sel, 24, 25);
    assert_eq!(page.current_page, 2);
    assert_eq!(sel.current_index, Some(24));
    let (start, end) = page.slice_bounds(25);
    assert_eq!((start, end), (20, 25));
    assert!(start <= 24 && 24 < end);
}

#[test]
fn goto_index_on_the_first_page_stays_there() {
    let mut page = PageState { page_size: 10, current_page: 2 };
    let mut sel = SelectionState::new();
    goto_index(&mut page, &mut sel, 3, 25);
    assert_eq!(page.current_page, 0);
    assert_eq!(sel.current_index, Some(3));
}

#[test]
fn goto_out_of_range_index_is_a_no_op() {
    let mut page = PageState { page_size: 10, current_page: 1 };
    let mut sel = SelectionState { current_index: Some(12) };
    goto_index(&mut page, &mut sel, 30, 25);
    assert_eq!(page, PageState { page_size: 10, current_page: 1 });
    assert_eq!(sel.current_index, Some(12));
}

#[test]
fn goto_on_empty_list_is_a_no_op() {
    let mut page = PageState { page_size: 10, current_page: 0 };
    let mut sel = SelectionState::new();
    goto_index(&mut page, &mut sel, 0, 0);
    assert_eq!(page, PageState { page_size: 10, current_page: 0 });
    assert_eq!(sel.current_index, None);
}

#[test]
fn parse_plain_numbers() {
    assert_eq!(parse_index(b"0"), Some(0));
    assert_eq!(parse_index(b"24"), Some(24));
    assert_eq!(parse_index(b"007"), Some(7));
}

#[test]
fn parse_rejects_empty_text() {
    assert_eq!(parse_index(b""), None);
}

#[test]
fn parse_rejects_non_digits() {
    assert_eq!(parse_index(b"abc"), None);
    assert_eq!(parse_index(b"1a"), None);
    assert_eq!(parse_index(b"-3"), None);
    assert_eq!(parse_index(b"+5"), None);
    assert_eq!(parse_index(b"2 4"), None);
}

#[test]
fn parse_rejects_numbers_too_large_for_usize() {
    assert_eq!(parse_index(b"99999999999999999999999999999999"), None);
}

#[test]
fn parse_accepts_the_largest_usize() {
    let text = usize::MAX.to_string();
    assert_eq!(parse_index(text.as_bytes()), Some(usize::MAX));
}

#[test]
fn typed_entry_jumps_to_the_index() {
    let mut page = PageState { page_size: 10, current_page: 0 };
    let mut sel = SelectionState::new();
    goto_index_input(&mut page, &mut sel, b"24", 25);
    assert_eq!(page.current_page, 2);
    assert_eq!(sel.current_index, Some(24));
}

#[test]
fn typed_entry_out_of_range_is_a_no_op() {
    let mut page = PageState { page_size: 10, current_page: 1 };
    let mut sel = SelectionState { current_index: Some(12) };
    goto_index_input(&mut page, &mut sel, b"30", 25);
    assert_eq!(page, PageState { page_size: 10, current_page: 1 });
    assert_eq!(sel.current_index, Some(12));
}

#[test]
fn unparsable_entry_is_a_no_op() {
    let mut page = PageState { page_size: 10, current_page: 1 };
    let mut sel = SelectionState { current_index: Some(12) };
    goto_index_input(&mut page, &mut sel, b"twelve", 25);
    assert_eq!(page, PageState { page_size: 10, current_page: 1 });
    assert_eq!(sel.current_index, Some(12));
    goto_index_input(&mut page, &mut sel, b"-1", 25);
    assert_eq!(page, PageState { page_size: 10, current_page: 1 });
    assert_eq!(sel.current_index, Some(12));
}
