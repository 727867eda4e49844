use restui::navigation::{cycle_next, cycle_prev, delete_item, focus_down, focus_up, search_prev, RequestFocus, RequestTab};

#[test]
fn focus_moves_through_the_list_of_the_tab() {
    let f = focus_down(RequestFocus::Url, RequestTab::Headers, 2);
    assert_eq!(f, RequestFocus::Header(0));
    let f = focus_down(f, RequestTab::Headers, 2);
    assert_eq!(f, RequestFocus::Header(1));
    assert_eq!(focus_down(f, RequestTab::Headers, 2), RequestFocus::Header(1));
    assert_eq!(focus_down(RequestFocus::Url, RequestTab::Cookies, 0), RequestFocus::Url);
    assert_eq!(focus_down(RequestFocus::Url, RequestTab::Params, 1), RequestFocus::PathParam(0));
    assert_eq!(focus_down(RequestFocus::Header(0), RequestTab::Queries, 3), RequestFocus::Header(0));
    assert_eq!(focus_up(RequestFocus::Param(2)), RequestFocus::Param(1));
    assert_eq!(focus_up(RequestFocus::Cookie(0)), RequestFocus::Url);
    assert_eq!(focus_up(RequestFocus::Url), RequestFocus::Url);
}

#[test]
fn deleting_items_moves_the_focus() {
    let mut v = vec!['a', 'b', 'c'];
    assert_eq!(delete_item(&mut v, 2), Some(Some(1)));
    assert_eq!(v, vec!['a', 'b']);
    assert_eq!(delete_item(&mut v, 0), Some(Some(0)));
    assert_eq!(delete_item(&mut v, 0), Some(None));
    assert!(v.is_empty());
    assert_eq!(delete_item(&mut v, 0), None);
}

#[test]
fn wrapping_steps() {
    assert_eq!(cycle_next(2, 3), 0);
    assert_eq!(cycle_next(0, 3), 1);
    assert_eq!(cycle_prev(0, 3), 2);
    assert_eq!(cycle_prev(1, 3), 0);
    assert_eq!(cycle_next(4, 0), 4);
    assert_eq!(search_prev(0, 4), 3);
    assert_eq!(search_prev(cycle_next(3, 4), 4), 3);
}
