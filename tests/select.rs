use dialoguer::{Select, SelectError, Selection, Session, Step};
use dialoguer::{Key, Paging};

fn desserts() -> Vec<&'static str> {
    vec![
        "Ice Cream",
        "Vanilla Cupcake",
        "Chocolate Muffin",
        "A Pile of sweet, sweet mustard",
    ]
}

fn session_for(items: &[&str], default: Option<usize>, allow_quit: bool, rows: u16) -> Session {
    let mut select = Select::new();
    select.items(items);
    if let Some(d) = default {
        select.default(d);
    }
    select.start(allow_quit, rows).unwrap()
}

#[test]
fn test_str() {
    let selections = &[
        "Ice Cream",
        "Vanilla Cupcake",
        "Chocolate Muffin",
        "A Pile of sweet, sweet mustard",
    ];

    assert_eq!(
        Select::new().default(0).items(&selections[..]).items,
        selections
    );
}

#[test]
fn test_string() {
    let selections = vec!["a".to_string(), "b".to_string()];

    assert_eq!(
        Select::new().default(0).items(&selections[..]).items,
        selections
    );
}

#[test]
fn test_ref_str() {
    let a = "a";
    let b = "b";

    let selections = &[a, b];

    assert_eq!(
        Select::new().default(0).items(&selections[..]).items,
        selections
    );
}

#[test]
fn builder_defaults_and_setters() {
    let select = Select::new();
    assert_eq!(select.default, usize::MAX);
    assert!(select.items.is_empty());
    assert_eq!(select.prompt, None);
    assert!(select.clear);

    let mut select = Select::new();
    select.item("one").item(2).with_prompt("Pick").clear(false).default(1);
    assert_eq!(select.items, vec!["one".to_string(), "2".to_string()]);
    assert_eq!(select.prompt, Some("Pick".to_string()));
    assert!(!select.clear);
    assert_eq!(select.default, 1);
}

#[test]
fn empty_items_fail_to_start() {
    let select = Select::new();
    assert!(matches!(select.start(true, 40), Err(SelectError::EmptyItems)));
}

#[test]
fn default_past_the_end_highlights_nothing() {
    let session = session_for(&["a", "b"], Some(5), true, 40);
    assert_eq!(session.sel, Selection::Unset);
    let session = session_for(&["a", "b"], Some(1), true, 40);
    assert_eq!(session.sel, Selection::Index(1));
}

#[test]
fn down_presses_from_unset() {
    let items = ["a", "b", "c"];
    let mut session = session_for(&items, None, true, 40);
    for k in 1..=10usize {
        assert_eq!(session.handle_key(Key::ArrowDown), Step::Continue);
        assert_eq!(session.sel, Selection::Index((k - 1) % items.len()));
    }
}

#[test]
fn up_and_down_wrap_around() {
    let mut session = session_for(&["a", "b", "c", "d"], Some(0), true, 40);
    session.handle_key(Key::ArrowUp);
    assert_eq!(session.sel, Selection::Index(3));
    session.handle_key(Key::Char('j'));
    assert_eq!(session.sel, Selection::Index(0));
    session.handle_key(Key::Char('k'));
    assert_eq!(session.sel, Selection::Index(3));
}

#[test]
fn refresh_twice_keeps_page() {
    let items: Vec<String> = (0..10).map(|i| i.to_string()).collect();
    let refs: Vec<&str> = items.iter().map(|s| s.as_str()).collect();
    let mut session = session_for(&refs, Some(9), true, 6);
    session.refresh(6);
    let page = session.paging.current_page();
    let visible = session.paging.render_page_items();
    session.refresh(6);
    assert_eq!(session.paging.current_page(), page);
    assert_eq!(session.paging.render_page_items(), visible);
    assert_eq!(page, 2);
    assert_eq!(visible, vec![8, 9]);
}

#[test]
fn long_list_is_paged() {
    let mut paging = Paging::new(6, 10);
    paging.update(6, Selection::Unset);
    assert_eq!(paging.capacity(), 4);
    assert!(paging.enabled());
    assert_eq!(paging.pages(), 3);
    assert_eq!(paging.render_page_items(), vec![0, 1, 2, 3]);
}

#[test]
fn short_list_is_not_paged() {
    let mut paging = Paging::new(30, 4);
    paging.update(30, Selection::Index(3));
    assert_eq!(paging.capacity(), 28);
    assert!(!paging.enabled());
    assert_eq!(paging.pages(), 1);
    assert_eq!(paging.render_page_items(), vec![0, 1, 2, 3]);
}

#[test]
fn tiny_terminal_still_has_one_item_per_page() {
    let paging = Paging::new(1, 3);
    assert_eq!(paging.capacity(), 1);
    assert_eq!(paging.pages(), 3);
}

#[test]
fn resize_recomputes_pages() {
    let mut paging = Paging::new(40, 10);
    assert!(!paging.enabled());
    paging.update(6, Selection::Index(5));
    assert!(paging.enabled());
    assert_eq!(paging.current_page(), 1);
    assert_eq!(paging.render_page_items(), vec![4, 5, 6, 7]);
}

#[test]
fn escape_cancels_when_allowed() {
    let mut session = session_for(&desserts(), Some(1), true, 40);
    assert_eq!(session.handle_key(Key::Escape), Step::Cancelled);
    let mut session = session_for(&desserts(), Some(1), true, 40);
    assert_eq!(session.handle_key(Key::Char('q')), Step::Cancelled);
}

#[test]
fn escape_is_ignored_when_not_allowed() {
    let mut session = session_for(&desserts(), Some(1), false, 40);
    assert_eq!(session.handle_key(Key::Escape), Step::Continue);
    assert_eq!(session.sel, Selection::Index(1));
    assert_eq!(session.paging.current_page(), 0);
}

#[test]
fn confirm_needs_a_highlighted_item() {
    let mut session = session_for(&desserts(), None, true, 40);
    assert_eq!(session.handle_key(Key::Enter), Step::Continue);
    assert_eq!(session.handle_key(Key::Char(' ')), Step::Continue);
    assert_eq!(session.sel, Selection::Unset);
    session.handle_key(Key::ArrowDown);
    assert_eq!(session.handle_key(Key::Char(' ')), Step::Selected(0));
}

#[test]
fn down_down_enter_selects_third() {
    let items = desserts();
    let mut session = session_for(&items, Some(0), true, 40);
    session.refresh(40);
    assert_eq!(session.handle_key(Key::ArrowDown), Step::Continue);
    session.refresh(40);
    assert_eq!(session.handle_key(Key::ArrowDown), Step::Continue);
    session.refresh(40);
    assert_eq!(session.handle_key(Key::Enter), Step::Selected(2));
    assert_eq!(items[2], "Chocolate Muffin");
}

#[test]
fn up_enter_from_unset_selects_last() {
    let mut session = session_for(&desserts(), None, true, 40);
    assert_eq!(session.handle_key(Key::ArrowUp), Step::Continue);
    assert_eq!(session.handle_key(Key::Enter), Step::Selected(3));
}

#[test]
fn right_moves_to_next_page() {
    let mut paging = Paging::new(6, 10);
    assert_eq!(paging.capacity(), 4);
    assert_eq!(paging.pages(), 3);
    assert_eq!(paging.current_page(), 0);
    assert_eq!(paging.next_page(), 4);
    assert_eq!(paging.current_page(), 1);
    assert_eq!(paging.next_page(), 8);
    assert_eq!(paging.next_page(), 0);
    assert_eq!(paging.previous_page(), 8);
    assert_eq!(paging.current_page(), 2);
}

#[test]
fn page_keys_move_selection_to_first_item_of_page() {
    let items: Vec<String> = (0..10).map(|i| i.to_string()).collect();
    let refs: Vec<&str> = items.iter().map(|s| s.as_str()).collect();
    let mut session = session_for(&refs, Some(1), true, 6);
    assert_eq!(session.handle_key(Key::ArrowRight), Step::Continue);
    assert_eq!(session.sel, Selection::Index(4));
    assert_eq!(session.handle_key(Key::Char('h')), Step::Continue);
    assert_eq!(session.sel, Selection::Index(0));
    assert_eq!(session.handle_key(Key::Char('h')), Step::Continue);
    assert_eq!(session.sel, Selection::Index(8));
}

#[test]
fn page_keys_do_nothing_without_paging() {
    let mut session = session_for(&desserts(), Some(2), true, 40);
    assert_eq!(session.handle_key(Key::ArrowRight), Step::Continue);
    assert_eq!(session.handle_key(Key::ArrowLeft), Step::Continue);
    assert_eq!(session.sel, Selection::Index(2));
}

#[test]
fn other_keys_are_ignored() {
    let mut session = session_for(&desserts(), Some(2), true, 40);
    assert_eq!(session.handle_key(Key::Char('x')), Step::Continue);
    assert_eq!(session.handle_key(Key::Unknown), Step::Continue);
    assert_eq!(session.sel, Selection::Index(2));
}
