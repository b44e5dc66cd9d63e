use lingpdf::pdf::{PageText, TextChar};
use lingpdf::state::{AppConfig, AppState, ScrollMode, SelectionMode, Theme};
use lingpdf::tabs::{DocumentKey, TabUpdate};

fn fresh_state() -> AppState {
    AppState::new(AppConfig::default())
}

fn open_doc(state: &mut AppState, path: &str, pages: usize) -> usize {
    state.open_file_new_tab(String::from(path), DocumentKey { key: 1 }, pages, None)
}

#[test]
fn opening_a_file_creates_an_active_tab_with_the_document() {
    let mut s = fresh_state();
    let id = open_doc(&mut s, "/tmp/a.pdf", 9);
    assert_eq!(s.get_active_tab_id(), Some(id));
    let t = s.tabs.get_tab(id).unwrap();
    assert_eq!(t.page_count, 9);
    assert_eq!(t.doc, Some(DocumentKey { key: 1 }));
    assert_eq!(s.get_recent_files(), vec![String::from("/tmp/a.pdf")]);
}

#[test]
fn recent_files_are_deduplicated_and_capped() {
    let mut s = fresh_state();
    for i in 0..12 {
        open_doc(&mut s, &format!("/tmp/doc{}.pdf", i), 1);
    }
    let recents = s.get_recent_files();
    assert_eq!(recents.len(), 10);
    // Most recent first; the oldest two fell off the end.
    assert_eq!(recents[0], "/tmp/doc11.pdf");
    assert_eq!(recents[9], "/tmp/doc2.pdf");
    // Re-opening a known path does not duplicate it.
    open_doc(&mut s, "/tmp/doc11.pdf", 1);
    assert_eq!(s.get_recent_files().len(), 10);
    assert_eq!(s.get_recent_files()[0], "/tmp/doc11.pdf");
}

#[test]
fn remove_from_recent_forgets_the_path() {
    let mut s = fresh_state();
    open_doc(&mut s, "/tmp/a.pdf", 1);
    open_doc(&mut s, "/tmp/b.pdf", 1);
    s.remove_from_recent(&String::from("/tmp/a.pdf"));
    assert_eq!(s.get_recent_files(), vec![String::from("/tmp/b.pdf")]);
}

#[test]
fn navigation_respects_page_bounds() {
    let mut s = fresh_state();
    let id = open_doc(&mut s, "a.pdf", 3);
    s.navigate_to_page(2);
    assert_eq!(s.tabs.get_tab(id).unwrap().current_page, 2);
    s.navigate_to_page(3);
    assert_eq!(s.tabs.get_tab(id).unwrap().current_page, 2);
    s.prev_page();
    assert_eq!(s.tabs.get_tab(id).unwrap().current_page, 1);
    s.next_page();
    assert_eq!(s.tabs.get_tab(id).unwrap().current_page, 2);
    s.next_page();
    assert_eq!(s.tabs.get_tab(id).unwrap().current_page, 2);
}

#[test]
fn zoom_steps_and_clamps() {
    let mut s = fresh_state();
    let id = open_doc(&mut s, "a.pdf", 1);
    s.zoom_in();
    assert_eq!(s.tabs.get_tab(id).unwrap().zoom, 110);
    s.zoom_out();
    s.zoom_out();
    assert_eq!(s.tabs.get_tab(id).unwrap().zoom, 90);
    for _ in 0..40 {
        s.zoom_in();
    }
    assert_eq!(s.tabs.get_tab(id).unwrap().zoom, 300);
    for _ in 0..40 {
        s.zoom_out();
    }
    assert_eq!(s.tabs.get_tab(id).unwrap().zoom, 50);
    s.reset_zoom();
    assert_eq!(s.tabs.get_tab(id).unwrap().zoom, 100);
}

#[test]
fn rotation_wraps_around() {
    let mut s = fresh_state();
    let id = open_doc(&mut s, "a.pdf", 1);
    s.rotate_clockwise();
    assert_eq!(s.tabs.get_tab(id).unwrap().rotation, 90);
    s.rotate_clockwise();
    s.rotate_clockwise();
    s.rotate_clockwise();
    assert_eq!(s.tabs.get_tab(id).unwrap().rotation, 0);
    s.rotate_counter_clockwise();
    assert_eq!(s.tabs.get_tab(id).unwrap().rotation, 270);
}

fn select_something(s: &mut AppState, id: usize) {
    s.tabs.update_tab(
        id,
        TabUpdate::SetSelection {
            selected_text: String::from("stale"),
            selection_regions: Vec::new(),
        },
    );
    assert_eq!(s.tabs.get_tab(id).unwrap().selected_text, "stale");
}

#[test]
fn zoom_changes_clear_the_selection() {
    let mut s = fresh_state();
    let id = open_doc(&mut s, "a.pdf", 1);
    select_something(&mut s, id);
    s.zoom_in();
    let t = s.tabs.get_tab(id).unwrap();
    assert!(t.selected_text.is_empty());
    assert!(t.selection_regions.is_empty());
}

#[test]
fn rotation_changes_clear_the_selection() {
    let mut s = fresh_state();
    let id = open_doc(&mut s, "a.pdf", 1);
    select_something(&mut s, id);
    s.rotate_clockwise();
    let t = s.tabs.get_tab(id).unwrap();
    assert!(t.selected_text.is_empty());
    assert!(t.selection_regions.is_empty());
    select_something(&mut s, id);
    s.rotate_counter_clockwise();
    assert!(s.tabs.get_tab(id).unwrap().selected_text.is_empty());
}

#[test]
fn page_changes_clear_the_selection() {
    let mut s = fresh_state();
    let id = open_doc(&mut s, "a.pdf", 5);
    select_something(&mut s, id);
    s.next_page();
    assert!(s.tabs.get_tab(id).unwrap().selected_text.is_empty());
}

#[test]
fn toggle_selection_mode_alternates() {
    let mut s = fresh_state();
    assert_eq!(s.get_selection_mode(), SelectionMode::Hand);
    assert_eq!(s.toggle_selection_mode(), SelectionMode::TextSelect);
    assert_eq!(s.get_selection_mode(), SelectionMode::TextSelect);
    assert_eq!(s.toggle_selection_mode(), SelectionMode::Hand);
}

#[test]
fn preference_setters_round_trip() {
    let mut s = fresh_state();
    assert_eq!(s.get_theme(), Theme::Dark);
    s.set_theme(Theme::Light);
    assert_eq!(s.get_theme(), Theme::Light);
    assert_eq!(s.get_scroll_mode(), ScrollMode::Page);
    s.set_scroll_mode(ScrollMode::Smooth);
    assert_eq!(s.get_scroll_mode(), ScrollMode::Smooth);
    s.set_selection_mode(SelectionMode::TextSelect);
    assert_eq!(s.get_selection_mode(), SelectionMode::TextSelect);
}

#[test]
fn update_text_selection_stores_the_engine_result() {
    let mut s = fresh_state();
    let id = open_doc(&mut s, "a.pdf", 1);
    let chars = vec![
        TextChar { ch: 'A', x: 10_000, y: 700_000, width: 10_000, height: 100_000, font_size: 0 },
        TextChar { ch: 'B', x: 20_000, y: 700_000, width: 10_000, height: 100_000, font_size: 0 },
    ];
    s.tabs.update_tab(
        id,
        TabUpdate::SetPageText(Some(PageText { text: String::new(), chars })),
    );
    s.tabs.update_tab(
        id,
        TabUpdate::SetRenderedPage { page_image: None, page_dimensions: Some((300, 400)) },
    );
    s.update_text_selection(600_000, 800_000, 0, 0, 20_000, 20_000);
    let t = s.tabs.get_tab(id).unwrap();
    assert_eq!(t.selected_text, "AB");
    assert_eq!(t.selection_regions.len(), 1);
    // A spans pixels 5..10, B pixels 10..15: the highlight covers 5..15.
    assert_eq!(t.selection_regions[0].x, 5_000);
    assert_eq!(t.selection_regions[0].width, 10_000);
}

#[test]
fn update_text_selection_without_cached_text_does_nothing() {
    let mut s = fresh_state();
    let id = open_doc(&mut s, "a.pdf", 1);
    s.update_text_selection(600_000, 800_000, 0, 0, 20_000, 20_000);
    assert!(s.tabs.get_tab(id).unwrap().selected_text.is_empty());
}

#[test]
fn operations_without_any_tab_are_harmless() {
    let mut s = fresh_state();
    s.zoom_in();
    s.zoom_out();
    s.rotate_clockwise();
    s.next_page();
    s.prev_page();
    s.navigate_to_page(3);
    s.clear_selection();
    s.update_text_selection(600_000, 800_000, 0, 0, 1_000, 1_000);
    assert_eq!(s.get_active_tab_id(), None);
    assert!(s.get_all_tabs().is_empty());
}

#[test]
fn clear_selection_on_the_active_tab() {
    let mut s = fresh_state();
    let id = open_doc(&mut s, "a.pdf", 1);
    select_something(&mut s, id);
    s.clear_selection();
    assert!(s.tabs.get_tab(id).unwrap().selected_text.is_empty());
}
