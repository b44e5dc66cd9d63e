use lingpdf::pdf::{OutlineItem, PageText};
use lingpdf::tabs::{DocumentKey, Tab, TabManager, TabUpdate};

#[test]
fn create_makes_the_new_tab_active() {
    let mut m = TabManager::new();
    let id = m.create_tab(String::from("/tmp/a.pdf"));
    assert_eq!(m.get_active_tab(), Some(id));
    let id2 = m.create_tab(String::from("/tmp/b.pdf"));
    assert_eq!(m.get_active_tab(), Some(id2));
    assert_ne!(id, id2);
}

#[test]
fn closing_the_only_tab_leaves_no_active_tab() {
    let mut m = TabManager::new();
    let id = m.create_tab(String::from("/tmp/a.pdf"));
    m.close_tab(id);
    assert_eq!(m.get_active_tab(), None);
    assert!(m.get_all_tabs().is_empty());
}

#[test]
fn closing_the_middle_active_tab_activates_its_successor() {
    let mut m = TabManager::new();
    let a = m.create_tab(String::from("a.pdf"));
    let b = m.create_tab(String::from("b.pdf"));
    let c = m.create_tab(String::from("c.pdf"));
    m.set_active_tab(b);
    assert_eq!(m.get_active_tab(), Some(b));
    m.close_tab(b);
    // The tab now occupying the closed tab's index (the former third tab)
    // becomes active.
    assert_eq!(m.get_active_tab(), Some(c));
    let tabs = m.get_all_tabs();
    assert_eq!(tabs.len(), 2);
    assert_eq!(tabs[0].id, a);
    assert_eq!(tabs[1].id, c);
}

#[test]
fn closing_the_last_active_tab_activates_the_new_last() {
    let mut m = TabManager::new();
    let a = m.create_tab(String::from("a.pdf"));
    let b = m.create_tab(String::from("b.pdf"));
    m.close_tab(b);
    assert_eq!(m.get_active_tab(), Some(a));
}

#[test]
fn closing_an_inactive_tab_keeps_the_active_one() {
    let mut m = TabManager::new();
    let a = m.create_tab(String::from("a.pdf"));
    let b = m.create_tab(String::from("b.pdf"));
    m.close_tab(a);
    assert_eq!(m.get_active_tab(), Some(b));
}

#[test]
fn closing_twice_is_tolerated() {
    let mut m = TabManager::new();
    let a = m.create_tab(String::from("a.pdf"));
    let b = m.create_tab(String::from("b.pdf"));
    m.close_tab(a);
    m.close_tab(a);
    assert_eq!(m.get_active_tab(), Some(b));
    assert_eq!(m.get_all_tabs().len(), 1);
}

#[test]
fn ids_are_never_reused() {
    let mut m = TabManager::new();
    let a = m.create_tab(String::from("a.pdf"));
    m.close_tab(a);
    let b = m.create_tab(String::from("b.pdf"));
    assert_ne!(a, b);
}

#[test]
fn set_active_ignores_stale_ids() {
    let mut m = TabManager::new();
    let a = m.create_tab(String::from("a.pdf"));
    m.set_active_tab(a + 100);
    assert_eq!(m.get_active_tab(), Some(a));
}

#[test]
fn get_tab_returns_a_snapshot() {
    let mut m = TabManager::new();
    let a = m.create_tab(String::from("/docs/report.pdf"));
    let t = m.get_tab(a).unwrap();
    assert_eq!(t.id, a);
    assert_eq!(t.path, "/docs/report.pdf");
    assert_eq!(t.page_count, 0);
    assert_eq!(t.current_page, 0);
    assert_eq!(t.zoom, 100);
    assert_eq!(t.rotation, 0);
    assert!(t.doc.is_none());
    assert!(t.selected_text.is_empty());
    assert!(t.selection_regions.is_empty());
    assert!(m.get_tab(a + 1).is_none());
}

#[test]
fn update_attaches_a_document() {
    let mut m = TabManager::new();
    let a = m.create_tab(String::from("a.pdf"));
    let outline = vec![
        OutlineItem { title: String::from("Intro"), page: 0, depth: 0 },
        OutlineItem { title: String::from("Body"), page: 3, depth: 1 },
    ];
    m.update_tab(
        a,
        TabUpdate::AttachDocument {
            doc: DocumentKey { key: 7 },
            page_count: 12,
            outline_items: Some(outline),
        },
    );
    let t = m.get_tab(a).unwrap();
    assert_eq!(t.doc, Some(DocumentKey { key: 7 }));
    assert_eq!(t.page_count, 12);
    let items = t.outline_items.unwrap();
    assert_eq!(items.len(), 2);
    assert_eq!(items[0].title, "Intro");
    assert_eq!(items[1].page, 3);
    assert_eq!(items[1].depth, 1);
}

#[test]
fn update_of_a_stale_id_is_a_no_op() {
    let mut m = TabManager::new();
    let a = m.create_tab(String::from("a.pdf"));
    m.update_tab(a + 5, TabUpdate::SetZoom(250));
    assert_eq!(m.get_tab(a).unwrap().zoom, 100);
}

#[test]
fn updates_replace_page_state() {
    let mut m = TabManager::new();
    let a = m.create_tab(String::from("a.pdf"));
    m.update_tab(a, TabUpdate::SetCurrentPage(4));
    m.update_tab(a, TabUpdate::SetZoom(150));
    m.update_tab(a, TabUpdate::SetRotation(180));
    m.update_tab(
        a,
        TabUpdate::SetPageText(Some(PageText { text: String::from("hi"), chars: Vec::new() })),
    );
    m.update_tab(
        a,
        TabUpdate::SetRenderedPage {
            page_image: Some(vec![1, 2, 3, 4]),
            page_dimensions: Some((640, 480)),
        },
    );
    let t = m.get_tab(a).unwrap();
    assert_eq!(t.current_page, 4);
    assert_eq!(t.zoom, 150);
    assert_eq!(t.rotation, 180);
    assert_eq!(t.page_text.unwrap().text, "hi");
    assert_eq!(t.page_image.unwrap(), vec![1, 2, 3, 4]);
    assert_eq!(t.page_dimensions, Some((640, 480)));
}

#[test]
fn clear_selection_update_drops_every_trace() {
    let mut m = TabManager::new();
    let a = m.create_tab(String::from("a.pdf"));
    m.update_tab(
        a,
        TabUpdate::SetSelectionPoints { start: Some((1, 2)), end: Some((3, 4)) },
    );
    m.update_tab(
        a,
        TabUpdate::SetSelection {
            selected_text: String::from("hello"),
            selection_regions: Vec::new(),
        },
    );
    assert_eq!(m.get_tab(a).unwrap().selected_text, "hello");
    m.update_tab(a, TabUpdate::ClearSelection);
    let t = m.get_tab(a).unwrap();
    assert!(t.selection_start.is_none());
    assert!(t.selection_end.is_none());
    assert!(t.selected_text.is_empty());
    assert!(t.selection_regions.is_empty());
}

#[test]
fn file_name_takes_the_last_path_component() {
    let t = Tab::new(0, String::from("/home/user/docs/paper.pdf"));
    assert_eq!(t.file_name(), "paper.pdf");
    let t = Tab::new(1, String::from("paper.pdf"));
    assert_eq!(t.file_name(), "paper.pdf");
    let t = Tab::new(2, String::from("/home/user/docs/"));
    assert_eq!(t.file_name(), "Untitled");
    let t = Tab::new(3, String::from(""));
    assert_eq!(t.file_name(), "Untitled");
}
