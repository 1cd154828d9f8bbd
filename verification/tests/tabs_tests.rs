use arre_mind_reader::content::Content;
use arre_mind_reader::tabs::{
    DefaultTabSettings, TabCreateRequest, TabManager, TabOrder, FONT_SIZE_DEFAULT_TENTHS,
};
use arre_mind_reader::text::Word;

fn reader_content(id: &str) -> Content {
    Content::new(String::from(id), vec![Word::new("alpha"), Word::new("beta")])
}

fn add_reader(m: &mut TabManager, name: &str, cache: &str, active: bool) -> u64 {
    m.add_tab(
        String::from(name),
        None,
        reader_content(cache),
        String::from("Mono"),
        FONT_SIZE_DEFAULT_TENTHS,
        300,
        active,
    )
}

#[test]
fn add_tab_appends_in_insertion_order() {
    let mut m = TabManager::default();
    let a = add_reader(&mut m, "one", "c1", true);
    let b = add_reader(&mut m, "two", "c2", false);
    let c = add_reader(&mut m, "three", "c3", true);

    let names: Vec<&str> = m.tabs().iter().map(|t| t.name.as_str()).collect();
    assert_eq!(names, vec!["one", "two", "three"]);
    assert!(a < b && b < c);
    assert_eq!(m.active_id(), Some(c));
}

#[test]
fn set_active_ignores_unknown_ids() {
    let mut m = TabManager::default();
    let a = add_reader(&mut m, "one", "c1", true);
    m.set_active(999);
    assert_eq!(m.active_id(), Some(a));
    let b = add_reader(&mut m, "two", "c2", false);
    m.set_active(b);
    assert_eq!(m.active_id(), Some(b));
    assert_eq!(m.active_tab().unwrap().name, "two");
}

#[test]
fn closing_the_active_tab_selects_the_next_else_previous() {
    let mut m = TabManager::default();
    let a = add_reader(&mut m, "one", "c1", false);
    let b = add_reader(&mut m, "two", "c2", false);
    let c = add_reader(&mut m, "three", "c3", false);
    m.set_active(b);

    // next in order wins
    let removed = m.close_tab(b);
    assert_eq!(removed.as_deref(), Some("c2"));
    assert_eq!(m.active_id(), Some(c));

    // no next: previous wins
    m.set_active(c);
    let removed = m.close_tab(c);
    assert_eq!(removed.as_deref(), Some("c3"));
    assert_eq!(m.active_id(), Some(a));

    // last one: none remains active
    let removed = m.close_tab(a);
    assert_eq!(removed.as_deref(), Some("c1"));
    assert_eq!(m.active_id(), None);
    assert!(m.tabs().is_empty());
}

#[test]
fn closing_a_non_active_tab_keeps_the_active_tab() {
    let mut m = TabManager::default();
    let a = add_reader(&mut m, "one", "c1", false);
    let b = add_reader(&mut m, "two", "c2", false);
    m.set_active(a);
    let removed = m.close_tab(b);
    assert_eq!(removed.as_deref(), Some("c2"));
    assert_eq!(m.active_id(), Some(a));
}

#[test]
fn closing_an_unknown_id_changes_nothing() {
    let mut m = TabManager::default();
    let a = add_reader(&mut m, "one", "c1", true);
    assert!(m.close_tab(777).is_none());
    assert_eq!(m.tabs().len(), 1);
    assert_eq!(m.active_id(), Some(a));
}

#[test]
fn closing_the_home_tab_requests_no_cache_deletion() {
    let mut m = TabManager::default();
    let home = m.add_home_tab(String::from("home"));
    let removed = m.close_tab(home);
    assert!(removed.is_none());
    assert!(m.tabs().is_empty());
}

#[test]
fn create_request_builder_fills_fields() {
    let req = TabCreateRequest::new(String::from("doc"), reader_content("c9"))
        .with_file_path(String::from("a/doc.txt"))
        .with_font(String::from("Serif"), 240)
        .with_wpm(450)
        .with_active(false);
    assert_eq!(req.name, "doc");
    assert_eq!(req.file_path.as_deref(), Some("a/doc.txt"));
    assert_eq!(req.font_name.as_deref(), Some("Serif"));
    assert_eq!(req.font_size_tenths, Some(240));
    assert_eq!(req.wpm, Some(450));
    assert!(!req.is_active);
}

#[test]
fn create_tab_falls_back_to_defaults() {
    let mut m = TabManager::default();
    let defaults = DefaultTabSettings::default();
    let req = TabCreateRequest::new(String::from("doc"), reader_content("c4"));
    let id = m.create_tab(req, &defaults);
    let tab = m.active_tab().unwrap();
    assert_eq!(tab.id, id);
    assert_eq!(tab.font_name, defaults.font_name);
    assert_eq!(tab.font_size_tenths, FONT_SIZE_DEFAULT_TENTHS);
    assert_eq!(tab.wpm, 300);
    assert!(tab.is_reader_tab);

    let req2 = TabCreateRequest::new(String::from("doc2"), reader_content("c5"))
        .with_font(String::from("Serif"), 240)
        .with_wpm(500);
    m.create_tab(req2, &defaults);
    let tab2 = m.active_tab().unwrap();
    assert_eq!(tab2.font_name, "Serif");
    assert_eq!(tab2.font_size_tenths, 240);
    assert_eq!(tab2.wpm, 500);
}

#[test]
fn apply_defaults_overwrites_reader_tabs_only() {
    let mut m = TabManager::default();
    m.add_home_tab(String::from("home"));
    add_reader(&mut m, "one", "c1", true);
    let defaults = DefaultTabSettings {
        font_name: String::from("Serif"),
        font_size_tenths: 300,
        wpm: 650,
    };
    m.apply_defaults_to_all(&defaults);
    let tabs = m.tabs();
    assert!(!tabs[0].is_reader_tab);
    assert_ne!(tabs[0].wpm, 650);
    assert_eq!(tabs[1].font_name, "Serif");
    assert_eq!(tabs[1].font_size_tenths, 300);
    assert_eq!(tabs[1].wpm, 650);
    assert_eq!(tabs[1].name, "one");
}

#[test]
fn find_adjacent_prefers_next_then_previous() {
    let mut order = TabOrder::new();
    order.on_tab_added(10);
    order.on_tab_added(20);
    order.on_tab_added(30);

    assert_eq!(order.find_adjacent(20), Some(30));
    assert_eq!(order.find_adjacent(30), Some(20));
    assert_eq!(order.find_adjacent(10), Some(20));
    assert_eq!(order.find_adjacent(99), None);

    order.on_tab_removed(30);
    assert_eq!(order.entities().as_slice(), &[10, 20]);
    assert_eq!(order.find_adjacent(20), Some(10));

    order.on_tab_removed(10);
    assert_eq!(order.find_adjacent(20), None);
}

#[test]
fn last_synced_id_round_trips() {
    let mut m = TabManager::default();
    assert_eq!(m.last_synced_id(), None);
    m.set_last_synced(Some(7));
    assert_eq!(m.last_synced_id(), Some(7));
    m.set_last_synced(None);
    assert_eq!(m.last_synced_id(), None);
}
