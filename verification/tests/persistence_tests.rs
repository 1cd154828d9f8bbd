use arre_mind_reader::content::Content;
use arre_mind_reader::persistence::{CacheStore, ProgramState, SavedTab};
use arre_mind_reader::tabs::TabManager;
use arre_mind_reader::text::{words_from_text, Word};

fn store_with(entries: &[(&str, &str)]) -> CacheStore {
    let mut store = CacheStore::new();
    for (id, text) in entries {
        store.write_word_cache(&String::from(*id), words_from_text(text));
    }
    store
}

fn registry_with_two_tabs() -> TabManager {
    let mut m = TabManager::default();
    m.add_home_tab(String::from("home"));
    m.add_tab(
        String::from("first"),
        Some(String::from("a/first.txt")),
        Content::new(String::from("c1"), words_from_text("alpha beta")),
        String::from("Mono"),
        480,
        350,
        false,
    );
    let mut c2 = Content::new(String::from("c2"), words_from_text("gamma delta epsilon"));
    c2.seek(2);
    m.add_tab(
        String::from("second"),
        None,
        c2,
        String::from("Serif"),
        300,
        500,
        true,
    );
    m
}

#[test]
fn cache_store_writes_loads_and_overwrites() {
    let mut store = CacheStore::new();
    let id = String::from("c1");
    assert!(store.load_word_cache(&id).is_none());

    store.write_word_cache(&id, vec![Word::new("one")]);
    let loaded = store.load_word_cache(&id).unwrap();
    assert_eq!(loaded.len(), 1);
    assert_eq!(loaded[0].text, "one");

    store.write_word_cache(&id, vec![Word::new("two"), Word::new("three")]);
    let loaded = store.load_word_cache(&id).unwrap();
    assert_eq!(loaded.len(), 2);
    assert_eq!(loaded[0].text, "two");
}

#[test]
fn cache_delete_is_idempotent() {
    let mut store = store_with(&[("c1", "alpha")]);
    let id = String::from("c1");
    store.delete_word_cache(&id);
    assert!(store.load_word_cache(&id).is_none());
    // deleting again is not an error
    store.delete_word_cache(&id);
    assert!(store.load_word_cache(&id).is_none());
}

#[test]
fn collect_skips_the_home_tab_and_flags_the_active_one() {
    let m = registry_with_two_tabs();
    let state = ProgramState::collect(&m);
    assert_eq!(state.tabs.len(), 2);

    let first = &state.tabs[0];
    assert_eq!(first.name, "first");
    assert_eq!(first.file_path.as_deref(), Some("a/first.txt"));
    assert_eq!(first.font_name, "Mono");
    assert_eq!(first.font_size_tenths, 480);
    assert_eq!(first.wpm, 350);
    assert_eq!(first.content_cache_id, "c1");
    assert_eq!(first.current_index, 0);
    assert!(!first.is_active);

    let second = &state.tabs[1];
    assert_eq!(second.name, "second");
    assert_eq!(second.current_index, 2);
    assert!(second.is_active);
}

#[test]
fn restore_rebuilds_saved_tabs_from_their_caches() {
    let m = registry_with_two_tabs();
    let state = ProgramState::collect(&m);
    let store = store_with(&[("c1", "alpha beta"), ("c2", "gamma delta epsilon")]);

    let restored = state.restore(&store);
    assert_eq!(restored.tabs().len(), 2);
    let t1 = &restored.tabs()[0];
    assert_eq!(t1.name, "first");
    assert_eq!(t1.wpm, 350);
    assert_eq!(t1.content.content_cache_id, "c1");
    assert_eq!(t1.content.current_index, 0);
    assert_eq!(t1.content.words.len(), 2);
    let t2 = &restored.tabs()[1];
    assert_eq!(t2.name, "second");
    assert_eq!(t2.content.current_index, 2);
    assert_eq!(restored.active_id(), Some(t2.id));

    // a second collect reproduces the saved metadata
    let again = ProgramState::collect(&restored);
    assert_eq!(again.tabs.len(), 2);
    for (a, b) in state.tabs.iter().zip(again.tabs.iter()) {
        assert_eq!(a.name, b.name);
        assert_eq!(a.file_path, b.file_path);
        assert_eq!(a.font_name, b.font_name);
        assert_eq!(a.font_size_tenths, b.font_size_tenths);
        assert_eq!(a.wpm, b.wpm);
        assert_eq!(a.content_cache_id, b.content_cache_id);
        assert_eq!(a.current_index, b.current_index);
        assert_eq!(a.is_active, b.is_active);
    }
}

#[test]
fn restore_skips_tabs_whose_cache_entry_is_missing() {
    let m = registry_with_two_tabs();
    let state = ProgramState::collect(&m);
    // only the second tab's cache survives
    let store = store_with(&[("c2", "gamma delta epsilon")]);

    let restored = state.restore(&store);
    assert_eq!(restored.tabs().len(), 1);
    assert_eq!(restored.tabs()[0].name, "second");
    assert_eq!(restored.active_id(), Some(restored.tabs()[0].id));
}

#[test]
fn restore_clamps_untrusted_rates_and_cursors() {
    let state = ProgramState {
        tabs: vec![SavedTab {
            name: String::from("doc"),
            file_path: None,
            font_name: String::from("Mono"),
            font_size_tenths: 480,
            wpm: 9999,
            content_cache_id: String::from("c1"),
            current_index: 50,
            is_active: true,
        }],
    };
    let store = store_with(&[("c1", "one two")]);
    let restored = state.restore(&store);
    let tab = &restored.tabs()[0];
    assert_eq!(tab.wpm, 1000);
    assert_eq!(tab.content.current_index, 1);
}

#[test]
fn orphan_cleanup_keeps_only_referenced_entries() {
    let mut store = store_with(&[("c1", "alpha"), ("c2", "beta"), ("orphan", "gamma")]);
    let valid = vec![String::from("c1"), String::from("c2")];
    store.cleanup_orphan_caches(&valid);
    assert!(store.load_word_cache(&String::from("c1")).is_some());
    assert!(store.load_word_cache(&String::from("c2")).is_some());
    assert!(store.load_word_cache(&String::from("orphan")).is_none());
}

#[test]
fn cache_ids_lists_the_metadata_ids_in_order() {
    let m = registry_with_two_tabs();
    let state = ProgramState::collect(&m);
    let ids = state.cache_ids();
    assert_eq!(ids, vec![String::from("c1"), String::from("c2")]);
}

#[test]
fn default_program_state_is_a_fresh_session() {
    let state = ProgramState::default();
    assert!(state.tabs.is_empty());
    let restored = state.restore(&CacheStore::new());
    assert!(restored.tabs().is_empty());
    assert_eq!(restored.active_id(), None);
}
