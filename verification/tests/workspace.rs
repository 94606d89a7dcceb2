use std::collections::{HashMap, VecDeque};
use velo::canvas::UiState;
use velo::workspace::{
    AppState, Doc, ListItem, ModalEntity, SavedState, StoredTags, Tab, EMPTY_CHECKPOINT, MAX_CHECKPOINTS,
    MAX_SAVED_DOCS_IN_MEMORY, UNTITLED,
};

fn tab(id: u128, name: &str, active: bool, history: &[&str]) -> Tab {
    Tab {
        id,
        name: name.to_string(),
        checkpoints: history.iter().map(|s| s.to_string()).collect::<VecDeque<_>>(),
        is_active: active,
    }
}

fn doc(id: u128, tabs: Vec<Tab>) -> Doc {
    Doc { id, name: format!("doc {id}"), tabs, tags: vec![] }
}

fn history(t: &Tab) -> Vec<String> {
    t.checkpoints.iter().cloned().collect()
}

fn active_ids(d: &Doc) -> Vec<u128> {
    d.tabs.iter().filter(|t| t.is_active).map(|t| t.id).collect()
}

fn state_with(docs: Vec<Doc>, current: Option<u128>) -> AppState {
    AppState {
        current_document: current,
        docs: docs.into_iter().map(|d| (d.id, d)).collect(),
        github_token: None,
    }
}

#[test]
fn saving_keeps_at_most_eight_checkpoints() {
    let mut t = tab(1, "Tab 1", true, &[]);
    for i in 0..20 {
        t.save_checkpoint(format!("s{i}"));
        assert!(t.checkpoints.len() <= MAX_CHECKPOINTS + 1);
    }
    assert_eq!(t.checkpoints.len(), MAX_CHECKPOINTS + 1);
    assert_eq!(history(&t).first().unwrap(), "s12");
    assert_eq!(history(&t).last().unwrap(), "s19");
}

#[test]
fn save_then_load_shows_the_saved_state() {
    let mut t = tab(1, "Tab 1", true, &["a", "b"]);
    t.save_checkpoint("c".to_string());
    assert_eq!(t.take_checkpoint(false).as_deref(), Some("c"));
    assert_eq!(history(&t), vec!["a", "b", "c"]);
    assert_eq!(t.take_checkpoint(true).as_deref(), Some("c"));
    assert_eq!(history(&t), vec!["a", "b"]);
}

#[test]
fn undo_keeps_the_last_checkpoint() {
    let mut t = tab(1, "Tab 1", true, &["only"]);
    assert_eq!(t.take_checkpoint(true).as_deref(), Some("only"));
    assert_eq!(history(&t), vec!["only"]);
    let mut empty = tab(2, "Tab 2", true, &[]);
    assert_eq!(empty.take_checkpoint(true), None);
}

#[test]
fn checkpoint_goes_to_named_tab_or_active_tab() {
    let mut d = doc(1, vec![tab(10, "Tab 1", false, &[]), tab(11, "Tab 2", true, &[])]);
    d.record_checkpoint(None, "x".to_string());
    assert_eq!(history(&d.tabs[1]), vec!["x"]);
    d.record_checkpoint(Some(10), "y".to_string());
    assert_eq!(history(&d.tabs[0]), vec!["y"]);
    d.record_checkpoint(Some(99), "z".to_string());
    assert_eq!(history(&d.tabs[0]), vec!["y"]);
    assert_eq!(history(&d.tabs[1]), vec!["x"]);
}

#[test]
fn selecting_a_tab_leaves_it_the_only_active_one() {
    let mut d = doc(1, vec![tab(10, "Tab 1", true, &[]), tab(11, "Tab 2", false, &[])]);
    assert_eq!(d.select_tab(11), Some(10));
    assert_eq!(active_ids(&d), vec![11]);
}

#[test]
fn adding_a_tab_names_it_by_position_and_activates_it() {
    let mut d = doc(1, vec![tab(10, "Tab 1", true, &["s"])]);
    assert_eq!(d.add_tab(11), Some(10));
    assert_eq!(d.tabs.len(), 2);
    assert_eq!(d.tabs[1].name, "Tab 2");
    assert!(d.tabs[1].checkpoints.is_empty());
    assert_eq!(active_ids(&d), vec![11]);
}

#[test]
fn deleting_the_active_tab_activates_the_last_one() {
    let mut d = doc(
        1,
        vec![
            tab(10, "Tab 1", false, &[]),
            tab(11, "Tab 2", true, &[]),
            tab(12, "Tab 3", false, &[]),
        ],
    );
    assert!(d.delete_active_tab());
    assert_eq!(d.tabs.iter().map(|t| t.id).collect::<Vec<_>>(), vec![10, 12]);
    assert_eq!(active_ids(&d), vec![12]);
    let mut lone = doc(2, vec![tab(20, "Tab 1", true, &[])]);
    assert!(!lone.delete_active_tab());
    assert_eq!(lone.tabs.len(), 1);
}

#[test]
fn loading_a_document_reads_it_from_storage() {
    let mut state = state_with(vec![], Some(1));
    let mut stored = HashMap::new();
    stored.insert(5, doc(5, vec![tab(50, "Tab 1", true, &["s"])]));
    state.load_doc_to_memory(5, Some(&stored));
    assert_eq!(state.docs[&5].name, "doc 5");
    assert_eq!(history(&state.docs[&5].tabs[0]), vec!["s"]);
    state.load_doc_to_memory(6, None);
    assert!(!state.docs.contains_key(&6));
}

#[test]
fn memory_holds_at_most_seven_documents() {
    let docs: Vec<Doc> = (0..7u128).map(|i| doc(i, vec![tab(100 + i, "Tab 1", true, &[])])).collect();
    let mut state = state_with(docs, Some(0));
    let mut stored = HashMap::new();
    stored.insert(9, doc(9, vec![tab(90, "Tab 1", true, &[])]));
    state.load_doc_to_memory(9, Some(&stored));
    assert_eq!(state.docs.len(), MAX_SAVED_DOCS_IN_MEMORY);
    assert!(state.docs.contains_key(&9));
}

#[test]
fn saving_records_into_the_open_document() {
    let mut state = state_with(vec![doc(1, vec![tab(10, "Tab 1", true, &[])])], Some(1));
    assert_eq!(state.record_save(None, None, "j".to_string(), None), 1);
    assert_eq!(history(&state.docs[&1].tabs[0]), vec!["j"]);
}

#[test]
fn saving_a_stored_document_loads_it_first() {
    let mut state = state_with(vec![doc(1, vec![tab(10, "Tab 1", true, &[])])], Some(1));
    let mut stored = HashMap::new();
    stored.insert(2, doc(2, vec![tab(20, "Tab 1", true, &["old"])]));
    assert_eq!(state.record_save(Some(2), Some(20), "new".to_string(), Some(&stored)), 2);
    assert_eq!(history(&state.docs[&2].tabs[0]), vec!["old", "new"]);
}

#[test]
fn new_document_is_untitled_with_one_tab() {
    let mut state = state_with(vec![doc(1, vec![tab(10, "Tab 1", true, &[])])], Some(1));
    assert_eq!(state.new_doc(2, 20), 1);
    assert_eq!(state.current_document, Some(2));
    let d = &state.docs[&2];
    assert_eq!(d.name, UNTITLED);
    assert_eq!(d.tabs.len(), 1);
    assert_eq!(d.tabs[0].name, "Tab 1");
    assert_eq!(history(&d.tabs[0]), vec![EMPTY_CHECKPOINT]);
    assert_eq!(EMPTY_CHECKPOINT, "{\"arrows\":[],\"images\":{},\"nodes\":[]}");
}

#[test]
fn clicking_another_document_switches_to_it() {
    let mut state = state_with(vec![], Some(1));
    assert_eq!(state.list_item_click(1), None);
    assert_eq!(state.list_item_click(2), Some(1));
    assert_eq!(state.current_document, Some(2));
}

#[test]
fn deleting_the_open_document_opens_the_next_listed() {
    let mut state = state_with(
        vec![doc(1, vec![tab(10, "Tab 1", true, &[])]), doc(2, vec![tab(20, "Tab 1", true, &[])])],
        Some(1),
    );
    assert_eq!(state.delete_current_doc(&vec![1, 2]), 1);
    assert!(!state.docs.contains_key(&1));
    assert_eq!(state.current_document, Some(2));
    let mut alone = state_with(vec![doc(3, vec![tab(30, "Tab 1", true, &[])])], Some(3));
    alone.delete_current_doc(&vec![3]);
    assert_eq!(alone.current_document, Some(3));
}

#[test]
fn deleting_a_tab_of_the_open_document() {
    let mut state = state_with(
        vec![doc(1, vec![tab(10, "Tab 1", true, &[]), tab(11, "Tab 2", false, &[])])],
        Some(1),
    );
    assert_eq!(state.current_tab(), Some(10));
    assert!(state.delete_current_tab());
    assert_eq!(state.current_tab(), Some(11));
    assert!(!state.delete_current_tab());
}

#[test]
fn renaming_a_document() {
    let mut state = state_with(vec![doc(1, vec![tab(10, "Tab 1", true, &[])])], Some(1));
    state.rename_doc(1, "Plans".to_string());
    assert_eq!(state.docs[&1].name, "Plans");
}

#[test]
fn a_saved_document_reads_back() {
    let mut saved = SavedState { docs: None, tags: StoredTags::Missing, names: None, last_saved: None };
    let mut d = doc(4, vec![tab(40, "Tab 1", true, &["s"])]);
    d.tags = vec!["t".to_string()];
    saved.persist_doc(&d);
    let docs = saved.docs.as_ref().unwrap();
    assert_eq!(docs[&4].name, "doc 4");
    assert_eq!(history(&docs[&4].tabs[0]), vec!["s"]);
    assert_eq!(saved.names.as_ref().unwrap()[&4], "doc 4");
    assert_eq!(saved.last_saved, Some(4));
    match &saved.tags {
        StoredTags::List(l) => assert_eq!(l, &vec!["t".to_string()]),
        _ => panic!("tags are stored as one list"),
    }
}

#[test]
fn per_document_tags_are_flattened_on_save() {
    let mut by_doc = HashMap::new();
    by_doc.insert(4u128, vec!["old".to_string()]);
    let mut saved = SavedState { docs: None, tags: StoredTags::ByDoc(by_doc), names: None, last_saved: None };
    let mut d = doc(4, vec![tab(40, "Tab 1", true, &[])]);
    d.tags = vec!["new".to_string()];
    saved.persist_doc(&d);
    match &saved.tags {
        StoredTags::List(l) => assert_eq!(l, &vec!["old".to_string(), "new".to_string()]),
        _ => panic!("tags are stored as one list"),
    }
}

#[test]
fn a_removed_document_is_gone() {
    let mut saved = SavedState { docs: None, tags: StoredTags::Missing, names: None, last_saved: None };
    saved.persist_doc(&doc(4, vec![tab(40, "Tab 1", true, &[])]));
    saved.persist_doc(&doc(5, vec![tab(50, "Tab 1", true, &[])]));
    saved.remove_doc(5, 4);
    assert!(!saved.docs.as_ref().unwrap().contains_key(&5));
    assert!(saved.docs.as_ref().unwrap().contains_key(&4));
    assert!(!saved.names.as_ref().unwrap().contains_key(&5));
    assert_eq!(saved.last_saved, Some(4));
}

#[test]
fn duplicate_copies_a_document() {
    let d = doc(7, vec![tab(70, "Tab 1", true, &["a", "b"])]);
    let c = d.duplicate();
    assert_eq!(c.id, 7);
    assert_eq!(c.name, d.name);
    assert_eq!(history(&c.tabs[0]), vec!["a", "b"]);
}

#[test]
fn start_up_lists_documents_by_lower_case_name() {
    let mut state = state_with(vec![], None);
    let mut names = HashMap::new();
    names.insert(1u128, "Beta".to_string());
    names.insert(2u128, "alpha".to_string());
    names.insert(3u128, "gamma".to_string());
    let setup = state.add_list(Some(3), Some(&names), 100, 200);
    assert_eq!(state.current_document, Some(3));
    assert_eq!(setup.load, Some(3));
    let listed: Vec<(u128, String, bool)> =
        setup.items.iter().map(|i: &ListItem| (i.id, i.name.clone(), i.highlighted)).collect();
    assert_eq!(
        listed,
        vec![
            (2, "alpha".to_string(), false),
            (1, "Beta".to_string(), false),
            (3, "gamma".to_string(), true)
        ]
    );
    assert!(state.docs.is_empty());
}

#[test]
fn first_start_creates_a_blank_document() {
    let mut state = state_with(vec![], None);
    let setup = state.add_list(None, None, 100, 200);
    assert_eq!(state.current_document, Some(100));
    assert_eq!(setup.load, Some(100));
    assert_eq!(setup.items.len(), 1);
    assert_eq!(setup.items[0].name, UNTITLED);
    assert!(setup.items[0].highlighted);
    let d = &state.docs[&100];
    assert_eq!(d.tabs[0].id, 200);
    assert_eq!(d.tabs[0].name, "Tab 1");
    assert!(d.tabs[0].checkpoints.is_empty());
}

#[test]
fn confirmed_document_deletion_updates_the_store() {
    let mut state = state_with(
        vec![doc(1, vec![tab(10, "Tab 1", true, &[])]), doc(2, vec![tab(20, "Tab 1", true, &[])])],
        Some(1),
    );
    let mut saved = SavedState { docs: None, tags: StoredTags::Missing, names: None, last_saved: None };
    saved.persist_doc(&state.docs[&2].duplicate());
    saved.persist_doc(&state.docs[&1].duplicate());
    assert_eq!(saved.last_saved, Some(1));
    let mut ui = UiState::default();
    ui.modal_id = Some(7);
    ui.entity_to_edit = Some(3);
    assert!(state.confirm_modal(ModalEntity::Document, &vec![1, 2], &mut saved, &mut ui));
    assert_eq!(ui.modal_id, None);
    assert_eq!(ui.entity_to_edit, Some(3));
    assert_eq!(state.current_document, Some(2));
    assert!(!saved.docs.as_ref().unwrap().contains_key(&1));
    assert_eq!(saved.last_saved, Some(2));
}

#[test]
fn confirmed_tab_deletion_keeps_the_last_tab() {
    let mut state = state_with(vec![doc(1, vec![tab(10, "Tab 1", true, &[])])], Some(1));
    let mut saved = SavedState { docs: None, tags: StoredTags::Missing, names: None, last_saved: None };
    let mut ui = UiState::default();
    ui.modal_id = Some(7);
    assert!(!state.confirm_modal(ModalEntity::Tab, &vec![1], &mut saved, &mut ui));
    assert_eq!(state.docs[&1].tabs.len(), 1);
    assert_eq!(ui.modal_id, None);
}

#[test]
fn confirmed_tab_deletion_activates_the_last_remaining_tab() {
    let mut state = state_with(
        vec![doc(1, vec![tab(10, "Tab 1", false, &[]), tab(11, "Tab 2", true, &[]), tab(12, "Tab 3", false, &[])])],
        Some(1),
    );
    let mut saved = SavedState { docs: None, tags: StoredTags::Missing, names: None, last_saved: None };
    let mut ui = UiState::default();
    ui.modal_id = Some(7);
    assert!(state.confirm_modal(ModalEntity::Tab, &vec![1], &mut saved, &mut ui));
    let tabs: Vec<(u128, bool)> = state.docs[&1].tabs.iter().map(|t| (t.id, t.is_active)).collect();
    assert_eq!(tabs, vec![(10, false), (12, true)]);
    assert_eq!(ui.modal_id, None);
}

#[test]
fn cancelled_dialog_closes_and_changes_nothing_else() {
    let mut ui = UiState::default();
    ui.modal_id = Some(7);
    ui.doc_to_edit = Some(1);
    ui.cancel_modal();
    assert_eq!(ui.modal_id, None);
    assert_eq!(ui.doc_to_edit, Some(1));
}

#[test]
fn opening_a_document_loads_its_last_active_tab() {
    let d = doc(1, vec![tab(10, "Tab 1", true, &[]), tab(11, "Tab 2", false, &[]), tab(12, "Tab 3", true, &[])]);
    assert_eq!(d.tab_to_load(), Some(12));
    assert_eq!(doc(2, vec![tab(20, "Tab 1", false, &[])]).tab_to_load(), None);
}

#[test]
fn a_saved_tab_loads_back_what_was_saved() {
    let mut state = state_with(
        vec![doc(1, vec![tab(10, "Tab 1", false, &["a"]), tab(11, "Tab 2", true, &["b"])])],
        Some(1),
    );
    state.record_save(None, Some(10), "saved".to_string(), None);
    let mut d = state.docs.remove(&1).unwrap();
    assert_eq!(d.tabs[0].take_checkpoint(false).as_deref(), Some("saved"));
    assert_eq!(history(&d.tabs[1]), vec!["b"]);
}
