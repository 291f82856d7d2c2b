use editor_tabs::EditorState;

fn ids(s: &EditorState) -> Vec<String> {
    s.get_tabs().unwrap().into_iter().map(|t| t.id).collect()
}

fn titles(s: &EditorState) -> Vec<String> {
    s.get_tabs().unwrap().into_iter().map(|t| t.title).collect()
}

#[test]
fn create_order_and_unique_ids() {
    let mut s = EditorState::new();
    for name in ["a", "b", "c", "d"] {
        let t = s.create_tab(name.to_string());
        assert_eq!(t.id, name);
        assert_eq!(t.title, "Untitled");
    }
    assert_eq!(ids(&s), vec!["a", "b", "c", "d"]);
    let list = ids(&s);
    for i in 0..list.len() {
        for j in (i + 1)..list.len() {
            assert_ne!(list[i], list[j]);
        }
    }
}

#[test]
fn create_sets_active_to_new_tab() {
    let mut s = EditorState::new();
    s.create_tab("a".to_string());
    assert_eq!(s.get_current_open_tab().unwrap(), "a");
    s.create_tab("b".to_string());
    assert_eq!(s.get_current_open_tab().unwrap(), "b");
}

#[test]
fn new_tab_generates_fresh_hyphenated_ids() {
    let mut s = EditorState::new();
    let t1 = s.new_tab().unwrap();
    let t2 = s.new_tab().unwrap();
    assert_eq!(t1.id.len(), 36);
    assert_eq!(t2.id.len(), 36);
    assert_ne!(t1.id, t2.id);
    assert_eq!(t1.title, "Untitled");
    assert_eq!(t2.title, "Untitled");
    assert_eq!(s.get_current_open_tab().unwrap(), t2.id);
    assert_eq!(ids(&s), vec![t1.id, t2.id]);
}

#[test]
fn close_sole_tab_refused_as_noop() {
    let mut s = EditorState::new();
    s.create_tab("only".to_string());
    let r = s.close_tab("only".to_string()).unwrap();
    assert_eq!(r, None);
    assert_eq!(ids(&s), vec!["only"]);
    assert_eq!(s.get_current_open_tab().unwrap(), "only");
}

#[test]
fn close_on_empty_registry_is_noop() {
    let mut s = EditorState::new();
    let r = s.close_tab("ghost".to_string()).unwrap();
    assert_eq!(r, None);
    assert!(ids(&s).is_empty());
}

#[test]
fn close_middle_tab_focuses_slid_in_tab() {
    let mut s = EditorState::new();
    for name in ["a", "b", "c"] {
        s.create_tab(name.to_string());
    }
    let r = s.close_tab("b".to_string()).unwrap();
    assert_eq!(r, Some("c".to_string()));
    assert_eq!(ids(&s), vec!["a", "c"]);
    assert_eq!(s.get_current_open_tab().unwrap(), "c");
}

#[test]
fn close_last_tab_focuses_new_last() {
    let mut s = EditorState::new();
    for name in ["a", "b", "c"] {
        s.create_tab(name.to_string());
    }
    let r = s.close_tab("c".to_string()).unwrap();
    assert_eq!(r, Some("b".to_string()));
    assert_eq!(ids(&s), vec!["a", "b"]);
    assert_eq!(s.get_current_open_tab().unwrap(), "b");
}

#[test]
fn close_absent_tab_is_an_error() {
    let mut s = EditorState::new();
    s.create_tab("a".to_string());
    s.create_tab("b".to_string());
    let r = s.close_tab("ghost".to_string());
    assert_eq!(r, Err("Tab not found".to_string()));
    assert_eq!(ids(&s), vec!["a", "b"]);
}

#[test]
fn cycle_visits_each_tab_once_and_returns_to_start() {
    let mut s = EditorState::new();
    for name in ["a", "b", "c", "d"] {
        s.create_tab(name.to_string());
    }
    s.send_current_open_tab("b".to_string());
    let mut visited: Vec<String> = Vec::new();
    for _ in 0..4 {
        visited.push(s.cycle_tabs().unwrap());
    }
    assert_eq!(visited, vec!["c", "d", "a", "b"]);
    for i in 0..visited.len() {
        for j in (i + 1)..visited.len() {
            assert_ne!(visited[i], visited[j]);
        }
    }
    assert_eq!(s.get_current_open_tab().unwrap(), "b");
    assert_eq!(ids(&s), vec!["a", "b", "c", "d"]);
}

#[test]
fn cycle_wraps_from_last_to_first() {
    let mut s = EditorState::new();
    s.create_tab("a".to_string());
    s.create_tab("b".to_string());
    let r = s.cycle_tabs().unwrap();
    assert_eq!(r, "a");
    assert_eq!(s.get_current_open_tab().unwrap(), "a");
}

#[test]
fn cycle_on_empty_registry_is_an_error() {
    let mut s = EditorState::new();
    let r = s.cycle_tabs();
    assert_eq!(r, Err("No tabs available".to_string()));
}

#[test]
fn cycle_with_stale_pointer_is_a_distinct_error() {
    let mut s = EditorState::new();
    s.create_tab("a".to_string());
    s.send_current_open_tab("gone".to_string());
    let r = s.cycle_tabs();
    assert_eq!(r, Err("Failed to cycle tabs".to_string()));
    assert_eq!(s.get_current_open_tab().unwrap(), "gone");
}

#[test]
fn delete_removes_id_from_listing() {
    let mut s = EditorState::new();
    for name in ["a", "b", "c"] {
        s.create_tab(name.to_string());
    }
    s.delete_tab("b".to_string()).unwrap();
    let list = ids(&s);
    assert_eq!(list, vec!["a", "c"]);
    assert!(!list.contains(&"b".to_string()));
}

#[test]
fn delete_absent_id_is_a_noop() {
    let mut s = EditorState::new();
    s.create_tab("a".to_string());
    let r = s.delete_tab("ghost".to_string());
    assert_eq!(r, Ok(()));
    assert_eq!(ids(&s), vec!["a"]);
    assert_eq!(s.get_current_open_tab().unwrap(), "a");
}

#[test]
fn delete_leaves_active_pointer_untouched() {
    let mut s = EditorState::new();
    s.create_tab("a".to_string());
    s.create_tab("b".to_string());
    s.delete_tab("b".to_string()).unwrap();
    assert_eq!(s.get_current_open_tab().unwrap(), "b");
}

#[test]
fn load_existing_id_overwrites_title_only() {
    let mut s = EditorState::new();
    for name in ["a", "b", "c"] {
        s.create_tab(name.to_string());
    }
    let t = s.load_tab("b".to_string(), "renamed".to_string()).unwrap();
    assert_eq!(t.id, "b");
    assert_eq!(t.title, "renamed");
    assert_eq!(ids(&s), vec!["a", "b", "c"]);
    assert_eq!(titles(&s), vec!["Untitled", "renamed", "Untitled"]);
}

#[test]
fn load_new_id_appends_at_the_end() {
    let mut s = EditorState::new();
    s.create_tab("a".to_string());
    let t = s.load_tab("z".to_string(), "restored".to_string()).unwrap();
    assert_eq!(t.id, "z");
    assert_eq!(ids(&s), vec!["a", "z"]);
    assert_eq!(titles(&s), vec!["Untitled", "restored"]);
}

#[test]
fn rename_updates_title_and_keeps_order() {
    let mut s = EditorState::new();
    for name in ["a", "b"] {
        s.create_tab(name.to_string());
    }
    let t = s.update_tab_title("a".to_string(), "notes".to_string()).unwrap();
    assert_eq!(t.id, "a");
    assert_eq!(t.title, "notes");
    assert_eq!(ids(&s), vec!["a", "b"]);
    assert_eq!(titles(&s), vec!["notes", "Untitled"]);
}

#[test]
fn rename_absent_id_is_an_error() {
    let mut s = EditorState::new();
    s.create_tab("a".to_string());
    let r = s.update_tab_title("ghost".to_string(), "x".to_string());
    assert_eq!(r, Err("Tab not found".to_string()));
    assert_eq!(titles(&s), vec!["Untitled"]);
}

#[test]
fn active_pointer_stores_any_id_unvalidated() {
    let mut s = EditorState::new();
    assert_eq!(s.get_current_open_tab().unwrap(), "");
    s.send_current_open_tab("anything".to_string());
    assert_eq!(s.get_current_open_tab().unwrap(), "anything");
}

#[test]
fn listing_is_a_snapshot() {
    let mut s = EditorState::new();
    s.create_tab("a".to_string());
    let mut snap = s.get_tabs().unwrap();
    snap[0].title = "scribbled".to_string();
    assert_eq!(titles(&s), vec!["Untitled"]);
}

#[test]
fn recent_log_grows_once_per_create() {
    let mut s = EditorState::new();
    s.create_tab("a".to_string());
    s.create_tab("b".to_string());
    let log = s.get_recent_files();
    assert_eq!(log.len(), 2);
    assert_eq!(log[0].id, "a");
    assert_eq!(log[0].title, "Untitled");
    assert_eq!(log[1].id, "b");
}

#[test]
fn recent_log_survives_close_and_delete() {
    let mut s = EditorState::new();
    for name in ["a", "b", "c"] {
        s.create_tab(name.to_string());
    }
    s.close_tab("b".to_string()).unwrap();
    s.delete_tab("c".to_string()).unwrap();
    let log: Vec<String> = s.get_recent_files().into_iter().map(|e| e.id).collect();
    assert_eq!(log, vec!["a", "b", "c"]);
}

#[test]
fn two_creates_then_cycle_then_close() {
    let mut s = EditorState::new();
    s.create_tab("A".to_string());
    s.create_tab("B".to_string());
    assert_eq!(ids(&s), vec!["A", "B"]);
    assert_eq!(s.get_current_open_tab().unwrap(), "B");
    let r = s.cycle_tabs().unwrap();
    assert_eq!(r, "A");
    assert_eq!(s.get_current_open_tab().unwrap(), "A");
    let c = s.close_tab("A".to_string()).unwrap();
    assert_eq!(c, Some("B".to_string()));
    assert_eq!(ids(&s), vec!["B"]);
    assert_eq!(s.get_current_open_tab().unwrap(), "B");
}

#[test]
fn close_middle_of_three_slides_focus() {
    let mut s = EditorState::new();
    for name in ["A", "B", "C"] {
        s.create_tab(name.to_string());
    }
    s.send_current_open_tab("A".to_string());
    let r = s.close_tab("B".to_string()).unwrap();
    assert_eq!(r, Some("C".to_string()));
    assert_eq!(ids(&s), vec!["A", "C"]);
    assert_eq!(s.get_current_open_tab().unwrap(), "C");
}
