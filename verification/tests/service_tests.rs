use mymemo::codec::{decode_memos, encode_memos};
use mymemo::flush::{FlushAction, SaveGate};
use mymemo::memo::{Memo, MemoEvent, MemoUpdate, NoteError, WindowState};
use mymemo::service::{
    create_memo, delete_memo, get_memo, load_memos, load_memos_from_text, save_immediately,
    save_memos_text, tray_new_memo, update_memo, AppState,
};
use mymemo::store::MemoStore;

fn memo(id: &str, title: &str) -> Memo {
    Memo {
        id: id.to_string(),
        title: title.to_string(),
        content: String::new(),
        color: "yellow".to_string(),
        updated_at: 0,
        window: None,
    }
}

fn update_content(text: &str) -> MemoUpdate {
    MemoUpdate { title: None, content: Some(text.to_string()), color: None, window: None }
}

#[test]
fn create_prepends_and_stamps() {
    let mut store = MemoStore::new();
    create_memo(&mut store, memo("a1", "one"), 100);
    let (stored, event, action) = create_memo(&mut store, memo("b2", "two"), 200);
    assert_eq!(stored.id, "b2");
    assert_eq!(stored.updated_at, 200);
    assert_eq!(action, FlushAction::Deferred);
    match event {
        MemoEvent::Created { memo } => assert_eq!(memo.id, "b2"),
        other => panic!("wrong event: {:?}", other),
    }
    let all = load_memos(&store);
    assert_eq!(all.len(), 2);
    assert_eq!(all[0].id, "b2");
    assert_eq!(all[1].id, "a1");
}

#[test]
fn get_after_create_has_fresh_stamp() {
    let mut store = MemoStore::new();
    create_memo(&mut store, memo("a1", "old"), 100);
    create_memo(&mut store, memo("b2", "new"), 777);
    let got = get_memo(&store, &"b2".to_string()).expect("present");
    assert_eq!(got.id, "b2");
    assert_eq!(got.updated_at, 777);
    let untouched = get_memo(&store, &"a1".to_string()).expect("present");
    assert_ne!(untouched.updated_at, got.updated_at);
}

#[test]
fn update_changes_only_present_fields() {
    let mut store = MemoStore::new();
    create_memo(&mut store, memo("a1", "title"), 10);
    let (updated, _event, action) =
        update_memo(&mut store, &"a1".to_string(), update_content("hello"), 20).expect("found");
    assert_eq!(action, FlushAction::Deferred);
    assert_eq!(updated.title, "title");
    assert_eq!(updated.content, "hello");
    assert_eq!(updated.color, "yellow");
    assert_eq!(updated.updated_at, 20);
    let got = get_memo(&store, &"a1".to_string()).expect("present");
    assert_eq!(got.content, "hello");
}

#[test]
fn update_missing_id_is_not_found_and_unchanged() {
    let mut store = MemoStore::new();
    create_memo(&mut store, memo("a1", "t"), 1);
    let before = encode_memos(&load_memos(&store));
    let r = update_memo(&mut store, &"zz".to_string(), update_content("x"), 2);
    assert!(matches!(r, Err(NoteError::NotFound)));
    assert_eq!(encode_memos(&load_memos(&store)), before);
}

#[test]
fn update_on_empty_store_is_not_found() {
    let mut store = MemoStore::new();
    let r = update_memo(&mut store, &"a1".to_string(), update_content("x"), 2);
    assert!(matches!(r, Err(NoteError::NotFound)));
    assert_eq!(store.len(), 0);
}

#[test]
fn delete_missing_id_is_not_found_and_unchanged() {
    let mut store = MemoStore::new();
    create_memo(&mut store, memo("a1", "t"), 1);
    let before = encode_memos(&load_memos(&store));
    let r = delete_memo(&mut store, &"zz".to_string());
    assert!(matches!(r, Err(NoteError::NotFound)));
    assert_eq!(encode_memos(&load_memos(&store)), before);
}

#[test]
fn delete_is_immediate_and_removes() {
    let mut store = MemoStore::new();
    create_memo(&mut store, memo("a1", "t"), 1);
    create_memo(&mut store, memo("b2", "u"), 2);
    let (event, action) = delete_memo(&mut store, &"a1".to_string()).expect("found");
    assert_eq!(action, FlushAction::Immediate);
    match event {
        MemoEvent::Deleted { id } => assert_eq!(id, "a1"),
        other => panic!("wrong event: {:?}", other),
    }
    assert!(get_memo(&store, &"a1".to_string()).is_none());
    assert!(get_memo(&store, &"b2".to_string()).is_some());
}

#[test]
fn deleted_identity_absent_from_written_file() {
    let mut store = MemoStore::new();
    let mut gate = SaveGate::new();
    create_memo(&mut store, memo("a1", "t"), 1);
    create_memo(&mut store, memo("b2", "u"), 2);
    delete_memo(&mut store, &"a1".to_string()).expect("found");
    // the immediate flush that delete demands, before the call returns
    let written = save_immediately(&store, &mut gate);
    let on_disk = decode_memos(&written).expect("decodes");
    assert!(on_disk.iter().all(|m| m.id != "a1"));
    assert!(on_disk.iter().any(|m| m.id == "b2"));
}

#[test]
fn independent_updates_both_visible() {
    let mut store = MemoStore::new();
    create_memo(&mut store, memo("a1", "a"), 1);
    create_memo(&mut store, memo("b2", "b"), 2);
    // two callers, serialized by the store lock in some order
    update_memo(&mut store, &"a1".to_string(), update_content("from caller one"), 10)
        .expect("found");
    update_memo(&mut store, &"b2".to_string(), update_content("from caller two"), 11)
        .expect("found");
    let all = load_memos(&store);
    assert_eq!(all.len(), 2);
    assert!(all.iter().any(|m| m.id == "a1" && m.content == "from caller one"));
    assert!(all.iter().any(|m| m.id == "b2" && m.content == "from caller two"));
}

#[test]
fn load_from_text_round_trip() {
    let mut store = MemoStore::new();
    create_memo(&mut store, memo("a1", "키우기"), 9);
    create_memo(&mut store, memo("b2", "second"), 10);
    let text = save_memos_text(&store);
    let fresh = load_memos_from_text(Some(&text));
    let a = load_memos(&store);
    let b = load_memos(&fresh);
    assert_eq!(a.len(), b.len());
    for (x, y) in a.iter().zip(b.iter()) {
        assert_eq!(x.id, y.id);
        assert_eq!(x.title, y.title);
        assert_eq!(x.content, y.content);
        assert_eq!(x.color, y.color);
        assert_eq!(x.updated_at, y.updated_at);
        assert_eq!(x.window, y.window);
    }
}

#[test]
fn load_from_absent_or_bad_text_starts_empty() {
    assert_eq!(load_memos(&load_memos_from_text(None)).len(), 0);
    assert_eq!(load_memos(&load_memos_from_text(Some("corrupt ~~~"))).len(), 0);
    let app = AppState::new(Some("not a file"));
    assert_eq!(load_memos(&app.store).len(), 0);
    assert!(!app.gate.pending());
}

#[test]
fn tray_new_memo_defaults() {
    let mut store = MemoStore::new();
    let (stored, _event, action) = tray_new_memo(&mut store, 123);
    assert_eq!(action, FlushAction::Immediate);
    assert_eq!(stored.id.chars().count(), 36);
    assert_eq!(stored.title, "새 메모");
    assert_eq!(stored.content, "");
    assert_eq!(stored.color, "yellow");
    assert_eq!(stored.updated_at, 123);
    assert!(stored.window.is_none());
    // identities are random: two creations must not collide
    let (second, _, _) = tray_new_memo(&mut store, 124);
    assert_ne!(stored.id, second.id);
}

#[test]
fn error_message_text() {
    assert_eq!(NoteError::NotFound.message(), "memo not found");
}

#[test]
fn duplicate_identity_first_wins_and_delete_removes_all() {
    // the service trusts callers for identities; a duplicated one is read by
    // its first (newest) occurrence, and deletion clears every occurrence
    let mut store = MemoStore::new();
    create_memo(&mut store, memo("dup", "older"), 1);
    create_memo(&mut store, memo("dup", "newer"), 2);
    let got = get_memo(&store, &"dup".to_string()).expect("present");
    assert_eq!(got.title, "newer");
    delete_memo(&mut store, &"dup".to_string()).expect("found");
    assert!(get_memo(&store, &"dup".to_string()).is_none());
    assert_eq!(store.len(), 0);
}

#[test]
fn update_can_set_window_placement() {
    let mut store = MemoStore::new();
    create_memo(&mut store, memo("a1", "t"), 1);
    let w = WindowState { is_open: true, x: 10, y: -20, width: 300, height: 350, always_on_top: true };
    let upd = MemoUpdate { title: None, content: None, color: None, window: Some(w) };
    let (m, _, _) = update_memo(&mut store, &"a1".to_string(), upd, 2).expect("found");
    assert_eq!(m.window, Some(w));
    // and it survives the durable round trip
    let text = save_memos_text(&store);
    let back = load_memos(&load_memos_from_text(Some(&text)));
    assert_eq!(back[0].window, Some(w));
}
