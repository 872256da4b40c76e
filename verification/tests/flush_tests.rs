//! The debounce protocol, driven step by step: the test plays the role the
//! runtime plays around the library — it spawns (at most) one deferred task
//! per burst, lets it fire after the quiescence window, and counts writes.

use mymemo::codec::decode_memos;
use mymemo::flush::{FlushAction, SaveGate};
use mymemo::memo::{Memo, MemoUpdate};
use mymemo::service::{create_memo, delete_memo, save_immediately, save_memos_text, update_memo};
use mymemo::store::MemoStore;

fn memo(id: &str, title: &str) -> Memo {
    Memo {
        id: id.to_string(),
        title: title.to_string(),
        content: String::new(),
        color: "yellow".to_string(),
        updated_at: 0,
        window: None,
    }
}

fn update_content(text: &str) -> MemoUpdate {
    MemoUpdate { title: None, content: Some(text.to_string()), color: None, window: None }
}

/// A tiny harness standing where the runtime stands: a disk cell, a write
/// counter, a task counter, and the save-pending latch.
struct Harness {
    store: MemoStore,
    gate: SaveGate,
    disk: Option<String>,
    writes: usize,
    timers_spawned: usize,
    timer_armed: bool,
}

impl Harness {
    fn new() -> Self {
        Harness {
            store: MemoStore::new(),
            gate: SaveGate::new(),
            disk: None,
            writes: 0,
            timers_spawned: 0,
            timer_armed: false,
        }
    }

    /// What the runtime does on `FlushAction::Deferred`: set the latch and
    /// spawn a timer only if none was in flight.
    fn act(&mut self, action: FlushAction) {
        match action {
            FlushAction::Deferred => {
                if self.gate.schedule_save() {
                    self.timers_spawned += 1;
                    self.timer_armed = true;
                }
            }
            FlushAction::Immediate => {
                let text = save_immediately(&self.store, &mut self.gate);
                self.disk = Some(text);
                self.writes += 1;
            }
        }
    }

    /// The deferred task firing after its 500ms sleep: it reads the store as
    /// it is *now*, writes, then resets the latch.
    fn fire_timer(&mut self) {
        assert!(self.timer_armed, "no deferred task in flight");
        let text = save_memos_text(&self.store);
        self.disk = Some(text);
        self.writes += 1;
        self.gate.clear();
        self.timer_armed = false;
    }
}

#[test]
fn burst_coalesces_to_one_write_of_final_state() {
    let mut h = Harness::new();
    // five creates and updates, all inside one quiescence window
    let (_, _, a1) = create_memo(&mut h.store, memo("a1", "one"), 1);
    h.act(a1);
    let (_, _, a2) = create_memo(&mut h.store, memo("b2", "two"), 2);
    h.act(a2);
    let (_, _, a3) = update_memo(&mut h.store, &"a1".to_string(), update_content("x"), 3)
        .map(|t| (t.0, t.1, t.2))
        .expect("found");
    h.act(a3);
    let (_, _, a4) = update_memo(&mut h.store, &"b2".to_string(), update_content("y"), 4)
        .map(|t| (t.0, t.1, t.2))
        .expect("found");
    h.act(a4);
    let (_, _, a5) = update_memo(&mut h.store, &"a1".to_string(), update_content("final"), 5)
        .map(|t| (t.0, t.1, t.2))
        .expect("found");
    h.act(a5);

    assert_eq!(h.writes, 0, "no write during the burst");
    assert_eq!(h.timers_spawned, 1, "one deferred task for the whole burst");

    h.fire_timer();
    assert_eq!(h.writes, 1, "exactly one write for the burst");
    let on_disk = decode_memos(h.disk.as_ref().unwrap()).expect("decodes");
    // the write reflects the state after all five operations, not the first
    assert_eq!(on_disk.len(), 2);
    let a = on_disk.iter().find(|m| m.id == "a1").unwrap();
    assert_eq!(a.content, "final");
    assert_eq!(a.updated_at, 5);
    let b = on_disk.iter().find(|m| m.id == "b2").unwrap();
    assert_eq!(b.content, "y");
}

#[test]
fn create_update_wait_writes_once_with_content() {
    // create note A (id "a1", title "x"), update its content to "hello"
    // within the window, let the window elapse
    let mut h = Harness::new();
    let (_, _, a1) = create_memo(&mut h.store, memo("a1", "x"), 1_000);
    h.act(a1);
    let (_, _, a2) = update_memo(&mut h.store, &"a1".to_string(), update_content("hello"), 1_100)
        .map(|t| (t.0, t.1, t.2))
        .expect("found");
    h.act(a2);
    assert_eq!(h.writes, 0);
    h.fire_timer(); // 600ms later
    assert_eq!(h.writes, 1, "exactly one file write occurred");
    let on_disk = decode_memos(h.disk.as_ref().unwrap()).expect("decodes");
    assert_eq!(on_disk.len(), 1);
    assert_eq!(on_disk[0].id, "a1");
    assert_eq!(on_disk[0].title, "x");
    assert_eq!(on_disk[0].content, "hello");
}

#[test]
fn delete_before_window_leaves_no_trace() {
    // create A, then delete it before the 500ms window elapses: the deferred
    // task still fires afterwards, but it reads the store at fire time, so no
    // stale write resurrects A
    let mut h = Harness::new();
    let (_, _, a1) = create_memo(&mut h.store, memo("a1", "doomed"), 1);
    h.act(a1);
    assert_eq!(h.writes, 0);

    let (_, action) = delete_memo(&mut h.store, &"a1".to_string()).expect("found");
    h.act(action);
    assert_eq!(h.writes, 1, "delete writes before returning");
    let after_delete = decode_memos(h.disk.as_ref().unwrap()).expect("decodes");
    assert!(after_delete.iter().all(|m| m.id != "a1"));

    h.fire_timer(); // the stale-armed task fires after deletion
    let final_disk = decode_memos(h.disk.as_ref().unwrap()).expect("decodes");
    assert!(final_disk.iter().all(|m| m.id != "a1"), "no trace of A in the final file");
    assert!(final_disk.is_empty());
}

#[test]
fn immediate_flush_clears_gate_for_next_burst() {
    let mut h = Harness::new();
    let (_, _, a1) = create_memo(&mut h.store, memo("a1", "t"), 1);
    h.act(a1);
    assert!(h.gate.pending());
    let (_, action) = delete_memo(&mut h.store, &"a1".to_string()).expect("found");
    h.act(action);
    assert!(!h.gate.pending(), "immediate flush resets the latch");
    // a fresh mutation can arm a fresh task
    let (_, _, a2) = create_memo(&mut h.store, memo("b2", "t"), 2);
    h.act(a2);
    assert_eq!(h.timers_spawned, 2);
}
