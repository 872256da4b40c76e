//! The note service: the public operation surface. Each operation mutates the
//! store (under the caller's lock), reports the change event to emit, and
//! says which kind of flush to perform; the caller runs the I/O around it.

use vstd::prelude::*;
use vstd::string::*;
use crate::memo::{Memo, MemoV, MemoUpdate, MemoEvent, NoteError};
use crate::memo::merged;
use crate::store::{MemoStore, memo_views, first_idx, contains_id, remove_id};
use crate::codec::{encode_memos, decode_memos, enc_memos, spec_decode};
use crate::flush::{FlushAction, SaveGate, created_memo};

verus! {

/// The application-wide shared state, as its sequential heart: callers wrap
/// the store in a mutual-exclusion lock and mirror the latch in an atomic.
pub struct AppState {
    pub store: MemoStore,
    pub gate: SaveGate,
}

impl AppState {
    /// Startup state: the sequence decoded from the durable text — empty when
    /// the file is absent (`None`) or fails to decode — and an unset latch.
    pub fn new(text: Option<&str>) -> (s: Self)
        ensures
            match text {
                Some(t) => match spec_decode(t@) {
                    Some(ms) => s.store@ == ms,
                    None => s.store@ == Seq::<MemoV>::empty(),
                },
                None => s.store@ == Seq::<MemoV>::empty(),
            },
            !s.gate.is_pending(),
    {
        AppState { store: load_memos_from_text(text), gate: SaveGate::new() }
    }
}

/// Startup load, compute half: decode the durable text; absence and decode
/// failure both start empty, never fail.
pub fn load_memos_from_text(text: Option<&str>) -> (store: MemoStore)
    ensures
        match text {
            Some(t) => match spec_decode(t@) {
                Some(ms) => store@ == ms,
                None => store@ == Seq::<MemoV>::empty(),
            },
            None => store@ == Seq::<MemoV>::empty(),
        },
{
    match text {
        Some(t) => match decode_memos(t) {
            Some(v) => MemoStore::from_memos(v),
            None => MemoStore::new(),
        },
        None => MemoStore::new(),
    }
}

/// Durable write, compute half: the full re-encode of a point-in-time
/// snapshot; the caller overwrites the durable file with it.
pub fn save_memos_text(store: &MemoStore) -> (text: String)
    ensures
        text@ == enc_memos(store@),
{
    let snapshot = store.get_all();
    encode_memos(&snapshot)
}

/// Immediate flush, compute half: encode the current store and reset the
/// latch, so a later mutation can arm a fresh deferred task. The caller writes
/// the text before returning to its own caller.
pub fn save_immediately(store: &MemoStore, gate: &mut SaveGate) -> (text: String)
    ensures
        text@ == enc_memos(store@),
        !final(gate).is_pending(),
{
    let text = save_memos_text(store);
    gate.clear();
    text
}

/// All notes, newest-created-first: a full snapshot from the cache.
pub fn load_memos(store: &MemoStore) -> (r: Vec<Memo>)
    ensures
        memo_views(r@) == store@,
{
    store.get_all()
}

/// A single note by identity.
pub fn get_memo(store: &MemoStore, id: &String) -> (r: Option<Memo>)
    ensures
        match r {
            Some(m) => first_idx(store@, id@) >= 0 && m@ == store@[first_idx(store@, id@)],
            None => first_idx(store@, id@) == -1,
        },
        (r is Some) <==> contains_id(store@, id@),
{
    store.find(id)
}

/// Create: store the caller's note with a service-set timestamp at the front,
/// ask for a deferred flush, and report the Created event. Never fails.
pub fn create_memo(store: &mut MemoStore, memo: Memo, now: u64) -> (r: (
    Memo,
    MemoEvent,
    FlushAction,
))
    ensures
        r.0@ == created_memo(memo@, now),
        final(store)@ == seq![r.0@] + old(store)@,
        r.1 matches MemoEvent::Created { memo: em } && em@ == r.0@,
        r.2 == FlushAction::Deferred,
{
    let mut m = memo;
    m.updated_at = now;
    let stored = m.clone();
    let ev = m.clone();
    store.insert_front(m);
    (stored, MemoEvent::Created { memo: ev }, FlushAction::Deferred)
}

/// Update: apply only the present fields to the note of that identity,
/// refresh its timestamp, ask for a deferred flush, and report the Updated
/// event. NotFound, with nothing changed, exactly when the identity is
/// absent.
pub fn update_memo(store: &mut MemoStore, id: &String, upd: MemoUpdate, now: u64) -> (r: Result<
    (Memo, MemoEvent, FlushAction),
    NoteError,
>)
    ensures
        match r {
            Ok(t) => ({
                let i = first_idx(old(store)@, id@);
                i >= 0 && t.0@ == merged(old(store)@[i], upd@, now) && final(store)@ == old(
                    store,
                )@.update(i, t.0@) && (t.1 matches MemoEvent::Updated { memo: em } && em@ == t.0@)
                    && t.2 == FlushAction::Deferred
            }),
            Err(e) => e == NoteError::NotFound && !contains_id(old(store)@, id@) && final(store)@
                == old(store)@,
        },
        (r is Ok) <==> contains_id(old(store)@, id@),
{
    match store.update(id, upd, now) {
        Ok(m) => {
            let ev = m.clone();
            Ok((m, MemoEvent::Updated { memo: ev }, FlushAction::Deferred))
        },
        Err(e) => Err(e),
    }
}

/// Delete: remove by identity, ask for an immediate flush — deletion is
/// durability-sensitive — and report the Deleted event carrying the identity.
/// NotFound, with nothing changed, exactly when the identity is absent.
pub fn delete_memo(store: &mut MemoStore, id: &String) -> (r: Result<
    (MemoEvent, FlushAction),
    NoteError,
>)
    ensures
        match r {
            Ok(t) => contains_id(old(store)@, id@) && final(store)@ == remove_id(old(store)@, id@)
                && (t.0 matches MemoEvent::Deleted { id: di } && di@ == id@) && t.1
                == FlushAction::Immediate,
            Err(e) => e == NoteError::NotFound && !contains_id(old(store)@, id@) && final(store)@
                == old(store)@,
        },
        (r is Ok) <==> contains_id(old(store)@, id@),
{
    match store.remove(id) {
        Ok(_) => Ok((MemoEvent::Deleted { id: id.clone() }, FlushAction::Immediate)),
        Err(e) => Err(e),
    }
}

/// Relies on `uuid::Uuid::new_v4` and its hyphenated `Display` form: a fresh
/// random version-4 identity token, always 36 characters. Nothing further can
/// be promised of a random value.
#[verifier::external_body]
fn uuid_v4_string() -> (r: String)
    ensures
        r@.len() == 36,
{
    uuid::Uuid::new_v4().to_string()
}

/// The tray's "new note" action, compute half: a fresh default note — default
/// title, yellow, empty content — stored at the front. The caller follows
/// with an immediate flush and opens the note's window.
pub fn tray_new_memo(store: &mut MemoStore, now: u64) -> (r: (Memo, MemoEvent, FlushAction))
    ensures
        r.0@.id.len() == 36,
        r.0@.title == "새 메모"@,
        r.0@.content == Seq::<char>::empty(),
        r.0@.color == "yellow"@,
        r.0@.updated_at == now,
        r.0@.window is None,
        final(store)@ == seq![r.0@] + old(store)@,
        r.1 matches MemoEvent::Created { memo: em } && em@ == r.0@,
        r.2 == FlushAction::Immediate,
{
    let memo = Memo {
        id: uuid_v4_string(),
        title: String::from_str("새 메모"),
        content: String::new(),
        color: String::from_str("yellow"),
        updated_at: now,
        window: None,
    };
    let stored = memo.clone();
    let ev = memo.clone();
    store.insert_front(memo);
    (stored, MemoEvent::Created { memo: ev }, FlushAction::Immediate)
}

} // verus!
