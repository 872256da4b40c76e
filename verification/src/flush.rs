//! The debounced flush scheduler: the "save pending" latch that admits at most
//! one deferred flush task at a time, and a model of the whole persistence
//! system — store, latch, durable file — under which the coalescing and
//! durability guarantees are stated and proved.

use vstd::prelude::*;
use crate::memo::{MemoV, MemoUpdateV, merged};
use crate::store::{first_idx, contains_id, remove_id, unique_ids, lemma_first_idx_spec,
    lemma_remove_id_absent, lemma_unique_ids_remove};
use crate::codec::{enc_memos, spec_decode, wf_memo_v, lemma_decode_encode};

verus! {

/// What a mutation asks of the persistence layer: a write after the
/// quiescence window, or a write before the operation returns.
#[derive(Debug, Clone, Copy, PartialEq, Eq, Structural)]
pub enum FlushAction {
    Deferred,
    Immediate,
}

/// The "save pending" latch: the single piece of synchronization between
/// arbitrarily many mutation callers and at most one live deferred flush
/// task. Callers hold it in an atomic and mirror these transitions with
/// compare-and-swap; the contracts here are its sequential meaning.
pub struct SaveGate {
    pending: bool,
}

impl SaveGate {
    /// Clear at startup: no flush is in flight.
    pub fn new() -> (g: Self)
        ensures
            !g.is_pending(),
    {
        SaveGate { pending: false }
    }

    pub closed spec fn is_pending(&self) -> bool {
        self.pending
    }

    pub fn pending(&self) -> (b: bool)
        ensures
            b == self.is_pending(),
    {
        self.pending
    }

    /// Arm a deferred flush: test-and-set. Returns whether a new deferred
    /// task must be spawned — true exactly when no task was in flight, so a
    /// burst of mutations spawns one task, not many.
    pub fn schedule_save(&mut self) -> (spawn: bool)
        ensures
            final(self).is_pending(),
            spawn == !old(self).is_pending(),
    {
        let was = self.pending;
        self.pending = true;
        !was
    }

    /// Cleared after a flush completes its write, success or failure, so a
    /// later mutation can arm a fresh task.
    pub fn clear(&mut self)
        ensures
            !final(self).is_pending(),
    {
        self.pending = false;
    }
}

// ------------------------------------------------------------------
// The persistence system, modelled
// ------------------------------------------------------------------

/// The persistence system at one instant: the in-memory store, the latch, the
/// durable file's text, and how many writes and task spawns have happened.
pub struct SysState {
    pub store: Seq<MemoV>,
    pub pending: bool,
    pub disk: Seq<char>,
    pub writes: nat,
    pub spawns: nat,
}

/// A store-mutating command that arms the deferred flush.
pub enum OpV {
    Create { memo: MemoV, now: u64 },
    Update { id: Seq<char>, upd: MemoUpdateV, now: u64 },
}

/// The note as the service stores it on create: the caller's fields, the
/// service's timestamp.
pub open spec fn created_memo(m: MemoV, now: u64) -> MemoV {
    MemoV { updated_at: now, ..m }
}

/// What one command does to the note sequence.
pub open spec fn apply_op(s: Seq<MemoV>, op: OpV) -> Seq<MemoV> {
    match op {
        OpV::Create { memo, now } => seq![created_memo(memo, now)] + s,
        OpV::Update { id, upd, now } => {
            let i = first_idx(s, id);
            if i >= 0 {
                s.update(i, merged(s[i], upd, now))
            } else {
                s
            }
        },
    }
}

/// One create/update command: mutate the store and set the latch. A new task
/// is spawned only when the latch was unset.
pub open spec fn step_mutate(st: SysState, op: OpV) -> SysState {
    SysState {
        store: apply_op(st.store, op),
        pending: true,
        disk: st.disk,
        writes: st.writes,
        spawns: if !st.pending {
            st.spawns + 1
        } else {
            st.spawns
        },
    }
}

/// A flush reaching the disk — the deferred task firing after its window, or
/// an immediate flush: it reads the store as it is *now*, overwrites the file
/// with a full re-encode, and resets the latch.
pub open spec fn step_flush(st: SysState) -> SysState {
    SysState {
        store: st.store,
        pending: false,
        disk: enc_memos(st.store),
        writes: st.writes + 1,
        spawns: st.spawns,
    }
}

/// A delete command: remove by identity and flush immediately, before the
/// command returns. Absent identities change nothing.
pub open spec fn step_delete(st: SysState, id: Seq<char>) -> SysState {
    if contains_id(st.store, id) {
        step_flush(
            SysState {
                store: remove_id(st.store, id),
                pending: st.pending,
                disk: st.disk,
                writes: st.writes,
                spawns: st.spawns,
            },
        )
    } else {
        st
    }
}

/// A burst of commands, applied in order.
pub open spec fn run_mutations(st: SysState, ops: Seq<OpV>) -> SysState
    decreases ops.len(),
{
    if ops.len() == 0 {
        st
    } else {
        run_mutations(step_mutate(st, ops[0]), ops.drop_first())
    }
}

/// The note sequence after a burst of commands.
pub open spec fn fold_ops(s: Seq<MemoV>, ops: Seq<OpV>) -> Seq<MemoV>
    decreases ops.len(),
{
    if ops.len() == 0 {
        s
    } else {
        fold_ops(apply_op(s, ops[0]), ops.drop_first())
    }
}

/// While the latch is set, further commands mutate the store but neither
/// write nor spawn.
pub proof fn lemma_run_mutations_quiet(st: SysState, ops: Seq<OpV>)
    requires
        st.pending,
    ensures
        run_mutations(st, ops).writes == st.writes,
        run_mutations(st, ops).spawns == st.spawns,
        run_mutations(st, ops).disk == st.disk,
        run_mutations(st, ops).pending,
        run_mutations(st, ops).store == fold_ops(st.store, ops),
    decreases ops.len(),
{
    if ops.len() == 0 {
    } else {
        lemma_run_mutations_quiet(step_mutate(st, ops[0]), ops.drop_first());
    }
}

/// Coalescing: any burst of creates and updates inside one quiescence window
/// causes no disk write while it lasts and spawns exactly one deferred task;
/// the single write that follows is a full re-encode of the in-memory state
/// after the whole burst — the last state, not the first.
pub proof fn lemma_debounce_coalesces(st: SysState, ops: Seq<OpV>)
    requires
        !st.pending,
        ops.len() >= 1,
    ensures
        ({
            let quiet = run_mutations(st, ops);
            let flushed = step_flush(quiet);
            quiet.writes == st.writes && quiet.spawns == st.spawns + 1 && quiet.pending
                && quiet.store == fold_ops(st.store, ops) && flushed.writes == st.writes + 1
                && flushed.disk == enc_memos(fold_ops(st.store, ops))
        }),
{
    let first = step_mutate(st, ops[0]);
    lemma_run_mutations_quiet(first, ops.drop_first());
}

/// Removal keeps every note within machine limits.
pub proof fn lemma_remove_id_wf(s: Seq<MemoV>, id: Seq<char>)
    requires
        forall|k: int| 0 <= k < s.len() ==> wf_memo_v(#[trigger] s[k]),
    ensures
        remove_id(s, id).len() <= s.len(),
        forall|k: int| 0 <= k < remove_id(s, id).len() ==> wf_memo_v(#[trigger] remove_id(s, id)[k]),
    decreases s.len(),
{
    if s.len() == 0 {
    } else {
        assert forall|k: int| 0 <= k < s.drop_first().len() implies wf_memo_v(
            #[trigger] s.drop_first()[k],
        ) by {
            assert(s.drop_first()[k] == s[k + 1]);
        }
        lemma_remove_id_wf(s.drop_first(), id);
        if s[0].id != id {
            assert forall|k: int| 0 <= k < remove_id(s, id).len() implies wf_memo_v(
                #[trigger] remove_id(s, id)[k],
            ) by {
                if k >= 1 {
                    assert(remove_id(s, id)[k] == remove_id(s.drop_first(), id)[k - 1]);
                }
            }
        }
    }
}

/// Durable deletion: deleting an existing identity performs exactly one
/// write, before the call returns; the written file is the full re-encode of
/// the store without that identity, and decoding it finds no trace of it.
pub proof fn lemma_delete_durable(st: SysState, id: Seq<char>)
    requires
        contains_id(st.store, id),
        st.store.len() <= usize::MAX,
        forall|k: int| 0 <= k < st.store.len() ==> wf_memo_v(#[trigger] st.store[k]),
    ensures
        ({
            let nxt = step_delete(st, id);
            nxt.writes == st.writes + 1 && nxt.store == remove_id(st.store, id) && !contains_id(
                nxt.store,
                id,
            ) && nxt.disk == enc_memos(nxt.store) && spec_decode(nxt.disk) == Some(nxt.store)
                && !nxt.pending
        }),
{
    lemma_remove_id_absent(st.store, id);
    lemma_remove_id_wf(st.store, id);
    lemma_decode_encode(remove_id(st.store, id));
}

/// No stale resurrection: a deferred task armed before a delete, firing after
/// it, reads the store at fire time, so the late write also lacks the deleted
/// identity — the final file has no trace of the note, whichever write lands
/// last.
pub proof fn lemma_no_stale_write_after_delete(st: SysState, id: Seq<char>)
    requires
        contains_id(st.store, id),
        st.store.len() <= usize::MAX,
        forall|k: int| 0 <= k < st.store.len() ==> wf_memo_v(#[trigger] st.store[k]),
    ensures
        ({
            let deleted = step_delete(st, id);
            let late = step_flush(deleted);
            !contains_id(deleted.store, id) && deleted.disk == enc_memos(deleted.store)
                && late.disk == deleted.disk && spec_decode(late.disk) == Some(deleted.store)
        }),
{
    lemma_delete_durable(st, id);
}

/// The uniqueness invariant, established and preserved: identities are
/// unique in the empty store, and stay unique under a create with a fresh
/// identity, under any update, and under any delete.
pub proof fn lemma_unique_ids_invariant(s: Seq<MemoV>, op: OpV, id: Seq<char>)
    requires
        unique_ids(s),
        op matches OpV::Create { memo, .. } ==> !contains_id(s, memo.id),
    ensures
        unique_ids(Seq::<MemoV>::empty()),
        unique_ids(apply_op(s, op)),
        unique_ids(remove_id(s, id)),
{
    lemma_unique_ids_remove(s, id);
    let t = apply_op(s, op);
    match op {
        OpV::Create { memo, now } => {
            assert forall|i: int, j: int|
                0 <= i < t.len() && 0 <= j < t.len() && (#[trigger] t[i]).id == (#[trigger] t[j]).id
                    implies i == j by {
                if i == 0 && j >= 1 {
                    assert(t[j] == s[j - 1]);
                } else if j == 0 && i >= 1 {
                    assert(t[i] == s[i - 1]);
                } else if i >= 1 && j >= 1 {
                    assert(t[i] == s[i - 1]);
                    assert(t[j] == s[j - 1]);
                }
            }
        },
        OpV::Update { id: uid, upd, now } => {
            lemma_first_idx_spec(s, uid);
            assert(t.len() == s.len());
            assert forall|i: int, j: int|
                0 <= i < t.len() && 0 <= j < t.len() && (#[trigger] t[i]).id == (#[trigger] t[j]).id
                    implies i == j by {
                assert(t[i].id == s[i].id);
                assert(t[j].id == s[j].id);
            }
        },
    }
}

/// Identities alone decide where `first_idx` points.
pub proof fn lemma_first_idx_same_ids(s: Seq<MemoV>, t: Seq<MemoV>, id: Seq<char>)
    requires
        s.len() == t.len(),
        forall|k: int| 0 <= k < s.len() ==> (#[trigger] s[k]).id == t[k].id,
    ensures
        first_idx(s, id) == first_idx(t, id),
    decreases s.len(),
{
    if s.len() == 0 {
    } else {
        assert(s[0].id == t[0].id);
        assert forall|k: int| 0 <= k < s.drop_first().len() implies (
        #[trigger] s.drop_first()[k]).id == t.drop_first()[k].id by {
            assert(s.drop_first()[k] == s[k + 1]);
            assert(t.drop_first()[k] == t[k + 1]);
        }
        lemma_first_idx_same_ids(s.drop_first(), t.drop_first(), id);
    }
}

/// Lock correctness for independent callers: two updates to different,
/// present identities, serialized in either order by the store lock, are both
/// reflected afterwards — each identity's note carries its own update, and no
/// update is lost.
pub proof fn lemma_independent_updates(
    s: Seq<MemoV>,
    id1: Seq<char>,
    u1: MemoUpdateV,
    n1: u64,
    id2: Seq<char>,
    u2: MemoUpdateV,
    n2: u64,
)
    requires
        id1 != id2,
        contains_id(s, id1),
        contains_id(s, id2),
    ensures
        ({
            let t = apply_op(
                apply_op(s, OpV::Update { id: id1, upd: u1, now: n1 }),
                OpV::Update { id: id2, upd: u2, now: n2 },
            );
            let i1 = first_idx(s, id1);
            let i2 = first_idx(s, id2);
            t.len() == s.len() && t[i1] == merged(s[i1], u1, n1) && t[i2] == merged(s[i2], u2, n2)
                && contains_id(t, id1) && contains_id(t, id2)
        }),
{
    lemma_first_idx_spec(s, id1);
    lemma_first_idx_spec(s, id2);
    let i1 = first_idx(s, id1);
    let i2 = first_idx(s, id2);
    let s1 = apply_op(s, OpV::Update { id: id1, upd: u1, now: n1 });
    assert(s1 == s.update(i1, merged(s[i1], u1, n1)));
    assert forall|k: int| 0 <= k < s1.len() implies (#[trigger] s1[k]).id == s[k].id by {}
    lemma_first_idx_same_ids(s1, s, id2);
    let t = apply_op(s1, OpV::Update { id: id2, upd: u2, now: n2 });
    assert(i1 != i2);
    assert(t[i1] == merged(s[i1], u1, n1));
    assert(t[i2] == merged(s1[i2], u2, n2));
    assert(s1[i2] == s[i2]);
    assert((#[trigger] t[i1]).id == id1);
    assert(t[i2].id == id2);
}

/// Fresh stamp on create: immediately after a create, the new note stands
/// first, carries the supplied identity and the service's timestamp, and —
/// whenever the clock reading is not one of the existing stamps — that
/// timestamp differs from every note not just touched.
pub proof fn lemma_create_fresh_timestamp(s: Seq<MemoV>, m: MemoV, now: u64)
    requires
        forall|k: int| 0 <= k < s.len() ==> (#[trigger] s[k]).updated_at != now,
    ensures
        ({
            let t = apply_op(s, OpV::Create { memo: m, now: now });
            t.len() == s.len() + 1 && t[0].id == m.id && t[0].updated_at == now && first_idx(
                t,
                m.id,
            ) == 0 && (forall|k: int| 1 <= k < t.len() ==> (#[trigger] t[k]).updated_at != now)
        }),
{
    let t = apply_op(s, OpV::Create { memo: m, now: now });
    assert(t[0] == created_memo(m, now));
    assert forall|k: int| 1 <= k < t.len() implies (#[trigger] t[k]).updated_at != now by {
        assert(t[k] == s[k - 1]);
    }
}

} // verus!
