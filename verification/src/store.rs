//! The record store: the in-memory, authoritative sequence of notes,
//! newest-created-first. Callers guard a `MemoStore` with a lock of their
//! choosing; every operation here is a short, purely in-memory mutation.

use vstd::prelude::*;
use crate::memo::{Memo, MemoV, MemoUpdate, NoteError, merged};

verus! {

/// Index of the first note with identity `id`, or `-1` if none has it.
pub open spec fn first_idx(s: Seq<MemoV>, id: Seq<char>) -> int
    decreases s.len(),
{
    if s.len() == 0 {
        -1
    } else if s[0].id == id {
        0
    } else {
        let r = first_idx(s.drop_first(), id);
        if r < 0 {
            -1
        } else {
            r + 1
        }
    }
}

/// Whether some note in `s` has identity `id`.
pub open spec fn contains_id(s: Seq<MemoV>, id: Seq<char>) -> bool {
    exists|i: int| 0 <= i < s.len() && (#[trigger] s[i]).id == id
}

/// `s` with every note of identity `id` removed, order otherwise kept.
pub open spec fn remove_id(s: Seq<MemoV>, id: Seq<char>) -> Seq<MemoV>
    decreases s.len(),
{
    if s.len() == 0 {
        Seq::<MemoV>::empty()
    } else if s[0].id == id {
        remove_id(s.drop_first(), id)
    } else {
        seq![s[0]] + remove_id(s.drop_first(), id)
    }
}

/// Identities are unique within the sequence.
pub open spec fn unique_ids(s: Seq<MemoV>) -> bool {
    forall|i: int, j: int|
        0 <= i < s.len() && 0 <= j < s.len() && (#[trigger] s[i]).id == (#[trigger] s[j]).id ==> i
            == j
}

/// What `first_idx` finds: the unique first match, if and only if one exists.
pub proof fn lemma_first_idx_spec(s: Seq<MemoV>, id: Seq<char>)
    ensures
        first_idx(s, id) >= 0 ==> first_idx(s, id) < s.len() && s[first_idx(s, id)].id == id
            && (forall|k: int| 0 <= k < first_idx(s, id) ==> s[k].id != id),
        (first_idx(s, id) >= 0) <==> contains_id(s, id),
        first_idx(s, id) < 0 ==> first_idx(s, id) == -1,
    decreases s.len(),
{
    if s.len() == 0 {
    } else if s[0].id == id {
    } else {
        lemma_first_idx_spec(s.drop_first(), id);
        let r = first_idx(s.drop_first(), id);
        if r >= 0 {
            assert(s[r + 1].id == id);
            assert forall|k: int| 0 <= k < r + 1 implies s[k].id != id by {
                if k >= 1 {
                    assert(s.drop_first()[k - 1].id != id);
                }
            }
        } else {
            if contains_id(s, id) {
                let j = choose|j: int| 0 <= j < s.len() && (#[trigger] s[j]).id == id;
                assert(s.drop_first()[j - 1].id == id);
            }
        }
        if contains_id(s.drop_first(), id) {
            let j = choose|j: int|
                0 <= j < s.drop_first().len() && (#[trigger] s.drop_first()[j]).id == id;
            assert(s[j + 1].id == id);
        }
    }
}

/// `first_idx` returns `i` when the prefix before `i` has no match and
/// position `i` does.
pub proof fn lemma_first_idx_found(s: Seq<MemoV>, id: Seq<char>, i: int)
    requires
        0 <= i < s.len(),
        s[i].id == id,
        forall|k: int| 0 <= k < i ==> s[k].id != id,
    ensures
        first_idx(s, id) == i,
    decreases i,
{
    if i == 0 {
    } else {
        assert(s[0].id != id);
        assert forall|k: int| 0 <= k < i - 1 implies s.drop_first()[k].id != id by {
            assert(s.drop_first()[k] == s[k + 1]);
        }
        assert(s.drop_first()[i - 1].id == id);
        lemma_first_idx_found(s.drop_first(), id, i - 1);
    }
}

/// `first_idx` returns `-1` when nothing matches.
pub proof fn lemma_first_idx_none(s: Seq<MemoV>, id: Seq<char>)
    requires
        forall|k: int| 0 <= k < s.len() ==> s[k].id != id,
    ensures
        first_idx(s, id) == -1,
    decreases s.len(),
{
    if s.len() == 0 {
    } else {
        assert forall|k: int| 0 <= k < s.drop_first().len() implies s.drop_first()[k].id != id by {
            assert(s.drop_first()[k] == s[k + 1]);
        }
        lemma_first_idx_none(s.drop_first(), id);
    }
}

/// Removing from a sequence extended by one note removes from the prefix and
/// keeps or drops the new note by its identity.
pub proof fn lemma_remove_id_push(s: Seq<MemoV>, id: Seq<char>, m: MemoV)
    ensures
        remove_id(s.push(m), id) == if m.id == id {
            remove_id(s, id)
        } else {
            remove_id(s, id).push(m)
        },
    decreases s.len(),
{
    if s.len() == 0 {
        assert(s.push(m)[0] == m);
        assert(s.push(m).drop_first() =~= s);
        assert(remove_id(s, id) == Seq::<MemoV>::empty());
        if m.id != id {
            assert(remove_id(s.push(m), id) == seq![m] + remove_id(s, id));
            assert(seq![m] + remove_id(s, id) =~= remove_id(s, id).push(m));
        }
    } else {
        assert(s.push(m)[0] == s[0]);
        assert(s.push(m).drop_first() =~= s.drop_first().push(m));
        lemma_remove_id_push(s.drop_first(), id, m);
        if s[0].id != id && m.id != id {
            assert(seq![s[0]] + remove_id(s.drop_first(), id).push(m) =~= (seq![s[0]]
                + remove_id(s.drop_first(), id)).push(m));
        }
    }
}

/// No note of the removed identity survives a removal.
pub proof fn lemma_remove_id_absent(s: Seq<MemoV>, id: Seq<char>)
    ensures
        !contains_id(remove_id(s, id), id),
    decreases s.len(),
{
    if s.len() == 0 {
    } else {
        lemma_remove_id_absent(s.drop_first(), id);
        if s[0].id != id {
            let r = remove_id(s, id);
            if contains_id(r, id) {
                let j = choose|j: int| 0 <= j < r.len() && (#[trigger] r[j]).id == id;
                assert(j != 0);
                assert(remove_id(s.drop_first(), id)[j - 1].id == id);
            }
        }
    }
}

/// Every note of a removal's result is one of the original notes.
pub proof fn lemma_remove_id_subset(s: Seq<MemoV>, id: Seq<char>)
    ensures
        forall|k: int|
            0 <= k < remove_id(s, id).len() ==> exists|j: int|
                0 <= j < s.len() && #[trigger] remove_id(s, id)[k] == s[j],
    decreases s.len(),
{
    if s.len() == 0 {
    } else {
        lemma_remove_id_subset(s.drop_first(), id);
        let rest = remove_id(s.drop_first(), id);
        let r = remove_id(s, id);
        if s[0].id == id {
            assert forall|k: int| 0 <= k < r.len() implies exists|j: int|
                0 <= j < s.len() && #[trigger] r[k] == s[j] by {
                assert(r[k] == rest[k]);
                let j0 = choose|j: int| 0 <= j < s.drop_first().len() && #[trigger] rest[k] == s.drop_first()[j];
                assert(r[k] == s[j0 + 1]);
            }
        } else {
            assert forall|k: int| 0 <= k < r.len() implies exists|j: int|
                0 <= j < s.len() && #[trigger] r[k] == s[j] by {
                if k == 0 {
                    assert(r[0] == s[0]);
                } else {
                    assert(r[k] == rest[k - 1]);
                    let j0 = choose|j: int|
                        0 <= j < s.drop_first().len() && #[trigger] rest[k - 1] == s.drop_first()[j];
                    assert(r[k] == s[j0 + 1]);
                }
            }
        }
    }
}

/// Deletion preserves identity uniqueness.
pub proof fn lemma_unique_ids_remove(s: Seq<MemoV>, id: Seq<char>)
    requires
        unique_ids(s),
    ensures
        unique_ids(remove_id(s, id)),
    decreases s.len(),
{
    if s.len() == 0 {
    } else {
        assert forall|i: int, j: int|
            0 <= i < s.drop_first().len() && 0 <= j < s.drop_first().len() && (#[trigger] s.drop_first()[i]).id
                == (#[trigger] s.drop_first()[j]).id implies i == j by {
            assert(s[i + 1].id == s[j + 1].id);
        }
        lemma_unique_ids_remove(s.drop_first(), id);
        lemma_remove_id_subset(s.drop_first(), id);
        if s[0].id != id {
            let rest = remove_id(s.drop_first(), id);
            let r = remove_id(s, id);
            assert forall|i: int, j: int|
                0 <= i < r.len() && 0 <= j < r.len() && (#[trigger] r[i]).id == (#[trigger] r[j]).id implies i
                    == j by {
                if i == 0 && j >= 1 {
                    assert(r[j] == rest[j - 1]);
                    let j0 = choose|q: int|
                        0 <= q < s.drop_first().len() && #[trigger] rest[j - 1] == s.drop_first()[q];
                    assert(s[0].id == s[j0 + 1].id);
                } else if j == 0 && i >= 1 {
                    assert(r[i] == rest[i - 1]);
                    let j0 = choose|q: int|
                        0 <= q < s.drop_first().len() && #[trigger] rest[i - 1] == s.drop_first()[q];
                    assert(s[0].id == s[j0 + 1].id);
                } else if i >= 1 && j >= 1 {
                    assert(r[i] == rest[i - 1]);
                    assert(r[j] == rest[j - 1]);
                }
            }
        }
    }
}

/// The mathematical values of a sequence of notes, element by element.
pub open spec fn memo_views(s: Seq<Memo>) -> Seq<MemoV> {
    s.map_values(|m: Memo| m@)
}

/// Length and elements of [`memo_views`], spelled out.
pub proof fn lemma_memo_views(s: Seq<Memo>)
    ensures
        memo_views(s).len() == s.len(),
        forall|i: int| 0 <= i < s.len() ==> #[trigger] memo_views(s)[i] == s[i]@,
{
}

/// The in-memory note sequence, newest-created-first.
pub struct MemoStore {
    memos: Vec<Memo>,
}

impl View for MemoStore {
    type V = Seq<MemoV>;

    closed spec fn view(&self) -> Seq<MemoV> {
        memo_views(self.memos@)
    }
}

impl MemoStore {
    /// An empty store: the starting state when no durable file exists or the
    /// file fails to decode.
    pub fn new() -> (s: Self)
        ensures
            s@ == Seq::<MemoV>::empty(),
    {
        let s = MemoStore { memos: Vec::new() };
        proof {
            assert(s@ =~= Seq::<MemoV>::empty());
        }
        s
    }

    /// A store holding exactly the given notes, in the given order: the
    /// starting state decoded from the durable file.
    pub fn from_memos(memos: Vec<Memo>) -> (s: Self)
        ensures
            s@ == memo_views(memos@),
    {
        MemoStore { memos }
    }

    /// Number of notes held.
    pub fn len(&self) -> (n: usize)
        ensures
            n == self@.len(),
    {
        self.memos.len()
    }

    /// A full clone of the current sequence: a point-in-time snapshot, safe
    /// to hand out or serialize outside the lock.
    pub fn get_all(&self) -> (r: Vec<Memo>)
        ensures
            memo_views(r@) == self@,
    {
        let mut r: Vec<Memo> = Vec::new();
        let mut i: usize = 0;
        while i < self.memos.len()
            invariant
                i <= self.memos.len(),
                memo_views(r@) =~= self@.take(i as int),
            decreases self.memos.len() - i,
        {
            let ghost r0 = r@;
            r.push(self.memos[i].clone());
            proof {
                lemma_memo_views(r0);
                lemma_memo_views(r@);
                lemma_memo_views(self.memos@);
                assert(r0.len() == i);
                assert forall|k: int|
                    0 <= k < memo_views(r@).len() implies memo_views(r@)[k] == #[trigger] self@.take(
                        i + 1,
                    )[k] by {
                    if k < i {
                        assert(r@[k] == r0[k]);
                        assert(memo_views(r0)[k] == self@.take(i as int)[k]);
                    } else {
                        assert(r@[k]@ == self.memos@[i as int]@);
                    }
                }
                assert(memo_views(r@) =~= self@.take(i + 1));
            }
            i = i + 1;
        }
        proof {
            assert(self@.take(self@.len() as int) =~= self@);
        }
        r
    }

    /// The first note with identity `id`, cloned, if any.
    pub fn find(&self, id: &String) -> (r: Option<Memo>)
        ensures
            match r {
                Some(m) => first_idx(self@, id@) >= 0 && m@ == self@[first_idx(self@, id@)],
                None => first_idx(self@, id@) == -1,
            },
            (r is Some) <==> contains_id(self@, id@),
    {
        proof {
            lemma_first_idx_spec(self@, id@);
        }
        let mut i: usize = 0;
        while i < self.memos.len()
            invariant
                i <= self.memos.len(),
                forall|k: int| 0 <= k < i ==> self@[k].id != id@,
            decreases self.memos.len() - i,
        {
            if self.memos[i].id == *id {
                proof {
                    lemma_first_idx_found(self@, id@, i as int);
                }
                return Some(self.memos[i].clone());
            }
            i = i + 1;
        }
        proof {
            lemma_first_idx_none(self@, id@);
        }
        None
    }

    /// Prepend a newly created note: new notes appear at the front.
    pub fn insert_front(&mut self, memo: Memo)
        ensures
            final(self)@ == seq![memo@] + old(self)@,
    {
        self.memos.insert(0, memo);
        proof {
            assert(self@ =~= seq![self.memos@[0]@] + old(self)@);
        }
    }

    /// Apply a partial update to the first note of identity `id`, refreshing
    /// its timestamp to `now`. Fails with `NotFound`, leaving the store
    /// unchanged, exactly when no note has that identity.
    pub fn update(&mut self, id: &String, upd: MemoUpdate, now: u64) -> (r: Result<
        Memo,
        NoteError,
    >)
        ensures
            match r {
                Ok(m) => ({
                    let i = first_idx(old(self)@, id@);
                    i >= 0 && m@ == merged(old(self)@[i], upd@, now) && final(self)@ == old(
                        self,
                    )@.update(i, m@)
                }),
                Err(e) => e == NoteError::NotFound && !contains_id(old(self)@, id@) && final(self)@
                    == old(self)@,
            },
            (r is Ok) <==> contains_id(old(self)@, id@),
    {
        proof {
            lemma_first_idx_spec(self@, id@);
        }
        let mut i: usize = 0;
        while i < self.memos.len()
            invariant
                i <= self.memos.len(),
                forall|k: int| 0 <= k < i ==> self@[k].id != id@,
                self.memos == old(self).memos,
            decreases self.memos.len() - i,
        {
            if self.memos[i].id == *id {
                proof {
                    lemma_first_idx_found(self@, id@, i as int);
                }
                let m_old = &self.memos[i];
                let m_new = Memo {
                    id: m_old.id.clone(),
                    title: match upd.title {
                        Some(t) => t,
                        None => m_old.title.clone(),
                    },
                    content: match upd.content {
                        Some(c) => c,
                        None => m_old.content.clone(),
                    },
                    color: match upd.color {
                        Some(c) => c,
                        None => m_old.color.clone(),
                    },
                    updated_at: now,
                    window: match upd.window {
                        Some(w) => Some(w),
                        None => m_old.window,
                    },
                };
                let m_ret = m_new.clone();
                self.memos.set(i, m_new);
                proof {
                    assert(self@ =~= old(self)@.update(i as int, m_ret@));
                }
                return Ok(m_ret);
            }
            i = i + 1;
        }
        proof {
            lemma_first_idx_none(self@, id@);
        }
        Err(NoteError::NotFound)
    }

    /// Delete every note of identity `id`. Fails with `NotFound`, leaving the
    /// store unchanged, exactly when no note has that identity.
    pub fn remove(&mut self, id: &String) -> (r: Result<(), NoteError>)
        ensures
            match r {
                Ok(()) => contains_id(old(self)@, id@) && final(self)@ == remove_id(
                    old(self)@,
                    id@,
                ),
                Err(e) => e == NoteError::NotFound && !contains_id(old(self)@, id@) && final(self)@
                    == old(self)@,
            },
            (r is Ok) <==> contains_id(old(self)@, id@),
    {
        let mut kept: Vec<Memo> = Vec::new();
        let mut removed = false;
        let mut i: usize = 0;
        while i < self.memos.len()
            invariant
                i <= self.memos.len(),
                self.memos == old(self).memos,
                memo_views(kept@) == remove_id(self@.take(i as int), id@),
                removed == contains_id(self@.take(i as int), id@),
            decreases self.memos.len() - i,
        {
            proof {
                assert(self@.take(i + 1) =~= self@.take(i as int).push(self@[i as int]));
                lemma_remove_id_push(self@.take(i as int), id@, self@[i as int]);
            }
            if self.memos[i].id == *id {
                removed = true;
                proof {
                    assert(self@.take(i + 1)[i as int].id == id@);
                }
            } else {
                kept.push(self.memos[i].clone());
                proof {
                    assert(memo_views(kept@) =~= remove_id(
                        self@.take(i as int),
                        id@,
                    ).push(self@[i as int]));
                    if contains_id(self@.take(i + 1), id@) {
                        let j = choose|j: int|
                            0 <= j < self@.take(i + 1).len() && (#[trigger] self@.take(i + 1)[j]).id
                                == id@;
                        if j < i {
                            assert(self@.take(i as int)[j].id == id@);
                        }
                    }
                    if contains_id(self@.take(i as int), id@) {
                        let j = choose|j: int|
                            0 <= j < self@.take(i as int).len() && (#[trigger] self@.take(
                                i as int,
                            )[j]).id == id@;
                        assert(self@.take(i + 1)[j].id == id@);
                    }
                }
            }
            i = i + 1;
        }
        proof {
            assert(self@.take(self@.len() as int) =~= self@);
        }
        if removed {
            self.memos = kept;
            Ok(())
        } else {
            Err(NoteError::NotFound)
        }
    }
}

} // verus!
