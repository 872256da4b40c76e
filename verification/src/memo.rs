//! The note data model: a note ("memo"), its optional window placement,
//! partial updates, change events, and the service error taxonomy.

use vstd::prelude::*;
use vstd::string::*;

verus! {

/// Window placement of an open note, in whole pixels.
#[derive(Debug, Clone, Copy, PartialEq)]
pub struct WindowState {
    pub is_open: bool,
    pub x: i64,
    pub y: i64,
    pub width: i64,
    pub height: i64,
    pub always_on_top: bool,
}

/// A single note: an immutable identity token, textual fields, the
/// last-modified timestamp in milliseconds since the epoch (set by the
/// service, never taken from the caller), and an optional window placement.
#[derive(Debug)]
pub struct Memo {
    pub id: String,
    pub title: String,
    pub content: String,
    pub color: String,
    pub updated_at: u64,
    pub window: Option<WindowState>,
}

/// Mathematical value of a [`Memo`]: every field as a plain value.
pub struct MemoV {
    pub id: Seq<char>,
    pub title: Seq<char>,
    pub content: Seq<char>,
    pub color: Seq<char>,
    pub updated_at: u64,
    pub window: Option<WindowState>,
}

impl View for Memo {
    type V = MemoV;

    open spec fn view(&self) -> MemoV {
        MemoV {
            id: self.id@,
            title: self.title@,
            content: self.content@,
            color: self.color@,
            updated_at: self.updated_at,
            window: self.window,
        }
    }
}

impl Clone for Memo {
    fn clone(&self) -> (res: Self)
        ensures
            res@ == self@,
    {
        Memo {
            id: self.id.clone(),
            title: self.title.clone(),
            content: self.content.clone(),
            color: self.color.clone(),
            updated_at: self.updated_at,
            window: self.window,
        }
    }
}

/// A partial update: only the fields that are present are applied.
pub struct MemoUpdate {
    pub title: Option<String>,
    pub content: Option<String>,
    pub color: Option<String>,
    pub window: Option<WindowState>,
}

/// Mathematical value of a [`MemoUpdate`].
pub struct MemoUpdateV {
    pub title: Option<Seq<char>>,
    pub content: Option<Seq<char>>,
    pub color: Option<Seq<char>>,
    pub window: Option<WindowState>,
}

impl View for MemoUpdate {
    type V = MemoUpdateV;

    open spec fn view(&self) -> MemoUpdateV {
        MemoUpdateV {
            title: match self.title {
                Some(t) => Some(t@),
                None => None,
            },
            content: match self.content {
                Some(c) => Some(c@),
                None => None,
            },
            color: match self.color {
                Some(c) => Some(c@),
                None => None,
            },
            window: self.window,
        }
    }
}

/// The note that results from applying update `u` to note `m` at time `now`:
/// present fields replace the old ones, the timestamp is refreshed, and the
/// identity is kept.
pub open spec fn merged(m: MemoV, u: MemoUpdateV, now: u64) -> MemoV {
    MemoV {
        id: m.id,
        title: match u.title {
            Some(t) => t,
            None => m.title,
        },
        content: match u.content {
            Some(c) => c,
            None => m.content,
        },
        color: match u.color {
            Some(c) => c,
            None => m.color,
        },
        updated_at: now,
        window: match u.window {
            Some(w) => Some(w),
            None => m.window,
        },
    }
}

/// Change notification handed to the UI transport after a mutation commits.
#[derive(Debug)]
pub enum MemoEvent {
    Created { memo: Memo },
    Updated { memo: Memo },
    Deleted { id: String },
    Reloaded { memos: Vec<Memo> },
}

/// Errors surfaced to mutation callers. Storage failures are never raised to
/// callers; they are handled best-effort at the persistence edge.
#[derive(Debug, Clone, Copy, PartialEq, Eq, Structural)]
pub enum NoteError {
    NotFound,
}

impl NoteError {
    /// Textual form of the error, for the command surface.
    pub fn message(&self) -> (r: String)
        ensures
            r@ == "memo not found"@,
    {
        let r = String::from_str("memo not found");
        r
    }
}

} // verus!
