//! What the panes of the board show, and which threads may be dropped on them.
use crate::initial_layout::{codex_thread_exists, ThreadDirectory};
use crate::layout_store::is_visible;
use crate::number::decimal_text;
use crate::payload::parse_thread_drop_payload;
use crate::text::{concat, owned, same};
use crate::threads::copy_option;
use vstd::prelude::*;
#[allow(unused_imports)]
use crate::json::json_document;
#[allow(unused_imports)]
use crate::layout_store::{text_of_option, visible_text};
#[allow(unused_imports)]
use crate::number::decimal;
#[allow(unused_imports)]
use crate::payload::{texts_of, thread_drop_of};
#[allow(unused_imports)]
use crate::text::str_option;

verus! {

/// The title of a pane: that of its thread, unless it is blank.
pub open spec fn shown_title(title: Option<Seq<char>>) -> Seq<char> {
    match visible_text(title) {
        Some(text) => text,
        None => "New thread"@,
    }
}

pub fn pane_title(thread_title: Option<&str>) -> (text: String)
    ensures
        text@ == shown_title(str_option(thread_title)),
{
    match thread_title {
        Some(title) => if is_visible(title) {
            owned(title)
        } else {
            owned("New thread")
        },
        None => owned("New thread"),
    }
}

/// What a pane is called while it is dragged.
pub open spec fn dragged_title(pane_id: u64, title: Option<Seq<char>>) -> Seq<char> {
    match visible_text(title) {
        Some(text) => text,
        None => "Pane "@ + decimal(pane_id as nat),
    }
}

pub fn pane_drag_label(pane_id: u64, thread_title: Option<&str>) -> (text: String)
    ensures
        text@ == dragged_title(pane_id, str_option(thread_title)),
{
    match thread_title {
        Some(title) => if is_visible(title) {
            return owned(title);
        },
        None => {},
    }
    concat("Pane ", decimal_text(pane_id).as_str())
}

/// Whether a pane shows the icon of a profile: it has a thread, and its workspace shows icons.
pub fn pane_icon_shown(
    thread_workspace: Option<i64>,
    shown: &std::collections::HashMap<i64, bool>,
) -> (r: bool)
    ensures
        r == (thread_workspace matches Some(id) && shown@.contains_key(id) && shown@[id]),
{
    broadcast use vstd::std_specs::hash::group_hash_axioms;

    match thread_workspace {
        Some(id) => match shown.get(&id) {
            Some(on) => *on,
            None => false,
        },
        None => false,
    }
}

/// The thread and the workspace that are opened for a drop, given what its payload names: the
/// thread has to be named and open, and no pane may be on its way.
pub open spec fn accepted_drop(
    db: ThreadDirectory,
    pane_is_dragged: bool,
    named: Option<(Option<Seq<char>>, Option<Seq<char>>)>,
) -> Option<(Seq<char>, Option<Seq<char>>)> {
    if pane_is_dragged {
        None
    } else {
        match named {
            Some((Some(thread), workspace)) => if db.knows(thread) {
                Some((thread, workspace))
            } else {
                None
            },
            _ => None,
        }
    }
}

pub open spec fn drop_model(drop: Option<(String, Option<String>)>) -> Option<
    (Seq<char>, Option<Seq<char>>),
> {
    match drop {
        Some(pair) => Some((pair.0@, text_of_option(pair.1))),
        None => None,
    }
}

pub open spec fn named_model(named: Option<(Option<String>, Option<String>)>) -> Option<
    (Option<Seq<char>>, Option<Seq<char>>),
> {
    match named {
        Some(pair) => Some(texts_of(pair)),
        None => None,
    }
}

pub fn accept_drop(
    db: &ThreadDirectory,
    pane_is_dragged: bool,
    named: &Option<(Option<String>, Option<String>)>,
) -> (r: Option<(String, Option<String>)>)
    ensures
        drop_model(r) == accepted_drop(*db, pane_is_dragged, named_model(*named)),
{
    if pane_is_dragged {
        return None;
    }
    match named {
        Some(pair) => match &pair.0 {
            Some(thread) => if codex_thread_exists(db, thread.as_str()) {
                Some((owned(thread.as_str()), copy_option(&pair.1)))
            } else {
                None
            },
            None => None,
        },
        None => None,
    }
}

/// The thread and the workspace that are opened for a drop of this text.
pub fn dropped_thread(db: &ThreadDirectory, pane_is_dragged: bool, raw: &str) -> (r: Option<
    (String, Option<String>),
>)
    ensures
        drop_model(r) == accepted_drop(
            *db,
            pane_is_dragged,
            match json_document(raw@) {
                Some(doc) => Some(thread_drop_of(doc)),
                None => None,
            },
        ),
{
    let named = parse_thread_drop_payload(raw);
    accept_drop(db, pane_is_dragged, &named)
}

/// What the board follows: the active thread, its workspace, and the thread that waits for a
/// profile.
#[derive(Debug)]
pub struct ActiveView {
    pub thread_id: Option<String>,
    pub workspace_path: Option<String>,
    pub pending_profile_thread_id: Option<i64>,
}

fn same_option(a: &Option<String>, b: &Option<String>) -> (r: bool)
    ensures
        r == (text_of_option(*a) == text_of_option(*b)),
{
    match (a, b) {
        (Some(x), Some(y)) => same(x.as_str(), y.as_str()),
        (None, None) => true,
        _ => false,
    }
}

/// Whether the board has to follow a change.
pub fn view_changed(before: &ActiveView, now: &ActiveView) -> (r: bool)
    ensures
        r == !(text_of_option(before.thread_id) == text_of_option(now.thread_id)
            && text_of_option(before.workspace_path) == text_of_option(now.workspace_path)
            && before.pending_profile_thread_id == now.pending_profile_thread_id),
{
    let same_pending = match (before.pending_profile_thread_id, now.pending_profile_thread_id) {
        (Some(a), Some(b)) => a == b,
        (None, None) => true,
        _ => false,
    };
    !same_pending || !same_option(&before.thread_id, &now.thread_id) || !same_option(
        &before.workspace_path,
        &now.workspace_path,
    )
}

/// The directory that the git page works in: the active workspace where it exists, else the one
/// that was used last where that exists.
pub fn workspace_root_choice<'a>(
    active: Option<(&'a str, bool)>,
    saved: Option<(&'a str, bool)>,
) -> (r: Option<&'a str>)
    ensures
        r == (match active {
            Some((path, true)) => Some(path),
            _ => match saved {
                Some((path, true)) => Some(path),
                _ => None,
            },
        }),
{
    match active {
        Some((path, exists_now)) => if exists_now {
            return Some(path);
        },
        None => {},
    }
    match saved {
        Some((path, exists_now)) => if exists_now {
            Some(path)
        } else {
            None
        },
        None => None,
    }
}

} // verus!
