//! Drag payloads, and the removal of a thread from a stored layout.
use crate::json::{parse, put, render, Json};
use crate::layout_store::is_visible;
use crate::text::{owned, same};
use vstd::prelude::*;
#[allow(unused_imports)]
use crate::json::{
    field, field_items, field_str, field_u64, integer_tree, is_plain, json_document, json_text,
    lemma_trees, text_or_null, tree, tree_str, trees, JsonTree,
};
#[allow(unused_imports)]
use crate::layout_store::{no_entries, text_of_option};
#[allow(unused_imports)]
use crate::text::trimmed;

verus! {

broadcast use vstd::map::group_map_axioms;

// ---------------------------------------------------------------------------------------------
// Threads
// ---------------------------------------------------------------------------------------------
/// The thread and the workspace that a drag payload names.
pub open spec fn thread_drop_of(doc: JsonTree) -> (Option<Seq<char>>, Option<Seq<char>>) {
    (field_str(doc, "codexThreadId"@), field_str(doc, "workspacePath"@))
}

pub open spec fn texts_of(pair: (Option<String>, Option<String>)) -> (
    Option<Seq<char>>,
    Option<Seq<char>>,
) {
    (text_of_option(pair.0), text_of_option(pair.1))
}

fn owned_option(text: Option<&str>) -> (r: Option<String>)
    ensures
        text_of_option(r) == (match text {
            Some(s) => Some(s@),
            None => None,
        }),
{
    match text {
        Some(s) => Some(owned(s)),
        None => None,
    }
}

pub fn thread_drop_from_json(doc: &Json) -> (r: (Option<String>, Option<String>))
    ensures
        texts_of(r) == thread_drop_of(tree(*doc)),
{
    (owned_option(doc.str_at("codexThreadId")), owned_option(doc.str_at("workspacePath")))
}

pub fn parse_thread_drop_payload(raw: &str) -> (r: Option<(Option<String>, Option<String>)>)
    ensures
        match r {
            Some(pair) => json_document(raw@) matches Some(doc) && texts_of(pair)
                == thread_drop_of(doc),
            None => json_document(raw@) is None,
        },
{
    match parse(raw) {
        Some(doc) => Some(thread_drop_from_json(&doc)),
        None => None,
    }
}

/// The document that a dragged thread carries.
pub open spec fn thread_payload_tree(
    local_id: i64,
    remote_id: Option<Seq<char>>,
    workspace: Seq<char>,
) -> JsonTree {
    JsonTree::Obj(
        no_entries().insert("localThreadId"@, integer_tree(local_id as int)).insert(
            "threadId"@,
            text_or_null(remote_id),
        ).insert("codexThreadId"@, text_or_null(remote_id)).insert(
            "workspacePath"@,
            JsonTree::Str(workspace),
        ),
    )
}

fn json_of_option(text: &Option<String>) -> (j: Json)
    ensures
        tree(j) == text_or_null(text_of_option(*text)),
{
    match text {
        Some(s) => Json::Str(s.clone()),
        None => Json::Null,
    }
}

/// The payload of a dragged thread.
pub fn thread_drag_payload(
    local_thread_id: i64,
    remote_thread_id: &Option<String>,
    workspace_path: &str,
) -> (raw: String)
    ensures
        raw@ == json_text(
            thread_payload_tree(
                local_thread_id,
                text_of_option(*remote_thread_id),
                workspace_path@,
            ),
        ),
        json_document(raw@) == Some(
            thread_payload_tree(
                local_thread_id,
                text_of_option(*remote_thread_id),
                workspace_path@,
            ),
        ),
{
    let mut pairs: Vec<(String, Json)> = Vec::new();
    put(&mut pairs, "localThreadId", Json::Int(local_thread_id));
    put(&mut pairs, "threadId", json_of_option(remote_thread_id));
    put(&mut pairs, "codexThreadId", json_of_option(remote_thread_id));
    put(&mut pairs, "workspacePath", Json::Str(owned(workspace_path)));
    let doc = Json::Obj(pairs);
    assert(is_plain(tree(doc), 127)) by {
        let m = tree(doc)->Obj_0;
        assert forall|k: Seq<char>| #![trigger m[k]] m.contains_key(k) implies is_plain(m[k], 126) by {}
    }
    render(&doc)
}

/// A thread that is dropped is the one that was dragged, in the workspace that it was dragged
/// from.
pub proof fn lemma_thread_payload_round_trip(
    local_id: i64,
    remote_id: Option<Seq<char>>,
    workspace: Seq<char>,
)
    ensures
        thread_drop_of(thread_payload_tree(local_id, remote_id, workspace)) == (
            remote_id,
            Some(workspace),
        ),
{
    reveal_strlit("localThreadId");
    reveal_strlit("threadId");
    reveal_strlit("codexThreadId");
    reveal_strlit("workspacePath");
    assert("codexThreadId"@[0] == 'c' && "workspacePath"@[0] == 'w' && "localThreadId"@[0] == 'l'
        && "threadId"@[0] == 't');
}

// ---------------------------------------------------------------------------------------------
// Panes
// ---------------------------------------------------------------------------------------------
/// The pane that a drag payload moves.
pub open spec fn pane_reorder_of(doc: JsonTree) -> Option<u64> {
    if field_str(doc, "kind"@) == Some("paneReorder"@) {
        field_u64(doc, "paneId"@)
    } else {
        None
    }
}

pub fn pane_reorder_from_json(doc: &Json) -> (r: Option<u64>)
    ensures
        r == pane_reorder_of(tree(*doc)),
{
    match doc.str_at("kind") {
        Some(kind) => if same(kind, "paneReorder") {
            doc.u64_at("paneId")
        } else {
            None
        },
        None => None,
    }
}

pub fn parse_pane_reorder_payload(raw: &str) -> (r: Option<u64>)
    ensures
        r == (match json_document(raw@) {
            Some(doc) => pane_reorder_of(doc),
            None => None,
        }),
{
    match parse(raw) {
        Some(doc) => pane_reorder_from_json(&doc),
        None => None,
    }
}

pub open spec fn pane_payload_tree(pane_id: u64) -> JsonTree {
    JsonTree::Obj(
        no_entries().insert("kind"@, JsonTree::Str("paneReorder"@)).insert(
            "paneId"@,
            JsonTree::UInt(pane_id),
        ),
    )
}

/// The payload of a dragged pane.
pub fn pane_drag_payload(pane_id: u64) -> (raw: String)
    ensures
        raw@ == json_text(pane_payload_tree(pane_id)),
        json_document(raw@) == Some(pane_payload_tree(pane_id)),
{
    let mut pairs: Vec<(String, Json)> = Vec::new();
    put(&mut pairs, "kind", Json::Str(owned("paneReorder")));
    put(&mut pairs, "paneId", Json::UInt(pane_id));
    let doc = Json::Obj(pairs);
    assert(is_plain(tree(doc), 127)) by {
        let m = tree(doc)->Obj_0;
        assert forall|k: Seq<char>| #![trigger m[k]] m.contains_key(k) implies is_plain(m[k], 126) by {}
    }
    render(&doc)
}

/// A pane that is dropped is the one that was dragged, and a thread that is dropped is no pane.
pub proof fn lemma_pane_payload_round_trip(
    pane_id: u64,
    local_id: i64,
    remote_id: Option<Seq<char>>,
    workspace: Seq<char>,
)
    ensures
        pane_reorder_of(pane_payload_tree(pane_id)) == Some(pane_id),
        pane_reorder_of(thread_payload_tree(local_id, remote_id, workspace)) is None,
{
    reveal_strlit("kind");
    reveal_strlit("paneId");
    reveal_strlit("localThreadId");
    reveal_strlit("threadId");
    reveal_strlit("codexThreadId");
    reveal_strlit("workspacePath");
    assert("kind"@.len() == 4 && "paneId"@.len() == 6 && "localThreadId"@.len() == 13
        && "threadId"@.len() == 8 && "codexThreadId"@.len() == 13 && "workspacePath"@.len() == 13);
}

// ---------------------------------------------------------------------------------------------
// Removing a thread from a stored layout
// ---------------------------------------------------------------------------------------------
/// The thread that a stored pane shows.
pub open spec fn pane_thread(pane: JsonTree) -> Option<Seq<char>> {
    match field(pane, "threadId"@) {
        Some(f) => tree_str(f),
        None => field_str(pane, "codexThreadId"@),
    }
}

/// The panes that do not show `thread`.
pub open spec fn panes_without(panes: Seq<JsonTree>, thread: Seq<char>) -> Seq<JsonTree>
    decreases panes.len(),
{
    if panes.len() == 0 {
        Seq::empty()
    } else {
        let head = panes_without(panes.drop_last(), thread);
        if pane_thread(panes.last()) == Some(thread) {
            head
        } else {
            head.push(panes.last())
        }
    }
}

pub open spec fn has_pane(panes: Seq<JsonTree>, id: u64) -> bool {
    exists|i: int| 0 <= i < panes.len() && field_u64(#[trigger] panes[i], "id"@) == Some(id)
}

/// The focus among `panes`: as it was where its pane is there, else on the first pane; pane 1
/// where no identifier can be read.
pub open spec fn focus_among(panes: Seq<JsonTree>, focused: u64) -> u64 {
    if panes.len() == 0 {
        1
    } else if has_pane(panes, focused) {
        focused
    } else {
        match field_u64(panes[0], "id"@) {
            Some(id) => id,
            None => 1,
        }
    }
}

pub open spec fn stored_panes(doc: JsonTree) -> Seq<JsonTree> {
    match field_items(doc, "panes"@) {
        Some(items) => items,
        None => Seq::empty(),
    }
}

pub open spec fn stored_focus(doc: JsonTree) -> u64 {
    match field_u64(doc, "focusedPaneId"@) {
        Some(id) => id,
        None => 1,
    }
}

/// A stored layout without the panes that show `thread`; its other entries stay.
pub open spec fn layout_without(doc: JsonTree, thread: Seq<char>) -> JsonTree {
    let panes = panes_without(stored_panes(doc), thread);
    let rest = match doc {
        JsonTree::Obj(m) => m,
        _ => no_entries(),
    };
    JsonTree::Obj(
        rest.insert(
            "focusedPaneId"@,
            JsonTree::UInt(focus_among(panes, stored_focus(doc))),
        ).insert("panes"@, JsonTree::Arr(panes)),
    )
}

fn thread_of_pane(pane: &Json) -> (r: Option<&str>)
    ensures
        match r {
            Some(s) => pane_thread(tree(*pane)) == Some(s@),
            None => pane_thread(tree(*pane)) is None,
        },
{
    match pane.get("threadId") {
        Some(f) => f.as_str(),
        None => pane.str_at("codexThreadId"),
    }
}

fn keep_panes(items: &Vec<Json>, thread: &str) -> (kept: Vec<Json>)
    ensures
        trees(kept@) == panes_without(trees(items@), thread@),
{
    let ghost all = trees(items@);
    proof {
        lemma_trees(items@);
    }
    let mut kept: Vec<Json> = Vec::new();
    let mut i: usize = 0;
    assert(all.take(0) =~= Seq::empty());
    assert(trees(kept@) =~= Seq::empty());
    while i < items.len()
        invariant
            i <= items@.len(),
            all == trees(items@),
            all.len() == items@.len(),
            forall|k: int| 0 <= k < items@.len() ==> #[trigger] all[k] == tree(items@[k]),
            trees(kept@) == panes_without(all.take(i as int), thread@),
        decreases items.len() - i,
    {
        assert(all.take(i + 1).drop_last() =~= all.take(i as int));
        assert(all.take(i + 1).last() == all[i as int]);
        let gone = match thread_of_pane(&items[i]) {
            Some(t) => same(t, thread),
            None => false,
        };
        if !gone {
            let ghost before = kept@;
            kept.push(items[i].copy());
            assert(kept@.drop_last() =~= before);
        }
        i += 1;
    }
    assert(all.take(i as int) =~= all);
    kept
}

fn focus_in(panes: &Vec<Json>, focused: u64) -> (id: u64)
    ensures
        id == focus_among(trees(panes@), focused),
{
    proof {
        lemma_trees(panes@);
    }
    if panes.len() == 0 {
        return 1;
    }
    let mut i: usize = 0;
    while i < panes.len()
        invariant
            i <= panes@.len(),
            trees(panes@).len() == panes@.len(),
            forall|k: int| 0 <= k < panes@.len() ==> #[trigger] trees(panes@)[k] == tree(panes@[k]),
            forall|k: int|
                0 <= k < i ==> field_u64(#[trigger] trees(panes@)[k], "id"@) != Some(focused),
            panes@.len() > 0,
        decreases panes.len() - i,
    {
        assert(trees(panes@)[i as int] == tree(panes@[i as int]));
        if let Some(id) = panes[i].u64_at("id") {
            if id == focused {
                return focused;
            }
        }
        i += 1;
    }
    assert(trees(panes@)[0] == tree(panes@[0]));
    match panes[0].u64_at("id") {
        Some(id) => id,
        None => 1,
    }
}

/// A stored layout without the panes that show a thread.
pub fn layout_without_thread(doc: Json, codex_thread_id: &str) -> (r: Json)
    requires
        doc is Obj || doc is Null,
    ensures
        tree(r) == layout_without(tree(doc), codex_thread_id@),
{
    let ghost before = tree(doc);
    let empty: Vec<Json> = Vec::new();
    assert(trees(empty@) =~= Seq::empty());
    let panes = match doc.array_at("panes") {
        Some(items) => keep_panes(items, codex_thread_id),
        None => keep_panes(&empty, codex_thread_id),
    };
    let focused = match doc.u64_at("focusedPaneId") {
        Some(id) => id,
        None => 1,
    };
    let next = focus_in(&panes, focused);
    let mut pairs: Vec<(String, Json)> = match doc {
        Json::Obj(pairs) => pairs,
        _ => Vec::new(),
    };
    put(&mut pairs, "focusedPaneId", Json::UInt(next));
    put(&mut pairs, "panes", Json::Arr(panes));
    Json::Obj(pairs)
}

/// The document that is taken for a stored layout that cannot be read.
pub open spec fn blank_layout() -> JsonTree {
    JsonTree::Obj(
        no_entries().insert("version"@, JsonTree::UInt(1)).insert(
            "focusedPaneId"@,
            JsonTree::UInt(1),
        ).insert("panes"@, JsonTree::Arr(Seq::empty())),
    )
}

fn parse_layout(raw: &str) -> (doc: Json)
    ensures
        tree(doc) == (match json_document(raw@) {
            Some(t) => t,
            None => blank_layout(),
        }),
{
    match parse(raw) {
        Some(doc) => doc,
        None => {
            let none: Vec<Json> = Vec::new();
            assert(trees(none@) =~= Seq::empty());
            let mut pairs: Vec<(String, Json)> = Vec::new();
            put(&mut pairs, "version", Json::UInt(1));
            put(&mut pairs, "focusedPaneId", Json::UInt(1));
            put(&mut pairs, "panes", Json::Arr(none));
            Json::Obj(pairs)
        },
    }
}

pub open spec fn readable_layout(raw: Seq<char>) -> JsonTree {
    match json_document(raw) {
        Some(t) => t,
        None => blank_layout(),
    }
}

/// The text to store in place of `raw` once a thread is gone; none where the thread is blank, or
/// where the stored document is neither an object nor null and so holds no layout.
pub fn remove_thread_from_multiview_layout(raw: &str, codex_thread_id: &str) -> (r: Option<String>)
    ensures
        match r {
            Some(text) => trimmed(codex_thread_id@).len() > 0 && (readable_layout(raw@) is Obj
                || readable_layout(raw@) is Null) && text@ == json_text(
                layout_without(readable_layout(raw@), codex_thread_id@),
            ),
            None => trimmed(codex_thread_id@).len() == 0 || !(readable_layout(raw@) is Obj
                || readable_layout(raw@) is Null),
        },
{
    if !is_visible(codex_thread_id) {
        return None;
    }
    let doc = parse_layout(raw);
    let fits = match &doc {
        Json::Obj(_) => true,
        Json::Null => true,
        _ => false,
    };
    if !fits {
        return None;
    }
    let next = layout_without_thread(doc, codex_thread_id);
    Some(render(&next))
}

/// As [`remove_thread_from_multiview_layout`], under the name that Codex threads have.
pub fn remove_codex_thread_from_multiview_layout(raw: &str, codex_thread_id: &str) -> (r: Option<
    String,
>)
    ensures
        match r {
            Some(text) => trimmed(codex_thread_id@).len() > 0 && (readable_layout(raw@) is Obj
                || readable_layout(raw@) is Null) && text@ == json_text(
                layout_without(readable_layout(raw@), codex_thread_id@),
            ),
            None => trimmed(codex_thread_id@).len() == 0 || !(readable_layout(raw@) is Obj
                || readable_layout(raw@) is Null),
        },
{
    remove_thread_from_multiview_layout(raw, codex_thread_id)
}

proof fn lemma_panes_without(panes: Seq<JsonTree>, thread: Seq<char>)
    ensures
        forall|i: int|
            0 <= i < panes_without(panes, thread).len() ==> pane_thread(
                #[trigger] panes_without(panes, thread)[i],
            ) != Some(thread),
        forall|p: JsonTree| #[trigger]
            panes_without(panes, thread).contains(p) <==> panes.contains(p) && pane_thread(p)
                != Some(thread),
        panes_without(panes_without(panes, thread), thread) == panes_without(panes, thread),
    decreases panes.len(),
{
    if panes.len() > 0 {
        let rest = panes.drop_last();
        let last = panes.last();
        lemma_panes_without(rest, thread);
        let head = panes_without(rest, thread);
        assert(panes =~= rest.push(last));
        assert forall|p: JsonTree| #[trigger] panes_without(panes, thread).contains(p)
            <==> panes.contains(p) && pane_thread(p) != Some(thread) by {
            lemma_push_contains(rest, last, p);
            lemma_push_contains(head, last, p);
        }
        if pane_thread(last) != Some(thread) {
            assert(head.push(last).drop_last() =~= head);
        }
    }
}

proof fn lemma_push_contains(s: Seq<JsonTree>, x: JsonTree, p: JsonTree)
    ensures
        s.push(x).contains(p) <==> s.contains(p) || p == x,
{
    if s.contains(p) {
        let k = choose|k: int| 0 <= k < s.len() && s[k] == p;
        assert(s.push(x)[k] == p);
    }
    assert(s.push(x)[s.len() as int] == x);
}

/// A layout from which a thread was removed shows the other panes and none of that thread; a
/// focus that can be read is on one of its panes; removing the thread again changes nothing.
pub proof fn lemma_layout_without(doc: JsonTree, thread: Seq<char>)
    requires
        doc is Obj || doc is Null,
    ensures
        stored_panes(layout_without(doc, thread)) == panes_without(stored_panes(doc), thread),
        forall|p: JsonTree| #[trigger]
            stored_panes(layout_without(doc, thread)).contains(p) <==> stored_panes(doc).contains(p)
                && pane_thread(p) != Some(thread),
        has_pane(stored_panes(layout_without(doc, thread)), stored_focus(doc)) ==> stored_focus(
            layout_without(doc, thread),
        ) == stored_focus(doc),
        layout_without(layout_without(doc, thread), thread) == layout_without(doc, thread),
{
    let once = layout_without(doc, thread);
    reveal_strlit("focusedPaneId");
    reveal_strlit("panes");
    assert("focusedPaneId"@.len() == 13 && "panes"@.len() == 5);
    lemma_panes_without(stored_panes(doc), thread);
    let panes = panes_without(stored_panes(doc), thread);
    assert(stored_panes(once) == panes);
    let f = focus_among(panes, stored_focus(doc));
    assert(focus_among(panes, f) == f) by {
        if panes.len() > 0 && !has_pane(panes, stored_focus(doc)) {
            match field_u64(panes[0], "id"@) {
                Some(id) => {
                    assert(has_pane(panes, id));
                },
                None => {},
            }
        }
    }
    assert(layout_without(once, thread)->Obj_0 =~= once->Obj_0);
}

} // verus!
