//! The pane layout as it is stored between sessions.
use crate::json::{parse, put, render, Json};
use crate::text::{owned, same, trim};
use vstd::prelude::*;
#[allow(unused_imports)]
use crate::columns::grid;
#[allow(unused_imports)]
use crate::json::{
    field_items, field_str, field_u64, is_plain, json_document, json_text, lemma_trees,
    text_or_null, tree, tree_items, tree_u64, trees, JsonTree,
};
#[allow(unused_imports)]
use crate::text::trimmed;

verus! {

broadcast use vstd::map::group_map_axioms;

// ---------------------------------------------------------------------------------------------
// Tabs
// ---------------------------------------------------------------------------------------------
/// The tab that a name stands for: `git`, `files`, or else `chat`.
pub open spec fn tab_name(tab: Seq<char>) -> Seq<char> {
    if tab == "git"@ {
        "git"@
    } else if tab == "files"@ {
        "files"@
    } else {
        "chat"@
    }
}

pub fn normalize_tab_name(tab: &str) -> (name: String)
    ensures
        name@ == tab_name(tab@),
{
    if same(tab, "git") {
        owned("git")
    } else if same(tab, "files") {
        owned("files")
    } else {
        owned("chat")
    }
}

pub open spec fn tab_index(tab: Seq<char>) -> usize {
    if tab == "git"@ {
        1
    } else if tab == "files"@ {
        2
    } else {
        0
    }
}

/// The position of the tab button that is lit for a tab.
pub fn active_idx_for_tab(tab: &str) -> (idx: usize)
    ensures
        idx == tab_index(tab@),
{
    if same(tab, "git") {
        1
    } else if same(tab, "files") {
        2
    } else {
        0
    }
}

/// Normalizing a tab name twice changes nothing more, and lights the same button.
pub proof fn lemma_tab_name_idempotent(tab: Seq<char>)
    ensures
        tab_name(tab_name(tab)) == tab_name(tab),
        tab_index(tab_name(tab)) == tab_index(tab),
{
    reveal_strlit("git");
    reveal_strlit("files");
    reveal_strlit("chat");
    assert("chat"@.len() == 4 && "git"@.len() == 3 && "files"@.len() == 5);
}

// ---------------------------------------------------------------------------------------------
// Stored panes
// ---------------------------------------------------------------------------------------------
/// A pane as it is stored.
#[derive(Debug)]
pub struct PersistedPane {
    pub id: u64,
    pub codex_thread_id: Option<String>,
    pub workspace_path: Option<String>,
    pub tab: String,
    pub column: Option<usize>,
    pub row: Option<usize>,
}

/// A layout as it is stored.
#[derive(Debug)]
pub struct PersistedLayout {
    pub focused_pane_id: u64,
    pub panes: Vec<PersistedPane>,
    pub columns: Option<Vec<Vec<u64>>>,
}

#[verifier::ext_equal]
pub ghost struct PaneModel {
    pub id: u64,
    pub thread: Option<Seq<char>>,
    pub workspace: Option<Seq<char>>,
    pub tab: Seq<char>,
    pub column: Option<usize>,
    pub row: Option<usize>,
}

#[verifier::ext_equal]
pub ghost struct LayoutModel {
    pub focused: u64,
    pub panes: Seq<PaneModel>,
    pub columns: Option<Seq<Seq<u64>>>,
}

pub open spec fn text_of_option(text: Option<String>) -> Option<Seq<char>> {
    match text {
        Some(s) => Some(s@),
        None => None,
    }
}

impl PersistedPane {
    pub open spec fn model(self) -> PaneModel {
        PaneModel {
            id: self.id,
            thread: text_of_option(self.codex_thread_id),
            workspace: text_of_option(self.workspace_path),
            tab: self.tab@,
            column: self.column,
            row: self.row,
        }
    }
}

pub open spec fn pane_models(panes: Seq<PersistedPane>) -> Seq<PaneModel> {
    Seq::new(panes.len(), |i: int| panes[i].model())
}

impl PersistedLayout {
    pub open spec fn model(self) -> LayoutModel {
        LayoutModel {
            focused: self.focused_pane_id,
            panes: pane_models(self.panes@),
            columns: match self.columns {
                Some(columns) => Some(grid(columns@)),
                None => None,
            },
        }
    }
}

// ---------------------------------------------------------------------------------------------
// Reading
// ---------------------------------------------------------------------------------------------
/// `text` trimmed, where something is left of it.
pub open spec fn trimmed_text(text: Option<Seq<char>>) -> Option<Seq<char>> {
    match text {
        Some(s) => if trimmed(s).len() > 0 {
            Some(trimmed(s))
        } else {
            None
        },
        None => None,
    }
}

/// `text` as it is, where it is more than whitespace.
pub open spec fn visible_text(text: Option<Seq<char>>) -> Option<Seq<char>> {
    match text {
        Some(s) => if trimmed(s).len() > 0 {
            Some(s)
        } else {
            None
        },
        None => None,
    }
}

pub open spec fn as_index(v: Option<u64>) -> Option<usize> {
    match v {
        Some(n) => Some(n as usize),
        None => None,
    }
}

/// The pane that an entry describes; none where it has no identifier.
pub open spec fn pane_of(t: JsonTree) -> Option<PaneModel> {
    match field_u64(t, "id"@) {
        None => None,
        Some(id) => Some(
            PaneModel {
                id,
                thread: trimmed_text(field_str(t, "codexThreadId"@)),
                workspace: visible_text(field_str(t, "workspacePath"@)),
                tab: match field_str(t, "tab"@) {
                    Some(tab) => tab_name(tab),
                    None => "chat"@,
                },
                column: as_index(field_u64(t, "column"@)),
                row: as_index(field_u64(t, "row"@)),
            },
        ),
    }
}

/// The panes that the entries describe.
pub open spec fn panes_of(items: Seq<JsonTree>) -> Seq<PaneModel>
    decreases items.len(),
{
    if items.len() == 0 {
        Seq::empty()
    } else {
        match pane_of(items.last()) {
            Some(pane) => panes_of(items.drop_last()).push(pane),
            None => panes_of(items.drop_last()),
        }
    }
}

/// The identifiers among the items.
pub open spec fn ids_of(items: Seq<JsonTree>) -> Seq<u64>
    decreases items.len(),
{
    if items.len() == 0 {
        Seq::empty()
    } else {
        match tree_u64(items.last()) {
            Some(id) => ids_of(items.drop_last()).push(id),
            None => ids_of(items.drop_last()),
        }
    }
}

/// The columns that the items describe: the arrays that hold an identifier.
pub open spec fn columns_of(items: Seq<JsonTree>) -> Seq<Seq<u64>>
    decreases items.len(),
{
    if items.len() == 0 {
        Seq::empty()
    } else {
        let head = columns_of(items.drop_last());
        match tree_items(items.last()) {
            Some(col) => if ids_of(col).len() > 0 {
                head.push(ids_of(col))
            } else {
                head
            },
            None => head,
        }
    }
}

/// The layout that a document describes.
pub open spec fn layout_of(doc: JsonTree) -> LayoutModel {
    LayoutModel {
        focused: match field_u64(doc, "focusedPaneId"@) {
            Some(id) => id,
            None => 1,
        },
        panes: match field_items(doc, "panes"@) {
            Some(items) => panes_of(items),
            None => Seq::empty(),
        },
        columns: match field_items(doc, "columns"@) {
            Some(items) => Some(columns_of(items)),
            None => None,
        },
    }
}

pub(crate) fn is_visible(text: &str) -> (r: bool)
    ensures
        r == (trimmed(text@).len() > 0),
{
    let t = trim(text);
    !t.as_str().is_empty()
}

fn pane_from_json(j: &Json) -> (r: Option<PersistedPane>)
    ensures
        match r {
            Some(pane) => pane_of(tree(*j)) == Some(pane.model()),
            None => pane_of(tree(*j)) is None,
        },
{
    let id = match j.u64_at("id") {
        Some(id) => id,
        None => return None,
    };
    let codex_thread_id = match j.str_at("codexThreadId") {
        Some(s) => {
            let t = trim(s);
            if t.as_str().is_empty() {
                None
            } else {
                Some(t)
            }
        },
        None => None,
    };
    let workspace_path = match j.str_at("workspacePath") {
        Some(s) => if is_visible(s) {
            Some(owned(s))
        } else {
            None
        },
        None => None,
    };
    let tab = match j.str_at("tab") {
        Some(s) => normalize_tab_name(s),
        None => owned("chat"),
    };
    let column: Option<usize> = match j.u64_at("column") {
        Some(n) => Some(n as usize),
        None => None,
    };
    let row: Option<usize> = match j.u64_at("row") {
        Some(n) => Some(n as usize),
        None => None,
    };
    Some(PersistedPane { id, codex_thread_id, workspace_path, tab, column, row })
}

fn panes_from_json(items: &Vec<Json>) -> (panes: Vec<PersistedPane>)
    ensures
        pane_models(panes@) == panes_of(trees(items@)),
{
    let ghost all = trees(items@);
    proof {
        lemma_trees(items@);
    }
    let mut panes: Vec<PersistedPane> = Vec::new();
    let mut i: usize = 0;
    assert(all.take(0) =~= Seq::empty());
    assert(pane_models(panes@) =~= Seq::empty());
    while i < items.len()
        invariant
            i <= items@.len(),
            all == trees(items@),
            all.len() == items@.len(),
            forall|k: int| 0 <= k < items@.len() ==> #[trigger] all[k] == tree(items@[k]),
            pane_models(panes@) == panes_of(all.take(i as int)),
        decreases items.len() - i,
    {
        assert(all.take(i + 1).drop_last() =~= all.take(i as int));
        assert(all.take(i + 1).last() == all[i as int]);
        match pane_from_json(&items[i]) {
            Some(pane) => {
                let ghost before = panes@;
                panes.push(pane);
                assert(pane_models(panes@) =~= pane_models(before).push(pane.model()));
            },
            None => {},
        }
        i += 1;
    }
    assert(all.take(i as int) =~= all);
    panes
}

fn ids_from_json(items: &Vec<Json>) -> (ids: Vec<u64>)
    ensures
        ids@ == ids_of(trees(items@)),
{
    let ghost all = trees(items@);
    proof {
        lemma_trees(items@);
    }
    let mut ids: Vec<u64> = Vec::new();
    let mut i: usize = 0;
    assert(all.take(0) =~= Seq::empty());
    while i < items.len()
        invariant
            i <= items@.len(),
            all == trees(items@),
            all.len() == items@.len(),
            forall|k: int| 0 <= k < items@.len() ==> #[trigger] all[k] == tree(items@[k]),
            ids@ == ids_of(all.take(i as int)),
        decreases items.len() - i,
    {
        assert(all.take(i + 1).drop_last() =~= all.take(i as int));
        assert(all.take(i + 1).last() == all[i as int]);
        match items[i].as_u64() {
            Some(id) => ids.push(id),
            None => {},
        }
        i += 1;
    }
    assert(all.take(i as int) =~= all);
    ids
}

fn columns_from_json(items: &Vec<Json>) -> (columns: Vec<Vec<u64>>)
    ensures
        grid(columns@) == columns_of(trees(items@)),
{
    let ghost all = trees(items@);
    proof {
        lemma_trees(items@);
    }
    let mut columns: Vec<Vec<u64>> = Vec::new();
    let mut i: usize = 0;
    assert(all.take(0) =~= Seq::empty());
    assert(grid(columns@) =~= Seq::empty());
    while i < items.len()
        invariant
            i <= items@.len(),
            all == trees(items@),
            all.len() == items@.len(),
            forall|k: int| 0 <= k < items@.len() ==> #[trigger] all[k] == tree(items@[k]),
            grid(columns@) == columns_of(all.take(i as int)),
        decreases items.len() - i,
    {
        assert(all.take(i + 1).drop_last() =~= all.take(i as int));
        assert(all.take(i + 1).last() == all[i as int]);
        match items[i].as_array() {
            Some(col) => {
                let ids = ids_from_json(col);
                if ids.len() > 0 {
                    let ghost before = columns@;
                    columns.push(ids);
                    assert(grid(columns@) =~= grid(before).push(ids@));
                }
            },
            None => {},
        }
        i += 1;
    }
    assert(all.take(i as int) =~= all);
    columns
}

/// The layout that a document describes.
pub fn layout_from_json(doc: &Json) -> (layout: PersistedLayout)
    ensures
        layout.model() == layout_of(tree(*doc)),
{
    let focused_pane_id = match doc.u64_at("focusedPaneId") {
        Some(id) => id,
        None => 1,
    };
    let panes = match doc.array_at("panes") {
        Some(items) => panes_from_json(items),
        None => Vec::new(),
    };
    let columns = match doc.array_at("columns") {
        Some(items) => Some(columns_from_json(items)),
        None => None,
    };
    let layout = PersistedLayout { focused_pane_id, panes, columns };
    assert(layout.model() =~= layout_of(tree(*doc)));
    layout
}

/// The layout in a stored text, where it is a document.
pub fn parse_persisted_layout(raw: &str) -> (r: Option<PersistedLayout>)
    ensures
        match r {
            Some(layout) => json_document(raw@) matches Some(doc) && layout.model() == layout_of(
                doc,
            ),
            None => json_document(raw@) is None,
        },
{
    match parse(raw) {
        Some(doc) => Some(layout_from_json(&doc)),
        None => None,
    }
}

// ---------------------------------------------------------------------------------------------
// Writing
// ---------------------------------------------------------------------------------------------
pub open spec fn index_or_zero(v: Option<usize>) -> u64 {
    match v {
        Some(n) => n as u64,
        None => 0,
    }
}

pub open spec fn no_entries() -> Map<Seq<char>, JsonTree> {
    Map::empty()
}

/// The entry that stands for a pane.
pub open spec fn pane_tree(p: PaneModel) -> JsonTree {
    JsonTree::Obj(
        no_entries().insert("id"@, JsonTree::UInt(p.id)).insert(
            "codexThreadId"@,
            text_or_null(p.thread),
        ).insert("workspacePath"@, text_or_null(p.workspace)).insert(
            "tab"@,
            JsonTree::Str(tab_name(p.tab)),
        ).insert("column"@, JsonTree::UInt(index_or_zero(p.column))).insert(
            "row"@,
            JsonTree::UInt(index_or_zero(p.row)),
        ),
    )
}

pub open spec fn id_trees(ids: Seq<u64>) -> Seq<JsonTree> {
    Seq::new(ids.len(), |i: int| JsonTree::UInt(ids[i]))
}

pub open spec fn pane_trees(panes: Seq<PaneModel>) -> Seq<JsonTree> {
    Seq::new(panes.len(), |i: int| pane_tree(panes[i]))
}

pub open spec fn column_trees(columns: Seq<Seq<u64>>) -> Seq<JsonTree> {
    Seq::new(columns.len(), |i: int| JsonTree::Arr(id_trees(columns[i])))
}

/// The document that stands for a layout.
pub open spec fn layout_tree(
    panes: Seq<PaneModel>,
    columns: Seq<Seq<u64>>,
    focused: u64,
) -> JsonTree {
    JsonTree::Obj(
        no_entries().insert("version"@, JsonTree::UInt(1)).insert(
            "focusedPaneId"@,
            JsonTree::UInt(focused),
        ).insert("panes"@, JsonTree::Arr(pane_trees(panes))).insert(
            "columns"@,
            JsonTree::Arr(column_trees(columns)),
        ),
    )
}

fn json_of_option(text: &Option<String>) -> (j: Json)
    ensures
        tree(j) == text_or_null(text_of_option(*text)),
{
    match text {
        Some(s) => Json::Str(s.clone()),
        None => Json::Null,
    }
}

fn json_of_pane(pane: &PersistedPane) -> (j: Json)
    ensures
        tree(j) == pane_tree(pane.model()),
{
    let column: usize = match pane.column {
        Some(n) => n,
        None => 0,
    };
    let row: usize = match pane.row {
        Some(n) => n,
        None => 0,
    };
    let mut pairs: Vec<(String, Json)> = Vec::new();
    put(&mut pairs, "id", Json::UInt(pane.id));
    put(&mut pairs, "codexThreadId", json_of_option(&pane.codex_thread_id));
    put(&mut pairs, "workspacePath", json_of_option(&pane.workspace_path));
    put(&mut pairs, "tab", Json::Str(normalize_tab_name(&pane.tab)));
    put(&mut pairs, "column", Json::UInt(column as u64));
    put(&mut pairs, "row", Json::UInt(row as u64));
    Json::Obj(pairs)
}

fn json_of_ids(ids: &Vec<u64>) -> (items: Vec<Json>)
    ensures
        trees(items@) == id_trees(ids@),
{
    let mut items: Vec<Json> = Vec::new();
    let mut i: usize = 0;
    while i < ids.len()
        invariant
            i <= ids@.len(),
            items@.len() == i,
            forall|k: int| 0 <= k < i ==> tree(#[trigger] items@[k]) == JsonTree::UInt(ids@[k]),
        decreases ids.len() - i,
    {
        items.push(Json::UInt(ids[i]));
        i += 1;
    }
    proof {
        lemma_trees(items@);
        assert(trees(items@) =~= id_trees(ids@));
    }
    items
}

/// The document that stands for a layout.
pub fn json_of_layout(
    panes: &Vec<PersistedPane>,
    columns: &Vec<Vec<u64>>,
    focused_pane_id: u64,
) -> (doc: Json)
    ensures
        tree(doc) == layout_tree(pane_models(panes@), grid(columns@), focused_pane_id),
{
    let mut pane_items: Vec<Json> = Vec::new();
    let mut i: usize = 0;
    while i < panes.len()
        invariant
            i <= panes@.len(),
            pane_items@.len() == i,
            forall|k: int|
                0 <= k < i ==> tree(#[trigger] pane_items@[k]) == pane_tree(panes@[k].model()),
        decreases panes.len() - i,
    {
        pane_items.push(json_of_pane(&panes[i]));
        i += 1;
    }
    let mut column_items: Vec<Json> = Vec::new();
    let mut c: usize = 0;
    while c < columns.len()
        invariant
            c <= columns@.len(),
            column_items@.len() == c,
            forall|k: int|
                0 <= k < c ==> tree(#[trigger] column_items@[k]) == JsonTree::Arr(
                    id_trees(columns@[k]@),
                ),
        decreases columns.len() - c,
    {
        column_items.push(Json::Arr(json_of_ids(&columns[c])));
        c += 1;
    }
    proof {
        lemma_trees(pane_items@);
        lemma_trees(column_items@);
        assert(trees(pane_items@) =~= pane_trees(pane_models(panes@)));
        assert(trees(column_items@) =~= column_trees(grid(columns@)));
    }
    let mut pairs: Vec<(String, Json)> = Vec::new();
    put(&mut pairs, "version", Json::UInt(1));
    put(&mut pairs, "focusedPaneId", Json::UInt(focused_pane_id));
    put(&mut pairs, "panes", Json::Arr(pane_items));
    put(&mut pairs, "columns", Json::Arr(column_items));
    Json::Obj(pairs)
}

proof fn lemma_layout_is_plain(panes: Seq<PaneModel>, columns: Seq<Seq<u64>>, focused: u64)
    ensures
        is_plain(layout_tree(panes, columns, focused), 127),
{
    let doc = layout_tree(panes, columns, focused);
    assert forall|i: int| 0 <= i < panes.len() implies is_plain(
        #[trigger] pane_trees(panes)[i],
        125,
    ) by {
        let m = pane_tree(panes[i])->Obj_0;
        assert forall|k: Seq<char>| #![trigger m[k]] m.contains_key(k) implies is_plain(m[k], 124) by {}
    }
    assert(is_plain(JsonTree::Arr(pane_trees(panes)), 126));
    assert forall|i: int| 0 <= i < columns.len() implies is_plain(
        #[trigger] column_trees(columns)[i],
        125,
    ) by {
        let items = id_trees(columns[i]);
        assert forall|k: int| #![trigger items[k]] 0 <= k < items.len() implies is_plain(
            items[k],
            124,
        ) by {}
    }
    assert(is_plain(JsonTree::Arr(column_trees(columns)), 126));
    let m = doc->Obj_0;
    assert forall|k: Seq<char>| #![trigger m[k]] m.contains_key(k) implies is_plain(m[k], 126) by {}
}

/// The text under which a layout is stored.
pub fn serialize_persisted_layout_state(
    panes: &Vec<PersistedPane>,
    columns: &Vec<Vec<u64>>,
    focused_pane_id: u64,
) -> (raw: String)
    ensures
        raw@ == json_text(layout_tree(pane_models(panes@), grid(columns@), focused_pane_id)),
        json_document(raw@) == Some(
            layout_tree(pane_models(panes@), grid(columns@), focused_pane_id),
        ),
{
    let doc = json_of_layout(panes, columns, focused_pane_id);
    proof {
        lemma_layout_is_plain(pane_models(panes@), grid(columns@), focused_pane_id);
    }
    render(&doc)
}

// ---------------------------------------------------------------------------------------------
// What a read gives back of a write
// ---------------------------------------------------------------------------------------------
/// A pane as it comes back from the store: with its thread trimmed, without blank texts, with a
/// known tab, and in column and row 0 where it had none.
pub open spec fn settled_pane(p: PaneModel) -> PaneModel {
    PaneModel {
        id: p.id,
        thread: trimmed_text(p.thread),
        workspace: visible_text(p.workspace),
        tab: tab_name(p.tab),
        column: Some(index_or_zero(p.column) as usize),
        row: Some(index_or_zero(p.row) as usize),
    }
}

pub open spec fn settled_panes(panes: Seq<PaneModel>) -> Seq<PaneModel> {
    Seq::new(panes.len(), |i: int| settled_pane(panes[i]))
}

/// The columns that hold a pane.
pub open spec fn filled_columns(columns: Seq<Seq<u64>>) -> Seq<Seq<u64>>
    decreases columns.len(),
{
    if columns.len() == 0 {
        Seq::empty()
    } else if columns.last().len() == 0 {
        filled_columns(columns.drop_last())
    } else {
        filled_columns(columns.drop_last()).push(columns.last())
    }
}

proof fn lemma_pane_round_trip(p: PaneModel)
    ensures
        pane_of(pane_tree(p)) == Some(settled_pane(p)),
{
    reveal_strlit("id");
    reveal_strlit("codexThreadId");
    reveal_strlit("workspacePath");
    reveal_strlit("tab");
    reveal_strlit("column");
    reveal_strlit("row");
    assert("id"@.len() == 2 && "tab"@.len() == 3 && "row"@.len() == 3 && "column"@.len() == 6);
    assert("codexThreadId"@.len() == 13 && "workspacePath"@.len() == 13);
    assert("tab"@[0] == 't' && "row"@[0] == 'r');
    assert("codexThreadId"@[0] == 'c' && "workspacePath"@[0] == 'w');
    lemma_tab_name_idempotent(p.tab);
}

proof fn lemma_panes_round_trip(panes: Seq<PaneModel>)
    ensures
        panes_of(pane_trees(panes)) == settled_panes(panes),
    decreases panes.len(),
{
    if panes.len() > 0 {
        let rest = panes.drop_last();
        lemma_panes_round_trip(rest);
        lemma_pane_round_trip(panes.last());
        assert(pane_trees(panes).drop_last() =~= pane_trees(rest));
        assert(settled_panes(panes) =~= settled_panes(rest).push(settled_pane(panes.last())));
    } else {
        assert(panes_of(pane_trees(panes)) =~= settled_panes(panes));
    }
}

proof fn lemma_ids_round_trip(ids: Seq<u64>)
    ensures
        ids_of(id_trees(ids)) == ids,
    decreases ids.len(),
{
    if ids.len() > 0 {
        let rest = ids.drop_last();
        lemma_ids_round_trip(rest);
        assert(id_trees(ids).drop_last() =~= id_trees(rest));
        assert(rest.push(ids.last()) =~= ids);
    } else {
        assert(ids_of(id_trees(ids)) =~= ids);
    }
}

proof fn lemma_columns_round_trip(columns: Seq<Seq<u64>>)
    ensures
        columns_of(column_trees(columns)) == filled_columns(columns),
    decreases columns.len(),
{
    if columns.len() > 0 {
        let rest = columns.drop_last();
        lemma_columns_round_trip(rest);
        lemma_ids_round_trip(columns.last());
        assert(column_trees(columns).drop_last() =~= column_trees(rest));
        assert(column_trees(columns).last() == JsonTree::Arr(id_trees(columns.last())));
    }
}

/// Reading a stored layout back gives the focus, the panes in their order, and the columns that
/// hold a pane.
pub proof fn lemma_layout_round_trip(
    panes: Seq<PaneModel>,
    columns: Seq<Seq<u64>>,
    focused: u64,
)
    ensures
        layout_of(layout_tree(panes, columns, focused)) == (LayoutModel {
            focused,
            panes: settled_panes(panes),
            columns: Some(filled_columns(columns)),
        }),
{
    reveal_strlit("version");
    reveal_strlit("focusedPaneId");
    reveal_strlit("panes");
    reveal_strlit("columns");
    assert("version"@.len() == 7 && "focusedPaneId"@.len() == 13 && "panes"@.len() == 5
        && "columns"@.len() == 7);
    assert("version"@[0] == 'v' && "columns"@[0] == 'c');
    lemma_panes_round_trip(panes);
    lemma_columns_round_trip(columns);
}

/// A layout that came from the store goes through it unchanged, where its panes have places and
/// its columns hold panes.
pub proof fn lemma_settled_layout_stays(
    panes: Seq<PaneModel>,
    columns: Seq<Seq<u64>>,
    focused: u64,
)
    requires
        forall|i: int| 0 <= i < panes.len() ==> #[trigger] panes[i] == settled_pane(panes[i]),
        forall|c: int| 0 <= c < columns.len() ==> (#[trigger] columns[c]).len() > 0,
    ensures
        layout_of(layout_tree(panes, columns, focused)) == (LayoutModel {
            focused,
            panes,
            columns: Some(columns),
        }),
{
    lemma_layout_round_trip(panes, columns, focused);
    assert(settled_panes(panes) =~= panes);
    lemma_filled_columns(columns);
}

proof fn lemma_filled_columns(columns: Seq<Seq<u64>>)
    requires
        forall|c: int| 0 <= c < columns.len() ==> (#[trigger] columns[c]).len() > 0,
    ensures
        filled_columns(columns) == columns,
    decreases columns.len(),
{
    if columns.len() > 0 {
        let rest = columns.drop_last();
        assert forall|c: int| 0 <= c < rest.len() implies (#[trigger] rest[c]).len() > 0 by {
            assert(rest[c] == columns[c]);
        }
        lemma_filled_columns(rest);
        assert(columns[columns.len() - 1].len() > 0);
        assert(rest.push(columns.last()) =~= columns);
    } else {
        assert(filled_columns(columns) =~= columns);
    }
}

} // verus!
