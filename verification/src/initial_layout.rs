//! The pane layout at the start of a session.
use crate::columns::normalize_columns_for_ids;
use crate::layout_store::{
    is_visible, normalize_tab_name, parse_persisted_layout, PersistedLayout, PersistedPane,
};
use crate::order::{stable_sort, Sortable};
use crate::text::{owned, same};
use vstd::prelude::*;
#[allow(unused_imports)]
use crate::columns::{grid, normalized};
#[allow(unused_imports)]
use crate::json::json_document;
#[allow(unused_imports)]
use crate::layout_store::{
    layout_of, pane_models, tab_name, text_of_option, visible_text, LayoutModel, PaneModel,
};
#[allow(unused_imports)]
use crate::order::stable_sorted;
#[allow(unused_imports)]
use crate::text::trimmed;

verus! {

// ---------------------------------------------------------------------------------------------
// Columns from the places of the panes
// ---------------------------------------------------------------------------------------------
/// A pane with the column and the row that it was stored in.
pub struct Placed {
    pub column: usize,
    pub row: usize,
    pub id: u64,
}

impl Sortable for Placed {
    open spec fn before(a: Placed, b: Placed) -> bool {
        a.column < b.column || (a.column == b.column && a.row <= b.row)
    }

    proof fn total(a: Placed, b: Placed) {
    }

    proof fn transitive(a: Placed, b: Placed, c: Placed) {
    }

    fn is_before(a: &Placed, b: &Placed) -> (r: bool) {
        a.column < b.column || (a.column == b.column && a.row <= b.row)
    }
}

pub open spec fn index_or_last(v: Option<usize>) -> usize {
    match v {
        Some(n) => n,
        None => usize::MAX,
    }
}

pub open spec fn places(panes: Seq<PaneModel>) -> Seq<Placed> {
    Seq::new(
        panes.len(),
        |i: int|
            Placed {
                column: index_or_last(panes[i].column),
                row: index_or_last(panes[i].row),
                id: panes[i].id,
            },
    )
}

/// The columns of panes in the order of their places: a new column wherever the stored column
/// changes, and at most two panes in each.
pub open spec fn grouped(rows: Seq<Placed>) -> Seq<Seq<u64>>
    decreases rows.len(),
{
    if rows.len() == 0 {
        Seq::empty()
    } else {
        let head = grouped(rows.drop_last());
        let last = rows.last();
        if rows.len() == 1 || rows[rows.len() - 2].column != last.column {
            head.push(seq![last.id])
        } else if head.last().len() < 2 {
            head.update(head.len() - 1, head.last().push(last.id))
        } else {
            head
        }
    }
}

proof fn lemma_grouped(rows: Seq<Placed>)
    ensures
        rows.len() > 0 ==> grouped(rows).len() > 0,
        forall|c: int| 0 <= c < grouped(rows).len() ==> 1 <= (#[trigger] grouped(rows)[c]).len()
            <= 2,
    decreases rows.len(),
{
    if rows.len() > 0 {
        lemma_grouped(rows.drop_last());
        let head = grouped(rows.drop_last());
        if head.len() > 0 {
            assert(head.last() == head[head.len() - 1]);
        }
    }
}

/// The columns that the stored places of the panes describe.
pub open spec fn columns_from_places(panes: Seq<PaneModel>) -> Seq<Seq<u64>> {
    grouped(stable_sorted(places(panes)))
}

/// Columns made from stored places hold one or two panes each.
pub proof fn lemma_columns_from_places(panes: Seq<PaneModel>)
    ensures
        crate::columns::one_or_two(columns_from_places(panes)),
{
    lemma_grouped(stable_sorted(places(panes)));
}

pub fn columns_from_persisted_panes(panes: &Vec<PersistedPane>) -> (columns: Vec<Vec<u64>>)
    ensures
        grid(columns@) == columns_from_places(pane_models(panes@)),
{
    let mut list: Vec<Placed> = Vec::new();
    let mut i: usize = 0;
    while i < panes.len()
        invariant
            i <= panes@.len(),
            list@ == places(pane_models(panes@)).take(i as int),
        decreases panes.len() - i,
    {
        let column: usize = match panes[i].column {
            Some(n) => n,
            None => usize::MAX,
        };
        let row: usize = match panes[i].row {
            Some(n) => n,
            None => usize::MAX,
        };
        list.push(Placed { column, row, id: panes[i].id });
        i += 1;
        assert(list@ =~= places(pane_models(panes@)).take(i as int));
    }
    assert(list@ =~= places(pane_models(panes@)));
    let rows = stable_sort(list);
    let mut columns: Vec<Vec<u64>> = Vec::new();
    let mut k: usize = 0;
    assert(rows@.take(0) =~= Seq::empty());
    assert(grid(columns@) =~= Seq::empty());
    while k < rows.len()
        invariant
            k <= rows@.len(),
            grid(columns@) == grouped(rows@.take(k as int)),
        decreases rows.len() - k,
    {
        let ghost done = rows@.take(k + 1);
        assert(done.drop_last() =~= rows@.take(k as int));
        proof {
            lemma_grouped(rows@.take(k as int));
        }
        let ghost before = columns@;
        let id = rows[k].id;
        if k == 0 || rows[k - 1].column != rows[k].column {
            let mut column: Vec<u64> = Vec::new();
            column.push(id);
            assert(column@ =~= seq![id]);
            columns.push(column);
            assert(grid(columns@) =~= grid(before).push(seq![id]));
        } else {
            assert(grid(columns@).len() > 0);
            assert(grid(columns@).last() == columns@[columns@.len() - 1]@);
            let at = columns.len() - 1;
            if columns[at].len() < 2 {
                let mut column = columns.remove(at);
                column.push(id);
                columns.insert(at, column);
                assert(grid(columns@) =~= grid(before).update(at as int, column@));
            }
        }
        k += 1;
    }
    assert(rows@.take(k as int) =~= rows@);
    columns
}

// ---------------------------------------------------------------------------------------------
// What the store knows of threads
// ---------------------------------------------------------------------------------------------
/// The threads that are open, and the workspaces of threads, as they were read from the store.
pub struct ThreadDirectory {
    pub open_threads: Vec<String>,
    pub workspaces: Vec<(String, String)>,
}

pub open spec fn lists_text(list: Seq<String>, text: Seq<char>) -> bool {
    exists|i: int| 0 <= i < list.len() && #[trigger] list[i]@ == text
}

/// The value of the first pair under `key`.
pub open spec fn first_value(pairs: Seq<(String, String)>, key: Seq<char>) -> Option<Seq<char>>
    decreases pairs.len(),
{
    if pairs.len() == 0 {
        None
    } else if pairs[0].0@ == key {
        Some(pairs[0].1@)
    } else {
        first_value(pairs.drop_first(), key)
    }
}

impl ThreadDirectory {
    /// Whether a thread with this identifier is open; a blank identifier names none.
    pub open spec fn knows(self, thread: Seq<char>) -> bool {
        trimmed(thread).len() > 0 && lists_text(self.open_threads@, thread)
    }

    pub open spec fn workspace_of(self, thread: Seq<char>) -> Option<Seq<char>> {
        first_value(self.workspaces@, thread)
    }
}

fn list_contains(list: &Vec<String>, text: &str) -> (r: bool)
    ensures
        r == lists_text(list@, text@),
{
    let mut i: usize = 0;
    while i < list.len()
        invariant
            i <= list@.len(),
            forall|k: int| 0 <= k < i ==> #[trigger] list@[k]@ != text@,
        decreases list.len() - i,
    {
        if same(list[i].as_str(), text) {
            return true;
        }
        i += 1;
    }
    false
}

pub fn codex_thread_exists(db: &ThreadDirectory, codex_thread_id: &str) -> (r: bool)
    ensures
        r == db.knows(codex_thread_id@),
{
    is_visible(codex_thread_id) && list_contains(&db.open_threads, codex_thread_id)
}

fn stored_workspace(db: &ThreadDirectory, thread: &str) -> (r: Option<String>)
    ensures
        text_of_option(r) == db.workspace_of(thread@),
{
    let pairs = &db.workspaces;
    let mut i: usize = 0;
    assert(pairs@.skip(0) =~= pairs@);
    while i < pairs.len()
        invariant
            i <= pairs@.len(),
            *pairs == db.workspaces,
            db.workspace_of(thread@) == first_value(pairs@.skip(i as int), thread@),
        decreases pairs.len() - i,
    {
        assert(pairs@.skip(i as int).drop_first() =~= pairs@.skip(i + 1));
        if same(pairs[i].0.as_str(), thread) {
            return Some(pairs[i].1.clone());
        }
        i += 1;
    }
    None
}

/// The workspace of a pane: the one that is given, else the one stored for its thread, else the
/// fallback; blank paths do not count, but for a stored one.
pub open spec fn resolved_workspace(
    db: ThreadDirectory,
    thread: Option<Seq<char>>,
    explicit: Option<Seq<char>>,
    fallback: Option<Seq<char>>,
) -> Option<Seq<char>> {
    match visible_text(explicit) {
        Some(path) => Some(path),
        None => {
            let stored = match thread {
                Some(t) => db.workspace_of(t),
                None => None,
            };
            match stored {
                Some(path) => Some(path),
                None => visible_text(fallback),
            }
        },
    }
}

fn visible(text: Option<String>) -> (r: Option<String>)
    ensures
        text_of_option(r) == visible_text(text_of_option(text)),
{
    match text {
        Some(s) => if is_visible(s.as_str()) {
            Some(s)
        } else {
            None
        },
        None => None,
    }
}

pub fn resolve_workspace_path(
    db: &ThreadDirectory,
    codex_thread_id: Option<&str>,
    explicit: Option<String>,
    fallback: Option<String>,
) -> (r: Option<String>)
    ensures
        text_of_option(r) == resolved_workspace(
            *db,
            match codex_thread_id {
                Some(t) => Some(t@),
                None => None,
            },
            text_of_option(explicit),
            text_of_option(fallback),
        ),
{
    match visible(explicit) {
        Some(path) => return Some(path),
        None => {},
    }
    match codex_thread_id {
        Some(thread) => match stored_workspace(db, thread) {
            Some(path) => return Some(path),
            None => {},
        },
        None => {},
    }
    visible(fallback)
}

// ---------------------------------------------------------------------------------------------
// The initial layout
// ---------------------------------------------------------------------------------------------
/// The thread of a stored pane, where it is still open and no pane before has it.
pub open spec fn live_thread(
    pane: PaneModel,
    before: Seq<PaneModel>,
    db: ThreadDirectory,
) -> Option<Seq<char>> {
    match pane.thread {
        Some(t) => if db.knows(t) && !(exists|i: int|
            0 <= i < before.len() && #[trigger] before[i].thread == Some(t)) {
            Some(t)
        } else {
            None
        },
        None => None,
    }
}

/// The stored panes that come back: those with an open thread, the first of each thread.
pub open spec fn restored_panes(
    panes: Seq<PaneModel>,
    db: ThreadDirectory,
    fallback_workspace: Option<Seq<char>>,
) -> Seq<PaneModel>
    decreases panes.len(),
{
    if panes.len() == 0 {
        Seq::empty()
    } else {
        let head = restored_panes(panes.drop_last(), db, fallback_workspace);
        let pane = panes.last();
        match live_thread(pane, head, db) {
            Some(t) => head.push(
                PaneModel {
                    id: pane.id,
                    thread: Some(t),
                    workspace: resolved_workspace(
                        db,
                        Some(t),
                        pane.workspace,
                        fallback_workspace,
                    ),
                    tab: tab_name(pane.tab),
                    column: pane.column,
                    row: pane.row,
                },
            ),
            None => head,
        }
    }
}

/// The pane that stands alone where none came back.
pub open spec fn fallback_pane(
    fallback_thread: Option<Seq<char>>,
    fallback_workspace: Option<Seq<char>>,
) -> PaneModel {
    PaneModel {
        id: 1,
        thread: visible_text(fallback_thread),
        workspace: fallback_workspace,
        tab: "chat"@,
        column: Some(0),
        row: Some(0),
    }
}

pub open spec fn initial_panes(
    stored: LayoutModel,
    db: ThreadDirectory,
    fallback_thread: Option<Seq<char>>,
    fallback_workspace: Option<Seq<char>>,
) -> Seq<PaneModel> {
    let restored = restored_panes(stored.panes, db, fallback_workspace);
    if restored.len() == 0 {
        seq![fallback_pane(fallback_thread, fallback_workspace)]
    } else {
        restored
    }
}

pub open spec fn model_ids(panes: Seq<PaneModel>) -> Seq<u64> {
    Seq::new(panes.len(), |i: int| panes[i].id)
}

/// The pane that is focused: the stored one where it is there, else the first.
pub open spec fn initial_focus(panes: Seq<PaneModel>, stored_focus: u64) -> u64 {
    if model_ids(panes).contains(stored_focus) {
        stored_focus
    } else {
        panes[0].id
    }
}

pub open spec fn initial_columns(
    panes: Seq<PaneModel>,
    stored: Option<Seq<Seq<u64>>>,
) -> Seq<Seq<u64>> {
    normalized(
        match stored {
            Some(cols) => cols,
            None => columns_from_places(panes),
        },
        model_ids(panes),
    )
}

pub open spec fn no_layout() -> LayoutModel {
    LayoutModel { focused: 1, panes: Seq::empty(), columns: None }
}

/// The stored layout that a text holds, or the empty one.
pub open spec fn stored_layout(raw: Option<Seq<char>>) -> LayoutModel {
    match raw {
        Some(text) => match json_document(text) {
            Some(doc) => layout_of(doc),
            None => no_layout(),
        },
        None => no_layout(),
    }
}

/// The layout that a session starts with.
pub struct InitialLayout {
    pub panes: Vec<PersistedPane>,
    pub columns: Vec<Vec<u64>>,
    pub focused_pane_id: u64,
}

impl InitialLayout {
    /// Whether this is what comes of a stored layout.
    pub open spec fn comes_from(
        self,
        stored: LayoutModel,
        db: ThreadDirectory,
        fallback_thread: Option<Seq<char>>,
        fallback_workspace: Option<Seq<char>>,
    ) -> bool {
        let panes = initial_panes(stored, db, fallback_thread, fallback_workspace);
        &&& pane_models(self.panes@) == panes
        &&& grid(self.columns@) == initial_columns(panes, stored.columns)
        &&& self.focused_pane_id == initial_focus(panes, stored.focused)
    }
}

fn has_thread(panes: &Vec<PersistedPane>, thread: &str) -> (r: bool)
    ensures
        r == (exists|i: int|
            0 <= i < pane_models(panes@).len() && #[trigger] pane_models(panes@)[i].thread == Some(
                thread@,
            )),
{
    let mut i: usize = 0;
    while i < panes.len()
        invariant
            i <= panes@.len(),
            forall|k: int|
                0 <= k < i ==> #[trigger] pane_models(panes@)[k].thread != Some(thread@),
        decreases panes.len() - i,
    {
        assert(pane_models(panes@)[i as int].thread == text_of_option(
            panes@[i as int].codex_thread_id,
        ));
        match &panes[i].codex_thread_id {
            Some(t) => {
                if same(t.as_str(), thread) {
                    return true;
                }
            },
            None => {},
        }
        i += 1;
    }
    false
}

fn restore_panes(
    parsed: &Vec<PersistedPane>,
    db: &ThreadDirectory,
    fallback_workspace: &Option<String>,
) -> (panes: Vec<PersistedPane>)
    ensures
        pane_models(panes@) == restored_panes(
            pane_models(parsed@),
            *db,
            text_of_option(*fallback_workspace),
        ),
{
    let ghost all = pane_models(parsed@);
    let ghost fallback = text_of_option(*fallback_workspace);
    let mut panes: Vec<PersistedPane> = Vec::new();
    let mut i: usize = 0;
    assert(all.take(0) =~= Seq::empty());
    assert(pane_models(panes@) =~= Seq::empty());
    while i < parsed.len()
        invariant
            i <= parsed@.len(),
            all == pane_models(parsed@),
            fallback == text_of_option(*fallback_workspace),
            pane_models(panes@) == restored_panes(all.take(i as int), *db, fallback),
        decreases parsed.len() - i,
    {
        assert(all.take(i + 1).drop_last() =~= all.take(i as int));
        assert(all.take(i + 1).last() == parsed@[i as int].model());
        let pane = &parsed[i];
        match &pane.codex_thread_id {
            Some(thread) => {
                if codex_thread_exists(db, thread.as_str()) && !has_thread(
                    &panes,
                    thread.as_str(),
                ) {
                    let workspace = resolve_workspace_path(
                        db,
                        Some(thread.as_str()),
                        pane.workspace_path.clone(),
                        fallback_workspace.clone(),
                    );
                    let ghost before = panes@;
                    let restored = PersistedPane {
                        id: pane.id,
                        codex_thread_id: Some(thread.clone()),
                        workspace_path: workspace,
                        tab: normalize_tab_name(&pane.tab),
                        column: pane.column,
                        row: pane.row,
                    };
                    panes.push(restored);
                    assert(pane_models(panes@) =~= pane_models(before).push(restored.model()));
                }
            },
            None => {},
        }
        i += 1;
    }
    assert(all.take(i as int) =~= all);
    panes
}

/// The layout that a session starts with, given the stored one.
pub fn initial_layout_from(
    stored: PersistedLayout,
    db: &ThreadDirectory,
    fallback_thread: Option<String>,
    fallback_workspace: Option<String>,
) -> (r: InitialLayout)
    ensures
        r.comes_from(
            stored.model(),
            *db,
            text_of_option(fallback_thread),
            text_of_option(fallback_workspace),
        ),
{
    let ghost model = stored.model();
    let ghost thread_text = text_of_option(fallback_thread);
    let ghost workspace_text = text_of_option(fallback_workspace);
    let mut panes = restore_panes(&stored.panes, db, &fallback_workspace);
    if panes.len() == 0 {
        assert(pane_models(panes@).len() == 0);
        let pane = PersistedPane {
            id: 1,
            codex_thread_id: visible(fallback_thread),
            workspace_path: fallback_workspace,
            tab: owned("chat"),
            column: Some(0),
            row: Some(0),
        };
        panes.push(pane);
        assert(pane_models(panes@) =~= seq![fallback_pane(thread_text, workspace_text)]);
    } else {
        assert(pane_models(panes@).len() > 0);
    }
    let ghost models = initial_panes(model, *db, thread_text, workspace_text);
    assert(pane_models(panes@) == models);
    let mut pane_ids: Vec<u64> = Vec::new();
    let mut focused: u64 = panes[0].id;
    let mut i: usize = 0;
    while i < panes.len()
        invariant
            i <= panes@.len(),
            panes@.len() > 0,
            models == pane_models(panes@),
            pane_ids@ == model_ids(models).take(i as int),
            focused == (if model_ids(models).take(i as int).contains(stored.focused_pane_id) {
                stored.focused_pane_id
            } else {
                models[0].id
            }),
        decreases panes.len() - i,
    {
        let ghost before = model_ids(models).take(i as int);
        let ghost after = model_ids(models).take(i + 1);
        let id = panes[i].id;
        pane_ids.push(id);
        assert(after =~= before.push(id));
        proof {
            let target = stored.focused_pane_id;
            if before.contains(target) {
                let k = choose|k: int| 0 <= k < before.len() && before[k] == target;
                assert(after[k] == target);
            }
            if after.contains(target) {
                let k = choose|k: int| 0 <= k < after.len() && after[k] == target;
                if k < before.len() {
                    assert(before[k] == target);
                }
            }
            assert(after[i as int] == id);
        }
        if id == stored.focused_pane_id {
            focused = id;
        }
        i += 1;
    }
    assert(model_ids(models).take(i as int) =~= model_ids(models));
    let columns = match stored.columns {
        Some(columns) => normalize_columns_for_ids(&columns, &pane_ids),
        None => {
            let derived = columns_from_persisted_panes(&panes);
            normalize_columns_for_ids(&derived, &pane_ids)
        },
    };
    InitialLayout { panes, columns, focused_pane_id: focused }
}

/// The layout that a session starts with, given the text under which one was stored.
pub fn load_initial_layout(
    raw_saved: Option<&str>,
    db: &ThreadDirectory,
    fallback_thread: Option<String>,
    fallback_workspace: Option<String>,
) -> (r: InitialLayout)
    ensures
        r.comes_from(
            stored_layout(
                match raw_saved {
                    Some(raw) => Some(raw@),
                    None => None,
                },
            ),
            *db,
            text_of_option(fallback_thread),
            text_of_option(fallback_workspace),
        ),
{
    let parsed = match raw_saved {
        Some(raw) => parse_persisted_layout(raw),
        None => None,
    };
    let stored = match parsed {
        Some(layout) => layout,
        None => {
            let empty = PersistedLayout { focused_pane_id: 1, panes: Vec::new(), columns: None };
            assert(empty.model() =~= no_layout());
            empty
        },
    };
    initial_layout_from(stored, db, fallback_thread, fallback_workspace)
}

proof fn lemma_restored_panes(
    panes: Seq<PaneModel>,
    db: ThreadDirectory,
    fallback_workspace: Option<Seq<char>>,
)
    ensures
        forall|i: int|
            0 <= i < restored_panes(panes, db, fallback_workspace).len() ==> (
            #[trigger] restored_panes(panes, db, fallback_workspace)[i].thread matches Some(t)
                && db.knows(t)),
        forall|i: int, j: int|
            0 <= i < j < restored_panes(panes, db, fallback_workspace).len() ==> #[trigger] restored_panes(panes, db, fallback_workspace)[i].thread
                != #[trigger] restored_panes(panes, db, fallback_workspace)[j].thread,
    decreases panes.len(),
{
    if panes.len() > 0 {
        lemma_restored_panes(panes.drop_last(), db, fallback_workspace);
    }
}

/// A session never starts without a pane; the focused pane is one of them, and so are the panes in
/// the columns. The panes that come back have open threads, no thread twice.
pub proof fn lemma_initial_layout(
    stored: LayoutModel,
    db: ThreadDirectory,
    fallback_thread: Option<Seq<char>>,
    fallback_workspace: Option<Seq<char>>,
)
    ensures
        ({
            let panes = initial_panes(stored, db, fallback_thread, fallback_workspace);
            let cols = initial_columns(panes, stored.columns);
            &&& panes.len() > 0
            &&& model_ids(panes).contains(initial_focus(panes, stored.focused))
            &&& crate::columns::one_or_two(cols)
            &&& crate::columns::placed_once(cols)
            &&& forall|id: u64| #[trigger]
                crate::columns::holds(cols, id) ==> model_ids(panes).contains(id)
            &&& stored.columns is None ==> crate::columns::well_placed(cols, model_ids(panes))
            &&& restored_panes(stored.panes, db, fallback_workspace).len() > 0 ==> forall|
                i: int,
                j: int,
            |
                0 <= i < j < panes.len() ==> #[trigger] panes[i].thread
                    != #[trigger] panes[j].thread
        }),
{
    let panes = initial_panes(stored, db, fallback_thread, fallback_workspace);
    lemma_restored_panes(stored.panes, db, fallback_workspace);
    assert(model_ids(panes)[0] == panes[0].id);
    let cols = match stored.columns {
        Some(cols) => cols,
        None => columns_from_places(panes),
    };
    crate::columns::lemma_normalized(cols, model_ids(panes));
    if stored.columns is None {
        lemma_columns_from_places(panes);
        crate::columns::lemma_short_columns_cut_nothing(cols, model_ids(panes));
    }
}

} // verus!
