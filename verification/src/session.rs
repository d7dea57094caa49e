//! From one session to the next: the board as it was stored comes back.
use crate::board::{BoardPane, PaneBoard};
use crate::initial_layout::{load_initial_layout, InitialLayout, ThreadDirectory};
use crate::layout_store::PersistedPane;
use vstd::prelude::*;
#[allow(unused_imports)]
use crate::board::{
    entry_ids, id_after, pane_entries, pane_index, started, stored_models, BoardModel, PaneEntry,
};
#[allow(unused_imports)]
use crate::columns::{grid, lemma_normalized_unchanged};
#[allow(unused_imports)]
use crate::initial_layout::{
    initial_columns, initial_focus, initial_panes, lemma_initial_layout, live_thread, model_ids,
    restored_panes, stored_layout,
};
#[allow(unused_imports)]
use crate::layout_store::{
    layout_of, layout_tree, lemma_settled_layout_stays, lemma_tab_name_idempotent, pane_models,
    settled_pane, text_of_option, LayoutModel, PaneModel,
};
#[allow(unused_imports)]
use crate::text::{str_option, trimmed};

verus! {

/// What the board keeps of the panes of a layout.
pub open spec fn kept_entries(panes: Seq<PaneModel>) -> Seq<PaneEntry> {
    Seq::new(
        panes.len(),
        |i: int|
            PaneEntry { id: panes[i].id, thread: panes[i].thread, workspace: panes[i].workspace },
    )
}

/// The board that a session starts with, given the layout that was stored.
pub open spec fn next_session(
    stored: LayoutModel,
    db: ThreadDirectory,
    fallback_thread: Option<Seq<char>>,
    fallback_workspace: Option<Seq<char>>,
) -> BoardModel {
    let panes = initial_panes(stored, db, fallback_thread, fallback_workspace);
    started(
        kept_entries(panes),
        initial_columns(panes, stored.columns),
        initial_focus(panes, stored.focused),
    )
}

pub open spec fn kept_tabs(panes: Seq<PaneModel>) -> Seq<Seq<char>> {
    Seq::new(panes.len(), |i: int| panes[i].tab)
}

/// The board that comes of a layout, and the tab that each pane shows; none where there is no
/// identifier left for a new pane.
pub fn board_from_layout(layout: InitialLayout) -> (r: Option<(PaneBoard, Vec<String>)>)
    ensures
        match r {
            Some(pair) => {
                let panes = pane_models(layout.panes@);
                &&& id_after(kept_entries(panes)) <= u64::MAX
                &&& pair.0.model() == started(
                    kept_entries(panes),
                    grid(layout.columns@),
                    layout.focused_pane_id,
                )
                &&& pair.1.deep_view() == kept_tabs(panes)
            },
            None => id_after(kept_entries(pane_models(layout.panes@))) > u64::MAX,
        },
{
    let InitialLayout { panes, columns, focused_pane_id } = layout;
    let ghost models = pane_models(panes@);
    let ghost all = kept_entries(models);
    let mut kept: Vec<BoardPane> = Vec::new();
    let mut tabs: Vec<String> = Vec::new();
    let mut next_id: u128 = 1;
    let mut i: usize = 0;
    assert(all.take(0) =~= Seq::empty());
    while i < panes.len()
        invariant
            i <= panes@.len(),
            models == pane_models(panes@),
            all == kept_entries(models),
            pane_entries(kept@) =~= all.take(i as int),
            tabs.deep_view() =~= kept_tabs(models).take(i as int),
            next_id == id_after(all.take(i as int)),
            next_id <= u64::MAX + 1,
        decreases panes@.len() - i,
    {
        let pane: &PersistedPane = &panes[i];
        assert(models[i as int] == panes@[i as int].model());
        assert(all.take(i + 1).drop_last() =~= all.take(i as int));
        assert(all.take(i + 1).last() == all[i as int]);
        let ghost entries = pane_entries(kept@);
        let ghost tabs_before = tabs.deep_view();
        kept.push(
            BoardPane {
                id: pane.id,
                thread_id: crate::threads::copy_option(&pane.codex_thread_id),
                workspace_path: crate::threads::copy_option(&pane.workspace_path),
            },
        );
        assert(pane_entries(kept@) =~= entries.push(all[i as int]));
        tabs.push(crate::text::owned(pane.tab.as_str()));
        assert(tabs.deep_view() =~= tabs_before.push(models[i as int].tab));
        if pane.id as u128 + 1 > next_id {
            next_id = pane.id as u128 + 1;
        }
        i = i + 1;
    }
    assert(all.take(i as int) =~= all);
    if next_id > u64::MAX as u128 {
        return None;
    }
    assert(tabs.deep_view() =~= kept_tabs(models));
    Some((PaneBoard::start(kept, columns, focused_pane_id), tabs))
}

/// The board that a session starts with, and the tab that each pane shows; none where there is no
/// identifier left for a new pane.
pub fn start_session(
    raw_saved: Option<&str>,
    db: &ThreadDirectory,
    fallback_thread: Option<String>,
    fallback_workspace: Option<String>,
) -> (r: Option<(PaneBoard, Vec<String>)>)
    ensures
        ({
            let stored = stored_layout(str_option(raw_saved));
            let panes = initial_panes(
                stored,
                *db,
                text_of_option(fallback_thread),
                text_of_option(fallback_workspace),
            );
            match r {
                Some(pair) => {
                    &&& id_after(kept_entries(panes)) <= u64::MAX
                    &&& pair.0.model() == next_session(
                        stored,
                        *db,
                        text_of_option(fallback_thread),
                        text_of_option(fallback_workspace),
                    )
                    &&& pair.1.deep_view() == kept_tabs(panes)
                },
                None => id_after(kept_entries(panes)) > u64::MAX,
            }
        }),
{
    let layout = load_initial_layout(raw_saved, db, fallback_thread, fallback_workspace);
    board_from_layout(layout)
}

proof fn lemma_pane_index(panes: Seq<PaneEntry>, id: u64)
    requires
        entry_ids(panes).contains(id),
    ensures
        pane_index(panes, id) < panes.len(),
        panes[pane_index(panes, id) as int].id == id,
        forall|j: int| 0 <= j < pane_index(panes, id) ==> (#[trigger] panes[j]).id != id,
    decreases panes.len(),
{
    let k = choose|k: int| 0 <= k < entry_ids(panes).len() && entry_ids(panes)[k] == id;
    if panes[0].id != id {
        let rest = panes.drop_first();
        assert(entry_ids(rest)[k - 1] == id);
        lemma_pane_index(rest, id);
        assert forall|j: int| 0 <= j < pane_index(panes, id) implies (
        #[trigger] panes[j]).id != id by {
            if j > 0 {
                assert(rest[j - 1] == panes[j]);
            }
        }
    }
}

/// A session starts with the focus that its layout has, and what is active is what the focused pane
/// shows, the first with its identifier: its thread, in its workspace.
pub proof fn lemma_focused_pane_is_active(
    stored: LayoutModel,
    db: ThreadDirectory,
    fallback_thread: Option<Seq<char>>,
    fallback_workspace: Option<Seq<char>>,
)
    ensures
        ({
            let panes = initial_panes(stored, db, fallback_thread, fallback_workspace);
            let focus = initial_focus(panes, stored.focused);
            let board = next_session(stored, db, fallback_thread, fallback_workspace);
            let at = pane_index(kept_entries(panes), focus) as int;
            &&& board.focused == focus
            &&& at < panes.len()
            &&& panes[at].id == focus
            &&& forall|j: int| 0 <= j < at ==> (#[trigger] panes[j]).id != focus
            &&& board.active() == Some(
                PaneEntry {
                    id: focus,
                    thread: panes[at].thread,
                    workspace: panes[at].workspace,
                },
            )
        }),
{
    let panes = initial_panes(stored, db, fallback_thread, fallback_workspace);
    let entries = kept_entries(panes);
    let focus = initial_focus(panes, stored.focused);
    lemma_initial_layout(stored, db, fallback_thread, fallback_workspace);
    assert(entry_ids(entries) =~= model_ids(panes));
    lemma_pane_index(entries, focus);
    let at = pane_index(entries, focus) as int;
    assert forall|j: int| 0 <= j < at implies (#[trigger] panes[j]).id != focus by {
        assert(entries[j].id != focus);
    }
}

/// Whether a pane shows a thread that is open, in a workspace.
pub open spec fn is_live(p: PaneEntry, db: ThreadDirectory) -> bool {
    &&& p.thread matches Some(t) && trimmed(t) == t && db.knows(t)
    &&& p.workspace matches Some(w) && trimmed(w).len() > 0
}

/// Whether every pane shows an open thread of its own.
pub open spec fn all_live(panes: Seq<PaneEntry>, db: ThreadDirectory) -> bool {
    &&& forall|i: int| 0 <= i < panes.len() ==> is_live(#[trigger] panes[i], db)
    &&& forall|i: int, j: int|
        0 <= i < j < panes.len() ==> (#[trigger] panes[i]).thread != (#[trigger] panes[j]).thread
}

proof fn lemma_all_restored(
    stored: Seq<PaneModel>,
    panes: Seq<PaneEntry>,
    db: ThreadDirectory,
    fallback_workspace: Option<Seq<char>>,
)
    requires
        stored.len() == panes.len(),
        kept_entries(stored) == panes,
        all_live(panes, db),
    ensures
        kept_entries(restored_panes(stored, db, fallback_workspace)) == panes,
    decreases panes.len(),
{
    if panes.len() > 0 {
        let rest = stored.drop_last();
        let before = panes.drop_last();
        let entry = panes.last();
        assert(kept_entries(rest) =~= before) by {
            assert forall|i: int| 0 <= i < rest.len() implies kept_entries(rest)[i]
                == before[i] by {
                assert(kept_entries(stored)[i] == panes[i]);
            }
        }
        assert(all_live(before, db)) by {
            assert forall|i: int| 0 <= i < before.len() implies is_live(
                #[trigger] before[i],
                db,
            ) by {
                assert(before[i] == panes[i]);
            }
            assert forall|i: int, j: int| 0 <= i < j < before.len() implies (
            #[trigger] before[i]).thread != (#[trigger] before[j]).thread by {
                assert(before[i] == panes[i] && before[j] == panes[j]);
            }
        }
        lemma_all_restored(rest, before, db, fallback_workspace);
        let head = restored_panes(rest, db, fallback_workspace);
        let last = stored.last();
        assert(kept_entries(stored)[panes.len() - 1] == entry);
        assert(panes[panes.len() - 1] == entry);
        assert(is_live(entry, db));
        assert forall|i: int| 0 <= i < head.len() implies #[trigger] head[i].thread
            != last.thread by {
            assert(kept_entries(head)[i] == before[i]);
            assert(before[i] == panes[i]);
        }
        let all = restored_panes(stored, db, fallback_workspace);
        assert(live_thread(last, head, db) == last.thread);
        assert(kept_entries(all) =~= kept_entries(head).push(entry));
        assert(before.push(entry) =~= panes);
    } else {
        assert(kept_entries(restored_panes(stored, db, fallback_workspace)) =~= panes);
    }
}

/// A board that was stored comes back in the next session, pane by pane, with its columns and its
/// focus, where its threads are still open.
pub proof fn lemma_board_comes_back(
    b: BoardModel,
    tabs: Seq<Seq<char>>,
    db: ThreadDirectory,
    fallback_thread: Option<Seq<char>>,
    fallback_workspace: Option<Seq<char>>,
)
    requires
        b.sound(),
        tabs.len() == b.panes.len(),
        all_live(b.panes, db),
    ensures
        next_session(
            layout_of(layout_tree(stored_models(b, tabs), b.columns, b.focused)),
            db,
            fallback_thread,
            fallback_workspace,
        ) == (BoardModel { next_id: id_after(b.panes) as u64, ..b }),
{
    let models = stored_models(b, tabs);
    assert forall|i: int| 0 <= i < models.len() implies #[trigger] models[i] == settled_pane(
        models[i],
    ) by {
        assert(is_live(b.panes[i], db));
        lemma_tab_name_idempotent(tabs[i]);
    }
    lemma_settled_layout_stays(models, b.columns, b.focused);
    let stored = layout_of(layout_tree(models, b.columns, b.focused));
    assert(kept_entries(models) =~= b.panes);
    lemma_all_restored(models, b.panes, db, fallback_workspace);
    let panes = initial_panes(stored, db, fallback_thread, fallback_workspace);
    assert(kept_entries(panes) == b.panes);
    assert(panes.len() == b.panes.len());
    assert(model_ids(panes) =~= b.ids()) by {
        assert forall|i: int| 0 <= i < panes.len() implies model_ids(panes)[i] == b.ids()[i] by {
            assert(kept_entries(panes)[i] == b.panes[i]);
        }
    }
    lemma_normalized_unchanged(b.columns, b.ids());
}

} // verus!
