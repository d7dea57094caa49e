//! The thread lists of the sidebar as values: one list for each workspace.
use crate::text::owned;
use crate::thread_rows::{profile_icon_visibility, thread_runtime_workspace_path};
use crate::threads::{copy_option, ordered_threads_for_display, ThreadRecord};
use vstd::prelude::*;
#[allow(unused_imports)]
use crate::layout_store::text_of_option;
#[allow(unused_imports)]
use crate::thread_rows::{icons_shown, row_is_linked, row_records, runtime_workspace};
#[allow(unused_imports)]
use crate::threads::{display_order, in_order, thread_models, ThreadModel};

verus! {

/// The list of the threads of one workspace. Each row shows one thread.
#[derive(Debug)]
pub struct ThreadList {
    pub rows: Vec<ThreadRecord>,
    pub workspace_path: String,
    pub expanded: bool,
    /// The thread whose row is marked as selected.
    pub selected: Option<i64>,
    pub show_profile_icons: bool,
}

#[verifier::ext_equal]
pub ghost struct ListModel {
    pub rows: Seq<ThreadModel>,
    pub workspace: Seq<char>,
    pub expanded: bool,
    pub selected: Option<i64>,
    pub icons: bool,
}

/// The first row from `from` on that shows a thread.
pub open spec fn row_of(rows: Seq<ThreadModel>, id: i64, from: int) -> Option<int>
    decreases rows.len() - from,
{
    if from < 0 || from >= rows.len() {
        None
    } else if rows[from].id == id {
        Some(from)
    } else {
        row_of(rows, id, from + 1)
    }
}

/// Where the row of a new thread goes: below the row of the thread that it was forked from, or on
/// top.
pub open spec fn place_for(rows: Seq<ThreadModel>, parent: Option<i64>) -> int {
    match parent {
        Some(id) => match row_of(rows, id, 0) {
            Some(i) => i + 1,
            None => 0,
        },
        None => 0,
    }
}

pub open spec fn stored_record(stored: Seq<ThreadModel>, id: i64) -> Option<ThreadModel> {
    match row_of(stored, id, 0) {
        Some(i) => Some(stored[i]),
        None => None,
    }
}

/// What is stored now of the threads of the rows.
pub open spec fn stored_rows(rows: Seq<ThreadModel>, stored: Seq<ThreadModel>) -> Seq<
    Option<ThreadModel>,
> {
    Seq::new(rows.len(), |i: int| stored_record(stored, rows[i].id))
}

impl ListModel {
    pub open spec fn with_row(self, t: ThreadModel) -> ListModel {
        ListModel { rows: self.rows.insert(place_for(self.rows, t.parent), t), ..self }
    }

    pub open spec fn refreshed(self, stored: Seq<ThreadModel>, own_home: bool) -> ListModel {
        ListModel { icons: icons_shown(stored_rows(self.rows, stored), own_home), ..self }
    }
}

proof fn lemma_row_of(rows: Seq<ThreadModel>, id: i64, from: int)
    requires
        0 <= from <= rows.len(),
    ensures
        match row_of(rows, id, from) {
            Some(i) => from <= i < rows.len() && rows[i].id == id && forall|j: int|
                from <= j < i ==> (#[trigger] rows[j]).id != id,
            None => forall|j: int| from <= j < rows.len() ==> (#[trigger] rows[j]).id != id,
        },
    decreases rows.len() - from,
{
    if from < rows.len() && rows[from].id != id {
        lemma_row_of(rows, id, from + 1);
    }
}

fn find_row(rows: &Vec<ThreadRecord>, id: i64) -> (r: Option<usize>)
    ensures
        match r {
            Some(i) => row_of(thread_models(rows@), id, 0) == Some(i as int) && i < rows@.len(),
            None => row_of(thread_models(rows@), id, 0) is None,
        },
{
    let ghost all = thread_models(rows@);
    let mut i: usize = 0;
    while i < rows.len()
        invariant
            i <= rows@.len(),
            all == thread_models(rows@),
            row_of(all, id, 0) == row_of(all, id, i as int),
        decreases rows@.len() - i,
    {
        assert(all[i as int] == rows@[i as int].model());
        if rows[i].id == id {
            return Some(i);
        }
        i = i + 1;
    }
    None
}

impl ThreadList {
    pub open spec fn model(self) -> ListModel {
        ListModel {
            rows: thread_models(self.rows@),
            workspace: self.workspace_path@,
            expanded: self.expanded,
            selected: self.selected,
            icons: self.show_profile_icons,
        }
    }

    /// The list of the threads of a workspace.
    pub fn new(
        workspace_path: &str,
        threads: &Vec<ThreadRecord>,
        expanded: bool,
        non_system_profile: bool,
    ) -> (list: ThreadList)
        ensures
            list.model() == (ListModel {
                rows: in_order(thread_models(threads@), display_order(thread_models(threads@))),
                workspace: workspace_path@,
                expanded,
                selected: None,
                icons: false,
            }).refreshed(thread_models(threads@), non_system_profile),
    {
        let mut list = ThreadList {
            rows: ordered_threads_for_display(threads),
            workspace_path: owned(workspace_path),
            expanded,
            selected: None,
            show_profile_icons: false,
        };
        let _ = list.refresh_profile_icon_visibility(threads, non_system_profile);
        list
    }

    pub fn is_expanded(&self) -> (r: bool)
        ensures
            r == self.expanded,
    {
        self.expanded
    }

    pub fn set_expanded(&mut self, expanded: bool)
        ensures
            final(self).model() == (ListModel { expanded, ..old(self).model() }),
    {
        self.expanded = expanded;
    }

    /// Decides anew whether the list shows profile icons, from what is stored of its threads; the
    /// result says for each row whether it shows one.
    pub fn refresh_profile_icon_visibility(
        &mut self,
        stored: &Vec<ThreadRecord>,
        non_system_profile: bool,
    ) -> (marks: Vec<bool>)
        ensures
            final(self).model() == old(self).model().refreshed(
                thread_models(stored@),
                non_system_profile,
            ),
            marks@ == Seq::new(
                old(self).rows@.len(),
                |i: int|
                    final(self).show_profile_icons && row_is_linked(
                        stored_rows(old(self).model().rows, thread_models(stored@))[i],
                    ),
            ),
    {
        let ghost rows = thread_models(self.rows@);
        let ghost known = thread_models(stored@);
        let mut records: Vec<Option<ThreadRecord>> = Vec::new();
        let mut i: usize = 0;
        while i < self.rows.len()
            invariant
                i <= self.rows@.len(),
                rows == thread_models(self.rows@),
                known == thread_models(stored@),
                row_records(records@) =~= stored_rows(rows, known).take(
                    i as int,
                ),
            decreases self.rows@.len() - i,
        {
            assert(rows[i as int] == self.rows@[i as int].model());
            let ghost before = row_records(records@);
            let record = match find_row(stored, self.rows[i].id) {
                Some(k) => {
                    assert(known[k as int] == stored@[k as int].model());
                    Some(stored[k].copy())
                },
                None => None,
            };
            records.push(record);
            assert(row_records(records@) =~= before.push(
                stored_record(known, rows[i as int].id),
            ));
            i = i + 1;
        }
        assert(row_records(records@) =~= stored_rows(rows, known));
        let (show, marks) = profile_icon_visibility(&records, non_system_profile);
        self.show_profile_icons = show;
        marks
    }

    fn insert_row(&mut self, thread: ThreadRecord)
        ensures
            final(self).model() == old(self).model().with_row(thread.model()),
    {
        let ghost before = thread_models(self.rows@);
        let at: usize = match thread.parent_thread_id {
            Some(parent) => match find_row(&self.rows, parent) {
                Some(i) => {
                    assert(i < self.rows.len());
                    i + 1
                },
                None => 0,
            },
            None => 0,
        };
        let ghost t = thread.model();
        self.rows.insert(at, thread);
        assert(thread_models(self.rows@) =~= before.insert(at as int, t));
    }

    /// Adds a thread that becomes the selected one. The result is the remote identifier and the
    /// directory of the thread, which are the active ones from now on.
    pub fn append_thread(
        &mut self,
        thread: ThreadRecord,
        stored: &Vec<ThreadRecord>,
        non_system_profile: bool,
    ) -> (active: (Option<String>, String))
        ensures
            final(self).model() == (ListModel {
                selected: Some(thread.id),
                ..old(self).model().with_row(thread.model())
            }).refreshed(thread_models(stored@), non_system_profile),
            text_of_option(active.0) == thread.model().remote,
            active.1@ == runtime_workspace(thread.model(), old(self).workspace_path@),
    {
        let workspace = thread_runtime_workspace_path(&thread, self.workspace_path.as_str());
        let remote = copy_option(&thread.remote_thread_id);
        let id = thread.id;
        self.insert_row(thread);
        self.selected = Some(id);
        let _ = self.refresh_profile_icon_visibility(stored, non_system_profile);
        (remote, workspace)
    }

    /// Adds a thread without selecting it.
    pub fn append_thread_passive(
        &mut self,
        thread: ThreadRecord,
        stored: &Vec<ThreadRecord>,
        non_system_profile: bool,
    )
        ensures
            final(self).model() == old(self).model().with_row(thread.model()).refreshed(
                thread_models(stored@),
                non_system_profile,
            ),
    {
        self.insert_row(thread);
        let _ = self.refresh_profile_icon_visibility(stored, non_system_profile);
    }

    /// Sets the title of the first row that shows a thread; false where none does.
    pub fn update_thread_row_title(&mut self, thread_id: i64, title: &str) -> (found: bool)
        ensures
            match row_of(old(self).model().rows, thread_id, 0) {
                Some(i) => found && final(self).model() == (ListModel {
                    rows: old(self).model().rows.update(
                        i,
                        ThreadModel { title: title@, ..old(self).model().rows[i] },
                    ),
                    ..old(self).model()
                }),
                None => !found && final(self).model() == old(self).model(),
            },
    {
        let ghost before = thread_models(self.rows@);
        match find_row(&self.rows, thread_id) {
            Some(i) => {
                assert(before[i as int] == self.rows@[i as int].model());
                let mut row = self.rows[i].copy();
                row.title = owned(title);
                let ghost t = row.model();
                self.rows.set(i, row);
                assert(thread_models(self.rows@) =~= before.update(i as int, t));
                true
            },
            None => false,
        }
    }

    /// Takes the row of a closed thread out of the list.
    pub fn remove_thread(
        &mut self,
        thread_id: i64,
        stored: &Vec<ThreadRecord>,
        non_system_profile: bool,
    ) -> (found: bool)
        ensures
            match row_of(old(self).model().rows, thread_id, 0) {
                Some(i) => found && final(self).model() == (ListModel {
                    rows: old(self).model().rows.remove(i),
                    ..old(self).model()
                }).refreshed(thread_models(stored@), non_system_profile),
                None => !found && final(self).model() == old(self).model(),
            },
    {
        let ghost before = thread_models(self.rows@);
        match find_row(&self.rows, thread_id) {
            Some(i) => {
                let _ = self.rows.remove(i);
                assert(thread_models(self.rows@) =~= before.remove(i as int));
                let _ = self.refresh_profile_icon_visibility(stored, non_system_profile);
                true
            },
            None => false,
        }
    }
}

/// A new thread gets a row of its own, directly below that of the thread it was forked from where
/// that is listed; the other rows stay in their order.
pub proof fn lemma_row_added(list: ListModel, t: ThreadModel)
    ensures
        list.with_row(t).rows.len() == list.rows.len() + 1,
        0 <= place_for(list.rows, t.parent) <= list.rows.len(),
        list.with_row(t).rows[place_for(list.rows, t.parent)] == t,
        list.with_row(t).rows.remove(place_for(list.rows, t.parent)) == list.rows,
        t.parent is Some && row_of(list.rows, t.parent->0, 0) is Some ==> place_for(
            list.rows,
            t.parent,
        ) > 0 && list.with_row(t).rows[place_for(list.rows, t.parent) - 1].id == t.parent->0,
{
    if t.parent is Some {
        lemma_row_of(list.rows, t.parent->0, 0);
    }
    let at = place_for(list.rows, t.parent);
    assert(list.with_row(t).rows.remove(at) =~= list.rows);
}

// ---------------------------------------------------------------------------------------------
// All lists
// ---------------------------------------------------------------------------------------------
pub open spec fn list_models(lists: Seq<ThreadList>) -> Seq<ListModel> {
    Seq::new(lists.len(), |i: int| lists[i].model())
}

/// The first list from `from` on with a row that shows a thread.
pub open spec fn list_with(lists: Seq<ListModel>, id: i64, from: int) -> Option<int>
    decreases lists.len() - from,
{
    if from < 0 || from >= lists.len() {
        None
    } else if row_of(lists[from].rows, id, 0) is Some {
        Some(from)
    } else {
        list_with(lists, id, from + 1)
    }
}

fn find_list(lists: &Vec<ThreadList>, id: i64) -> (r: Option<usize>)
    ensures
        match r {
            Some(i) => list_with(list_models(lists@), id, 0) == Some(i as int) && i < lists@.len(),
            None => list_with(list_models(lists@), id, 0) is None,
        },
{
    let ghost all = list_models(lists@);
    let mut i: usize = 0;
    while i < lists.len()
        invariant
            i <= lists@.len(),
            all == list_models(lists@),
            list_with(all, id, 0) == list_with(all, id, i as int),
        decreases lists@.len() - i,
    {
        assert(all[i as int] == lists@[i as int].model());
        if find_row(&lists[i].rows, id).is_some() {
            return Some(i);
        }
        i = i + 1;
    }
    None
}

pub open spec fn deselected(lists: Seq<ListModel>) -> Seq<ListModel> {
    Seq::new(lists.len(), |i: int| ListModel { selected: None, ..lists[i] })
}

/// Takes the mark of selection from every row.
pub fn clear_thread_list_selections(lists: &mut Vec<ThreadList>)
    ensures
        list_models(final(lists)@) == deselected(list_models(old(lists)@)),
{
    let ghost before = list_models(lists@);
    let mut i: usize = 0;
    while i < lists.len()
        invariant
            i <= lists@.len(),
            before == list_models(old(lists)@),
            lists@.len() == before.len(),
            list_models(lists@) =~= deselected(before).take(i as int) + before.skip(i as int),
        decreases lists@.len() - i,
    {
        let ghost now = list_models(lists@);
        assert(now[i as int] == lists@[i as int].model());
        assert(now[i as int] == before[i as int]);
        lists[i].selected = None;
        assert(list_models(lists@) =~= now.update(
            i as int,
            ListModel { selected: None, ..before[i as int] },
        ));
        i = i + 1;
    }
}

/// Adds a thread below the one it was forked from, in the list that shows that one, and selects it;
/// the result has what becomes active. Nothing happens where no list shows the parent.
pub fn append_thread_under_parent_from_root(
    lists: &mut Vec<ThreadList>,
    parent_thread_id: i64,
    thread: ThreadRecord,
    stored: &Vec<ThreadRecord>,
    non_system_profile: bool,
) -> (active: Option<(Option<String>, String)>)
    ensures
        match list_with(list_models(old(lists)@), parent_thread_id, 0) {
            Some(i) => {
                let cleared = deselected(list_models(old(lists)@));
                &&& list_models(final(lists)@) == cleared.update(
                    i,
                    (ListModel {
                        selected: Some(thread.id),
                        ..cleared[i].with_row(thread.model())
                    }).refreshed(thread_models(stored@), non_system_profile),
                )
                &&& active matches Some(pair) && text_of_option(pair.0) == thread.model().remote
                    && pair.1@ == runtime_workspace(thread.model(), cleared[i].workspace)
            },
            None => active is None && final(lists)@ == old(lists)@,
        },
{
    match find_list(lists, parent_thread_id) {
        Some(i) => {
            let ghost before = list_models(lists@);
            clear_thread_list_selections(lists);
            let ghost now = list_models(lists@);
            assert(now.len() == before.len());
            assert(now[i as int] == lists@[i as int].model());
            let pair = lists[i].append_thread(thread, stored, non_system_profile);
            assert(list_models(lists@) =~= now.update(i as int, lists@[i as int].model()));
            Some(pair)
        },
        None => None,
    }
}

/// Adds a thread below the one it was forked from, in the list that shows that one, without
/// selecting it; false where no list shows the parent.
pub fn append_thread_under_parent_from_root_passive(
    lists: &mut Vec<ThreadList>,
    parent_thread_id: i64,
    thread: ThreadRecord,
    stored: &Vec<ThreadRecord>,
    non_system_profile: bool,
) -> (found: bool)
    ensures
        match list_with(list_models(old(lists)@), parent_thread_id, 0) {
            Some(i) => found && list_models(final(lists)@) == list_models(old(lists)@).update(
                i,
                list_models(old(lists)@)[i].with_row(thread.model()).refreshed(
                    thread_models(stored@),
                    non_system_profile,
                ),
            ),
            None => !found && final(lists)@ == old(lists)@,
        },
{
    match find_list(lists, parent_thread_id) {
        Some(i) => {
            let ghost before = list_models(lists@);
            assert(before[i as int] == lists@[i as int].model());
            lists[i].append_thread_passive(thread, stored, non_system_profile);
            assert(list_models(lists@) =~= before.update(i as int, lists@[i as int].model()));
            true
        },
        None => false,
    }
}

/// Sets the title of the row that shows a thread, in the first list that has one; false where no
/// list does.
pub fn update_thread_row_title(lists: &mut Vec<ThreadList>, thread_id: i64, title: &str) -> (found:
    bool)
    ensures
        match list_with(list_models(old(lists)@), thread_id, 0) {
            Some(i) => {
                let list = list_models(old(lists)@)[i];
                let row = row_of(list.rows, thread_id, 0)->0;
                found && list_models(final(lists)@) == list_models(old(lists)@).update(
                    i,
                    ListModel {
                        rows: list.rows.update(
                            row,
                            ThreadModel { title: title@, ..list.rows[row] },
                        ),
                        ..list
                    },
                )
            },
            None => !found && final(lists)@ == old(lists)@,
        },
{
    match find_list(lists, thread_id) {
        Some(i) => {
            let ghost before = list_models(lists@);
            assert(before[i as int] == lists@[i as int].model());
            proof {
                lemma_list_with(before, thread_id, 0);
            }
            let found = lists[i].update_thread_row_title(thread_id, title);
            assert(list_models(lists@) =~= before.update(i as int, lists@[i as int].model()));
            found
        },
        None => false,
    }
}

proof fn lemma_list_with(lists: Seq<ListModel>, id: i64, from: int)
    requires
        0 <= from <= lists.len(),
    ensures
        match list_with(lists, id, from) {
            Some(i) => from <= i < lists.len() && row_of(lists[i].rows, id, 0) is Some,
            None => true,
        },
    decreases lists.len() - from,
{
    if from < lists.len() && !(row_of(lists[from].rows, id, 0) is Some) {
        lemma_list_with(lists, id, from + 1);
    }
}

/// Decides for every list anew whether it shows profile icons.
pub fn refresh_all_profile_icon_visibility(
    lists: &mut Vec<ThreadList>,
    stored: &Vec<ThreadRecord>,
    non_system_profile: bool,
)
    ensures
        list_models(final(lists)@) == Seq::new(
            old(lists)@.len(),
            |i: int|
                list_models(old(lists)@)[i].refreshed(
                    thread_models(stored@),
                    non_system_profile,
                ),
        ),
{
    let ghost before = list_models(lists@);
    let ghost known = thread_models(stored@);
    let ghost after = Seq::new(
        before.len(),
        |i: int| before[i].refreshed(known, non_system_profile),
    );
    let mut i: usize = 0;
    while i < lists.len()
        invariant
            i <= lists@.len(),
            before == list_models(old(lists)@),
            known == thread_models(stored@),
            lists@.len() == before.len(),
            after == Seq::new(
                before.len(),
                |i: int| before[i].refreshed(known, non_system_profile),
            ),
            list_models(lists@) =~= after.take(i as int) + before.skip(i as int),
        decreases lists@.len() - i,
    {
        let ghost now = list_models(lists@);
        assert(now[i as int] == lists@[i as int].model());
        assert(now[i as int] == before[i as int]);
        let _ = lists[i].refresh_profile_icon_visibility(stored, non_system_profile);
        assert(list_models(lists@) =~= now.update(i as int, after[i as int]));
        i = i + 1;
    }
}

} // verus!
