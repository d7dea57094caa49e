//! Restore previews: what a restore would touch, what git has done since, and what was said.
use crate::git_status::mentions;
use crate::json::Json;
use crate::layout_store::is_visible;
use crate::lines::{join, nonblank_lines, words};
use crate::number::{decimal_i64, decimal_usize, parse_i64};
use crate::order::{stable_sort, Sortable};
use crate::text::{
    chars_of, concat, concat3, not_after, owned, rsplit_once, same, text_of_range, trim,
};
use vstd::prelude::*;
#[allow(unused_imports)]
use crate::git_status::speaks_of;
#[allow(unused_imports)]
use crate::json::{field_items, field_str, lemma_trees, tree, trees, JsonTree};
#[allow(unused_imports)]
use crate::lines::{filled_lines, joined, lemma_filled_joined, lines_of, words_of};
#[allow(unused_imports)]
use crate::number::{decimal, parsed_i64, signed_decimal};
#[allow(unused_imports)]
use crate::order::stable_sorted;
#[allow(unused_imports)]
use crate::text::{
    lemma_text_le_total, lemma_text_le_transitive, rsplit_once_at, text_le, trimmed,
};

verus! {

// ---------------------------------------------------------------------------------------------
// What a restore would do
// ---------------------------------------------------------------------------------------------
#[derive(Clone, Copy, Debug, PartialEq, Eq, Structural)]
pub enum RestoreAction {
    Noop,
    Write,
    Delete,
    Recreate,
}

/// What a restore would do to one file.
#[derive(Debug)]
pub struct RestoreItem {
    pub path: String,
    pub action: RestoreAction,
    pub conflict: bool,
    pub reason: String,
}

pub open spec fn action_text(action: RestoreAction) -> Seq<char> {
    match action {
        RestoreAction::Noop => "No change"@,
        RestoreAction::Write => "Restore"@,
        RestoreAction::Delete => "Delete"@,
        RestoreAction::Recreate => "Recreate"@,
    }
}

pub fn action_label(action: RestoreAction) -> (label: &'static str)
    ensures
        label@ == action_text(action),
{
    match action {
        RestoreAction::Noop => "No change",
        RestoreAction::Write => "Restore",
        RestoreAction::Delete => "Delete",
        RestoreAction::Recreate => "Recreate",
    }
}

/// How many of the items a predicate holds of.
pub open spec fn count_items(items: Seq<RestoreItem>, p: spec_fn(RestoreItem) -> bool) -> nat
    decreases items.len(),
{
    if items.len() == 0 {
        0
    } else {
        count_items(items.drop_last(), p) + if p(items.last()) {
            1nat
        } else {
            0nat
        }
    }
}

pub open spec fn does(action: RestoreAction) -> spec_fn(RestoreItem) -> bool {
    |item: RestoreItem| item.action == action
}

pub open spec fn touches() -> spec_fn(RestoreItem) -> bool {
    |item: RestoreItem| item.action != RestoreAction::Noop
}

pub open spec fn conflicts() -> spec_fn(RestoreItem) -> bool {
    |item: RestoreItem| item.conflict
}

/// How many files a restore touches in which way.
#[derive(Clone, Copy, Debug, PartialEq, Eq, Structural)]
pub struct RestoreCounts {
    pub restore: usize,
    pub delete: usize,
    pub recreate: usize,
    pub touched: usize,
    pub conflict: usize,
}

pub open spec fn counts_of_items(items: Seq<RestoreItem>, c: RestoreCounts) -> bool {
    &&& c.restore == count_items(items, does(RestoreAction::Write))
    &&& c.delete == count_items(items, does(RestoreAction::Delete))
    &&& c.recreate == count_items(items, does(RestoreAction::Recreate))
    &&& c.touched == count_items(items, touches())
    &&& c.conflict == count_items(items, conflicts())
}

pub fn count_restore_items(items: &Vec<RestoreItem>) -> (c: RestoreCounts)
    ensures
        counts_of_items(items@, c),
        c.touched == c.restore + c.delete + c.recreate,
        c.touched <= items@.len(),
{
    let mut c = RestoreCounts { restore: 0, delete: 0, recreate: 0, touched: 0, conflict: 0 };
    let mut i: usize = 0;
    assert(items@.take(0) =~= Seq::empty());
    while i < items.len()
        invariant
            i <= items.len(),
            counts_of_items(items@.take(i as int), c),
            c.touched == c.restore + c.delete + c.recreate,
            c.touched <= i,
            c.conflict <= i,
        decreases items.len() - i,
    {
        assert(items@.take(i + 1).drop_last() =~= items@.take(i as int));
        assert(items@.take(i + 1).last() == items@[i as int]);
        match items[i].action {
            RestoreAction::Noop => {},
            RestoreAction::Write => {
                c.restore = c.restore + 1;
                c.touched = c.touched + 1;
            },
            RestoreAction::Delete => {
                c.delete = c.delete + 1;
                c.touched = c.touched + 1;
            },
            RestoreAction::Recreate => {
                c.recreate = c.recreate + 1;
                c.touched = c.touched + 1;
            },
        }
        if items[i].conflict {
            c.conflict = c.conflict + 1;
        }
        i += 1;
    }
    assert(items@.take(i as int) =~= items@);
    c
}

pub open spec fn summary_of(c: RestoreCounts) -> Seq<char> {
    "Restore: "@ + decimal(c.restore as nat) + " • Delete: "@ + decimal(c.delete as nat)
        + " • Recreate: "@ + decimal(c.recreate as nat) + " • Conflicts: "@ + decimal(
        c.conflict as nat,
    )
}

/// The line above the list of files.
pub fn restore_summary(items: Option<&Vec<RestoreItem>>) -> (r: String)
    ensures
        match items {
            None => r@ == "No restore preview available for this checkpoint."@,
            Some(list) => exists|c: RestoreCounts|
                counts_of_items(list@, c) && r@ == #[trigger] summary_of(c),
        },
{
    match items {
        None => owned("No restore preview available for this checkpoint."),
        Some(list) => {
            let c = count_restore_items(list);
            let mut r = concat("Restore: ", decimal_usize(c.restore).as_str());
            r.append(" • Delete: ");
            r.append(decimal_usize(c.delete).as_str());
            r.append(" • Recreate: ");
            r.append(decimal_usize(c.recreate).as_str());
            r.append(" • Conflicts: ");
            r.append(decimal_usize(c.conflict).as_str());
            assert(r@ == summary_of(c));
            r
        },
    }
}

/// The paths of the files with a conflict.
pub open spec fn conflict_paths(items: Seq<RestoreItem>) -> Seq<Seq<char>>
    decreases items.len(),
{
    if items.len() == 0 {
        Seq::empty()
    } else if items.last().conflict {
        conflict_paths(items.drop_last()).push(items.last().path@)
    } else {
        conflict_paths(items.drop_last())
    }
}

/// The files that an undo overwrites although they are in conflict: all of them.
pub fn undo_forced_paths(items: &Vec<RestoreItem>) -> (paths: Vec<String>)
    ensures
        paths.deep_view() == conflict_paths(items@),
{
    let mut paths: Vec<String> = Vec::new();
    let mut i: usize = 0;
    assert(items@.take(0) =~= Seq::empty());
    assert(paths.deep_view() =~= Seq::empty());
    while i < items.len()
        invariant
            i <= items@.len(),
            paths.deep_view() == conflict_paths(items@.take(i as int)),
        decreases items.len() - i,
    {
        assert(items@.take(i + 1).drop_last() =~= items@.take(i as int));
        assert(items@.take(i + 1).last() == items@[i as int]);
        if items[i].conflict {
            let ghost before = paths.deep_view();
            paths.push(owned(items[i].path.as_str()));
            assert(paths.deep_view() =~= before.push(items@[i as int].path@));
        }
        i += 1;
    }
    assert(items@.take(i as int) =~= items@);
    paths
}

// ---------------------------------------------------------------------------------------------
// The files that are touched
// ---------------------------------------------------------------------------------------------
/// A path, in the order of its characters.
pub struct SortedPath {
    pub path: String,
}

impl Sortable for SortedPath {
    open spec fn before(a: SortedPath, b: SortedPath) -> bool {
        text_le(a.path@, b.path@)
    }

    proof fn total(a: SortedPath, b: SortedPath) {
        lemma_text_le_total(a.path@, b.path@);
    }

    proof fn transitive(a: SortedPath, b: SortedPath, c: SortedPath) {
        lemma_text_le_transitive(a.path@, b.path@, c.path@);
    }

    fn is_before(a: &SortedPath, b: &SortedPath) -> (r: bool) {
        not_after(a.path.as_str(), b.path.as_str())
    }
}

pub open spec fn path_texts(paths: Seq<SortedPath>) -> Seq<Seq<char>> {
    Seq::new(paths.len(), |i: int| paths[i].path@)
}

/// `x` put in behind the last text that does not come after it.
pub open spec fn text_inserted(s: Seq<Seq<char>>, x: Seq<char>) -> Seq<Seq<char>>
    decreases s.len(),
{
    if s.len() == 0 || text_le(s.last(), x) {
        s.push(x)
    } else {
        text_inserted(s.drop_last(), x).push(s.last())
    }
}

/// Texts in order.
pub open spec fn texts_sorted(s: Seq<Seq<char>>) -> Seq<Seq<char>>
    decreases s.len(),
{
    if s.len() == 0 {
        s
    } else {
        text_inserted(texts_sorted(s.drop_last()), s.last())
    }
}

proof fn lemma_inserted_texts(s: Seq<SortedPath>, x: SortedPath)
    ensures
        path_texts(crate::order::inserted(s, x)) == text_inserted(path_texts(s), x.path@),
    decreases s.len(),
{
    if s.len() == 0 || text_le(s.last().path@, x.path@) {
        assert(path_texts(s.push(x)) =~= path_texts(s).push(x.path@));
    } else {
        lemma_inserted_texts(s.drop_last(), x);
        assert(path_texts(s).drop_last() =~= path_texts(s.drop_last()));
        let low = crate::order::inserted(s.drop_last(), x);
        assert(path_texts(low.push(s.last())) =~= path_texts(low).push(s.last().path@));
    }
}

proof fn lemma_sorted_texts(s: Seq<SortedPath>)
    ensures
        path_texts(stable_sorted(s)) == texts_sorted(path_texts(s)),
    decreases s.len(),
{
    if s.len() > 0 {
        lemma_sorted_texts(s.drop_last());
        lemma_inserted_texts(stable_sorted(s.drop_last()), s.last());
        assert(path_texts(s).drop_last() =~= path_texts(s.drop_last()));
    } else {
        assert(path_texts(s) =~= Seq::empty());
    }
}

/// The paths of the files that are touched, in the order of the items.
pub open spec fn touched_paths(items: Seq<RestoreItem>) -> Seq<Seq<char>>
    decreases items.len(),
{
    if items.len() == 0 {
        Seq::empty()
    } else if items.last().action == RestoreAction::Noop {
        touched_paths(items.drop_last())
    } else {
        touched_paths(items.drop_last()).push(items.last().path@)
    }
}

pub open spec fn bulleted(paths: Seq<Seq<char>>) -> Seq<Seq<char>> {
    Seq::new(paths.len(), |i: int| "• "@ + paths[i])
}

/// The first `limit` of the touched paths in order, each on a line of its own, and how many more
/// there are.
pub open spec fn touched_list(items: Seq<RestoreItem>, limit: nat) -> Seq<char> {
    let paths = texts_sorted(touched_paths(items));
    if paths.len() == 0 {
        "(none)"@
    } else if paths.len() > limit {
        joined(bulleted(paths.take(limit as int)), "\n"@) + "\n• …and "@ + decimal(
            (paths.len() - limit) as nat,
        ) + " more"@
    } else {
        joined(bulleted(paths), "\n"@)
    }
}

pub fn touched_paths_preview(items: &Vec<RestoreItem>, limit: usize) -> (body: String)
    ensures
        body@ == touched_list(items@, limit as nat),
{
    let mut list: Vec<SortedPath> = Vec::new();
    let mut i: usize = 0;
    assert(items@.take(0) =~= Seq::empty());
    assert(path_texts(list@) =~= Seq::empty());
    while i < items.len()
        invariant
            i <= items@.len(),
            path_texts(list@) == touched_paths(items@.take(i as int)),
        decreases items.len() - i,
    {
        assert(items@.take(i + 1).drop_last() =~= items@.take(i as int));
        assert(items@.take(i + 1).last() == items@[i as int]);
        let noop = match items[i].action {
            RestoreAction::Noop => true,
            _ => false,
        };
        if !noop {
            let ghost before = list@;
            list.push(SortedPath { path: owned(items[i].path.as_str()) });
            assert(path_texts(list@) =~= path_texts(before).push(items@[i as int].path@));
        }
        i += 1;
    }
    assert(items@.take(i as int) =~= items@);
    proof {
        lemma_sorted_texts(list@);
    }
    let sorted = stable_sort(list);
    let ghost paths = path_texts(sorted@);
    assert(paths == texts_sorted(touched_paths(items@)));
    assert(paths.len() == sorted@.len());
    if sorted.len() == 0 {
        return owned("(none)");
    }
    let shown: usize = if sorted.len() > limit {
        limit
    } else {
        sorted.len()
    };
    let mut rows: Vec<String> = Vec::new();
    let mut k: usize = 0;
    while k < shown
        invariant
            k <= shown <= sorted@.len(),
            paths == path_texts(sorted@),
            rows.deep_view() == bulleted(paths.take(k as int)),
        decreases shown - k,
    {
        let ghost before = rows.deep_view();
        let row = concat("• ", sorted[k].path.as_str());
        rows.push(row);
        k += 1;
        assert(rows.deep_view() =~= before.push(row@));
        assert(rows.deep_view() =~= bulleted(paths.take(k as int)));
    }
    let mut body = join(&rows, "\n");
    if sorted.len() > limit {
        body.append("\n• …and ");
        body.append(decimal_usize(sorted.len() - limit).as_str());
        body.append(" more");
    } else {
        assert(paths.take(k as int) =~= paths);
    }
    body
}

// ---------------------------------------------------------------------------------------------
// Messages
// ---------------------------------------------------------------------------------------------
pub open spec fn confirm_text(
    touched: nat,
    conflict: nat,
    forced: nat,
    list: Seq<char>,
    risk: Seq<char>,
) -> Seq<char> {
    let head = "You are about to restore "@ + decimal(touched)
        + " file(s).\nConflicts detected: "@ + decimal(conflict)
        + ". Forced conflicts selected: "@ + decimal(forced)
        + ".\n\nA backup checkpoint will be created before applying."@ + "\n\nTouched files:\n"@
        + list;
    if risk.len() > 0 {
        head + "\n\nWarning: "@ + risk
    } else {
        head
    }
}

/// What is asked before a restore.
pub fn restore_confirm_message(
    items: &Vec<RestoreItem>,
    forced_count: usize,
    git_risk_note: &str,
) -> (r: String)
    ensures
        r@ == confirm_text(
            count_items(items@, touches()),
            count_items(items@, conflicts()),
            forced_count as nat,
            touched_list(items@, 8),
            git_risk_note@,
        ),
{
    let c = count_restore_items(items);
    let list = touched_paths_preview(items, 8);
    let mut r = concat("You are about to restore ", decimal_usize(c.touched).as_str());
    r.append(" file(s).\nConflicts detected: ");
    r.append(decimal_usize(c.conflict).as_str());
    r.append(". Forced conflicts selected: ");
    r.append(decimal_usize(forced_count).as_str());
    r.append(".\n\nA backup checkpoint will be created before applying.");
    r.append("\n\nTouched files:\n");
    r.append(list.as_str());
    if !git_risk_note.is_empty() {
        r.append("\n\nWarning: ");
        r.append(git_risk_note);
    }
    r
}

/// What is asked before an undo.
pub fn undo_confirm_message(items: &Vec<RestoreItem>) -> (r: String)
    ensures
        r@ == "You are about to undo the last restore and touch "@ + decimal(
            count_items(items@, touches()),
        ) + " file(s).\nConflicts detected: "@ + decimal(count_items(items@, conflicts()))
            + ".\n\nA new backup checkpoint will be created before applying."@
            + "\n\nTouched files:\n"@ + touched_list(items@, 8),
{
    let c = count_restore_items(items);
    let list = touched_paths_preview(items, 8);
    let mut r = concat(
        "You are about to undo the last restore and touch ",
        decimal_usize(c.touched).as_str(),
    );
    r.append(" file(s).\nConflicts detected: ");
    r.append(decimal_usize(c.conflict).as_str());
    r.append(".\n\nA new backup checkpoint will be created before applying.");
    r.append("\n\nTouched files:\n");
    r.append(list.as_str());
    r
}

/// What a restore has done.
#[derive(Clone, Copy, Debug, PartialEq, Eq, Structural)]
pub struct RestoreApplyResult {
    pub target_checkpoint_id: i64,
    pub backup_checkpoint_id: i64,
    pub restored_count: usize,
    pub deleted_count: usize,
    pub recreated_count: usize,
    pub skipped_conflicts: usize,
}

pub open spec fn done_counts(r: RestoreApplyResult) -> Seq<char> {
    ". Restored: "@ + decimal(r.restored_count as nat) + " • Deleted: "@ + decimal(
        r.deleted_count as nat,
    ) + " • Recreated: "@ + decimal(r.recreated_count as nat) + " • Skipped conflicts: "@ + decimal(
        r.skipped_conflicts as nat,
    )
}

fn done_counts_text(r: &RestoreApplyResult) -> (s: String)
    ensures
        s@ == done_counts(*r),
{
    let mut s = concat(". Restored: ", decimal_usize(r.restored_count).as_str());
    s.append(" • Deleted: ");
    s.append(decimal_usize(r.deleted_count).as_str());
    s.append(" • Recreated: ");
    s.append(decimal_usize(r.recreated_count).as_str());
    s.append(" • Skipped conflicts: ");
    s.append(decimal_usize(r.skipped_conflicts).as_str());
    s
}

/// What is said of a restore.
pub fn restore_applied_message(result: &RestoreApplyResult, rollback_status: &str) -> (s: String)
    ensures
        s@ == "Applied restore to checkpoint "@ + signed_decimal(
            result.target_checkpoint_id as int,
        ) + done_counts(*result) + " • Backup checkpoint: "@ + signed_decimal(
            result.backup_checkpoint_id as int,
        ) + rollback_status@,
{
    let mut s = concat(
        "Applied restore to checkpoint ",
        decimal_i64(result.target_checkpoint_id).as_str(),
    );
    s.append(done_counts_text(result).as_str());
    s.append(" • Backup checkpoint: ");
    s.append(decimal_i64(result.backup_checkpoint_id).as_str());
    s.append(rollback_status);
    s
}

/// What is said of an undo.
pub fn undo_applied_message(backup_checkpoint_id: i64, result: &RestoreApplyResult) -> (s: String)
    ensures
        s@ == "Undo restore applied from backup checkpoint "@ + signed_decimal(
            backup_checkpoint_id as int,
        ) + done_counts(*result) + " • New backup: "@ + signed_decimal(
            result.backup_checkpoint_id as int,
        ),
{
    let mut s = concat(
        "Undo restore applied from backup checkpoint ",
        decimal_i64(backup_checkpoint_id).as_str(),
    );
    s.append(done_counts_text(result).as_str());
    s.append(" • New backup: ");
    s.append(decimal_i64(result.backup_checkpoint_id).as_str());
    s
}

/// The label of a checkpoint.
pub fn checkpoint_label(turn_id: &str, now: i64, created_at: i64) -> (s: String)
    ensures
        s@ == "Turn "@ + turn_id@ + " • "@ + crate::age::ago(
            crate::age::seconds_since(now, created_at),
        ),
{
    let head = concat3("Turn ", turn_id, " • ");
    concat(head.as_str(), crate::age::format_relative_age(now, created_at).as_str())
}

// ---------------------------------------------------------------------------------------------
// Snippets
// ---------------------------------------------------------------------------------------------
/// The words of a text on one line, cut after `most` characters.
pub open spec fn snippet_of(text: Seq<char>, most: nat) -> Seq<char> {
    let line = joined(words_of(text), " "@);
    if line.len() <= most {
        line
    } else {
        line.take(most as int).push('…')
    }
}

pub fn snippet(text: &str, max_chars: usize) -> (r: String)
    ensures
        r@ == snippet_of(text@, max_chars as nat),
{
    let line = join(&words(text), " ");
    let chars = chars_of(line.as_str());
    if chars.len() <= max_chars {
        return line;
    }
    let mut r = text_of_range(&chars, 0, max_chars);
    assert(r@ =~= chars@.take(max_chars as int));
    r.push('…');
    r
}

/// A snippet never has more than one character over its limit.
pub proof fn lemma_snippet_length(text: Seq<char>, most: nat)
    ensures
        snippet_of(text, most).len() <= most + 1,
{
}

/// What is shown of a turn: its prompt and its response, or that there is none.
pub open spec fn shown_text(text: Seq<char>, absent: Seq<char>) -> Seq<char> {
    if trimmed(text).len() == 0 {
        absent
    } else {
        snippet_of(text, 360)
    }
}

pub fn turn_previews(texts: Option<(&str, &str)>) -> (r: (String, String))
    ensures
        match texts {
            Some(t) => r.0@ == shown_text(t.0@, "(no prompt text captured)"@) && r.1@ == shown_text(
                t.1@,
                "(no response text captured)"@,
            ),
            None => r.0@ == "(turn text not available)"@ && r.1@ == "(turn text not available)"@,
        },
{
    match texts {
        Some((user, assistant)) => {
            let user_text = if is_visible(user) {
                snippet(user, 360)
            } else {
                owned("(no prompt text captured)")
            };
            let assistant_text = if is_visible(assistant) {
                snippet(assistant, 360)
            } else {
                owned("(no response text captured)")
            };
            (user_text, assistant_text)
        },
        None => (owned("(turn text not available)"), owned("(turn text not available)")),
    }
}

// ---------------------------------------------------------------------------------------------
// What git has done since a checkpoint
// ---------------------------------------------------------------------------------------------
#[derive(Clone, Copy, Debug, PartialEq, Eq, Structural)]
pub enum GitRiskLevel {
    High,
    Info,
}

pub open spec fn risk_of(summary: Seq<char>) -> Option<GitRiskLevel> {
    if speaks_of(summary, "pull"@) || speaks_of(summary, "rebase"@) || speaks_of(summary, "merge"@)
        || speaks_of(summary, "checkout"@) || speaks_of(summary, "switch"@) || speaks_of(
        summary,
        "reset"@,
    ) {
        Some(GitRiskLevel::High)
    } else if speaks_of(summary, "fetch"@) {
        Some(GitRiskLevel::Info)
    } else {
        None
    }
}

pub fn classify_git_reflog_summary(summary: &str) -> (r: Option<GitRiskLevel>)
    ensures
        r == risk_of(summary@),
{
    if mentions(summary, "pull") || mentions(summary, "rebase") || mentions(summary, "merge")
        || mentions(summary, "checkout") || mentions(summary, "switch") || mentions(
        summary,
        "reset",
    ) {
        Some(GitRiskLevel::High)
    } else if mentions(summary, "fetch") {
        Some(GitRiskLevel::Info)
    } else {
        None
    }
}

/// The action in a line of the reflog, where it came after the checkpoint and matters.
pub open spec fn risky_action(line: Seq<char>, since: i64) -> Option<(Seq<char>, GitRiskLevel)> {
    match rsplit_once_at(line, "|"@) {
        None => None,
        Some(p) => match parsed_i64(trimmed(p.1)) {
            None => None,
            Some(ts) => if ts <= since {
                None
            } else {
                match risk_of(trimmed(p.0)) {
                    None => None,
                    Some(level) => Some((trimmed(p.0), level)),
                }
            },
        },
    }
}

pub open spec fn risky_actions(all: Seq<Seq<char>>, since: i64) -> Seq<(Seq<char>, GitRiskLevel)>
    decreases all.len(),
{
    if all.len() == 0 {
        Seq::empty()
    } else {
        match risky_action(all.last(), since) {
            Some(a) => risky_actions(all.drop_last(), since).push(a),
            None => risky_actions(all.drop_last(), since),
        }
    }
}

proof fn lemma_actions_added(a: Seq<Seq<char>>, b: Seq<Seq<char>>, since: i64)
    ensures
        risky_actions(a + b, since) == risky_actions(a, since) + risky_actions(b, since),
    decreases b.len(),
{
    if b.len() == 0 {
        assert(a + b =~= a);
        assert(risky_actions(a, since) + risky_actions(b, since) =~= risky_actions(a, since));
    } else {
        assert((a + b).drop_last() =~= a + b.drop_last());
        lemma_actions_added(a, b.drop_last(), since);
        assert(risky_actions(a + b, since) =~= risky_actions(a, since) + risky_actions(b, since));
    }
}

/// Two reflogs with a line feed between them tell of the actions of the one, then of those of the
/// other.
pub proof fn lemma_actions_joined(a: Seq<char>, b: Seq<char>, since: i64)
    ensures
        risky_actions(filled_lines(lines_of(a + "\n"@ + b)), since) == risky_actions(
            filled_lines(lines_of(a)),
            since,
        ) + risky_actions(filled_lines(lines_of(b)), since),
{
    lemma_filled_joined(a, b);
    lemma_actions_added(filled_lines(lines_of(a)), filled_lines(lines_of(b)), since);
}

pub open spec fn count_level(actions: Seq<(Seq<char>, GitRiskLevel)>, level: GitRiskLevel) -> nat
    decreases actions.len(),
{
    if actions.len() == 0 {
        0
    } else {
        count_level(actions.drop_last(), level) + if actions.last().1 == level {
            1nat
        } else {
            0nat
        }
    }
}

/// What git has done since a checkpoint.
#[derive(Debug)]
pub struct RestoreGitRiskSummary {
    pub high_risk_count: usize,
    pub info_count: usize,
    pub recent_actions: Vec<String>,
}

pub open spec fn action_texts(actions: Seq<(Seq<char>, GitRiskLevel)>) -> Seq<Seq<char>> {
    Seq::new(actions.len(), |i: int| actions[i].0)
}

pub open spec fn first_three(texts: Seq<Seq<char>>) -> Seq<Seq<char>> {
    if texts.len() > 3 {
        texts.take(3)
    } else {
        texts
    }
}

impl RestoreGitRiskSummary {
    /// Whether this sums the actions up: how many there are of each level, and the first three.
    pub open spec fn sums_up(self, actions: Seq<(Seq<char>, GitRiskLevel)>) -> bool {
        &&& self.high_risk_count == count_level(actions, GitRiskLevel::High)
        &&& self.info_count == count_level(actions, GitRiskLevel::Info)
        &&& self.recent_actions.deep_view() == first_three(action_texts(actions))
    }
}

/// What git has done since a checkpoint, given its reflog.
pub fn git_actions_since_checkpoint(reflog: &str, checkpoint_created_at: i64) -> (r: Option<
    RestoreGitRiskSummary,
>)
    ensures
        match r {
            Some(s) => s.sums_up(
                risky_actions(filled_lines(lines_of(reflog@)), checkpoint_created_at),
            ) && risky_actions(
                filled_lines(lines_of(reflog@)),
                checkpoint_created_at,
            ).len() > 0,
            None => risky_actions(
                filled_lines(lines_of(reflog@)),
                checkpoint_created_at,
            ).len() == 0,
        },
{
    let filled = nonblank_lines(reflog);
    let ghost texts = filled.deep_view();
    let mut high: usize = 0;
    let mut info: usize = 0;
    let mut recent: Vec<String> = Vec::new();
    let mut i: usize = 0;
    let ghost mut actions = risky_actions(texts.take(0), checkpoint_created_at);
    assert(texts.take(0) =~= Seq::empty());
    assert(recent.deep_view() =~= first_three(action_texts(actions)));
    while i < filled.len()
        invariant
            i <= filled.len(),
            texts == filled.deep_view(),
            actions == risky_actions(texts.take(i as int), checkpoint_created_at),
            high == count_level(actions, GitRiskLevel::High),
            info == count_level(actions, GitRiskLevel::Info),
            high + info == actions.len(),
            high + info <= i,
            recent.deep_view() == first_three(action_texts(actions)),
        decreases filled.len() - i,
    {
        assert(texts.take(i + 1).drop_last() =~= texts.take(i as int));
        assert(texts.take(i + 1).last() == filled@[i as int]@);
        if let Some(p) = rsplit_once(filled[i].as_str(), "|") {
            if let Some(ts) = parse_i64(trim(p.1.as_str()).as_str()) {
                if ts > checkpoint_created_at {
                    let summary = trim(p.0.as_str());
                    if let Some(level) = classify_git_reflog_summary(summary.as_str()) {
                        let ghost before = actions;
                        proof {
                            actions = before.push((summary@, level));
                            assert(actions.drop_last() =~= before);
                            assert(action_texts(actions) =~= action_texts(before).push(summary@));
                        }
                        match level {
                            GitRiskLevel::High => {
                                high += 1;
                            },
                            GitRiskLevel::Info => {
                                info += 1;
                            },
                        }
                        assert(recent.deep_view().len() == recent@.len());
                        if recent.len() < 3 {
                            let ghost old_recent = recent.deep_view();
                            recent.push(summary);
                            assert(recent.deep_view() =~= old_recent.push(summary@));
                        }
                        assert(recent.deep_view() =~= first_three(action_texts(actions)));
                    }
                }
            }
        }
        i += 1;
    }
    assert(texts.take(i as int) =~= texts);
    if high == 0 && info == 0 {
        None
    } else {
        Some(
            RestoreGitRiskSummary {
                high_risk_count: high,
                info_count: info,
                recent_actions: recent,
            },
        )
    }
}

pub open spec fn risk_text(high: nat, info: nat, recent: Seq<Seq<char>>) -> Seq<char> {
    let head = "Git changed since this checkpoint: "@ + decimal(high) + " high-risk action(s), "@
        + decimal(info) + " fetch action(s)."@;
    if recent.len() > 0 {
        head + " Recent: "@ + joined(recent, " • "@)
    } else {
        head
    }
}

pub fn restore_git_risk_message(summary: &RestoreGitRiskSummary) -> (r: String)
    ensures
        r@ == risk_text(
            summary.high_risk_count as nat,
            summary.info_count as nat,
            summary.recent_actions.deep_view(),
        ),
{
    let mut r = concat3(
        "Git changed since this checkpoint: ",
        decimal_usize(summary.high_risk_count).as_str(),
        " high-risk action(s), ",
    );
    r.append(decimal_usize(summary.info_count).as_str());
    r.append(" fetch action(s).");
    assert(summary.recent_actions.deep_view().len() == summary.recent_actions@.len());
    if summary.recent_actions.len() > 0 {
        r.append(" Recent: ");
        r.append(join(&summary.recent_actions, " • ").as_str());
    }
    r
}

// ---------------------------------------------------------------------------------------------
// What was said in the turns of a thread
// ---------------------------------------------------------------------------------------------
/// `text` on a new line behind `acc`.
pub open spec fn line_added(acc: Seq<char>, text: Seq<char>) -> Seq<char> {
    if acc.len() > 0 {
        acc + "\n"@ + text
    } else {
        acc + text
    }
}

/// The texts of the parts of a message, added to `acc`.
pub open spec fn parts_text(parts: Seq<JsonTree>, acc: Seq<char>) -> Seq<char>
    decreases parts.len(),
{
    if parts.len() == 0 {
        acc
    } else {
        let head = parts_text(parts.drop_last(), acc);
        let part = parts.last();
        if field_str(part, "type"@) == Some("text"@) {
            match field_str(part, "text"@) {
                Some(text) => line_added(head, text),
                None => head,
            }
        } else {
            head
        }
    }
}

/// The prompt and the response in the items of a turn.
pub open spec fn items_texts(items: Seq<JsonTree>) -> (Seq<char>, Seq<char>)
    decreases items.len(),
{
    if items.len() == 0 {
        (Seq::empty(), Seq::empty())
    } else {
        let head = items_texts(items.drop_last());
        let item = items.last();
        let kind = field_str(item, "type"@);
        if kind == Some("userMessage"@) {
            match field_items(item, "content"@) {
                Some(parts) => (parts_text(parts, head.0), head.1),
                None => head,
            }
        } else if kind == Some("agentMessage"@) {
            match field_str(item, "text"@) {
                Some(text) => (head.0, line_added(head.1, text)),
                None => head,
            }
        } else {
            head
        }
    }
}

#[verifier::ext_equal]
pub ghost struct TurnTextModel {
    pub id: Seq<char>,
    pub user: Seq<char>,
    pub assistant: Seq<char>,
}

/// The texts of the turns that have an identifier and items.
pub open spec fn turn_texts(turns: Seq<JsonTree>) -> Seq<TurnTextModel>
    decreases turns.len(),
{
    if turns.len() == 0 {
        Seq::empty()
    } else {
        let head = turn_texts(turns.drop_last());
        let turn = turns.last();
        match (field_str(turn, "id"@), field_items(turn, "items"@)) {
            (Some(id), Some(items)) => head.push(
                TurnTextModel {
                    id,
                    user: items_texts(items).0,
                    assistant: items_texts(items).1,
                },
            ),
            _ => head,
        }
    }
}

pub open spec fn thread_texts(thread: JsonTree) -> Seq<TurnTextModel> {
    match field_items(thread, "turns"@) {
        Some(turns) => turn_texts(turns),
        None => Seq::empty(),
    }
}

/// The prompt and the response of a turn.
#[derive(Debug)]
pub struct TurnText {
    pub turn_id: String,
    pub user: String,
    pub assistant: String,
}

impl TurnText {
    pub open spec fn model(self) -> TurnTextModel {
        TurnTextModel { id: self.turn_id@, user: self.user@, assistant: self.assistant@ }
    }
}

pub open spec fn turn_text_models(list: Seq<TurnText>) -> Seq<TurnTextModel> {
    Seq::new(list.len(), |i: int| list[i].model())
}

fn add_line(acc: &mut String, text: &str)
    ensures
        final(acc)@ == line_added(old(acc)@, text@),
{
    if !acc.as_str().is_empty() {
        acc.append("\n");
    }
    acc.append(text);
}

fn is_kind(j: &Json, kind: &str) -> (r: bool)
    ensures
        r == (field_str(tree(*j), "type"@) == Some(kind@)),
{
    match j.str_at("type") {
        Some(k) => same(k, kind),
        None => false,
    }
}

fn add_parts(acc: &mut String, parts: &Vec<Json>)
    ensures
        final(acc)@ == parts_text(trees(parts@), old(acc)@),
{
    let ghost all = trees(parts@);
    let ghost start = acc@;
    proof {
        lemma_trees(parts@);
    }
    let mut i: usize = 0;
    assert(all.take(0) =~= Seq::empty());
    while i < parts.len()
        invariant
            i <= parts@.len(),
            all == trees(parts@),
            all.len() == parts@.len(),
            forall|k: int| 0 <= k < parts@.len() ==> #[trigger] all[k] == tree(parts@[k]),
            acc@ == parts_text(all.take(i as int), start),
        decreases parts.len() - i,
    {
        assert(all.take(i + 1).drop_last() =~= all.take(i as int));
        assert(all.take(i + 1).last() == all[i as int]);
        if is_kind(&parts[i], "text") {
            if let Some(text) = parts[i].str_at("text") {
                add_line(acc, text);
            }
        }
        i += 1;
    }
    assert(all.take(i as int) =~= all);
}

fn texts_of_items(items: &Vec<Json>) -> (r: (String, String))
    ensures
        (r.0@, r.1@) == items_texts(trees(items@)),
{
    let ghost all = trees(items@);
    proof {
        lemma_trees(items@);
    }
    let mut user = String::new();
    let mut assistant = String::new();
    let mut i: usize = 0;
    assert(all.take(0) =~= Seq::empty());
    proof {
        reveal_strlit("userMessage");
        reveal_strlit("agentMessage");
    }
    while i < items.len()
        invariant
            i <= items@.len(),
            all == trees(items@),
            all.len() == items@.len(),
            forall|k: int| 0 <= k < items@.len() ==> #[trigger] all[k] == tree(items@[k]),
            (user@, assistant@) == items_texts(all.take(i as int)),
        decreases items.len() - i,
    {
        assert(all.take(i + 1).drop_last() =~= all.take(i as int));
        assert(all.take(i + 1).last() == all[i as int]);
        let item = &items[i];
        if is_kind(item, "userMessage") {
            if let Some(parts) = item.array_at("content") {
                add_parts(&mut user, parts);
            }
        } else if is_kind(item, "agentMessage") {
            if let Some(text) = item.str_at("text") {
                add_line(&mut assistant, text);
            }
        }
        i += 1;
    }
    assert(all.take(i as int) =~= all);
    (user, assistant)
}

/// The prompts and the responses of the turns of a thread.
pub fn extract_turn_texts(thread: &Json) -> (list: Vec<TurnText>)
    ensures
        turn_text_models(list@) == thread_texts(tree(*thread)),
{
    let mut list: Vec<TurnText> = Vec::new();
    assert(turn_text_models(list@) =~= Seq::empty());
    let turns = match thread.array_at("turns") {
        Some(turns) => turns,
        None => return list,
    };
    let ghost all = trees(turns@);
    proof {
        lemma_trees(turns@);
    }
    let mut i: usize = 0;
    assert(all.take(0) =~= Seq::empty());
    while i < turns.len()
        invariant
            i <= turns@.len(),
            all == trees(turns@),
            all.len() == turns@.len(),
            forall|k: int| 0 <= k < turns@.len() ==> #[trigger] all[k] == tree(turns@[k]),
            turn_text_models(list@) == turn_texts(all.take(i as int)),
        decreases turns.len() - i,
    {
        assert(all.take(i + 1).drop_last() =~= all.take(i as int));
        assert(all.take(i + 1).last() == all[i as int]);
        let turn = &turns[i];
        if let Some(id) = turn.str_at("id") {
            if let Some(items) = turn.array_at("items") {
                let (user, assistant) = texts_of_items(items);
                let entry = TurnText { turn_id: owned(id), user, assistant };
                let ghost before = list@;
                list.push(entry);
                assert(turn_text_models(list@) =~= turn_text_models(before).push(entry.model()));
            }
        }
        i += 1;
    }
    assert(all.take(i as int) =~= all);
    list
}

/// The texts of a turn: those of the last turn with its identifier.
pub open spec fn texts_for(list: Seq<TurnTextModel>, id: Seq<char>) -> Option<(
    Seq<char>,
    Seq<char>,
)>
    decreases list.len(),
{
    if list.len() == 0 {
        None
    } else if list.last().id == id {
        Some((list.last().user, list.last().assistant))
    } else {
        texts_for(list.drop_last(), id)
    }
}

pub fn turn_text_for<'a>(list: &'a Vec<TurnText>, turn_id: &str) -> (r: Option<(&'a str, &'a str)>)
    ensures
        match r {
            Some(t) => texts_for(turn_text_models(list@), turn_id@) == Some((t.0@, t.1@)),
            None => texts_for(turn_text_models(list@), turn_id@) is None,
        },
{
    let ghost all = turn_text_models(list@);
    let mut i: usize = list.len();
    assert(all.take(i as int) =~= all);
    while i > 0
        invariant
            i <= list@.len(),
            all == turn_text_models(list@),
            texts_for(all, turn_id@) == texts_for(all.take(i as int), turn_id@),
        decreases i,
    {
        assert(all.take(i as int).drop_last() =~= all.take(i - 1));
        assert(all.take(i as int).last() == list@[i - 1].model());
        if same(list[i - 1].turn_id.as_str(), turn_id) {
            return Some((list[i - 1].user.as_str(), list[i - 1].assistant.as_str()));
        }
        i -= 1;
    }
    None
}

} // verus!
