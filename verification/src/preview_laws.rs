//! What the quick preview comes to.
use vstd::prelude::*;
#[allow(unused_imports)]
use crate::lines::{
    ascii_lower, byte_len, chars_within, joined, lemma_chars_within, lemma_position, position,
    without_char,
};
#[allow(unused_imports)]
use crate::number::{decimal, parsed_i64};
#[allow(unused_imports)]
use crate::preview::{
    after_reading, before_reading, can_be_cut, commit_of, commits_of, diff_or, diff_title,
    first_dark, first_of, has_tail, limited, looks_binary, meta_line, name_title, preview_scheme,
    revealed_column, revealed_line, slashed, turn_tail, with_diff, working_diff,
    CheckpointDiffEntry, CheckpointLookup, CommitModel, PreviewModel,
};
#[allow(unused_imports)]
use crate::text::{contains_text, lemma_contains_text, occurs_at};
#[allow(unused_imports)]
use crate::text_laws::{is_blank, is_tight, lemma_trimmed_blank};

verus! {

// ---------------------------------------------------------------------------------------------
// Bytes
// ---------------------------------------------------------------------------------------------
proof fn lemma_bytes_added(a: Seq<char>, b: Seq<char>)
    ensures
        byte_len(a + b) == byte_len(a) + byte_len(b),
    decreases a.len(),
{
    if a.len() == 0 {
        assert(a + b =~= b);
    } else {
        assert((a + b).drop_first() =~= a.drop_first() + b);
        assert((a + b)[0] == a[0]);
        lemma_bytes_added(a.drop_first(), b);
    }
}

/// A zero that comes within the first 512 bytes makes a file binary, and none behind them does.
pub proof fn lemma_looks_binary(lead: Seq<u8>, rest: Seq<u8>)
    requires
        !lead.contains(0),
    ensures
        lead.len() < 512 ==> looks_binary(lead.push(0) + rest),
        lead.len() >= 512 ==> !looks_binary(lead + rest),
        !looks_binary(lead),
{
    if lead.len() < 512 {
        assert((lead.push(0) + rest)[lead.len() as int] == 0);
    } else {
        assert forall|i: int| 0 <= i < 512 implies (lead + rest)[i] != 0 by {
            assert((lead + rest)[i] == lead[i]);
        }
    }
}

/// A text of at most 300000 bytes is shown whole. Of a longer one the first 300000 are shown, and
/// a note says so.
pub proof fn lemma_limited(text: Seq<char>)
    requires
        can_be_cut(text),
    ensures
        byte_len(text) <= 300_000 ==> limited(text) == text,
        byte_len(text) > 300_000 ==> exists|shown: Seq<char>, hidden: Seq<char>|
            {
                &&& text == shown + hidden
                &&& byte_len(shown) == 300_000
                &&& limited(text) == #[trigger] (shown + hidden).take(shown.len() as int)
                    + "\n\n--- Preview truncated to first 300KB ---"@
            },
{
    if byte_len(text) > 300_000 {
        let k = chars_within(text, 300_000) as int;
        lemma_chars_within(text, 300_000);
        let shown = text.take(k);
        let hidden = text.skip(k);
        assert(text =~= shown + hidden);
        assert((shown + hidden).take(shown.len() as int) =~= shown);
    }
}

/// An image is shown whatever its size; another file is read only where its size is known and at
/// most a mebibyte.
pub proof fn lemma_what_is_read(size: Option<u64>, file_size: u64)
    ensures
        before_reading(true, size) == Some(PreviewModel::Image),
        before_reading(false, None) == Some(PreviewModel::Unreadable),
        file_size <= 1024 * 1024 <==> before_reading(false, Some(file_size)) is None,
        file_size > 1024 * 1024 ==> before_reading(false, Some(file_size)) == Some(
            PreviewModel::TooLarge { file_size },
        ),
{
}

/// A text is shown as it is, but for its zero characters: those it was mixed with do not show.
pub proof fn lemma_text_shown(text: Seq<char>, mixed: Seq<char>)
    requires
        !text.contains('\0'),
        mixed.filter(crate::lines::other_than('\0')) == text,
        byte_len(text) <= 300_000,
    ensures
        after_reading(false, text) == PreviewModel::Text(text),
        after_reading(false, mixed) == PreviewModel::Text(text),
        after_reading(true, mixed) == PreviewModel::Binary,
{
    lemma_nothing_left_out(text, '\0');
}

proof fn lemma_nothing_left_out(s: Seq<char>, c: char)
    requires
        !s.contains(c),
    ensures
        without_char(s, c) == s,
    decreases s.len(),
{
    reveal(Seq::filter);
    if s.len() > 0 {
        assert(s.contains(s.last()));
        assert forall|i: int| 0 <= i < s.drop_last().len() implies s.drop_last()[i] != c by {
            assert(s[i] == s.drop_last()[i]);
            assert(s.contains(s[i]));
        }
        lemma_nothing_left_out(s.drop_last(), c);
        assert(s.drop_last().push(s.last()) =~= s);
    }
}

/// A file is titled by its path, or by its name where there is no path; a path of components is
/// written with slashes.
pub proof fn lemma_titles(path: Seq<char>, name: Seq<char>, components: Seq<Seq<char>>)
    requires
        path.len() > 0,
        !path.contains('\0'),
        !name.contains('\0'),
        forall|i: int| 0 <= i < components.len() ==> !(#[trigger] components[i]).contains('\0'),
    ensures
        diff_title(path, Some(name)) == path,
        diff_title(path, None) == path,
        diff_title(seq![], Some(name)) == name,
        diff_title(seq![], None) == "Unknown"@,
        name_title(Some(name)) == name,
        slashed(components) == joined(components, "/"@),
{
    lemma_nothing_left_out(path, '\0');
    lemma_nothing_left_out(name, '\0');
    lemma_nothing_left_out(seq![], '\0');
    let clean = Seq::new(components.len(), |i: int| without_char(components[i], '\0'));
    assert(clean =~= components) by {
        assert forall|i: int| 0 <= i < components.len() implies clean[i] == components[i] by {
            lemma_nothing_left_out(components[i], '\0');
        }
    }
}

// ---------------------------------------------------------------------------------------------
// Places
// ---------------------------------------------------------------------------------------------
/// Lines are counted from one: the line that is asked for is revealed where the file has it, the
/// last one where it has not, and the first one for none.
pub proof fn lemma_revealed_line(target: u32, count: int)
    requires
        0 <= count <= i32::MAX,
    ensures
        1 <= target <= count ==> revealed_line(target, count) == target - 1,
        count < target <= i32::MAX && count > 0 ==> revealed_line(target, count) == count - 1,
        target == 0 ==> revealed_line(target, count) == 0,
        count == 0 ==> revealed_line(target, count) == 0,
{
    assert(target <= i32::MAX && target > 0 ==> (target - 1) as u32 as i32 == target - 1);
}

/// Columns are counted from one too, and the end of the line stands for those behind it.
pub proof fn lemma_revealed_column(target: u32, chars: int)
    requires
        0 <= chars <= i32::MAX,
    ensures
        1 <= target <= chars ==> revealed_column(target, chars) == target - 1,
        chars < target <= i32::MAX ==> revealed_column(target, chars) == chars,
        target == 0 ==> revealed_column(target, chars) == 0,
{
    assert(target <= i32::MAX && target > 0 ==> (target - 1) as u32 as i32 == target - 1);
}

/// The line under a preview names the file and its age, then the line and the column in it that
/// were asked for; a column without a line is not named.
pub proof fn lemma_meta_line(
    path: Seq<char>,
    modified: Seq<char>,
    line: u32,
    column: u32,
    any: Option<u32>,
)
    ensures
        meta_line(path, modified, None, any) == path + " • "@ + modified,
        meta_line(path, modified, Some(line), None) == meta_line(path, modified, None, any)
            + " • L"@ + decimal(line as nat),
        meta_line(path, modified, Some(line), Some(column)) == meta_line(
            path,
            modified,
            Some(line),
            None,
        ) + ":"@ + decimal(column as nat),
{
    assert(meta_line(path, modified, None, any) =~= path + " • "@ + modified);
    assert(meta_line(path, modified, Some(line), None) =~= meta_line(path, modified, None, any)
        + " • L"@ + decimal(line as nat));
    assert(meta_line(path, modified, Some(line), Some(column)) =~= meta_line(
        path,
        modified,
        Some(line),
        None,
    ) + ":"@ + decimal(column as nat));
}

// ---------------------------------------------------------------------------------------------
// Diffs
// ---------------------------------------------------------------------------------------------
/// A diff that shows something is shown, the one of the working tree before the one of the index;
/// where there is nothing to show, a message says so.
pub proof fn lemma_diff_shown(unstaged: Seq<char>, staged: Seq<char>, message: Seq<char>)
    ensures
        !is_blank(unstaged) ==> working_diff(unstaged, staged) == unstaged,
        is_blank(unstaged) && !is_blank(staged) ==> working_diff(unstaged, staged) == staged,
        is_blank(unstaged) && is_blank(staged) ==> working_diff(unstaged, staged)
            == "No diff available for this file."@,
        !is_blank(staged) ==> diff_or(staged, message) == staged,
        is_blank(staged) ==> diff_or(staged, message) == message,
{
    lemma_trimmed_blank(unstaged);
    lemma_trimmed_blank(staged);
}

pub open spec fn shows_change() -> spec_fn(CheckpointDiffEntry) -> bool {
    |e: CheckpointDiffEntry| !is_blank(e.diff_text@)
}

/// The checkpoints that are kept are those that changed something, in their order.
pub proof fn lemma_with_diff(entries: Seq<CheckpointDiffEntry>)
    ensures
        with_diff(entries) == entries.filter(shows_change()),
    decreases entries.len(),
{
    reveal(Seq::filter);
    if entries.len() > 0 {
        lemma_with_diff(entries.drop_last());
        lemma_trimmed_blank(entries.last().diff_text@);
    }
}

/// Checkpoints can be shown just where there is an active thread on record that has run, and the
/// file lies in its workspace.
pub proof fn lemma_obstacle(lookup: CheckpointLookup)
    ensures
        lookup.obstacle() is None <==> {
            &&& lookup.last_active_thread_id is Some
            &&& parsed_i64(lookup.last_active_thread_id->0@) is Some
            &&& lookup.thread_found
            &&& lookup.remote_thread_id is Some
            &&& !is_blank(lookup.remote_thread_id->0@)
            &&& lookup.workspace_found
            &&& lookup.inside_workspace
        },
        lookup.last_active_thread_id is None ==> lookup.obstacle() == Some(
            "No active thread for checkpoint diffs."@,
        ),
        lookup.obstacle() is Some && lookup.last_active_thread_id is Some && parsed_i64(
            lookup.last_active_thread_id->0@,
        ) is Some && lookup.thread_found && lookup.remote_thread_id is None
            ==> lookup.obstacle() == Some(
            "Thread has no remote runtime id yet. Checkpoint diffs unavailable."@,
        ),
{
    if lookup.remote_thread_id is Some {
        lemma_trimmed_blank(lookup.remote_thread_id->0@);
    }
}

/// A long turn id is shown by the 14 bytes at its end, a short one whole.
pub proof fn lemma_turn_tail(turn_id: Seq<char>)
    requires
        has_tail(turn_id),
    ensures
        byte_len(turn_id) <= 14 ==> turn_tail(turn_id) == turn_id,
        byte_len(turn_id) > 14 ==> byte_len(turn_tail(turn_id)) == 14,
        turn_tail(turn_id).len() <= turn_id.len(),
        turn_tail(turn_id) == turn_id.skip(turn_id.len() - turn_tail(turn_id).len()),
{
    if byte_len(turn_id) > 14 {
        let n = byte_len(turn_id) - 14;
        let k = chars_within(turn_id, n) as int;
        lemma_chars_within(turn_id, n);
        lemma_bytes_added(turn_id.take(k), turn_id.skip(k));
        assert(turn_id.take(k) + turn_id.skip(k) =~= turn_id);
    } else {
        assert(turn_id.skip(0) =~= turn_id);
    }
}

proof fn lemma_tab_found(a: Seq<char>, b: Seq<char>)
    requires
        !a.contains('\t'),
    ensures
        position(a + seq!['\t'] + b, '\t') == a.len(),
        position(a, '\t') == a.len(),
{
    let whole = a + seq!['\t'] + b;
    lemma_position(whole, '\t');
    lemma_position(a, '\t');
    let at = position(whole, '\t') as int;
    if at < a.len() {
        assert(a[at] == whole[at]);
        assert(a.contains(a[at]));
    }
    if at > a.len() {
        assert(whole[a.len() as int] == '\t');
    }
    if position(a, '\t') < a.len() {
        assert(a.contains(a[position(a, '\t') as int]));
    }
}

/// A line of the log shows a commit, its date and its subject, with tabs between them; a line
/// with fewer tabs shows none.
pub proof fn lemma_commit_read(commit: Seq<char>, date: Seq<char>, subject: Seq<char>)
    requires
        !commit.contains('\t'),
        !date.contains('\t'),
        commit.len() > 0,
        is_tight(commit),
        subject.len() > 0,
        is_tight(subject),
    ensures
        commit_of(commit + seq!['\t'] + date + seq!['\t'] + subject) == Some(
            CommitModel { commit, date, subject },
        ),
        commit_of(commit) is None,
        date.len() > 0 && is_tight(date) ==> commit_of(commit + seq!['\t'] + date) is None,
{
    let tail = date + seq!['\t'] + subject;
    let line = commit + seq!['\t'] + date + seq!['\t'] + subject;
    assert(line =~= commit + seq!['\t'] + tail);
    assert(line[0] == commit[0]);
    assert(line.last() == subject.last());
    lemma_trimmed_blank(line);
    lemma_trimmed_blank(commit);
    lemma_tab_found(commit, tail);
    assert(line.take(commit.len() as int) =~= commit);
    assert(line.skip(commit.len() as int + 1) =~= tail);
    lemma_tab_found(date, subject);
    assert(tail.take(date.len() as int) =~= date);
    assert(tail.skip(date.len() as int + 1) =~= subject);
    if date.len() > 0 && is_tight(date) {
        let short = commit + seq!['\t'] + date;
        assert(short[0] == commit[0]);
        assert(short.last() == date.last());
        lemma_trimmed_blank(short);
        lemma_tab_found(commit, date);
        assert(short.skip(commit.len() as int + 1) =~= date);
        lemma_tab_found(date, seq![]);
    }
}

pub open spec fn reads_as_commit() -> spec_fn(Seq<char>) -> bool {
    |line: Seq<char>| commit_of(line) is Some
}

/// The commits of a log are those that its lines show, in their order.
pub proof fn lemma_commits_read(all: Seq<Seq<char>>)
    ensures
        commits_of(all).len() == all.filter(reads_as_commit()).len(),
        forall|i: int|
            0 <= i < commits_of(all).len() ==> Some(#[trigger] commits_of(all)[i]) == commit_of(
                all.filter(reads_as_commit())[i],
            ),
    decreases all.len(),
{
    reveal(Seq::filter);
    if all.len() > 0 {
        lemma_commits_read(all.drop_last());
    }
}

// ---------------------------------------------------------------------------------------------
// Colours
// ---------------------------------------------------------------------------------------------
/// Whether a name says that a scheme is dark.
pub open spec fn says_dark(name: Seq<char>) -> bool {
    exists|at: int| occurs_at(ascii_lower(name), "dark"@, at)
}

proof fn lemma_first_dark(available: Seq<Seq<char>>)
    ensures
        first_dark(available) <= available.len(),
        first_dark(available) < available.len() ==> says_dark(
            available[first_dark(available) as int],
        ),
        forall|i: int| 0 <= i < first_dark(available) ==> !says_dark(#[trigger] available[i]),
    decreases available.len(),
{
    if available.len() > 0 {
        lemma_contains_text(ascii_lower(available[0]), "dark"@);
        if !contains_text(ascii_lower(available[0]), "dark"@) {
            let rest = available.drop_first();
            lemma_first_dark(rest);
            assert forall|i: int| 0 <= i < first_dark(available) implies !says_dark(
                #[trigger] available[i],
            ) by {
                if i > 0 {
                    assert(rest[i - 1] == available[i]);
                }
            }
        }
    }
}

/// The colours are the first of the preferred schemes that there is; without one of those, the
/// first that is dark by its name; and none where there is no such scheme.
pub proof fn lemma_preview_scheme(preferred: Seq<Seq<char>>, available: Seq<Seq<char>>)
    ensures
        match preview_scheme(preferred, available) {
            Some(r) => {
                ||| exists|i: int|
                    {
                        &&& 0 <= i < preferred.len()
                        &&& #[trigger] preferred[i] == r
                        &&& available.contains(r)
                        &&& forall|j: int| 0 <= j < i ==> !available.contains(preferred[j])
                    }
                ||| {
                    &&& forall|j: int|
                        0 <= j < preferred.len() ==> !available.contains(#[trigger] preferred[j])
                    &&& exists|i: int|
                        {
                            &&& 0 <= i < available.len()
                            &&& #[trigger] available[i] == r
                            &&& says_dark(r)
                            &&& forall|j: int| 0 <= j < i ==> !says_dark(available[j])
                        }
                }
            },
            None => {
                &&& forall|j: int|
                    0 <= j < preferred.len() ==> !available.contains(#[trigger] preferred[j])
                &&& forall|j: int| 0 <= j < available.len() ==> !says_dark(#[trigger] available[j])
            },
        },
    decreases preferred.len(),
{
    if preferred.len() == 0 {
        lemma_first_dark(available);
    } else if !available.contains(preferred[0]) {
        let rest = preferred.drop_first();
        lemma_preview_scheme(rest, available);
        assert forall|j: int|
            0 <= j < preferred.len() && (j > 0 ==> !available.contains(
                rest[j - 1],
            )) implies !available.contains(#[trigger] preferred[j]) by {
            if j > 0 {
                assert(rest[j - 1] == preferred[j]);
            }
        }
        if exists|i: int|
            0 <= i < rest.len() && preview_scheme(preferred, available) == Some(
                #[trigger] rest[i],
            ) && available.contains(rest[i]) && (forall|j: int|
                0 <= j < i ==> !available.contains(rest[j])) {
            let i = choose|i: int|
                0 <= i < rest.len() && preview_scheme(preferred, available) == Some(
                    #[trigger] rest[i],
                ) && available.contains(rest[i]) && (forall|j: int|
                    0 <= j < i ==> !available.contains(rest[j]));
            assert(preferred[i + 1] == rest[i]);
        }
    }
}

/// Of wanted names the first one that there is comes out, and none where there is none.
pub proof fn lemma_first_of(wanted: Seq<Seq<char>>, available: Seq<Seq<char>>)
    ensures
        match first_of(wanted, available) {
            Some(r) => exists|i: int|
                {
                    &&& 0 <= i < wanted.len()
                    &&& #[trigger] wanted[i] == r
                    &&& available.contains(r)
                    &&& forall|j: int| 0 <= j < i ==> !available.contains(wanted[j])
                },
            None => forall|j: int|
                0 <= j < wanted.len() ==> !available.contains(#[trigger] wanted[j]),
        },
    decreases wanted.len(),
{
    if wanted.len() > 0 && !available.contains(wanted[0]) {
        let rest = wanted.drop_first();
        lemma_first_of(rest, available);
        assert forall|j: int| 1 <= j < wanted.len() implies #[trigger] wanted[j] == rest[j - 1] by {
        }
        if first_of(wanted, available) is Some {
            let i = choose|i: int|
                {
                    &&& 0 <= i < rest.len()
                    &&& #[trigger] rest[i] == first_of(wanted, available)->0
                    &&& available.contains(first_of(wanted, available)->0)
                    &&& forall|j: int| 0 <= j < i ==> !available.contains(rest[j])
                };
            assert(wanted[i + 1] == rest[i]);
        }
    }
}

} // verus!
