//! What counts and lists of changes come to.
use vstd::prelude::*;
#[allow(unused_imports)]
use crate::diff::{
    added_lines, header_text, hunk_starts, lemma_hunk_header, new_file_diff, new_file_header,
};
#[allow(unused_imports)]
use crate::git_flow::{
    counted_lines, push_variables, selected_of, sum_of, untracked_of, PushAnswers,
};
#[allow(unused_imports)]
use crate::git_laws::says;
#[allow(unused_imports)]
use crate::git_status::{
    branches_of, count_totals, counts_of, entries_of, entry_of, file_line_count, line_feeds,
    FileModel,
};
#[allow(unused_imports)]
use crate::lines::{
    lemma_line_ends, lemma_position, lines_of, position, split_char, without_cr, without_leading,
};
#[allow(unused_imports)]
use crate::number::decimal;
#[allow(unused_imports)]
use crate::text::{is_space, trimmed};
#[allow(unused_imports)]
use crate::text_laws::{is_blank, is_tight, lemma_number_read, lemma_trimmed_blank};

verus! {

// ---------------------------------------------------------------------------------------------
// Files
// ---------------------------------------------------------------------------------------------
pub open spec fn is_selected() -> spec_fn(FileModel) -> bool {
    |f: FileModel| f.selected
}

pub open spec fn is_selected_untracked() -> spec_fn(FileModel) -> bool {
    |f: FileModel| f.selected && f.status == "??"@
}

pub open spec fn paths_of(files: Seq<FileModel>) -> Seq<Seq<char>> {
    Seq::new(files.len(), |i: int| files[i].path)
}

/// The selected paths are those of the selected files, in their order; the untracked ones are
/// those that are untracked too.
pub proof fn lemma_selected_of(files: Seq<FileModel>)
    ensures
        selected_of(files) == paths_of(files.filter(is_selected())),
        untracked_of(files) == paths_of(files.filter(is_selected_untracked())),
    decreases files.len(),
{
    reveal(Seq::filter);
    if files.len() > 0 {
        lemma_selected_of(files.drop_last());
        let all = files.drop_last().filter(is_selected());
        assert(paths_of(all.push(files.last())) =~= paths_of(all).push(files.last().path));
        let new = files.drop_last().filter(is_selected_untracked());
        assert(paths_of(new.push(files.last())) =~= paths_of(new).push(files.last().path));
    } else {
        assert(paths_of(files.filter(is_selected())) =~= Seq::<Seq<char>>::empty());
        assert(paths_of(files.filter(is_selected_untracked())) =~= Seq::<Seq<char>>::empty());
    }
}

pub open spec fn lists_file() -> spec_fn(Seq<char>) -> bool {
    |line: Seq<char>| entry_of(line) is Some
}

/// The files of a listing are those of its lines that list one, in their order.
pub proof fn lemma_entries(all: Seq<Seq<char>>)
    ensures
        entries_of(all).len() == all.filter(lists_file()).len(),
        forall|i: int|
            0 <= i < entries_of(all).len() ==> Some(#[trigger] entries_of(all)[i]) == entry_of(
                all.filter(lists_file())[i],
            ),
    decreases all.len(),
{
    reveal(Seq::filter);
    if all.len() > 0 {
        lemma_entries(all.drop_last());
    }
}

/// The current branch is listed behind a star, the others behind nothing; a line with no name
/// lists none.
pub proof fn lemma_branches(all: Seq<Seq<char>>, name: Seq<char>)
    requires
        name.len() > 0,
        is_tight(name),
        name[0] != '*',
    ensures
        branches_of(all.push(seq!['*', ' '] + name)) == branches_of(all).push(name),
        branches_of(all.push(seq![' ', ' '] + name)) == branches_of(all).push(name),
        branches_of(all.push(seq![])) == branches_of(all),
        branches_of(seq![]) == Seq::<Seq<char>>::empty(),
{
    let starred = seq!['*', ' '] + name;
    let plain = seq![' ', ' '] + name;
    assert(all.push(starred).drop_last() =~= all);
    assert(all.push(plain).drop_last() =~= all);
    assert(all.push(seq![]).drop_last() =~= all);
    assert(starred.last() == name.last());
    assert(starred[0] == '*');
    assert(!is_space('*'));
    lemma_trimmed_blank(starred);
    let rest = seq![' '] + name;
    assert(starred.drop_first() =~= rest);
    assert(rest[0] == ' ');
    assert(without_leading(rest, '*') == rest);
    assert(without_leading(starred, '*') == rest);
    assert(is_space(' '));
    assert(is_blank(seq![' ']));
    assert(is_blank(seq![' ', ' ']));
    crate::text_laws::lemma_trimmed_between(seq![' '], name, seq![]);
    assert(seq![' '] + name + seq![] =~= rest);
    crate::text_laws::lemma_trimmed_between(seq![' ', ' '], name, seq![]);
    assert(seq![' ', ' '] + name + seq![] =~= plain);
    assert(without_leading(name, '*') == name);
    lemma_trimmed_blank(name);
    lemma_trimmed_blank(seq![]);
    assert(trimmed(Seq::<char>::empty()) =~= Seq::<char>::empty());
}

// ---------------------------------------------------------------------------------------------
// Counts
// ---------------------------------------------------------------------------------------------
proof fn lemma_parts(a: Seq<char>, b: Seq<char>, c: char)
    requires
        !a.contains(c),
    ensures
        split_char(a + seq![c] + b, c) == seq![a] + split_char(b, c),
        split_char(a, c) == seq![a],
{
    let whole = a + seq![c] + b;
    lemma_position(whole, c);
    lemma_position(a, c);
    let at = position(whole, c) as int;
    assert(whole[a.len() as int] == c);
    if at < a.len() {
        assert(a[at] == whole[at]);
        assert(a.contains(a[at]));
    }
    if position(a, c) < a.len() {
        assert(a.contains(a[position(a, c) as int]));
    }
    assert(whole.take(at) =~= a);
    assert(whole.skip(at + 1) =~= b);
}

/// A line of counts gives the added lines, then the removed ones, up to tabs.
pub proof fn lemma_counts(added: nat, removed: nat, path: Seq<char>)
    requires
        added <= usize::MAX,
        removed <= usize::MAX,
    ensures
        counts_of(decimal(added) + seq!['\t'] + decimal(removed) + seq!['\t'] + path) == (
            added as int,
            removed as int,
        ),
{
    crate::number::lemma_decimal_text(added, added);
    crate::number::lemma_decimal_text(removed, removed);
    let tail = decimal(removed) + seq!['\t'] + path;
    assert(decimal(added) + seq!['\t'] + decimal(removed) + seq!['\t'] + path =~= decimal(added)
        + seq!['\t'] + tail);
    assert(!decimal(added).contains('\t'));
    assert(!decimal(removed).contains('\t'));
    lemma_parts(decimal(added), tail, '\t');
    lemma_parts(decimal(removed), path, '\t');
    lemma_number_read(added, seq![]);
    lemma_number_read(removed, seq![]);
    assert(decimal(added) + seq![] =~= decimal(added));
    assert(decimal(removed) + seq![] =~= decimal(removed));
}

/// The totals are those of the lines before and the counts of the last one; the totals of new
/// files grow by the lines of each.
pub proof fn lemma_totals(all: Seq<Seq<char>>, line: Seq<char>, counts: Seq<usize>, n: usize)
    ensures
        count_totals(all.push(line)).0 == count_totals(all).0 + counts_of(line).0,
        count_totals(all.push(line)).1 == count_totals(all).1 + counts_of(line).1,
        count_totals(seq![]) == (0int, 0int),
        sum_of(counts.push(n)) == sum_of(counts) + n,
        sum_of(seq![]) == 0,
{
    assert(all.push(line).drop_last() =~= all);
    assert(counts.push(n).drop_last() =~= counts);
}

/// Where there is no commit yet nothing has changed in one; any other error stays.
pub proof fn lemma_counted_lines(out: Seq<char>, err: Seq<char>)
    ensures
        counted_lines(Ok(out)) == Ok::<(int, int), Seq<char>>(count_totals(lines_of(out))),
        ({
            let no_commit = says(err, "bad revision 'head'"@) || says(
                err,
                "ambiguous argument 'head'"@,
            ) || says(err, "unknown revision or path"@);
            &&& no_commit ==> counted_lines(Err(err)) == Ok::<(int, int), Seq<char>>((0, 0))
            &&& !no_commit ==> counted_lines(Err(err)) == Err::<(int, int), Seq<char>>(err)
        }),
{
    let low = crate::lines::ascii_lower(err);
    crate::text::lemma_contains_text(low, "bad revision 'head'"@);
    crate::text::lemma_contains_text(low, "ambiguous argument 'head'"@);
    crate::text::lemma_contains_text(low, "unknown revision or path"@);
}

pub open spec fn is_line_feed() -> spec_fn(u8) -> bool {
    |b: u8| b == 10
}

proof fn lemma_line_feeds(bytes: Seq<u8>)
    ensures
        line_feeds(bytes) == bytes.filter(is_line_feed()).len(),
    decreases bytes.len(),
{
    reveal(Seq::filter);
    if bytes.len() > 0 {
        lemma_line_feeds(bytes.drop_last());
    }
}

/// A file has as many lines as line feeds, and one more where something stands behind the last of
/// them; a binary file counts for none, and so does an empty one.
pub proof fn lemma_file_line_count(bytes: Seq<u8>, zero: int)
    ensures
        bytes.len() == 0 ==> file_line_count(bytes) == 0,
        0 <= zero < bytes.len() && bytes[zero] == 0 ==> file_line_count(bytes) == 0,
        bytes.len() > 0 && !bytes.contains(0) && bytes.last() == 10 ==> file_line_count(bytes)
            == bytes.filter(is_line_feed()).len(),
        bytes.len() > 0 && !bytes.contains(0) && bytes.last() != 10 ==> file_line_count(bytes)
            == bytes.filter(is_line_feed()).len() + 1,
{
    lemma_line_feeds(bytes);
}

/// A push never asks on a terminal; credentials are handed over in the variables behind those that
/// say so, so that they win.
pub proof fn lemma_push_variables(answers: PushAnswers)
    ensures
        ({
            let quiet = push_variables(None);
            let with = push_variables(Some(answers));
            &&& quiet.contains(("GIT_TERMINAL_PROMPT"@, "0"@))
            &&& quiet.contains(("GIT_ASKPASS"@, "/bin/false"@))
            &&& quiet.contains(("SSH_ASKPASS"@, "/bin/false"@))
            &&& quiet.contains(("GCM_INTERACTIVE"@, "never"@))
            &&& with.take(quiet.len() as int) == quiet
            &&& with.skip(quiet.len() as int) == seq![
                ("GIT_ASKPASS"@, answers.askpass@),
                ("GIT_USERNAME"@, answers.username@),
                ("GIT_PASSWORD"@, answers.password@),
            ]
        }),
{
    let quiet = push_variables(None);
    let with = push_variables(Some(answers));
    assert(quiet[0] == ("GIT_TERMINAL_PROMPT"@, "0"@));
    assert(quiet[1] == ("GIT_ASKPASS"@, "/bin/false"@));
    assert(quiet[2] == ("SSH_ASKPASS"@, "/bin/false"@));
    assert(quiet[3] == ("GCM_INTERACTIVE"@, "never"@));
    assert(with.take(quiet.len() as int) =~= quiet);
    assert(with.skip(quiet.len() as int) =~= seq![
        ("GIT_ASKPASS"@, answers.askpass@),
        ("GIT_USERNAME"@, answers.username@),
        ("GIT_PASSWORD"@, answers.password@),
    ]);
}

// ---------------------------------------------------------------------------------------------
// New files
// ---------------------------------------------------------------------------------------------
/// Whether a text has neither a line feed nor a carriage return.
pub open spec fn is_one_line(s: Seq<char>) -> bool {
    !s.contains('\n') && !s.contains('\r')
}

pub open spec fn with_plus(all: Seq<Seq<char>>) -> Seq<Seq<char>> {
    Seq::new(all.len(), |i: int| "+"@ + all[i])
}

proof fn lemma_lines_clean(s: Seq<char>, i: int)
    requires
        !s.contains('\r'),
        0 <= i < lines_of(s).len(),
    ensures
        is_one_line(lines_of(s)[i]),
    decreases s.len(),
{
    let at = position(s, '\n') as int;
    lemma_position(s, '\n');
    if s.len() > 0 && at >= s.len() {
        assert(lines_of(s)[i] == s);
        if s.contains('\n') {
            let k = s.index_of('\n');
            assert(s[k] == '\n');
        }
    } else if s.len() > 0 {
        let line = s.take(at);
        let rest = s.skip(at + 1);
        assert forall|j: int| 0 <= j < line.len() implies line[j] != '\n' && line[j] != '\r' by {
            assert(line[j] == s[j]);
            assert(s.contains(s[j]));
        }
        assert(without_cr(line) == line);
        if i == 0 {
            assert(lines_of(s)[0] == line);
        } else {
            assert(!rest.contains('\r')) by {
                if rest.contains('\r') {
                    let k = rest.index_of('\r');
                    assert(s[at + 1 + k] == '\r');
                }
            }
            lemma_lines_clean(rest, i - 1);
            assert(lines_of(s)[i] == lines_of(rest)[i - 1]);
        }
    }
}

proof fn lemma_one_line(a: Seq<char>, b: Seq<char>, rest: Seq<char>)
    requires
        is_one_line(a),
        is_one_line(b),
    ensures
        is_one_line(a + b),
        lines_of(a + b + "\n"@ + rest) == seq![a + b] + lines_of(rest),
{
    let line = a + b;
    assert forall|i: int| 0 <= i < line.len() implies line[i] != '\n' && line[i] != '\r' by {
        if i < a.len() {
            assert(a.contains(a[i]));
        } else {
            assert(b.contains(b[i - a.len()]));
        }
    }
    lemma_line_ends(line, rest);
}

proof fn lemma_added_lines(all: Seq<Seq<char>>, rest: Seq<char>)
    requires
        forall|i: int| 0 <= i < all.len() ==> is_one_line(#[trigger] all[i]),
    ensures
        lines_of(added_lines(all) + rest) == with_plus(all) + lines_of(rest),
    decreases all.len(),
{
    if all.len() == 0 {
        assert(added_lines(all) + rest =~= rest);
        assert(with_plus(all) + lines_of(rest) =~= lines_of(rest));
    } else {
        reveal_strlit("+");
        assert("+"@ =~= seq!['+']);
        let last = all.last();
        let behind = "+"@ + last + "\n"@ + rest;
        assert(added_lines(all) + rest =~= added_lines(all.drop_last()) + behind);
        assert forall|i: int| 0 <= i < all.drop_last().len() implies is_one_line(
            #[trigger] all.drop_last()[i],
        ) by {
            assert(is_one_line(all[i]));
        }
        lemma_added_lines(all.drop_last(), behind);
        assert(is_one_line(all[all.len() - 1]));
        assert(is_one_line("+"@));
        lemma_one_line("+"@, last, rest);
        assert(with_plus(all) =~= with_plus(all.drop_last()) + seq!["+"@ + last]);
        assert(with_plus(all) + lines_of(rest) =~= with_plus(all.drop_last()) + (seq![
            "+"@ + last,
        ] + lines_of(rest)));
    }
}

/// The lines that start the diff of a new file.
pub open spec fn new_file_lines(path: Seq<char>) -> Seq<Seq<char>> {
    seq![
        "diff --git a/"@ + path + " b/"@ + path,
        "new file mode 100644"@,
        "--- /dev/null"@,
        "+++ b/"@ + path,
    ]
}

proof fn lemma_header_lines(path: Seq<char>, rest: Seq<char>)
    requires
        is_one_line(path),
    ensures
        lines_of(new_file_header(path) + rest) == new_file_lines(path) + lines_of(rest),
{
    reveal_strlit("diff --git a/");
    reveal_strlit(" b/");
    reveal_strlit("\nnew file mode 100644\n--- /dev/null\n+++ b/");
    reveal_strlit("new file mode 100644");
    reveal_strlit("--- /dev/null");
    reveal_strlit("+++ b/");
    reveal_strlit("\n");
    assert("diff --git a/"@ =~= seq![
        'd', 'i', 'f', 'f', ' ', '-', '-', 'g', 'i', 't', ' ', 'a', '/',
    ]);
    assert(" b/"@ =~= seq![' ', 'b', '/']);
    assert("new file mode 100644"@ =~= seq![
        'n', 'e', 'w', ' ', 'f', 'i', 'l', 'e', ' ', 'm', 'o', 'd', 'e', ' ', '1', '0', '0', '6',
        '4', '4',
    ]);
    assert("--- /dev/null"@ =~= seq![
        '-', '-', '-', ' ', '/', 'd', 'e', 'v', '/', 'n', 'u', 'l', 'l',
    ]);
    assert("+++ b/"@ =~= seq!['+', '+', '+', ' ', 'b', '/']);
    let l1 = "new file mode 100644"@;
    let l2 = "--- /dev/null"@;
    assert("\nnew file mode 100644\n--- /dev/null\n+++ b/"@ =~= "\n"@ + l1 + "\n"@ + l2 + "\n"@
        + "+++ b/"@);
    let third = "+++ b/"@ + path + "\n"@ + rest;
    let second = l2 + "\n"@ + third;
    let first = l1 + "\n"@ + second;
    let l0 = "diff --git a/"@ + path + " b/"@ + path;
    assert(new_file_header(path) + rest =~= l0 + "\n"@ + first);
    assert(is_one_line("diff --git a/"@));
    assert(is_one_line(" b/"@));
    assert(is_one_line(l1));
    assert(is_one_line(l2));
    assert(is_one_line("+++ b/"@));
    lemma_one_line("diff --git a/"@, path, seq![]);
    lemma_one_line("diff --git a/"@ + path, " b/"@, seq![]);
    lemma_one_line("diff --git a/"@ + path + " b/"@, path, first);
    lemma_one_line(l1, seq![], second);
    assert(l1 + seq![] =~= l1);
    lemma_one_line(l2, seq![], third);
    assert(l2 + seq![] =~= l2);
    lemma_one_line("+++ b/"@, path, rest);
    assert(new_file_lines(path) + lines_of(rest) =~= seq![l0] + (seq![l1] + (seq![l2] + (seq![
        "+++ b/"@ + path,
    ] + lines_of(rest)))));
}

/// The diff of a new file names it, then holds one hunk that starts at its first line, with all of
/// its lines added.
pub proof fn lemma_new_file_diff(path: Seq<char>, text: Seq<char>)
    requires
        is_one_line(path),
        text.len() > 0,
        !text.contains('\r'),
    ensures
        lines_of(new_file_diff(path, text)) == new_file_lines(path) + seq![
            "@@ -0,0 +1,"@ + decimal(lines_of(text).len()) + " @@"@,
        ] + with_plus(lines_of(text)),
        hunk_starts("@@ -0,0 +1,"@ + decimal(lines_of(text).len()) + " @@"@) == Some((0int, 1int)),
        lines_of(new_file_diff(path, seq![])) == new_file_lines(path) + seq![
            "@@ -0,0 +1,1 @@"@,
            "+"@,
        ],
{
    let all = lines_of(text);
    let n = all.len();
    reveal_strlit("@@ -0,0 +1,");
    reveal_strlit(" @@\n");
    reveal_strlit(" @@");
    reveal_strlit("\n");
    reveal_strlit("+");
    reveal_strlit("@@ -0,0 +1,1 @@\n+\n");
    reveal_strlit("@@ -0,0 +1,1 @@");
    assert("@@ -0,0 +1,"@ =~= seq!['@', '@', ' ', '-', '0', ',', '0', ' ', '+', '1', ',']);
    assert(" @@"@ =~= seq![' ', '@', '@']);
    assert("@@ -0,0 +1,1 @@"@ =~= seq![
        '@', '@', ' ', '-', '0', ',', '0', ' ', '+', '1', ',', '1', ' ', '@', '@',
    ]);
    assert("+"@ =~= seq!['+']);
    assert(" @@\n"@ =~= " @@"@ + "\n"@);
    assert("@@ -0,0 +1,1 @@\n+\n"@ =~= "@@ -0,0 +1,1 @@"@ + "\n"@ + ("+"@ + "\n"@ + seq![]));
    crate::number::lemma_decimal_text(n, n);
    assert(is_one_line("@@ -0,0 +1,"@));
    assert(is_one_line(" @@"@));
    assert(is_one_line("@@ -0,0 +1,1 @@"@));
    assert(is_one_line("+"@));
    assert(is_one_line(decimal(n)));
    assert forall|i: int| 0 <= i < all.len() implies is_one_line(#[trigger] all[i]) by {
        lemma_lines_clean(text, i);
    }
    let hunk = "@@ -0,0 +1,"@ + decimal(n) + " @@"@;
    let body = added_lines(all) + seq![];
    assert(added_lines(all) =~= body);
    lemma_added_lines(all, seq![]);
    assert(lines_of(Seq::<char>::empty()) =~= Seq::<Seq<char>>::empty());
    assert(with_plus(all) + Seq::<Seq<char>>::empty() =~= with_plus(all));
    lemma_one_line("@@ -0,0 +1,"@, decimal(n), seq![]);
    lemma_one_line("@@ -0,0 +1,"@ + decimal(n), " @@"@, body);
    assert(lines_of(text).len() >= 1);
    assert(new_file_diff(path, text) =~= new_file_header(path) + (hunk + "\n"@ + body));
    lemma_header_lines(path, hunk + "\n"@ + body);
    assert(lines_of(new_file_diff(path, text)) =~= new_file_lines(path) + seq![hunk] + with_plus(
        all,
    ));
    lemma_one_line("+"@, seq![], seq![]);
    assert("+"@ + seq![] =~= "+"@);
    lemma_one_line("@@ -0,0 +1,1 @@"@, seq![], "+"@ + "\n"@ + seq![]);
    assert("@@ -0,0 +1,1 @@"@ + seq![] =~= "@@ -0,0 +1,1 @@"@);
    lemma_header_lines(path, "@@ -0,0 +1,1 @@\n+\n"@);
    assert(lines_of(new_file_diff(path, seq![])) =~= new_file_lines(path) + seq![
        "@@ -0,0 +1,1 @@"@,
        "+"@,
    ]);
    lemma_hunk_header(0, Some(0nat), 1, Some(n), ""@);
    reveal_strlit("@@ -");
    reveal_strlit(",");
    reveal_strlit(" +");
    reveal_strlit("");
    assert(decimal(0) =~= seq!['0']);
    assert(decimal(1) =~= seq!['1']);
    assert(hunk =~= header_text(0, Some(0nat), 1, Some(n), ""@));
}

} // verus!
