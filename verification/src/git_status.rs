//! What git says of a repository: changed files, commits, remotes and line counts.
use crate::lines::{
    ascii_lowercase, byte_total, count_within, lines, longer_than_bytes, nonblank_lines,
    split_at_char, strip_leading,
};
use crate::number::parse_usize;
use crate::text::{chars_of, concat, contains, owned, same, split_once, starts_with, text_of_range, trim};
use vstd::prelude::*;
#[allow(unused_imports)]
use crate::lines::{
    ascii_lower, byte_len, chars_within, filled_lines, is_boundary, lemma_byte_len_push,
    lemma_chars_within, lemma_chars_within_push, lemma_filled_joined, lemma_lines_joined,
    lemma_position, lemma_trimmed_without_cr, lines_meet, lines_of, position, split_char,
    without_cr, without_leading,
};
#[allow(unused_imports)]
use crate::number::parsed_usize;
#[allow(unused_imports)]
use crate::text::{
    contains_text, is_space, lemma_contains_text, lemma_split_once, lemma_split_once_parts,
    lemma_trimmed_idempotent, lemma_trimmed_push, split_once_at, starts_with_text,
    trimmed,
};

verus! {

// ---------------------------------------------------------------------------------------------
// Changed files
// ---------------------------------------------------------------------------------------------
/// A changed file, and whether it is picked for the next commit.
#[derive(Debug)]
pub struct GitFileEntry {
    pub status: String,
    pub path: String,
    pub selected: bool,
}

#[verifier::ext_equal]
pub ghost struct FileModel {
    pub status: Seq<char>,
    pub path: Seq<char>,
    pub selected: bool,
}

impl GitFileEntry {
    pub open spec fn model(self) -> FileModel {
        FileModel { status: self.status@, path: self.path@, selected: self.selected }
    }
}

pub open spec fn file_models(entries: Seq<GitFileEntry>) -> Seq<FileModel> {
    Seq::new(entries.len(), |i: int| entries[i].model())
}

/// Whether the two status bytes and the space behind them are whole characters.
pub open spec fn is_status_line(line: Seq<char>) -> bool {
    byte_len(line) >= 3 ==> is_boundary(line, 2) && is_boundary(line, 3)
}

/// Whether every line is a status line, or too short to be one.
pub open spec fn is_porcelain(all: Seq<Seq<char>>) -> bool {
    forall|i: int| 0 <= i < all.len() ==> is_status_line(#[trigger] all[i])
}

/// The status that is shown: `??`, or the letter for what is staged, or else for what is not.
pub open spec fn shown_status(raw: Seq<char>) -> Seq<char> {
    if raw == "??"@ {
        "??"@
    } else {
        let staged = if raw.len() > 0 {
            raw[0]
        } else {
            ' '
        };
        let unstaged = if raw.len() > 1 {
            raw[1]
        } else {
            ' '
        };
        seq![
            if staged != ' ' {
                staged
            } else {
                unstaged
            },
        ]
    }
}

/// The path behind a rename, or the path itself.
pub open spec fn current_path(path: Seq<char>) -> Seq<char> {
    match split_once_at(path, " -> "@) {
        Some(p) => trimmed(p.1),
        None => path,
    }
}

/// The changed file that a line of `git status --porcelain=v1` names.
pub open spec fn entry_of(line: Seq<char>) -> Option<FileModel> {
    if byte_len(line) < 3 {
        None
    } else {
        let path = trimmed(line.skip(chars_within(line, 3) as int));
        if path.len() == 0 {
            None
        } else {
            Some(
                FileModel {
                    status: shown_status(line.take(chars_within(line, 2) as int)),
                    path: current_path(path),
                    selected: true,
                },
            )
        }
    }
}

pub open spec fn entries_of(all: Seq<Seq<char>>) -> Seq<FileModel>
    decreases all.len(),
{
    if all.len() == 0 {
        Seq::empty()
    } else {
        match entry_of(all.last()) {
            Some(e) => entries_of(all.drop_last()).push(e),
            None => entries_of(all.drop_last()),
        }
    }
}

fn status_for(raw: &Vec<char>, end: usize) -> (r: String)
    requires
        end <= raw@.len(),
    ensures
        r@ == shown_status(raw@.take(end as int)),
{
    let text = text_of_range(raw, 0, end);
    assert(text@ =~= raw@.take(end as int));
    if same(text.as_str(), "??") {
        return owned("??");
    }
    let staged: char = if end > 0 {
        raw[0]
    } else {
        ' '
    };
    let unstaged: char = if end > 1 {
        raw[1]
    } else {
        ' '
    };
    let mut r = String::new();
    r.push(
        if staged != ' ' {
            staged
        } else {
            unstaged
        },
    );
    assert(r@ =~= shown_status(raw@.take(end as int)));
    r
}

fn parse_status_line(line: &str) -> (r: Option<GitFileEntry>)
    ensures
        match r {
            Some(e) => entry_of(line@) == Some(e.model()),
            None => entry_of(line@) is None,
        },
{
    if !longer_than_bytes(line, 2) {
        return None;
    }
    let chars = chars_of(line);
    let a = count_within(&chars, 2);
    let b = count_within(&chars, 3);
    let rest = text_of_range(&chars, b, chars.len());
    assert(rest@ =~= chars@.skip(b as int));
    let path_raw = trim(rest.as_str());
    if path_raw.as_str().is_empty() {
        return None;
    }
    let path = match split_once(path_raw.as_str(), " -> ") {
        Some(p) => trim(p.1.as_str()),
        None => path_raw,
    };
    Some(GitFileEntry { status: status_for(&chars, a), path, selected: true })
}

/// The changed files that `git status --porcelain=v1` lists.
pub fn parse_porcelain_entries(input: &str) -> (out: Vec<GitFileEntry>)
    requires
        is_porcelain(lines_of(input@)),
    ensures
        file_models(out@) == entries_of(lines_of(input@)),
{
    let all = lines(input);
    let ghost texts = all.deep_view();
    let mut out: Vec<GitFileEntry> = Vec::new();
    let mut i: usize = 0;
    assert(texts.take(0) =~= Seq::empty());
    assert(file_models(out@) =~= Seq::empty());
    while i < all.len()
        invariant
            i <= all@.len(),
            texts == all.deep_view(),
            file_models(out@) == entries_of(texts.take(i as int)),
        decreases all.len() - i,
    {
        assert(texts.take(i + 1).drop_last() =~= texts.take(i as int));
        assert(texts.take(i + 1).last() == all@[i as int]@);
        match parse_status_line(all[i].as_str()) {
            Some(e) => {
                let ghost before = out@;
                out.push(e);
                assert(file_models(out@) =~= file_models(before).push(e.model()));
            },
            None => {},
        }
        i += 1;
    }
    assert(texts.take(i as int) =~= texts);
    out
}

fn at_boundary(chars: &Vec<char>, n: u128) -> (r: bool)
    requires
        n <= byte_len(chars@),
    ensures
        r == is_boundary(chars@, n as int),
{
    let k = count_within(chars, n);
    let head = text_of_range(chars, 0, k);
    assert(head@ =~= chars@.take(k as int));
    let head_chars = chars_of(head.as_str());
    byte_total(&head_chars) == n
}

fn status_line_ok(line: &str) -> (r: bool)
    ensures
        r == is_status_line(line@),
{
    let chars = chars_of(line);
    if !longer_than_bytes(line, 2) {
        return true;
    }
    at_boundary(&chars, 2) && at_boundary(&chars, 3)
}

/// The changed files, where every line can be read as a status line.
pub fn read_porcelain_entries(input: &str) -> (r: Option<Vec<GitFileEntry>>)
    ensures
        match r {
            Some(out) => is_porcelain(lines_of(input@)) && file_models(out@) == entries_of(
                lines_of(input@),
            ),
            None => !is_porcelain(lines_of(input@)),
        },
{
    let all = lines(input);
    let ghost texts = all.deep_view();
    let mut i: usize = 0;
    while i < all.len()
        invariant
            i <= all@.len(),
            texts == all.deep_view(),
            texts == lines_of(input@),
            forall|k: int| 0 <= k < i ==> is_status_line(#[trigger] texts[k]),
        decreases all.len() - i,
    {
        assert(texts[i as int] == all@[i as int]@);
        if !status_line_ok(all[i].as_str()) {
            return None;
        }
        i += 1;
    }
    Some(parse_porcelain_entries(input))
}

/// A carriage return at the end of a line changes nothing of what the line says.
proof fn lemma_entry_without_cr(line: Seq<char>)
    ensures
        entry_of(without_cr(line)) == entry_of(line),
        is_status_line(without_cr(line)) == is_status_line(line),
{
    if line.len() > 0 && line.last() == '\r' {
        let s = line.drop_last();
        assert(s.push('\r') =~= line);
        lemma_byte_len_push(s, '\r');
        lemma_chars_within(s, 2);
        lemma_chars_within(s, 3);
        lemma_chars_within(line, 3);
        if byte_len(s) >= 2 {
            lemma_chars_within_push(s, '\r', 2);
            let status = chars_within(s, 2) as int;
            assert(line.take(status) =~= s.take(status));
        }
        if byte_len(s) >= 3 {
            lemma_chars_within_push(s, '\r', 3);
            let path = chars_within(s, 3) as int;
            assert(line.take(path) =~= s.take(path));
            assert(line.skip(path) =~= s.skip(path).push('\r'));
            lemma_trimmed_push(s.skip(path), '\r');
        } else if byte_len(s) == 2 {
            assert(s.take(s.len() as int) =~= s);
            assert(line.take(line.len() as int) =~= line);
            assert(line.skip(line.len() as int) =~= Seq::empty());
        }
    }
}

/// A line of a listing with the letters `x` and `y` before a path lists the file at that path. Its
/// status is `x`, or `y` where `x` is a blank; two question marks stay two. Of a rename, the path
/// behind the arrow counts. A line without a path lists nothing.
pub proof fn lemma_listed_file(
    before: Seq<Seq<char>>,
    x: char,
    y: char,
    path: Seq<char>,
    from: Seq<char>,
)
    requires
        (x as u32) < 0x80,
        (y as u32) < 0x80,
        !from.contains(' '),
    ensures
        trimmed(path).len() == 0 ==> entries_of(before.push(seq![x, y, ' '] + path)) == entries_of(
            before,
        ),
        trimmed(path).len() > 0 && !contains_text(trimmed(path), " -> "@) ==> entries_of(
            before.push(seq![x, y, ' '] + path),
        ) == entries_of(before).push(
            FileModel {
                status: if x == '?' && y == '?' {
                    seq![x, y]
                } else if x != ' ' {
                    seq![x]
                } else {
                    seq![y]
                },
                path: trimmed(path),
                selected: true,
            },
        ),
        from.len() > 0 && !is_space(from[0]) && trimmed(path) == path && path.len() > 0
            ==> entries_of(
            before.push(seq![x, y, ' '] + from + " -> "@ + path),
        ) == entries_of(before).push(
            FileModel {
                status: if x == '?' && y == '?' {
                    seq![x, y]
                } else if x != ' ' {
                    seq![x]
                } else {
                    seq![y]
                },
                path,
                selected: true,
            },
        ),
{
    lemma_status_fields(x, y, path);
    let line = seq![x, y, ' '] + path;
    assert(before.push(line).drop_last() =~= before);
    lemma_split_once_parts(trimmed(path), " -> "@);
    lemma_contains_text(trimmed(path), " -> "@);
    if from.len() > 0 && !is_space(from[0]) && trimmed(path) == path && path.len() > 0 {
        reveal_strlit(" -> ");
        let whole = from + " -> "@ + path;
        assert(seq![x, y, ' '] + from + " -> "@ + path =~= seq![x, y, ' '] + whole);
        lemma_status_fields(x, y, whole);
        let renamed = seq![x, y, ' '] + whole;
        assert(before.push(renamed).drop_last() =~= before);
        lemma_trimmed_idempotent(path);
        assert(trimmed(whole) == whole) by {
            assert(from.contains(from[0]));
            lemma_ends_stay(from, path);
        }
        lemma_split_once(from, " -> "@, path);
    }
}

/// A text that neither starts nor ends with whitespace is trimmed.
proof fn lemma_ends_stay(from: Seq<char>, path: Seq<char>)
    requires
        from.len() > 0,
        path.len() > 0,
        !is_space(from[0]),
        !is_space(path.last()),
    ensures
        trimmed(from + " -> "@ + path) == from + " -> "@ + path,
{
    let whole = from + " -> "@ + path;
    assert(whole[0] == from[0]);
    assert(whole.last() == path.last());
}

/// What the first three bytes of a line leave.
proof fn lemma_status_fields(x: char, y: char, path: Seq<char>)
    requires
        (x as u32) < 0x80,
        (y as u32) < 0x80,
    ensures
        ({
            let line = seq![x, y, ' '] + path;
            &&& byte_len(line) >= 3
            &&& is_status_line(line)
            &&& chars_within(line, 2) == 2
            &&& chars_within(line, 3) == 3
            &&& line.take(2) == seq![x, y]
            &&& line.skip(3) == path
            &&& shown_status(line.take(2)) == (if x == '?' && y == '?' {
                seq![x, y]
            } else if x != ' ' {
                seq![x]
            } else {
                seq![y]
            })
        }),
{
    let line = seq![x, y, ' '] + path;
    let b = line.drop_first();
    let c = b.drop_first();
    assert(b =~= seq![y, ' '] + path);
    assert(c =~= seq![' '] + path);
    assert(c.drop_first() =~= path);
    reveal_with_fuel(chars_within, 4);
    reveal_with_fuel(byte_len, 4);
    assert(line.take(2) =~= seq![x, y]);
    assert(line.take(3) =~= seq![x, y, ' ']);
    assert(line.skip(3) =~= path);
    let two = line.take(2);
    assert(two.drop_first() =~= seq![y]);
    assert(seq![y].drop_first() =~= Seq::<char>::empty());
    assert(byte_len(two) == 2);
    let three = line.take(3);
    assert(three.drop_first() =~= seq![y, ' ']);
    assert(seq![y, ' '].drop_first() =~= seq![' ']);
    assert(seq![' '].drop_first() =~= Seq::<char>::empty());
    assert(byte_len(three) == 3);
    reveal_strlit("??");
    if x == '?' && y == '?' {
        assert(two =~= "??"@);
    } else {
        assert(two[0] == x && two[1] == y);
        if two == "??"@ {
            assert("??"@[0] == x && "??"@[1] == y);
        }
    }
}

proof fn lemma_entries_added(a: Seq<Seq<char>>, b: Seq<Seq<char>>)
    ensures
        entries_of(a + b) == entries_of(a) + entries_of(b),
    decreases b.len(),
{
    if b.len() == 0 {
        assert(a + b =~= a);
        assert(entries_of(a) + entries_of(b) =~= entries_of(a));
    } else {
        assert((a + b).drop_last() =~= a + b.drop_last());
        lemma_entries_added(a, b.drop_last());
        assert(entries_of(a + b) =~= entries_of(a) + entries_of(b));
    }
}

/// Every line is read for itself, in order: two listings with a line feed between them can be read
/// where both can, and name the files of the one, then those of the other.
pub proof fn lemma_porcelain_joined(a: Seq<char>, b: Seq<char>)
    ensures
        is_porcelain(lines_of(a + "\n"@ + b)) <==> is_porcelain(lines_of(a)) && is_porcelain(
            lines_of(b),
        ),
        entries_of(lines_of(a + "\n"@ + b)) == entries_of(lines_of(a)) + entries_of(lines_of(b)),
{
    lemma_lines_joined(a, b);
    let (head, last) = choose|head: Seq<Seq<char>>, last: Seq<char>| lines_meet(a, b, head, last);
    let first = head.push(without_cr(last));
    let whole = first + lines_of(b);
    lemma_entries_added(first, lines_of(b));
    lemma_entry_without_cr(last);
    assert(first.drop_last() =~= head);
    assert(head.push(last).drop_last() =~= head);
    if is_porcelain(whole) {
        assert forall|i: int| 0 <= i < lines_of(a).len() implies is_status_line(
            #[trigger] lines_of(a)[i],
        ) by {
            assert(is_status_line(whole[i]));
        }
        assert forall|i: int| 0 <= i < lines_of(b).len() implies is_status_line(
            #[trigger] lines_of(b)[i],
        ) by {
            assert(is_status_line(whole[first.len() + i]));
        }
    }
    if is_porcelain(lines_of(a)) && is_porcelain(lines_of(b)) {
        assert forall|i: int| 0 <= i < whole.len() implies is_status_line(#[trigger] whole[i]) by {
            if i < head.len() {
                assert(is_status_line(lines_of(a)[i]));
            } else if i == head.len() {
                if last.len() > 0 {
                    assert(is_status_line(lines_of(a)[i]));
                }
            } else {
                assert(is_status_line(lines_of(b)[i - first.len()]));
            }
        }
    }
}

// ---------------------------------------------------------------------------------------------
// Commits
// ---------------------------------------------------------------------------------------------
/// A local commit.
#[derive(Debug)]
pub struct LocalCommitEntry {
    pub short_hash: String,
    pub summary: String,
}

#[verifier::ext_equal]
pub ghost struct CommitLine {
    pub hash: Seq<char>,
    pub summary: Seq<char>,
}

impl LocalCommitEntry {
    pub open spec fn model(self) -> CommitLine {
        CommitLine { hash: self.short_hash@, summary: self.summary@ }
    }
}

pub open spec fn commit_lines(entries: Seq<LocalCommitEntry>) -> Seq<CommitLine> {
    Seq::new(entries.len(), |i: int| entries[i].model())
}

/// The commit in a line: its hash and its summary with a tab between them, or a summary alone.
pub open spec fn commit_in(line: Seq<char>) -> CommitLine {
    match split_once_at(line, "\t"@) {
        Some(p) => CommitLine { hash: trimmed(p.0), summary: trimmed(p.1) },
        None => CommitLine { hash: "commit"@, summary: line },
    }
}

pub open spec fn commits_in(text: Seq<char>) -> Seq<CommitLine> {
    let filled = filled_lines(lines_of(text));
    Seq::new(filled.len(), |i: int| commit_in(filled[i]))
}

pub fn parse_compact_commit_lines(input: &str) -> (out: Vec<LocalCommitEntry>)
    ensures
        commit_lines(out@) == commits_in(input@),
{
    let filled = nonblank_lines(input);
    let ghost texts = filled.deep_view();
    let mut out: Vec<LocalCommitEntry> = Vec::new();
    let mut i: usize = 0;
    while i < filled.len()
        invariant
            i <= filled@.len(),
            texts == filled.deep_view(),
            texts == filled_lines(lines_of(input@)),
            commit_lines(out@) == commits_in(input@).take(i as int),
        decreases filled.len() - i,
    {
        assert(texts[i as int] == filled@[i as int]@);
        let entry = match split_once(filled[i].as_str(), "\t") {
            Some(p) => LocalCommitEntry {
                short_hash: trim(p.0.as_str()),
                summary: trim(p.1.as_str()),
            },
            None => LocalCommitEntry {
                short_hash: owned("commit"),
                summary: owned(filled[i].as_str()),
            },
        };
        let ghost before = out@;
        out.push(entry);
        i += 1;
        assert(commit_lines(out@) =~= commit_lines(before).push(entry.model()));
        assert(commit_lines(out@) =~= commits_in(input@).take(i as int));
    }
    assert(commit_lines(out@) =~= commits_in(input@));
    out
}

/// Two logs with a line feed between them hold the commits of the one, then those of the other.
pub proof fn lemma_commits_joined(a: Seq<char>, b: Seq<char>)
    ensures
        commits_in(a + "\n"@ + b) == commits_in(a) + commits_in(b),
{
    lemma_filled_joined(a, b);
    assert(commits_in(a + "\n"@ + b) =~= commits_in(a) + commits_in(b));
}

// ---------------------------------------------------------------------------------------------
// Remotes and branches
// ---------------------------------------------------------------------------------------------
/// The remote that an upstream reference such as `origin/main` belongs to: the one with the
/// longest name that it starts with, and the last of several of that length.
pub open spec fn remote_of(upstream: Seq<char>, remotes: Seq<Seq<char>>) -> Option<Seq<char>>
    decreases remotes.len(),
{
    if remotes.len() == 0 {
        None
    } else {
        let best = remote_of(upstream, remotes.drop_last());
        let last = remotes.last();
        if starts_with_text(upstream, last + "/"@) && (best matches Some(b) ==> byte_len(last)
            >= byte_len(b)) {
            Some(last)
        } else {
            best
        }
    }
}

/// The remote of an upstream reference is one of the remotes, its name stands before a slash at the
/// start of the reference, and no remote with a longer name does; there is none only where no name
/// stands there.
pub proof fn lemma_remote_of(upstream: Seq<char>, remotes: Seq<Seq<char>>)
    ensures
        match remote_of(upstream, remotes) {
            Some(r) => {
                &&& remotes.contains(r)
                &&& starts_with_text(upstream, r + "/"@)
                &&& forall|i: int|
                    0 <= i < remotes.len() && starts_with_text(
                        upstream,
                        #[trigger] remotes[i] + "/"@,
                    ) ==> byte_len(remotes[i]) <= byte_len(r)
            },
            None => forall|i: int|
                0 <= i < remotes.len() ==> !starts_with_text(
                    upstream,
                    #[trigger] remotes[i] + "/"@,
                ),
        },
    decreases remotes.len(),
{
    if remotes.len() > 0 {
        let rest = remotes.drop_last();
        lemma_remote_of(upstream, rest);
        assert(remotes[remotes.len() - 1] == remotes.last());
        assert forall|i: int| 0 <= i < rest.len() implies remotes[i] == #[trigger] rest[i] by {}
        if let Some(r) = remote_of(upstream, rest) {
            let k = rest.index_of(r);
            assert(remotes[k] == r);
        }
        assert forall|i: int|
            0 <= i < remotes.len() && starts_with_text(
                upstream,
                #[trigger] remotes[i] + "/"@,
            ) implies (remote_of(upstream, remotes) matches Some(r) && byte_len(remotes[i])
            <= byte_len(r)) by {
            if i < rest.len() {
                assert(starts_with_text(upstream, rest[i] + "/"@));
            }
        }
    }
}

pub fn remote_name_from_upstream_ref(upstream_ref: &str, remotes: &Vec<String>) -> (r: Option<
    String,
>)
    ensures
        match r {
            Some(name) => remote_of(upstream_ref@, remotes.deep_view()) == Some(name@),
            None => remote_of(upstream_ref@, remotes.deep_view()) is None,
        },
{
    let ghost texts = remotes.deep_view();
    let mut best: Option<usize> = None;
    let mut best_len: u128 = 0;
    let mut i: usize = 0;
    assert(texts.take(0) =~= Seq::empty());
    while i < remotes.len()
        invariant
            i <= remotes@.len(),
            texts == remotes.deep_view(),
            match best {
                Some(b) => b < remotes@.len() && remote_of(upstream_ref@, texts.take(i as int))
                    == Some(texts[b as int]) && best_len == byte_len(texts[b as int]),
                None => remote_of(upstream_ref@, texts.take(i as int)) is None && best_len == 0,
            },
        decreases remotes.len() - i,
    {
        assert(texts.take(i + 1).drop_last() =~= texts.take(i as int));
        assert(texts.take(i + 1).last() == remotes@[i as int]@);
        let name = remotes[i].as_str();
        let size = byte_total(&chars_of(name));
        if starts_with(upstream_ref, concat(name, "/").as_str()) && size >= best_len {
            best = Some(i);
            best_len = size;
        }
        i += 1;
    }
    assert(texts.take(i as int) =~= texts);
    match best {
        Some(b) => Some(remotes[b].clone()),
        None => None,
    }
}

/// The names of the branches in a listing, without the mark of the current one.
pub open spec fn branches_of(all: Seq<Seq<char>>) -> Seq<Seq<char>>
    decreases all.len(),
{
    if all.len() == 0 {
        Seq::empty()
    } else {
        let name = trimmed(without_leading(trimmed(all.last()), '*'));
        if name.len() == 0 {
            branches_of(all.drop_last())
        } else {
            branches_of(all.drop_last()).push(name)
        }
    }
}

proof fn lemma_branches_added(a: Seq<Seq<char>>, b: Seq<Seq<char>>)
    ensures
        branches_of(a + b) == branches_of(a) + branches_of(b),
    decreases b.len(),
{
    if b.len() == 0 {
        assert(a + b =~= a);
        assert(branches_of(a) + branches_of(b) =~= branches_of(a));
    } else {
        assert((a + b).drop_last() =~= a + b.drop_last());
        lemma_branches_added(a, b.drop_last());
        assert(branches_of(a + b) =~= branches_of(a) + branches_of(b));
    }
}

/// Two listings with a line feed between them name the branches of the one, then those of the
/// other.
pub proof fn lemma_branches_joined(a: Seq<char>, b: Seq<char>)
    ensures
        branches_of(lines_of(a + "\n"@ + b)) == branches_of(lines_of(a)) + branches_of(lines_of(b)),
{
    lemma_lines_joined(a, b);
    let (head, last) = choose|head: Seq<Seq<char>>, last: Seq<char>| lines_meet(a, b, head, last);
    lemma_branches_added(head.push(without_cr(last)), lines_of(b));
    lemma_trimmed_without_cr(last);
    assert(head.push(without_cr(last)).drop_last() =~= head);
    assert(head.push(last).drop_last() =~= head);
}

pub fn parse_local_branches(output: &str) -> (out: Vec<String>)
    ensures
        out.deep_view() == branches_of(lines_of(output@)),
{
    let all = lines(output);
    let ghost texts = all.deep_view();
    let mut out: Vec<String> = Vec::new();
    let mut i: usize = 0;
    assert(texts.take(0) =~= Seq::empty());
    assert(out.deep_view() =~= Seq::empty());
    while i < all.len()
        invariant
            i <= all@.len(),
            texts == all.deep_view(),
            out.deep_view() == branches_of(texts.take(i as int)),
        decreases all.len() - i,
    {
        assert(texts.take(i + 1).drop_last() =~= texts.take(i as int));
        assert(texts.take(i + 1).last() == all@[i as int]@);
        let t = trim(all[i].as_str());
        let bare = strip_leading(t.as_str(), '*');
        let name = trim(bare.as_str());
        if !name.as_str().is_empty() {
            let ghost before = out.deep_view();
            out.push(name);
            assert(out.deep_view() =~= before.push(name@));
        }
        i += 1;
    }
    assert(texts.take(i as int) =~= texts);
    out
}

// ---------------------------------------------------------------------------------------------
// Line counts
// ---------------------------------------------------------------------------------------------
/// A number, or zero where the text is none.
pub open spec fn number_or_zero(s: Seq<char>) -> int {
    match parsed_usize(trimmed(s)) {
        Some(n) => n,
        None => 0,
    }
}

/// The added and removed lines that a line of `git diff --numstat` counts.
pub open spec fn counts_of(line: Seq<char>) -> (int, int) {
    let parts = split_char(line, '\t');
    (
        number_or_zero(parts[0]),
        if parts.len() > 1 {
            number_or_zero(parts[1])
        } else {
            0
        },
    )
}

pub open spec fn count_totals(all: Seq<Seq<char>>) -> (int, int)
    decreases all.len(),
{
    if all.len() == 0 {
        (0, 0)
    } else {
        let head = count_totals(all.drop_last());
        let last = counts_of(all.last());
        (head.0 + last.0, head.1 + last.1)
    }
}

proof fn lemma_totals_grow(all: Seq<Seq<char>>, k: int)
    requires
        0 <= k <= all.len(),
    ensures
        0 <= count_totals(all.take(k)).0 <= count_totals(all).0,
        0 <= count_totals(all.take(k)).1 <= count_totals(all).1,
    decreases all.len(),
{
    if all.len() == 0 {
        assert(all.take(k) =~= all);
    } else if k == all.len() {
        assert(all.take(k) =~= all);
        lemma_totals_grow(all.drop_last(), k - 1);
        lemma_totals_grow(all.drop_last(), 0);
        lemma_totals_grow(all.drop_last(), all.len() - 1);
        assert(all.drop_last().take(all.len() - 1) =~= all.drop_last());
    } else {
        lemma_totals_grow(all.drop_last(), k);
        assert(all.drop_last().take(k) =~= all.take(k));
    }
}

/// A character behind a text is part of its last piece, unless it ends a piece.
proof fn lemma_split_push(s: Seq<char>, d: char, c: char)
    requires
        d != c,
    ensures
        split_char(s, c).len() > 0,
        split_char(s.push(d), c) == split_char(s, c).drop_last().push(
            split_char(s, c).last().push(d),
        ),
    decreases s.len(),
{
    let longer = s.push(d);
    let at = position(s, c) as int;
    lemma_position(s, c);
    lemma_position_push(s, d, c);
    if at >= s.len() {
        assert(split_char(s, c).drop_last() =~= Seq::empty());
        assert(split_char(longer, c) =~= seq![longer]);
    } else {
        let rest = s.skip(at + 1);
        lemma_split_push(rest, d, c);
        assert(longer.take(at) =~= s.take(at));
        assert(longer.skip(at + 1) =~= rest.push(d));
        assert(split_char(longer, c) =~= split_char(s, c).drop_last().push(
            split_char(s, c).last().push(d),
        ));
    }
}

proof fn lemma_position_push(s: Seq<char>, d: char, c: char)
    requires
        d != c,
    ensures
        position(s.push(d), c) == (if position(s, c) < s.len() {
            position(s, c)
        } else {
            s.len() + 1
        }),
    decreases s.len(),
{
    let longer = s.push(d);
    lemma_position(s, c);
    if s.len() == 0 {
        assert(longer.drop_first() =~= s);
    } else if s[0] != c {
        assert(longer.drop_first() =~= s.drop_first().push(d));
        lemma_position_push(s.drop_first(), d, c);
    }
}

/// A carriage return at the end of a line changes nothing of what the line counts.
proof fn lemma_counts_without_cr(line: Seq<char>)
    ensures
        counts_of(without_cr(line)) == counts_of(line),
{
    if line.len() > 0 && line.last() == '\r' {
        let s = line.drop_last();
        assert(s.push('\r') =~= line);
        lemma_split_push(s, '\r', '\t');
        lemma_trimmed_push(split_char(s, '\t').last(), '\r');
    }
}

proof fn lemma_totals_added(a: Seq<Seq<char>>, b: Seq<Seq<char>>)
    ensures
        count_totals(a + b).0 == count_totals(a).0 + count_totals(b).0,
        count_totals(a + b).1 == count_totals(a).1 + count_totals(b).1,
    decreases b.len(),
{
    if b.len() == 0 {
        assert(a + b =~= a);
    } else {
        assert((a + b).drop_last() =~= a + b.drop_last());
        lemma_totals_added(a, b.drop_last());
    }
}

/// The totals of two outputs with a line feed between them are the sums of their totals, none of
/// which is negative.
pub proof fn lemma_totals_joined(a: Seq<char>, b: Seq<char>)
    ensures
        ({
            let whole = count_totals(lines_of(a + "\n"@ + b));
            let first = count_totals(lines_of(a));
            let second = count_totals(lines_of(b));
            &&& whole.0 == first.0 + second.0
            &&& whole.1 == first.1 + second.1
            &&& first.0 >= 0 && first.1 >= 0
            &&& second.0 >= 0 && second.1 >= 0
        }),
{
    lemma_lines_joined(a, b);
    let (head, last) = choose|head: Seq<Seq<char>>, last: Seq<char>| lines_meet(a, b, head, last);
    lemma_totals_added(head.push(without_cr(last)), lines_of(b));
    lemma_counts_without_cr(last);
    lemma_totals_grow(lines_of(a), 0);
    lemma_totals_grow(lines_of(b), 0);
    assert(head.push(without_cr(last)).drop_last() =~= head);
    assert(head.push(last).drop_last() =~= head);
    if last.len() == 0 {
        lemma_nothing_counted(last);
    }
}

/// An empty line counts nothing.
proof fn lemma_nothing_counted(line: Seq<char>)
    requires
        line.len() == 0,
    ensures
        counts_of(line) == (0int, 0int),
{
    assert(split_char(line, '\t') =~= seq![line]);
    assert(trimmed(line) =~= line);
}

/// A trimmed text read as a number, or zero.
pub fn count_in(text: &str) -> (n: usize)
    ensures
        n == number_or_zero(text@),
{
    match parse_usize(trim(text).as_str()) {
        Some(n) => n,
        None => 0,
    }
}

/// Whether the counts in the output of `git diff --numstat` can be added up.
pub fn numstat_totals_fit(input: &str) -> (r: bool)
    ensures
        r == (count_totals(lines_of(input@)).0 <= usize::MAX && count_totals(lines_of(input@)).1
            <= usize::MAX),
{
    let all = lines(input);
    let ghost texts = all.deep_view();
    let mut added: usize = 0;
    let mut removed: usize = 0;
    let mut i: usize = 0;
    assert(texts.take(0) =~= Seq::empty());
    while i < all.len()
        invariant
            i <= all@.len(),
            texts == all.deep_view(),
            texts == lines_of(input@),
            (added as int, removed as int) == count_totals(texts.take(i as int)),
        decreases all.len() - i,
    {
        assert(texts.take(i + 1).drop_last() =~= texts.take(i as int));
        assert(texts.take(i + 1).last() == all@[i as int]@);
        proof {
            lemma_totals_grow(texts, i + 1);
        }
        let parts = split_at_char(all[i].as_str(), '\t');
        assert(parts.deep_view()[0] == parts@[0]@);
        let add = count_in(parts[0].as_str());
        let del: usize = if parts.len() > 1 {
            assert(parts.deep_view()[1] == parts@[1]@);
            count_in(parts[1].as_str())
        } else {
            0
        };
        if add > usize::MAX - added || del > usize::MAX - removed {
            return false;
        }
        added += add;
        removed += del;
        i += 1;
    }
    assert(texts.take(i as int) =~= texts);
    true
}

/// The added and removed lines of all files in the output of `git diff --numstat`.
pub fn parse_numstat_totals(input: &str) -> (totals: (usize, usize))
    requires
        count_totals(lines_of(input@)).0 <= usize::MAX,
        count_totals(lines_of(input@)).1 <= usize::MAX,
    ensures
        totals.0 == count_totals(lines_of(input@)).0,
        totals.1 == count_totals(lines_of(input@)).1,
{
    let all = lines(input);
    let ghost texts = all.deep_view();
    let mut added: usize = 0;
    let mut removed: usize = 0;
    let mut i: usize = 0;
    assert(texts.take(0) =~= Seq::empty());
    while i < all.len()
        invariant
            i <= all@.len(),
            texts == all.deep_view(),
            count_totals(texts).0 <= usize::MAX,
            count_totals(texts).1 <= usize::MAX,
            (added as int, removed as int) == count_totals(texts.take(i as int)),
        decreases all.len() - i,
    {
        assert(texts.take(i + 1).drop_last() =~= texts.take(i as int));
        assert(texts.take(i + 1).last() == all@[i as int]@);
        proof {
            lemma_totals_grow(texts, i + 1);
        }
        let parts = split_at_char(all[i].as_str(), '\t');
        assert(parts.deep_view()[0] == parts@[0]@);
        let add = count_in(parts[0].as_str());
        let del: usize = if parts.len() > 1 {
            assert(parts.deep_view()[1] == parts@[1]@);
            count_in(parts[1].as_str())
        } else {
            0
        };
        added += add;
        removed += del;
        i += 1;
    }
    assert(texts.take(i as int) =~= texts);
    (added, removed)
}

pub open spec fn line_feeds(bytes: Seq<u8>) -> nat
    decreases bytes.len(),
{
    if bytes.len() == 0 {
        0
    } else {
        line_feeds(bytes.drop_last()) + if bytes.last() == 10 {
            1nat
        } else {
            0nat
        }
    }
}

/// The lines of a new file: none where it is not text; the last one counts without its line feed.
pub open spec fn file_line_count(bytes: Seq<u8>) -> nat {
    if bytes.contains(0) || bytes.len() == 0 {
        0
    } else if bytes.last() == 10 {
        line_feeds(bytes)
    } else {
        line_feeds(bytes) + 1
    }
}

pub fn count_file_lines_for_untracked(bytes: Option<&Vec<u8>>) -> (n: usize)
    ensures
        n == (match bytes {
            Some(b) => file_line_count(b@),
            None => 0,
        }),
{
    let b = match bytes {
        Some(b) => b,
        None => return 0,
    };
    if b.len() == 0 {
        return 0;
    }
    let mut n: usize = 0;
    let mut i: usize = 0;
    assert(b@.take(0) =~= Seq::empty());
    while i < b.len()
        invariant
            bytes == Some(b),
            i <= b.len(),
            n <= i,
            n == line_feeds(b@.take(i as int)),
            i > 0 && b@[i - 1] != 10 ==> n < i,
            forall|k: int| 0 <= k < i ==> b@[k] != 0,
        decreases b.len() - i,
    {
        assert(b@.take(i + 1).drop_last() =~= b@.take(i as int));
        if b[i] == 0 {
            return 0;
        }
        if b[i] == 10 {
            n += 1;
        }
        i += 1;
    }
    assert(b@.take(i as int) =~= b@);
    if b[b.len() - 1] == 10 {
        n
    } else {
        n + 1
    }
}

// ---------------------------------------------------------------------------------------------
// Error texts
// ---------------------------------------------------------------------------------------------
/// Whether a text speaks of something, in any case of its ASCII letters.
pub open spec fn speaks_of(text: Seq<char>, words: Seq<char>) -> bool {
    contains_text(ascii_lower(text), words)
}

pub fn mentions(text: &str, words: &str) -> (r: bool)
    ensures
        r == speaks_of(text@, words@),
{
    contains(ascii_lowercase(text).as_str(), words)
}

/// Whether an error in lower case says that credentials are missing or were refused.
pub open spec fn asks_for_credentials(lower: Seq<char>) -> bool {
    ||| contains_text(lower, "authentication failed"@)
    ||| contains_text(lower, "could not read username"@)
    ||| contains_text(lower, "terminal prompts disabled"@)
    ||| contains_text(lower, "http basic"@)
    ||| contains_text(lower, "access denied"@)
}

pub fn credentials_required(error_text: &str) -> (r: bool)
    ensures
        r == asks_for_credentials(error_text@),
{
    contains(error_text, "authentication failed") || contains(error_text, "could not read username")
        || contains(error_text, "terminal prompts disabled") || contains(error_text, "http basic")
        || contains(error_text, "access denied")
}

} // verus!
