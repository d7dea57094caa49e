//! Unified diffs: hunk headers, line numbers, and the diff of a new file.
use crate::lines::lines;
use crate::number::{decimal_usize, parse_usize};
use crate::text::{split_once, starts_with, strip_prefix};
use vstd::prelude::*;
#[allow(unused_imports)]
use crate::lines::lines_of;
#[allow(unused_imports)]
use crate::number::{decimal, lemma_decimal_text, parsed_usize};
#[allow(unused_imports)]
use crate::text::{
    lemma_prefix, lemma_split_once, lemma_split_once_parts, split_once_at,
    starts_with_text, without_prefix,
};

verus! {

// ---------------------------------------------------------------------------------------------
// Hunk headers
// ---------------------------------------------------------------------------------------------
/// The line number at the start of a range such as `12,4`.
pub open spec fn range_start(part: Seq<char>) -> Option<int> {
    match split_once_at(part, ","@) {
        Some(p) => parsed_usize(p.0),
        None => parsed_usize(part),
    }
}

/// The first old and the first new line number of the hunk that `line` opens.
pub open spec fn hunk_starts(line: Seq<char>) -> Option<(int, int)> {
    match without_prefix(line, "@@ -"@) {
        None => None,
        Some(body) => match split_once_at(body, " +"@) {
            None => None,
            Some(p) => match split_once_at(p.1, " @@"@) {
                None => None,
                Some(q) => match (range_start(p.0), range_start(q.0)) {
                    (Some(old_start), Some(new_start)) => Some((old_start, new_start)),
                    _ => None,
                },
            },
        },
    }
}

pub fn parse_diff_hunk_start_value(part: &str) -> (r: Option<usize>)
    ensures
        match r {
            Some(n) => range_start(part@) == Some(n as int),
            None => range_start(part@) is None,
        },
{
    match split_once(part, ",") {
        Some(p) => parse_usize(p.0.as_str()),
        None => parse_usize(part),
    }
}

pub fn parse_diff_hunk_starts(line: &str) -> (r: Option<(usize, usize)>)
    ensures
        match r {
            Some(p) => hunk_starts(line@) == Some((p.0 as int, p.1 as int)),
            None => hunk_starts(line@) is None,
        },
{
    let body = match strip_prefix(line, "@@ -") {
        Some(body) => body,
        None => return None,
    };
    let p = match split_once(body.as_str(), " +") {
        Some(p) => p,
        None => return None,
    };
    let q = match split_once(p.1.as_str(), " @@") {
        Some(q) => q,
        None => return None,
    };
    match parse_diff_hunk_start_value(p.0.as_str()) {
        None => None,
        Some(old_start) => match parse_diff_hunk_start_value(q.0.as_str()) {
            None => None,
            Some(new_start) => Some((old_start, new_start)),
        },
    }
}

// ---------------------------------------------------------------------------------------------
// Line numbers
// ---------------------------------------------------------------------------------------------
/// The numbers that the next old and new line will have, once a hunk has been opened.
pub ghost struct DiffState {
    pub old_line: int,
    pub new_line: int,
    pub in_hunk: bool,
}

pub open spec fn diff_start() -> DiffState {
    DiffState { old_line: 0, new_line: 0, in_hunk: false }
}

pub open spec fn next_number(n: int) -> int {
    if n < usize::MAX {
        n + 1
    } else {
        n
    }
}

/// Whether a line belongs to the header of a file.
pub open spec fn is_file_header(line: Seq<char>) -> bool {
    ||| starts_with_text(line, "diff --git"@)
    ||| starts_with_text(line, "index "@)
    ||| starts_with_text(line, "--- "@)
    ||| starts_with_text(line, "+++ "@)
    ||| starts_with_text(line, "new file mode "@)
    ||| starts_with_text(line, "deleted file mode "@)
    ||| starts_with_text(line, "similarity index "@)
    ||| starts_with_text(line, "rename from "@)
    ||| starts_with_text(line, "rename to "@)
}

pub open spec fn is_added(line: Seq<char>) -> bool {
    starts_with_text(line, "+"@) && !starts_with_text(line, "+++"@)
}

pub open spec fn is_removed(line: Seq<char>) -> bool {
    starts_with_text(line, "-"@) && !starts_with_text(line, "---"@)
}

/// Whether a line is counted: it stands in a hunk, and is neither a hunk header nor part of the
/// header of a file.
pub open spec fn is_counted(s: DiffState, line: Seq<char>) -> bool {
    s.in_hunk && hunk_starts(line) is None && !is_file_header(line)
}

/// The old and the new number that a line shows.
pub open spec fn shown_numbers(s: DiffState, line: Seq<char>) -> (Option<int>, Option<int>) {
    if !is_counted(s, line) {
        (None, None)
    } else if is_added(line) {
        (None, Some(s.new_line))
    } else if is_removed(line) {
        (Some(s.old_line), None)
    } else {
        (Some(s.old_line), Some(s.new_line))
    }
}

/// The state behind a line.
pub open spec fn next_state(s: DiffState, line: Seq<char>) -> DiffState {
    match hunk_starts(line) {
        Some(p) => DiffState { old_line: p.0, new_line: p.1, in_hunk: true },
        None => if !is_counted(s, line) {
            s
        } else if is_added(line) {
            DiffState { new_line: next_number(s.new_line), ..s }
        } else if is_removed(line) {
            DiffState { old_line: next_number(s.old_line), ..s }
        } else {
            DiffState {
                old_line: next_number(s.old_line),
                new_line: next_number(s.new_line),
                in_hunk: true,
            }
        },
    }
}

pub open spec fn state_behind(all: Seq<Seq<char>>) -> DiffState
    decreases all.len(),
{
    if all.len() == 0 {
        diff_start()
    } else {
        next_state(state_behind(all.drop_last()), all.last())
    }
}

/// A number as text, or nothing.
pub open spec fn number_or_blank(n: Option<int>) -> Seq<char> {
    match n {
        Some(v) => decimal(v as nat),
        None => Seq::empty(),
    }
}

/// `s` with spaces before it, up to a width of six.
pub open spec fn right_aligned(s: Seq<char>) -> Seq<char> {
    if s.len() < 6 {
        Seq::new((6 - s.len()) as nat, |i: int| ' ') + s
    } else {
        s
    }
}

/// A line with its numbers before it.
pub open spec fn numbered_row(numbers: (Option<int>, Option<int>), line: Seq<char>) -> Seq<char> {
    right_aligned(number_or_blank(numbers.0)) + " "@ + right_aligned(number_or_blank(numbers.1))
        + "  "@ + line + "\n"@
}

/// All lines with their numbers before them.
pub open spec fn numbered_rows(all: Seq<Seq<char>>) -> Seq<char>
    decreases all.len(),
{
    if all.len() == 0 {
        Seq::empty()
    } else {
        numbered_rows(all.drop_last()) + numbered_row(
            shown_numbers(state_behind(all.drop_last()), all.last()),
            all.last(),
        )
    }
}

/// A diff with the line numbers of the files before its lines.
pub open spec fn numbered_diff(diff: Seq<char>) -> Seq<char> {
    if lines_of(diff).len() == 0 {
        diff
    } else {
        numbered_rows(lines_of(diff))
    }
}

pub fn format_diff_line_number(value: Option<usize>) -> (text: String)
    ensures
        text@ == number_or_blank(
            match value {
                Some(n) => Some(n as int),
                None => None,
            },
        ),
{
    match value {
        Some(n) => decimal_usize(n),
        None => String::new(),
    }
}

fn align_right(text: &str) -> (r: String)
    ensures
        r@ == right_aligned(text@),
{
    let chars = crate::text::chars_of(text);
    let mut r = String::new();
    if chars.len() < 6 {
        let pad: usize = 6 - chars.len();
        let mut i: usize = 0;
        while i < pad
            invariant
                i <= pad,
                r@ == Seq::new(i as nat, |k: int| ' '),
            decreases pad - i,
        {
            r.push(' ');
            i += 1;
            assert(r@ =~= Seq::new(i as nat, |k: int| ' '));
        }
    }
    r.append(text);
    assert(r@ =~= right_aligned(text@));
    r
}

fn push_row(out: &mut String, old_number: Option<usize>, new_number: Option<usize>, line: &str)
    ensures
        final(out)@ == old(out)@ + numbered_row(
            (
                match old_number {
                    Some(n) => Some(n as int),
                    None => None,
                },
                match new_number {
                    Some(n) => Some(n as int),
                    None => None,
                },
            ),
            line@,
        ),
{
    let ghost before = out@;
    let old_text = align_right(format_diff_line_number(old_number).as_str());
    let new_text = align_right(format_diff_line_number(new_number).as_str());
    out.append(old_text.as_str());
    out.append(" ");
    out.append(new_text.as_str());
    out.append("  ");
    out.append(line);
    out.append("\n");
    assert(out@ =~= before + (old_text@ + " "@ + new_text@ + "  "@ + line@ + "\n"@));
}

fn in_file_header(line: &str) -> (r: bool)
    ensures
        r == is_file_header(line@),
{
    starts_with(line, "diff --git") || starts_with(line, "index ") || starts_with(line, "--- ")
        || starts_with(line, "+++ ") || starts_with(line, "new file mode ") || starts_with(
        line,
        "deleted file mode ",
    ) || starts_with(line, "similarity index ") || starts_with(line, "rename from ") || starts_with(
        line,
        "rename to ",
    )
}

fn increment(n: usize) -> (r: usize)
    ensures
        r == next_number(n as int),
{
    if n < usize::MAX {
        n + 1
    } else {
        n
    }
}

/// A diff with the line numbers of the files before its lines.
pub fn render_git_diff_with_actual_line_numbers(diff_text: &str) -> (rendered: String)
    ensures
        rendered@ == numbered_diff(diff_text@),
{
    let all = lines(diff_text);
    let ghost texts = all.deep_view();
    let mut rendered = String::new();
    let mut old_line: usize = 0;
    let mut new_line: usize = 0;
    let mut in_hunk = false;
    let mut i: usize = 0;
    assert(texts.take(0) =~= Seq::empty());
    while i < all.len()
        invariant
            i <= all@.len(),
            texts == all.deep_view(),
            rendered@ == numbered_rows(texts.take(i as int)),
            state_behind(texts.take(i as int)) == (DiffState {
                old_line: old_line as int,
                new_line: new_line as int,
                in_hunk,
            }),
        decreases all.len() - i,
    {
        let line = all[i].as_str();
        assert(texts.take(i + 1).drop_last() =~= texts.take(i as int));
        assert(texts.take(i + 1).last() == line@);
        match parse_diff_hunk_starts(line) {
            Some(p) => {
                push_row(&mut rendered, None, None, line);
                old_line = p.0;
                new_line = p.1;
                in_hunk = true;
            },
            None => {
                if !in_hunk || in_file_header(line) {
                    push_row(&mut rendered, None, None, line);
                } else if starts_with(line, "+") && !starts_with(line, "+++") {
                    push_row(&mut rendered, None, Some(new_line), line);
                    new_line = increment(new_line);
                } else if starts_with(line, "-") && !starts_with(line, "---") {
                    push_row(&mut rendered, Some(old_line), None, line);
                    old_line = increment(old_line);
                } else {
                    push_row(&mut rendered, Some(old_line), Some(new_line), line);
                    old_line = increment(old_line);
                    new_line = increment(new_line);
                }
            },
        }
        i += 1;
    }
    assert(texts.take(i as int) =~= texts);
    if all.len() == 0 {
        diff_text.to_owned()
    } else {
        rendered
    }
}

/// How many of the lines are on the new side: all but the removed ones.
pub open spec fn new_side(body: Seq<Seq<char>>) -> nat
    decreases body.len(),
{
    if body.len() == 0 {
        0
    } else {
        new_side(body.drop_last()) + if is_removed(body.last()) {
            0nat
        } else {
            1nat
        }
    }
}

/// How many of the lines are on the old side: all but the added ones.
pub open spec fn old_side(body: Seq<Seq<char>>) -> nat
    decreases body.len(),
{
    if body.len() == 0 {
        0
    } else {
        old_side(body.drop_last()) + if is_added(body.last()) {
            0nat
        } else {
            1nat
        }
    }
}

/// Within a hunk, the numbers are those of the files: behind the header of a hunk and some of its
/// lines, the next line has the number at which the hunk starts plus the number of lines of its
/// side before it.
pub proof fn lemma_numbers_within_hunk(
    before: Seq<Seq<char>>,
    header: Seq<char>,
    old_start: int,
    new_start: int,
    body: Seq<Seq<char>>,
)
    requires
        hunk_starts(header) == Some((old_start, new_start)),
        old_start + body.len() <= usize::MAX,
        new_start + body.len() <= usize::MAX,
        forall|i: int|
            0 <= i < body.len() ==> hunk_starts(#[trigger] body[i]) is None && !is_file_header(
                body[i],
            ),
    ensures
        state_behind(before.push(header) + body) == (DiffState {
            old_line: old_start + old_side(body),
            new_line: new_start + new_side(body),
            in_hunk: true,
        }),
        old_side(body) <= body.len(),
        new_side(body) <= body.len(),
    decreases body.len(),
{
    let all = before.push(header) + body;
    if body.len() == 0 {
        assert(all =~= before.push(header));
        assert(all.drop_last() =~= before);
    } else {
        let rest = body.drop_last();
        assert forall|i: int| 0 <= i < rest.len() implies hunk_starts(#[trigger] rest[i]) is None
            && !is_file_header(rest[i]) by {
            assert(rest[i] == body[i]);
        }
        lemma_numbers_within_hunk(before, header, old_start, new_start, rest);
        assert(all.drop_last() =~= before.push(header) + rest);
        let last = body[body.len() - 1];
        assert(all.last() == last);
        assert(!(is_added(last) && is_removed(last))) by {
            reveal_strlit("+");
            reveal_strlit("-");
            if is_added(last) && is_removed(last) {
                assert(last.subrange(0, 1)[0] == '+');
                assert(last.subrange(0, 1)[0] == '-');
            }
        }
    }
}

// ---------------------------------------------------------------------------------------------
// What a diff shows
// ---------------------------------------------------------------------------------------------
/// The number of lines in a range, as it is written where it is.
pub open spec fn count_text(count: Option<nat>) -> Seq<char> {
    match count {
        Some(n) => ","@ + decimal(n),
        None => ""@,
    }
}

/// The line that opens a hunk, with whatever stands behind it.
pub open spec fn header_text(
    old_start: nat,
    old_count: Option<nat>,
    new_start: nat,
    new_count: Option<nat>,
    behind: Seq<char>,
) -> Seq<char> {
    "@@ -"@ + decimal(old_start) + count_text(old_count) + " +"@ + decimal(new_start) + count_text(
        new_count,
    ) + " @@"@ + behind
}

proof fn lemma_range(start: nat, count: Option<nat>)
    requires
        start <= usize::MAX,
    ensures
        range_start(decimal(start) + count_text(count)) == Some(start as int),
        !(decimal(start) + count_text(count)).contains(' '),
{
    reveal_strlit(",");
    reveal_strlit("");
    let digits = decimal(start);
    let part = digits + count_text(count);
    lemma_decimal_text(start, start);
    if digits.contains(',') {
        let k = choose|k: int| 0 <= k < digits.len() && digits[k] == ',';
        assert(crate::text::is_digit(digits[k]));
    }
    match count {
        Some(n) => {
            lemma_decimal_text(n, n);
            lemma_split_once(digits, ","@, decimal(n));
            assert(part =~= digits + ","@ + decimal(n));
        },
        None => {
            assert(part =~= digits);
            lemma_split_once_parts(part, ","@);
            if split_once_at(part, ","@) is Some {
                let p = split_once_at(part, ","@)->0;
                assert(part[p.0.len() as int] == ',');
                assert(digits.contains(','));
            }
        },
    }
    if part.contains(' ') {
        let k = choose|k: int| 0 <= k < part.len() && part[k] == ' ';
        if k < digits.len() {
            assert(crate::text::is_digit(digits[k]));
        } else if k > digits.len() {
            assert(part[k] == decimal(count->0)[k - digits.len() - 1]);
            assert(crate::text::is_digit(decimal(count->0)[k - digits.len() - 1]));
        }
    }
}

/// A hunk starts at the numbers that its header names, with or without counts, whatever stands
/// behind the header.
pub proof fn lemma_hunk_header(
    old_start: nat,
    old_count: Option<nat>,
    new_start: nat,
    new_count: Option<nat>,
    behind: Seq<char>,
)
    requires
        old_start <= usize::MAX,
        new_start <= usize::MAX,
    ensures
        hunk_starts(header_text(old_start, old_count, new_start, new_count, behind)) == Some(
            (old_start as int, new_start as int),
        ),
{
    reveal_strlit("@@ -");
    reveal_strlit(" +");
    reveal_strlit(" @@");
    let line = header_text(old_start, old_count, new_start, new_count, behind);
    let a = decimal(old_start) + count_text(old_count);
    let b = decimal(new_start) + count_text(new_count);
    let rest = b + " @@"@ + behind;
    let body = a + " +"@ + rest;
    assert(line =~= "@@ -"@ + body);
    lemma_prefix(line, "@@ -"@);
    assert(without_prefix("@@ -"@ + body, "@@ -"@) == Some(body));
    lemma_range(old_start, old_count);
    lemma_range(new_start, new_count);
    lemma_split_once(a, " +"@, rest);
    lemma_split_once(b, " @@"@, behind);
}

/// A line opens a hunk only where it has the form of a header.
pub proof fn lemma_hunk_needs_header(line: Seq<char>)
    requires
        hunk_starts(line) is Some,
    ensures
        exists|a: Seq<char>, b: Seq<char>, behind: Seq<char>|
            line == #[trigger] ("@@ -"@ + a + " +"@ + b + " @@"@ + behind),
{
    lemma_prefix(line, "@@ -"@);
    let body = without_prefix(line, "@@ -"@)->0;
    lemma_split_once_parts(body, " +"@);
    let p = split_once_at(body, " +"@)->0;
    lemma_split_once_parts(p.1, " @@"@);
    let q = split_once_at(p.1, " @@"@)->0;
    assert(line =~= "@@ -"@ + p.0 + " +"@ + q.0 + " @@"@ + q.1);
}

/// Whether a line of a hunk is unchanged, added or removed, as its first character says. A line
/// with three plus or minus signs is none of these.
pub open spec fn is_plain(line: Seq<char>) -> bool {
    &&& line.len() > 0
    &&& line[0] == ' ' || line[0] == '+' || line[0] == '-'
    &&& line[0] != ' ' && line.len() >= 3 ==> !(line[1] == line[0] && line[2] == line[0])
}

/// The lines of a hunk that are not added, so that the old file has them.
pub open spec fn in_old(body: Seq<Seq<char>>) -> Seq<Seq<char>> {
    body.filter(|line: Seq<char>| line[0] != '+')
}

/// The lines of a hunk that are not removed, so that the new file has them.
pub open spec fn in_new(body: Seq<Seq<char>>) -> Seq<Seq<char>> {
    body.filter(|line: Seq<char>| line[0] != '-')
}

/// Whether a cell holds a text at its right end, behind blanks that fill it up to six characters.
pub open spec fn is_cell(cell: Seq<char>, text: Seq<char>) -> bool {
    &&& cell.len() == (if text.len() > 6 {
        text.len()
    } else {
        6
    })
    &&& cell.skip(cell.len() - text.len()) == text
    &&& forall|i: int| 0 <= i < cell.len() - text.len() ==> cell[i] == ' '
}

/// Whether `shown` is `before` and behind it a line with these two texts in its cells.
pub open spec fn shows_line(
    shown: Seq<char>,
    before: Seq<char>,
    old_text: Seq<char>,
    new_text: Seq<char>,
    line: Seq<char>,
) -> bool {
    exists|old_cell: Seq<char>, new_cell: Seq<char>|
        shown == #[trigger] (before + old_cell + " "@ + new_cell + "  "@ + line + "\n"@) && is_cell(
            old_cell,
            old_text,
        ) && is_cell(new_cell, new_text)
}

proof fn lemma_plain(line: Seq<char>)
    requires
        is_plain(line),
    ensures
        hunk_starts(line) is None,
        !is_file_header(line),
        is_added(line) == (line[0] == '+'),
        is_removed(line) == (line[0] == '-'),
{
    reveal_strlit("@@ -");
    reveal_strlit("diff --git");
    reveal_strlit("index ");
    reveal_strlit("--- ");
    reveal_strlit("+++ ");
    reveal_strlit("new file mode ");
    reveal_strlit("deleted file mode ");
    reveal_strlit("similarity index ");
    reveal_strlit("rename from ");
    reveal_strlit("rename to ");
    reveal_strlit("+");
    reveal_strlit("+++");
    reveal_strlit("-");
    reveal_strlit("---");
    assert forall|prefix: Seq<char>| #[trigger] starts_with_text(line, prefix) implies forall|k: int|
        0 <= k < prefix.len() ==> prefix[k] == line[k] by {
        assert forall|k: int| 0 <= k < prefix.len() implies prefix[k] == line[k] by {
            assert(line.subrange(0, prefix.len() as int)[k] == line[k]);
        }
    }
    assert(!starts_with_text(line, "@@ -"@)) by {
        if starts_with_text(line, "@@ -"@) {
            assert("@@ -"@[0] == line[0]);
        }
    }
    assert(starts_with_text(line, "+"@) == (line[0] == '+')) by {
        if line[0] == '+' {
            assert(line.subrange(0, 1) =~= "+"@);
        } else if starts_with_text(line, "+"@) {
            assert("+"@[0] == line[0]);
        }
    }
    assert(starts_with_text(line, "-"@) == (line[0] == '-')) by {
        if line[0] == '-' {
            assert(line.subrange(0, 1) =~= "-"@);
        } else if starts_with_text(line, "-"@) {
            assert("-"@[0] == line[0]);
        }
    }
    if starts_with_text(line, "+++"@) {
        assert("+++"@[0] == line[0] && "+++"@[1] == line[1] && "+++"@[2] == line[2]);
    }
    if starts_with_text(line, "---"@) {
        assert("---"@[0] == line[0] && "---"@[1] == line[1] && "---"@[2] == line[2]);
    }
    if starts_with_text(line, "+++ "@) {
        assert("+++ "@[0] == line[0] && "+++ "@[1] == line[1] && "+++ "@[2] == line[2]);
    }
    if starts_with_text(line, "--- "@) {
        assert("--- "@[0] == line[0] && "--- "@[1] == line[1] && "--- "@[2] == line[2]);
    }
    if starts_with_text(line, "diff --git"@) {
        assert("diff --git"@[0] == line[0]);
    }
    if starts_with_text(line, "index "@) {
        assert("index "@[0] == line[0]);
    }
    if starts_with_text(line, "new file mode "@) {
        assert("new file mode "@[0] == line[0]);
    }
    if starts_with_text(line, "deleted file mode "@) {
        assert("deleted file mode "@[0] == line[0]);
    }
    if starts_with_text(line, "similarity index "@) {
        assert("similarity index "@[0] == line[0]);
    }
    if starts_with_text(line, "rename from "@) {
        assert("rename from "@[0] == line[0]);
    }
    if starts_with_text(line, "rename to "@) {
        assert("rename to "@[0] == line[0]);
    }
}

proof fn lemma_sides(body: Seq<Seq<char>>)
    requires
        forall|i: int| 0 <= i < body.len() ==> is_plain(#[trigger] body[i]),
    ensures
        in_old(body).len() == old_side(body),
        in_new(body).len() == new_side(body),
    decreases body.len(),
{
    reveal(Seq::filter);
    if body.len() > 0 {
        let rest = body.drop_last();
        assert forall|i: int| 0 <= i < rest.len() implies is_plain(#[trigger] rest[i]) by {
            assert(rest[i] == body[i]);
        }
        lemma_sides(rest);
        assert(is_plain(body[body.len() - 1]));
        lemma_plain(body.last());
    }
}

proof fn lemma_row(
    before: Seq<char>,
    numbers: (Option<int>, Option<int>),
    line: Seq<char>,
)
    ensures
        shows_line(
            before + numbered_row(numbers, line),
            before,
            number_or_blank(numbers.0),
            number_or_blank(numbers.1),
            line,
        ),
{
    let old_text = number_or_blank(numbers.0);
    let new_text = number_or_blank(numbers.1);
    let old_cell = right_aligned(old_text);
    let new_cell = right_aligned(new_text);
    assert(old_cell.skip(old_cell.len() - old_text.len()) =~= old_text);
    assert(new_cell.skip(new_cell.len() - new_text.len()) =~= new_text);
    assert(before + numbered_row(numbers, line) =~= before + old_cell + " "@ + new_cell + "  "@
        + line + "\n"@);
}

/// Behind a hunk header and some lines of the hunk, a line shows the number that it has in each
/// file that holds it: the number at which the hunk starts there plus the number of lines of the
/// hunk before it that this file holds. Where a file does not hold the line, its cell is blank.
pub proof fn lemma_line_shows_its_numbers(
    before: Seq<Seq<char>>,
    old_start: nat,
    old_count: Option<nat>,
    new_start: nat,
    new_count: Option<nat>,
    behind: Seq<char>,
    body: Seq<Seq<char>>,
    line: Seq<char>,
    shorter: Seq<char>,
    longer: Seq<char>,
)
    requires
        old_start + body.len() <= usize::MAX,
        new_start + body.len() <= usize::MAX,
        forall|i: int| 0 <= i < body.len() ==> is_plain(#[trigger] body[i]),
        is_plain(line),
        lines_of(shorter) == before.push(
            header_text(old_start, old_count, new_start, new_count, behind),
        ) + body,
        lines_of(longer) == lines_of(shorter).push(line),
    ensures
        shows_line(
            numbered_diff(longer),
            numbered_diff(shorter),
            if line[0] == '+' {
                ""@
            } else {
                decimal(old_start + in_old(body).len())
            },
            if line[0] == '-' {
                ""@
            } else {
                decimal(new_start + in_new(body).len())
            },
            line,
        ),
{
    reveal_strlit("");
    let header = header_text(old_start, old_count, new_start, new_count, behind);
    lemma_hunk_header(old_start, old_count, new_start, new_count, behind);
    assert forall|i: int| 0 <= i < body.len() implies hunk_starts(#[trigger] body[i]) is None
        && !is_file_header(body[i]) by {
        assert(is_plain(body[i]));
        lemma_plain(body[i]);
    }
    lemma_numbers_within_hunk(before, header, old_start as int, new_start as int, body);
    lemma_sides(body);
    lemma_plain(line);
    let all = lines_of(shorter);
    assert(lines_of(longer).drop_last() =~= all);
    let numbers = shown_numbers(state_behind(all), line);
    lemma_row(numbered_rows(all), numbers, line);
    assert(""@ =~= Seq::empty());
}

/// A line that opens a hunk shows no numbers, and neither does a line before the first hunk.
pub proof fn lemma_line_shows_no_numbers(
    line: Seq<char>,
    shorter: Seq<char>,
    longer: Seq<char>,
)
    requires
        lines_of(shorter).len() > 0,
        lines_of(longer) == lines_of(shorter).push(line),
        (exists|a: nat, m: Option<nat>, b: nat, n: Option<nat>, t: Seq<char>|
            a <= usize::MAX && b <= usize::MAX && line == #[trigger] header_text(a, m, b, n, t))
            || (forall|i: int|
            0 <= i < lines_of(shorter).len() ==> !starts_with_text(
                #[trigger] lines_of(shorter)[i],
                "@@ -"@,
            )) || starts_with_text(line, "diff --git"@) || starts_with_text(line, "--- "@)
            || starts_with_text(line, "+++ "@),
    ensures
        shows_line(numbered_diff(longer), numbered_diff(shorter), ""@, ""@, line),
{
    reveal_strlit("");
    let all = lines_of(shorter);
    assert(lines_of(longer).drop_last() =~= all);
    if exists|a: nat, m: Option<nat>, b: nat, n: Option<nat>, t: Seq<char>|
        a <= usize::MAX && b <= usize::MAX && line == #[trigger] header_text(a, m, b, n, t) {
        let (a, m, b, n, t) = choose|
            a: nat,
            m: Option<nat>,
            b: nat,
            n: Option<nat>,
            t: Seq<char>,
        |
            a <= usize::MAX && b <= usize::MAX && line == #[trigger] header_text(a, m, b, n, t);
        lemma_hunk_header(a, m, b, n, t);
    }
    if forall|i: int| 0 <= i < all.len() ==> !starts_with_text(#[trigger] all[i], "@@ -"@) {
        lemma_no_hunk_yet(all);
    }
    lemma_row(numbered_rows(all), shown_numbers(state_behind(all), line), line);
    assert(""@ =~= Seq::empty());
}

proof fn lemma_no_hunk_yet(all: Seq<Seq<char>>)
    requires
        forall|i: int| 0 <= i < all.len() ==> !starts_with_text(#[trigger] all[i], "@@ -"@),
    ensures
        !state_behind(all).in_hunk,
    decreases all.len(),
{
    if all.len() > 0 {
        let rest = all.drop_last();
        assert forall|i: int| 0 <= i < rest.len() implies !starts_with_text(
            #[trigger] rest[i],
            "@@ -"@,
        ) by {
            assert(rest[i] == all[i]);
        }
        lemma_no_hunk_yet(rest);
        assert(all.last() == all[all.len() - 1]);
    }
}

/// The first line of a diff stands behind nothing, without numbers; a diff without lines is shown
/// as it is.
pub proof fn lemma_first_line_shown(diff: Seq<char>, line: Seq<char>)
    ensures
        lines_of(diff) == seq![line] ==> shows_line(numbered_diff(diff), ""@, ""@, ""@, line),
        lines_of(diff).len() == 0 ==> numbered_diff(diff) == diff,
{
    reveal_strlit("");
    assert(""@ =~= Seq::empty());
    if lines_of(diff) == seq![line] {
        let all = lines_of(diff);
        assert(all.drop_last() =~= Seq::empty());
        let numbers = shown_numbers(diff_start(), line);
        lemma_row(Seq::empty(), numbers, line);
        assert(numbered_rows(all.drop_last()) =~= Seq::<char>::empty());
    }
}

// ---------------------------------------------------------------------------------------------
// New files
// ---------------------------------------------------------------------------------------------
pub open spec fn new_file_header(path: Seq<char>) -> Seq<char> {
    "diff --git a/"@ + path + " b/"@ + path + "\nnew file mode 100644\n--- /dev/null\n+++ b/"@
        + path + "\n"@
}

/// Each line behind a plus sign.
pub open spec fn added_lines(all: Seq<Seq<char>>) -> Seq<char>
    decreases all.len(),
{
    if all.len() == 0 {
        Seq::empty()
    } else {
        added_lines(all.drop_last()) + "+"@ + all.last() + "\n"@
    }
}

/// The diff that adds a text file.
pub open spec fn new_file_diff(path: Seq<char>, text: Seq<char>) -> Seq<char> {
    if text.len() == 0 {
        new_file_header(path) + "@@ -0,0 +1,1 @@\n+\n"@
    } else {
        new_file_header(path) + "@@ -0,0 +1,"@ + decimal(
            if lines_of(text).len() > 1 {
                lines_of(text).len()
            } else {
                1
            },
        ) + " @@\n"@ + added_lines(lines_of(text))
    }
}

/// The diff that adds a file that is not text.
pub open spec fn new_binary_diff(path: Seq<char>) -> Seq<char> {
    new_file_header(path) + "@@\n+Binary file preview is not supported.\n"@
}

fn file_header(path: &str) -> (r: String)
    ensures
        r@ == new_file_header(path@),
{
    let mut r = "diff --git a/".to_owned();
    r.append(path);
    r.append(" b/");
    r.append(path);
    r.append("\nnew file mode 100644\n--- /dev/null\n+++ b/");
    r.append(path);
    r.append("\n");
    r
}

pub fn untracked_binary_diff(relative_path: &str) -> (diff: String)
    ensures
        diff@ == new_binary_diff(relative_path@),
{
    let mut diff = file_header(relative_path);
    diff.append("@@\n+Binary file preview is not supported.\n");
    diff
}

pub fn untracked_text_diff(relative_path: &str, text: &str) -> (diff: String)
    ensures
        diff@ == new_file_diff(relative_path@, text@),
{
    let mut diff = file_header(relative_path);
    if text.is_empty() {
        diff.append("@@ -0,0 +1,1 @@\n+\n");
        return diff;
    }
    let all = lines(text);
    let ghost texts = all.deep_view();
    let count: usize = if all.len() > 1 {
        all.len()
    } else {
        1
    };
    diff.append("@@ -0,0 +1,");
    diff.append(decimal_usize(count).as_str());
    diff.append(" @@\n");
    let ghost head = diff@;
    let mut i: usize = 0;
    assert(texts.take(0) =~= Seq::empty());
    assert(diff@ =~= head + added_lines(texts.take(0)));
    while i < all.len()
        invariant
            i <= all@.len(),
            texts == all.deep_view(),
            diff@ == head + added_lines(texts.take(i as int)),
        decreases all.len() - i,
    {
        assert(texts.take(i + 1).drop_last() =~= texts.take(i as int));
        let line = all[i].as_str();
        diff.append("+");
        diff.append(line);
        diff.append("\n");
        i += 1;
        assert(texts.take(i as int).last() == line@);
        assert(diff@ =~= head + added_lines(texts.take(i as int)));
    }
    assert(texts.take(i as int) =~= texts);
    diff
}

} // verus!
