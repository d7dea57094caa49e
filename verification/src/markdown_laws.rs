//! What the markup of texts comes to.
use vstd::prelude::*;
#[allow(unused_imports)]
use crate::lines::{lemma_position, position};
#[allow(unused_imports)]
use crate::markdown::{
    bold_at, char_from, code_at, document_pieces, in_code, inline_from, inline_pieces, is_bare_diff,
    is_fence, line_pieces, link_at, PieceModel,
};
#[allow(unused_imports)]
use crate::text::{
    contains_text, find_from, is_space, lemma_contains_text, lemma_find_from, lemma_prefix,
    occurs_at, starts_with_text, trimmed, trimmed_end, trimmed_start, without_prefix,
};

verus! {

// ---------------------------------------------------------------------------------------------
// Inside a line
// ---------------------------------------------------------------------------------------------
proof fn lemma_find_shifts(whole: Seq<char>, k: int, pattern: Seq<char>, from: int)
    requires
        0 <= k <= whole.len(),
        0 <= from,
    ensures
        match find_from(whole.skip(k), pattern, from) {
            Some(at) => find_from(whole, pattern, k + from) == Some(k + at),
            None => find_from(whole, pattern, k + from) is None,
        },
    decreases whole.len() - k - from + 1,
{
    let s = whole.skip(k);
    if from + pattern.len() <= s.len() {
        assert(s.subrange(from, from + pattern.len()) =~= whole.subrange(
            k + from,
            k + from + pattern.len(),
        ));
        if !occurs_at(s, pattern, from) {
            lemma_find_shifts(whole, k, pattern, from + 1);
        }
    }
}

proof fn lemma_char_shifts(whole: Seq<char>, k: int, c: char, from: int)
    requires
        0 <= k,
        0 <= from,
        k + from <= whole.len(),
    ensures
        char_from(whole, c, k + from) == k + char_from(whole.skip(k), c, from),
        from <= char_from(whole.skip(k), c, from) <= whole.len() - k,
{
    assert(whole.skip(k).skip(from) =~= whole.skip(k + from));
    lemma_position(whole.skip(k + from), c);
}

/// What a text is marked up as from a place on depends on what stands there and behind it alone.
proof fn lemma_inline_shifts(whole: Seq<char>, k: int, i: int, links: bool)
    requires
        0 <= k <= whole.len(),
        0 <= i,
    ensures
        inline_from(whole, k + i, links) == inline_from(whole.skip(k), i, links),
    decreases whole.len() - k - i,
{
    let s = whole.skip(k);
    if i < s.len() {
        let at = k + i;
        reveal_strlit("**");
        lemma_char_shifts(whole, k, ']', i + 1);
        let label_end = char_from(s, ']', i + 1);
        if label_end + 1 < s.len() {
            lemma_char_shifts(whole, k, ')', label_end + 2);
        }
        lemma_char_shifts(whole, k, '`', i + 1);
        lemma_find_shifts(whole, k, "**"@, i + 2);
        lemma_find_from(s, "**"@, i + 2);
        lemma_find_from(whole, "**"@, at + 2);
        if link_at(s, i) is Some {
            let (a, b) = link_at(s, i)->0;
            assert(link_at(whole, at) == Some((k + a, k + b)));
            lemma_inline_shifts(whole, k, b + 1, links);
            assert(s.subrange(i + 1, a) =~= whole.subrange(at + 1, k + a));
            assert(s.subrange(a + 2, b) =~= whole.subrange(k + a + 2, k + b));
        } else {
            assert(link_at(whole, at) is None);
            if bold_at(s, i) is Some {
                let end = bold_at(s, i)->0;
                assert(bold_at(whole, at) == Some(k + end));
                lemma_inline_shifts(whole, k, end + 2, links);
                assert(s.subrange(i + 2, end) =~= whole.subrange(at + 2, k + end));
            } else {
                assert(bold_at(whole, at) is None);
                if code_at(s, i) is Some {
                    let end = code_at(s, i)->0;
                    lemma_inline_shifts(whole, k, end + 1, links);
                    assert(s.subrange(i + 1, end) =~= whole.subrange(at + 1, k + end));
                } else {
                    lemma_inline_shifts(whole, k, i + 1, links);
                }
            }
        }
    }
}

proof fn lemma_char_found(whole: Seq<char>, from: int, part: Seq<char>, c: char)
    requires
        0 <= from,
        from + part.len() < whole.len(),
        whole.subrange(from, from + part.len()) == part,
        !part.contains(c),
        whole[from + part.len()] == c,
    ensures
        char_from(whole, c, from) == from + part.len(),
{
    let tail = whole.skip(from);
    lemma_position(tail, c);
    let at = position(tail, c) as int;
    assert(tail[part.len() as int] == c);
    if at < part.len() {
        assert(part[at] == whole.subrange(from, from + part.len())[at]);
        assert(tail[at] == part[at]);
        assert(part.contains(part[at]));
    }
}

/// A character that starts nothing is shown as it is, and the rest as it would be alone.
pub proof fn lemma_plain_character(c: char, rest: Seq<char>, links: bool)
    requires
        c != '[',
        c != '*',
        c != '`',
    ensures
        inline_pieces(seq![c] + rest, links) == seq![PieceModel::Text(seq![c])] + inline_pieces(
            rest,
            links,
        ),
        inline_pieces(seq![], links) == Seq::<PieceModel>::empty(),
{
    let whole = seq![c] + rest;
    lemma_inline_shifts(whole, 1, 0, links);
    assert(whole.skip(1) =~= rest);
    assert(whole[0] == c);
}

/// A link is shown as its label, with its address behind the label where links are wanted, and as
/// it is written where they are not.
pub proof fn lemma_link(label: Seq<char>, address: Seq<char>, rest: Seq<char>)
    requires
        !label.contains(']'),
        !address.contains(')'),
    ensures
        inline_pieces(seq!['['] + label + seq![']', '('] + address + seq![')'] + rest, true)
            == seq![
            PieceModel::Tag("<a href=\""@),
            PieceModel::Text(trimmed(address)),
            PieceModel::Tag("\">"@),
            PieceModel::Text(label),
            PieceModel::Tag("</a>"@),
        ] + inline_pieces(rest, true),
        inline_pieces(seq!['['] + label + seq![']', '('] + address + seq![')'] + rest, false)
            == seq![
            PieceModel::Text("["@ + label + "]("@ + trimmed(address) + ")"@),
        ] + inline_pieces(rest, false),
{
    let whole = seq!['['] + label + seq![']', '('] + address + seq![')'] + rest;
    let a = 1 + label.len() as int;
    let b = a + 2 + address.len();
    assert(whole.subrange(1, a) =~= label);
    assert(whole[a] == ']');
    assert(whole[a + 1] == '(');
    lemma_char_found(whole, 1, label, ']');
    assert(whole.subrange(a + 2, b) =~= address);
    assert(whole[b] == ')');
    lemma_char_found(whole, a + 2, address, ')');
    assert(whole[0] == '[');
    assert(link_at(whole, 0) == Some((a, b)));
    assert(whole.skip(b + 1) =~= rest);
    lemma_inline_shifts(whole, b + 1, 0, true);
    lemma_inline_shifts(whole, b + 1, 0, false);
}

/// What stands between double stars is bold.
pub proof fn lemma_bold(inner: Seq<char>, rest: Seq<char>, links: bool)
    requires
        !inner.contains('*'),
    ensures
        inline_pieces(seq!['*', '*'] + inner + seq!['*', '*'] + rest, links) == seq![
            PieceModel::Tag("<b>"@),
            PieceModel::Text(inner),
            PieceModel::Tag("</b>"@),
        ] + inline_pieces(rest, links),
{
    reveal_strlit("**");
    let whole = seq!['*', '*'] + inner + seq!['*', '*'] + rest;
    let end = 2 + inner.len() as int;
    assert(whole[0] == '*' && whole[1] == '*');
    assert(link_at(whole, 0) is None);
    lemma_find_from(whole, "**"@, 2);
    assert(whole.subrange(end, end + 2) =~= "**"@);
    assert(occurs_at(whole, "**"@, end));
    let found = find_from(whole, "**"@, 2)->0;
    if found < end {
        assert(whole.subrange(found, found + 2)[0] == inner[found - 2]);
        assert(inner.contains(inner[found - 2]));
    }
    assert(whole.subrange(2, end) =~= inner);
    assert(whole.skip(end + 2) =~= rest);
    lemma_inline_shifts(whole, end + 2, 0, links);
}

/// What stands between backticks is code, whatever it is.
pub proof fn lemma_code(inner: Seq<char>, rest: Seq<char>, links: bool)
    requires
        !inner.contains('`'),
    ensures
        inline_pieces(seq!['`'] + inner + seq!['`'] + rest, links) == seq![
            PieceModel::Tag("<tt>"@),
            PieceModel::Text(inner),
            PieceModel::Tag("</tt>"@),
        ] + inline_pieces(rest, links),
{
    let whole = seq!['`'] + inner + seq!['`'] + rest;
    let end = 1 + inner.len() as int;
    assert(whole[0] == '`');
    assert(whole[end] == '`');
    assert(link_at(whole, 0) is None);
    assert(bold_at(whole, 0) is None);
    assert(whole.subrange(1, end) =~= inner);
    lemma_char_found(whole, 1, inner, '`');
    assert(whole.skip(end + 1) =~= rest);
    lemma_inline_shifts(whole, end + 1, 0, links);
}

// ---------------------------------------------------------------------------------------------
// Lines
// ---------------------------------------------------------------------------------------------
/// A line that starts with up to three number signs and a space is a heading, larger the fewer
/// there are; one that starts with a dash and a space is an item of a list.
pub proof fn lemma_line_kinds(title: Seq<char>, links: bool)
    requires
        title.len() > 0,
        !is_space(title.last()),
    ensures
        line_pieces("# "@ + title, links) == seq![
            PieceModel::Tag("<span weight=\"700\" size=\"x-large\">"@),
        ] + inline_pieces(title, links) + seq![PieceModel::Tag("</span>\n"@)],
        line_pieces("## "@ + title, links) == seq![
            PieceModel::Tag("<span weight=\"700\" size=\"larger\">"@),
        ] + inline_pieces(title, links) + seq![PieceModel::Tag("</span>\n"@)],
        line_pieces("### "@ + title, links) == seq![PieceModel::Tag("<span weight=\"700\">"@)]
            + inline_pieces(title, links) + seq![PieceModel::Tag("</span>\n"@)],
        line_pieces("- "@ + title, links) == seq![PieceModel::Tag("• "@)] + inline_pieces(
            title,
            links,
        ) + seq![PieceModel::Tag("\n"@)],
        title[0] != '#' && title[0] != '-' ==> line_pieces(title, links) == inline_pieces(
            title,
            links,
        ) + seq![PieceModel::Tag("\n"@)],
{
    reveal_strlit("# ");
    reveal_strlit("## ");
    reveal_strlit("### ");
    reveal_strlit("- ");
    lemma_line_with("# "@, title);
    lemma_line_with("## "@, title);
    lemma_line_with("### "@, title);
    lemma_line_with("- "@, title);
    lemma_line_with(seq![], title);
    assert(seq![] + title =~= title);
    let one = "# "@ + title;
    lemma_other_start(one, "### "@, 1);
    lemma_other_start(one, "## "@, 1);
    let two = "## "@ + title;
    lemma_other_start(two, "### "@, 2);
    let item = "- "@ + title;
    lemma_other_start(item, "### "@, 0);
    lemma_other_start(item, "## "@, 0);
    lemma_other_start(item, "# "@, 0);
    if title[0] != '#' && title[0] != '-' {
        lemma_other_start(title, "### "@, 0);
        lemma_other_start(title, "## "@, 0);
        lemma_other_start(title, "# "@, 0);
        lemma_other_start(title, "- "@, 0);
    }
}

proof fn lemma_line_with(mark: Seq<char>, title: Seq<char>)
    requires
        title.len() > 0,
        !is_space(title.last()),
    ensures
        trimmed_end(mark + title) == mark + title,
        without_prefix(mark + title, mark) == Some(title),
{
    assert((mark + title).last() == title.last());
    lemma_prefix(mark + title, mark);
}

proof fn lemma_other_start(line: Seq<char>, mark: Seq<char>, at: int)
    requires
        0 <= at < mark.len(),
        at < line.len(),
        line[at] != mark[at],
    ensures
        without_prefix(line, mark) is None,
{
    if starts_with_text(line, mark) {
        assert(line.subrange(0, mark.len() as int)[at] == line[at]);
    }
}

// ---------------------------------------------------------------------------------------------
// Documents
// ---------------------------------------------------------------------------------------------
/// Whether a line is a fence: three backticks start it, behind whitespace at most.
pub open spec fn fences() -> spec_fn(Seq<char>) -> bool {
    |line: Seq<char>| is_fence(line)
}

/// A place in a document is in code just where an odd number of fences stands before it.
pub proof fn lemma_in_code(all: Seq<Seq<char>>)
    ensures
        in_code(all) <==> all.filter(fences()).len() % 2 == 1,
    decreases all.len(),
{
    reveal(Seq::filter);
    if all.len() > 0 {
        lemma_in_code(all.drop_last());
    }
}

/// A line of code as it is shown: as it is written, but for whitespace at its end.
pub open spec fn code_line(line: Seq<char>) -> Seq<PieceModel> {
    seq![PieceModel::Text(trimmed_end(line)), PieceModel::Tag("\n"@)]
}

pub open spec fn code_lines(code: Seq<Seq<char>>) -> Seq<PieceModel>
    decreases code.len(),
{
    if code.len() == 0 {
        seq![]
    } else {
        code_lines(code.drop_last()) + code_line(code.last())
    }
}

proof fn lemma_code_lines(before: Seq<Seq<char>>, code: Seq<Seq<char>>, links: bool)
    requires
        in_code(before),
        forall|i: int| 0 <= i < code.len() ==> !is_fence(#[trigger] code[i]),
    ensures
        in_code(before + code),
        document_pieces(before + code, links) == document_pieces(before, links) + code_lines(code),
    decreases code.len(),
{
    if code.len() == 0 {
        assert(before + code =~= before);
        assert(document_pieces(before, links) + code_lines(code) =~= document_pieces(
            before,
            links,
        ));
    } else {
        assert forall|i: int| 0 <= i < code.drop_last().len() implies !is_fence(
            #[trigger] code.drop_last()[i],
        ) by {
            assert(code[i] == code.drop_last()[i]);
        }
        lemma_code_lines(before, code.drop_last(), links);
        assert((before + code).drop_last() =~= before + code.drop_last());
        assert((before + code).last() == code.last());
        assert(!is_fence(code[code.len() - 1]));
        assert(document_pieces(before + code, links) =~= document_pieces(before, links)
            + code_lines(code));
    }
}

/// What stands between two fences is code, line by line, with none of it marked up; behind it the
/// document goes on as before.
pub proof fn lemma_code_block(
    before: Seq<Seq<char>>,
    start: Seq<char>,
    code: Seq<Seq<char>>,
    end: Seq<char>,
    line: Seq<char>,
    links: bool,
)
    requires
        before.filter(fences()).len() % 2 == 0,
        is_fence(start),
        is_fence(end),
        forall|i: int| 0 <= i < code.len() ==> !is_fence(#[trigger] code[i]),
        !is_fence(line),
    ensures
        document_pieces(before.push(start) + code + seq![end], links) == document_pieces(
            before,
            links,
        ) + seq![PieceModel::Tag("<span alpha=\"85%\"><tt>"@)] + code_lines(code) + seq![
            PieceModel::Tag("</tt></span>\n"@),
        ],
        document_pieces((before.push(start) + code + seq![end]).push(line), links)
            == document_pieces(before.push(start) + code + seq![end], links) + line_pieces(
            line,
            links,
        ),
        document_pieces(before.push(line), links) == document_pieces(before, links) + line_pieces(
            line,
            links,
        ),
{
    lemma_in_code(before);
    let opened = before.push(start);
    assert(opened.drop_last() =~= before);
    lemma_code_lines(opened, code, links);
    let whole = opened + code + seq![end];
    assert(whole.drop_last() =~= opened + code);
    assert(whole.last() == end);
    assert(document_pieces(whole, links) =~= document_pieces(before, links) + seq![
        PieceModel::Tag("<span alpha=\"85%\"><tt>"@),
    ] + code_lines(code) + seq![PieceModel::Tag("</tt></span>\n"@)]);
    assert(whole.push(line).drop_last() =~= whole);
    assert(before.push(line).drop_last() =~= before);
}

/// Three backticks make a fence, whatever follows them and whatever whitespace leads.
pub proof fn lemma_fence(language: Seq<char>)
    requires
        language.len() > 0 ==> !is_space(language.last()),
    ensures
        is_fence(seq!['`', '`', '`'] + language),
        is_fence(seq![' '] + seq!['`', '`', '`'] + language),
{
    reveal_strlit("```");
    let fence = seq!['`', '`', '`'] + language;
    assert(fence[0] == '`');
    assert(!is_space('`'));
    assert(fence.last() == if language.len() > 0 {
        language.last()
    } else {
        '`'
    });
    assert(trimmed_end(fence) == fence);
    assert(trimmed_start(fence) == fence);
    assert(fence.subrange(0, 3) =~= "```"@);
    let later = seq![' '] + seq!['`', '`', '`'] + language;
    assert(later.last() == fence.last());
    assert(trimmed_end(later) == later);
    assert(later.drop_first() =~= fence);
    assert(is_space(' '));
}

/// Whether a line of a text starts with words.
pub open spec fn line_starts(text: Seq<char>, words: Seq<char>) -> bool {
    exists|at: int|
        {
            &&& #[trigger] occurs_at(text, words, at)
            &&& at == 0 || text[at - 1] == '\n'
        }
}

/// A text is a diff without a fence just where one of its lines starts as a hunk or as the diff of
/// a file does.
pub proof fn lemma_bare_diff(text: Seq<char>)
    ensures
        is_bare_diff(text) <==> line_starts(text, "@@ "@) || line_starts(text, "diff --git "@),
{
    reveal_strlit("\n@@ ");
    reveal_strlit("@@ ");
    reveal_strlit("\ndiff --git ");
    reveal_strlit("diff --git ");
    assert("\n@@ "@ =~= seq!['\n'] + "@@ "@);
    assert("\ndiff --git "@ =~= seq!['\n'] + "diff --git "@);
    lemma_line_starts(text, "@@ "@);
    lemma_line_starts(text, "diff --git "@);
}

proof fn lemma_line_starts(text: Seq<char>, words: Seq<char>)
    ensures
        line_starts(text, words) <==> contains_text(text, seq!['\n'] + words) || starts_with_text(
            text,
            words,
        ),
{
    let longer = seq!['\n'] + words;
    lemma_contains_text(text, longer);
    if contains_text(text, longer) {
        let at = choose|at: int| occurs_at(text, longer, at);
        assert(text.subrange(at, at + longer.len())[0] == text[at]);
        let shown = text.subrange(at + 1, at + 1 + words.len());
        assert forall|i: int| 0 <= i < words.len() implies shown[i] == words[i] by {
            assert(text.subrange(at, at + longer.len())[1 + i] == longer[1 + i]);
        }
        assert(shown =~= words);
        assert(occurs_at(text, words, at + 1));
    }
    if line_starts(text, words) {
        let at = choose|at: int|
            {
                &&& #[trigger] occurs_at(text, words, at)
                &&& at == 0 || text[at - 1] == '\n'
            };
        if at > 0 {
            assert(text.subrange(at - 1, at - 1 + longer.len()) =~= longer) by {
                assert forall|i: int| 0 <= i < words.len() implies text[at + i] == #[trigger] words[i] by {
                    assert(text.subrange(at, at + words.len())[i] == text[at + i]);
                }
            }
            assert(occurs_at(text, longer, at - 1));
        }
    }
}

} // verus!
