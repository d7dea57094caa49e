//! Markdown turned into Pango markup.
//!
//! The markup comes as pieces: tags, which are markup as they stand, and texts, which have to be
//! escaped before they are put between the tags.
use crate::lines::{lines, position_from};
use crate::text::{
    chars_of, concat3, contains, find_chars, owned, starts_with, strip_prefix, text_of_range, trim,
    trim_end, trim_start,
};
use vstd::prelude::*;
#[allow(unused_imports)]
use crate::lines::{lines_of, position};
#[allow(unused_imports)]
use crate::text::{
    contains_text, find_from, lemma_find_from, starts_with_text, trimmed, trimmed_end,
    trimmed_start, without_prefix,
};

verus! {

/// A piece of markup.
#[derive(Debug)]
pub enum MarkupPiece {
    /// Markup as it stands.
    Tag(String),
    /// Text that has to be escaped.
    Text(String),
}

#[verifier::ext_equal]
pub ghost enum PieceModel {
    Tag(Seq<char>),
    Text(Seq<char>),
}

impl MarkupPiece {
    pub open spec fn model(self) -> PieceModel {
        match self {
            MarkupPiece::Tag(s) => PieceModel::Tag(s@),
            MarkupPiece::Text(s) => PieceModel::Text(s@),
        }
    }
}

pub open spec fn piece_models(pieces: Seq<MarkupPiece>) -> Seq<PieceModel> {
    Seq::new(pieces.len(), |i: int| pieces[i].model())
}

// ---------------------------------------------------------------------------------------------
// Inline markdown
// ---------------------------------------------------------------------------------------------
/// The first position of `c` at or after `from`, or the length where there is none.
pub open spec fn char_from(s: Seq<char>, c: char, from: int) -> int {
    from + position(s.skip(from), c)
}

/// The end of the label and the end of the address of the link that starts at `i`.
pub open spec fn link_at(s: Seq<char>, i: int) -> Option<(int, int)> {
    let label_end = char_from(s, ']', i + 1);
    let url_end = char_from(s, ')', label_end + 2);
    if s[i] == '[' && label_end + 1 < s.len() && s[label_end + 1] == '(' && url_end < s.len() {
        Some((label_end, url_end))
    } else {
        None
    }
}

/// The end of the bold text that starts at `i`.
pub open spec fn bold_at(s: Seq<char>, i: int) -> Option<int> {
    if s[i] == '*' && i + 1 < s.len() && s[i + 1] == '*' {
        find_from(s, "**"@, i + 2)
    } else {
        None
    }
}

/// The end of the code that starts at `i`.
pub open spec fn code_at(s: Seq<char>, i: int) -> Option<int> {
    if s[i] == '`' && char_from(s, '`', i + 1) < s.len() {
        Some(char_from(s, '`', i + 1))
    } else {
        None
    }
}

pub open spec fn link_pieces(label: Seq<char>, href: Seq<char>, links: bool) -> Seq<PieceModel> {
    if links {
        seq![
            PieceModel::Tag("<a href=\""@),
            PieceModel::Text(href),
            PieceModel::Tag("\">"@),
            PieceModel::Text(label),
            PieceModel::Tag("</a>"@),
        ]
    } else {
        seq![PieceModel::Text("["@ + label + "]("@ + href + ")"@)]
    }
}

pub open spec fn tagged(open_tag: Seq<char>, inner: Seq<char>, close_tag: Seq<char>) -> Seq<
    PieceModel,
> {
    seq![PieceModel::Tag(open_tag), PieceModel::Text(inner), PieceModel::Tag(close_tag)]
}

/// The pieces of `s` from `i` on: links, bold text, code, and all other characters one by one.
pub open spec fn inline_from(s: Seq<char>, i: int, links: bool) -> Seq<PieceModel>
    decreases s.len() - i,
{
    if i < 0 || i >= s.len() {
        Seq::empty()
    } else {
        proof {
            reveal_strlit("**");
            lemma_find_from(s, "**"@, i + 2);
        }
        match link_at(s, i) {
            Some((label_end, url_end)) => link_pieces(
                s.subrange(i + 1, label_end),
                trimmed(s.subrange(label_end + 2, url_end)),
                links,
            ) + inline_from(s, url_end + 1, links),
            None => match bold_at(s, i) {
                Some(end) => tagged("<b>"@, s.subrange(i + 2, end), "</b>"@) + inline_from(
                    s,
                    end + 2,
                    links,
                ),
                None => match code_at(s, i) {
                    Some(end) => tagged("<tt>"@, s.subrange(i + 1, end), "</tt>"@) + inline_from(
                        s,
                        end + 1,
                        links,
                    ),
                    None => seq![PieceModel::Text(seq![s[i]])] + inline_from(s, i + 1, links),
                },
            },
        }
    }
}

pub open spec fn inline_pieces(s: Seq<char>, links: bool) -> Seq<PieceModel> {
    inline_from(s, 0, links)
}

fn push_tag(out: &mut Vec<MarkupPiece>, tag: &str)
    ensures
        piece_models(final(out)@) == piece_models(old(out)@).push(PieceModel::Tag(tag@)),
{
    out.push(MarkupPiece::Tag(owned(tag)));
    assert(piece_models(out@) =~= piece_models(old(out)@).push(PieceModel::Tag(tag@)));
}

fn push_text(out: &mut Vec<MarkupPiece>, text: String)
    ensures
        piece_models(final(out)@) == piece_models(old(out)@).push(PieceModel::Text(text@)),
{
    out.push(MarkupPiece::Text(text));
    assert(piece_models(out@) =~= piece_models(old(out)@).push(PieceModel::Text(text@)));
}

fn find_link(chars: &Vec<char>, i: usize) -> (r: Option<(usize, usize)>)
    requires
        i < chars@.len(),
    ensures
        match r {
            Some(p) => link_at(chars@, i as int) == Some((p.0 as int, p.1 as int)) && i < p.0
                && p.0 + 2 <= p.1 < chars.len(),
            None => link_at(chars@, i as int) is None,
        },
{
    if chars[i] != '[' {
        return None;
    }
    assert(i < chars.len());
    let label_end = position_from(chars, ']', i + 1);
    if label_end >= chars.len() || chars.len() - label_end <= 1 || chars[label_end + 1] != '(' {
        return None;
    }
    let url_end = position_from(chars, ')', label_end + 2);
    if url_end >= chars.len() {
        return None;
    }
    Some((label_end, url_end))
}

fn find_bold(chars: &Vec<char>, i: usize) -> (r: Option<usize>)
    requires
        i < chars@.len(),
    ensures
        match r {
            Some(end) => bold_at(chars@, i as int) == Some(end as int) && i + 2 <= end && end + 2
                <= chars.len(),
            None => bold_at(chars@, i as int) is None,
        },
{
    if chars[i] != '*' || chars.len() - i <= 1 || chars[i + 1] != '*' {
        return None;
    }
    proof {
        reveal_strlit("**");
    }
    let pattern = chars_of("**");
    find_chars(chars, &pattern, i + 2)
}

fn find_code(chars: &Vec<char>, i: usize) -> (r: Option<usize>)
    requires
        i < chars@.len(),
    ensures
        match r {
            Some(end) => code_at(chars@, i as int) == Some(end as int) && i < end < chars.len(),
            None => code_at(chars@, i as int) is None,
        },
{
    if chars[i] != '`' {
        return None;
    }
    assert(i < chars.len());
    let end = position_from(chars, '`', i + 1);
    if end >= chars.len() {
        None
    } else {
        Some(end)
    }
}

fn push_inline(out: &mut Vec<MarkupPiece>, text: &str, links: bool)
    ensures
        piece_models(final(out)@) == piece_models(old(out)@) + inline_pieces(text@, links),
{
    let chars = chars_of(text);
    let ghost s = chars@;
    let ghost before = piece_models(out@);
    let mut i: usize = 0;
    assert(before + inline_from(s, 0, links) == piece_models(out@) + inline_from(s, 0, links));
    while i < chars.len()
        invariant
            s == chars@,
            s == text@,
            i <= chars@.len(),
            piece_models(out@) + inline_from(s, i as int, links) == before + inline_pieces(s, links),
        decreases chars.len() - i,
    {
        let ghost now = piece_models(out@);
        match find_link(&chars, i) {
            Some((label_end, url_end)) => {
                let label = text_of_range(&chars, i + 1, label_end);
                let raw = text_of_range(&chars, label_end + 2, url_end);
                let href = trim(raw.as_str());
                let ghost pieces = link_pieces(label@, href@, links);
                if links {
                    push_tag(out, "<a href=\"");
                    push_text(out, href);
                    push_tag(out, "\">");
                    push_text(out, label);
                    push_tag(out, "</a>");
                } else {
                    let mut plain = concat3("[", label.as_str(), "](");
                    plain.append(href.as_str());
                    plain.append(")");
                    push_text(out, plain);
                }
                assert(piece_models(out@) =~= now + pieces);
                i = url_end + 1;
                assert(now + (pieces + inline_from(s, i as int, links)) =~= now + pieces
                    + inline_from(s, i as int, links));
            },
            None => match find_bold(&chars, i) {
                Some(end) => {
                    let inner = text_of_range(&chars, i + 2, end);
                    let ghost pieces = tagged("<b>"@, inner@, "</b>"@);
                    push_tag(out, "<b>");
                    push_text(out, inner);
                    push_tag(out, "</b>");
                    assert(piece_models(out@) =~= now + pieces);
                    i = end + 2;
                    assert(now + (pieces + inline_from(s, i as int, links)) =~= now + pieces
                        + inline_from(s, i as int, links));
                },
                None => match find_code(&chars, i) {
                    Some(end) => {
                        let inner = text_of_range(&chars, i + 1, end);
                        let ghost pieces = tagged("<tt>"@, inner@, "</tt>"@);
                        push_tag(out, "<tt>");
                        push_text(out, inner);
                        push_tag(out, "</tt>");
                        assert(piece_models(out@) =~= now + pieces);
                        i = end + 1;
                        assert(now + (pieces + inline_from(s, i as int, links)) =~= now + pieces
                            + inline_from(s, i as int, links));
                    },
                    None => {
                        let one = text_of_range(&chars, i, i + 1);
                        assert(one@ =~= seq![s[i as int]]);
                        let ghost pieces = seq![PieceModel::Text(one@)];
                        push_text(out, one);
                        assert(piece_models(out@) =~= now + pieces);
                        i = i + 1;
                        assert(now + (pieces + inline_from(s, i as int, links)) =~= now + pieces
                            + inline_from(s, i as int, links));
                    },
                },
            },
        }
    }
    assert(piece_models(out@) + inline_from(s, i as int, links) =~= piece_models(out@));
}

/// The markup of a line of markdown. `links` says whether the markup may hold links.
pub fn render_inline_markdown(text: &str, links: bool) -> (out: Vec<MarkupPiece>)
    ensures
        piece_models(out@) == inline_pieces(text@, links),
{
    let mut out: Vec<MarkupPiece> = Vec::new();
    push_inline(&mut out, text, links);
    assert(piece_models(out@) =~= inline_pieces(text@, links));
    out
}

// ---------------------------------------------------------------------------------------------
// Documents
// ---------------------------------------------------------------------------------------------
/// Whether a line opens or closes a block of code.
pub open spec fn is_fence(line: Seq<char>) -> bool {
    starts_with_text(trimmed_start(trimmed_end(line)), "```"@)
}

/// The pieces of a line that is neither a fence nor code.
pub open spec fn line_pieces(line: Seq<char>, links: bool) -> Seq<PieceModel> {
    let t = trimmed_end(line);
    match without_prefix(t, "### "@) {
        Some(rest) => seq![PieceModel::Tag("<span weight=\"700\">"@)] + inline_pieces(rest, links)
            + seq![PieceModel::Tag("</span>\n"@)],
        None => match without_prefix(t, "## "@) {
            Some(rest) => seq![PieceModel::Tag("<span weight=\"700\" size=\"larger\">"@)]
                + inline_pieces(rest, links) + seq![PieceModel::Tag("</span>\n"@)],
            None => match without_prefix(t, "# "@) {
                Some(rest) => seq![PieceModel::Tag("<span weight=\"700\" size=\"x-large\">"@)]
                    + inline_pieces(rest, links) + seq![PieceModel::Tag("</span>\n"@)],
                None => match without_prefix(t, "- "@) {
                    Some(rest) => seq![PieceModel::Tag("• "@)] + inline_pieces(rest, links) + seq![
                        PieceModel::Tag("\n"@),
                    ],
                    None => inline_pieces(t, links) + seq![PieceModel::Tag("\n"@)],
                },
            },
        },
    }
}

/// Whether the lines end inside a block of code.
pub open spec fn in_code(all: Seq<Seq<char>>) -> bool
    decreases all.len(),
{
    if all.len() == 0 {
        false
    } else if is_fence(all.last()) {
        !in_code(all.drop_last())
    } else {
        in_code(all.drop_last())
    }
}

/// The pieces of all lines.
pub open spec fn document_pieces(all: Seq<Seq<char>>, links: bool) -> Seq<PieceModel>
    decreases all.len(),
{
    if all.len() == 0 {
        Seq::empty()
    } else {
        let head = document_pieces(all.drop_last(), links);
        let code = in_code(all.drop_last());
        let line = all.last();
        if is_fence(line) {
            head.push(
                PieceModel::Tag(
                    if code {
                        "</tt></span>\n"@
                    } else {
                        "<span alpha=\"85%\"><tt>"@
                    },
                ),
            )
        } else if code {
            head.push(PieceModel::Text(trimmed_end(line))).push(PieceModel::Tag("\n"@))
        } else {
            head + line_pieces(line, links)
        }
    }
}

fn push_line(out: &mut Vec<MarkupPiece>, t: &str, links: bool, Ghost(line): Ghost<Seq<char>>)
    requires
        t@ == trimmed_end(line),
    ensures
        piece_models(final(out)@) == piece_models(old(out)@) + line_pieces(line, links),
{
    let ghost before = piece_models(out@);
    if let Some(rest) = strip_prefix(t, "### ") {
        push_tag(out, "<span weight=\"700\">");
        push_inline(out, rest.as_str(), links);
        push_tag(out, "</span>\n");
    } else if let Some(rest) = strip_prefix(t, "## ") {
        push_tag(out, "<span weight=\"700\" size=\"larger\">");
        push_inline(out, rest.as_str(), links);
        push_tag(out, "</span>\n");
    } else if let Some(rest) = strip_prefix(t, "# ") {
        push_tag(out, "<span weight=\"700\" size=\"x-large\">");
        push_inline(out, rest.as_str(), links);
        push_tag(out, "</span>\n");
    } else if let Some(rest) = strip_prefix(t, "- ") {
        push_tag(out, "• ");
        push_inline(out, rest.as_str(), links);
        push_tag(out, "\n");
    } else {
        push_inline(out, t, links);
        push_tag(out, "\n");
    }
    assert(piece_models(out@) =~= before + line_pieces(line, links));
}

/// The markup of a markdown document; see [`finish_markup`] for what is done once its texts were
/// escaped and its pieces joined. `links` says whether the markup may hold links.
pub fn markdown_to_pango(text: &str, links: bool) -> (out: Vec<MarkupPiece>)
    ensures
        piece_models(out@) == document_pieces(lines_of(text@), links),
{
    let all = lines(text);
    let ghost texts = all.deep_view();
    let mut out: Vec<MarkupPiece> = Vec::new();
    let mut code = false;
    let mut i: usize = 0;
    assert(texts.take(0) =~= Seq::empty());
    assert(piece_models(out@) =~= Seq::empty());
    while i < all.len()
        invariant
            i <= all@.len(),
            texts == all.deep_view(),
            code == in_code(texts.take(i as int)),
            piece_models(out@) == document_pieces(texts.take(i as int), links),
        decreases all.len() - i,
    {
        let ghost line = texts[i as int];
        assert(texts.take(i + 1).drop_last() =~= texts.take(i as int));
        assert(texts.take(i + 1).last() == line);
        let t = trim_end(all[i].as_str());
        let bare = trim_start(t.as_str());
        if starts_with(bare.as_str(), "```") {
            if code {
                push_tag(&mut out, "</tt></span>\n");
                code = false;
            } else {
                push_tag(&mut out, "<span alpha=\"85%\"><tt>");
                code = true;
            }
        } else if code {
            push_text(&mut out, t);
            push_tag(&mut out, "\n");
        } else {
            push_line(&mut out, t.as_str(), links, Ghost(line));
        }
        i += 1;
    }
    assert(texts.take(i as int) =~= texts);
    out
}

/// The markup without the whitespace at its end.
pub fn finish_markup(joined: &str) -> (markup: String)
    ensures
        markup@ == trimmed_end(joined@),
{
    trim_end(joined)
}

/// Whether a text is a diff that stands outside any block of code.
pub open spec fn is_bare_diff(text: Seq<char>) -> bool {
    ||| contains_text(text, "\n@@ "@)
    ||| starts_with_text(text, "@@ "@)
    ||| contains_text(text, "\ndiff --git "@)
    ||| starts_with_text(text, "diff --git "@)
}

pub fn looks_like_unfenced_diff(text: &str) -> (r: bool)
    ensures
        r == is_bare_diff(text@),
{
    contains(text, "\n@@ ") || starts_with(text, "@@ ") || contains(text, "\ndiff --git ")
        || starts_with(text, "diff --git ")
}

/// What the page of a workspace shows for its instructions.
#[derive(Debug)]
pub enum AgentsNote {
    /// This text as it is.
    Plain(&'static str),
    /// The instructions as they are, without markup.
    Verbatim,
    /// The instructions as markup.
    Markup,
}

/// What is shown for the instructions of a workspace, given their text where there is one.
pub fn agents_note(text: Option<&str>) -> (note: AgentsNote)
    ensures
        match text {
            None => note matches AgentsNote::Plain(t) && t@
                == "No AGENTS.md found in this workspace.\n\nCreate `AGENTS.md` in the workspace root to define project-specific instructions."@,
            Some(s) => if trimmed(s@).len() == 0 {
                note matches AgentsNote::Plain(t) && t@ == "AGENTS.md is empty."@
            } else if is_bare_diff(s@) {
                note is Verbatim
            } else {
                note is Markup
            },
        },
{
    match text {
        None => AgentsNote::Plain(
            "No AGENTS.md found in this workspace.\n\nCreate `AGENTS.md` in the workspace root to define project-specific instructions.",
        ),
        Some(s) => if !crate::layout_store::is_visible(s) {
            AgentsNote::Plain("AGENTS.md is empty.")
        } else if looks_like_unfenced_diff(s) {
            AgentsNote::Verbatim
        } else {
            AgentsNote::Markup
        },
    }
}

/// The file with the instructions of a workspace, of the two names it can have.
pub fn agents_file_name(has_upper: bool, has_lower: bool) -> (name: Option<&'static str>)
    ensures
        crate::text::str_option(name) == (if has_upper {
            Some("AGENTS.md"@)
        } else if has_lower {
            Some("agents.md"@)
        } else {
            None
        }),
{
    if has_upper {
        Some("AGENTS.md")
    } else if has_lower {
        Some("agents.md")
    } else {
        None
    }
}

// ---------------------------------------------------------------------------------------------
// Where markup can come from
// ---------------------------------------------------------------------------------------------
/// The tags that a document can be turned into.
pub open spec fn is_known_tag(tag: Seq<char>) -> bool {
    ||| tag == "<a href=\""@
    ||| tag == "\">"@
    ||| tag == "</a>"@
    ||| tag == "<b>"@
    ||| tag == "</b>"@
    ||| tag == "<tt>"@
    ||| tag == "</tt>"@
    ||| tag == "<span weight=\"700\">"@
    ||| tag == "<span weight=\"700\" size=\"larger\">"@
    ||| tag == "<span weight=\"700\" size=\"x-large\">"@
    ||| tag == "</span>\n"@
    ||| tag == "<span alpha=\"85%\"><tt>"@
    ||| tag == "</tt></span>\n"@
    ||| tag == "• "@
    ||| tag == "\n"@
}

pub open spec fn only_known_tags(pieces: Seq<PieceModel>) -> bool {
    forall|i: int|
        0 <= i < pieces.len() ==> (#[trigger] pieces[i] matches PieceModel::Tag(tag)
            ==> is_known_tag(tag))
}

proof fn lemma_known_concat(a: Seq<PieceModel>, b: Seq<PieceModel>)
    requires
        only_known_tags(a),
        only_known_tags(b),
    ensures
        only_known_tags(a + b),
{
    assert forall|i: int| 0 <= i < (a + b).len() implies (#[trigger] (a
        + b)[i] matches PieceModel::Tag(tag) ==> is_known_tag(tag)) by {
        if i < a.len() {
            assert((a + b)[i] == a[i]);
        } else {
            assert((a + b)[i] == b[i - a.len()]);
        }
    }
}

proof fn lemma_inline_tags(s: Seq<char>, i: int, links: bool)
    ensures
        only_known_tags(inline_from(s, i, links)),
    decreases s.len() - i,
{
    if 0 <= i < s.len() {
        reveal_strlit("**");
        lemma_find_from(s, "**"@, i + 2);
        let (head, next) = match link_at(s, i) {
            Some((label_end, url_end)) => (
                link_pieces(
                    s.subrange(i + 1, label_end),
                    trimmed(s.subrange(label_end + 2, url_end)),
                    links,
                ),
                url_end + 1,
            ),
            None => match bold_at(s, i) {
                Some(end) => (tagged("<b>"@, s.subrange(i + 2, end), "</b>"@), end + 2),
                None => match code_at(s, i) {
                    Some(end) => (tagged("<tt>"@, s.subrange(i + 1, end), "</tt>"@), end + 1),
                    None => (seq![PieceModel::Text(seq![s[i]])], i + 1),
                },
            },
        };
        lemma_inline_tags(s, next, links);
        lemma_known_concat(head, inline_from(s, next, links));
    }
}

proof fn lemma_line_tags(line: Seq<char>, links: bool)
    ensures
        only_known_tags(line_pieces(line, links)),
{
    let t = trimmed_end(line);
    lemma_inline_tags(t, 0, links);
    let close = seq![PieceModel::Tag("</span>\n"@)];
    let feed = seq![PieceModel::Tag("\n"@)];
    match without_prefix(t, "### "@) {
        Some(rest) => {
            lemma_inline_tags(rest, 0, links);
            let head = seq![PieceModel::Tag("<span weight=\"700\">"@)];
            lemma_known_concat(head, inline_pieces(rest, links));
            lemma_known_concat(head + inline_pieces(rest, links), close);
        },
        None => match without_prefix(t, "## "@) {
            Some(rest) => {
                lemma_inline_tags(rest, 0, links);
                let head = seq![PieceModel::Tag("<span weight=\"700\" size=\"larger\">"@)];
                lemma_known_concat(head, inline_pieces(rest, links));
                lemma_known_concat(head + inline_pieces(rest, links), close);
            },
            None => match without_prefix(t, "# "@) {
                Some(rest) => {
                    lemma_inline_tags(rest, 0, links);
                    let head = seq![PieceModel::Tag("<span weight=\"700\" size=\"x-large\">"@)];
                    lemma_known_concat(head, inline_pieces(rest, links));
                    lemma_known_concat(head + inline_pieces(rest, links), close);
                },
                None => match without_prefix(t, "- "@) {
                    Some(rest) => {
                        lemma_inline_tags(rest, 0, links);
                        let head = seq![PieceModel::Tag("• "@)];
                        lemma_known_concat(head, inline_pieces(rest, links));
                        lemma_known_concat(head + inline_pieces(rest, links), feed);
                    },
                    None => {
                        lemma_known_concat(inline_pieces(t, links), feed);
                    },
                },
            },
        },
    }
}

/// No text of a document becomes markup: whatever is not escaped is one of the known tags.
pub proof fn lemma_only_known_tags(all: Seq<Seq<char>>, links: bool)
    ensures
        only_known_tags(document_pieces(all, links)),
    decreases all.len(),
{
    if all.len() > 0 {
        let rest = all.drop_last();
        lemma_only_known_tags(rest, links);
        lemma_line_tags(all.last(), links);
        lemma_known_concat(document_pieces(rest, links), line_pieces(all.last(), links));
    }
}

} // verus!
