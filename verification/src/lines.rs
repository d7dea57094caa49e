//! Lines, words, joining, case folding and byte offsets of texts.
use crate::text::{
    char_width, chars_of, is_whitespace, lower_char, text_of_range, trim,
};
use vstd::prelude::*;
#[allow(unused_imports)]
use crate::text::{
    ascii_lower_char, is_space, lemma_trimmed_push, lemma_trimmed_start_is_suffix, trimmed,
    trimmed_start, utf8_width,
};

verus! {

// ---------------------------------------------------------------------------------------------
// Splitting at one character
// ---------------------------------------------------------------------------------------------
/// The position of the first `c` in `s`, or the length of `s` where there is none.
pub open spec fn position(s: Seq<char>, c: char) -> nat
    decreases s.len(),
{
    if s.len() == 0 || s[0] == c {
        0
    } else {
        1 + position(s.drop_first(), c)
    }
}

pub proof fn lemma_position(s: Seq<char>, c: char)
    ensures
        position(s, c) <= s.len(),
        position(s, c) < s.len() ==> s[position(s, c) as int] == c,
        forall|j: int| 0 <= j < position(s, c) ==> s[j] != c,
    decreases s.len(),
{
    if s.len() > 0 && s[0] != c {
        let rest = s.drop_first();
        lemma_position(rest, c);
        assert forall|j: int| 0 <= j < position(s, c) implies s[j] != c by {
            if j > 0 {
                assert(rest[j - 1] == s[j]);
            }
        }
    }
}

/// The position of the first `c` at or after `from`, or the length where there is none.
pub fn position_from(chars: &Vec<char>, c: char, from: usize) -> (at: usize)
    requires
        from <= chars@.len(),
    ensures
        from <= at <= chars@.len(),
        at - from == position(chars@.skip(from as int), c),
{
    let mut i: usize = from;
    while i < chars.len() && chars[i] != c
        invariant
            from <= i <= chars@.len(),
            position(chars@.skip(from as int), c) == (i - from) + position(
                chars@.skip(i as int),
                c,
            ),
        decreases chars.len() - i,
    {
        assert(chars@.skip(i as int).drop_first() =~= chars@.skip(i + 1));
        i += 1;
    }
    i
}

/// The pieces of `s` between the occurrences of `c`.
pub open spec fn split_char(s: Seq<char>, c: char) -> Seq<Seq<char>>
    decreases s.len(),
{
    let at = position(s, c) as int;
    if at >= s.len() {
        seq![s]
    } else {
        seq![s.take(at)] + split_char(s.skip(at + 1), c)
    }
}

pub fn split_at_char(text: &str, c: char) -> (parts: Vec<String>)
    ensures
        parts.deep_view() == split_char(text@, c),
        parts@.len() >= 1,
{
    let chars = chars_of(text);
    let mut parts: Vec<String> = Vec::new();
    let mut start: usize = 0;
    assert(chars@.skip(0) =~= chars@);
    assert(parts.deep_view() + split_char(chars@.skip(0), c) =~= split_char(text@, c));
    loop
        invariant
            chars@ == text@,
            start <= chars@.len(),
            parts.deep_view() + split_char(chars@.skip(start as int), c) == split_char(text@, c),
        decreases chars@.len() - start,
    {
        let at = position_from(&chars, c, start);
        let piece = text_of_range(&chars, start, at);
        let ghost rest = chars@.skip(start as int);
        let ghost before = parts.deep_view();
        parts.push(piece);
        assert(parts.deep_view() =~= before.push(piece@));
        if at >= chars.len() {
            assert(piece@ =~= rest);
            assert(parts.deep_view() =~= before + seq![rest]);
            return parts;
        }
        assert(piece@ =~= rest.take(at - start));
        assert(rest.skip(at - start + 1) =~= chars@.skip(at + 1));
        assert(before + (seq![piece@] + split_char(chars@.skip(at + 1), c)) =~= before.push(piece@)
            + split_char(chars@.skip(at + 1), c));
        start = at + 1;
    }
}

// ---------------------------------------------------------------------------------------------
// Lines
// ---------------------------------------------------------------------------------------------
/// `s` without one carriage return at its end.
pub open spec fn without_cr(s: Seq<char>) -> Seq<char> {
    if s.len() > 0 && s.last() == '\r' {
        s.drop_last()
    } else {
        s
    }
}

/// The lines of `s`: each ends at a line feed, which takes one carriage return before it along;
/// the last one may lack its line feed and then keeps its carriage return.
pub open spec fn lines_of(s: Seq<char>) -> Seq<Seq<char>>
    decreases s.len(),
{
    let at = position(s, '\n') as int;
    if s.len() == 0 {
        Seq::empty()
    } else if at >= s.len() {
        seq![s]
    } else {
        seq![without_cr(s.take(at))] + lines_of(s.skip(at + 1))
    }
}

pub fn lines(text: &str) -> (out: Vec<String>)
    ensures
        out.deep_view() == lines_of(text@),
{
    let chars = chars_of(text);
    let mut out: Vec<String> = Vec::new();
    let mut start: usize = 0;
    assert(chars@.skip(0) =~= chars@);
    assert(out.deep_view() + lines_of(chars@.skip(0)) =~= lines_of(text@));
    while start < chars.len()
        invariant
            chars@ == text@,
            start <= chars@.len(),
            out.deep_view() + lines_of(chars@.skip(start as int)) == lines_of(text@),
        decreases chars@.len() - start,
    {
        let at = position_from(&chars, '\n', start);
        let ghost rest = chars@.skip(start as int);
        let ghost before = out.deep_view();
        if at >= chars.len() {
            let piece = text_of_range(&chars, start, at);
            assert(piece@ =~= rest);
            out.push(piece);
            assert(out.deep_view() =~= before + seq![rest]);
            return out;
        }
        let end: usize = if at > start && chars[at - 1] == '\r' {
            at - 1
        } else {
            at
        };
        let piece = text_of_range(&chars, start, end);
        assert(piece@ =~= without_cr(rest.take(at - start)));
        out.push(piece);
        assert(out.deep_view() =~= before.push(piece@));
        assert(rest.skip(at - start + 1) =~= chars@.skip(at + 1));
        assert(before + (seq![piece@] + lines_of(chars@.skip(at + 1))) =~= before.push(piece@)
            + lines_of(chars@.skip(at + 1)));
        start = at + 1;
    }
    assert(lines_of(chars@.skip(start as int)) =~= Seq::empty());
    assert(out.deep_view() =~= lines_of(text@));
    out
}

/// The lines that pieces between line feeds make where a line feed follows each of them.
pub open spec fn ended(pieces: Seq<Seq<char>>) -> Seq<Seq<char>> {
    Seq::new(pieces.len(), |i: int| without_cr(pieces[i]))
}

/// The first occurrence of a character stays the first, whatever stands behind it.
proof fn lemma_position_joined(a: Seq<char>, c: char, b: Seq<char>)
    ensures
        position(a + seq![c] + b, c) == position(a, c),
    decreases a.len(),
{
    let whole = a + seq![c] + b;
    if a.len() > 0 && a[0] != c {
        assert(whole.drop_first() =~= a.drop_first() + seq![c] + b);
        lemma_position_joined(a.drop_first(), c, b);
    }
}

proof fn lemma_lines_split(a: Seq<char>, b: Seq<char>)
    ensures
        lines_of(a + seq!['\n'] + b) == ended(split_char(a, '\n')) + lines_of(b),
    decreases a.len(),
{
    let whole = a + seq!['\n'] + b;
    let at = position(a, '\n') as int;
    lemma_position(a, '\n');
    lemma_position_joined(a, '\n', b);
    assert(whole.take(at) =~= a.take(at));
    if at >= a.len() {
        assert(a.take(at) =~= a);
        assert(whole.skip(at + 1) =~= b);
        assert(ended(seq![a]) =~= seq![without_cr(a)]);
    } else {
        let rest = a.skip(at + 1);
        assert(whole.skip(at + 1) =~= rest + seq!['\n'] + b);
        lemma_lines_split(rest, b);
        assert(ended(split_char(a, '\n')) =~= seq![without_cr(a.take(at))] + ended(
            split_char(rest, '\n'),
        ));
        assert(lines_of(whole) =~= ended(split_char(a, '\n')) + lines_of(b));
    }
}

/// What stands behind the last line feed of a text is its last line, unless it is empty.
proof fn lemma_last_line(a: Seq<char>)
    ensures
        split_char(a, '\n').len() > 0,
        lines_of(a) == ended(split_char(a, '\n').drop_last()) + (if split_char(
            a,
            '\n',
        ).last().len() > 0 {
            seq![split_char(a, '\n').last()]
        } else {
            Seq::empty()
        }),
    decreases a.len(),
{
    let pieces = split_char(a, '\n');
    let at = position(a, '\n') as int;
    lemma_position(a, '\n');
    if at >= a.len() {
        assert(pieces.drop_last() =~= Seq::empty());
        assert(ended(pieces.drop_last()) =~= Seq::empty());
    } else {
        let rest = a.skip(at + 1);
        lemma_last_line(rest);
        assert(pieces.last() == split_char(rest, '\n').last());
        assert(ended(pieces.drop_last()) =~= seq![without_cr(a.take(at))] + ended(
            split_char(rest, '\n').drop_last(),
        ));
    }
    assert(lines_of(a) =~= ended(pieces.drop_last()) + (if pieces.last().len() > 0 {
        seq![pieces.last()]
    } else {
        Seq::empty()
    }));
}

/// Whether `head` and `last` are the lines of `a`, and with a line feed between `a` and `b` those
/// of `b` follow them. The last line of `a` then loses a carriage return at its end, and is there
/// even where it is empty.
pub open spec fn lines_meet(
    a: Seq<char>,
    b: Seq<char>,
    head: Seq<Seq<char>>,
    last: Seq<char>,
) -> bool {
    &&& lines_of(a) == (if last.len() > 0 {
        head.push(last)
    } else {
        head
    })
    &&& lines_of(a + "\n"@ + b) == head.push(without_cr(last)) + lines_of(b)
}

/// The lines of two texts with a line feed between them are those of the first text, but for the
/// end of its last line, and then those of the second.
pub proof fn lemma_lines_joined(a: Seq<char>, b: Seq<char>)
    ensures
        exists|head: Seq<Seq<char>>, last: Seq<char>| lines_meet(a, b, head, last),
{
    reveal_strlit("\n");
    assert("\n"@ =~= seq!['\n']);
    let pieces = split_char(a, '\n');
    lemma_lines_split(a, b);
    lemma_last_line(a);
    let head = ended(pieces.drop_last());
    assert(head.push(without_cr(pieces.last())) =~= ended(pieces));
    assert(lines_of(a) =~= (if pieces.last().len() > 0 {
        head.push(pieces.last())
    } else {
        head
    }));
    assert(lines_meet(a, b, head, pieces.last()));
}

/// A line ends at a line feed, with or without a carriage return before it, and what follows is
/// read on its own; a last line needs no line feed.
pub proof fn lemma_line_ends(line: Seq<char>, rest: Seq<char>)
    requires
        !line.contains('\n'),
        line.len() > 0 ==> line.last() != '\r',
    ensures
        lines_of(line + "\n"@ + rest) == seq![line] + lines_of(rest),
        lines_of(line + "\r\n"@ + rest) == seq![line] + lines_of(rest),
        line.len() > 0 ==> lines_of(line) == seq![line],
        lines_of(""@) == Seq::<Seq<char>>::empty(),
{
    reveal_strlit("\n");
    reveal_strlit("\r\n");
    reveal_strlit("");
    assert("\n"@ =~= seq!['\n']);
    lemma_position(line, '\n');
    assert(position(line, '\n') == line.len()) by {
        if position(line, '\n') < line.len() {
            assert(line.contains(line[position(line, '\n') as int]));
        }
    }
    lemma_lines_split(line, rest);
    assert(ended(seq![line]) =~= seq![line]);
    let marked = line.push('\r');
    lemma_position(marked, '\n');
    assert(position(marked, '\n') == marked.len()) by {
        if position(marked, '\n') < marked.len() {
            let at = position(marked, '\n') as int;
            assert(line.contains(line[at]));
        }
    }
    lemma_lines_split(marked, rest);
    assert(line + "\r\n"@ + rest =~= marked + seq!['\n'] + rest);
    assert(marked.drop_last() =~= line);
    assert(ended(seq![marked]) =~= seq![line]);
}

// ---------------------------------------------------------------------------------------------
// Words
// ---------------------------------------------------------------------------------------------
/// The position of the first whitespace in `s`, or the length of `s` where there is none.
pub open spec fn space_position(s: Seq<char>) -> nat
    decreases s.len(),
{
    if s.len() == 0 || is_space(s[0]) {
        0
    } else {
        1 + space_position(s.drop_first())
    }
}

pub proof fn lemma_space_position(s: Seq<char>)
    ensures
        space_position(s) <= s.len(),
    decreases s.len(),
{
    if s.len() > 0 && !is_space(s[0]) {
        lemma_space_position(s.drop_first());
    }
}

/// The maximal runs of characters of `s` that are not whitespace.
pub open spec fn words_of(s: Seq<char>) -> Seq<Seq<char>>
    decreases s.len(),
{
    let t = trimmed_start(s);
    if t.len() == 0 {
        Seq::empty()
    } else {
        let end = space_position(t) as int;
        proof {
            lemma_trimmed_start_is_suffix(s);
            lemma_space_position(t);
        }
        seq![t.take(end)] + words_of(t.skip(end))
    }
}

pub fn words(text: &str) -> (out: Vec<String>)
    ensures
        out.deep_view() == words_of(text@),
{
    let chars = chars_of(text);
    let mut out: Vec<String> = Vec::new();
    let mut start: usize = 0;
    assert(chars@.skip(0) =~= chars@);
    assert(out.deep_view() + words_of(chars@.skip(0)) =~= words_of(text@));
    while start < chars.len()
        invariant
            start <= chars@.len(),
            out.deep_view() + words_of(chars@.skip(start as int)) == words_of(text@),
        decreases chars@.len() - start,
    {
        let ghost rest = chars@.skip(start as int);
        if is_whitespace(chars[start]) {
            assert(trimmed_start(rest) == trimmed_start(rest.drop_first()));
            assert(rest.drop_first() =~= chars@.skip(start + 1));
            start += 1;
        } else {
            let mut end: usize = start;
            while end < chars.len() && !is_whitespace(chars[end])
                invariant
                    start <= end <= chars@.len(),
                    rest == chars@.skip(start as int),
                    space_position(rest) == (end - start) + space_position(
                        chars@.skip(end as int),
                    ),
                decreases chars@.len() - end,
            {
                assert(chars@.skip(end as int).drop_first() =~= chars@.skip(end + 1));
                end += 1;
            }
            let piece = text_of_range(&chars, start, end);
            let ghost before = out.deep_view();
            assert(trimmed_start(rest) == rest);
            assert(piece@ =~= rest.take(end - start));
            assert(rest.skip(end - start) =~= chars@.skip(end as int));
            out.push(piece);
            assert(out.deep_view() =~= before.push(piece@));
            assert(before + (seq![piece@] + words_of(chars@.skip(end as int))) =~= before.push(
                piece@,
            ) + words_of(chars@.skip(end as int)));
            assert(end > start) by {
                if end == start {
                    assert(space_position(rest) > 0);
                }
            }
            start = end;
        }
    }
    assert(words_of(chars@.skip(start as int)) =~= Seq::empty());
    assert(out.deep_view() =~= words_of(text@));
    out
}

// ---------------------------------------------------------------------------------------------
// Joining
// ---------------------------------------------------------------------------------------------
/// `parts` one after the other, with `separator` between neighbours.
pub open spec fn joined(parts: Seq<Seq<char>>, separator: Seq<char>) -> Seq<char>
    decreases parts.len(),
{
    if parts.len() == 0 {
        Seq::empty()
    } else if parts.len() == 1 {
        parts[0]
    } else {
        joined(parts.drop_last(), separator) + separator + parts.last()
    }
}

pub fn join(parts: &Vec<String>, separator: &str) -> (text: String)
    ensures
        text@ == joined(parts.deep_view(), separator@),
{
    let mut text = String::new();
    let mut i: usize = 0;
    assert(parts.deep_view().take(0) =~= Seq::empty());
    while i < parts.len()
        invariant
            i <= parts@.len(),
            text@ == joined(parts.deep_view().take(i as int), separator@),
        decreases parts.len() - i,
    {
        let ghost done = parts.deep_view().take(i + 1);
        assert(done.drop_last() =~= parts.deep_view().take(i as int));
        if i > 0 {
            text.append(separator);
        }
        text.append(parts[i].as_str());
        i += 1;
        assert(text@ =~= joined(done, separator@));
    }
    assert(parts.deep_view().take(i as int) =~= parts.deep_view());
    text
}

// ---------------------------------------------------------------------------------------------
// Case
// ---------------------------------------------------------------------------------------------
/// `s` with its ASCII letters in lower case.
pub open spec fn ascii_lower(s: Seq<char>) -> Seq<char> {
    Seq::new(s.len(), |i: int| ascii_lower_char(s[i]))
}

pub fn ascii_lowercase(text: &str) -> (r: String)
    ensures
        r@ == ascii_lower(text@),
{
    let chars = chars_of(text);
    let mut r = String::new();
    let mut i: usize = 0;
    while i < chars.len()
        invariant
            chars@ == text@,
            i <= chars@.len(),
            r@ == ascii_lower(text@).take(i as int),
        decreases chars.len() - i,
    {
        r.push(lower_char(chars[i]));
        i += 1;
        assert(r@ =~= ascii_lower(text@).take(i as int));
    }
    assert(ascii_lower(text@).take(i as int) =~= ascii_lower(text@));
    r
}

/// Whether two texts differ in nothing but the case of ASCII letters.
pub fn equal_ignoring_case(a: &str, b: &str) -> (r: bool)
    ensures
        r == (ascii_lower(a@) == ascii_lower(b@)),
{
    let x = ascii_lowercase(a);
    let y = ascii_lowercase(b);
    crate::text::same(&x, &y)
}

/// The letters from `A` to `Z` become those from `a` to `z`, and all else stays as it is.
pub proof fn lemma_ascii_lower(s: Seq<char>, i: int)
    requires
        0 <= i < s.len(),
    ensures
        ascii_lower(s).len() == s.len(),
        'A' <= s[i] <= 'Z' ==> ascii_lower(s)[i] as u32 == s[i] as u32 + 32,
        !('A' <= s[i] <= 'Z') ==> ascii_lower(s)[i] == s[i],
{
}

pub proof fn lemma_ascii_lower_idempotent(s: Seq<char>)
    ensures
        ascii_lower(ascii_lower(s)) == ascii_lower(s),
{
    assert(ascii_lower(ascii_lower(s)) =~= ascii_lower(s));
}

/// What `str::to_lowercase` makes of a text: the Unicode lower case mapping, which covers far
/// more than the ASCII letters.
pub uninterp spec fn unicode_lower(s: Seq<char>) -> Seq<char>;

/// `str::to_lowercase`. Its result depends on the text alone; nothing more is said of it.
#[verifier::external_body]
pub(crate) fn unicode_lowercase(text: &str) -> (r: String)
    ensures
        r@ == unicode_lower(text@),
{
    text.to_lowercase()
}

// ---------------------------------------------------------------------------------------------
// Removing characters
// ---------------------------------------------------------------------------------------------
pub open spec fn other_than(c: char) -> spec_fn(char) -> bool {
    |x: char| x != c
}

/// `s` without the characters equal to `c`.
pub open spec fn without_char(s: Seq<char>, c: char) -> Seq<char> {
    s.filter(other_than(c))
}

pub fn remove_char(text: &str, c: char) -> (r: String)
    ensures
        r@ == without_char(text@, c),
{
    let chars = chars_of(text);
    let ghost keep = other_than(c);
    let mut r = String::new();
    let mut i: usize = 0;
    assert(chars@.take(0).filter(keep) =~= Seq::empty()) by {
        reveal(Seq::filter);
    }
    while i < chars.len()
        invariant
            i <= chars@.len(),
            keep == other_than(c),
            r@ == chars@.take(i as int).filter(keep),
        decreases chars.len() - i,
    {
        assert(chars@.take(i + 1).drop_last() =~= chars@.take(i as int));
        assert(chars@.take(i + 1).filter(keep) == {
            let head = chars@.take(i as int).filter(keep);
            if keep(chars@[i as int]) {
                head.push(chars@[i as int])
            } else {
                head
            }
        }) by {
            reveal(Seq::filter);
        }
        if chars[i] != c {
            r.push(chars[i]);
        }
        i += 1;
    }
    assert(chars@.take(i as int) =~= chars@);
    r
}

/// `s` without the characters `c` at its start.
pub open spec fn without_leading(s: Seq<char>, c: char) -> Seq<char>
    decreases s.len(),
{
    if s.len() > 0 && s[0] == c {
        without_leading(s.drop_first(), c)
    } else {
        s
    }
}

pub fn strip_leading(text: &str, c: char) -> (r: String)
    ensures
        r@ == without_leading(text@, c),
{
    let chars = chars_of(text);
    let mut start: usize = 0;
    assert(chars@.skip(0) =~= chars@);
    while start < chars.len() && chars[start] == c
        invariant
            start <= chars@.len(),
            without_leading(text@, c) == without_leading(chars@.skip(start as int), c),
        decreases chars.len() - start,
    {
        assert(chars@.skip(start as int).drop_first() =~= chars@.skip(start + 1));
        start += 1;
    }
    assert(chars@.skip(start as int) =~= chars@.subrange(start as int, chars@.len() as int));
    text_of_range(&chars, start, chars.len())
}

// ---------------------------------------------------------------------------------------------
// Bytes
// ---------------------------------------------------------------------------------------------
/// The number of bytes of the UTF-8 encoding of `s`.
pub open spec fn byte_len(s: Seq<char>) -> nat
    decreases s.len(),
{
    if s.len() == 0 {
        0
    } else {
        utf8_width(s[0]) + byte_len(s.drop_first())
    }
}

/// How many characters at the start of `s` fit into `n` bytes.
pub open spec fn chars_within(s: Seq<char>, n: int) -> nat
    decreases s.len(),
{
    if s.len() == 0 || utf8_width(s[0]) > n {
        0
    } else {
        1 + chars_within(s.drop_first(), n - utf8_width(s[0]))
    }
}

/// Whether the first `n` bytes of `s` are the bytes of whole characters.
pub open spec fn is_boundary(s: Seq<char>, n: int) -> bool {
    &&& 0 <= n <= byte_len(s)
    &&& byte_len(s.take(chars_within(s, n) as int)) == n
}

pub proof fn lemma_chars_within(s: Seq<char>, n: int)
    ensures
        chars_within(s, n) <= s.len(),
        n >= 0 ==> byte_len(s.take(chars_within(s, n) as int)) <= n,
        n >= byte_len(s) ==> chars_within(s, n) == s.len(),
        byte_len(s) >= s.len(),
    decreases s.len(),
{
    assert(s.take(0) =~= Seq::empty());
    if s.len() > 0 {
        let rest = s.drop_first();
        lemma_chars_within(rest, n - utf8_width(s[0]));
        let k = chars_within(rest, n - utf8_width(s[0])) as int;
        assert(s.take(k + 1).drop_first() =~= rest.take(k));
    }
}

pub proof fn lemma_byte_len_push(s: Seq<char>, c: char)
    ensures
        byte_len(s.push(c)) == byte_len(s) + utf8_width(c),
    decreases s.len(),
{
    if s.len() == 0 {
        assert(s.push(c).drop_first() =~= s);
    } else {
        assert(s.push(c).drop_first() =~= s.drop_first().push(c));
        lemma_byte_len_push(s.drop_first(), c);
    }
}

/// What stands behind the first `n` bytes does not change how many characters fit into them.
pub proof fn lemma_chars_within_push(s: Seq<char>, c: char, n: int)
    requires
        n <= byte_len(s),
    ensures
        chars_within(s.push(c), n) == chars_within(s, n),
    decreases s.len(),
{
    if s.len() > 0 && utf8_width(s[0]) <= n {
        assert(s.push(c).drop_first() =~= s.drop_first().push(c));
        lemma_chars_within_push(s.drop_first(), c, n - utf8_width(s[0]));
    }
}

/// Whether `text` takes more than `limit` bytes.
pub fn longer_than_bytes(text: &str, limit: usize) -> (r: bool)
    ensures
        r == (byte_len(text@) > limit),
{
    let chars = chars_of(text);
    let mut left: usize = limit;
    let mut i: usize = 0;
    assert(chars@.skip(0) =~= chars@);
    while i < chars.len()
        invariant
            chars@ == text@,
            i <= chars@.len(),
            left <= limit,
            byte_len(text@) == (limit - left) + byte_len(chars@.skip(i as int)),
        decreases chars.len() - i,
    {
        let width = char_width(chars[i]);
        assert(chars@.skip(i as int).drop_first() =~= chars@.skip(i + 1));
        if width > left {
            return true;
        }
        left -= width;
        i += 1;
    }
    false
}

/// The number of characters at the start of `chars` that fit into `n` bytes.
pub fn count_within(chars: &Vec<char>, n: u128) -> (k: usize)
    ensures
        k == chars_within(chars@, n as int),
        k <= chars@.len(),
{
    let mut left: u128 = n;
    let mut i: usize = 0;
    assert(chars@.skip(0) =~= chars@);
    while i < chars.len()
        invariant
            i <= chars@.len(),
            left <= n,
            chars_within(chars@, n as int) == i + chars_within(chars@.skip(i as int), left as int),
        decreases chars.len() - i,
    {
        let width: u128 = char_width(chars[i]) as u128;
        assert(chars@.skip(i as int).drop_first() =~= chars@.skip(i + 1));
        if width > left {
            return i;
        }
        left -= width;
        i += 1;
    }
    i
}

/// The number of bytes of the UTF-8 encoding of `chars`.
pub fn byte_total(chars: &Vec<char>) -> (n: u128)
    ensures
        n == byte_len(chars@),
{
    let mut n: u128 = 0;
    let mut i: usize = 0;
    assert(chars@.skip(0) =~= chars@);
    while i < chars.len()
        invariant
            i <= chars.len(),
            n <= 4 * i,
            byte_len(chars@) == n + byte_len(chars@.skip(i as int)),
        decreases chars.len() - i,
    {
        assert(chars@.skip(i as int).drop_first() =~= chars@.skip(i + 1));
        n += char_width(chars[i]) as u128;
        i += 1;
    }
    n
}

// ---------------------------------------------------------------------------------------------
// Lists of lines
// ---------------------------------------------------------------------------------------------
/// The lines, trimmed, but the blank ones.
pub open spec fn filled_lines(all: Seq<Seq<char>>) -> Seq<Seq<char>>
    decreases all.len(),
{
    if all.len() == 0 {
        Seq::empty()
    } else if trimmed(all.last()).len() == 0 {
        filled_lines(all.drop_last())
    } else {
        filled_lines(all.drop_last()).push(trimmed(all.last()))
    }
}

proof fn lemma_filled_added(a: Seq<Seq<char>>, b: Seq<Seq<char>>)
    ensures
        filled_lines(a + b) == filled_lines(a) + filled_lines(b),
    decreases b.len(),
{
    if b.len() == 0 {
        assert(a + b =~= a);
        assert(filled_lines(a) + filled_lines(b) =~= filled_lines(a));
    } else {
        assert((a + b).drop_last() =~= a + b.drop_last());
        lemma_filled_added(a, b.drop_last());
        assert(filled_lines(a + b) =~= filled_lines(a) + filled_lines(b));
    }
}

/// The filled lines of two texts with a line feed between them are those of the one, then those of
/// the other.
pub proof fn lemma_filled_joined(a: Seq<char>, b: Seq<char>)
    ensures
        filled_lines(lines_of(a + "\n"@ + b)) == filled_lines(lines_of(a)) + filled_lines(
            lines_of(b),
        ),
{
    lemma_lines_joined(a, b);
    let (head, last) = choose|head: Seq<Seq<char>>, last: Seq<char>| lines_meet(a, b, head, last);
    lemma_filled_added(head.push(without_cr(last)), lines_of(b));
    lemma_trimmed_without_cr(last);
    assert(head.push(without_cr(last)).drop_last() =~= head);
    assert(head.push(last).drop_last() =~= head);
}

/// A carriage return at the end is trimmed off anyway.
pub proof fn lemma_trimmed_without_cr(s: Seq<char>)
    ensures
        trimmed(without_cr(s)) == trimmed(s),
{
    if s.len() > 0 && s.last() == '\r' {
        lemma_trimmed_push(s.drop_last(), '\r');
        assert(s.drop_last().push('\r') =~= s);
    }
}

/// The lines of `text`, trimmed, but the blank ones.
pub fn nonblank_lines(text: &str) -> (out: Vec<String>)
    ensures
        out.deep_view() == filled_lines(lines_of(text@)),
{
    let all = lines(text);
    let ghost texts = all.deep_view();
    let mut out: Vec<String> = Vec::new();
    let mut i: usize = 0;
    assert(texts.take(0) =~= Seq::empty());
    assert(out.deep_view() =~= Seq::empty());
    while i < all.len()
        invariant
            i <= all@.len(),
            texts == all.deep_view(),
            out.deep_view() == filled_lines(texts.take(i as int)),
        decreases all.len() - i,
    {
        assert(texts.take(i + 1).drop_last() =~= texts.take(i as int));
        assert(texts.take(i + 1).last() == all@[i as int]@);
        let t = trim(all[i].as_str());
        if !t.as_str().is_empty() {
            let ghost before = out.deep_view();
            out.push(t);
            assert(out.deep_view() =~= before.push(t@));
        }
        i += 1;
    }
    assert(texts.take(i as int) =~= texts);
    out
}

/// Whether `list` holds `text`.
pub fn lists(list: &Vec<String>, text: &str) -> (r: bool)
    ensures
        r == list.deep_view().contains(text@),
{
    let mut i: usize = 0;
    while i < list.len()
        invariant
            i <= list@.len(),
            forall|k: int| 0 <= k < i ==> list.deep_view()[k] != text@,
        decreases list.len() - i,
    {
        assert(list.deep_view()[i as int] == list@[i as int]@);
        if crate::text::same(list[i].as_str(), text) {
            return true;
        }
        i += 1;
    }
    false
}

} // verus!
