//! Text operations over sequences of characters.
//!
//! Every operation has a specification over `Seq<char>`; byte counts follow the UTF-8 widths of
//! the characters.
use vstd::prelude::*;

verus! {

broadcast use vstd::seq_lib::group_seq_properties;

/// `String::push`: appends one character.
pub assume_specification[ String::push ](s: &mut String, c: char)
    ensures
        final(s)@ == old(s)@.push(c),
;

// ---------------------------------------------------------------------------------------------
// Characters
// ---------------------------------------------------------------------------------------------
/// The Unicode `White_Space` property.
pub open spec fn is_space(c: char) -> bool {
    let n = c as u32;
    ||| 0x09 <= n <= 0x0d
    ||| n == 0x20
    ||| n == 0x85
    ||| n == 0xa0
    ||| n == 0x1680
    ||| 0x2000 <= n <= 0x200a
    ||| n == 0x2028
    ||| n == 0x2029
    ||| n == 0x202f
    ||| n == 0x205f
    ||| n == 0x3000
}

pub fn is_whitespace(c: char) -> (b: bool)
    ensures
        b == is_space(c),
{
    let n: u32 = c as u32;
    (0x09 <= n && n <= 0x0d) || n == 0x20 || n == 0x85 || n == 0xa0 || n == 0x1680 || (0x2000 <= n
        && n <= 0x200a) || n == 0x2028 || n == 0x2029 || n == 0x202f || n == 0x205f || n == 0x3000
}

/// The number of bytes that UTF-8 spends on `c`.
pub open spec fn utf8_width(c: char) -> nat {
    let n = c as u32;
    if n < 0x80 {
        1
    } else if n < 0x800 {
        2
    } else if n < 0x10000 {
        3
    } else {
        4
    }
}

pub fn char_width(c: char) -> (w: usize)
    ensures
        w == utf8_width(c),
        1 <= w <= 4,
{
    let n: u32 = c as u32;
    if n < 0x80 {
        1
    } else if n < 0x800 {
        2
    } else if n < 0x10000 {
        3
    } else {
        4
    }
}

/// `c` with `A` to `Z` replaced by `a` to `z`.
pub open spec fn ascii_lower_char(c: char) -> char {
    if 'A' <= c <= 'Z' {
        (c as u32 + 32) as char
    } else {
        c
    }
}

pub fn lower_char(c: char) -> (r: char)
    ensures
        r == ascii_lower_char(c),
{
    if 'A' <= c && c <= 'Z' {
        ((c as u8) + 32) as char
    } else {
        c
    }
}

pub open spec fn is_digit(c: char) -> bool {
    '0' <= c <= '9'
}

pub open spec fn digit_char(d: nat) -> char {
    (48 + d) as char
}

// ---------------------------------------------------------------------------------------------
// Conversions between strings and character vectors
// ---------------------------------------------------------------------------------------------
/// The characters of `text`, in order.
pub fn chars_of(text: &str) -> (chars: Vec<char>)
    ensures
        chars@ == text@,
{
    let mut chars: Vec<char> = Vec::new();
    for c in it: text.chars()
        invariant
            chars@ == it.seq().take(it.index()),
            it.seq() == text@,
    {
        chars.push(c);
    }
    chars
}

/// The text made of `chars[from..to]`.
pub fn text_of_range(chars: &Vec<char>, from: usize, to: usize) -> (text: String)
    requires
        from <= to <= chars@.len(),
    ensures
        text@ == chars@.subrange(from as int, to as int),
{
    let mut text = String::new();
    let mut i: usize = from;
    while i < to
        invariant
            from <= i <= to <= chars@.len(),
            text@ == chars@.subrange(from as int, i as int),
        decreases to - i,
    {
        text.push(chars[i]);
        i += 1;
        assert(text@ =~= chars@.subrange(from as int, i as int));
    }
    text
}

/// An owned copy of `text`.
pub fn owned(text: &str) -> (copy: String)
    ensures
        copy@ == text@,
{
    text.to_owned()
}

/// What an optional text holds.
pub open spec fn str_option(text: Option<&str>) -> Option<Seq<char>> {
    match text {
        Some(s) => Some(s@),
        None => None,
    }
}

/// `a` followed by `b`.
pub fn concat(a: &str, b: &str) -> (joined: String)
    ensures
        joined@ == a@ + b@,
{
    let mut joined = a.to_owned();
    joined.append(b);
    joined
}

/// `a`, `b` and `c`, one after the other.
pub fn concat3(a: &str, b: &str, c: &str) -> (joined: String)
    ensures
        joined@ == a@ + b@ + c@,
{
    let mut joined = a.to_owned();
    joined.append(b);
    joined.append(c);
    joined
}

// ---------------------------------------------------------------------------------------------
// Comparison
// ---------------------------------------------------------------------------------------------
/// Whether two texts hold the same characters.
pub fn same(a: &str, b: &str) -> (r: bool)
    ensures
        r == (a@ == b@),
{
    let x = chars_of(a);
    let y = chars_of(b);
    same_chars(&x, &y)
}

fn same_chars(x: &Vec<char>, y: &Vec<char>) -> (r: bool)
    ensures
        r == (x@ == y@),
{
    if x.len() != y.len() {
        return false;
    }
    let mut i: usize = 0;
    while i < x.len()
        invariant
            i <= x@.len(),
            x@.len() == y@.len(),
            forall|j: int| 0 <= j < i ==> x@[j] == y@[j],
        decreases x.len() - i,
    {
        if x[i] != y[i] {
            return false;
        }
        i += 1;
    }
    assert(x@ =~= y@);
    true
}

/// Lexicographic order by code point, which is also the byte order of the UTF-8 encodings.
pub open spec fn text_le(a: Seq<char>, b: Seq<char>) -> bool
    decreases a.len(),
{
    if a.len() == 0 {
        true
    } else if b.len() == 0 {
        false
    } else if a[0] != b[0] {
        a[0] < b[0]
    } else {
        text_le(a.drop_first(), b.drop_first())
    }
}

pub proof fn lemma_text_le_total(a: Seq<char>, b: Seq<char>)
    ensures
        text_le(a, b) || text_le(b, a),
        text_le(a, a),
    decreases a.len(),
{
    if a.len() > 0 {
        lemma_text_le_total(a.drop_first(), if b.len() > 0 { b.drop_first() } else { b });
    }
}

pub proof fn lemma_text_le_transitive(a: Seq<char>, b: Seq<char>, c: Seq<char>)
    requires
        text_le(a, b),
        text_le(b, c),
    ensures
        text_le(a, c),
    decreases a.len(),
{
    if a.len() > 0 && b.len() > 0 && c.len() > 0 && a[0] == b[0] && b[0] == c[0] {
        lemma_text_le_transitive(a.drop_first(), b.drop_first(), c.drop_first());
    }
}

pub proof fn lemma_text_le_antisymmetric(a: Seq<char>, b: Seq<char>)
    requires
        text_le(a, b),
        text_le(b, a),
    ensures
        a == b,
    decreases a.len(),
{
    if a.len() > 0 && b.len() > 0 {
        lemma_text_le_antisymmetric(a.drop_first(), b.drop_first());
        assert(a =~= seq![a[0]] + a.drop_first());
        assert(b =~= seq![b[0]] + b.drop_first());
    } else {
        assert(a =~= b);
    }
}

/// Whether `a` comes before `b` or equals it.
pub fn not_after(a: &str, b: &str) -> (r: bool)
    ensures
        r == text_le(a@, b@),
{
    let x = chars_of(a);
    let y = chars_of(b);
    let mut i: usize = 0;
    assert(x@.skip(0) =~= x@);
    assert(y@.skip(0) =~= y@);
    while i < x.len() && i < y.len()
        invariant
            i <= x@.len(),
            i <= y@.len(),
            x@ == a@,
            y@ == b@,
            text_le(a@, b@) == text_le(x@.skip(i as int), y@.skip(i as int)),
        decreases x.len() - i,
    {
        assert(x@.skip(i as int).drop_first() =~= x@.skip(i + 1));
        assert(y@.skip(i as int).drop_first() =~= y@.skip(i + 1));
        if x[i] != y[i] {
            return x[i] < y[i];
        }
        i += 1;
    }
    i >= x.len()
}

// ---------------------------------------------------------------------------------------------
// Trimming
// ---------------------------------------------------------------------------------------------
pub open spec fn trimmed_start(s: Seq<char>) -> Seq<char>
    decreases s.len(),
{
    if s.len() > 0 && is_space(s[0]) {
        trimmed_start(s.drop_first())
    } else {
        s
    }
}

pub open spec fn trimmed_end(s: Seq<char>) -> Seq<char>
    decreases s.len(),
{
    if s.len() > 0 && is_space(s.last()) {
        trimmed_end(s.drop_last())
    } else {
        s
    }
}

/// `s` without the whitespace at both ends.
pub open spec fn trimmed(s: Seq<char>) -> Seq<char> {
    trimmed_end(trimmed_start(s))
}

pub fn trim_end(text: &str) -> (r: String)
    ensures
        r@ == trimmed_end(text@),
{
    let chars = chars_of(text);
    let mut end: usize = chars.len();
    assert(chars@.take(end as int) =~= chars@);
    while end > 0 && is_whitespace(chars[end - 1])
        invariant
            end <= chars@.len(),
            trimmed_end(text@) == trimmed_end(chars@.take(end as int)),
        decreases end,
    {
        assert(chars@.take(end as int).drop_last() =~= chars@.take(end - 1));
        end -= 1;
    }
    assert(chars@.take(end as int) =~= chars@.subrange(0, end as int));
    text_of_range(&chars, 0, end)
}

pub fn trim_start(text: &str) -> (r: String)
    ensures
        r@ == trimmed_start(text@),
{
    let chars = chars_of(text);
    let mut start: usize = 0;
    assert(chars@.skip(0) =~= chars@);
    while start < chars.len() && is_whitespace(chars[start])
        invariant
            start <= chars@.len(),
            trimmed_start(text@) == trimmed_start(chars@.skip(start as int)),
        decreases chars.len() - start,
    {
        assert(chars@.skip(start as int).drop_first() =~= chars@.skip(start + 1));
        start += 1;
    }
    assert(chars@.skip(start as int) =~= chars@.subrange(start as int, chars@.len() as int));
    text_of_range(&chars, start, chars.len())
}

pub fn trim(text: &str) -> (r: String)
    ensures
        r@ == trimmed(text@),
{
    let left = trim_start(text);
    trim_end(&left)
}

pub proof fn lemma_trimmed_end_is_prefix(s: Seq<char>)
    ensures
        trimmed_end(s).len() <= s.len(),
        trimmed_end(s) == s.take(trimmed_end(s).len() as int),
        trimmed_end(s).len() > 0 ==> !is_space(trimmed_end(s).last()),
    decreases s.len(),
{
    if s.len() > 0 && is_space(s.last()) {
        lemma_trimmed_end_is_prefix(s.drop_last());
        assert(s.drop_last().take(trimmed_end(s).len() as int) =~= s.take(
            trimmed_end(s).len() as int,
        ));
    } else {
        assert(s.take(s.len() as int) =~= s);
    }
}

pub proof fn lemma_trimmed_start_is_suffix(s: Seq<char>)
    ensures
        trimmed_start(s).len() <= s.len(),
        trimmed_start(s) == s.skip(s.len() - trimmed_start(s).len()),
        trimmed_start(s).len() > 0 ==> !is_space(trimmed_start(s)[0]),
    decreases s.len(),
{
    if s.len() > 0 && is_space(s[0]) {
        let rest = s.drop_first();
        lemma_trimmed_start_is_suffix(rest);
        assert(rest.skip(rest.len() - trimmed_start(s).len()) =~= s.skip(
            s.len() - trimmed_start(s).len(),
        ));
    } else {
        assert(s.skip(0) =~= s);
    }
}

/// Whitespace behind a text is trimmed off.
pub proof fn lemma_trimmed_push(s: Seq<char>, c: char)
    requires
        is_space(c),
    ensures
        trimmed(s.push(c)) == trimmed(s),
    decreases s.len(),
{
    let longer = s.push(c);
    if s.len() == 0 {
        assert(longer.drop_first() =~= s);
    } else if is_space(s[0]) {
        assert(longer.drop_first() =~= s.drop_first().push(c));
        lemma_trimmed_push(s.drop_first(), c);
    } else {
        assert(longer.drop_last() =~= s);
    }
}

/// Trimming leaves no whitespace at either end, and trimming again changes nothing.
pub proof fn lemma_trimmed_idempotent(s: Seq<char>)
    ensures
        trimmed(trimmed(s)) == trimmed(s),
        trimmed(s).len() > 0 ==> !is_space(trimmed(s)[0]) && !is_space(trimmed(s).last()),
        trimmed(s).len() <= s.len(),
{
    let a = trimmed_start(s);
    let b = trimmed_end(a);
    lemma_trimmed_start_is_suffix(s);
    lemma_trimmed_end_is_prefix(a);
    if b.len() > 0 {
        assert(b[0] == a[0]);
    }
    assert(trimmed_start(b) == b);
}

// ---------------------------------------------------------------------------------------------
// Searching and splitting
// ---------------------------------------------------------------------------------------------
/// Whether `pattern` stands in `s` at position `at`.
pub open spec fn occurs_at(s: Seq<char>, pattern: Seq<char>, at: int) -> bool {
    &&& 0 <= at
    &&& at + pattern.len() <= s.len()
    &&& s.subrange(at, at + pattern.len()) == pattern
}

/// The first position at or after `from` where `pattern` stands in `s`.
pub open spec fn find_from(s: Seq<char>, pattern: Seq<char>, from: int) -> Option<int>
    decreases s.len() - from + 1,
{
    if from + pattern.len() > s.len() {
        None
    } else if occurs_at(s, pattern, from) {
        Some(from)
    } else {
        find_from(s, pattern, from + 1)
    }
}

/// The last position at or before `from` where `pattern` stands in `s`.
pub open spec fn rfind_from(s: Seq<char>, pattern: Seq<char>, from: int) -> Option<int>
    decreases from + 1,
{
    if from < 0 {
        None
    } else if occurs_at(s, pattern, from) {
        Some(from)
    } else {
        rfind_from(s, pattern, from - 1)
    }
}

pub open spec fn contains_text(s: Seq<char>, pattern: Seq<char>) -> bool {
    find_from(s, pattern, 0) is Some
}

pub open spec fn starts_with_text(s: Seq<char>, prefix: Seq<char>) -> bool {
    occurs_at(s, prefix, 0)
}

pub open spec fn ends_with_text(s: Seq<char>, suffix: Seq<char>) -> bool {
    occurs_at(s, suffix, s.len() - suffix.len())
}

/// `s` without `prefix`, where it starts with it.
pub open spec fn without_prefix(s: Seq<char>, prefix: Seq<char>) -> Option<Seq<char>> {
    if starts_with_text(s, prefix) {
        Some(s.skip(prefix.len() as int))
    } else {
        None
    }
}

/// The parts of `s` before and after the first `separator`.
pub open spec fn split_once_at(s: Seq<char>, separator: Seq<char>) -> Option<(
    Seq<char>,
    Seq<char>,
)> {
    match find_from(s, separator, 0) {
        Some(at) => Some((s.take(at), s.skip(at + separator.len()))),
        None => None,
    }
}

/// The parts of `s` before and after the last `separator`.
pub open spec fn rsplit_once_at(s: Seq<char>, separator: Seq<char>) -> Option<(
    Seq<char>,
    Seq<char>,
)> {
    match rfind_from(s, separator, s.len() - separator.len()) {
        Some(at) => Some((s.take(at), s.skip(at + separator.len()))),
        None => None,
    }
}

pub proof fn lemma_find_from(s: Seq<char>, pattern: Seq<char>, from: int)
    requires
        0 <= from,
    ensures
        match find_from(s, pattern, from) {
            Some(at) => from <= at && occurs_at(s, pattern, at) && forall|j: int|
                from <= j < at ==> !occurs_at(s, pattern, j),
            None => forall|j: int| from <= j ==> !occurs_at(s, pattern, j),
        },
    decreases s.len() - from + 1,
{
    if from + pattern.len() > s.len() {
    } else if occurs_at(s, pattern, from) {
    } else {
        lemma_find_from(s, pattern, from + 1);
    }
}

/// A text contains a pattern exactly when the pattern stands at some position of it.
pub proof fn lemma_contains_text(s: Seq<char>, pattern: Seq<char>)
    ensures
        contains_text(s, pattern) <==> exists|at: int| occurs_at(s, pattern, at),
{
    lemma_find_from(s, pattern, 0);
}

/// What stands between two texts parts them again, where its first character is not in the first.
pub proof fn lemma_split_once(a: Seq<char>, separator: Seq<char>, b: Seq<char>)
    requires
        separator.len() > 0,
        !a.contains(separator[0]),
    ensures
        split_once_at(a + separator + b, separator) == Some((a, b)),
{
    let whole = a + separator + b;
    let at = a.len() as int;
    assert(whole.subrange(at, at + separator.len()) =~= separator);
    assert(occurs_at(whole, separator, at));
    lemma_find_from(whole, separator, 0);
    let found = find_from(whole, separator, 0)->0;
    if found < at {
        assert(whole.subrange(found, found + separator.len())[0] == a[found]);
        assert(a.contains(a[found]));
    }
    assert(whole.take(at) =~= a);
    assert(whole.skip(at + separator.len()) =~= b);
}

/// A text is parted at the first place where the separator stands, and nothing is lost.
pub proof fn lemma_split_once_parts(s: Seq<char>, separator: Seq<char>)
    ensures
        match split_once_at(s, separator) {
            Some(p) => s == p.0 + separator + p.1 && forall|j: int|
                0 <= j < p.0.len() ==> !occurs_at(s, separator, j),
            None => forall|j: int| !occurs_at(s, separator, j),
        },
{
    lemma_find_from(s, separator, 0);
    match find_from(s, separator, 0) {
        Some(at) => {
            assert(s =~= s.take(at) + s.subrange(at, at + separator.len()) + s.skip(
                at + separator.len(),
            ));
        },
        None => {},
    }
}

proof fn lemma_rfind_from(s: Seq<char>, pattern: Seq<char>, from: int)
    ensures
        match rfind_from(s, pattern, from) {
            Some(at) => 0 <= at <= from && occurs_at(s, pattern, at) && forall|j: int|
                at < j <= from ==> !occurs_at(s, pattern, j),
            None => forall|j: int| j <= from ==> !occurs_at(s, pattern, j),
        },
    decreases from + 1,
{
    if from >= 0 && !occurs_at(s, pattern, from) {
        lemma_rfind_from(s, pattern, from - 1);
    }
}

/// From the right, a text is parted at the last place where the separator stands, and nothing is
/// lost.
pub proof fn lemma_rsplit_once_parts(s: Seq<char>, separator: Seq<char>)
    ensures
        match rsplit_once_at(s, separator) {
            Some(p) => s == p.0 + separator + p.1 && forall|j: int|
                p.0.len() < j ==> !occurs_at(s, separator, j),
            None => forall|j: int| !occurs_at(s, separator, j),
        },
{
    lemma_rfind_from(s, separator, s.len() - separator.len());
    match rfind_from(s, separator, s.len() - separator.len()) {
        Some(at) => {
            assert(s =~= s.take(at) + s.subrange(at, at + separator.len()) + s.skip(
                at + separator.len(),
            ));
        },
        None => {},
    }
}

/// A text starts with another exactly when it is that text with something behind it, which is then
/// what is left without it.
pub proof fn lemma_prefix(s: Seq<char>, prefix: Seq<char>)
    ensures
        starts_with_text(s, prefix) <==> (exists|rest: Seq<char>| s == prefix + rest),
        forall|rest: Seq<char>|
            #![trigger prefix + rest]
            without_prefix(prefix + rest, prefix) == Some(rest),
        match without_prefix(s, prefix) {
            Some(rest) => s == prefix + rest,
            None => !starts_with_text(s, prefix),
        },
{
    if starts_with_text(s, prefix) {
        assert(s =~= s.subrange(0, prefix.len() as int) + s.skip(prefix.len() as int));
        assert(s == prefix + s.skip(prefix.len() as int));
    }
    assert forall|rest: Seq<char>|
        #![trigger prefix + rest]
        without_prefix(prefix + rest, prefix) == Some(rest) && starts_with_text(
            prefix + rest,
            prefix,
        ) by {
        assert((prefix + rest).subrange(0, prefix.len() as int) =~= prefix);
        assert((prefix + rest).skip(prefix.len() as int) =~= rest);
    }
    if exists|rest: Seq<char>| s == prefix + rest {
        let rest = choose|rest: Seq<char>| s == prefix + rest;
        assert(starts_with_text(prefix + rest, prefix));
    }
}

fn matches_at(chars: &Vec<char>, pattern: &Vec<char>, at: usize) -> (r: bool)
    requires
        at + pattern@.len() <= chars@.len(),
    ensures
        r == occurs_at(chars@, pattern@, at as int),
{
    let mut j: usize = 0;
    while j < pattern.len()
        invariant
            j <= pattern@.len(),
            at + pattern@.len() <= chars.len(),
            forall|k: int| 0 <= k < j ==> chars@[at + k] == pattern@[k],
        decreases pattern.len() - j,
    {
        if chars[at + j] != pattern[j] {
            assert(chars@.subrange(at as int, at + pattern@.len())[j as int] != pattern@[j as int]);
            return false;
        }
        j += 1;
    }
    assert(chars@.subrange(at as int, at + pattern@.len()) =~= pattern@);
    true
}

/// The first position at or after `from` where `pattern` stands in `chars`.
pub fn find_chars(chars: &Vec<char>, pattern: &Vec<char>, from: usize) -> (r: Option<usize>)
    requires
        from <= chars@.len(),
    ensures
        match r {
            Some(at) => find_from(chars@, pattern@, from as int) == Some(at as int) && from <= at
                && at + pattern@.len() <= chars.len(),
            None => find_from(chars@, pattern@, from as int) is None,
        },
{
    let mut i: usize = from;
    while i <= chars.len() && pattern.len() <= chars.len() - i
        invariant
            from <= i <= chars@.len() + 1,
            find_from(chars@, pattern@, from as int) == find_from(chars@, pattern@, i as int),
        decreases chars.len() + 1 - i,
    {
        if matches_at(chars, pattern, i) {
            return Some(i);
        }
        if i == chars.len() {
            assert(find_from(chars@, pattern@, i + 1) is None);
            return None;
        }
        i += 1;
    }
    None
}

fn rfind_chars(chars: &Vec<char>, pattern: &Vec<char>) -> (r: Option<usize>)
    ensures
        match r {
            Some(at) => rfind_from(chars@, pattern@, chars@.len() - pattern@.len()) == Some(
                at as int,
            ) && at + pattern@.len() <= chars.len(),
            None => rfind_from(chars@, pattern@, chars@.len() - pattern@.len()) is None,
        },
{
    if pattern.len() > chars.len() {
        return None;
    }
    let mut i: usize = chars.len() - pattern.len();
    loop
        invariant
            i + pattern@.len() <= chars@.len(),
            rfind_from(chars@, pattern@, chars@.len() - pattern@.len()) == rfind_from(
                chars@,
                pattern@,
                i as int,
            ),
        decreases i,
    {
        if matches_at(chars, pattern, i) {
            return Some(i);
        }
        if i == 0 {
            assert(rfind_from(chars@, pattern@, -1) is None);
            return None;
        }
        i -= 1;
    }
}

pub fn contains(text: &str, pattern: &str) -> (r: bool)
    ensures
        r == contains_text(text@, pattern@),
{
    find_chars(&chars_of(text), &chars_of(pattern), 0).is_some()
}

pub fn starts_with(text: &str, prefix: &str) -> (r: bool)
    ensures
        r == starts_with_text(text@, prefix@),
{
    let chars = chars_of(text);
    let pattern = chars_of(prefix);
    pattern.len() <= chars.len() && matches_at(&chars, &pattern, 0)
}

pub fn ends_with(text: &str, suffix: &str) -> (r: bool)
    ensures
        r == ends_with_text(text@, suffix@),
{
    let chars = chars_of(text);
    let pattern = chars_of(suffix);
    if pattern.len() > chars.len() {
        return false;
    }
    matches_at(&chars, &pattern, chars.len() - pattern.len())
}

pub fn strip_prefix(text: &str, prefix: &str) -> (r: Option<String>)
    ensures
        match r {
            Some(rest) => without_prefix(text@, prefix@) == Some(rest@),
            None => without_prefix(text@, prefix@) is None,
        },
{
    let chars = chars_of(text);
    let pattern = chars_of(prefix);
    if pattern.len() <= chars.len() && matches_at(&chars, &pattern, 0) {
        assert(text@.skip(prefix@.len() as int) =~= chars@.subrange(
            prefix@.len() as int,
            chars@.len() as int,
        ));
        Some(text_of_range(&chars, pattern.len(), chars.len()))
    } else {
        None
    }
}

pub fn split_once(text: &str, separator: &str) -> (r: Option<(String, String)>)
    ensures
        match r {
            Some(parts) => split_once_at(text@, separator@) == Some((parts.0@, parts.1@)),
            None => split_once_at(text@, separator@) is None,
        },
{
    let chars = chars_of(text);
    let pattern = chars_of(separator);
    match find_chars(&chars, &pattern, 0) {
        Some(at) => {
            assert(text@.take(at as int) =~= chars@.subrange(0, at as int));
            assert(text@.skip(at + pattern@.len()) =~= chars@.subrange(
                at + pattern@.len(),
                chars@.len() as int,
            ));
            Some(
                (
                    text_of_range(&chars, 0, at),
                    text_of_range(&chars, at + pattern.len(), chars.len()),
                ),
            )
        },
        None => None,
    }
}

pub fn rsplit_once(text: &str, separator: &str) -> (r: Option<(String, String)>)
    ensures
        match r {
            Some(parts) => rsplit_once_at(text@, separator@) == Some((parts.0@, parts.1@)),
            None => rsplit_once_at(text@, separator@) is None,
        },
{
    let chars = chars_of(text);
    let pattern = chars_of(separator);
    match rfind_chars(&chars, &pattern) {
        Some(at) => {
            assert(text@.take(at as int) =~= chars@.subrange(0, at as int));
            assert(text@.skip(at + pattern@.len()) =~= chars@.subrange(
                at + pattern@.len(),
                chars@.len() as int,
            ));
            Some(
                (
                    text_of_range(&chars, 0, at),
                    text_of_range(&chars, at + pattern.len(), chars.len()),
                ),
            )
        },
        None => None,
    }
}

} // verus!
