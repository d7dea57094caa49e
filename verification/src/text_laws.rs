//! What texts, lines and words come to.
use vstd::prelude::*;
#[allow(unused_imports)]
use crate::git_status::{commit_in, number_or_zero, CommitLine};
#[allow(unused_imports)]
use crate::lines::{
    byte_len, chars_within, filled_lines, joined, lemma_chars_within, lemma_position, position,
    space_position, split_char, without_leading, words_of,
};
#[allow(unused_imports)]
use crate::number::{decimal, lemma_decimal_text};
#[allow(unused_imports)]
use crate::text::{
    is_digit, is_space, lemma_find_from, lemma_split_once, lemma_split_once_parts,
    lemma_trimmed_start_is_suffix, occurs_at, trimmed, trimmed_end, trimmed_start, utf8_width,
};

verus! {

// ---------------------------------------------------------------------------------------------
// Whitespace
// ---------------------------------------------------------------------------------------------
/// Whether a text is whitespace only.
pub open spec fn is_blank(s: Seq<char>) -> bool {
    forall|i: int| 0 <= i < s.len() ==> is_space(#[trigger] s[i])
}

/// Whether there is no whitespace at the ends of a text.
pub open spec fn is_tight(s: Seq<char>) -> bool {
    s.len() > 0 ==> !is_space(s[0]) && !is_space(s.last())
}

proof fn lemma_start_off(left: Seq<char>, s: Seq<char>)
    requires
        is_blank(left),
        s.len() > 0 ==> !is_space(s[0]),
    ensures
        trimmed_start(left + s) == s,
    decreases left.len(),
{
    if left.len() == 0 {
        assert(left + s =~= s);
    } else {
        assert((left + s)[0] == left[0]);
        assert((left + s).drop_first() =~= left.drop_first() + s);
        assert(is_blank(left.drop_first())) by {
            assert forall|i: int| 0 <= i < left.drop_first().len() implies is_space(
                #[trigger] left.drop_first()[i],
            ) by {
                assert(left[i + 1] == left.drop_first()[i]);
            }
        }
        lemma_start_off(left.drop_first(), s);
    }
}

proof fn lemma_end_off(s: Seq<char>, right: Seq<char>)
    requires
        is_blank(right),
        s.len() > 0 ==> !is_space(s.last()),
    ensures
        trimmed_end(s + right) == s,
    decreases right.len(),
{
    if right.len() == 0 {
        assert(s + right =~= s);
    } else {
        assert((s + right).last() == right.last());
        assert((s + right).drop_last() =~= s + right.drop_last());
        assert(is_blank(right.drop_last())) by {
            assert forall|i: int| 0 <= i < right.drop_last().len() implies is_space(
                #[trigger] right.drop_last()[i],
            ) by {
                assert(right[i] == right.drop_last()[i]);
            }
        }
        lemma_end_off(s, right.drop_last());
    }
}

/// Trimming takes off the whitespace at both ends, and that alone.
pub proof fn lemma_trimmed_between(left: Seq<char>, s: Seq<char>, right: Seq<char>)
    requires
        is_blank(left),
        is_tight(s),
        is_blank(right),
    ensures
        trimmed(left + s + right) == s,
{
    if s.len() > 0 {
        assert((s + right)[0] == s[0]);
        lemma_start_off(left, s + right);
        assert(left + s + right =~= left + (s + right));
        lemma_end_off(s, right);
    } else {
        let all = left + s + right;
        assert(all =~= left + right);
        assert(is_blank(all)) by {
            assert forall|i: int| 0 <= i < all.len() implies is_space(#[trigger] all[i]) by {
                if i < left.len() {
                    assert(all[i] == left[i]);
                } else {
                    assert(all[i] == right[i - left.len()]);
                }
            }
        }
        lemma_start_off(all, s);
        assert(all + s =~= all);
        lemma_end_off(s, s);
        assert(s + s =~= s);
    }
}

/// A text whose words are nothing but whitespace has nothing left.
pub proof fn lemma_trimmed_blank(s: Seq<char>)
    ensures
        trimmed(s).len() == 0 <==> is_blank(s),
        is_tight(s) ==> trimmed(s) == s,
{
    if is_blank(s) {
        lemma_trimmed_between(s, seq![], seq![]);
        assert(s + seq![] + seq![] =~= s);
    }
    if trimmed(s).len() == 0 {
        let a = trimmed_start(s);
        lemma_trimmed_start_is_suffix(s);
        if a.len() > 0 {
            lemma_tight_first(a);
        } else {
            lemma_all_off(s);
        }
    }
    if is_tight(s) {
        lemma_trimmed_between(seq![], s, seq![]);
        assert(seq![] + s + seq![] =~= s);
    }
}

proof fn lemma_tight_first(a: Seq<char>)
    requires
        a.len() > 0,
        !is_space(a[0]),
    ensures
        trimmed_end(a).len() > 0,
    decreases a.len(),
{
    if a.len() > 1 && is_space(a.last()) {
        lemma_tight_first(a.drop_last());
    }
}

proof fn lemma_all_off(s: Seq<char>)
    requires
        trimmed_start(s).len() == 0,
    ensures
        is_blank(s),
    decreases s.len(),
{
    if s.len() > 0 {
        assert(is_space(s[0]));
        lemma_all_off(s.drop_first());
        assert forall|i: int| 0 <= i < s.len() implies is_space(#[trigger] s[i]) by {
            if i > 0 {
                assert(s.drop_first()[i - 1] == s[i]);
            }
        }
    }
}

// ---------------------------------------------------------------------------------------------
// Words
// ---------------------------------------------------------------------------------------------
/// Whether a text is a word: not empty, and without whitespace.
pub open spec fn is_word(s: Seq<char>) -> bool {
    s.len() > 0 && forall|i: int| 0 <= i < s.len() ==> !is_space(#[trigger] s[i])
}

proof fn lemma_word_ends(word: Seq<char>, rest: Seq<char>)
    requires
        forall|i: int| 0 <= i < word.len() ==> !is_space(#[trigger] word[i]),
        rest.len() == 0 || is_space(rest[0]),
    ensures
        space_position(word + rest) == word.len(),
    decreases word.len(),
{
    if word.len() == 0 {
        assert(word + rest =~= rest);
    } else {
        assert((word + rest)[0] == word[0]);
        assert((word + rest).drop_first() =~= word.drop_first() + rest);
        assert forall|i: int| 0 <= i < word.drop_first().len() implies !is_space(
            #[trigger] word.drop_first()[i],
        ) by {
            assert(word[i + 1] == word.drop_first()[i]);
        }
        lemma_word_ends(word.drop_first(), rest);
    }
}

/// The first word of a text stands before its first whitespace, whatever whitespace leads; the
/// other words are those of the rest. Whitespace alone has no words.
pub proof fn lemma_words(gap: Seq<char>, word: Seq<char>, rest: Seq<char>)
    requires
        is_blank(gap),
    ensures
        words_of(gap) == Seq::<Seq<char>>::empty(),
        is_word(word) && (rest.len() == 0 || is_space(rest[0])) ==> words_of(gap + word + rest)
            == seq![word] + words_of(rest),
{
    lemma_start_off(gap, seq![]);
    assert(gap + seq![] =~= gap);
    if is_word(word) && (rest.len() == 0 || is_space(rest[0])) {
        let t = word + rest;
        assert(t[0] == word[0]);
        lemma_start_off(gap, t);
        assert(gap + word + rest =~= gap + t);
        lemma_word_ends(word, rest);
        assert(t.take(word.len() as int) =~= word);
        assert(t.skip(word.len() as int) =~= rest);
    }
}

// ---------------------------------------------------------------------------------------------
// Parts
// ---------------------------------------------------------------------------------------------
/// A list joined with another is the one, the separator, then the other.
pub proof fn lemma_joined(a: Seq<Seq<char>>, b: Seq<Seq<char>>, separator: Seq<char>)
    requires
        a.len() > 0,
        b.len() > 0,
    ensures
        joined(a + b, separator) == joined(a, separator) + separator + joined(b, separator),
        joined(seq![a[0]], separator) == a[0],
    decreases b.len(),
{
    assert((a + b).drop_last() =~= a + b.drop_last());
    assert((a + b).last() == b.last());
    if b.len() == 1 {
        assert(a + b.drop_last() =~= a);
    } else {
        lemma_joined(a, b.drop_last(), separator);
        assert(joined(a + b, separator) =~= joined(a, separator) + separator + joined(
            b,
            separator,
        ));
    }
}

/// The parts of a text between separators do not hold it, and joined by it they are the text.
pub proof fn lemma_split_char(s: Seq<char>, c: char)
    ensures
        split_char(s, c).len() > 0,
        forall|i: int| 0 <= i < split_char(s, c).len() ==> !(#[trigger] split_char(s, c)[i]).contains(c),
        joined(split_char(s, c), seq![c]) == s,
    decreases s.len(),
{
    let at = position(s, c) as int;
    lemma_position(s, c);
    if at < s.len() {
        let rest = s.skip(at + 1);
        lemma_split_char(rest, c);
        let head = seq![s.take(at)];
        lemma_joined(head, split_char(rest, c), seq![c]);
        assert(joined(head, seq![c]) == s.take(at));
        assert(s.take(at) + seq![c] + rest =~= s);
        assert forall|i: int| 0 <= i < split_char(s, c).len() implies !(#[trigger] split_char(
            s,
            c,
        )[i]).contains(c) by {
            if i == 0 {
                assert(split_char(s, c)[0] == s.take(at));
                assert forall|j: int| 0 <= j < at implies s.take(at)[j] != c by {
                    assert(s.take(at)[j] == s[j]);
                }
            } else {
                assert(split_char(s, c)[i] == split_char(rest, c)[i - 1]);
            }
        }
    } else {
        assert(split_char(s, c)[0] == s);
    }
}

/// A text without a leading character ends as before, does not start with it, and nothing else was
/// taken off.
pub proof fn lemma_without_leading(s: Seq<char>, c: char)
    ensures
        without_leading(s, c).len() > 0 ==> without_leading(s, c)[0] != c,
        without_leading(s, c).len() <= s.len(),
        without_leading(s, c) == s.skip(s.len() - without_leading(s, c).len()),
        forall|i: int| 0 <= i < s.len() - without_leading(s, c).len() ==> s[i] == c,
    decreases s.len(),
{
    if s.len() > 0 && s[0] == c {
        let rest = s.drop_first();
        lemma_without_leading(rest, c);
        let kept = without_leading(s, c).len();
        assert(rest.skip(rest.len() - kept) =~= s.skip(s.len() - kept));
        assert forall|i: int| 0 <= i < s.len() - kept implies s[i] == c by {
            if i > 0 {
                assert(rest[i - 1] == s[i]);
            }
        }
    } else {
        assert(s.skip(0) =~= s);
    }
}

/// As many characters are kept as fit into a number of bytes: one more would not.
pub proof fn lemma_as_many_as_fit(s: Seq<char>, n: int)
    requires
        0 <= n,
    ensures
        chars_within(s, n) <= s.len(),
        byte_len(s.take(chars_within(s, n) as int)) <= n,
        chars_within(s, n) < s.len() ==> byte_len(s.take(chars_within(s, n) as int + 1)) > n,
    decreases s.len(),
{
    lemma_chars_within(s, n);
    if s.len() > 0 {
        let w = utf8_width(s[0]);
        if w > n {
            assert(s.take(1).drop_first() =~= Seq::<char>::empty());
            assert(byte_len(s.take(1).drop_first()) == 0);
            assert(byte_len(s.take(1)) == w);
        } else {
            let rest = s.drop_first();
            lemma_as_many_as_fit(rest, n - w);
            let k = chars_within(rest, n - w) as int;
            if k < rest.len() {
                assert(s.take(k + 2).drop_first() =~= rest.take(k + 1));
                assert(s.take(k + 2)[0] == s[0]);
            }
        }
    }
}

// ---------------------------------------------------------------------------------------------
// Lists of lines
// ---------------------------------------------------------------------------------------------
pub open spec fn is_filled_text() -> spec_fn(Seq<char>) -> bool {
    |s: Seq<char>| s.len() > 0
}

pub open spec fn all_trimmed(all: Seq<Seq<char>>) -> Seq<Seq<char>> {
    Seq::new(all.len(), |i: int| trimmed(all[i]))
}

/// The filled lines are all lines, trimmed, without the empty ones.
pub proof fn lemma_filled_lines(all: Seq<Seq<char>>)
    ensures
        filled_lines(all) == all_trimmed(all).filter(is_filled_text()),
    decreases all.len(),
{
    reveal(Seq::filter);
    if all.len() > 0 {
        lemma_filled_lines(all.drop_last());
        assert(all_trimmed(all).drop_last() =~= all_trimmed(all.drop_last()));
        assert(all_trimmed(all).last() == trimmed(all.last()));
    } else {
        assert(all_trimmed(all) =~= Seq::<Seq<char>>::empty());
    }
}

/// A line of a log shows a commit by its hash, up to a tab, and its summary behind it; one without
/// a tab is a summary.
pub proof fn lemma_commit_shown(hash: Seq<char>, summary: Seq<char>)
    requires
        !hash.contains('\t'),
        is_tight(hash),
        is_tight(summary),
    ensures
        commit_in(hash + "\t"@ + summary) == (CommitLine { hash, summary }),
        commit_in(hash) == (CommitLine { hash: "commit"@, summary: hash }),
{
    reveal_strlit("\t");
    lemma_trimmed_blank(hash);
    lemma_trimmed_blank(summary);
    assert forall|i: int| !occurs_at(hash, "\t"@, i) by {
        if occurs_at(hash, "\t"@, i) {
            assert(hash.subrange(i, i + 1)[0] == hash[i]);
        }
    }
    lemma_split_once(hash, "\t"@, summary);
    lemma_split_once_parts(hash, "\t"@);
    lemma_find_from(hash, "\t"@, 0);
}

/// A count that stands alone on its line is read as it stands.
pub proof fn lemma_number_read(n: nat, right: Seq<char>)
    requires
        n <= usize::MAX,
        is_blank(right),
    ensures
        number_or_zero(decimal(n) + right) == n,
{
    lemma_decimal_text(n, n);
    lemma_digit_is_no_space(decimal(n)[0]);
    lemma_digit_is_no_space(decimal(n).last());
    lemma_trimmed_between(seq![], decimal(n), right);
    assert(seq![] + decimal(n) + right =~= decimal(n) + right);
}

proof fn lemma_digit_is_no_space(c: char)
    requires
        is_digit(c),
    ensures
        !is_space(c),
{
}

} // verus!
