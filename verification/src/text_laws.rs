//! What holds of texts that are searched, cut, trimmed and written, whatever
//! they are.
use vstd::prelude::*;

use crate::text;

verus! {

// ---- Searching --------------------------------------------------------------

/// A pattern stands at a position just where the text holds its characters, one
/// by one, from there on.
pub proof fn law_stands_character_by_character(s: Seq<char>, pat: Seq<char>, i: int)
    ensures
        text::occurs_at(s, pat, i) <==> 0 <= i && i + pat.len() <= s.len() && forall|k: int|
            0 <= k < pat.len() ==> s[i + k] == #[trigger] pat[k],
{
    if 0 <= i && i + pat.len() <= s.len() {
        let part = s.subrange(i, i + pat.len());
        if text::occurs_at(s, pat, i) {
            assert forall|k: int| 0 <= k < pat.len() implies s[i + k] == #[trigger] pat[k] by {
                assert(part[k] == s[i + k]);
            }
        }
        if forall|k: int| 0 <= k < pat.len() ==> s[i + k] == #[trigger] pat[k] {
            assert(part =~= pat);
        }
    }
}

/// A text holds every text that was put into it.
pub proof fn law_holds_what_was_put_in(a: Seq<char>, pat: Seq<char>, b: Seq<char>)
    ensures
        text::has(a + pat + b, pat),
{
    assert((a + pat + b).subrange(a.len() as int, (a.len() + pat.len()) as int) =~= pat);
    assert(text::occurs_at(a + pat + b, pat, a.len() as int));
}

/// A text holds nothing else: it is what stands before the pattern, the
/// pattern, and what stands behind it.
pub proof fn law_holds_nothing_else(s: Seq<char>, pat: Seq<char>)
    requires
        text::has(s, pat),
    ensures
        exists|i: int|
            0 <= i <= s.len() - pat.len() && s == #[trigger] s.take(i) + pat + s.skip(
                i + pat.len(),
            ),
{
    let i = choose|i: int| text::occurs_at(s, pat, i);
    assert(s =~= s.take(i) + s.subrange(i, i + pat.len()) + s.skip(i + pat.len()));
    assert(s == s.take(i) + pat + s.skip(i + pat.len()));
}

/// A text begins with a pattern just where it is the pattern and a rest, and
/// ends with one just where it is a rest and the pattern.
pub proof fn law_begins_and_ends(s: Seq<char>, pat: Seq<char>, rest: Seq<char>)
    ensures
        text::begins(pat + rest, pat),
        text::ends(rest + pat, pat),
        text::begins(s, pat) ==> s == pat + s.skip(pat.len() as int) && pat.len() <= s.len(),
        text::ends(s, pat) ==> s == s.take(s.len() - pat.len()) + pat && pat.len() <= s.len(),
{
    assert((pat + rest).subrange(0, pat.len() as int) =~= pat);
    assert((rest + pat).subrange(rest.len() as int, (rest.len() + pat.len()) as int) =~= pat);
    if text::begins(s, pat) {
        assert(s =~= s.subrange(0, pat.len() as int) + s.skip(pat.len() as int));
    }
    if text::ends(s, pat) {
        let n = s.len() - pat.len();
        assert(s =~= s.take(n) + s.subrange(n, n + pat.len()));
    }
}

// ---- Splitting and joining --------------------------------------------------

/// What joining gives: nothing for no part, the part itself for one, and one
/// more part behind a separator for one more.
pub proof fn law_joining(parts: Seq<Seq<char>>, part: Seq<char>, sep: Seq<char>)
    ensures
        text::joined(Seq::empty(), sep) == Seq::<char>::empty(),
        text::joined(seq![part], sep) == part,
        parts.len() > 0 ==> text::joined(parts.push(part), sep) == text::joined(parts, sep) + sep
            + part,
{
    assert(parts.push(part).drop_last() =~= parts);
}

/// The same from the front.
pub proof fn lemma_joined_front(parts: Seq<Seq<char>>, sep: Seq<char>)
    requires
        parts.len() >= 2,
    ensures
        text::joined(parts, sep) == parts[0] + sep + text::joined(parts.drop_first(), sep),
    decreases parts.len(),
{
    if parts.len() == 2 {
        reveal_with_fuel(text::joined, 2);
        assert(parts.drop_last() =~= seq![parts[0]]);
        assert(parts.drop_first() =~= seq![parts[1]]);
    } else {
        lemma_joined_front(parts.drop_last(), sep);
        assert(parts.drop_last().drop_first() =~= parts.drop_first().drop_last());
        assert(text::joined(parts, sep) =~= parts[0] + sep + text::joined(
            parts.drop_first(),
            sep,
        ));
    }
}

/// Cutting a text at a separator loses nothing: the pieces, joined by it, are
/// the text. No piece holds the separator, and each is cut off at the first
/// place where the separator stands.
pub proof fn law_pieces(s: Seq<char>, sep: Seq<char>)
    requires
        sep.len() > 0,
    ensures
        text::pieces(s, sep).len() > 0,
        text::joined(text::pieces(s, sep), sep) == s,
        forall|k: int|
            0 <= k < text::pieces(s, sep).len() ==> !text::has(
                #[trigger] text::pieces(s, sep)[k],
                sep,
            ),
        forall|k: int, j: int|
            0 <= k < text::pieces(s, sep).len() - 1 && 0 <= j < text::pieces(s, sep)[k].len()
                ==> !#[trigger] text::occurs_at(text::pieces(s, sep)[k] + sep, sep, j),
{
    lemma_joined_pieces(s, sep, 0);
    lemma_pieces_from(s, sep, 0);
    assert(s.subrange(0, s.len() as int) =~= s);
    assert forall|k: int, j: int|
        0 <= k < text::pieces(s, sep).len() - 1 && 0 <= j < text::pieces(
            s,
            sep,
        )[k].len() implies !#[trigger] text::occurs_at(text::pieces(s, sep)[k] + sep, sep, j) by {
        assert(cut_first(text::pieces(s, sep)[k], sep));
    }
}

/// A piece is cut off where the separator stands first.
spec fn cut_first(p: Seq<char>, sep: Seq<char>) -> bool {
    forall|j: int| 0 <= j < p.len() ==> !#[trigger] text::occurs_at(p + sep, sep, j)
}

proof fn lemma_joined_pieces(s: Seq<char>, sep: Seq<char>, from: int)
    requires
        sep.len() > 0,
        0 <= from <= s.len(),
    ensures
        text::pieces_from(s, sep, from).len() > 0,
        text::joined(text::pieces_from(s, sep, from), sep) == s.subrange(from, s.len() as int),
    decreases s.len() - from,
{
    let ps = text::pieces_from(s, sep, from);
    text::lemma_find_from(s, sep, from);
    if let Some(i) = text::find_from(s, sep, from) {
        let head = s.subrange(from, i);
        let rest = text::pieces_from(s, sep, i + sep.len());
        lemma_joined_pieces(s, sep, i + sep.len());
        assert(ps == seq![head] + rest);
        assert(ps.drop_first() =~= rest);
        assert(ps[0] == head);
        lemma_joined_front(ps, sep);
        assert(s.subrange(i, i + sep.len()) == sep);
        assert(head + s.subrange(i, i + sep.len()) + s.subrange(i + sep.len(), s.len() as int)
            =~= s.subrange(from, s.len() as int));
    }
}

proof fn lemma_pieces_from(s: Seq<char>, sep: Seq<char>, from: int)
    requires
        sep.len() > 0,
        0 <= from <= s.len(),
    ensures
        ({
            let ps = text::pieces_from(s, sep, from);
            &&& forall|k: int| 0 <= k < ps.len() ==> !text::has(#[trigger] ps[k], sep)
            &&& forall|k: int| 0 <= k < ps.len() - 1 ==> cut_first(#[trigger] ps[k], sep)
        }),
    decreases s.len() - from,
{
    let ps = text::pieces_from(s, sep, from);
    text::lemma_find_from(s, sep, from);
    if let Some(i) = text::find_from(s, sep, from) {
        let head = s.subrange(from, i);
        let rest = text::pieces_from(s, sep, i + sep.len());
        lemma_pieces_from(s, sep, i + sep.len());
        assert(ps == seq![head] + rest);
        lemma_no_separator(s, sep, from, i);
        lemma_cut_first(s, sep, from, i);
        assert forall|k: int| 0 <= k < ps.len() implies !text::has(#[trigger] ps[k], sep) by {
            if k > 0 {
                assert(ps[k] == rest[k - 1]);
            }
        }
        assert forall|k: int| 0 <= k < ps.len() - 1 implies cut_first(#[trigger] ps[k], sep) by {
            if k > 0 {
                assert(ps[k] == rest[k - 1]);
            }
        }
    } else {
        lemma_no_separator(s, sep, from, s.len() as int);
    }
}

proof fn lemma_cut_first(s: Seq<char>, sep: Seq<char>, from: int, to: int)
    requires
        0 <= from <= to,
        text::occurs_at(s, sep, to),
        forall|j: int| from <= j < to ==> !#[trigger] text::occurs_at(s, sep, j),
    ensures
        cut_first(s.subrange(from, to), sep),
{
    let head = s.subrange(from, to);
    assert forall|j: int| 0 <= j < head.len() implies !#[trigger] text::occurs_at(
        head + sep,
        sep,
        j,
    ) by {
        assert(!text::occurs_at(s, sep, from + j));
        lemma_occurs_within(s, sep, from, to, j);
    }
}

/// Where a pattern stands in a stretch of a text that ends in it, it stands in
/// the text.
proof fn lemma_occurs_within(s: Seq<char>, sep: Seq<char>, from: int, to: int, j: int)
    requires
        0 <= from <= to,
        text::occurs_at(s, sep, to),
        0 <= j < to - from,
    ensures
        text::occurs_at(s.subrange(from, to) + sep, sep, j) ==> text::occurs_at(s, sep, from + j),
{
    let both = s.subrange(from, to) + sep;
    let n = sep.len() as int;
    let whole = s.subrange(from, to + n);
    assert(whole =~= s.subrange(from, to) + s.subrange(to, to + n));
    assert(whole == both);
    assert(whole.subrange(j, j + n) =~= s.subrange(from + j, from + j + n));
}

proof fn lemma_no_separator(s: Seq<char>, sep: Seq<char>, from: int, to: int)
    requires
        sep.len() > 0,
        0 <= from <= to <= s.len(),
        forall|j: int| from <= j < to ==> !#[trigger] text::occurs_at(s, sep, j),
    ensures
        !text::has(s.subrange(from, to), sep),
{
    let part = s.subrange(from, to);
    if text::has(part, sep) {
        let j = choose|j: int| text::occurs_at(part, sep, j);
        assert(part.subrange(j, j + sep.len()) =~= s.subrange(from + j, from + j + sep.len()));
        assert(text::occurs_at(s, sep, from + j));
    }
}

/// Trimming drops white space at either end and nothing else: what is left is a
/// stretch of the text that neither begins nor ends with white space, and all
/// that stands outside of it is white space.
pub proof fn law_trimming(s: Seq<char>)
    ensures
        exists|a: int, b: int|
            0 <= a <= b <= s.len() && text::trimmed(s) == #[trigger] s.subrange(a, b) && (
            forall|i: int|
                0 <= i < s.len() && (i < a || b <= i) ==> text::white(#[trigger] s[i])),
        text::trimmed(s).len() > 0 ==> !text::white(text::trimmed(s)[0]) && !text::white(
            text::trimmed(s).last(),
        ),
{
    let a = lemma_trimmed_start(s);
    let t = s.skip(a);
    let n = lemma_trimmed_end(t);
    assert(t.take(n) =~= s.subrange(a, a + n));
    assert forall|i: int| 0 <= i < s.len() && (i < a || a + n <= i) implies text::white(
        #[trigger] s[i],
    ) by {
        if i >= a {
            assert(t[i - a] == s[i]);
        }
    }
    if n > 0 {
        assert(t.take(n)[0] == t[0]);
    }
}

proof fn lemma_trimmed_start(s: Seq<char>) -> (a: int)
    ensures
        0 <= a <= s.len(),
        text::trimmed_start(s) == s.skip(a),
        forall|i: int| 0 <= i < a ==> text::white(#[trigger] s[i]),
        a < s.len() ==> !text::white(s[a]),
    decreases s.len(),
{
    if s.len() > 0 && text::white(s[0]) {
        let b = lemma_trimmed_start(s.drop_first());
        assert(s.drop_first().skip(b) =~= s.skip(b + 1));
        assert forall|i: int| 0 <= i < b + 1 implies text::white(#[trigger] s[i]) by {
            if i > 0 {
                assert(s.drop_first()[i - 1] == s[i]);
            }
        }
        b + 1
    } else {
        assert(s.skip(0) =~= s);
        0
    }
}

proof fn lemma_trimmed_end(s: Seq<char>) -> (n: int)
    ensures
        0 <= n <= s.len(),
        text::trimmed_end(s) == s.take(n),
        forall|i: int| n <= i < s.len() ==> text::white(#[trigger] s[i]),
        n > 0 ==> !text::white(s[n - 1]),
    decreases s.len(),
{
    if s.len() > 0 && text::white(s.last()) {
        let n = lemma_trimmed_end(s.drop_last());
        assert(s.drop_last().take(n) =~= s.take(n));
        assert forall|i: int| n <= i < s.len() implies text::white(#[trigger] s[i]) by {
            if i < s.len() - 1 {
                assert(s.drop_last()[i] == s[i]);
            }
        }
        n
    } else {
        assert(s.take(s.len() as int) =~= s);
        s.len() as int
    }
}

/// A text without white space is one word, and no text has none.
pub proof fn law_one_word(s: Seq<char>)
    requires
        forall|i: int| 0 <= i < s.len() ==> !text::white(#[trigger] s[i]),
    ensures
        s.len() > 0 ==> text::words_of(s) == seq![s],
        s.len() == 0 ==> text::words_of(s).len() == 0,
{
    if s.len() > 0 {
        lemma_word_len_whole(s);
        assert(s.take(s.len() as int) =~= s);
        let rest = s.skip(s.len() as int);
        assert(text::words_of(rest) =~= Seq::empty());
        assert(text::words_of(s) =~= seq![s]);
    }
}

proof fn lemma_word_len_whole(s: Seq<char>)
    requires
        forall|i: int| 0 <= i < s.len() ==> !text::white(#[trigger] s[i]),
    ensures
        text::word_len(s) == s.len(),
    decreases s.len(),
{
    if s.len() > 0 {
        let t = s.drop_first();
        assert forall|i: int| 0 <= i < t.len() implies !text::white(#[trigger] t[i]) by {
            assert(t[i] == s[i + 1]);
        }
        lemma_word_len_whole(t);
    }
}

/// White space parts words: the words of a text with white space in it are
/// those before it and those behind it.
pub proof fn law_white_space_parts_words(a: Seq<char>, c: char, b: Seq<char>)
    requires
        text::white(c),
    ensures
        text::words_of(a.push(c) + b) == text::words_of(a) + text::words_of(b),
    decreases a.len(),
{
    let s = a.push(c) + b;
    if a.len() == 0 {
        assert(s[0] == c);
        assert(s.drop_first() =~= b);
        lemma_words_drop_white(s);
        assert(text::words_of(a) + text::words_of(b) =~= text::words_of(b));
    } else if text::white(a[0]) {
        assert(s[0] == a[0]);
        assert(s.drop_first() =~= a.drop_first().push(c) + b);
        lemma_words_drop_white(s);
        lemma_words_drop_white(a);
        law_white_space_parts_words(a.drop_first(), c, b);
    } else {
        assert(s[0] == a[0]);
        lemma_word_len_stops(a, c, b);
        text::lemma_word_len(a);
        let n = text::word_len(a);
        assert(s.take(n) =~= a.take(n));
        assert(s.skip(n) =~= a.skip(n).push(c) + b);
        law_white_space_parts_words(a.skip(n), c, b);
        assert(text::words_of(s) =~= text::words_of(a) + text::words_of(b));
    }
}

proof fn lemma_words_drop_white(s: Seq<char>)
    requires
        s.len() > 0,
        text::white(s[0]),
    ensures
        text::words_of(s) == text::words_of(s.drop_first()),
{
    assert(text::trimmed_start(s) == text::trimmed_start(s.drop_first()));
}

proof fn lemma_word_len_stops(a: Seq<char>, c: char, b: Seq<char>)
    requires
        text::white(c),
    ensures
        text::word_len(a.push(c) + b) == text::word_len(a),
    decreases a.len(),
{
    let s = a.push(c) + b;
    if a.len() == 0 {
        assert(s[0] == c);
    } else {
        assert(s[0] == a[0]);
        assert(s.drop_first() =~= a.drop_first().push(c) + b);
        if !text::white(a[0]) {
            lemma_word_len_stops(a.drop_first(), c, b);
        }
    }
}

// ---- Order and numbers ------------------------------------------------------

/// Of two texts the one comes first that has the lesser character where they
/// first differ, or that the other one begins with.
pub proof fn law_order_of_texts(a: Seq<char>, b: Seq<char>)
    ensures
        text::text_le(a, b) <==> (a.len() <= b.len() && a == b.take(a.len() as int)) || exists|
            i: int,
        |
            0 <= i < a.len() && i < b.len() && #[trigger] a[i] < b[i] && forall|j: int|
                0 <= j < i ==> #[trigger] a[j] == b[j],
    decreases a.len(),
{
    let prefix = a.len() <= b.len() && a == b.take(a.len() as int);
    if a.len() == 0 {
        assert(a =~= b.take(0));
    } else if b.len() == 0 {
    } else if a[0] != b[0] {
        if prefix {
            assert(b.take(a.len() as int)[0] == b[0]);
        }
        if a[0] < b[0] {
            assert(forall|j: int| 0 <= j < 0 ==> #[trigger] a[j] == b[j]);
        }
    } else {
        let (x, y) = (a.drop_first(), b.drop_first());
        law_order_of_texts(x, y);
        if x.len() <= y.len() && x == y.take(x.len() as int) {
            assert forall|k: int| 0 <= k < a.len() implies a[k] == b.take(a.len() as int)[k] by {
                if k > 0 {
                    assert(x[k - 1] == y.take(x.len() as int)[k - 1]);
                }
            }
            assert(a =~= b.take(a.len() as int));
        }
        if prefix {
            assert(x =~= y.take(x.len() as int)) by {
                assert forall|k: int| 0 <= k < x.len() implies x[k] == y[k] by {
                    assert(a[k + 1] == b.take(a.len() as int)[k + 1]);
                }
            }
        }
        if exists|i: int|
            0 <= i < x.len() && i < y.len() && #[trigger] x[i] < y[i] && forall|j: int|
                0 <= j < i ==> #[trigger] x[j] == y[j] {
            let i = choose|i: int|
                0 <= i < x.len() && i < y.len() && #[trigger] x[i] < y[i] && forall|j: int|
                    0 <= j < i ==> #[trigger] x[j] == y[j];
            assert(a[i + 1] < b[i + 1]);
            assert forall|j: int| 0 <= j < i + 1 implies #[trigger] a[j] == b[j] by {
                if j > 0 {
                    assert(x[j - 1] == y[j - 1]);
                }
            }
        }
        if exists|i: int|
            0 <= i < a.len() && i < b.len() && #[trigger] a[i] < b[i] && forall|j: int|
                0 <= j < i ==> #[trigger] a[j] == b[j] {
            let i = choose|i: int|
                0 <= i < a.len() && i < b.len() && #[trigger] a[i] < b[i] && forall|j: int|
                    0 <= j < i ==> #[trigger] a[j] == b[j];
            assert(x[i - 1] < y[i - 1]);
            assert forall|j: int| 0 <= j < i - 1 implies #[trigger] x[j] == y[j] by {
                assert(a[j + 1] == b[j + 1]);
            }
        }
    }
}

/// The number that decimal digits stand for.
pub open spec fn value_of(digits: Seq<char>) -> int
    decreases digits.len(),
{
    if digits.len() == 0 {
        0
    } else {
        value_of(digits.drop_last()) * 10 + (digits.last() as int - '0' as int)
    }
}

/// A number is written in digits that stand for it, without a leading zero.
pub proof fn law_decimal(n: nat)
    ensures
        value_of(text::decimal_of(n)) == n,
        text::decimal_of(n).len() > 0,
        forall|i: int|
            0 <= i < text::decimal_of(n).len() ==> '0' <= #[trigger] text::decimal_of(n)[i] <= '9',
        n > 0 ==> text::decimal_of(n)[0] != '0',
        n < 10 ==> text::decimal_of(n).len() == 1,
    decreases n,
{
    let d = text::decimal_of(n);
    if n < 10 {
        reveal_with_fuel(value_of, 2);
        assert(d.drop_last() =~= Seq::empty());
    } else {
        let init = text::decimal_of(n / 10);
        law_decimal(n / 10);
        assert(d.drop_last() =~= init);
        assert forall|i: int| 0 <= i < d.len() implies '0' <= #[trigger] d[i] <= '9' by {
            if i < init.len() {
                assert(d[i] == init[i]);
            }
        }
        assert(d[0] == init[0]);
    }
}

} // verus!
