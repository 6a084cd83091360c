//! What text handling promises, in terms of the characters that go in and come
//! out.

use crate::text;
use crate::text::{is_white_space, Trimming};
use vstd::prelude::*;
use vstd::utf8::encode_utf8;

verus! {

// ---------------------------------------------------------------------------
// Trimming
// ---------------------------------------------------------------------------
proof fn lemma_strip_start_parts(s: Seq<char>, how: Trimming) -> (from: int)
    ensures
        0 <= from <= s.len(),
        text::strip_start(s, how) == s.skip(from),
        forall|k: int| 0 <= k < from ==> how.removes(#[trigger] s[k]),
    decreases s.len(),
{
    if s.len() > 0 && how.removes(s[0]) {
        let rest = lemma_strip_start_parts(s.drop_first(), how);
        assert(s.drop_first().skip(rest) == s.skip(rest + 1));
        assert forall|k: int| 0 <= k < rest + 1 implies how.removes(#[trigger] s[k]) by {
            if k > 0 {
                assert(s[k] == s.drop_first()[k - 1]);
            }
        }
        rest + 1
    } else {
        assert(s.skip(0) == s);
        0
    }
}

proof fn lemma_strip_end_parts(s: Seq<char>, how: Trimming) -> (to: int)
    ensures
        0 <= to <= s.len(),
        text::strip_end(s, how) == s.take(to),
        forall|k: int| to <= k < s.len() ==> how.removes(#[trigger] s[k]),
    decreases s.len(),
{
    if s.len() > 0 && how.removes(s.last()) {
        let to = lemma_strip_end_parts(s.drop_last(), how);
        assert(s.drop_last().take(to) == s.take(to));
        assert forall|k: int| to <= k < s.len() implies how.removes(#[trigger] s[k]) by {
            if k < s.len() - 1 {
                assert(s[k] == s.drop_last()[k]);
            }
        }
        to
    } else {
        assert(s.take(s.len() as int) == s);
        s.len() as int
    }
}

proof fn lemma_stripped_parts(s: Seq<char>, how: Trimming) -> (from: int)
    ensures
        0 <= from,
        from + text::stripped(s, how).len() <= s.len(),
        text::stripped(s, how) == s.subrange(from, from + text::stripped(s, how).len()),
        forall|k: int|
            0 <= k < from || from + text::stripped(s, how).len() <= k < s.len() ==> how.removes(
                #[trigger] s[k],
            ),
{
    let from = lemma_strip_start_parts(s, how);
    let rest = text::strip_start(s, how);
    let to = lemma_strip_end_parts(rest, how);
    assert(rest.take(to) == s.subrange(from, from + to));
    assert forall|k: int| 0 <= k < from || from + to <= k < s.len() implies how.removes(
        #[trigger] s[k],
    ) by {
        if k >= from {
            assert(s[k] == rest[k - from]);
        }
    }
    from
}

/// Trimming keeps the middle of a text: what it removes at either end is white
/// space, and what is left neither begins nor ends with white space.
pub proof fn law_trim_keeps_the_middle(s: Seq<char>)
    ensures
        exists|from: int|
            {
                &&& 0 <= from
                &&& from + text::trimmed(s).len() <= s.len()
                &&& text::trimmed(s) == #[trigger] s.subrange(from, from + text::trimmed(s).len())
                &&& forall|k: int|
                    0 <= k < from || from + text::trimmed(s).len() <= k < s.len()
                        ==> is_white_space(#[trigger] s[k])
            },
        text::trimmed(s).len() > 0 ==> !is_white_space(text::trimmed(s)[0]) && !is_white_space(
            text::trimmed(s).last(),
        ),
{
    let from = lemma_stripped_parts(s, Trimming::WhiteSpace);
    text::lemma_stripped_edges(s, Trimming::WhiteSpace);
    assert(text::trimmed(s) == s.subrange(from, from + text::trimmed(s).len()));
    assert forall|k: int| 0 <= k < from || from + text::trimmed(s).len() <= k < s.len() implies
        is_white_space(#[trigger] s[k]) by {
        assert(Trimming::WhiteSpace.removes(s[k]));
    }
}

/// Removing the slashes at the ends of a path keeps its middle: what it removes
/// are slashes, and what is left neither begins nor ends with one.
pub proof fn law_edge_slashes_only(s: Seq<char>)
    ensures
        exists|from: int|
            {
                &&& 0 <= from
                &&& from + text::without_edge_slashes(s).len() <= s.len()
                &&& text::without_edge_slashes(s) == #[trigger] s.subrange(
                    from,
                    from + text::without_edge_slashes(s).len(),
                )
                &&& forall|k: int|
                    0 <= k < from || from + text::without_edge_slashes(s).len() <= k < s.len()
                        ==> #[trigger] s[k] == '/'
            },
        text::without_edge_slashes(s).len() > 0 ==> text::without_edge_slashes(s)[0] != '/'
            && text::without_edge_slashes(s).last() != '/',
{
    let how = Trimming::Only('/');
    let from = lemma_stripped_parts(s, how);
    text::lemma_stripped_edges(s, how);
    let kept = text::without_edge_slashes(s);
    assert(kept == s.subrange(from, from + kept.len()));
    assert forall|k: int| 0 <= k < from || from + kept.len() <= k < s.len() implies
        #[trigger] s[k] == '/' by {
        assert(how.removes(s[k]));
    }
}

proof fn lemma_strip_start_none(s: Seq<char>, how: Trimming)
    requires
        s.len() > 0 ==> !how.removes(s[0]),
    ensures
        text::strip_start(s, how) == s,
{
}

/// Removing a character from the ends of a text keeps its middle: what it removes is
/// that character alone, and what is left neither begins nor ends with it.
pub proof fn law_strip_keeps_the_middle(s: Seq<char>, c: char)
    ensures
        exists|from: int|
            {
                &&& 0 <= from
                &&& from + text::stripped(s, Trimming::Only(c)).len() <= s.len()
                &&& text::stripped(s, Trimming::Only(c)) == #[trigger] s.subrange(
                    from,
                    from + text::stripped(s, Trimming::Only(c)).len(),
                )
                &&& forall|k: int|
                    0 <= k < from || from + text::stripped(s, Trimming::Only(c)).len() <= k
                        < s.len() ==> #[trigger] s[k] == c
            },
        text::stripped(s, Trimming::Only(c)).len() > 0 ==> text::stripped(
            s,
            Trimming::Only(c),
        )[0] != c && text::stripped(s, Trimming::Only(c)).last() != c,
        text::stripped(s, Trimming::WhiteSpace) == text::trimmed(s),
{
    let how = Trimming::Only(c);
    let from = lemma_stripped_parts(s, how);
    text::lemma_stripped_edges(s, how);
    let kept = text::stripped(s, how);
    assert(kept == s.subrange(from, from + kept.len()));
    assert forall|k: int| 0 <= k < from || from + kept.len() <= k < s.len() implies
        #[trigger] s[k] == c by {
        assert(how.removes(s[k]));
    }
}

/// Removing a character from the end of a text keeps its front: what it removes is
/// that character alone, and what is left does not end with it.
pub proof fn law_strip_end_keeps_the_front(s: Seq<char>, c: char)
    ensures
        text::strip_end(s, Trimming::Only(c)) == s.take(
            text::strip_end(s, Trimming::Only(c)).len() as int,
        ),
        text::strip_end(s, Trimming::Only(c)).len() <= s.len(),
        forall|k: int|
            text::strip_end(s, Trimming::Only(c)).len() <= k < s.len() ==> #[trigger] s[k] == c,
        text::strip_end(s, Trimming::Only(c)).len() > 0 ==> text::strip_end(
            s,
            Trimming::Only(c),
        ).last() != c,
    decreases s.len(),
{
    let how = Trimming::Only(c);
    let to = lemma_strip_end_parts(s, how);
    assert forall|k: int| to <= k < s.len() implies #[trigger] s[k] == c by {
        assert(how.removes(s[k]));
    }
    if s.len() > 0 && s.last() == c {
        law_strip_end_keeps_the_front(s.drop_last(), c);
    }
}

/// A text without white space at either end is left as it is.
pub proof fn law_trim_leaves_entries_alone(s: Seq<char>)
    requires
        s.len() > 0 ==> !is_white_space(s[0]) && !is_white_space(s.last()),
    ensures
        text::trimmed(s) == s,
{
    lemma_strip_start_none(s, Trimming::WhiteSpace);
}

/// White space is what Unicode lists as such: 25 characters, six of them ASCII.
pub proof fn law_white_space_is_listed(c: char)
    ensures
        is_white_space(c) <==> {
            let n = c as int;
            ||| 9 <= n <= 13 || n == 32
            ||| n == 0x85 || n == 0xa0
            ||| n == 0x1680 || 0x2000 <= n <= 0x200a
            ||| n == 0x2028 || n == 0x2029 || n == 0x202f || n == 0x205f
            ||| n == 0x3000
        },
{
}

/// A text is blank after trimming exactly if it is made of white space.
pub proof fn law_blank_is_white_space(s: Seq<char>)
    ensures
        text::trimmed(s).len() == 0 <==> forall|k: int|
            0 <= k < s.len() ==> is_white_space(#[trigger] s[k]),
{
    law_trim_keeps_the_middle(s);
    let from = choose|from: int|
        {
            &&& 0 <= from
            &&& from + text::trimmed(s).len() <= s.len()
            &&& text::trimmed(s) == #[trigger] s.subrange(from, from + text::trimmed(s).len())
            &&& forall|k: int|
                0 <= k < from || from + text::trimmed(s).len() <= k < s.len() ==> is_white_space(
                    #[trigger] s[k],
                )
        };
    if text::trimmed(s).len() > 0 {
        assert(text::trimmed(s)[0] == s[from]);
    }
}

// ---------------------------------------------------------------------------
// Splitting and joining
// ---------------------------------------------------------------------------
/// A text that is joined grows by the separator and the next part, and by
/// nothing else.
pub proof fn law_join_appends(parts: Seq<Seq<char>>, part: Seq<char>, sep: Seq<char>)
    ensures
        text::joined(Seq::empty(), sep) == Seq::<char>::empty(),
        parts.len() == 0 ==> text::joined(parts.push(part), sep) == part,
        parts.len() > 0 ==> text::joined(parts.push(part), sep) == text::joined(parts, sep) + sep
            + part,
{
    assert(parts.push(part).drop_last() == parts);
}

/// Splitting loses nothing and adds nothing: the pieces hold no separator, and
/// joined by it they are the text again.
pub proof fn law_split_joins_again(s: Seq<char>, sep: char)
    ensures
        text::split(s, sep).len() > 0,
        text::joined(text::split(s, sep), seq![sep]) == s,
        forall|i: int, k: int|
            0 <= i < text::split(s, sep).len() && 0 <= k < text::split(s, sep)[i].len()
                ==> #[trigger] text::split(s, sep)[i][k] != sep,
    decreases s.len(),
{
    text::lemma_split_nonempty(s, sep);
    let pieces = text::split(s, sep);
    assert forall|i: int, k: int| 0 <= i < pieces.len() && 0 <= k < pieces[i].len() implies
        #[trigger] pieces[i][k] != sep by {
        text::lemma_split_pieces(s, sep, i);
    }
    if s.len() > 0 {
        let before = text::split(s.drop_last(), sep);
        law_split_joins_again(s.drop_last(), sep);
        if s.last() == sep {
            law_join_appends(before, Seq::empty(), seq![sep]);
            assert(text::joined(pieces, seq![sep]) == s.drop_last() + seq![sep] + Seq::<
                char,
            >::empty());
        } else {
            let rest = before.drop_last();
            law_join_appends(rest, before.last(), seq![sep]);
            law_join_appends(rest, before.last().push(s.last()), seq![sep]);
            assert(rest.push(before.last()) == before);
            assert(text::joined(pieces, seq![sep]) == s.drop_last() + seq![s.last()]);
        }
        assert(text::joined(pieces, seq![sep]) == s);
    } else {
        assert(text::joined(pieces, seq![sep]) == s);
    }
}

/// The pieces of two texts with a separator between them are those of the first
/// followed by those of the second.
pub proof fn law_split_follows_the_separator(a: Seq<char>, b: Seq<char>, sep: char)
    ensures
        text::split(a + seq![sep] + b, sep) == text::split(a, sep) + text::split(b, sep),
    decreases b.len(),
{
    let whole = a + seq![sep] + b;
    text::lemma_split_nonempty(a, sep);
    text::lemma_split_nonempty(b, sep);
    if b.len() == 0 {
        assert(whole.drop_last() == a);
        assert(text::split(whole, sep) == text::split(a, sep) + text::split(b, sep));
    } else {
        let shorter = b.drop_last();
        assert(whole.drop_last() == a + seq![sep] + shorter);
        law_split_follows_the_separator(a, shorter, sep);
        text::lemma_split_nonempty(shorter, sep);
        assert(text::split(whole, sep) == text::split(a, sep) + text::split(b, sep));
    }
}

/// A text without the separator is its only piece.
pub proof fn law_split_of_one_piece(s: Seq<char>, sep: char)
    requires
        forall|k: int| 0 <= k < s.len() ==> #[trigger] s[k] != sep,
    ensures
        text::split(s, sep) == seq![s],
    decreases s.len(),
{
    if s.len() > 0 {
        assert forall|k: int| 0 <= k < s.drop_last().len() implies #[trigger] s.drop_last()[k]
            != sep by {
            assert(s.drop_last()[k] == s[k]);
        }
        law_split_of_one_piece(s.drop_last(), sep);
        assert(s.drop_last().push(s.last()) == s);
    } else {
        assert(s == Seq::<char>::empty());
    }
    assert(text::split(s, sep) =~= seq![s]);
}

/// The entries of two lists with a comma between them are those of the first
/// followed by those of the second, however many there are.
pub proof fn law_lists_concatenate(a: Seq<char>, b: Seq<char>)
    ensures
        text::list_entries(a + seq![','] + b) == text::list_entries(a) + text::list_entries(b),
{
    let trim = |piece: Seq<char>| text::trimmed(piece);
    let keep = |entry: Seq<char>| entry.len() > 0;
    law_split_follows_the_separator(a, b, ',');
    let (x, y) = (text::split(a, ','), text::split(b, ','));
    assert((x + y).map_values(trim) == x.map_values(trim) + y.map_values(trim));
    lemma_filter_concat(x.map_values(trim), y.map_values(trim), keep);
}

proof fn lemma_filter_concat(
    a: Seq<Seq<char>>,
    b: Seq<Seq<char>>,
    keep: spec_fn(Seq<char>) -> bool,
)
    ensures
        (a + b).filter(keep) == a.filter(keep) + b.filter(keep),
    decreases b.len(),
{
    reveal(Seq::filter);
    if b.len() == 0 {
        assert(a + b == a);
        assert((a + b).filter(keep) == a.filter(keep) + b.filter(keep));
    } else {
        assert((a + b).drop_last() == a + b.drop_last());
        lemma_filter_concat(a, b.drop_last(), keep);
        assert((a + b).filter(keep) == a.filter(keep) + b.filter(keep));
    }
}

/// A text without a comma is one entry, trimmed; or none, if it is white space.
pub proof fn law_list_of_one_entry(s: Seq<char>)
    requires
        forall|k: int| 0 <= k < s.len() ==> #[trigger] s[k] != ',',
    ensures
        (forall|k: int| 0 <= k < s.len() ==> is_white_space(#[trigger] s[k])) ==> text::list_entries(
            s,
        ) == Seq::<Seq<char>>::empty(),
        (exists|k: int| 0 <= k < s.len() && !is_white_space(#[trigger] s[k])) ==> text::list_entries(
            s,
        ) == seq![text::trimmed(s)],
{
    reveal(Seq::filter);
    let trim = |piece: Seq<char>| text::trimmed(piece);
    let keep = |entry: Seq<char>| entry.len() > 0;
    law_split_of_one_piece(s, ',');
    law_blank_is_white_space(s);
    let pieces = seq![s].map_values(trim);
    assert(pieces == seq![text::trimmed(s)]);
    assert(pieces.drop_last() == Seq::<Seq<char>>::empty());
    assert(pieces.last() == text::trimmed(s));
    assert(pieces.drop_last().filter(keep) == Seq::<Seq<char>>::empty());
    if text::trimmed(s).len() > 0 {
        assert(pieces.filter(keep) =~= seq![text::trimmed(s)]);
    } else {
        assert(pieces.filter(keep) =~= Seq::<Seq<char>>::empty());
    }
}

/// No entry is lost: a list of entries that are joined by commas is read back as
/// it was, whatever its length.
pub proof fn law_lists_read_back(entries: Seq<Seq<char>>)
    requires
        forall|i: int, k: int|
            0 <= i < entries.len() && 0 <= k < entries[i].len() ==> #[trigger] entries[i][k] != ',',
        forall|i: int|
            0 <= i < entries.len() ==> (#[trigger] entries[i]).len() > 0 && !is_white_space(
                entries[i][0],
            ) && !is_white_space(entries[i].last()),
    ensures
        text::list_entries(text::joined(entries, seq![','])) == entries,
    decreases entries.len(),
{
    if entries.len() == 0 {
        law_join_appends(entries, Seq::empty(), seq![',']);
        assert(entries == Seq::<Seq<char>>::empty());
        law_list_of_one_entry(Seq::empty());
    } else {
        let rest = entries.drop_last();
        let last = entries.last();
        assert(entries == rest.push(last));
        assert(last == entries[entries.len() - 1]);
        assert forall|k: int| 0 <= k < last.len() implies #[trigger] last[k] != ',' by {
            assert(entries[entries.len() - 1][k] != ',');
        }
        assert(!is_white_space(last[0]));
        law_list_of_one_entry(last);
        law_trim_leaves_entries_alone(last);
        law_join_appends(rest, last, seq![',']);
        if rest.len() > 0 {
            assert forall|i: int, k: int| 0 <= i < rest.len() && 0 <= k < rest[i].len() implies
                #[trigger] rest[i][k] != ',' by {
                assert(entries[i][k] != ',');
            }
            assert forall|i: int| 0 <= i < rest.len() implies (#[trigger] rest[i]).len() > 0
                && !is_white_space(rest[i][0]) && !is_white_space(rest[i].last()) by {
                assert(entries[i].len() > 0);
            }
            law_lists_read_back(rest);
            law_lists_concatenate(text::joined(rest, seq![',']), last);
            assert(rest + seq![last] == entries);
        } else {
            assert(seq![last] == entries);
        }
    }
}

// ---------------------------------------------------------------------------
// Strings and characters
// ---------------------------------------------------------------------------
/// The texts of a list of strings are those of the strings, one by one.
pub proof fn law_views_are_texts(strings: Seq<String>)
    ensures
        text::views(strings).len() == strings.len(),
        forall|i: int| 0 <= i < strings.len() ==> #[trigger] text::views(strings)[i] == strings[i]@,
        forall|s: String| #[trigger] text::opt_view(Some(s)) == Some(s@),
        text::opt_view(None) is None,
{
}

/// Lower case changes `A` to `Z` to `a` to `z`, and nothing else.
pub proof fn law_lower_case(s: Seq<char>)
    ensures
        text::ascii_lower(s).len() == s.len(),
        forall|k: int|
            0 <= k < s.len() ==> {
                let c = s[k];
                let lower = #[trigger] text::ascii_lower(s)[k];
                if 'A' <= c <= 'Z' {
                    lower as int == c as int + 32
                } else {
                    lower == c
                }
            },
{
}

/// The length of a text in bytes is that of its UTF-8 form.
pub proof fn law_byte_len(s: Seq<char>, c: char)
    ensures
        text::byte_len(s) == encode_utf8(s).len(),
        text::free_of(s, c) <==> forall|k: int| 0 <= k < s.len() ==> #[trigger] s[k] != c,
{
}

// ---------------------------------------------------------------------------
// Numbers
// ---------------------------------------------------------------------------
/// A run of digits is read from left to right: each further digit counts ones,
/// and the ones before it tens.
pub proof fn law_digits_are_positional(s: Seq<char>, c: char)
    requires
        forall|k: int| 0 <= k < s.len() ==> '0' <= #[trigger] s[k] <= '9',
        '0' <= c <= '9',
    ensures
        text::digits_value(Seq::empty()) == 0,
        text::digits_value(s.push(c)) == 10 * text::digits_value(s) + (c as int - '0' as int),
{
    assert(s.push(c).drop_last() == s);
}

/// The digits of a number are digits, denote it, and begin with a zero only for
/// zero itself.
pub proof fn law_digits_denote(n: nat)
    ensures
        text::digits(n).len() > 0,
        forall|k: int| 0 <= k < text::digits(n).len() ==> '0' <= #[trigger] text::digits(n)[k] <= '9',
        text::digits_value(text::digits(n)) == n,
        text::digits(n)[0] == '0' ==> n == 0 && text::digits(n).len() == 1,
    decreases n,
{
    text::lemma_digits_value(n);
    assert forall|k: int| 0 <= k < text::digits(n).len() implies '0' <= #[trigger] text::digits(
        n,
    )[k] <= '9' by {
        assert(text::is_digit(text::digits(n)[k]));
    }
    if n >= 10 {
        law_digits_denote(n / 10);
        assert(text::digits(n)[0] == text::digits(n / 10)[0]);
    }
}

/// The decimal form of a number: its digits, behind a sign if it is negative.
pub proof fn law_decimal_denotes(n: int)
    ensures
        n >= 0 ==> text::decimal(n) == text::digits(n as nat),
        n < 0 ==> text::decimal(n) == seq!['-'] + text::digits((-n) as nat),
{
}

/// `run` is made of digits and denotes `n`.
pub open spec fn is_number(run: Seq<char>, n: int) -> bool {
    &&& run.len() > 0
    &&& forall|k: int| 0 <= k < run.len() ==> '0' <= #[trigger] run[k] <= '9'
    &&& text::digits_value(run) == n
}

/// `form` is `n` written with `width` characters at least: a sign if it is negative,
/// then digits that denote it, with zeros in front only to reach the width.
pub open spec fn is_form_of(form: Seq<char>, n: int, width: int) -> bool {
    &&& form.len() >= width
    &&& n >= 0 ==> is_number(form, n)
    &&& n >= 0 && form.len() > width && form.len() > 1 ==> form[0] != '0'
    &&& n < 0 ==> form.len() > 1 && form[0] == '-' && is_number(form.skip(1), -n)
    &&& n < 0 && form.len() > width ==> form[1] != '0'
}

/// The zero-padded form of a number: a sign if it is negative, then digits that
/// denote it. It has the width that was asked for; it is longer only where the
/// number needs it, and then has no zero in front.
pub proof fn law_zero_padded_denotes(n: int, width: int)
    ensures
        is_form_of(text::zero_padded(n, width), n, width),
{
    let form = text::zero_padded(n, width);
    if n < 0 {
        let m = (-n) as nat;
        let count = width - 1 - text::digits(m).len();
        lemma_padded(m, count);
        assert(form.skip(1) =~= text::zeros(count) + text::digits(m));
        law_digits_denote(m);
    } else {
        let count = width - text::digits(n as nat).len();
        lemma_padded(n as nat, count);
        law_digits_denote(n as nat);
    }
}

proof fn lemma_padded(m: nat, count: int)
    ensures
        is_number(text::zeros(count) + text::digits(m), m as int),
{
    let run = text::zeros(count) + text::digits(m);
    law_digits_denote(m);
    text::lemma_leading_zeros(count, text::digits(m));
    assert forall|k: int| 0 <= k < run.len() implies '0' <= #[trigger] run[k] <= '9' by {
        if k >= text::zeros(count).len() {
            assert(run[k] == text::digits(m)[k - text::zeros(count).len()]);
        }
    }
}

/// Two forms of equal length that denote the same number are equal: a run of
/// digits is fixed by its length and what it denotes.
pub proof fn law_digits_are_unique(a: Seq<char>, b: Seq<char>)
    requires
        a.len() == b.len(),
        forall|k: int| 0 <= k < a.len() ==> '0' <= #[trigger] a[k] <= '9',
        forall|k: int| 0 <= k < b.len() ==> '0' <= #[trigger] b[k] <= '9',
        text::digits_value(a) == text::digits_value(b),
    ensures
        a == b,
    decreases a.len(),
{
    if a.len() > 0 {
        let (x, y) = (a.drop_last(), b.drop_last());
        assert(a[a.len() - 1] == a.last() && b[b.len() - 1] == b.last());
        assert forall|k: int| 0 <= k < x.len() implies '0' <= #[trigger] x[k] <= '9' by {
            assert(x[k] == a[k]);
        }
        assert forall|k: int| 0 <= k < y.len() implies '0' <= #[trigger] y[k] <= '9' by {
            assert(y[k] == b[k]);
        }
        assert(a == x.push(a.last()) && b == y.push(b.last()));
        law_digits_are_positional(x, a.last());
        law_digits_are_positional(y, b.last());
        law_digits_are_unique(x, y);
    }
    assert(a =~= b);
}

/// A hexadecimal form ends in the digit for the number's lowest four bits, and
/// what precedes it is the form of the rest.
pub proof fn law_hex_is_positional(n: nat, width: nat)
    ensures
        text::hex_digits(n, width).len() == width,
        width > 0 ==> {
            let last = text::hex_digits(n, width).last();
            &&& text::hex_digits(n, width).drop_last() == text::hex_digits(
                n / 16,
                (width - 1) as nat,
            )
            &&& n % 16 < 10 ==> last as int == '0' as int + n % 16
            &&& n % 16 >= 10 ==> last as int == 'a' as int + n % 16 - 10
        },
    decreases width,
{
    if width > 0 {
        law_hex_is_positional(n / 16, (width - 1) as nat);
        assert(text::hex_digits(n, width).drop_last() == text::hex_digits(
            n / 16,
            (width - 1) as nat,
        ));
    }
}

/// A number is read from a text exactly if the text is a run of digits, and then
/// it is what the run denotes.
pub proof fn law_naturals_are_digits(run: Seq<char>)
    requires
        run.len() > 0 ==> run[0] != '+',
    ensures
        text::natural(run) is Some <==> run.len() > 0 && forall|k: int|
            0 <= k < run.len() ==> '0' <= #[trigger] run[k] <= '9',
        text::natural(run) is Some ==> text::natural(run)->0 == text::digits_value(run),
{
    if text::all_digits(run) {
        assert forall|k: int| 0 <= k < run.len() implies '0' <= #[trigger] run[k] <= '9' by {
            assert(text::is_digit(run[k]));
        }
    }
}

/// A `+` in front of a run of digits makes no difference; anything else behind it
/// is no number.
pub proof fn law_plus_makes_no_difference(run: Seq<char>)
    ensures
        text::natural(seq!['+'] + run) is Some <==> run.len() > 0 && forall|k: int|
            0 <= k < run.len() ==> '0' <= #[trigger] run[k] <= '9',
        text::natural(seq!['+'] + run) is Some ==> text::natural(seq!['+'] + run)->0
            == text::digits_value(run),
{
    let s = seq!['+'] + run;
    assert(s.drop_first() =~= run);
    assert(text::without_plus(s) == run);
    if text::all_digits(run) {
        assert forall|k: int| 0 <= k < run.len() implies '0' <= #[trigger] run[k] <= '9' by {
            assert(text::is_digit(run[k]));
        }
    }
}

/// A number is read back from its decimal form, with or without a `+`, and is
/// refused exactly above the bound.
pub proof fn law_naturals_read_back(n: nat, max: int)
    ensures
        text::natural(text::decimal(n as int)) == Some(n),
        text::natural(seq!['+'] + text::decimal(n as int)) == Some(n),
        forall|s: Seq<char>| #[trigger]
            text::natural_up_to(s, max) == match text::natural(s) {
                Some(m) => if m <= max {
                    Some(m)
                } else {
                    None
                },
                None => None,
            },
{
    let form = text::decimal(n as int);
    law_digits_denote(n);
    law_naturals_are_digits(form);
    law_plus_makes_no_difference(form);
}

} // verus!
