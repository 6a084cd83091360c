//! Text handling: trimming, splitting, joining and number formatting.
//!
//! The models are sequences of characters; each executable function is proved
//! to compute the model of the same shape.

use vstd::prelude::*;
use vstd::utf8::encode_utf8;

verus! {

// ---------------------------------------------------------------------------
// White space and trimming
// ---------------------------------------------------------------------------
/// The Unicode `White_Space` property.
pub open spec fn is_white_space(c: char) -> bool {
    ||| '\u{9}' <= c <= '\u{d}'
    ||| c == '\u{20}'
    ||| c == '\u{85}'
    ||| c == '\u{a0}'
    ||| c == '\u{1680}'
    ||| '\u{2000}' <= c <= '\u{200a}'
    ||| c == '\u{2028}'
    ||| c == '\u{2029}'
    ||| c == '\u{202f}'
    ||| c == '\u{205f}'
    ||| c == '\u{3000}'
}

/// `char::is_whitespace` of the standard library: the contract claims that it
/// tells whether the character has the Unicode `White_Space` property.
pub assume_specification[ char::is_whitespace ](c: char) -> (white: bool)
    ensures
        white == is_white_space(c),
;

/// `String::push` of the standard library: the contract claims that it appends
/// the character to the end of the string and changes nothing else.
pub assume_specification[ String::push ](s: &mut String, c: char)
    ensures
        final(s)@ == old(s)@.push(c),
;

/// Which characters a trim removes from both ends.
#[derive(Clone, Copy)]
pub enum Trimming {
    WhiteSpace,
    Only(char),
}

impl Trimming {
    pub open spec fn removes(self, c: char) -> bool {
        match self {
            Trimming::WhiteSpace => is_white_space(c),
            Trimming::Only(only) => c == only,
        }
    }

    fn drops(&self, c: char) -> (drops: bool)
        ensures
            drops == self.removes(c),
    {
        match self {
            Trimming::WhiteSpace => c.is_whitespace(),
            Trimming::Only(only) => c == *only,
        }
    }
}

/// `s` without its longest prefix of removable characters.
pub open spec fn strip_start(s: Seq<char>, how: Trimming) -> Seq<char>
    decreases s.len(),
{
    if s.len() > 0 && how.removes(s[0]) {
        strip_start(s.drop_first(), how)
    } else {
        s
    }
}

/// `s` without its longest suffix of removable characters.
pub open spec fn strip_end(s: Seq<char>, how: Trimming) -> Seq<char>
    decreases s.len(),
{
    if s.len() > 0 && how.removes(s.last()) {
        strip_end(s.drop_last(), how)
    } else {
        s
    }
}

/// `s` without removable characters at either end.
pub open spec fn stripped(s: Seq<char>, how: Trimming) -> Seq<char> {
    strip_end(strip_start(s, how), how)
}

/// `s` without white space at either end.
pub open spec fn trimmed(s: Seq<char>) -> Seq<char> {
    stripped(s, Trimming::WhiteSpace)
}

/// `s` without `/` at either end.
pub open spec fn without_edge_slashes(s: Seq<char>) -> Seq<char> {
    stripped(s, Trimming::Only('/'))
}

/// The characters of `s`.
pub fn chars_of(s: &str) -> (chars: Vec<char>)
    ensures
        chars@ == s@,
{
    let mut chars: Vec<char> = Vec::new();
    for c in it: s.chars()
        invariant
            it.seq() == s@,
            chars@ == s@.take(it.index() as int),
    {
        chars.push(c);
    }
    assert(s@.take(s@.len() as int) == s@);
    chars
}

/// Removes the characters that `how` names from both ends of `s`.
pub fn strip(s: &str, how: Trimming) -> (rest: &str)
    ensures
        rest@ == stripped(s@, how),
{
    let chars = chars_of(s);
    let n: usize = chars.len();
    let mut from: usize = 0;
    assert(s@.skip(0) == s@);
    while from < n && how.drops(chars[from])
        invariant
            n == chars.len(),
            chars@ == s@,
            from <= n,
            strip_start(s@, how) == strip_start(s@.skip(from as int), how),
        decreases n - from,
    {
        assert(s@.skip(from as int).drop_first() == s@.skip(from + 1));
        from = from + 1;
    }
    let ghost start = strip_start(s@, how);
    assert(start == s@.skip(from as int));
    let mut to: usize = n;
    assert(s@.subrange(from as int, n as int) == start);
    while from < to && how.drops(chars[to - 1])
        invariant
            n == chars.len(),
            chars@ == s@,
            from <= to <= n,
            strip_end(start, how) == strip_end(s@.subrange(from as int, to as int), how),
        decreases to,
    {
        assert(s@.subrange(from as int, to as int).drop_last() == s@.subrange(
            from as int,
            to - 1,
        ));
        to = to - 1;
    }
    s.substring_char(from, to)
}

/// Removes white space from both ends of `s`.
pub fn trim(s: &str) -> (rest: &str)
    ensures
        rest@ == trimmed(s@),
{
    strip(s, Trimming::WhiteSpace)
}

// ---------------------------------------------------------------------------
// Splitting and joining
// ---------------------------------------------------------------------------
/// The pieces of `s` between occurrences of `sep`; there is always at least one.
pub open spec fn split(s: Seq<char>, sep: char) -> Seq<Seq<char>>
    decreases s.len(),
{
    if s.len() == 0 {
        seq![Seq::empty()]
    } else {
        let before = split(s.drop_last(), sep);
        if s.last() == sep {
            before.push(Seq::empty())
        } else {
            before.drop_last().push(before.last().push(s.last()))
        }
    }
}

pub proof fn lemma_split_nonempty(s: Seq<char>, sep: char)
    ensures
        split(s, sep).len() > 0,
    decreases s.len(),
{
    if s.len() > 0 {
        lemma_split_nonempty(s.drop_last(), sep);
    }
}

/// `parts` with `sep` between each two neighbours.
pub open spec fn joined(parts: Seq<Seq<char>>, sep: Seq<char>) -> Seq<char>
    decreases parts.len(),
{
    if parts.len() == 0 {
        Seq::empty()
    } else if parts.len() == 1 {
        parts[0]
    } else {
        joined(parts.drop_last(), sep) + sep + parts.last()
    }
}

/// The text of each string.
pub open spec fn views(strings: Seq<String>) -> Seq<Seq<char>> {
    strings.map_values(|s: String| s@)
}

/// The text of an optional string.
pub open spec fn opt_view(s: Option<String>) -> Option<Seq<char>> {
    match s {
        Some(text) => Some(text@),
        None => None,
    }
}

/// A comma-separated list: its trimmed, non-empty entries in order.
pub open spec fn list_entries(raw: Seq<char>) -> Seq<Seq<char>> {
    split(raw, ',').map_values(|piece: Seq<char>| trimmed(piece)).filter(
        |entry: Seq<char>| entry.len() > 0,
    )
}

/// Joins `parts` with `sep` between them.
pub fn join(parts: &Vec<String>, sep: &str) -> (text: String)
    ensures
        text@ == joined(views(parts@), sep@),
{
    let mut text = String::new();
    let ghost all = views(parts@);
    let n: usize = parts.len();
    let mut i: usize = 0;
    while i < n
        invariant
            n == parts.len(),
            i <= n,
            all == views(parts@),
            text@ == joined(all.take(i as int), sep@),
        decreases n - i,
    {
        if i > 0 {
            text.append(sep);
        }
        text.append(parts[i].as_str());
        assert(all.take(i + 1).drop_last() == all.take(i as int));
        i = i + 1;
    }
    assert(all.take(n as int) == all);
    text
}

/// Splits a comma-separated variable into trimmed, non-empty entries.
pub fn parse_list(raw: &str) -> (entries: Vec<String>)
    ensures
        views(entries@) == list_entries(raw@),
{
    let chars = chars_of(raw);
    let n: usize = chars.len();
    let ghost trim_piece = |piece: Seq<char>| trimmed(piece);
    let ghost keep = |entry: Seq<char>| entry.len() > 0;
    let mut entries: Vec<String> = Vec::new();
    let mut piece = String::new();
    let mut i: usize = 0;
    assert(views(entries@) == Seq::<Seq<char>>::empty());
    assert(split(raw@.take(0), ',').drop_last() == Seq::<Seq<char>>::empty());
    assert(Seq::<Seq<char>>::empty().map_values(trim_piece) == Seq::<Seq<char>>::empty());
    assert(Seq::<Seq<char>>::empty().filter(keep) == Seq::<Seq<char>>::empty()) by {
        reveal(Seq::filter);
    }
    assert(piece@ == split(raw@.take(0), ',').last());
    while i < n
        invariant
            n == chars.len(),
            i <= n,
            chars@ == raw@,
            trim_piece == (|piece: Seq<char>| trimmed(piece)),
            keep == (|entry: Seq<char>| entry.len() > 0),
            split(raw@.take(i as int), ',').len() > 0,
            piece@ == split(raw@.take(i as int), ',').last(),
            views(entries@) == split(raw@.take(i as int), ',').drop_last().map_values(
                trim_piece,
            ).filter(keep),
        decreases n - i,
    {
        let ghost done = split(raw@.take(i as int), ',');
        let ghost next = split(raw@.take(i + 1), ',');
        assert(raw@.take(i + 1).drop_last() == raw@.take(i as int));
        if chars[i] == ',' {
            assert(next.drop_last() == done);
            proof {
                lemma_keep_piece(done, trim_piece, keep);
            }
            keep_entry(&mut entries, piece.as_str());
            piece = String::new();
        } else {
            assert(next.drop_last() == done.drop_last());
            piece.push(chars[i]);
        }
        i = i + 1;
    }
    assert(raw@.take(n as int) == raw@);
    proof {
        lemma_keep_piece(split(raw@, ','), trim_piece, keep);
    }
    keep_entry(&mut entries, piece.as_str());
    entries
}

proof fn lemma_keep_piece(
    pieces: Seq<Seq<char>>,
    trim_piece: spec_fn(Seq<char>) -> Seq<char>,
    keep: spec_fn(Seq<char>) -> bool,
)
    requires
        pieces.len() > 0,
    ensures
        ({
            let before = pieces.drop_last().map_values(trim_piece).filter(keep);
            let entry = trim_piece(pieces.last());
            pieces.map_values(trim_piece).filter(keep) == if keep(entry) {
                before.push(entry)
            } else {
                before
            }
        }),
{
    reveal(Seq::filter);
    assert(pieces.map_values(trim_piece).drop_last() == pieces.drop_last().map_values(trim_piece));
}

fn keep_entry(entries: &mut Vec<String>, piece: &str)
    ensures
        views(final(entries)@) == if trimmed(piece@).len() > 0 {
            views(old(entries)@).push(trimmed(piece@))
        } else {
            views(old(entries)@)
        },
{
    let entry = trim(piece);
    if !entry.is_empty() {
        entries.push(entry.to_owned());
    }
    assert(views(entries@) == if trimmed(piece@).len() > 0 {
        views(old(entries)@).push(trimmed(piece@))
    } else {
        views(old(entries)@)
    });
}

// ---------------------------------------------------------------------------
// ASCII case
// ---------------------------------------------------------------------------
/// `c`, with `A` to `Z` mapped to `a` to `z`.
pub open spec fn lower_char(c: char) -> char {
    if 'A' <= c <= 'Z' {
        (c as u8 + 32) as char
    } else {
        c
    }
}

/// `s` with its ASCII letters in lower case.
pub open spec fn ascii_lower(s: Seq<char>) -> Seq<char> {
    s.map_values(|c: char| lower_char(c))
}

/// `s` with its ASCII letters in lower case.
pub fn to_ascii_lower(s: &str) -> (lower: String)
    ensures
        lower@ == ascii_lower(s@),
{
    let mut lower = String::new();
    for c in it: s.chars()
        invariant
            it.seq() == s@,
            lower@ == ascii_lower(s@.take(it.index() as int)),
    {
        let l: char = if 'A' <= c && c <= 'Z' {
            (c as u8 + 32) as char
        } else {
            c
        };
        assert(l == lower_char(c));
        let ghost i = it.index() as int;
        assert(ascii_lower(s@.take(i + 1)) == ascii_lower(s@.take(i)).push(l));
        lower.push(l);
    }
    assert(s@.take(s@.len() as int) == s@);
    lower
}

// ---------------------------------------------------------------------------
// Numbers
// ---------------------------------------------------------------------------
/// The character of a digit below ten.
pub open spec fn digit_char(d: nat) -> char {
    (48 + d) as char
}

/// The decimal digits of `n`, without leading zeros.
pub open spec fn digits(n: nat) -> Seq<char>
    decreases n,
{
    if n < 10 {
        seq![digit_char(n)]
    } else {
        digits(n / 10).push(digit_char(n % 10))
    }
}

/// The decimal form of `n`.
pub open spec fn decimal(n: int) -> Seq<char> {
    if n < 0 {
        seq!['-'] + digits((-n) as nat)
    } else {
        digits(n as nat)
    }
}

/// `count` zeros.
pub open spec fn zeros(count: int) -> Seq<char> {
    Seq::new(if count > 0 { count as nat } else { 0 }, |i: int| '0')
}

/// The decimal form of `n`, filled up with zeros behind the sign to `width`
/// characters (a longer form stays as it is).
pub open spec fn zero_padded(n: int, width: int) -> Seq<char> {
    if n < 0 {
        seq!['-'] + zeros(width - 1 - digits((-n) as nat).len()) + digits((-n) as nat)
    } else {
        zeros(width - digits(n as nat).len()) + digits(n as nat)
    }
}

/// The character of a hexadecimal digit, in lower case.
pub open spec fn hex_char(d: nat) -> char {
    if d < 10 {
        (48 + d) as char
    } else {
        (87 + d) as char
    }
}

/// The lowest `width` hexadecimal digits of `n`.
pub open spec fn hex_digits(n: nat, width: nat) -> Seq<char>
    decreases width,
{
    if width == 0 {
        Seq::empty()
    } else {
        hex_digits(n / 16, (width - 1) as nat).push(hex_char(n % 16))
    }
}

pub open spec fn is_digit(c: char) -> bool {
    '0' <= c <= '9'
}

/// The number that a run of decimal digits denotes.
pub open spec fn digits_value(s: Seq<char>) -> nat
    decreases s.len(),
{
    if s.len() == 0 {
        0
    } else {
        (10 * digits_value(s.drop_last()) + (s.last() as int - 48)) as nat
    }
}

pub open spec fn all_digits(s: Seq<char>) -> bool {
    forall|i: int| 0 <= i < s.len() ==> is_digit(#[trigger] s[i])
}

/// `s` without a leading `+`.
pub open spec fn without_plus(s: Seq<char>) -> Seq<char> {
    if s.len() > 0 && s[0] == '+' {
        s.drop_first()
    } else {
        s
    }
}

/// The number that `s` denotes: an optional `+`, then at least one decimal
/// digit and nothing else.
pub open spec fn natural(s: Seq<char>) -> Option<nat> {
    let run = without_plus(s);
    if run.len() > 0 && all_digits(run) {
        Some(digits_value(run))
    } else {
        None
    }
}

/// The number that `s` denotes, where there is one and it is at most `max`.
pub open spec fn natural_up_to(s: Seq<char>, max: int) -> Option<nat> {
    match natural(s) {
        Some(n) => if n <= max {
            Some(n)
        } else {
            None
        },
        None => None,
    }
}

/// Appends the decimal digits of `n`.
pub fn push_digits(text: &mut String, n: u64)
    ensures
        final(text)@ == old(text)@ + digits(n as nat),
    decreases n,
{
    if n >= 10 {
        push_digits(text, n / 10);
    }
    let d: u8 = (n % 10) as u8;
    text.push((48 + d) as char);
    assert(text@ == old(text)@ + digits(n as nat));
}

/// Appends the decimal form of `n`.
pub fn push_decimal(text: &mut String, n: i64)
    ensures
        final(text)@ == old(text)@ + decimal(n as int),
{
    if n < 0 {
        text.push('-');
        let magnitude: u64 = (-(n + 1)) as u64 + 1;
        push_digits(text, magnitude);
    } else {
        push_digits(text, n as u64);
    }
    assert(text@ == old(text)@ + decimal(n as int));
}

/// Appends `n` filled up with zeros to `width` characters.
pub fn push_zero_padded(text: &mut String, n: i64, width: usize)
    ensures
        final(text)@ == old(text)@ + zero_padded(n as int, width as int),
{
    let mut number = String::new();
    let mut room: usize = width;
    let magnitude: u64;
    if n < 0 {
        text.push('-');
        magnitude = (-(n + 1)) as u64 + 1;
        if room > 0 {
            room = room - 1;
        }
    } else {
        magnitude = n as u64;
    }
    push_digits(&mut number, magnitude);
    let ghost signed = text@;
    let used: usize = number.as_str().unicode_len();
    let mut written: usize = 0;
    proof {
        lemma_digits_nonempty(magnitude as nat);
        assert(number@ == digits(magnitude as nat));
        assert(signed + zeros(0) == signed);
    }
    while used < room && written < room - used
        invariant
            used <= room ==> written <= room - used,
            used > room ==> written == 0,
            text@ == signed + zeros(written as int),
        decreases room - used - written,
    {
        assert(zeros(written as int).push('0') == zeros(written + 1));
        text.push('0');
        assert(text@ == signed + zeros(written + 1));
        written = written + 1;
    }
    assert(zeros(written as int) == zeros(room - used));
    text.append(number.as_str());
    assert(text@ == old(text)@ + zero_padded(n as int, width as int));
}

/// Appends the lowest `width` hexadecimal digits of `n`.
pub fn push_hex(text: &mut String, n: u64, width: usize)
    ensures
        final(text)@ == old(text)@ + hex_digits(n as nat, width as nat),
    decreases width,
{
    if width > 0 {
        push_hex(text, n / 16, width - 1);
        let d: u8 = (n % 16) as u8;
        let c: char = if d < 10 {
            (48 + d) as char
        } else {
            (87 + d) as char
        };
        assert(c == hex_char((n % 16) as nat));
        text.push(c);
    }
    assert(text@ == old(text)@ + hex_digits(n as nat, width as nat));
}

pub proof fn lemma_digits_nonempty(n: nat)
    ensures
        digits(n).len() > 0,
    decreases n,
{
    if n >= 10 {
        lemma_digits_nonempty(n / 10);
    }
}

proof fn lemma_prefix_value(s: Seq<char>, i: int)
    requires
        0 <= i <= s.len(),
        all_digits(s),
    ensures
        digits_value(s.take(i)) <= digits_value(s),
    decreases s.len(),
{
    if i < s.len() {
        lemma_prefix_value(s.drop_last(), i);
        assert(s.drop_last().take(i) == s.take(i));
        assert(is_digit(s.last()));
    } else {
        assert(s.take(i) == s);
    }
}

/// Reads a number in the form that the standard library's integers parse from.
pub fn parse_natural(s: &str, max: u64) -> (value: Option<u64>)
    ensures
        match value {
            Some(v) => natural_up_to(s@, max as int) == Some(v as nat),
            None => natural_up_to(s@, max as int) is None,
        },
{
    let chars = chars_of(s);
    let n: usize = chars.len();
    let start: usize = if n > 0 && chars[0] == '+' {
        1
    } else {
        0
    };
    let ghost run = s@.skip(start as int);
    proof {
        if start == 1 {
            assert(run == s@.drop_first());
        } else {
            assert(run == s@);
        }
    }
    if start == n {
        return None;
    }
    let mut i: usize = start;
    let mut value: u64 = 0;
    assert(run.take(0) == Seq::<char>::empty());
    while i < n
        invariant
            n == chars.len(),
            chars@ == s@,
            start <= i <= n,
            start < n,
            run == s@.skip(start as int),
            run == without_plus(s@),
            forall|k: int| 0 <= k < i - start ==> is_digit(#[trigger] run[k]),
            value == digits_value(run.take(i - start)),
            value <= max,
        decreases n - i,
    {
        let c = chars[i];
        let ghost k = i - start;
        assert(run[k] == c);
        if !('0' <= c && c <= '9') {
            assert(!is_digit(run[k]));
            return None;
        }
        let d: u64 = (c as u8 - 48) as u64;
        assert(run.take(k + 1).drop_last() == run.take(k));
        assert(digits_value(run.take(k + 1)) == 10 * value + d);
        if value > (u64::MAX - d) / 10 || value * 10 + d > max {
            proof {
                if natural(s@) is Some {
                    lemma_prefix_value(run, k + 1);
                }
            }
            return None;
        }
        value = value * 10 + d;
        i = i + 1;
    }
    assert(run.take(n - start) == run);
    Some(value)
}

// ---------------------------------------------------------------------------
// Encoded size
// ---------------------------------------------------------------------------
/// The number of bytes that `s` takes in UTF-8.
pub open spec fn byte_len(s: Seq<char>) -> nat {
    encode_utf8(s).len()
}

/// The UTF-8 size of two texts in a row is the sum of their sizes.
pub proof fn lemma_byte_len_concat(a: Seq<char>, b: Seq<char>)
    ensures
        byte_len(a + b) == byte_len(a) + byte_len(b),
    decreases a.len(),
{
    if a.len() == 0 {
        assert(a + b == b);
    } else {
        lemma_byte_len_concat(a.drop_first(), b);
        assert((a + b).drop_first() == a.drop_first() + b);
    }
}

/// The number of bytes that `s` takes.
pub fn encoded_len(s: &str) -> (n: usize)
    ensures
        n == byte_len(s@),
{
    s.as_bytes().len()
}

// ---------------------------------------------------------------------------
// Reading texts back
// ---------------------------------------------------------------------------
/// `c` does not occur in `s`.
pub open spec fn free_of(s: Seq<char>, c: char) -> bool {
    forall|i: int| 0 <= i < s.len() ==> s[i] != c
}

/// A text splits in one way at the first `c`.
pub proof fn lemma_split_at_first(a: Seq<char>, b: Seq<char>, x: Seq<char>, y: Seq<char>, c: char)
    requires
        free_of(a, c),
        free_of(x, c),
        a + seq![c] + b == x + seq![c] + y,
    ensures
        a == x,
        b == y,
{
    let s = a + seq![c] + b;
    let t = x + seq![c] + y;
    assert(s[a.len() as int] == c);
    assert(t[x.len() as int] == c);
    if a.len() < x.len() {
        assert(t[a.len() as int] == x[a.len() as int]);
    } else if x.len() < a.len() {
        assert(s[x.len() as int] == a[x.len() as int]);
    }
    assert(s.take(a.len() as int) == a);
    assert(t.take(x.len() as int) == x);
    assert(s.skip(a.len() as int + 1) == b);
    assert(t.skip(x.len() as int + 1) == y);
}

/// A text splits in one way at the last `c`.
pub proof fn lemma_split_at_last(a: Seq<char>, b: Seq<char>, x: Seq<char>, y: Seq<char>, c: char)
    requires
        free_of(b, c),
        free_of(y, c),
        a + seq![c] + b == x + seq![c] + y,
    ensures
        a == x,
        b == y,
{
    let s = a + seq![c] + b;
    let t = x + seq![c] + y;
    assert(s.len() == a.len() + 1 + b.len());
    assert(t.len() == x.len() + 1 + y.len());
    assert(s[a.len() as int] == c);
    assert(t[x.len() as int] == c);
    if a.len() < x.len() {
        assert(s[x.len() as int] == b[x.len() - a.len() - 1]);
    } else if x.len() < a.len() {
        assert(t[a.len() as int] == y[a.len() - x.len() - 1]);
    }
    assert(s.take(a.len() as int) == a);
    assert(t.take(x.len() as int) == x);
    assert(s.skip(a.len() as int + 1) == b);
    assert(t.skip(x.len() as int + 1) == y);
}

/// What follows a common beginning is equal if the whole is.
pub proof fn lemma_cancel_start(s: Seq<char>, a: Seq<char>, b: Seq<char>)
    requires
        s + a == s + b,
    ensures
        a == b,
{
    assert((s + a).skip(s.len() as int) == a);
    assert((s + b).skip(s.len() as int) == b);
}

/// What precedes a common end is equal if the whole is.
pub proof fn lemma_cancel_end(a: Seq<char>, b: Seq<char>, s: Seq<char>)
    requires
        a + s == b + s,
    ensures
        a == b,
{
    assert((a + s).len() == a.len() + s.len());
    assert((b + s).len() == b.len() + s.len());
    assert((a + s).take(a.len() as int) == a);
    assert((b + s).take(a.len() as int) == b);
}

/// The digits of a number are digits and denote it.
pub proof fn lemma_digits_value(n: nat)
    ensures
        all_digits(digits(n)),
        digits(n).len() > 0,
        digits_value(digits(n)) == n,
    decreases n,
{
    if n >= 10 {
        lemma_digits_value(n / 10);
        let head = digits(n / 10);
        let tail = digit_char(n % 10);
        assert(head.push(tail).drop_last() == head);
        assert(digits(n) == head.push(tail));
        assert(digits_value(digits(n)) == 10 * digits_value(head) + (tail as int - 48));
    } else {
        assert(digits(n).drop_last() == Seq::<char>::empty());
        assert(digits_value(Seq::<char>::empty()) == 0);
    }
}

/// Leading zeros do not change the number that digits denote.
pub proof fn lemma_leading_zeros(count: int, s: Seq<char>)
    ensures
        digits_value(zeros(count) + s) == digits_value(s),
    decreases s.len(), count,
{
    if s.len() > 0 {
        lemma_leading_zeros(count, s.drop_last());
        assert((zeros(count) + s).drop_last() == zeros(count) + s.drop_last());
    } else if count > 0 {
        lemma_leading_zeros(count - 1, s);
        assert((zeros(count) + s).drop_last() == zeros(count - 1) + s);
    } else {
        assert(zeros(count) + s == s);
    }
}

/// The decimal form starts with a sign or a digit, is otherwise made of digits,
/// and is the form of one number only.
pub proof fn lemma_decimal_unique(n: int, m: int)
    ensures
        decimal(n).len() > 0,
        forall|i: int|
            0 <= i < decimal(n).len() ==> #[trigger] decimal(n)[i] == '-' || is_digit(decimal(n)[i]),
        decimal(n) == decimal(m) ==> n == m,
{
    lemma_zero_padded_unique(n, m, 0);
    lemma_digits_value((if n < 0 { -n } else { n }) as nat);
    lemma_digits_value((if m < 0 { -m } else { m }) as nat);
    assert(zero_padded(n, 0) == decimal(n));
    assert(zero_padded(m, 0) == decimal(m));
}

/// The zero-padded form is made of digits behind an optional sign, and is the
/// form of one number only.
pub proof fn lemma_zero_padded_unique(n: int, m: int, width: int)
    ensures
        zero_padded(n, width).len() > 0,
        forall|i: int|
            0 <= i < zero_padded(n, width).len() ==> #[trigger] zero_padded(n, width)[i] == '-'
                || is_digit(zero_padded(n, width)[i]),
        zero_padded(n, width) == zero_padded(m, width) ==> n == m,
{
    let dn = digits((if n < 0 { -n } else { n }) as nat);
    let dm = digits((if m < 0 { -m } else { m }) as nat);
    lemma_digits_value((if n < 0 { -n } else { n }) as nat);
    lemma_digits_value((if m < 0 { -m } else { m }) as nat);
    let zn = zeros(if n < 0 { width - 1 - dn.len() } else { width - dn.len() });
    let zm = zeros(if m < 0 { width - 1 - dm.len() } else { width - dm.len() });
    let tn = zn + dn;
    let tm = zm + dm;
    lemma_leading_zeros(if n < 0 { width - 1 - dn.len() } else { width - dn.len() }, dn);
    lemma_leading_zeros(if m < 0 { width - 1 - dm.len() } else { width - dm.len() }, dm);
    assert(all_digits(tn)) by {
        assert forall|i: int| 0 <= i < tn.len() implies is_digit(#[trigger] tn[i]) by {
            if i >= zn.len() {
                assert(is_digit(dn[i - zn.len()]));
            }
        }
    }
    assert(all_digits(tm)) by {
        assert forall|i: int| 0 <= i < tm.len() implies is_digit(#[trigger] tm[i]) by {
            if i >= zm.len() {
                assert(is_digit(dm[i - zm.len()]));
            }
        }
    }
    let wn = zero_padded(n, width);
    let wm = zero_padded(m, width);
    if n < 0 {
        assert(wn == seq!['-'] + tn);
        assert forall|i: int| 0 <= i < wn.len() implies #[trigger] wn[i] == '-' || is_digit(
            wn[i],
        ) by {
            if i > 0 {
                assert(wn[i] == tn[i - 1]);
            }
        }
    } else {
        assert(wn == tn);
    }
    if m < 0 {
        assert(wm == seq!['-'] + tm);
    } else {
        assert(wm == tm);
    }
    if wn == wm {
        assert(is_digit(tn[0]));
        assert(is_digit(tm[0]));
        if n < 0 {
            assert(wn[0] == '-');
            if m >= 0 {
                assert(wm[0] == tm[0]);
            }
            assert(m < 0);
            lemma_cancel_start(seq!['-'], tn, tm);
        } else {
            assert(wn[0] == tn[0]);
            if m < 0 {
                assert(wm[0] == '-');
            }
            assert(m >= 0);
        }
        assert(tn == tm);
    }
}

/// A list joined by a character that its parts are free of is read back from
/// the text, where no part is empty.
pub proof fn lemma_joined_unique(a: Seq<Seq<char>>, b: Seq<Seq<char>>, c: char)
    requires
        forall|i: int| 0 <= i < a.len() ==> #[trigger] a[i].len() > 0 && free_of(a[i], c),
        forall|i: int| 0 <= i < b.len() ==> #[trigger] b[i].len() > 0 && free_of(b[i], c),
        joined(a, seq![c]) == joined(b, seq![c]),
    ensures
        a == b,
    decreases a.len(),
{
    let sep = seq![c];
    if a.len() == 0 {
        lemma_joined_length(b, c);
        assert(a == b);
    } else if b.len() == 0 {
        lemma_joined_length(a, c);
        assert(joined(b, sep).len() == 0);
    } else if a.len() == 1 && b.len() == 1 {
        assert(a == b);
    } else if a.len() == 1 {
        let head = joined(b.drop_last(), sep);
        assert(joined(b, sep)[head.len() as int] == c);
        assert(a[0][head.len() as int] == c);
    } else if b.len() == 1 {
        let head = joined(a.drop_last(), sep);
        assert(joined(a, sep)[head.len() as int] == c);
        assert(b[0][head.len() as int] == c);
    } else {
        let a1 = joined(a.drop_last(), sep);
        let b1 = joined(b.drop_last(), sep);
        assert(a[a.len() - 1].len() > 0);
        assert(b[b.len() - 1].len() > 0);
        lemma_split_at_last(a1, a.last(), b1, b.last(), c);
        lemma_joined_unique(a.drop_last(), b.drop_last(), c);
        assert(a.drop_last() == b.drop_last() && a.last() == b.last());
        assert(a == a.drop_last().push(a.last()));
        assert(b == b.drop_last().push(b.last()));
        assert(a == b);
    }
}

proof fn lemma_joined_length(a: Seq<Seq<char>>, c: char)
    requires
        forall|i: int| 0 <= i < a.len() ==> #[trigger] a[i].len() > 0,
    ensures
        a.len() > 0 ==> joined(a, seq![c]).len() > 0,
{
    if a.len() == 1 {
        assert(a[0].len() > 0);
    }
}

// ---------------------------------------------------------------------------
// Trimming
// ---------------------------------------------------------------------------
/// A trimmed text has no removable character at either end.
pub proof fn lemma_stripped_edges(s: Seq<char>, how: Trimming)
    ensures
        stripped(s, how).len() > 0 ==> !how.removes(stripped(s, how)[0]) && !how.removes(
            stripped(s, how).last(),
        ),
{
    lemma_strip_start(s, how);
    lemma_strip_end(strip_start(s, how), how);
}

proof fn lemma_strip_start(s: Seq<char>, how: Trimming)
    ensures
        strip_start(s, how).len() > 0 ==> !how.removes(strip_start(s, how)[0]),
    decreases s.len(),
{
    if s.len() > 0 && how.removes(s[0]) {
        lemma_strip_start(s.drop_first(), how);
    }
}

proof fn lemma_strip_end(s: Seq<char>, how: Trimming)
    ensures
        strip_end(s, how).len() > 0 ==> !how.removes(strip_end(s, how).last()) && s.len() > 0
            && strip_end(s, how)[0] == s[0],
    decreases s.len(),
{
    if s.len() > 0 && how.removes(s.last()) {
        lemma_strip_end(s.drop_last(), how);
    }
}

/// Trimming a trimmed text changes nothing.
pub proof fn lemma_stripped_twice(s: Seq<char>, how: Trimming)
    ensures
        stripped(stripped(s, how), how) == stripped(s, how),
{
    lemma_stripped_edges(s, how);
}

/// Trimming adds no character.
pub proof fn lemma_stripped_free(s: Seq<char>, how: Trimming, c: char)
    requires
        free_of(s, c),
    ensures
        free_of(stripped(s, how), c),
{
    lemma_strip_start_free(s, how, c);
    lemma_strip_end_free(strip_start(s, how), how, c);
}

proof fn lemma_strip_start_free(s: Seq<char>, how: Trimming, c: char)
    requires
        free_of(s, c),
    ensures
        free_of(strip_start(s, how), c),
    decreases s.len(),
{
    if s.len() > 0 && how.removes(s[0]) {
        lemma_strip_start_free(s.drop_first(), how, c);
    }
}

proof fn lemma_strip_end_free(s: Seq<char>, how: Trimming, c: char)
    requires
        free_of(s, c),
    ensures
        free_of(strip_end(s, how), c),
    decreases s.len(),
{
    if s.len() > 0 && how.removes(s.last()) {
        lemma_strip_end_free(s.drop_last(), how, c);
    }
}

/// No piece of a split text holds the separator.
pub proof fn lemma_split_pieces(s: Seq<char>, sep: char, at: int)
    requires
        0 <= at < split(s, sep).len(),
    ensures
        free_of(split(s, sep)[at], sep),
    decreases s.len(),
{
    if s.len() > 0 {
        let before = split(s.drop_last(), sep);
        lemma_split_nonempty(s.drop_last(), sep);
        if at < before.len() {
            lemma_split_pieces(s.drop_last(), sep, at);
        }
    }
}

} // verus!
