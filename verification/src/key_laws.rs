//! What object keys promise: they identify their window and stay short.

use crate::calendar::WindowStart;
use crate::object_key::{
    ascending, fnv1a, fragment, hashed_fragment, is_oversized, key_prefix, labels, lemma_ascending,
    lemma_listing_unique, partition_label, window_key, MAX_KEY_BYTES,
};
use crate::text;
use crate::text_laws::{
    is_form_of, law_join_appends, law_split_follows_the_separator, law_split_joins_again,
    law_split_of_one_piece, law_zero_padded_denotes,
};
use vstd::prelude::*;
use vstd::utf8::encode_utf8;

verus! {

proof fn lemma_label_unique(a: (i32, i64), b: (i32, i64))
    requires
        partition_label(a) == partition_label(b),
    ensures
        a == b,
{
    reveal_strlit("Par");
    reveal_strlit("-Off");
    let (pa, oa) = (text::decimal(a.0 as int), text::decimal(a.1 as int));
    let (pb, ob) = (text::decimal(b.0 as int), text::decimal(b.1 as int));
    text::lemma_decimal_unique(a.0 as int, b.0 as int);
    text::lemma_decimal_unique(a.1 as int, b.1 as int);
    text::lemma_decimal_unique(b.0 as int, a.0 as int);
    let dash = seq!['-'];
    let ff = seq!['f', 'f'];
    assert(partition_label(a) == "Par"@ + ((pa + dash) + seq!['O'] + (ff + oa)));
    assert(partition_label(b) == "Par"@ + ((pb + dash) + seq!['O'] + (ff + ob)));
    text::lemma_cancel_start(
        "Par"@,
        (pa + dash) + seq!['O'] + (ff + oa),
        (pb + dash) + seq!['O'] + (ff + ob),
    );
    assert(text::free_of(pa + dash, 'O'));
    assert(text::free_of(pb + dash, 'O'));
    text::lemma_split_at_first(pa + dash, ff + oa, pb + dash, ff + ob, 'O');
    text::lemma_cancel_end(pa, pb, dash);
    text::lemma_cancel_start(ff, oa, ob);
}

/// A label is not empty, free of `_` and of separators, and does not begin like a
/// hash.
proof fn lemma_label_chars(entry: (i32, i64))
    ensures
        partition_label(entry).len() > 3,
        text::free_of(partition_label(entry), '_'),
        text::free_of(partition_label(entry), '/'),
        text::free_of(partition_label(entry), '\\'),
        partition_label(entry)[3] != 't',
{
    reveal_strlit("Par");
    reveal_strlit("-Off");
    text::lemma_decimal_unique(entry.0 as int, entry.0 as int);
    text::lemma_decimal_unique(entry.1 as int, entry.1 as int);
    let p = text::decimal(entry.0 as int);
    let o = text::decimal(entry.1 as int);
    assert(partition_label(entry) == "Par"@ + p + "-Off"@ + o);
    assert(partition_label(entry)[3] == p[0]);
}

proof fn lemma_labels_unique(a: Seq<(i32, i64)>, b: Seq<(i32, i64)>)
    requires
        labels(a) == labels(b),
    ensures
        a == b,
{
    reveal_strlit("_");
    let label = |entry: (i32, i64)| partition_label(entry);
    let la = a.map_values(label);
    let lb = b.map_values(label);
    assert("_"@ == seq!['_']);
    assert forall|i: int| 0 <= i < la.len() implies #[trigger] la[i].len() > 0 && text::free_of(
        la[i],
        '_',
    ) by {
        lemma_label_chars(a[i]);
    }
    assert forall|i: int| 0 <= i < lb.len() implies #[trigger] lb[i].len() > 0 && text::free_of(
        lb[i],
        '_',
    ) by {
        lemma_label_chars(b[i]);
    }
    text::lemma_joined_unique(la, lb, '_');
    assert(a.len() == b.len());
    assert forall|i: int| 0 <= i < a.len() implies a[i] == b[i] by {
        assert(la[i] == lb[i]);
        lemma_label_unique(a[i], b[i]);
    }
    assert(a == b);
}

/// The fragment names the consumed offsets: two windows with the same fragment
/// hold the same offsets of the same partitions.
pub proof fn law_fragment_identifies_offsets(a: Map<i32, i64>, b: Map<i32, i64>)
    requires
        fragment(a) == fragment(b),
    ensures
        a == b,
{
    lemma_labels_unique(ascending(a), ascending(b));
    lemma_ascending(a);
    lemma_ascending(b);
    let entries = ascending(a);
    assert forall|p: i32| a.contains_key(p) == b.contains_key(p) by {
        if a.contains_key(p) {
            let i = choose|i: int| 0 <= i < entries.len() && #[trigger] entries[i].0 == p;
            assert(b.contains_key(entries[i].0));
        }
        if b.contains_key(p) {
            let i = choose|i: int| 0 <= i < entries.len() && #[trigger] entries[i].0 == p;
            assert(a.contains_key(entries[i].0));
        }
    }
    assert forall|p: i32| a.contains_key(p) implies a[p] == b[p] by {
        let i = choose|i: int| 0 <= i < entries.len() && #[trigger] entries[i].0 == p;
        assert(a.contains_key(entries[i].0));
        assert(b.contains_key(entries[i].0));
    }
    assert(a =~= b);
}

proof fn lemma_labels_chars(entries: Seq<(i32, i64)>)
    ensures
        text::free_of(labels(entries), '/'),
        text::free_of(labels(entries), '\\'),
        entries.len() == 0 ==> labels(entries).len() == 0,
        entries.len() > 0 ==> labels(entries).len() > 3 && labels(entries)[3] != 't',
    decreases entries.len(),
{
    reveal_strlit("_");
    let label = |entry: (i32, i64)| partition_label(entry);
    let all = entries.map_values(label);
    if entries.len() == 1 {
        lemma_label_chars(entries[0]);
    } else if entries.len() > 1 {
        lemma_labels_chars(entries.drop_last());
        lemma_label_chars(entries.last());
        assert(all.drop_last() == entries.drop_last().map_values(label));
        assert(labels(entries) == labels(entries.drop_last()) + "_"@ + partition_label(
            entries.last(),
        ));
    }
}

proof fn lemma_hex_chars(n: nat, width: nat)
    ensures
        text::free_of(text::hex_digits(n, width), '/'),
        text::free_of(text::hex_digits(n, width), '\\'),
        text::hex_digits(n, width).len() == width,
    decreases width,
{
    if width > 0 {
        lemma_hex_chars(n / 16, (width - 1) as nat);
    }
}

/// The suffix of a key: what stands between the last `/` and `.json`.
pub open spec fn key_suffix(prefix: Seq<char>, fragment: Seq<char>) -> Seq<char> {
    if is_oversized(prefix, fragment) {
        hashed_fragment(fragment)
    } else {
        fragment
    }
}

proof fn lemma_hashed_chars(fragment: Seq<char>)
    ensures
        text::free_of(hashed_fragment(fragment), '/'),
        text::free_of(hashed_fragment(fragment), '\\'),
        hashed_fragment(fragment).len() == 27,
        hashed_fragment(fragment)[3] == 't',
{
    reveal_strlit("Partitions-");
    lemma_hex_chars(fnv1a(encode_utf8(fragment)) as nat, 16);
}

/// The last segment of a key is its suffix with `.json` behind it.
pub proof fn lemma_key_name(topic: Seq<char>, start: WindowStart, offsets: Map<i32, i64>)
    ensures
        ({
            let prefix = key_prefix(topic, start);
            let name = key_suffix(prefix, fragment(offsets)) + ".json"@;
            &&& window_key(topic, start, offsets) == prefix + seq!['/'] + name
            &&& text::free_of(name, '/')
            &&& text::free_of(name, '\\')
            &&& name.len() >= 5
        }),
{
    reveal_strlit("/");
    reveal_strlit(".json");
    assert("/"@ == seq!['/']);
    let prefix = key_prefix(topic, start);
    let suffix = key_suffix(prefix, fragment(offsets));
    lemma_labels_chars(ascending(offsets));
    lemma_hashed_chars(fragment(offsets));
    assert(window_key(topic, start, offsets) == prefix + seq!['/'] + (suffix + ".json"@));
}

proof fn lemma_prefix_unique(s: Seq<char>, a: WindowStart, t: Seq<char>, b: WindowStart)
    requires
        key_prefix(s, a) == key_prefix(t, b),
    ensures
        s == t,
        a == b,
{
    reveal_strlit("/");
    let slash = seq!['/'];
    assert("/"@ == slash);
    let (ya, ma, da) = (
        text::zero_padded(a.year as int, 4),
        text::zero_padded(a.month as int, 2),
        text::zero_padded(a.day as int, 2),
    );
    let (yb, mb, db) = (
        text::zero_padded(b.year as int, 4),
        text::zero_padded(b.month as int, 2),
        text::zero_padded(b.day as int, 2),
    );
    text::lemma_zero_padded_unique(a.year as int, b.year as int, 4);
    text::lemma_zero_padded_unique(b.year as int, a.year as int, 4);
    text::lemma_zero_padded_unique(a.month as int, b.month as int, 2);
    text::lemma_zero_padded_unique(b.month as int, a.month as int, 2);
    text::lemma_zero_padded_unique(a.day as int, b.day as int, 2);
    text::lemma_zero_padded_unique(b.day as int, a.day as int, 2);
    assert(text::free_of(ya, '/') && text::free_of(yb, '/'));
    assert(text::free_of(ma, '/') && text::free_of(mb, '/'));
    assert(text::free_of(da, '/') && text::free_of(db, '/'));
    let (ta, tb) = (da + slash + s, db + slash + t);
    let (ra, rb) = (ma + slash + ta, mb + slash + tb);
    assert(key_prefix(s, a) == ya + slash + ra);
    assert(key_prefix(t, b) == yb + slash + rb);
    text::lemma_split_at_first(ya, ra, yb, rb, '/');
    text::lemma_split_at_first(ma, ta, mb, tb, '/');
    text::lemma_split_at_first(da, s, db, t, '/');
}

/// A key identifies its window. Two windows with the same key are of the same
/// topic and day, and hold the same offsets; the one exception is two windows
/// whose partition lists are both too long to be spelled out and have the same
/// hash.
pub proof fn law_key_identifies_window(
    topic_a: Seq<char>,
    start_a: WindowStart,
    offsets_a: Map<i32, i64>,
    topic_b: Seq<char>,
    start_b: WindowStart,
    offsets_b: Map<i32, i64>,
)
    requires
        window_key(topic_a, start_a, offsets_a) == window_key(topic_b, start_b, offsets_b),
    ensures
        topic_a == topic_b,
        start_a == start_b,
        offsets_a == offsets_b || {
            &&& is_oversized(key_prefix(topic_a, start_a), fragment(offsets_a))
            &&& is_oversized(key_prefix(topic_b, start_b), fragment(offsets_b))
            &&& hashed_fragment(fragment(offsets_a)) == hashed_fragment(fragment(offsets_b))
        },
{
    let (fa, fb) = (fragment(offsets_a), fragment(offsets_b));
    let (pa, pb) = (key_prefix(topic_a, start_a), key_prefix(topic_b, start_b));
    let (sa, sb) = (key_suffix(pa, fa), key_suffix(pb, fb));
    lemma_key_name(topic_a, start_a, offsets_a);
    lemma_key_name(topic_b, start_b, offsets_b);
    text::lemma_split_at_last(pa, sa + ".json"@, pb, sb + ".json"@, '/');
    text::lemma_cancel_end(sa, sb, ".json"@);
    lemma_prefix_unique(topic_a, start_a, topic_b, start_b);
    lemma_labels_chars(ascending(offsets_a));
    lemma_labels_chars(ascending(offsets_b));
    lemma_hashed_chars(fa);
    lemma_hashed_chars(fb);
    if !is_oversized(pa, fa) && !is_oversized(pb, fb) {
        law_fragment_identifies_offsets(offsets_a, offsets_b);
    }
}

/// A key is at most [`MAX_KEY_BYTES`] long, whatever the number of partitions,
/// wherever the date and topic leave 33 bytes for the hashed form.
pub proof fn law_key_stays_short(topic: Seq<char>, start: WindowStart, offsets: Map<i32, i64>)
    requires
        text::byte_len(key_prefix(topic, start)) + 33 <= MAX_KEY_BYTES,
    ensures
        text::byte_len(window_key(topic, start, offsets)) <= MAX_KEY_BYTES,
{
    reveal_strlit("/");
    reveal_strlit(".json");
    reveal_strlit("Partitions-");
    let prefix = key_prefix(topic, start);
    let frag = fragment(offsets);
    let suffix = key_suffix(prefix, frag);
    text::lemma_byte_len_concat(prefix + "/"@ + suffix, ".json"@);
    text::lemma_byte_len_concat(prefix + "/"@, suffix);
    text::lemma_byte_len_concat(prefix, "/"@);
    vstd::utf8::is_ascii_chars_encode_utf8("/"@);
    vstd::utf8::is_ascii_chars_encode_utf8(".json"@);
    lemma_hashed_chars(frag);
    lemma_hex_ascii(fnv1a(encode_utf8(frag)) as nat, 16);
    assert(vstd::utf8::is_ascii_chars(hashed_fragment(frag)));
    vstd::utf8::is_ascii_chars_encode_utf8(hashed_fragment(frag));
}

proof fn lemma_hex_ascii(n: nat, width: nat)
    ensures
        vstd::utf8::is_ascii_chars(text::hex_digits(n, width)),
    decreases width,
{
    if width > 0 {
        lemma_hex_ascii(n / 16, (width - 1) as nat);
    }
}

// ---------------------------------------------------------------------------
// Reading a key
// ---------------------------------------------------------------------------
proof fn lemma_form(n: int, width: int)
    ensures
        is_form_of(text::zero_padded(n, width), n, width),
        forall|k: int|
            0 <= k < text::zero_padded(n, width).len() ==> #[trigger] text::zero_padded(
                n,
                width,
            )[k] != '/',
{
    law_zero_padded_denotes(n, width);
    text::lemma_zero_padded_unique(n, n, width);
}

/// A key is read back segment by segment: the first denotes the year in four
/// characters or more, the second the month and the third the day in two or more;
/// the topic follows, and one last segment.
pub proof fn law_keys_read_back(topic: Seq<char>, start: WindowStart, offsets: Map<i32, i64>)
    ensures
        ({
            let parts = text::split(window_key(topic, start, offsets), '/');
            &&& parts.len() >= 5
            &&& is_form_of(parts[0], start.year as int, 4)
            &&& is_form_of(parts[1], start.month as int, 2)
            &&& is_form_of(parts[2], start.day as int, 2)
            &&& text::joined(parts.subrange(3, parts.len() - 1), seq!['/']) == topic
        }),
{
    reveal_strlit("/");
    let slash = seq!['/'];
    assert("/"@ == slash);
    let year = text::zero_padded(start.year as int, 4);
    let month = text::zero_padded(start.month as int, 2);
    let day = text::zero_padded(start.day as int, 2);
    lemma_form(start.year as int, 4);
    lemma_form(start.month as int, 2);
    lemma_form(start.day as int, 2);
    lemma_key_name(topic, start, offsets);
    let name = key_suffix(key_prefix(topic, start), fragment(offsets)) + ".json"@;
    let rest = topic + slash + name;
    let days = day + slash + rest;
    let months = month + slash + days;
    let key = window_key(topic, start, offsets);
    assert(key == year + slash + months);
    law_split_follows_the_separator(year, months, '/');
    law_split_follows_the_separator(month, days, '/');
    law_split_follows_the_separator(day, rest, '/');
    law_split_follows_the_separator(topic, name, '/');
    law_split_of_one_piece(year, '/');
    law_split_of_one_piece(month, '/');
    law_split_of_one_piece(day, '/');
    law_split_of_one_piece(name, '/');
    law_split_joins_again(topic, '/');
    let parts = text::split(key, '/');
    assert(parts == seq![year] + (seq![month] + (seq![day] + (text::split(topic, '/') + seq![
        name,
    ]))));
    assert(parts.subrange(3, parts.len() - 1) == text::split(topic, '/'));
}

/// The last segment of a key spells the window's partitions and offsets out, as
/// long as the key then has at most 960 bytes; else it has their 64-bit hash, in
/// sixteen hexadecimal digits. What stands before it is the same either way.
pub proof fn law_keys_are_spelled_or_hashed(
    topic: Seq<char>,
    start: WindowStart,
    offsets: Map<i32, i64>,
)
    ensures
        ({
            let key = window_key(topic, start, offsets);
            let parts = text::split(key, '/');
            let folder = text::joined(parts.drop_last(), seq!['/']);
            let spelled = folder + seq!['/'] + fragment(offsets) + seq!['.', 'j', 's', 'o', 'n'];
            let hash = text::hex_digits(fnv1a(encode_utf8(fragment(offsets))) as nat, 16);
            &&& encode_utf8(spelled).len() <= 960 ==> key == spelled
            &&& encode_utf8(spelled).len() > 960 ==> key == folder + "/Partitions-"@ + hash + seq![
                '.',
                'j',
                's',
                'o',
                'n',
            ]
        }),
{
    reveal_strlit("/");
    reveal_strlit(".json");
    reveal_strlit("Partitions-");
    reveal_strlit("/Partitions-");
    let prefix = key_prefix(topic, start);
    let frag = fragment(offsets);
    let key = window_key(topic, start, offsets);
    let name = key_suffix(prefix, frag) + ".json"@;
    lemma_key_name(topic, start, offsets);
    law_split_follows_the_separator(prefix, name, '/');
    law_split_of_one_piece(name, '/');
    law_split_joins_again(prefix, '/');
    let parts = text::split(key, '/');
    assert(parts.drop_last() == text::split(prefix, '/'));
    let json = seq!['.', 'j', 's', 'o', 'n'];
    assert(".json"@ == json);
    assert("/"@ == seq!['/']);
    assert("/Partitions-"@ == seq!['/'] + "Partitions-"@);
    law_oversized_keys(prefix, frag);
    let hash = text::hex_digits(fnv1a(encode_utf8(frag)) as nat, 16);
    assert(prefix + "/Partitions-"@ + hash + json == prefix + seq!['/'] + (("Partitions-"@ + hash)
        + json));
    assert(prefix + seq!['/'] + frag + json == prefix + seq!['/'] + (frag + json));
}

/// A key is oversized exactly if it would have more than 960 bytes with its
/// partitions spelled out.
pub proof fn law_oversized_keys(prefix: Seq<char>, fragment: Seq<char>)
    ensures
        is_oversized(prefix, fragment) <==> encode_utf8(
            prefix + seq!['/'] + fragment + seq!['.', 'j', 's', 'o', 'n'],
        ).len() > 960,
{
    let slash = seq!['/'];
    let json = seq!['.', 'j', 's', 'o', 'n'];
    text::lemma_byte_len_concat(prefix + slash + fragment, json);
    text::lemma_byte_len_concat(prefix + slash, fragment);
    text::lemma_byte_len_concat(prefix, slash);
    vstd::utf8::is_ascii_chars_encode_utf8(slash);
    vstd::utf8::is_ascii_chars_encode_utf8(json);
}

/// A fragment names each partition with its offset, in ascending order: a
/// partition above all others adds its label at the end, and nothing else.
pub proof fn law_fragments_grow(offsets: Map<i32, i64>, partition: i32, offset: i64)
    requires
        forall|p: i32| #[trigger] offsets.contains_key(p) ==> p < partition,
    ensures
        fragment(Map::empty()) == Seq::<char>::empty(),
        ({
            let label = seq!['P', 'a', 'r'] + text::decimal(partition as int) + seq![
                '-',
                'O',
                'f',
                'f',
            ] + text::decimal(offset as int);
            &&& offsets == Map::<i32, i64>::empty() ==> fragment(
                offsets.insert(partition, offset),
            ) == label
            &&& offsets != Map::<i32, i64>::empty() ==> fragment(
                offsets.insert(partition, offset),
            ) == fragment(offsets) + seq!['_'] + label
        }),
{
    reveal_strlit("Par");
    reveal_strlit("-Off");
    reveal_strlit("_");
    assert("_"@ == seq!['_']);
    assert("Par"@ == seq!['P', 'a', 'r']);
    assert("-Off"@ == seq!['-', 'O', 'f', 'f']);
    let empty = Map::<i32, i64>::empty();
    lemma_ascending(empty);
    if ascending(empty).len() > 0 {
        assert(empty.contains_key(ascending(empty)[0].0));
    }
    let entry = (partition, offset);
    let grown = offsets.insert(partition, offset);
    let before = ascending(offsets);
    let entries = before.push(entry);
    lemma_ascending(offsets);
    lemma_ascending(grown);
    assert forall|i: int| 0 <= i < entries.len() implies #[trigger] grown.contains_key(entries[i].0)
        && grown[entries[i].0] == entries[i].1 by {
        if i < before.len() {
            assert(offsets.contains_key(before[i].0));
        }
    }
    assert forall|p: i32| #[trigger] grown.contains_key(p) implies exists|i: int|
        0 <= i < entries.len() && #[trigger] entries[i].0 == p by {
        if p == partition {
            assert(entries[entries.len() - 1].0 == p);
        } else {
            assert(offsets.contains_key(p));
            let i = choose|i: int| 0 <= i < before.len() && #[trigger] before[i].0 == p;
            assert(entries[i].0 == p);
        }
    }
    assert forall|i: int, j: int| 0 <= i < j < entries.len() implies entries[i].0
        < entries[j].0 by {
        assert(offsets.contains_key(before[i].0));
    }
    lemma_listing_unique(ascending(grown), entries, grown);
    let label = |e: (i32, i64)| partition_label(e);
    let all = before.map_values(label);
    assert(entries.map_values(label) == all.push(partition_label(entry)));
    law_join_appends(all, partition_label(entry), "_"@);
    if offsets != empty {
        assert(exists|p: i32| #[trigger] offsets.contains_key(p)) by {
            if forall|p: i32| !#[trigger] offsets.contains_key(p) {
                assert(offsets =~= empty);
            }
        }
        let p = choose|p: i32| #[trigger] offsets.contains_key(p);
        let i = choose|i: int| 0 <= i < before.len() && #[trigger] before[i].0 == p;
        assert(before.len() > 0);
    }
}

/// The hash is FNV-1a of 64 bits: from the offset basis on, each byte is mixed in
/// by an exclusive or and a multiplication by the prime.
pub proof fn law_hash_is_fnv1a(bytes: Seq<u8>, byte: u8)
    ensures
        fnv1a(Seq::empty()) == 14_695_981_039_346_656_037,
        fnv1a(bytes.push(byte)) == ((fnv1a(bytes) ^ (byte as u64)) * 1_099_511_628_211)
            % 0x1_0000_0000_0000_0000,
{
    assert(bytes.push(byte).drop_last() == bytes);
}

} // verus!
