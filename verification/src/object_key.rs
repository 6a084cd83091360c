//! Deterministic object keys.
//!
//! A window is stored under
//! `yyyy/mm/dd/<topic>/Par<partition>-Off<offset>[_...].json`, with the
//! partitions in ascending order.

use crate::calendar::WindowStart;
use crate::text;
use std::collections::BTreeMap;
use vstd::prelude::*;
use vstd::laws_cmp::obeys_cmp;
use vstd::std_specs::btree::increasing_seq;
use vstd::std_specs::cmp::OrdSpec;
use vstd::std_specs::iter::IteratorSpec;
use vstd::utf8::encode_utf8;

verus! {

/// S3 object keys are limited to 1024 bytes; stay comfortably below that
/// before the partition list is replaced by its hash.
pub const MAX_KEY_BYTES: usize = 960;

// ---------------------------------------------------------------------------
// Partitions in order
// ---------------------------------------------------------------------------
/// `entries` lists the map `offsets` in ascending order of the partitions.
pub open spec fn lists_ascending(entries: Seq<(i32, i64)>, offsets: Map<i32, i64>) -> bool {
    &&& forall|i: int, j: int| 0 <= i < j < entries.len() ==> entries[i].0 < entries[j].0
    &&& forall|i: int|
        0 <= i < entries.len() ==> #[trigger] offsets.contains_key(entries[i].0)
            && offsets[entries[i].0] == entries[i].1
    &&& forall|p: i32| #[trigger]
        offsets.contains_key(p) ==> exists|i: int|
            0 <= i < entries.len() && #[trigger] entries[i].0 == p
}

/// The entries of `offsets` with a partition below `bound`, in ascending order.
pub open spec fn ascending_below(offsets: Map<i32, i64>, bound: int) -> Seq<(i32, i64)>
    decreases bound - i32::MIN,
{
    if bound <= i32::MIN {
        Seq::empty()
    } else {
        let p = (bound - 1) as i32;
        let below = ascending_below(offsets, bound - 1);
        if offsets.contains_key(p) {
            below.push((p, offsets[p]))
        } else {
            below
        }
    }
}

/// The entries of `offsets` in ascending order of the partitions.
pub open spec fn ascending(offsets: Map<i32, i64>) -> Seq<(i32, i64)> {
    ascending_below(offsets, i32::MAX + 1)
}

proof fn lemma_ascending_below(offsets: Map<i32, i64>, bound: int)
    requires
        bound <= i32::MAX + 1,
    ensures
        forall|i: int, j: int|
            0 <= i < j < ascending_below(offsets, bound).len() ==> ascending_below(
                offsets,
                bound,
            )[i].0 < ascending_below(offsets, bound)[j].0,
        forall|i: int|
            0 <= i < ascending_below(offsets, bound).len() ==> {
                let entry = #[trigger] ascending_below(offsets, bound)[i];
                entry.0 < bound && offsets.contains_key(entry.0) && offsets[entry.0] == entry.1
            },
        forall|p: i32| #[trigger]
            offsets.contains_key(p) && p < bound ==> exists|i: int|
                0 <= i < ascending_below(offsets, bound).len() && #[trigger] ascending_below(
                    offsets,
                    bound,
                )[i].0 == p,
    decreases bound - i32::MIN,
{
    if bound > i32::MIN {
        lemma_ascending_below(offsets, bound - 1);
        let entries = ascending_below(offsets, bound);
        let below = ascending_below(offsets, bound - 1);
        assert forall|p: i32| #[trigger] offsets.contains_key(p) && p < bound implies exists|i: int|
            0 <= i < entries.len() && #[trigger] entries[i].0 == p by {
            if p < bound - 1 {
                let i = choose|i: int| 0 <= i < below.len() && #[trigger] below[i].0 == p;
                assert(entries[i].0 == p);
            } else {
                assert(entries[entries.len() - 1].0 == p);
            }
        }
    }
}

/// Every map has its ascending listing.
pub proof fn lemma_ascending(offsets: Map<i32, i64>)
    ensures
        lists_ascending(ascending(offsets), offsets),
{
    lemma_ascending_below(offsets, i32::MAX + 1);
}

/// There is one ascending listing at most.
pub proof fn lemma_listing_unique(a: Seq<(i32, i64)>, b: Seq<(i32, i64)>, offsets: Map<i32, i64>)
    requires
        lists_ascending(a, offsets),
        lists_ascending(b, offsets),
    ensures
        a == b,
    decreases a.len(),
{
    if a.len() == 0 {
        if b.len() > 0 {
            assert(offsets.contains_key(b[0].0));
        }
        assert(a == b);
    } else {
        assert(offsets.contains_key(a.last().0));
        assert(b.len() > 0);
        assert(offsets.contains_key(b.last().0));
        let i = choose|i: int| 0 <= i < b.len() && #[trigger] b[i].0 == a.last().0;
        let j = choose|j: int| 0 <= j < a.len() && #[trigger] a[j].0 == b.last().0;
        assert(a.last().0 == b.last().0);
        let last = a.last().0;
        let rest = offsets.remove(last);
        lemma_listing_shorter(a, offsets);
        lemma_listing_shorter(b, offsets);
        lemma_listing_unique(a.drop_last(), b.drop_last(), rest);
        assert(a.last() == b.last());
        assert(a == a.drop_last().push(a.last()));
        assert(b == b.drop_last().push(b.last()));
    }
}

/// The last partition can be left out of a map and its listing together.
pub proof fn lemma_listing_shorter(entries: Seq<(i32, i64)>, offsets: Map<i32, i64>)
    requires
        lists_ascending(entries, offsets),
        entries.len() > 0,
    ensures
        lists_ascending(entries.drop_last(), offsets.remove(entries.last().0)),
{
    let rest = offsets.remove(entries.last().0);
    let shorter = entries.drop_last();
    assert forall|i: int| 0 <= i < shorter.len() implies #[trigger] rest.contains_key(shorter[i].0)
        && rest[shorter[i].0] == shorter[i].1 by {
        assert(offsets.contains_key(entries[i].0));
    }
    assert forall|p: i32| #[trigger] rest.contains_key(p) implies exists|i: int|
        0 <= i < shorter.len() && #[trigger] shorter[i].0 == p by {
        assert(offsets.contains_key(p));
        let i = choose|i: int| 0 <= i < entries.len() && #[trigger] entries[i].0 == p;
        assert(shorter[i].0 == p);
    }
}

/// A map has as many entries as its listing.
pub proof fn lemma_listing_len(entries: Seq<(i32, i64)>, offsets: Map<i32, i64>)
    requires
        lists_ascending(entries, offsets),
    ensures
        offsets.dom().finite(),
        entries.len() == offsets.len(),
    decreases entries.len(),
{
    if entries.len() == 0 {
        assert(offsets.dom() =~= Set::empty());
    } else {
        let last = entries.last().0;
        let rest = offsets.remove(last);
        lemma_listing_shorter(entries, offsets);
        lemma_listing_len(entries.drop_last(), rest);
        assert(offsets.contains_key(last));
        assert(offsets.dom() =~= rest.dom().insert(last));
    }
}

/// The entries of `offsets` in ascending order of the partitions.
pub fn ascending_entries(offsets: &BTreeMap<i32, i64>) -> (entries: Vec<(i32, i64)>)
    ensures
        entries@ == ascending(offsets@),
        lists_ascending(entries@, offsets@),
{
    broadcast use vstd::laws_cmp::group_laws_cmp;

    let iter = offsets.iter();
    let ghost all = iter.remaining();
    let ghost keys = all.map_values(|kv: (&i32, &i64)| *kv.0);
    let ghost listing = all.map_values(|kv: (&i32, &i64)| (*kv.0, *kv.1));
    proof {
        assert(obeys_cmp::<i32>());
        assert(increasing_seq(keys));
        assert forall|i: int, j: int| 0 <= i < j < listing.len() implies listing[i].0
            < listing[j].0 by {
            assert(keys[i].cmp_spec(&keys[j]) is Less);
        }
        assert forall|i: int| 0 <= i < listing.len() implies #[trigger] offsets@.contains_key(
            listing[i].0,
        ) && offsets@[listing[i].0] == listing[i].1 by {
            assert(offsets@.contains_key(*all[i].0));
        }
        assert forall|p: i32| #[trigger] offsets@.contains_key(p) implies exists|i: int|
            0 <= i < listing.len() && #[trigger] listing[i].0 == p by {
            assert(all.contains((&p, &offsets@[p])));
            let i = choose|i: int| 0 <= i < all.len() && all[i] == (&p, &offsets@[p]);
            assert(listing[i].0 == p);
        }
        assert(lists_ascending(listing, offsets@));
    }
    let mut entries: Vec<(i32, i64)> = Vec::new();
    for (partition, offset) in it: iter
        invariant
            it.seq() == all,
            listing == all.map_values(|kv: (&i32, &i64)| (*kv.0, *kv.1)),
            entries@.len() == it.index(),
            forall|i: int| 0 <= i < entries@.len() ==> entries@[i] == listing[i],
    {
        entries.push((*partition, *offset));
    }
    assert(entries@ == listing);
    proof {
        lemma_ascending(offsets@);
        lemma_listing_unique(entries@, ascending(offsets@), offsets@);
    }
    entries
}

// ---------------------------------------------------------------------------
// The parts of a key
// ---------------------------------------------------------------------------
/// `Par<partition>-Off<offset>`.
pub open spec fn partition_label(entry: (i32, i64)) -> Seq<char> {
    "Par"@ + text::decimal(entry.0 as int) + "-Off"@ + text::decimal(entry.1 as int)
}

/// The labels of `entries` with `_` between them.
pub open spec fn labels(entries: Seq<(i32, i64)>) -> Seq<char> {
    text::joined(entries.map_values(|entry: (i32, i64)| partition_label(entry)), "_"@)
}

/// The part of a key that names a window's partitions and offsets.
pub open spec fn fragment(offsets: Map<i32, i64>) -> Seq<char> {
    labels(ascending(offsets))
}

/// The 64-bit FNV-1a hash.
pub open spec fn fnv1a(bytes: Seq<u8>) -> u64
    decreases bytes.len(),
{
    if bytes.len() == 0 {
        0xcbf2_9ce4_8422_2325
    } else {
        (fnv1a(bytes.drop_last()) ^ (bytes.last() as u64)).wrapping_mul(0x0000_0100_0000_01b3)
    }
}

/// `yyyy/mm/dd/<topic>`.
pub open spec fn key_prefix(topic: Seq<char>, start: WindowStart) -> Seq<char> {
    text::zero_padded(start.year as int, 4) + "/"@ + text::zero_padded(start.month as int, 2)
        + "/"@ + text::zero_padded(start.day as int, 2) + "/"@ + topic
}

/// `Partitions-<hash of the fragment>`.
pub open spec fn hashed_fragment(fragment: Seq<char>) -> Seq<char> {
    "Partitions-"@ + text::hex_digits(fnv1a(encode_utf8(fragment)) as nat, 16)
}

/// Whether a key that spells the fragment out would be over [`MAX_KEY_BYTES`].
pub open spec fn is_oversized(prefix: Seq<char>, fragment: Seq<char>) -> bool {
    text::byte_len(prefix) + text::byte_len(fragment) + 6 > MAX_KEY_BYTES
}

/// The key of a window: `<prefix>/<fragment>.json`, with the hash of the
/// fragment in its place where the key would be oversized.
pub open spec fn window_key(
    topic: Seq<char>,
    start: WindowStart,
    offsets: Map<i32, i64>,
) -> Seq<char> {
    let prefix = key_prefix(topic, start);
    let suffix = if is_oversized(prefix, fragment(offsets)) {
        hashed_fragment(fragment(offsets))
    } else {
        fragment(offsets)
    };
    prefix + "/"@ + suffix + ".json"@
}

/// FNV-1a (64-bit): deterministic, and distributed well enough to tell
/// pathologically long partition lists apart within a day prefix.
pub fn fnv1a_64(bytes: &[u8]) -> (hash: u64)
    ensures
        hash == fnv1a(bytes@),
{
    let n: usize = bytes.len();
    let mut hash: u64 = 0xcbf2_9ce4_8422_2325;
    let mut i: usize = 0;
    while i < n
        invariant
            n == bytes@.len(),
            i <= n,
            hash == fnv1a(bytes@.take(i as int)),
        decreases n - i,
    {
        assert(bytes@.take(i + 1).drop_last() == bytes@.take(i as int));
        hash = (hash ^ (bytes[i] as u64)).wrapping_mul(0x0000_0100_0000_01b3);
        i = i + 1;
    }
    assert(bytes@.take(n as int) == bytes@);
    hash
}

/// Names each partition with its offset, in ascending order of the partitions:
/// the same text however the map was filled.
pub fn partition_fragment(partition_offsets: &BTreeMap<i32, i64>) -> (text: String)
    ensures
        text@ == fragment(partition_offsets@),
{
    let entries = ascending_entries(partition_offsets);
    let ghost label = |entry: (i32, i64)| partition_label(entry);
    let n: usize = entries.len();
    let mut text = String::new();
    let mut i: usize = 0;
    while i < n
        invariant
            n == entries.len(),
            i <= n,
            label == (|entry: (i32, i64)| partition_label(entry)),
            text@ == text::joined(entries@.map_values(label).take(i as int), "_"@),
        decreases n - i,
    {
        let ghost before = text@;
        if i > 0 {
            text.append("_");
        }
        let ghost separated = text@;
        let (partition, offset) = entries[i];
        text.append("Par");
        text::push_decimal(&mut text, partition as i64);
        text.append("-Off");
        text::push_decimal(&mut text, offset);
        assert(text@ == separated + partition_label(entries@[i as int]));
        assert(entries@.map_values(label).take(i + 1).drop_last() == entries@.map_values(
            label,
        ).take(i as int));
        i = i + 1;
    }
    assert(entries@.map_values(label).take(n as int) == entries@.map_values(label));
    text
}

/// Deterministic object key: `yyyy/mm/dd/<topic>/Par<p>-Off<o>_....json`, with
/// the partitions in ascending order.
///
/// The date is that of processing, so a retry that straddles midnight lands
/// under the next day's prefix. A key that would be oversized names the
/// partitions by the FNV-1a hash of their fragment.
pub fn object_key(
    topic: &str,
    window_start: &WindowStart,
    partition_offsets: &BTreeMap<i32, i64>,
) -> (key: String)
    ensures
        key@ == window_key(topic@, *window_start, partition_offsets@),
{
    let mut key = String::new();
    text::push_zero_padded(&mut key, window_start.year as i64, 4);
    key.append("/");
    text::push_zero_padded(&mut key, window_start.month as i64, 2);
    key.append("/");
    text::push_zero_padded(&mut key, window_start.day as i64, 2);
    key.append("/");
    key.append(topic);
    assert(key@ == key_prefix(topic@, *window_start));
    let fragment = partition_fragment(partition_offsets);
    let size: usize = text::encoded_len(key.as_str()).saturating_add(
        text::encoded_len(fragment.as_str()),
    ).saturating_add(6);
    key.append("/");
    if size > MAX_KEY_BYTES {
        let ghost before = key@;
        key.append("Partitions-");
        text::push_hex(&mut key, fnv1a_64(fragment.as_str().as_bytes()), 16);
        assert(key@ == before + hashed_fragment(fragment@));
    } else {
        key.append(fragment.as_str());
    }
    key.append(".json");
    key
}

} // verus!
