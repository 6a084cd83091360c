use kafka_sync::calendar::WindowStart;
use kafka_sync::object_key::{
    ascending_entries, fnv1a_64, object_key, partition_fragment, MAX_KEY_BYTES,
};
use std::collections::BTreeMap;

fn day() -> WindowStart {
    WindowStart { year: 2026, month: 8, day: 26 }
}

#[test]
fn fnv_of_known_texts() {
    assert_eq!(fnv1a_64(b""), 0xcbf2_9ce4_8422_2325);
    assert_eq!(fnv1a_64(b"a"), 0xaf63_dc4c_8601_ec8c);
    assert_eq!(fnv1a_64(b"foobar"), 0x8594_4171_f739_67e8);
}

#[test]
fn fragment_lists_partitions_in_ascending_order() {
    let offsets = BTreeMap::from([(10, 7), (1, 42), (-1, -3), (2, i64::MAX)]);
    assert_eq!(
        partition_fragment(&offsets),
        "Par-1-Off-3_Par1-Off42_Par2-Off9223372036854775807_Par10-Off7"
    );
    assert_eq!(partition_fragment(&BTreeMap::new()), "");
    assert_eq!(ascending_entries(&offsets), vec![(-1, -3), (1, 42), (2, i64::MAX), (10, 7)]);
}

#[test]
fn fragment_ignores_the_order_of_insertion() {
    let mut up = BTreeMap::new();
    let mut down = BTreeMap::new();
    for p in 0..20 {
        up.insert(p, i64::from(p) * 3);
        down.insert(19 - p, i64::from(19 - p) * 3);
    }
    assert_eq!(partition_fragment(&up), partition_fragment(&down));
}

#[test]
fn key_has_the_documented_layout() {
    let offsets = BTreeMap::from([(1, 42)]);
    assert_eq!(object_key("events", &day(), &offsets), "2026/08/26/events/Par1-Off42.json");
    let early = WindowStart { year: 7, month: 1, day: 2 };
    let two = BTreeMap::from([(3, 9), (0, 5)]);
    assert_eq!(object_key("a.b", &early, &two), "0007/01/02/a.b/Par0-Off5_Par3-Off9.json");
    let negative = WindowStart { year: -7, month: 12, day: 31 };
    assert_eq!(object_key("t", &negative, &offsets), "-007/12/31/t/Par1-Off42.json");
}

#[test]
fn oversized_key_names_the_hash() {
    let offsets: BTreeMap<i32, i64> = (0..100).map(|p| (p, 1000 + i64::from(p))).collect();
    let fragment = partition_fragment(&offsets);
    let key = object_key("events", &day(), &offsets);
    assert_eq!(key, "2026/08/26/events/Partitions-61f42cbfadc7901a.json");
    assert_eq!(
        key,
        format!("2026/08/26/events/Partitions-{:016x}.json", fnv1a_64(fragment.as_bytes()))
    );
    assert!(key.len() <= MAX_KEY_BYTES);
}

#[test]
fn key_is_spelled_out_up_to_the_limit() {
    let offsets = BTreeMap::from([(0, 1)]);
    let rest = "2026/08/26//Par0-Off1.json".len();
    let fits = "t".repeat(MAX_KEY_BYTES - rest);
    let key = object_key(&fits, &day(), &offsets);
    assert_eq!(key.len(), MAX_KEY_BYTES);
    assert!(key.ends_with("/Par0-Off1.json"));
    let over = "t".repeat(MAX_KEY_BYTES - rest + 1);
    assert!(object_key(&over, &day(), &offsets).contains("/Partitions-"));
    // The limit counts bytes, not characters.
    let wide = "é".repeat((MAX_KEY_BYTES - rest) / 2 + 1);
    assert!(object_key(&wide, &day(), &offsets).contains("/Partitions-"));
}

#[test]
fn keys_of_different_windows_differ() {
    let mut keys = Vec::new();
    for topic in ["a", "a/b", "b"] {
        for day in [26, 27] {
            for offsets in [
                BTreeMap::from([(1, 42)]),
                BTreeMap::from([(1, 4), (2, 2)]),
                BTreeMap::from([(14, 2)]),
                BTreeMap::from([(1, -42)]),
            ] {
                let start = WindowStart { year: 2026, month: 8, day };
                keys.push(object_key(topic, &start, &offsets));
            }
        }
    }
    let all = keys.len();
    keys.sort();
    keys.dedup();
    assert_eq!(keys.len(), all);
}
