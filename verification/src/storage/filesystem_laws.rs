//! What holds of every object on the local filesystem: it stays below the root,
//! and it is published whole or not at all.

use crate::calendar::WindowStart;
use crate::key_laws::{key_suffix, lemma_key_name};
use crate::object_key::{fragment, key_prefix, window_key};
use crate::storage::filesystem::{
    extended, has_drive, is_anchored, is_safe_key, is_separator, is_verbatim, main_separator,
    naming, path_below, segments, stage_after, temp_suffix, unified, FileSystemStore, PathStyle,
    PutStage,
};
use crate::text;
use crate::text_laws::{
    law_split_follows_the_separator, law_split_joins_again, law_split_of_one_piece,
    law_strip_end_keeps_the_front,
};
use vstd::prelude::*;

verus! {

// ---------------------------------------------------------------------------
// Staying below the root
// ---------------------------------------------------------------------------
/// How many directories below its start a path leads: `..` leads up, an empty
/// segment and `.` lead nowhere, and every other segment leads down.
pub open spec fn depth(path: Seq<Seq<char>>) -> int
    decreases path.len(),
{
    if path.len() == 0 {
        0
    } else {
        depth(path.drop_last()) + if path.last() == ".."@ {
            -1int
        } else if path.last().len() == 0 || path.last() == "."@ {
            0
        } else {
            1
        }
    }
}

/// A key that would leave the root is refused: one that is absolute or has a
/// drive, and one that leads above its start anywhere on its way.
pub proof fn law_escaping_keys_are_refused(style: PathStyle, key: Seq<char>, steps: int)
    requires
        0 <= steps <= segments(style, key).len(),
    ensures
        key.len() > 0 && key[0] == '/' ==> !is_safe_key(style, key),
        is_anchored(style, key) ==> !is_safe_key(style, key),
        depth(segments(style, key).take(steps)) < 0 ==> !is_safe_key(style, key),
    decreases steps,
{
    if steps > 0 {
        let all = segments(style, key);
        law_escaping_keys_are_refused(style, key, steps - 1);
        assert(all.take(steps).drop_last() == all.take(steps - 1));
        assert(all.take(steps).last() == all[steps - 1]);
    }
}

/// The path of an object is the root followed by its key, and nothing else:
/// different keys have different paths. (Onto a verbatim root a key is written
/// segment by segment, so that `a/b` and `a\b` have one path.)
pub proof fn law_paths_identify_keys(
    style: PathStyle,
    root: Seq<char>,
    a: Seq<char>,
    b: Seq<char>,
)
    requires
        !is_verbatim(style, root),
        path_below(style, root, a) == path_below(style, root, b),
    ensures
        a == b,
{
    if root.len() == 0 || is_separator(style, root.last()) || has_drive(style, root) && root.len()
        == 2 {
        text::lemma_cancel_start(root, a, b);
    } else {
        text::lemma_cancel_start(root + seq![main_separator(style)], a, b);
    }
}

/// A key is cut at its separators, and nowhere else: its segments hold none, and
/// joined by `/` they are the key with `/` for every separator.
pub proof fn law_keys_are_cut_at_separators(style: PathStyle, key: Seq<char>)
    ensures
        ({
            let whole = text::joined(segments(style, key), seq!['/']);
            &&& segments(style, key).len() > 0
            &&& whole.len() == key.len()
            &&& forall|k: int|
                0 <= k < key.len() ==> #[trigger] whole[k] == if style is Windows && key[k]
                    == '\\' {
                    '/'
                } else {
                    key[k]
                }
        }),
        forall|i: int, k: int|
            0 <= i < segments(style, key).len() && 0 <= k < segments(style, key)[i].len()
                ==> #[trigger] segments(style, key)[i][k] != '/',
{
    law_split_joins_again(unified(style, key), '/');
}

/// A key is accepted exactly if it does not begin with a separator or a drive and no
/// segment of it is `..`.
pub proof fn law_safe_keys(style: PathStyle, key: Seq<char>)
    ensures
        is_safe_key(style, key) <==> {
            &&& key.len() > 0 ==> key[0] != '/'
            &&& key.len() > 0 && style is Windows ==> key[0] != '\\'
            &&& key.len() > 1 && style is Windows && key[1] == ':' ==> !('a' <= key[0] <= 'z')
                && !('A' <= key[0] <= 'Z')
            &&& forall|i: int|
                0 <= i < segments(style, key).len() ==> #[trigger] segments(style, key)[i] != seq![
                    '.',
                    '.',
                ]
        },
{
    reveal_strlit("..");
    assert(".."@ =~= seq!['.', '.']);
}

/// The root is one of the paths that Windows takes as they stand.
pub open spec fn starts_verbatim(root: Seq<char>) -> bool {
    root.len() >= 4 && root[0] == '\\' && root[1] == '\\' && root[2] == '?' && root[3] == '\\'
}

/// Nothing has to stand between the root and a key: the root is empty, ends with a
/// separator, or is a drive alone.
pub open spec fn needs_no_separator(style: PathStyle, root: Seq<char>) -> bool {
    ||| root.len() == 0
    ||| root.last() == '/'
    ||| style is Windows && root.last() == '\\'
    ||| style is Windows && root.len() == 2 && root[1] == ':' && ('a' <= root[0] <= 'z' || 'A'
        <= root[0] <= 'Z')
}

proof fn lemma_verbatim(style: PathStyle, root: Seq<char>)
    ensures
        is_verbatim(style, root) <==> style is Windows && starts_verbatim(root),
{
    reveal_strlit("\\\\?\\");
    if root.len() >= 4 {
        let start = root.take(4);
        assert(start[0] == root[0] && start[1] == root[1]);
        assert(start[2] == root[2] && start[3] == root[3]);
        if starts_verbatim(root) {
            assert(start =~= "\\\\?\\"@);
        }
    }
}

/// An object is stored at the root with its whole key behind it, and one separator
/// between them where the root needs one.
pub proof fn law_objects_stand_below_the_root(style: PathStyle, root: Seq<char>, key: Seq<char>)
    requires
        !(style is Windows && starts_verbatim(root)) || key.len() == 0,
    ensures
        needs_no_separator(style, root) ==> path_below(style, root, key) == root + key,
        !needs_no_separator(style, root) && style is Unix ==> path_below(style, root, key) == root
            + seq!['/'] + key,
        !needs_no_separator(style, root) && style is Windows ==> path_below(style, root, key)
            == root + seq!['\\'] + key,
{
    lemma_verbatim(style, root);
}

/// Below a verbatim root an object is stored segment by segment: the root without
/// the backslashes at its end, then a backslash and a segment for each that names
/// something.
pub proof fn law_verbatim_roots_take_segments(root: Seq<char>, key: Seq<char>)
    requires
        starts_verbatim(root),
        key.len() > 0,
    ensures
        exists|to: int|
            {
                &&& 0 <= to <= root.len()
                &&& to > 0 ==> root[to - 1] != '\\'
                &&& forall|k: int| to <= k < root.len() ==> #[trigger] root[k] == '\\'
                &&& path_below(PathStyle::Windows, root, key) == extended(
                    #[trigger] root.take(to),
                    naming(segments(PathStyle::Windows, key)),
                )
            },
{
    lemma_verbatim(PathStyle::Windows, root);
    law_strip_end_keeps_the_front(root, '\\');
    let base = text::strip_end(root, text::Trimming::Only('\\'));
    let to = base.len() as int;
    assert(base == root.take(to));
    if to > 0 {
        assert(base.last() == root[to - 1]);
    }
}

/// A path grows by a backslash and the segment; an empty segment and `.` name
/// nothing and are left out, and no other is.
pub proof fn law_segments_are_added(root: Seq<char>, all: Seq<Seq<char>>, segment: Seq<char>)
    ensures
        extended(root, Seq::empty()) == root,
        extended(root, all.push(segment)) == extended(root, all) + seq!['\\'] + segment,
        naming(Seq::empty()) == Seq::<Seq<char>>::empty(),
        segment.len() == 0 || segment == seq!['.'] ==> naming(all.push(segment)) == naming(all),
        segment.len() > 0 && segment != seq!['.'] ==> naming(all.push(segment)) == naming(all).push(
            segment,
        ),
{
    reveal(Seq::filter);
    reveal_strlit(".");
    assert("."@ =~= seq!['.']);
    assert(all.push(segment).drop_last() == all);
}

/// A store's location is its root behind `file://`.
pub proof fn law_file_locations_name_the_root(store: FileSystemStore)
    ensures
        store.wf() <==> store.location@ == seq!['f', 'i', 'l', 'e', ':', '/', '/'] + store.root@,
{
    reveal_strlit("file://");
    assert("file://"@ =~= seq!['f', 'i', 'l', 'e', ':', '/', '/']);
}

proof fn lemma_split_concat(a: Seq<char>, b: Seq<char>, sep: char)
    ensures
        text::split(a + seq![sep] + b, sep) == text::split(a, sep) + text::split(b, sep),
{
    law_split_follows_the_separator(a, b, sep);
}

proof fn lemma_split_single(s: Seq<char>, sep: char)
    requires
        text::free_of(s, sep),
    ensures
        text::split(s, sep) == seq![s],
{
    law_split_of_one_piece(s, sep);
}

proof fn lemma_unified_same(style: PathStyle, s: Seq<char>)
    requires
        text::free_of(s, '\\'),
    ensures
        unified(style, s) == s,
{
    assert(unified(style, s) =~= s);
}

/// The key of a window is safe exactly if no segment of its topic is `..`: the
/// date before the topic and the name after it never make a key unsafe.
pub proof fn law_window_keys_are_safe(
    style: PathStyle,
    topic: Seq<char>,
    start: WindowStart,
    offsets: Map<i32, i64>,
)
    ensures
        is_safe_key(style, window_key(topic, start, offsets)) <==> forall|i: int|
            0 <= i < segments(style, topic).len() ==> #[trigger] segments(style, topic)[i]
                != ".."@,
{
    reveal_strlit("/");
    reveal_strlit("..");
    let slash = seq!['/'];
    assert("/"@ == slash);
    let key = window_key(topic, start, offsets);
    let (y, m, d) = (
        text::zero_padded(start.year as int, 4),
        text::zero_padded(start.month as int, 2),
        text::zero_padded(start.day as int, 2),
    );
    text::lemma_zero_padded_unique(start.year as int, 0, 4);
    text::lemma_zero_padded_unique(start.month as int, 0, 2);
    text::lemma_zero_padded_unique(start.day as int, 0, 2);
    let prefix = key_prefix(topic, start);
    let name = key_suffix(prefix, fragment(offsets)) + ".json"@;
    lemma_key_name(topic, start, offsets);
    let own = unified(style, topic);
    lemma_unified_same(style, y);
    lemma_unified_same(style, m);
    lemma_unified_same(style, d);
    lemma_unified_same(style, name);
    let below_month = d + slash + own;
    let below_year = m + slash + below_month;
    let whole = y + slash + below_year + slash + name;
    assert(key == y + slash + m + slash + d + slash + topic + slash + name);
    assert(unified(style, key) =~= unified(style, y) + slash + unified(style, m) + slash + unified(
        style,
        d,
    ) + slash + own + slash + unified(style, name));
    assert(unified(style, key) == whole);
    lemma_split_concat(y + slash + below_year, name, '/');
    lemma_split_concat(y, below_year, '/');
    lemma_split_concat(m, below_month, '/');
    lemma_split_concat(d, own, '/');
    lemma_split_single(name, '/');
    lemma_split_single(y, '/');
    lemma_split_single(m, '/');
    lemma_split_single(d, '/');
    let all = segments(style, key);
    let named = segments(style, topic);
    assert(all == seq![y, m, d] + named + seq![name]);
    assert(key[0] == y[0]);
    assert(y[0] == '-' || text::is_digit(y[0]));
    assert(y[0] != '.' && m[0] != '.' && d[0] != '.');
    if forall|i: int| 0 <= i < named.len() ==> #[trigger] named[i] != ".."@ {
        assert forall|i: int| 0 <= i < all.len() implies #[trigger] all[i] != ".."@ by {
            if 3 <= i < all.len() - 1 {
                assert(all[i] == named[i - 3]);
            }
        }
    }
    if is_safe_key(style, key) {
        assert forall|i: int| 0 <= i < named.len() implies #[trigger] named[i] != ".."@ by {
            assert(all[i + 3] == named[i]);
        }
    }
}

// ---------------------------------------------------------------------------
// Whole or not at all
// ---------------------------------------------------------------------------
/// What stands at the final path and at the temp path of an object.
pub struct Files {
    pub published: Option<Seq<u8>>,
    pub temp: Option<Seq<u8>>,
}

/// The files after a stage that was performed to its end.
pub open spec fn performed(files: Files, stage: PutStage, body: Seq<u8>) -> Files {
    match stage {
        PutStage::MakeParents => files,
        PutStage::CreateTemp => Files { temp: Some(Seq::empty()), ..files },
        PutStage::WriteTemp => Files { temp: Some(body), ..files },
        PutStage::Publish => Files { published: files.temp, temp: None },
    }
}

/// `now` is what a stage can leave that a crash ended: the temp file may hold
/// anything, but a rename takes place as a whole or not at all.
pub open spec fn broken_off(files: Files, stage: PutStage, now: Files) -> bool {
    match stage {
        PutStage::MakeParents => now == files,
        PutStage::CreateTemp | PutStage::WriteTemp => now.published == files.published,
        PutStage::Publish => now == files || now == (Files {
            published: files.temp,
            temp: None,
        }),
    }
}

/// `now` is what a stage leaves that was answered with an error: the temp file
/// may hold anything, but what is published stays, since a rename that fails
/// does not take place.
pub open spec fn failed(files: Files, now: Files) -> bool {
    now.published == files.published
}

/// The files after all of `stages` were performed.
pub open spec fn all_performed(files: Files, stages: Seq<PutStage>, body: Seq<u8>) -> Files
    decreases stages.len(),
{
    if stages.len() == 0 {
        files
    } else {
        performed(all_performed(files, stages.drop_last(), body), stages.last(), body)
    }
}

/// `stages` is how far a put came: it began at the beginning, and went on from
/// stage to stage.
pub open spec fn is_put(stages: Seq<PutStage>) -> bool {
    &&& stages.len() > 0
    &&& stages[0] == PutStage::MakeParents
    &&& forall|i: int|
        0 <= i < stages.len() - 1 ==> stage_after(#[trigger] stages[i]) == Some(stages[i + 1])
}

/// An object is published only after its temp file was created and written to
/// the end. Every put ends after four stages at most.
pub proof fn law_publish_follows_write(stages: Seq<PutStage>)
    requires
        is_put(stages),
    ensures
        stages.len() <= 4,
        stages.len() > 1 ==> stages[1] == PutStage::CreateTemp,
        stages.len() > 2 ==> stages[2] == PutStage::WriteTemp,
        stages.len() > 3 ==> stages[3] == PutStage::Publish,
{
    if stages.len() > 1 {
        assert(stage_after(stages[0]) == Some(stages[1]));
    }
    if stages.len() > 2 {
        assert(stage_after(stages[1]) == Some(stages[2]));
    }
    if stages.len() > 3 {
        assert(stage_after(stages[2]) == Some(stages[3]));
    }
    if stages.len() > 4 {
        assert(stage_after(stages[3]) == Some(stages[4]));
    }
}

/// A put that came to its end replaced what stood at the final path with
/// exactly the bytes of the object, and left no temp file.
pub proof fn law_put_writes_exact_bytes(before: Files, stages: Seq<PutStage>, body: Seq<u8>)
    requires
        is_put(stages),
        stage_after(stages.last()) is None,
    ensures
        all_performed(before, stages, body) == (Files { published: Some(body), temp: None }),
{
    law_publish_follows_write(stages);
    assert(stages.len() == 4);
    assert(stages.drop_last().last() == PutStage::WriteTemp);
    assert(all_performed(before, stages.drop_last(), body).temp == Some(body));
}

/// The stages before the last one of a put publish nothing.
proof fn lemma_nothing_published(before: Files, stages: Seq<PutStage>, body: Seq<u8>)
    requires
        is_put(stages),
    ensures
        ({
            let files = all_performed(before, stages.drop_last(), body);
            &&& files.published == before.published
            &&& stages.last() == PutStage::Publish ==> files.temp == Some(body)
        }),
{
    law_publish_follows_write(stages);
    reveal_with_fuel(all_performed, 5);
    let done = stages.drop_last();
    if stages.len() > 1 {
        assert(done.last() == stages[stages.len() - 2]);
        if stages.len() > 2 {
            assert(done.drop_last().last() == stages[stages.len() - 3]);
            if stages.len() > 3 {
                assert(done.drop_last().drop_last().last() == stages[0]);
            }
        }
    }
}

/// A crash never leaves a torn object behind: at whatever stage a put breaks
/// off, the final path holds what it held before, or the whole object.
pub proof fn law_objects_are_never_torn(
    before: Files,
    stages: Seq<PutStage>,
    body: Seq<u8>,
    now: Files,
)
    requires
        is_put(stages),
        broken_off(all_performed(before, stages.drop_last(), body), stages.last(), now),
    ensures
        now.published == before.published || now.published == Some(body),
{
    lemma_nothing_published(before, stages, body);
}

/// A put that a disk operation failed leaves the old object in place, whichever
/// operation it was.
pub proof fn law_failed_put_changes_nothing(
    before: Files,
    stages: Seq<PutStage>,
    body: Seq<u8>,
    now: Files,
)
    requires
        is_put(stages),
        failed(all_performed(before, stages.drop_last(), body), now),
    ensures
        now.published == before.published,
{
    lemma_nothing_published(before, stages, body);
}

/// The temp file is a sibling of the object, and no other put writes to it: the
/// temp paths of two objects, or of two processes, differ.
pub proof fn law_temp_paths_are_distinct(a: Seq<char>, a_id: u32, b: Seq<char>, b_id: u32)
    ensures
        text::free_of(temp_suffix(a_id), '/'),
        text::free_of(temp_suffix(a_id), '\\'),
        temp_suffix(a_id).len() > 0,
        a + temp_suffix(a_id) == b + temp_suffix(b_id) ==> a == b && a_id == b_id,
{
    reveal_strlit(".");
    reveal_strlit(".tmp");
    let dot = seq!['.'];
    assert("."@ == dot);
    let (x, y) = (text::decimal(a_id as int), text::decimal(b_id as int));
    text::lemma_decimal_unique(a_id as int, b_id as int);
    text::lemma_decimal_unique(b_id as int, a_id as int);
    assert(a + temp_suffix(a_id) == a + dot + x + ".tmp"@);
    assert(b + temp_suffix(b_id) == b + dot + y + ".tmp"@);
    if a + temp_suffix(a_id) == b + temp_suffix(b_id) {
        text::lemma_cancel_end(a + dot + x, b + dot + y, ".tmp"@);
        text::lemma_split_at_last(a, x, b, y, '.');
    }
}

/// The stages come in this order: the directories, an empty temp file, its bytes, and
/// the rename, which is the last.
pub proof fn law_stages_come_in_order()
    ensures
        stage_after(PutStage::MakeParents) == Some(PutStage::CreateTemp),
        stage_after(PutStage::CreateTemp) == Some(PutStage::WriteTemp),
        stage_after(PutStage::WriteTemp) == Some(PutStage::Publish),
        stage_after(PutStage::Publish) is None,
{
}

/// The temp file is named after the object and the process that writes it.
pub proof fn law_temp_paths_name_the_process(process_id: u32)
    ensures
        temp_suffix(process_id) == seq!['.'] + text::decimal(process_id as int) + seq![
            '.',
            't',
            'm',
            'p',
        ],
{
    reveal_strlit(".");
    reveal_strlit(".tmp");
    assert("."@ =~= seq!['.']);
    assert(".tmp"@ =~= seq!['.', 't', 'm', 'p']);
}

} // verus!
