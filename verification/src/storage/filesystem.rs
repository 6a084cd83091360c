//! The local filesystem: the backend when no cloud provider is configured.
//!
//! Bytes land in a sibling temp file first and are then renamed into place, so
//! that a crash mid-write never leaves a torn object behind. Keys embed the topic
//! name, which is external input, so every key passes through [`safe_join`]
//! before it reaches a disk. How a path is written depends on the system, which
//! is told by a [`PathStyle`].

use crate::error::StorageError;
use crate::text;
use vstd::prelude::*;

verus! {

// ---------------------------------------------------------------------------
// Keys and paths
// ---------------------------------------------------------------------------
/// How a system writes its paths.
#[derive(Debug, Clone, Copy, PartialEq, Eq, Structural)]
pub enum PathStyle {
    /// `/` separates.
    Unix,
    /// `\` and `/` separate, and a path may begin with a drive such as `C:`.
    Windows,
}

/// `c` separates the segments of a path.
pub open spec fn is_separator(style: PathStyle, c: char) -> bool {
    c == '/' || style == PathStyle::Windows && c == '\\'
}

/// `path` with `/` for every separator.
pub open spec fn unified(style: PathStyle, path: Seq<char>) -> Seq<char> {
    path.map_values(
        |c: char|
            if is_separator(style, c) {
                '/'
            } else {
                c
            },
    )
}

/// The parts of a key between separators.
pub open spec fn segments(style: PathStyle, key: Seq<char>) -> Seq<Seq<char>> {
    text::split(unified(style, key), '/')
}

/// An ASCII letter.
pub open spec fn is_drive_letter(c: char) -> bool {
    'a' <= c <= 'z' || 'A' <= c <= 'Z'
}

/// `path` begins with a drive.
pub open spec fn has_drive(style: PathStyle, path: Seq<char>) -> bool {
    style == PathStyle::Windows && path.len() >= 2 && is_drive_letter(path[0]) && path[1] == ':'
}

/// `path` does not start where it is joined onto: it begins with a separator or
/// with a drive.
pub open spec fn is_anchored(style: PathStyle, path: Seq<char>) -> bool {
    path.len() > 0 && is_separator(style, path[0]) || has_drive(style, path)
}

/// A key that stays below the root: it is not anchored, and none of its segments
/// is `..`.
pub open spec fn is_safe_key(style: PathStyle, key: Seq<char>) -> bool {
    &&& !is_anchored(style, key)
    &&& forall|i: int|
        0 <= i < segments(style, key).len() ==> #[trigger] segments(style, key)[i] != ".."@
}

/// `root` is one of the Windows paths that the system takes as they stand: they
/// begin with `\\?\`, and only `\` separates in them.
pub open spec fn is_verbatim(style: PathStyle, root: Seq<char>) -> bool {
    style == PathStyle::Windows && root.len() >= 4 && root.take(4) == "\\\\?\\"@
}

/// The separator that is put between a root and a key.
pub open spec fn main_separator(style: PathStyle) -> char {
    match style {
        PathStyle::Unix => '/',
        PathStyle::Windows => '\\',
    }
}

/// The segments of a path that name something: neither empty nor `.`.
pub open spec fn naming(segments: Seq<Seq<char>>) -> Seq<Seq<char>> {
    segments.filter(|segment: Seq<char>| segment.len() > 0 && segment != "."@)
}

/// `root` with a separator and a segment behind it, for each of `segments`.
pub open spec fn extended(root: Seq<char>, segments: Seq<Seq<char>>) -> Seq<char>
    decreases segments.len(),
{
    if segments.len() == 0 {
        root
    } else {
        extended(root, segments.drop_last()) + seq!['\\'] + segments.last()
    }
}

/// A key that is not anchored, appended to a root. Onto a verbatim root, where
/// `/` and `.` would mean nothing, it is written segment by segment.
pub open spec fn path_below(style: PathStyle, root: Seq<char>, key: Seq<char>) -> Seq<char> {
    if is_verbatim(style, root) && key.len() > 0 {
        extended(
            text::strip_end(root, text::Trimming::Only('\\')),
            naming(segments(style, key)),
        )
    } else if root.len() == 0 || is_separator(style, root.last()) || has_drive(style, root)
        && root.len() == 2 {
        root + key
    } else {
        root + seq![main_separator(style)] + key
    }
}

fn separates(style: PathStyle, c: char) -> (separates: bool)
    ensures
        separates == is_separator(style, c),
{
    c == '/' || match style {
        PathStyle::Unix => false,
        PathStyle::Windows => c == '\\',
    }
}

fn begins_with_drive(style: PathStyle, path: &Vec<char>) -> (drive: bool)
    ensures
        drive == has_drive(style, path@),
{
    match style {
        PathStyle::Unix => false,
        PathStyle::Windows => {
            if path.len() < 2 {
                return false;
            }
            let c = path[0];
            (('a' <= c && c <= 'z') || ('A' <= c && c <= 'Z')) && path[1] == ':'
        },
    }
}

fn split_key(style: PathStyle, key: &str) -> (parts: Vec<String>)
    ensures
        text::views(parts@) == segments(style, key@),
{
    let chars = text::chars_of(key);
    let n: usize = chars.len();
    let ghost whole = unified(style, key@);
    let mut parts: Vec<String> = Vec::new();
    let mut segment = String::new();
    let mut i: usize = 0;
    assert(text::views(parts@) == text::split(whole.take(0), '/').drop_last());
    assert(segment@ == text::split(whole.take(0), '/').last());
    while i < n
        invariant
            n == chars.len(),
            i <= n,
            chars@ == key@,
            whole == unified(style, key@),
            text::split(whole.take(i as int), '/').len() > 0,
            segment@ == text::split(whole.take(i as int), '/').last(),
            text::views(parts@) == text::split(whole.take(i as int), '/').drop_last(),
        decreases n - i,
    {
        let ghost done = text::split(whole.take(i as int), '/');
        let ghost next = text::split(whole.take(i + 1), '/');
        assert(whole.take(i + 1).drop_last() == whole.take(i as int));
        if separates(style, chars[i]) {
            assert(next.drop_last() == done);
            let ghost before = text::views(parts@);
            parts.push(segment);
            assert(text::views(parts@) == before.push(done.last()));
            assert(text::views(parts@) == done);
            segment = String::new();
        } else {
            assert(next.drop_last() == done.drop_last());
            segment.push(chars[i]);
        }
        i = i + 1;
    }
    assert(whole.take(n as int) == whole);
    let ghost before = text::views(parts@);
    let ghost all = text::split(whole, '/');
    parts.push(segment);
    assert(text::views(parts@) == before.push(all.last()));
    assert(text::views(parts@) == all);
    parts
}

fn is_safe(style: PathStyle, key: &str, parts: &Vec<String>) -> (safe: bool)
    requires
        text::views(parts@) == segments(style, key@),
    ensures
        safe == is_safe_key(style, key@),
{
    let chars = text::chars_of(key);
    if chars.len() > 0 && separates(style, chars[0]) {
        return false;
    }
    if begins_with_drive(style, &chars) {
        return false;
    }
    let parent = "..".to_owned();
    let ghost all = segments(style, key@);
    let n: usize = parts.len();
    let mut i: usize = 0;
    while i < n
        invariant
            n == parts.len(),
            i <= n,
            parent@ == ".."@,
            all == segments(style, key@),
            text::views(parts@) == all,
            forall|k: int| 0 <= k < i ==> #[trigger] all[k] != ".."@,
        decreases n - i,
    {
        assert(all[i as int] == parts@[i as int]@);
        if parts[i] == parent {
            assert(segments(style, key@)[i as int] == ".."@);
            return false;
        }
        i = i + 1;
    }
    true
}

fn begins_verbatim(style: PathStyle, root: &Vec<char>) -> (verbatim: bool)
    ensures
        verbatim == is_verbatim(style, root@),
{
    proof {
        reveal_strlit("\\\\?\\");
    }
    match style {
        PathStyle::Unix => false,
        PathStyle::Windows => {
            if root.len() < 4 {
                return false;
            }
            let begins = root[0] == '\\' && root[1] == '\\' && root[2] == '?' && root[3]
                == '\\';
            proof {
                let start = root@.take(4);
                if begins {
                    assert(start =~= "\\\\?\\"@);
                }
                assert(start[0] == root@[0] && start[1] == root@[1]);
                assert(start[2] == root@[2] && start[3] == root@[3]);
            }
            begins
        },
    }
}

fn extend(root: &str, parts: &Vec<String>) -> (path: String)
    ensures
        path@ == extended(root@, naming(text::views(parts@))),
{
    let mut path = root.to_owned();
    let here = ".".to_owned();
    let ghost all = text::views(parts@);
    let ghost keep = |segment: Seq<char>| segment.len() > 0 && segment != "."@;
    let n: usize = parts.len();
    let mut i: usize = 0;
    proof {
        reveal(Seq::filter);
        assert(all.take(0).filter(keep).len() == 0);
    }
    while i < n
        invariant
            n == parts.len(),
            i <= n,
            here@ == "."@,
            all == text::views(parts@),
            keep == (|segment: Seq<char>| segment.len() > 0 && segment != "."@),
            path@ == extended(root@, all.take(i as int).filter(keep)),
        decreases n - i,
    {
        let ghost before = all.take(i as int).filter(keep);
        proof {
            reveal(Seq::filter);
            assert(all.take(i + 1).drop_last() == all.take(i as int));
            assert(all[i as int] == parts@[i as int]@);
        }
        if !parts[i].as_str().is_empty() && !(parts[i] == here) {
            assert(all.take(i + 1).filter(keep) == before.push(all[i as int]));
            assert(before.push(all[i as int]).drop_last() == before);
            path.push('\\');
            path.append(parts[i].as_str());
            assert(path@ == extended(root@, before) + seq!['\\'] + all[i as int]);
        }
        i = i + 1;
    }
    assert(all.take(n as int) == all);
    path
}

fn without_trailing_backslashes(root: &str, chars: &Vec<char>) -> (rest: String)
    requires
        chars@ == root@,
    ensures
        rest@ == text::strip_end(root@, text::Trimming::Only('\\')),
{
    let ghost how = text::Trimming::Only('\\');
    let mut to: usize = chars.len();
    assert(root@.take(to as int) == root@);
    while to > 0 && chars[to - 1] == '\\'
        invariant
            how == text::Trimming::Only('\\'),
            chars@ == root@,
            to <= chars.len(),
            text::strip_end(root@, how) == text::strip_end(root@.take(to as int), how),
        decreases to,
    {
        assert(root@.take(to as int).drop_last() == root@.take(to - 1));
        to = to - 1;
    }
    assert(root@.subrange(0, to as int) == root@.take(to as int));
    root.substring_char(0, to).to_owned()
}

/// Joins `key` onto `root` without ever escaping it: a key that is absolute, has
/// a drive or walks up is refused outright instead of sanitized into something
/// surprising.
pub fn safe_join(style: PathStyle, root: &str, key: &str) -> (path: Result<String, StorageError>)
    ensures
        match path {
            Ok(joined) => is_safe_key(style, key@) && joined@ == path_below(style, root@, key@),
            Err(StorageError::InvalidKey { key: refused }) => !is_safe_key(style, key@) && refused@
                == key@,
            Err(_) => false,
        },
{
    let parts = split_key(style, key);
    if !is_safe(style, key, &parts) {
        return Err(StorageError::InvalidKey { key: key.to_owned() });
    }
    let chars = text::chars_of(root);
    let n: usize = chars.len();
    if begins_verbatim(style, &chars) && !key.is_empty() {
        let start = without_trailing_backslashes(root, &chars);
        return Ok(extend(start.as_str(), &parts));
    }
    if n == 0 || separates(style, chars[n - 1]) || begins_with_drive(style, &chars) && n == 2 {
        return Ok(root.to_owned().concat(key));
    }
    let mut path = root.to_owned();
    match style {
        PathStyle::Unix => path.push('/'),
        PathStyle::Windows => path.push('\\'),
    }
    path.append(key);
    assert(path@ == root@ + seq![main_separator(style)] + key@);
    Ok(path)
}

// ---------------------------------------------------------------------------
// The store
// ---------------------------------------------------------------------------
/// Local-filesystem object store rooted at a configured directory.
#[derive(Debug)]
pub struct FileSystemStore {
    pub style: PathStyle,
    pub root: String,
    /// `file://<root>`, for error context.
    pub location: String,
}

/// Where an object is written first, and where it ends up.
#[derive(Debug)]
pub struct PutPlan {
    pub final_path: String,
    /// `<final>.<process id>.tmp`: a sibling of the final path.
    pub temp_path: String,
}

/// The steps of storing an object, in order.
#[derive(Debug, Clone, Copy, PartialEq, Eq, Structural)]
pub enum PutStage {
    /// Create the missing directories above the final path.
    MakeParents,
    /// Create the temp file, empty.
    CreateTemp,
    /// Write the whole object into the temp file.
    WriteTemp,
    /// Rename the temp file to the final path.
    Publish,
}

/// What storing an object does next.
#[derive(Debug)]
pub enum PutAction {
    Perform(PutStage),
    Finish(Result<(), StorageError>),
}

/// The stage after `stage`; the last one has none.
pub open spec fn stage_after(stage: PutStage) -> Option<PutStage> {
    match stage {
        PutStage::MakeParents => Some(PutStage::CreateTemp),
        PutStage::CreateTemp => Some(PutStage::WriteTemp),
        PutStage::WriteTemp => Some(PutStage::Publish),
        PutStage::Publish => None,
    }
}

/// `.<process id>.tmp`.
pub open spec fn temp_suffix(process_id: u32) -> Seq<char> {
    "."@ + text::decimal(process_id as int) + ".tmp"@
}

impl FileSystemStore {
    /// The location names the root.
    pub open spec fn wf(self) -> bool {
        self.location@ == "file://"@ + self.root@
    }

    /// The store, once its root was created. Failing here, instead of on the
    /// first upload, reports a bad mount at startup.
    pub fn connect(style: PathStyle, root: &str, created: Result<(), String>) -> (store: Result<
        FileSystemStore,
        StorageError,
    >)
        ensures
            match created {
                Ok(()) => store matches Ok(connected) && connected.wf() && connected.root@
                    == root@ && connected.style == style,
                Err(cause) => store matches Err(StorageError::Init { provider, source })
                    && provider@ == "FileSystem"@ && source == cause,
            },
    {
        match created {
            Ok(()) => Ok(
                FileSystemStore {
                    style,
                    root: root.to_owned(),
                    location: "file://".to_owned().concat(root),
                },
            ),
            Err(source) => Err(StorageError::Init { provider: "FileSystem", source }),
        }
    }

    /// Begins to store an object: its paths, and the first stage to perform.
    /// An unsafe key is refused before anything is written.
    pub fn put_object(&self, key: &str, process_id: u32) -> (plan: Result<
        (PutPlan, PutStage),
        StorageError,
    >)
        ensures
            match plan {
                Ok((paths, stage)) => {
                    &&& is_safe_key(self.style, key@)
                    &&& paths.final_path@ == path_below(self.style, self.root@, key@)
                    &&& paths.temp_path@ == paths.final_path@ + temp_suffix(process_id)
                    &&& stage == PutStage::MakeParents
                },
                Err(StorageError::InvalidKey { key: refused }) => !is_safe_key(self.style, key@)
                    && refused@ == key@,
                Err(_) => false,
            },
    {
        let final_path = safe_join(self.style, self.root.as_str(), key)?;
        let mut temp_path = final_path.clone();
        temp_path.append(".");
        text::push_decimal(&mut temp_path, process_id as i64);
        temp_path.append(".tmp");
        assert(temp_path@ == final_path@ + temp_suffix(process_id));
        Ok((PutPlan { final_path, temp_path }, PutStage::MakeParents))
    }

    /// Goes on once a stage was performed: the next stage after a success, and
    /// the end after the last stage or a failure.
    pub fn advance_put(
        &self,
        key: &str,
        size: usize,
        stage: PutStage,
        reply: Result<(), String>,
    ) -> (action: PutAction)
        ensures
            match reply {
                Ok(()) => action == match stage_after(stage) {
                    Some(next) => PutAction::Perform(next),
                    None => PutAction::Finish(Ok::<(), StorageError>(())),
                },
                Err(cause) => action matches PutAction::Finish(
                    Err(StorageError::PutObject { location, key: k, size: s, source }),
                ) && location@ == self.location@ && k@ == key@ && s == size && source == cause,
            },
    {
        match reply {
            Ok(()) => match stage {
                PutStage::MakeParents => PutAction::Perform(PutStage::CreateTemp),
                PutStage::CreateTemp => PutAction::Perform(PutStage::WriteTemp),
                PutStage::WriteTemp => PutAction::Perform(PutStage::Publish),
                PutStage::Publish => PutAction::Finish(Ok(())),
            },
            Err(source) => PutAction::Finish(
                Err(
                    StorageError::PutObject {
                        location: self.location.clone(),
                        key: key.to_owned(),
                        size,
                        source,
                    },
                ),
            ),
        }
    }
}

} // verus!
