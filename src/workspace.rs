use vstd::prelude::*;
use vstd::string::StrSliceExecFns;
use vstd::string::StringExecFns;

verus! {

/// A point in time: whole seconds since the Unix epoch and the nanoseconds past them.
#[derive(Clone, Copy, Debug, PartialEq, Eq, Structural)]
pub struct Timestamp {
    pub secs: i64,
    pub nanos: u32,
}

/// `a` is at or after `b`, comparing seconds first and then nanoseconds.
pub open spec fn not_before(a: Timestamp, b: Timestamp) -> bool {
    a.secs > b.secs || (a.secs == b.secs && a.nanos >= b.nanos)
}

/// Progress of the unit of work that a workspace stands for.
#[derive(Clone, Copy, Debug, PartialEq, Eq, Structural)]
pub enum Status {
    Open,
    Closed,
    Unknown,
}

/// The abstract content of a workspace record.
pub struct WorkspaceView {
    pub story: Seq<char>,
    pub description: Seq<char>,
    pub status: Status,
    pub modified: Timestamp,
    pub path: Seq<char>,
}

/// One discovered workspace directory. Its fields never change after construction.
#[derive(Debug)]
pub struct Workspace {
    story: String,
    description: String,
    status: Status,
    modified: Timestamp,
    path: String,
}

impl View for Workspace {
    type V = WorkspaceView;

    closed spec fn view(&self) -> WorkspaceView {
        WorkspaceView {
            story: self.story@,
            description: self.description@,
            status: self.status,
            modified: self.modified,
            path: self.path@,
        }
    }
}

/// Position of the first `.` in `s` at or after `i`, or `s.len()` when there is none.
pub open spec fn dot_from(s: Seq<char>, i: int) -> int
    decreases s.len() - i,
{
    if i >= s.len() {
        s.len() as int
    } else if s[i] == '.' {
        i
    } else {
        dot_from(s, i + 1)
    }
}

/// The first `.`-separated segment of a name.
pub open spec fn story_of(name: Seq<char>) -> Seq<char> {
    name.subrange(0, dot_from(name, 0))
}

/// The second `.`-separated segment of a name, or nothing when the name has a single one.
pub open spec fn description_of(name: Seq<char>) -> Seq<char> {
    let d = dot_from(name, 0);
    if d < name.len() {
        name.subrange(d + 1, dot_from(name, d + 1))
    } else {
        Seq::empty()
    }
}

/// A name that starts with the conceal marker `.`.
pub open spec fn is_hidden(name: Seq<char>) -> bool {
    name.len() > 0 && name[0] == '.'
}

/// The record that a directory of the given name, time and path becomes.
pub open spec fn record_of(name: Seq<char>, modified: Timestamp, path: Seq<char>) -> WorkspaceView {
    WorkspaceView {
        story: story_of(name),
        description: description_of(name),
        status: Status::Unknown,
        modified,
        path,
    }
}

/// Why a directory entry could not become a workspace record.
#[derive(Clone, Copy, Debug, PartialEq, Eq, Structural)]
pub enum RecordError {
    /// The entry's name is not valid Unicode.
    UnreadableName,
    /// The entry's modification time could not be read.
    UnreadableMetadata,
    /// The entry's name has an empty first segment.
    EmptyStory,
}

proof fn lemma_dot_from_bounds(s: Seq<char>, i: int)
    requires
        0 <= i <= s.len(),
    ensures
        i <= dot_from(s, i) <= s.len(),
        dot_from(s, i) < s.len() ==> s[dot_from(s, i)] == '.',
        forall|k: int| i <= k < dot_from(s, i) ==> s[k] != '.',
    decreases s.len() - i,
{
    if i < s.len() && s[i] != '.' {
        lemma_dot_from_bounds(s, i + 1);
    }
}

/// Finds the first `.` of `name` at or after char position `from`.
fn find_dot(name: &str, from: usize, len: usize) -> (r: usize)
    requires
        len == name@.len(),
        from <= len,
    ensures
        r == dot_from(name@, from as int),
{
    let mut i: usize = from;
    while i < len && name.get_char(i) != '.'
        invariant
            len == name@.len(),
            from <= i <= len,
            dot_from(name@, i as int) == dot_from(name@, from as int),
        decreases len - i,
    {
        i = i + 1;
    }
    i
}

/// Splits a directory name into its story and description segments.
pub fn parse_name(name: &str) -> (r: (String, String))
    ensures
        r.0@ == story_of(name@),
        r.1@ == description_of(name@),
{
    let len = name.unicode_len();
    let d = find_dot(name, 0, len);
    proof {
        lemma_dot_from_bounds(name@, 0);
    }
    let story = String::from_str(name.substring_char(0, d));
    if d < len {
        let e = find_dot(name, d + 1, len);
        proof {
            lemma_dot_from_bounds(name@, d + 1);
        }
        (story, String::from_str(name.substring_char(d + 1, e)))
    } else {
        (story, String::new())
    }
}

/// Whether a name starts with the conceal marker `.`.
pub fn hidden_name(name: &str) -> (r: bool)
    ensures
        r == is_hidden(name@),
{
    name.unicode_len() > 0 && name.get_char(0) == '.'
}

impl Workspace {
    /// Builds the record of a directory from its name, modification time and path.
    /// Fails exactly when the name's first segment is empty.
    pub fn new(name: &str, modified: Timestamp, path: String) -> (r: Result<Workspace, RecordError>)
        ensures
            match r {
                Ok(w) => story_of(name@).len() > 0 && w@ == record_of(name@, modified, path@),
                Err(x) => story_of(name@).len() == 0 && x == RecordError::EmptyStory,
            },
    {
        let (story, description) = parse_name(name);
        if story.unicode_len() == 0 {
            Err(RecordError::EmptyStory)
        } else {
            Ok(Workspace { story, description, status: Status::Unknown, modified, path })
        }
    }

    pub fn story(&self) -> (r: &String)
        ensures
            r@ == self@.story,
    {
        &self.story
    }

    pub fn description(&self) -> (r: &String)
        ensures
            r@ == self@.description,
    {
        &self.description
    }

    pub fn status(&self) -> (r: Status)
        ensures
            r == self@.status,
    {
        self.status
    }

    pub fn modified(&self) -> (r: Timestamp)
        ensures
            r == self@.modified,
    {
        self.modified
    }

    pub fn path(&self) -> (r: &String)
        ensures
            r@ == self@.path,
    {
        &self.path
    }
}

/// What a directory listing tells of one entry.
pub struct DirEntryInfo {
    /// The entry's base name, or `None` when it is not valid Unicode.
    pub name: Option<String>,
    pub is_dir: bool,
    /// The entry's modification time, or `None` when it could not be read.
    pub modified: Option<Timestamp>,
    pub path: String,
}

/// What discovery does with an entry that cannot become a record.
#[derive(Clone, Copy, Debug, PartialEq, Eq, Structural)]
pub enum FailurePolicy {
    /// The first such entry ends discovery with its error.
    Abort,
    /// Such entries are left out.
    Skip,
}

/// What becomes of one entry: `None` when it is no candidate (not a directory, or
/// hidden), else the record or the reason there is none.
pub open spec fn entry_outcome(e: DirEntryInfo) -> Option<Result<WorkspaceView, RecordError>> {
    if !e.is_dir {
        None
    } else {
        match e.name {
            None => Some(Err(RecordError::UnreadableName)),
            Some(n) => if is_hidden(n@) {
                None
            } else {
                match e.modified {
                    None => Some(Err(RecordError::UnreadableMetadata)),
                    Some(t) => if story_of(n@).len() == 0 {
                        Some(Err(RecordError::EmptyStory))
                    } else {
                        Some(Ok(record_of(n@, t, e.path@)))
                    },
                }
            },
        }
    }
}

/// The records that a listing yields, in listing order, under a failure policy.
pub open spec fn discover(entries: Seq<DirEntryInfo>, policy: FailurePolicy) -> Result<
    Seq<WorkspaceView>,
    RecordError,
>
    decreases entries.len(),
{
    if entries.len() == 0 {
        Ok(Seq::empty())
    } else {
        match discover(entries.drop_last(), policy) {
            Err(x) => Err(x),
            Ok(ws) => match entry_outcome(entries.last()) {
                None => Ok(ws),
                Some(Ok(w)) => Ok(ws.push(w)),
                Some(Err(x)) => if policy == FailurePolicy::Abort {
                    Err(x)
                } else {
                    Ok(ws)
                },
            },
        }
    }
}

/// The records that a sequence of workspaces holds.
pub open spec fn views(ws: Seq<Workspace>) -> Seq<WorkspaceView> {
    ws.map_values(|w: Workspace| w@)
}

/// The abstract content of what became of one entry.
pub open spec fn outcome_view(r: Option<Result<Workspace, RecordError>>) -> Option<
    Result<WorkspaceView, RecordError>,
> {
    match r {
        None => None,
        Some(Ok(w)) => Some(Ok(w@)),
        Some(Err(x)) => Some(Err(x)),
    }
}

/// Turns one listed entry into a record, when it is a candidate.
pub fn entry_record(e: &DirEntryInfo) -> (r: Option<Result<Workspace, RecordError>>)
    ensures
        outcome_view(r) == entry_outcome(*e),
{
    if !e.is_dir {
        return None;
    }
    match &e.name {
        None => Some(Err(RecordError::UnreadableName)),
        Some(n) => {
            if hidden_name(n.as_str()) {
                None
            } else {
                match e.modified {
                    None => Some(Err(RecordError::UnreadableMetadata)),
                    Some(t) => Some(Workspace::new(n.as_str(), t, e.path.clone())),
                }
            }
        },
    }
}

/// Entries that are not directories, and hidden entries, have no effect on discovery:
/// a listing yields the same records, or the same error, with or without one of them.
pub proof fn lemma_non_candidates_ignored(
    before: Seq<DirEntryInfo>,
    e: DirEntryInfo,
    after: Seq<DirEntryInfo>,
    policy: FailurePolicy,
)
    requires
        !e.is_dir || (e.name is Some && is_hidden(e.name->0@)),
    ensures
        discover(before + seq![e] + after, policy) == discover(before + after, policy),
    decreases after.len(),
{
    if after.len() == 0 {
        assert(before + seq![e] + after == (before + after).push(e));
        assert((before + after).push(e).drop_last() == before + after);
    } else {
        lemma_non_candidates_ignored(before, e, after.drop_last(), policy);
        assert((before + seq![e] + after).drop_last() == before + seq![e] + after.drop_last());
        assert((before + after).drop_last() == before + after.drop_last());
        assert((before + seq![e] + after).last() == after.last());
        assert((before + after).last() == after.last());
    }
}

/// Once a prefix of a listing fails, every longer prefix fails the same way.
proof fn lemma_error_persists(s: Seq<DirEntryInfo>, policy: FailurePolicy, j: int, k: int)
    requires
        0 <= j <= k <= s.len(),
        discover(s.subrange(0, j), policy) is Err,
    ensures
        discover(s.subrange(0, k), policy) == discover(s.subrange(0, j), policy),
    decreases k - j,
{
    if k > j {
        lemma_error_persists(s, policy, j, k - 1);
        assert(s.subrange(0, k).drop_last() == s.subrange(0, k - 1));
    }
}

/// Finds the workspaces under one parent directory.
pub struct WorkspaceFactory {
    parent_dir: String,
}

impl View for WorkspaceFactory {
    type V = Seq<char>;

    closed spec fn view(&self) -> Seq<char> {
        self.parent_dir@
    }
}

impl WorkspaceFactory {
    pub fn new(parent_dir: String) -> (r: Self)
        ensures
            r@ == parent_dir@,
    {
        Self { parent_dir }
    }

    /// The directory whose entries are to be listed.
    pub fn parent_dir(&self) -> (r: &str)
        ensures
            r@ == self@,
    {
        self.parent_dir.as_str()
    }

    /// Keeps the directories of a listing that are not hidden and parses each into a
    /// record, in listing order; an entry that cannot be parsed aborts or is skipped
    /// as the policy says.
    pub fn get_workspaces(&self, entries: &Vec<DirEntryInfo>, policy: FailurePolicy) -> (r: Result<
        Vec<Workspace>,
        RecordError,
    >)
        ensures
            match r {
                Ok(ws) => discover(entries@, policy) == Ok::<Seq<WorkspaceView>, RecordError>(
                    views(ws@),
                ),
                Err(x) => discover(entries@, policy) == Err::<Seq<WorkspaceView>, RecordError>(x),
            },
    {
        let mut out: Vec<Workspace> = Vec::new();
        let mut i: usize = 0;
        assert(entries@.subrange(0, 0) == Seq::<DirEntryInfo>::empty());
        assert(views(out@) == Seq::<WorkspaceView>::empty());
        while i < entries.len()
            invariant
                i <= entries@.len(),
                discover(entries@.subrange(0, i as int), policy) == Ok::<
                    Seq<WorkspaceView>,
                    RecordError,
                >(views(out@)),
            decreases entries@.len() - i,
        {
            let ghost prev = out@;
            let o = entry_record(&entries[i]);
            proof {
                assert(entries@.subrange(0, i + 1).drop_last() == entries@.subrange(0, i as int));
                assert(entries@.subrange(0, i + 1).last() == entries@[i as int]);
            }
            match o {
                None => {},
                Some(Ok(w)) => {
                    out.push(w);
                    assert(views(out@) == views(prev).push(w@));
                },
                Some(Err(x)) => {
                    if policy == FailurePolicy::Abort {
                        assert(discover(entries@.subrange(0, i + 1), policy) == Err::<
                            Seq<WorkspaceView>,
                            RecordError,
                        >(x));
                        proof {
                            lemma_error_persists(entries@, policy, i + 1, entries@.len() as int);
                            assert(entries@.subrange(0, entries@.len() as int) == entries@);
                        }
                        return Err(x);
                    }
                },
            }
            i = i + 1;
        }
        assert(entries@.subrange(0, i as int) == entries@);
        Ok(out)
    }
}

} // verus!
