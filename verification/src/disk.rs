//! How the two files are read and replaced: which step follows which, and what
//! comes of a step that fails. The steps themselves are carried out elsewhere;
//! each of them hands back whether it failed.
//!
//! The directory and its files hold task titles, so they are restricted to the
//! user. A file is replaced by renaming a finished copy over it.

use crate::store::bad_data;
use crate::store::Failure;
use crate::store::FailureKind;
use crate::store::FailureView;
use crate::store::SaveError;
use crate::text;
use vstd::prelude::*;

verus! {

/// The mode of the directory.
pub const DIRECTORY_MODE: u32 = 0o700;

/// The mode of the files in it.
pub const FILE_MODE: u32 = 0o600;

/// How often a name for the temporary file is tried.
pub const TEMP_ATTEMPTS: u32 = 16;

// ---- paths ---------------------------------------------------------------------------

/// A path below another.
pub open spec fn joined(base: Seq<u8>, name: Seq<u8>) -> Seq<u8> {
    if base.len() > 0 && base.last() != 47u8 {
        base.push(47u8) + name
    } else {
        base + name
    }
}

/// The bytes of `queue-focus`.
pub open spec fn app_name() -> Seq<u8> {
    seq![113, 117, 101, 117, 101, 45, 102, 111, 99, 117, 115]
}

/// The bytes of `.local/share`.
pub open spec fn home_share() -> Seq<u8> {
    seq![46, 108, 111, 99, 97, 108, 47, 115, 104, 97, 114, 101]
}

/// The bytes of `tasks.json`.
pub open spec fn tasks_name() -> Seq<u8> {
    seq![116, 97, 115, 107, 115, 46, 106, 115, 111, 110]
}

/// The bytes of `settings.json`.
pub open spec fn settings_name() -> Seq<u8> {
    seq![115, 101, 116, 116, 105, 110, 103, 115, 46, 106, 115, 111, 110]
}

/// The directory of the data files: below the data home where that is an absolute
/// path, else below the user's home, else below the current directory.
pub open spec fn data_place(data_home: Option<Seq<u8>>, home: Option<Seq<u8>>) -> Seq<u8> {
    let base = if data_home is Some && data_home->0.len() > 0 && data_home->0[0] == 47u8 {
        data_home->0
    } else if home is Some {
        joined(home->0, home_share())
    } else {
        seq![46u8]
    };
    joined(base, app_name())
}

/// The bytes of an optional path.
pub open spec fn path_view(path: Option<Vec<u8>>) -> Option<Seq<u8>> {
    match path {
        Some(p) => Some(p@),
        None => None,
    }
}

fn join(base: Vec<u8>, name: &Vec<u8>) -> (path: Vec<u8>)
    ensures
        path@ == joined(base@, name@),
{
    let mut path = base;
    let n: usize = path.len();
    if n > 0 && path[n - 1] != 47 {
        path.push(47);
    }
    let ghost start = path@;
    let mut i: usize = 0;
    assert(start + name@.take(0) =~= start);
    while i < name.len()
        invariant
            i <= name@.len(),
            path@ == start + name@.take(i as int),
        decreases name@.len() - i,
    {
        path.push(name[i]);
        assert(path@ =~= start + name@.take(i as int + 1));
        i = i + 1;
    }
    assert(name@.take(i as int) =~= name@);
    path
}

/// The directory of the data files, `$XDG_DATA_HOME/queue-focus` or
/// `~/.local/share/queue-focus`. Paths are the bytes that the system gives them.
pub fn data_dir(data_home: Option<Vec<u8>>, home: Option<Vec<u8>>) -> (path: Vec<u8>)
    ensures
        path@ == data_place(path_view(data_home), path_view(home)),
{
    let given: bool = match &data_home {
        Some(p) => p.len() > 0 && p[0] == 47,
        None => false,
    };
    let base: Vec<u8> = if given {
        match data_home {
            Some(p) => p,
            None => Vec::new(),
        }
    } else {
        match home {
            Some(p) => {
                let share: Vec<u8> = vec![46, 108, 111, 99, 97, 108, 47, 115, 104, 97, 114, 101];
                assert(share@ =~= home_share());
                join(p, &share)
            },
            None => {
                let here: Vec<u8> = vec![46];
                assert(here@ =~= seq![46u8]);
                here
            },
        }
    };
    let name: Vec<u8> = vec![113, 117, 101, 117, 101, 45, 102, 111, 99, 117, 115];
    assert(name@ =~= app_name());
    join(base, &name)
}

/// The task file, `tasks.json` in the directory of the data files.
pub fn data_path(data_home: Option<Vec<u8>>, home: Option<Vec<u8>>) -> (path: Vec<u8>)
    ensures
        path@ == joined(data_place(path_view(data_home), path_view(home)), tasks_name()),
{
    let name: Vec<u8> = vec![116, 97, 115, 107, 115, 46, 106, 115, 111, 110];
    assert(name@ =~= tasks_name());
    join(data_dir(data_home, home), &name)
}

/// The settings file, `settings.json` in the directory of the data files.
pub fn settings_path(data_home: Option<Vec<u8>>, home: Option<Vec<u8>>) -> (path: Vec<u8>)
    ensures
        path@ == joined(data_place(path_view(data_home), path_view(home)), settings_name()),
{
    let name: Vec<u8> = vec![115, 101, 116, 116, 105, 110, 103, 115, 46, 106, 115, 111, 110];
    assert(name@ =~= settings_name());
    join(data_dir(data_home, home), &name)
}

/// Whether the directory of a file is the current one: its path has no parent, or
/// an empty one, or one that is the current directory. `parent` says of the parent,
/// if there is one, whether it is one of the last two.
pub fn is_here(parent: Option<bool>) -> (here: bool)
    ensures
        here == (parent is None || parent->0),
{
    match parent {
        None => true,
        Some(current) => current,
    }
}

/// What follows the name of a file in that of its temporary copy.
pub open spec fn temp_mark(process: u32, nonce: u64) -> Seq<char> {
    ".tmp-"@ + text::decimal(process as nat) + "-"@ + text::decimal(nonce as nat)
}

pub fn temp_suffix(process: u32, nonce: u64) -> (s: String)
    ensures
        s@ == temp_mark(process, nonce),
{
    let mut out: Vec<char> = text::chars_of(".tmp-");
    text::push_decimal(&mut out, process as u64);
    text::push_text(&mut out, "-");
    text::push_decimal(&mut out, nonce);
    text::text_of(&out)
}

/// Where a text of digits ends and a minus begins, no other such text does.
proof fn lemma_digits_then_minus(a: Seq<char>, x: Seq<char>, b: Seq<char>, y: Seq<char>)
    requires
        text::all_digits(a),
        text::all_digits(b),
        x.len() > 0 && x[0] == '-',
        y.len() > 0 && y[0] == '-',
        a + x == b + y,
    ensures
        a == b,
        x == y,
{
    let s = a + x;
    assert(s[a.len() as int] == '-');
    assert((b + y)[b.len() as int] == '-');
    if a.len() < b.len() {
        assert((b + y)[a.len() as int] == b[a.len() as int]);
        assert(false);
    }
    if b.len() < a.len() {
        assert(s[b.len() as int] == a[b.len() as int]);
        assert(false);
    }
    assert(a =~= s.take(a.len() as int));
    assert(b =~= (b + y).take(b.len() as int));
    assert(x =~= s.skip(a.len() as int));
    assert(y =~= (b + y).skip(b.len() as int));
}

/// Two temporary copies of a file have different names, unless one process made
/// both with the same number.
pub proof fn law_temporary_names_differ(p: u32, n: u64, q: u32, m: u64)
    requires
        temp_mark(p, n) == temp_mark(q, m),
    ensures
        p == q,
        n == m,
{
    reveal_strlit("-");
    let (a, b) = (text::decimal(p as nat), text::decimal(q as nat));
    let (x, y) = ("-"@ + text::decimal(n as nat), "-"@ + text::decimal(m as nat));
    text::law_decimal_reads_back(p as nat);
    text::law_decimal_reads_back(q as nat);
    text::law_decimal_reads_back(n as nat);
    text::law_decimal_reads_back(m as nat);
    let head = ".tmp-"@.len() as int;
    assert(temp_mark(p, n).skip(head) =~= a + x);
    assert(temp_mark(q, m).skip(head) =~= b + y);
    lemma_digits_then_minus(a, x, b, y);
    assert(x.skip(1) =~= text::decimal(n as nat));
    assert(y.skip(1) =~= text::decimal(m as nat));
}

/// The data files sit together in one directory, under names of their own.
pub proof fn law_the_data_files_sit_together(data_home: Option<Seq<u8>>, home: Option<Seq<u8>>)
    ensures
        ({
            let dir = data_place(data_home, home);
            let tasks = joined(dir, tasks_name());
            let settings = joined(dir, settings_name());
            &&& tasks == dir.push(47u8) + tasks_name()
            &&& settings == dir.push(47u8) + settings_name()
            &&& tasks != settings
        }),
{
    let dir = data_place(data_home, home);
    assert(dir.last() == app_name().last());
    let tasks = joined(dir, tasks_name());
    let settings = joined(dir, settings_name());
    assert(tasks.len() != settings.len());
}

// ---- reading a file ------------------------------------------------------------------

/// What the reader of a file does next.
#[derive(Debug, PartialEq, Eq)]
pub enum ReadStep {
    /// Ask whether what should be the directory is one.
    CheckDirectory,
    /// Give the directory its mode.
    RestrictDirectory,
    /// Open the file, unless it is a symbolic link.
    OpenFile,
    /// Ask whether the open file is a regular one.
    CheckFile,
    /// Give the open file its mode.
    RestrictFile,
    /// Read all of the open file.
    ReadFile,
    /// Nothing more: the contents were read, or there is no file.
    Found,
    Absent,
    Failed(Failure),
}

/// What a `ReadStep` says.
#[verifier::ext_equal]
pub enum ReadView {
    CheckDirectory,
    RestrictDirectory,
    OpenFile,
    CheckFile,
    RestrictFile,
    ReadFile,
    Found,
    Absent,
    Failed(FailureView),
}

impl View for ReadStep {
    type V = ReadView;

    open spec fn view(&self) -> ReadView {
        match self {
            ReadStep::CheckDirectory => ReadView::CheckDirectory,
            ReadStep::RestrictDirectory => ReadView::RestrictDirectory,
            ReadStep::OpenFile => ReadView::OpenFile,
            ReadStep::CheckFile => ReadView::CheckFile,
            ReadStep::RestrictFile => ReadView::RestrictFile,
            ReadStep::ReadFile => ReadView::ReadFile,
            ReadStep::Found => ReadView::Found,
            ReadStep::Absent => ReadView::Absent,
            ReadStep::Failed(f) => ReadView::Failed(f@),
        }
    }
}

/// How a step went: the answer to its question, if it was one, or its failure.
pub open spec fn went(done: Result<bool, Failure>) -> Result<bool, FailureView> {
    match done {
        Ok(yes) => Ok(yes),
        Err(f) => Err(f@),
    }
}

impl ReadView {
    /// The first step. The current directory is taken as it is.
    pub open spec fn first(here: bool) -> ReadView {
        if here {
            ReadView::OpenFile
        } else {
            ReadView::CheckDirectory
        }
    }

    /// The step behind this one. A directory or a file that is not there is no
    /// failure; every other failure ends the reading.
    pub open spec fn next(
        self,
        done: Result<bool, FailureView>,
        path: Seq<char>,
        directory: Seq<char>,
    ) -> ReadView {
        match done {
            Err(f) => match self {
                ReadView::CheckDirectory | ReadView::OpenFile => if f.kind
                    == FailureKind::NotFound {
                    ReadView::Absent
                } else {
                    ReadView::Failed(f)
                },
                ReadView::RestrictDirectory | ReadView::CheckFile | ReadView::RestrictFile =>
                    ReadView::Failed(f),
                ReadView::ReadFile => ReadView::Failed(FailureView::bad_data(f.message)),
                _ => self,
            },
            Ok(yes) => match self {
                ReadView::CheckDirectory => if yes {
                    ReadView::RestrictDirectory
                } else {
                    ReadView::Failed(FailureView::bad_data(directory + " is not a directory"@))
                },
                ReadView::RestrictDirectory => ReadView::OpenFile,
                ReadView::OpenFile => ReadView::CheckFile,
                ReadView::CheckFile => if yes {
                    ReadView::RestrictFile
                } else {
                    ReadView::Failed(FailureView::bad_data(path + " is not a regular file"@))
                },
                ReadView::RestrictFile => ReadView::ReadFile,
                ReadView::ReadFile => ReadView::Found,
                _ => self,
            },
        }
    }

    /// Whether the reading is over.
    pub open spec fn over(self) -> bool {
        self is Found || self is Absent || self is Failed
    }

    /// How many steps there are at most up to the end.
    pub open spec fn left(self) -> nat {
        match self {
            ReadView::CheckDirectory => 6,
            ReadView::RestrictDirectory => 5,
            ReadView::OpenFile => 4,
            ReadView::CheckFile => 3,
            ReadView::RestrictFile => 2,
            ReadView::ReadFile => 1,
            _ => 0,
        }
    }
}

fn is_absent(f: &Failure) -> (absent: bool)
    ensures
        absent == (f@.kind == FailureKind::NotFound),
{
    match f.kind {
        FailureKind::NotFound => true,
        _ => false,
    }
}

impl ReadStep {
    /// The first step of reading a file, in the current directory or elsewhere.
    pub fn first(here: bool) -> (step: ReadStep)
        ensures
            step@ == ReadView::first(here),
    {
        if here {
            ReadStep::OpenFile
        } else {
            ReadStep::CheckDirectory
        }
    }

    /// The step behind this one.
    pub fn next(self, done: Result<bool, Failure>, path: &str, directory: &str) -> (step: ReadStep)
        ensures
            step@ == self@.next(went(done), path@, directory@),
    {
        match done {
            Err(f) => match self {
                ReadStep::CheckDirectory => if is_absent(&f) {
                    ReadStep::Absent
                } else {
                    ReadStep::Failed(f)
                },
                ReadStep::OpenFile => if is_absent(&f) {
                    ReadStep::Absent
                } else {
                    ReadStep::Failed(f)
                },
                ReadStep::RestrictDirectory => ReadStep::Failed(f),
                ReadStep::CheckFile => ReadStep::Failed(f),
                ReadStep::RestrictFile => ReadStep::Failed(f),
                ReadStep::ReadFile => ReadStep::Failed(bad_data(f.message)),
                ended => ended,
            },
            Ok(yes) => match self {
                ReadStep::CheckDirectory => if yes {
                    ReadStep::RestrictDirectory
                } else {
                    ReadStep::Failed(bad_data(text::behind_text(directory, " is not a directory")))
                },
                ReadStep::RestrictDirectory => ReadStep::OpenFile,
                ReadStep::OpenFile => ReadStep::CheckFile,
                ReadStep::CheckFile => if yes {
                    ReadStep::RestrictFile
                } else {
                    ReadStep::Failed(bad_data(text::behind_text(path, " is not a regular file")))
                },
                ReadStep::RestrictFile => ReadStep::ReadFile,
                ReadStep::ReadFile => ReadStep::Found,
                ended => ended,
            },
        }
    }
}

/// Reading comes to an end, and a file is read only once it and its directory are
/// restricted: no step leads to the reading but the restriction of the file, none
/// to that but the question whether it is a regular file, and none to the opening
/// but the restriction of the directory, unless that is the current one.
pub proof fn law_a_file_is_restricted_before_it_is_read(
    step: ReadView,
    done: Result<bool, FailureView>,
    path: Seq<char>,
    directory: Seq<char>,
)
    ensures
        step.next(done, path, directory) is ReadFile ==> step is RestrictFile && done is Ok,
        step.next(done, path, directory) is RestrictFile ==> step is CheckFile && done == Ok::<
            bool,
            FailureView,
        >(true),
        step.next(done, path, directory) is CheckFile ==> step is OpenFile && done is Ok,
        step.next(done, path, directory) is OpenFile ==> step is RestrictDirectory && done is Ok,
        step.next(done, path, directory) is RestrictDirectory ==> step is CheckDirectory && done
            == Ok::<bool, FailureView>(true),
        step.over() ==> step.next(done, path, directory) == step,
        !step.over() ==> step.next(done, path, directory).left() < step.left(),
        step.left() == 0 <==> step.over(),
{
}

// ---- replacing a file ----------------------------------------------------------------

/// What the writer of a file does next.
#[derive(Debug, PartialEq, Eq)]
pub enum SaveStep {
    /// Make the directory, with those above it, where it is not there.
    CreateDirectory,
    /// Ask whether what should be the directory is one.
    CheckDirectory,
    /// Give the directory its mode.
    RestrictDirectory,
    /// Make a new temporary file, with its mode. How often this was tried before.
    CreateTemp(u32),
    /// Give the temporary file its mode.
    RestrictTemp,
    /// Write the contents to the temporary file.
    WriteTemp,
    /// Sync the temporary file.
    SyncTemp,
    /// Rename the temporary file to the file: from here on the new contents stand.
    Rename,
    /// Remove the temporary file, for which there is no use after this failure.
    RemoveTemp(Failure),
    /// Sync the directory.
    SyncDirectory,
    /// Nothing more.
    Saved,
    Failed(SaveError),
}

/// What a `SaveStep` says.
#[verifier::ext_equal]
pub enum SaveView {
    CreateDirectory,
    CheckDirectory,
    RestrictDirectory,
    CreateTemp(u32),
    RestrictTemp,
    WriteTemp,
    SyncTemp,
    Rename,
    RemoveTemp(FailureView),
    SyncDirectory,
    Saved,
    FailedBeforeCommit(FailureView),
    FailedAfterCommit(FailureView),
}

impl View for SaveStep {
    type V = SaveView;

    open spec fn view(&self) -> SaveView {
        match self {
            SaveStep::CreateDirectory => SaveView::CreateDirectory,
            SaveStep::CheckDirectory => SaveView::CheckDirectory,
            SaveStep::RestrictDirectory => SaveView::RestrictDirectory,
            SaveStep::CreateTemp(n) => SaveView::CreateTemp(*n),
            SaveStep::RestrictTemp => SaveView::RestrictTemp,
            SaveStep::WriteTemp => SaveView::WriteTemp,
            SaveStep::SyncTemp => SaveView::SyncTemp,
            SaveStep::Rename => SaveView::Rename,
            SaveStep::RemoveTemp(f) => SaveView::RemoveTemp(f@),
            SaveStep::SyncDirectory => SaveView::SyncDirectory,
            SaveStep::Saved => SaveView::Saved,
            SaveStep::Failed(SaveError::BeforeCommit(f)) => SaveView::FailedBeforeCommit(f@),
            SaveStep::Failed(SaveError::AfterCommit(f)) => SaveView::FailedAfterCommit(f@),
        }
    }
}

impl SaveView {
    /// The first step. A path without a file name cannot be saved to, and the
    /// current directory is taken as it is.
    pub open spec fn first(named: bool, here: bool, path: Seq<char>) -> SaveView {
        if !named {
            SaveView::FailedBeforeCommit(
                FailureView {
                    kind: FailureKind::InvalidInput,
                    message: path + " has no file name"@,
                },
            )
        } else if here {
            SaveView::CreateTemp(0)
        } else {
            SaveView::CreateDirectory
        }
    }

    /// The step behind this one.
    pub open spec fn next(self, done: Result<bool, FailureView>, directory: Seq<char>) -> SaveView {
        match done {
            Err(f) => match self {
                SaveView::CreateDirectory
                | SaveView::CheckDirectory
                | SaveView::RestrictDirectory => SaveView::FailedBeforeCommit(f),
                SaveView::CreateTemp(n) => if f.kind != FailureKind::AlreadyExists {
                    SaveView::FailedBeforeCommit(f)
                } else if n + 1 < TEMP_ATTEMPTS {
                    SaveView::CreateTemp((n + 1) as u32)
                } else {
                    SaveView::FailedBeforeCommit(
                        FailureView {
                            kind: FailureKind::AlreadyExists,
                            message: "could not create a unique task temporary file"@,
                        },
                    )
                },
                SaveView::RestrictTemp
                | SaveView::WriteTemp
                | SaveView::SyncTemp
                | SaveView::Rename => SaveView::RemoveTemp(f),
                SaveView::RemoveTemp(first) => SaveView::FailedBeforeCommit(first),
                SaveView::SyncDirectory => SaveView::FailedAfterCommit(f),
                _ => self,
            },
            Ok(yes) => match self {
                SaveView::CreateDirectory => SaveView::CheckDirectory,
                SaveView::CheckDirectory => if yes {
                    SaveView::RestrictDirectory
                } else {
                    SaveView::FailedBeforeCommit(
                        FailureView::bad_data(directory + " is not a directory"@),
                    )
                },
                SaveView::RestrictDirectory => SaveView::CreateTemp(0),
                SaveView::CreateTemp(_) => SaveView::RestrictTemp,
                SaveView::RestrictTemp => SaveView::WriteTemp,
                SaveView::WriteTemp => SaveView::SyncTemp,
                SaveView::SyncTemp => SaveView::Rename,
                SaveView::Rename => SaveView::SyncDirectory,
                SaveView::RemoveTemp(first) => SaveView::FailedBeforeCommit(first),
                SaveView::SyncDirectory => SaveView::Saved,
                _ => self,
            },
        }
    }

    /// Whether the new contents stand at the path.
    pub open spec fn committed(self) -> bool {
        self is SyncDirectory || self is Saved || self is FailedAfterCommit
    }

    /// Whether there is a temporary file.
    pub open spec fn has_temp(self) -> bool {
        self is RestrictTemp || self is WriteTemp || self is SyncTemp || self is Rename
            || self is RemoveTemp
    }

    /// Whether the saving is over.
    pub open spec fn over(self) -> bool {
        self is Saved || self is FailedBeforeCommit || self is FailedAfterCommit
    }

    /// How many steps there are at most up to the end.
    pub open spec fn left(self) -> nat {
        match self {
            SaveView::CreateDirectory => 30,
            SaveView::CheckDirectory => 29,
            SaveView::RestrictDirectory => 28,
            SaveView::CreateTemp(n) => if n < TEMP_ATTEMPTS {
                (11 + (TEMP_ATTEMPTS - n)) as nat
            } else {
                11
            },
            SaveView::RestrictTemp => 6,
            SaveView::WriteTemp => 5,
            SaveView::SyncTemp => 4,
            SaveView::Rename => 3,
            SaveView::SyncDirectory => 1,
            SaveView::RemoveTemp(_) => 1,
            _ => 0,
        }
    }
}

impl SaveStep {
    /// The first step of saving to a path that does or does not end in a file
    /// name, in the current directory or elsewhere.
    pub fn first(named: bool, here: bool, path: &str) -> (step: SaveStep)
        ensures
            step@ == SaveView::first(named, here, path@),
    {
        if !named {
            SaveStep::Failed(
                SaveError::BeforeCommit(
                    Failure {
                        kind: FailureKind::InvalidInput,
                        message: text::behind_text(path, " has no file name"),
                    },
                ),
            )
        } else if here {
            SaveStep::CreateTemp(0)
        } else {
            SaveStep::CreateDirectory
        }
    }

    fn after_failure(self, f: Failure) -> (step: SaveStep)
        ensures
            step@ == self@.next(Err(f@), ""@),
            forall|d: Seq<char>| self@.next(Err(f@), ""@) == #[trigger] self@.next(Err(f@), d),
    {
        match self {
            SaveStep::CreateDirectory => SaveStep::Failed(SaveError::BeforeCommit(f)),
            SaveStep::CheckDirectory => SaveStep::Failed(SaveError::BeforeCommit(f)),
            SaveStep::RestrictDirectory => SaveStep::Failed(SaveError::BeforeCommit(f)),
            SaveStep::CreateTemp(n) => match f.kind {
                FailureKind::AlreadyExists => if n < TEMP_ATTEMPTS - 1 {
                    SaveStep::CreateTemp(n + 1)
                } else {
                    SaveStep::Failed(
                        SaveError::BeforeCommit(
                            Failure {
                                kind: FailureKind::AlreadyExists,
                                message: "could not create a unique task temporary file".to_string(),
                            },
                        ),
                    )
                },
                _ => SaveStep::Failed(SaveError::BeforeCommit(f)),
            },
            SaveStep::RestrictTemp => SaveStep::RemoveTemp(f),
            SaveStep::WriteTemp => SaveStep::RemoveTemp(f),
            SaveStep::SyncTemp => SaveStep::RemoveTemp(f),
            SaveStep::Rename => SaveStep::RemoveTemp(f),
            SaveStep::RemoveTemp(first) => SaveStep::Failed(SaveError::BeforeCommit(first)),
            SaveStep::SyncDirectory => SaveStep::Failed(SaveError::AfterCommit(f)),
            ended => ended,
        }
    }

    /// The step behind this one.
    pub fn next(self, done: Result<bool, Failure>, directory: &str) -> (step: SaveStep)
        ensures
            step@ == self@.next(went(done), directory@),
    {
        match done {
            Err(f) => self.after_failure(f),
            Ok(yes) => match self {
                SaveStep::CreateDirectory => SaveStep::CheckDirectory,
                SaveStep::CheckDirectory => if yes {
                    SaveStep::RestrictDirectory
                } else {
                    SaveStep::Failed(
                        SaveError::BeforeCommit(
                            bad_data(text::behind_text(directory, " is not a directory")),
                        ),
                    )
                },
                SaveStep::RestrictDirectory => SaveStep::CreateTemp(0),
                SaveStep::CreateTemp(_) => SaveStep::RestrictTemp,
                SaveStep::RestrictTemp => SaveStep::WriteTemp,
                SaveStep::WriteTemp => SaveStep::SyncTemp,
                SaveStep::SyncTemp => SaveStep::Rename,
                SaveStep::Rename => SaveStep::SyncDirectory,
                SaveStep::RemoveTemp(first) => SaveStep::Failed(SaveError::BeforeCommit(first)),
                SaveStep::SyncDirectory => SaveStep::Saved,
                ended => ended,
            },
        }
    }
}

/// The new contents stand at the path from the rename on and not before; they are
/// written and synced by then, and a failure says on which side of it it fell.
pub proof fn law_the_rename_commits(
    step: SaveView,
    done: Result<bool, FailureView>,
    directory: Seq<char>,
)
    ensures
        step.next(done, directory).committed() <==> step.committed() || (step is Rename && done
            is Ok),
        step.next(done, directory) is Rename ==> step is SyncTemp && done is Ok,
        step.next(done, directory) is SyncTemp ==> step is WriteTemp && done is Ok,
        step.next(done, directory) is WriteTemp ==> step is RestrictTemp && done is Ok,
        step is FailedBeforeCommit ==> !step.committed(),
        step is FailedAfterCommit || step is Saved ==> step.committed(),
{
}

/// A temporary file that was made is renamed or removed before the saving is over.
pub proof fn law_no_temporary_file_is_left(
    step: SaveView,
    done: Result<bool, FailureView>,
    directory: Seq<char>,
)
    ensures
        step.next(done, directory).has_temp() <==> (step is CreateTemp && done is Ok) || (
        step.has_temp() && !(step is Rename && done is Ok) && !(step is RemoveTemp)),
        step.over() ==> !step.has_temp(),
{
}

/// Saving comes to an end.
pub proof fn law_a_save_ends(
    step: SaveView,
    done: Result<bool, FailureView>,
    directory: Seq<char>,
)
    ensures
        step.over() ==> step.next(done, directory) == step,
        !step.over() ==> step.next(done, directory).left() < step.left(),
        step.left() == 0 <==> step.over(),
{
}

// ---- what the files are called and what the steps do ---------------------------------

/// The bytes of an ASCII text.
pub open spec fn spelled(bytes: Seq<u8>, s: Seq<char>) -> bool {
    bytes.len() == s.len() && forall|i: int|
        0 <= i < s.len() ==> #[trigger] bytes[i] as u32 == s[i] as u32
}

/// Whether a path is that of a name below another path, with one slash between them.
pub open spec fn is_below(path: Seq<u8>, base: Seq<u8>, name: Seq<char>) -> bool {
    if base.len() == 0 || base.last() as u32 == '/' as u32 {
        base.is_prefix_of(path) && spelled(path.skip(base.len() as int), name)
    } else {
        base.is_prefix_of(path) && path.len() > base.len() && path[base.len() as int] as u32
            == '/' as u32 && spelled(path.skip(base.len() as int + 1), name)
    }
}

proof fn lemma_below(base: Seq<u8>, bytes: Seq<u8>, name: Seq<char>)
    requires
        spelled(bytes, name),
    ensures
        is_below(joined(base, bytes), base, name),
{
    let path = joined(base, bytes);
    assert(path.subrange(0, base.len() as int) =~= base);
    if base.len() > 0 && base.last() != 47u8 {
        assert(path.skip(base.len() as int + 1) =~= bytes);
    } else {
        assert(path.skip(base.len() as int) =~= bytes);
    }
}

/// Whether a path is that of the directory of the data files: `queue-focus` below the
/// data home where that is absolute, else below `.local/share` in the home, else here.
pub open spec fn is_data_dir(
    dir: Seq<u8>,
    data_home: Option<Vec<u8>>,
    home: Option<Vec<u8>>,
) -> bool {
    if data_home is Some && (data_home->0)@.len() > 0 && (data_home->0)@[0] as u32 == '/' as u32 {
        is_below(dir, (data_home->0)@, "queue-focus"@)
    } else {
        match home {
            Some(h) => exists|share: Seq<u8>| #[trigger]
                is_below(share, h@, ".local/share"@) && is_below(dir, share, "queue-focus"@),
            None => spelled(dir, "./queue-focus"@),
        }
    }
}

/// Where the data files are: each in the directory of the data files, under its name.
pub proof fn law_where_the_data_files_are(data_home: Option<Vec<u8>>, home: Option<Vec<u8>>)
    ensures
        forall|dir: Vec<u8>| #[trigger]
            call_ensures(data_dir, (data_home, home), dir) ==> is_data_dir(dir@, data_home, home),
        forall|path: Vec<u8>| #[trigger]
            call_ensures(data_path, (data_home, home), path) ==> exists|dir: Seq<u8>| #[trigger]
                is_data_dir(dir, data_home, home) && is_below(path@, dir, "tasks.json"@),
        forall|path: Vec<u8>| #[trigger]
            call_ensures(settings_path, (data_home, home), path) ==> exists|dir: Seq<u8>| #[trigger]
                is_data_dir(dir, data_home, home) && is_below(path@, dir, "settings.json"@),
{
    reveal_strlit("queue-focus");
    reveal_strlit("./queue-focus");
    reveal_strlit(".local/share");
    reveal_strlit("tasks.json");
    reveal_strlit("settings.json");
    assert(spelled(app_name(), "queue-focus"@));
    assert(spelled(home_share(), ".local/share"@));
    assert(spelled(tasks_name(), "tasks.json"@));
    assert(spelled(settings_name(), "settings.json"@));
    let dir = data_place(path_view(data_home), path_view(home));
    if data_home is Some && (data_home->0)@.len() > 0 && (data_home->0)@[0] as u32 == '/' as u32 {
        lemma_below((data_home->0)@, app_name(), "queue-focus"@);
    } else {
        match home {
            Some(h) => {
                let share = joined(h@, home_share());
                lemma_below(h@, home_share(), ".local/share"@);
                lemma_below(share, app_name(), "queue-focus"@);
            },
            None => {
                assert(dir =~= seq![46u8, 47u8] + app_name());
                assert(spelled(dir, "./queue-focus"@));
            },
        }
    }
    assert(is_data_dir(dir, data_home, home));
    lemma_below(dir, tasks_name(), "tasks.json"@);
    lemma_below(dir, settings_name(), "settings.json"@);
}

/// The name of a temporary copy tells the process and the number it was made with.
pub proof fn law_what_a_temporary_file_is_called(process: u32, nonce: u64)
    ensures
        forall|s: String| #[trigger]
            call_ensures(temp_suffix, (process, nonce), s) ==> s@ == ".tmp-"@ + text::decimal(
                process as nat,
            ) + "-"@ + text::decimal(nonce as nat),
{
}

/// Only a file with a parent that is not the current directory is elsewhere.
pub proof fn law_which_directory_is_the_current_one(parent: Option<bool>)
    ensures
        forall|here: bool| #[trigger]
            call_ensures(is_here, (parent,), here) ==> (!here <==> parent == Some(false)),
{
}

/// Whether a step is the failure with this kind and these words.
pub open spec fn fails_to_read(step: ReadStep, kind: FailureKind, message: Seq<char>) -> bool {
    step matches ReadStep::Failed(f) && f.kind == kind && f.message@ == message
}

/// How a file is read: the directory is checked and restricted, then the file opened,
/// checked, restricted and read. What is not there is absent; any other failure is told
/// as it came, but for contents that cannot be read, which are bad data.
pub proof fn law_how_a_file_is_read(
    here: bool,
    step: ReadStep,
    done: Result<bool, Failure>,
    path: &str,
    directory: &str,
)
    ensures
        forall|first: ReadStep| #[trigger]
            call_ensures(ReadStep::first, (here,), first) ==> first == (if here {
                ReadStep::OpenFile
            } else {
                ReadStep::CheckDirectory
            }),
        forall|next: ReadStep| #[trigger]
            call_ensures(ReadStep::next, (step, done, path, directory), next) ==> match step {
                ReadStep::CheckDirectory => match done {
                    Ok(true) => next == ReadStep::RestrictDirectory,
                    Ok(false) => fails_to_read(
                        next,
                        FailureKind::InvalidData,
                        directory@ + " is not a directory"@,
                    ),
                    Err(f) => if f.kind == FailureKind::NotFound {
                        next == ReadStep::Absent
                    } else {
                        fails_to_read(next, f.kind, f.message@)
                    },
                },
                ReadStep::RestrictDirectory => match done {
                    Ok(_) => next == ReadStep::OpenFile,
                    Err(f) => fails_to_read(next, f.kind, f.message@),
                },
                ReadStep::OpenFile => match done {
                    Ok(_) => next == ReadStep::CheckFile,
                    Err(f) => if f.kind == FailureKind::NotFound {
                        next == ReadStep::Absent
                    } else {
                        fails_to_read(next, f.kind, f.message@)
                    },
                },
                ReadStep::CheckFile => match done {
                    Ok(true) => next == ReadStep::RestrictFile,
                    Ok(false) => fails_to_read(
                        next,
                        FailureKind::InvalidData,
                        path@ + " is not a regular file"@,
                    ),
                    Err(f) => fails_to_read(next, f.kind, f.message@),
                },
                ReadStep::RestrictFile => match done {
                    Ok(_) => next == ReadStep::ReadFile,
                    Err(f) => fails_to_read(next, f.kind, f.message@),
                },
                ReadStep::ReadFile => match done {
                    Ok(_) => next == ReadStep::Found,
                    Err(f) => fails_to_read(next, FailureKind::InvalidData, f.message@),
                },
                ReadStep::Found => next == ReadStep::Found,
                ReadStep::Absent => next == ReadStep::Absent,
                ReadStep::Failed(f) => fails_to_read(next, f.kind, f.message@),
            },
{
}

/// Whether a step is the failure before the rename with this kind and these words.
pub open spec fn fails_to_save(step: SaveStep, kind: FailureKind, message: Seq<char>) -> bool {
    step matches SaveStep::Failed(SaveError::BeforeCommit(f)) && f.kind == kind && f.message@
        == message
}

/// Whether a step removes the temporary file for the failure with this kind and words.
pub open spec fn gives_up(step: SaveStep, kind: FailureKind, message: Seq<char>) -> bool {
    step matches SaveStep::RemoveTemp(f) && f.kind == kind && f.message@ == message
}

/// How a file is replaced: its directory is made, checked and restricted; a temporary file
/// is made, under a new name up to sixteen times, restricted, written and synced; then it
/// is renamed and the directory synced. A failure up to the rename leaves the file as it
/// was, removes what was made and is told as it came; one behind it is told to be one.
pub proof fn law_how_a_file_is_replaced(
    named: bool,
    here: bool,
    path: &str,
    step: SaveStep,
    done: Result<bool, Failure>,
    directory: &str,
)
    ensures
        forall|first: SaveStep| #[trigger]
            call_ensures(SaveStep::first, (named, here, path), first) ==> if !named {
                fails_to_save(first, FailureKind::InvalidInput, path@ + " has no file name"@)
            } else if here {
                first == SaveStep::CreateTemp(0)
            } else {
                first == SaveStep::CreateDirectory
            },
        forall|next: SaveStep| #[trigger]
            call_ensures(SaveStep::next, (step, done, directory), next) ==> match step {
                SaveStep::CreateDirectory => match done {
                    Ok(_) => next == SaveStep::CheckDirectory,
                    Err(f) => fails_to_save(next, f.kind, f.message@),
                },
                SaveStep::CheckDirectory => match done {
                    Ok(true) => next == SaveStep::RestrictDirectory,
                    Ok(false) => fails_to_save(
                        next,
                        FailureKind::InvalidData,
                        directory@ + " is not a directory"@,
                    ),
                    Err(f) => fails_to_save(next, f.kind, f.message@),
                },
                SaveStep::RestrictDirectory => match done {
                    Ok(_) => next == SaveStep::CreateTemp(0),
                    Err(f) => fails_to_save(next, f.kind, f.message@),
                },
                SaveStep::CreateTemp(n) => match done {
                    Ok(_) => next == SaveStep::RestrictTemp,
                    Err(f) => if f.kind != FailureKind::AlreadyExists {
                        fails_to_save(next, f.kind, f.message@)
                    } else if n < 15 {
                        next == SaveStep::CreateTemp((n + 1) as u32)
                    } else {
                        fails_to_save(
                            next,
                            FailureKind::AlreadyExists,
                            "could not create a unique task temporary file"@,
                        )
                    },
                },
                SaveStep::RestrictTemp => match done {
                    Ok(_) => next == SaveStep::WriteTemp,
                    Err(f) => gives_up(next, f.kind, f.message@),
                },
                SaveStep::WriteTemp => match done {
                    Ok(_) => next == SaveStep::SyncTemp,
                    Err(f) => gives_up(next, f.kind, f.message@),
                },
                SaveStep::SyncTemp => match done {
                    Ok(_) => next == SaveStep::Rename,
                    Err(f) => gives_up(next, f.kind, f.message@),
                },
                SaveStep::Rename => match done {
                    Ok(_) => next == SaveStep::SyncDirectory,
                    Err(f) => gives_up(next, f.kind, f.message@),
                },
                SaveStep::RemoveTemp(f) => fails_to_save(next, f.kind, f.message@),
                SaveStep::SyncDirectory => match done {
                    Ok(_) => next == SaveStep::Saved,
                    Err(f) => next matches SaveStep::Failed(SaveError::AfterCommit(g)) && g.kind
                        == f.kind && g.message@ == f.message@,
                },
                SaveStep::Saved => next == SaveStep::Saved,
                SaveStep::Failed(SaveError::BeforeCommit(f)) => fails_to_save(
                    next,
                    f.kind,
                    f.message@,
                ),
                SaveStep::Failed(SaveError::AfterCommit(f)) => next matches SaveStep::Failed(
                    SaveError::AfterCommit(g),
                ) && g.kind == f.kind && g.message@ == f.message@,
            },
{
}

/// The files and their directory are for the user alone.
pub proof fn law_the_files_are_for_the_user_alone()
    ensures
        DIRECTORY_MODE == 7 * 64,
        FILE_MODE == 6 * 64,
{
}

} // verus!
