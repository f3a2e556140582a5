//! The task model: four buckets, an optional tag, order by position, no history.

use crate::json;
use crate::json::Json;
use crate::json::JsonTree;
use crate::text;
use vstd::prelude::*;

verus! {

/// The longest a task's title may be, in characters.
pub const MAX_TITLE_CHARS: usize = 256;

/// The longest text that quick-add reads, in bytes.
pub const MAX_QUICK_ADD_BYTES: usize = 4096;

/// The four buckets a task can be in.
#[derive(Debug, Clone, Copy, PartialEq, Eq, Hash, Structural)]
pub enum Bucket {
    Now,
    Next,
    Later,
    Side,
}

impl Bucket {
    pub const ALL: [Bucket; 4] = [Bucket::Now, Bucket::Next, Bucket::Later, Bucket::Side];

    /// The bucket's name in files and on the bus.
    pub open spec fn name(self) -> Seq<char> {
        match self {
            Bucket::Now => "now"@,
            Bucket::Next => "next"@,
            Bucket::Later => "later"@,
            Bucket::Side => "side"@,
        }
    }

    pub open spec fn names() -> Seq<Seq<char>> {
        seq!["now"@, "next"@, "later"@, "side"@]
    }

    /// The bucket that a JSON value gives.
    pub open spec fn read(t: JsonTree) -> Result<Bucket, Seq<char>> {
        match json::as_name(t, Bucket::names()) {
            Ok(i) => Ok(
                if i == 0 {
                    Bucket::Now
                } else if i == 1 {
                    Bucket::Next
                } else if i == 2 {
                    Bucket::Later
                } else {
                    Bucket::Side
                },
            ),
            Err(e) => Err(e),
        }
    }

    pub open spec fn title(self) -> Seq<char> {
        match self {
            Bucket::Now => "Now"@,
            Bucket::Next => "Next"@,
            Bucket::Later => "Later"@,
            Bucket::Side => "Side"@,
        }
    }

    /// The bucket that a text names: its name or its short form, whatever the
    /// case and the whitespace around it.
    pub open spec fn named(s: Seq<char>) -> Option<Bucket> {
        let w = text::lower(text::trim(s));
        if w == "now"@ || w == "n"@ {
            Some(Bucket::Now)
        } else if w == "next"@ || w == "x"@ {
            Some(Bucket::Next)
        } else if w == "later"@ || w == "l"@ {
            Some(Bucket::Later)
        } else if w == "side"@ || w == "s"@ {
            Some(Bucket::Side)
        } else {
            None
        }
    }

    pub fn as_str(self) -> (s: &'static str)
        ensures
            s@ == self.name(),
    {
        match self {
            Bucket::Now => "now",
            Bucket::Next => "next",
            Bucket::Later => "later",
            Bucket::Side => "side",
        }
    }

    pub fn label(self) -> (s: &'static str)
        ensures
            s@ == self.title(),
    {
        match self {
            Bucket::Now => "Now",
            Bucket::Next => "Next",
            Bucket::Later => "Later",
            Bucket::Side => "Side",
        }
    }

    pub fn parse(s: &str) -> (b: Option<Bucket>)
        ensures
            b == Bucket::named(s@),
    {
        Bucket::parse_chars(&text::chars_of(s))
    }

    pub fn from_json(j: &Json) -> (r: Result<Bucket, String>)
        ensures
            json::gives(r, Bucket::read(j@)),
    {
        let names: &'static [&'static str] = &["now", "next", "later", "side"];
        assert(json::texts(names@) =~= Bucket::names());
        match json::name_of(j, names) {
            Ok(i) => Ok(
                if i == 0 {
                    Bucket::Now
                } else if i == 1 {
                    Bucket::Next
                } else if i == 2 {
                    Bucket::Later
                } else {
                    Bucket::Side
                },
            ),
            Err(e) => Err(e),
        }
    }

    pub fn parse_chars(v: &Vec<char>) -> (b: Option<Bucket>)
        ensures
            b == Bucket::named(v@),
    {
        let w = text::lower_chars(&text::trim_chars(v));
        if text::chars_are(&w, "now") || text::chars_are(&w, "n") {
            Some(Bucket::Now)
        } else if text::chars_are(&w, "next") || text::chars_are(&w, "x") {
            Some(Bucket::Next)
        } else if text::chars_are(&w, "later") || text::chars_are(&w, "l") {
            Some(Bucket::Later)
        } else if text::chars_are(&w, "side") || text::chars_are(&w, "s") {
            Some(Bucket::Side)
        } else {
            None
        }
    }
}

/// What kind of thing a task is.
#[derive(Debug, Clone, Copy, PartialEq, Eq, Hash, Structural)]
pub enum Tag {
    Work,
    Personal,
}

impl Tag {
    pub open spec fn name(self) -> Seq<char> {
        match self {
            Tag::Work => "work"@,
            Tag::Personal => "personal"@,
        }
    }

    pub open spec fn names() -> Seq<Seq<char>> {
        seq!["work"@, "personal"@]
    }

    /// The tag that a JSON value gives.
    pub open spec fn read(t: JsonTree) -> Result<Tag, Seq<char>> {
        match json::as_name(t, Tag::names()) {
            Ok(i) => Ok(
                if i == 0 {
                    Tag::Work
                } else {
                    Tag::Personal
                },
            ),
            Err(e) => Err(e),
        }
    }

    /// The tag that a text names: its name or its first letter, whatever the
    /// case and the whitespace around it.
    pub open spec fn named(s: Seq<char>) -> Option<Tag> {
        let w = text::lower(text::trim(s));
        if w == "work"@ || w == "w"@ {
            Some(Tag::Work)
        } else if w == "personal"@ || w == "p"@ {
            Some(Tag::Personal)
        } else {
            None
        }
    }

    /// No tag, work, personal, and round again.
    pub open spec fn after(cur: Option<Tag>) -> Option<Tag> {
        match cur {
            None => Some(Tag::Work),
            Some(Tag::Work) => Some(Tag::Personal),
            Some(Tag::Personal) => None,
        }
    }

    pub fn as_str(self) -> (s: &'static str)
        ensures
            s@ == self.name(),
    {
        match self {
            Tag::Work => "work",
            Tag::Personal => "personal",
        }
    }

    pub fn parse(s: &str) -> (t: Option<Tag>)
        ensures
            t == Tag::named(s@),
    {
        Tag::parse_chars(&text::chars_of(s))
    }

    pub fn from_json(j: &Json) -> (r: Result<Tag, String>)
        ensures
            json::gives(r, Tag::read(j@)),
    {
        let names: &'static [&'static str] = &["work", "personal"];
        assert(json::texts(names@) =~= Tag::names());
        match json::name_of(j, names) {
            Ok(i) => Ok(
                if i == 0 {
                    Tag::Work
                } else {
                    Tag::Personal
                },
            ),
            Err(e) => Err(e),
        }
    }

    pub fn parse_chars(v: &Vec<char>) -> (t: Option<Tag>)
        ensures
            t == Tag::named(v@),
    {
        let w = text::lower_chars(&text::trim_chars(v));
        if text::chars_are(&w, "work") || text::chars_are(&w, "w") {
            Some(Tag::Work)
        } else if text::chars_are(&w, "personal") || text::chars_are(&w, "p") {
            Some(Tag::Personal)
        } else {
            None
        }
    }

    pub fn cycle(cur: Option<Tag>) -> (next: Option<Tag>)
        ensures
            next == Tag::after(cur),
    {
        match cur {
            None => Some(Tag::Work),
            Some(Tag::Work) => Some(Tag::Personal),
            Some(Tag::Personal) => None,
        }
    }
}

/// One thing to do.
#[derive(Debug, PartialEq, Eq)]
pub struct Task {
    pub id: u64,
    pub title: String,
    pub bucket: Bucket,
    pub tag: Option<Tag>,
    /// Unix seconds at which the task was added.
    pub created_at: u64,
    /// Unix seconds since it became the current (head of Now) task.
    pub started_at: Option<u64>,
    /// Unix seconds at which the timer was paused; `None` while it runs.
    pub paused_at: Option<u64>,
}

/// What a `Task` holds, with the title as its characters.
#[verifier::ext_equal]
pub struct TaskView {
    pub id: u64,
    pub title: Seq<char>,
    pub bucket: Bucket,
    pub tag: Option<Tag>,
    pub created_at: u64,
    pub started_at: Option<u64>,
    pub paused_at: Option<u64>,
}

impl View for Task {
    type V = TaskView;

    open spec fn view(&self) -> TaskView {
        TaskView {
            id: self.id,
            title: self.title@,
            bucket: self.bucket,
            tag: self.tag,
            created_at: self.created_at,
            started_at: self.started_at,
            paused_at: self.paused_at,
        }
    }
}

impl Clone for Task {
    fn clone(&self) -> (t: Self)
        ensures
            t@ == self@,
    {
        Task {
            id: self.id,
            title: self.title.clone(),
            bucket: self.bucket,
            tag: self.tag,
            created_at: self.created_at,
            started_at: self.started_at,
            paused_at: self.paused_at,
        }
    }
}

/// The difference of two times, zero where the first is the earlier.
pub open spec fn since(now: u64, then: u64) -> u64 {
    if now >= then {
        (now - then) as u64
    } else {
        0
    }
}

impl TaskView {
    /// Seconds on the clock, frozen while paused.
    pub open spec fn elapsed(self, now: u64) -> Option<u64> {
        match self.started_at {
            None => None,
            Some(started) => Some(
                since(
                    match self.paused_at {
                        Some(paused) => paused,
                        None => now,
                    },
                    started,
                ),
            ),
        }
    }

    pub open spec fn paused(self) -> bool {
        self.started_at is Some && self.paused_at is Some
    }

    pub open spec fn untimed(self) -> TaskView {
        TaskView { started_at: None, paused_at: None, ..self }
    }
}

impl Task {
    /// Whether two tasks hold the same.
    pub fn same(&self, other: &Task) -> (same: bool)
        ensures
            same == (self@ == other@),
    {
        self.id == other.id && text::same_text(self.title.as_str(), other.title.as_str())
            && self.bucket == other.bucket && self.tag == other.tag && self.created_at
            == other.created_at && self.started_at == other.started_at && self.paused_at
            == other.paused_at
    }

    /// Time on the clock: frozen at `paused_at` while paused.
    pub fn elapsed_secs(&self, now: u64) -> (secs: Option<u64>)
        ensures
            secs == self@.elapsed(now),
    {
        match self.started_at {
            None => None,
            Some(started) => {
                let end: u64 = match self.paused_at {
                    Some(paused) => paused,
                    None => now,
                };
                Some(end.saturating_sub(started))
            },
        }
    }

    pub fn is_paused(&self) -> (paused: bool)
        ensures
            paused == self@.paused(),
    {
        self.started_at.is_some() && self.paused_at.is_some()
    }
}

/// What completing the current task removed and what it pulled into Now in its
/// place, so the completion can be reversed exactly.
#[derive(Debug, PartialEq, Eq)]
pub struct Completed {
    pub task: Task,
    /// The task moved from the head of Next to the head of Now, if any.
    pub pulled: Option<u64>,
}

/// What a `Completed` holds.
#[verifier::ext_equal]
pub struct CompletedView {
    pub task: TaskView,
    pub pulled: Option<u64>,
}

impl View for Completed {
    type V = CompletedView;

    open spec fn view(&self) -> CompletedView {
        CompletedView { task: self.task@, pulled: self.pulled }
    }
}

impl Clone for Completed {
    fn clone(&self) -> (c: Self)
        ensures
            c@ == self@,
    {
        Completed { task: self.task.clone(), pulled: self.pulled }
    }
}

// ---- laws ----------------------------------------------------------------------------

/// A lower-case word is its own trimming and lower case.
proof fn lemma_plain_word(w: Seq<char>)
    requires
        forall|i: int| 0 <= i < w.len() ==> 97 <= (#[trigger] w[i]) as u32 <= 122,
    ensures
        text::lower(text::trim(w)) == w,
{
    assert forall|i: int| 0 <= i < w.len() implies !text::is_white(#[trigger] w[i]) by {}
    text::lemma_trim_fixed(w);
    assert(text::lower(w) =~= w);
}

/// The name of a bucket, and that of a tag, is understood as what it names.
pub proof fn law_names_are_understood(bucket: Bucket, tag: Tag)
    ensures
        Bucket::named(bucket.name()) == Some(bucket),
        Tag::named(tag.name()) == Some(tag),
{
    reveal_strlit("now");
    reveal_strlit("next");
    reveal_strlit("later");
    reveal_strlit("side");
    reveal_strlit("n");
    reveal_strlit("x");
    reveal_strlit("l");
    reveal_strlit("s");
    reveal_strlit("work");
    reveal_strlit("personal");
    reveal_strlit("w");
    reveal_strlit("p");
    lemma_plain_word(bucket.name());
    lemma_plain_word(tag.name());
    assert("now"@.len() == 3 && "next"@.len() == 4 && "later"@.len() == 5 && "side"@.len() == 4);
    assert("n"@.len() == 1 && "x"@.len() == 1 && "l"@.len() == 1 && "s"@.len() == 1);
    assert("next"@[0] != "side"@[0]);
    assert("work"@.len() == 4 && "personal"@.len() == 8);
    assert("w"@.len() == 1 && "p"@.len() == 1);
}

/// The names of the buckets and of the tags in files, on the bus and on labels.
pub proof fn law_what_things_are_called(b: Bucket, t: Tag)
    ensures
        forall|s: &'static str| #[trigger]
            call_ensures(Bucket::as_str, (b,), s) ==> s@ == (match b {
                Bucket::Now => "now"@,
                Bucket::Next => "next"@,
                Bucket::Later => "later"@,
                Bucket::Side => "side"@,
            }),
        forall|s: &'static str| #[trigger]
            call_ensures(Bucket::label, (b,), s) ==> s@ == (match b {
                Bucket::Now => "Now"@,
                Bucket::Next => "Next"@,
                Bucket::Later => "Later"@,
                Bucket::Side => "Side"@,
            }),
        forall|s: &'static str| #[trigger]
            call_ensures(Tag::as_str, (t,), s) ==> s@ == (match t {
                Tag::Work => "work"@,
                Tag::Personal => "personal"@,
            }),
{
}

/// Whether a text is one of two words, whatever the case and the whitespace around it.
pub open spec fn says(s: Seq<char>, word: Seq<char>, letter: Seq<char>) -> bool {
    let w = text::lower(text::trim(s));
    w == word || w == letter
}

/// A bucket, and a tag, is named by its name and by its letter, and by nothing else.
pub proof fn law_what_names_a_bucket_and_a_tag(s: &str)
    ensures
        forall|b: Option<Bucket>| #[trigger]
            call_ensures(Bucket::parse, (s,), b) ==> {
                &&& b == Some(Bucket::Now) <==> says(s@, "now"@, "n"@)
                &&& b == Some(Bucket::Next) <==> says(s@, "next"@, "x"@)
                &&& b == Some(Bucket::Later) <==> says(s@, "later"@, "l"@)
                &&& b == Some(Bucket::Side) <==> says(s@, "side"@, "s"@)
            },
        forall|t: Option<Tag>| #[trigger]
            call_ensures(Tag::parse, (s,), t) ==> {
                &&& t == Some(Tag::Work) <==> says(s@, "work"@, "w"@)
                &&& t == Some(Tag::Personal) <==> says(s@, "personal"@, "p"@)
            },
{
    lemma_words_differ();
}

pub proof fn lemma_words_differ()
    ensures
        forall|s: Seq<char>|
            #![trigger Bucket::named(s)]
            {
                &&& Bucket::named(s) == Some(Bucket::Now) <==> says(s, "now"@, "n"@)
                &&& Bucket::named(s) == Some(Bucket::Next) <==> says(s, "next"@, "x"@)
                &&& Bucket::named(s) == Some(Bucket::Later) <==> says(s, "later"@, "l"@)
                &&& Bucket::named(s) == Some(Bucket::Side) <==> says(s, "side"@, "s"@)
            },
        forall|s: Seq<char>|
            #![trigger Tag::named(s)]
            {
                &&& Tag::named(s) == Some(Tag::Work) <==> says(s, "work"@, "w"@)
                &&& Tag::named(s) == Some(Tag::Personal) <==> says(s, "personal"@, "p"@)
            },
{
    reveal_strlit("now");
    reveal_strlit("next");
    reveal_strlit("later");
    reveal_strlit("side");
    reveal_strlit("n");
    reveal_strlit("x");
    reveal_strlit("l");
    reveal_strlit("s");
    reveal_strlit("work");
    reveal_strlit("personal");
    reveal_strlit("w");
    reveal_strlit("p");
    assert("now"@.len() == 3 && "next"@.len() == 4 && "later"@.len() == 5 && "side"@.len() == 4);
    assert("next"@[0] == 'n' && "side"@[0] == 's');
    assert("n"@[0] == 'n' && "x"@[0] == 'x' && "l"@[0] == 'l' && "s"@[0] == 's');
    assert("n"@.len() == 1 && "x"@.len() == 1 && "l"@.len() == 1 && "s"@.len() == 1);
    assert("work"@.len() == 4 && "personal"@.len() == 8);
    assert("w"@[0] == 'w' && "p"@[0] == 'p' && "w"@.len() == 1 && "p"@.len() == 1);
}

/// The tag behind none is work, that behind work is personal, and that behind personal
/// is none. Two tasks are the same where every field of them is.
pub proof fn law_tags_go_round(t: Option<Tag>, a: Task, b: Task)
    ensures
        forall|next: Option<Tag>| #[trigger]
            call_ensures(Tag::cycle, (t,), next) ==> match t {
                None => next == Some(Tag::Work),
                Some(Tag::Work) => next == Some(Tag::Personal),
                Some(Tag::Personal) => next is None,
            },
        forall|same: bool| #[trigger]
            call_ensures(Task::same, (&a, &b), same) ==> same == (a.id == b.id && a.title@
                == b.title@ && a.bucket == b.bucket && a.tag == b.tag && a.created_at
                == b.created_at && a.started_at == b.started_at && a.paused_at == b.paused_at),
{
}

/// The characters of a name name what the name does.
pub proof fn law_what_characters_name(v: Vec<char>)
    ensures
        forall|b: Option<Bucket>| #[trigger]
            call_ensures(Bucket::parse_chars, (&v,), b) ==> {
                &&& b == Some(Bucket::Now) <==> says(v@, "now"@, "n"@)
                &&& b == Some(Bucket::Next) <==> says(v@, "next"@, "x"@)
                &&& b == Some(Bucket::Later) <==> says(v@, "later"@, "l"@)
                &&& b == Some(Bucket::Side) <==> says(v@, "side"@, "s"@)
            },
        forall|t: Option<Tag>| #[trigger]
            call_ensures(Tag::parse_chars, (&v,), t) ==> {
                &&& t == Some(Tag::Work) <==> says(v@, "work"@, "w"@)
                &&& t == Some(Tag::Personal) <==> says(v@, "personal"@, "p"@)
            },
{
    lemma_words_differ();
}

} // verus!
