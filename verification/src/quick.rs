//! Quick-add: a line of text with markers for the bucket and the tag.

use crate::model::Bucket;
use crate::model::Tag;
use crate::text;
use vstd::prelude::*;

verus! {

/// Result of parsing quick-add syntax:
/// `!title` or a bare `!now` -> Now, `title #work` / `#w` / `#p`,
/// `@later` / `@side` / `@next` / `@now`.
#[derive(Debug, PartialEq, Eq)]
pub struct QuickAdd {
    pub title: String,
    pub bucket: Option<Bucket>,
    pub tag: Option<Tag>,
}

/// What a `QuickAdd` holds.
#[verifier::ext_equal]
pub struct QuickAddView {
    pub title: Seq<char>,
    pub bucket: Option<Bucket>,
    pub tag: Option<Tag>,
}

impl View for QuickAdd {
    type V = QuickAddView;

    open spec fn view(&self) -> QuickAddView {
        QuickAddView { title: self.title@, bucket: self.bucket, tag: self.tag }
    }
}

impl Clone for QuickAdd {
    fn clone(&self) -> (q: Self)
        ensures
            q@ == self@,
    {
        QuickAdd { title: self.title.clone(), bucket: self.bucket, tag: self.tag }
    }
}

/// What one word of the text stands for.
pub enum Word {
    Tag(Tag),
    /// A bucket named behind an `@`.
    Bucket(Bucket),
    /// The shorthand for Now.
    Now,
    Title,
}

/// The text behind a leading marker character, if it has that character.
pub open spec fn behind(w: Seq<char>, mark: char) -> Option<Seq<char>> {
    if w.len() > 0 && w[0] == mark {
        Some(w.skip(1))
    } else {
        None
    }
}

/// A standalone "!" / "!now" / "!n" word: shorthand for the Now bucket.
pub open spec fn now_marker(w: Seq<char>) -> bool {
    match behind(w, '!') {
        Some(rest) => rest.len() == 0 || Bucket::named(rest) == Some(Bucket::Now),
        None => false,
    }
}

/// A tag marker, a bucket marker, the shorthand for Now, or a word of the title.
pub open spec fn meaning(w: Seq<char>) -> Word {
    if behind(w, '#') is Some && Tag::named(behind(w, '#')->0) is Some {
        Word::Tag(Tag::named(behind(w, '#')->0)->0)
    } else if behind(w, '@') is Some && Bucket::named(behind(w, '@')->0) is Some {
        Word::Bucket(Bucket::named(behind(w, '@')->0)->0)
    } else if now_marker(w) {
        Word::Now
    } else {
        Word::Title
    }
}

pub open spec fn is_title_word() -> spec_fn(Seq<char>) -> bool {
    |w: Seq<char>| meaning(w) is Title
}

/// The words that are no markers, in order.
pub open spec fn title_words(ws: Seq<Seq<char>>) -> Seq<Seq<char>> {
    ws.filter(is_title_word())
}

/// The last tag that a word names.
pub open spec fn last_tag(ws: Seq<Seq<char>>) -> Option<Tag>
    decreases ws.len(),
{
    if ws.len() == 0 {
        None
    } else {
        match meaning(ws.last()) {
            Word::Tag(t) => Some(t),
            _ => last_tag(ws.drop_last()),
        }
    }
}

/// The last bucket that a word names behind an `@`.
pub open spec fn last_bucket(ws: Seq<Seq<char>>) -> Option<Bucket>
    decreases ws.len(),
{
    if ws.len() == 0 {
        None
    } else {
        match meaning(ws.last()) {
            Word::Bucket(b) => Some(b),
            _ => last_bucket(ws.drop_last()),
        }
    }
}

/// Whether the shorthand for Now stands anywhere among the words.
pub open spec fn has_now(ws: Seq<Seq<char>>) -> bool {
    exists|i: int| 0 <= i < ws.len() && meaning(#[trigger] ws[i]) is Now
}

/// What a text asks for: the title words joined, the last tag and the last
/// bucket named. The shorthand for Now, wherever it stands, and a `!` before the
/// title ask for Now whatever bucket is named. Nothing where the text is too long
/// or no title is left.
pub open spec fn asked(input: Seq<char>) -> Option<QuickAddView> {
    let ws = text::words(input);
    let line = text::join_words(title_words(ws));
    let title = match behind(line, '!') {
        Some(rest) => text::trim_start(rest),
        None => line,
    };
    let bucket = if behind(line, '!') is Some || has_now(ws) {
        Some(Bucket::Now)
    } else {
        last_bucket(ws)
    };
    if vstd::utf8::encode_utf8(input).len() > crate::model::MAX_QUICK_ADD_BYTES || title.len()
        == 0 {
        None
    } else {
        Some(QuickAddView { title, bucket, tag: last_tag(ws) })
    }
}

fn rest_behind(w: &Vec<char>, mark: char) -> (rest: Option<Vec<char>>)
    ensures
        rest is Some <==> behind(w@, mark) is Some,
        rest is Some ==> rest->0@ == behind(w@, mark)->0,
{
    if w.len() > 0 && w[0] == mark {
        assert(w@.skip(1) =~= w@.subrange(1, w@.len() as int));
        Some(text::slice_chars(w, 1, w.len()))
    } else {
        None
    }
}

fn is_now_marker(w: &Vec<char>) -> (marker: bool)
    ensures
        marker == now_marker(w@),
{
    match rest_behind(w, '!') {
        Some(rest) => {
            if rest.len() == 0 {
                true
            } else {
                match Bucket::parse_chars(&rest) {
                    Some(b) => b == Bucket::Now,
                    None => false,
                }
            }
        },
        None => false,
    }
}

fn word_meaning(w: &Vec<char>) -> (m: Word)
    ensures
        m == meaning(w@),
{
    match rest_behind(w, '#') {
        Some(rest) => {
            match Tag::parse_chars(&rest) {
                Some(t) => {
                    return Word::Tag(t);
                },
                None => {},
            }
        },
        None => {},
    }
    match rest_behind(w, '@') {
        Some(rest) => {
            match Bucket::parse_chars(&rest) {
                Some(b) => {
                    return Word::Bucket(b);
                },
                None => {},
            }
        },
        None => {},
    }
    if is_now_marker(w) {
        Word::Now
    } else {
        Word::Title
    }
}

impl QuickAdd {
    pub fn parse(input: &str) -> (q: Option<QuickAdd>)
        ensures
            q is Some <==> asked(input@) is Some,
            q is Some ==> Some(q->0@) == asked(input@),
    {
        if input.as_bytes().len() > crate::model::MAX_QUICK_ADD_BYTES {
            return None;
        }
        let ws = text::split_words(&text::chars_of(input));
        let ghost all = text::char_views(ws@);
        let mut bucket: Option<Bucket> = None;
        let mut tag: Option<Tag> = None;
        let mut now: bool = false;
        let mut kept: Vec<Vec<char>> = Vec::new();
        let mut i: usize = 0;
        proof {
            reveal(Seq::filter);
            assert(text::char_views(kept@) =~= title_words(all.take(0)));
        }
        while i < ws.len()
            invariant
                i <= ws.len(),
                all == text::char_views(ws@),
                bucket == last_bucket(all.take(i as int)),
                tag == last_tag(all.take(i as int)),
                now == has_now(all.take(i as int)),
                text::char_views(kept@) == title_words(all.take(i as int)),
            decreases ws.len() - i,
        {
            let ghost before = all.take(i as int);
            let ghost after = all.take(i + 1);
            let ghost old_kept = kept@;
            proof {
                assert(after.drop_last() =~= before);
                assert(after.last() == ws@[i as int]@);
                lemma_has_now(after);
                reveal(Seq::filter);
            }
            match word_meaning(&ws[i]) {
                Word::Tag(t) => {
                    tag = Some(t);
                },
                Word::Bucket(b) => {
                    bucket = Some(b);
                },
                Word::Now => {
                    now = true;
                },
                Word::Title => {
                    let w = text::slice_chars(&ws[i], 0, ws[i].len());
                    assert(w@ =~= ws@[i as int]@);
                    kept.push(w);
                    assert(text::char_views(kept@) =~= text::char_views(old_kept).push(w@));
                },
            }
            i += 1;
        }
        assert(all.take(all.len() as int) =~= all);
        let line = text::join_chars(&kept);
        let title = match rest_behind(&line, '!') {
            Some(rest) => {
                now = true;
                text::trim_start_chars(&rest)
            },
            None => line,
        };
        if now {
            bucket = Some(Bucket::Now);
        }
        if title.len() == 0 {
            return None;
        }
        Some(QuickAdd { title: text::text_of(&title), bucket, tag })
    }
}

/// The shorthand for Now is the last word, or stands before it.
proof fn lemma_has_now(ws: Seq<Seq<char>>)
    requires
        ws.len() > 0,
    ensures
        has_now(ws) == (meaning(ws.last()) is Now || has_now(ws.drop_last())),
{
    let front = ws.drop_last();
    if has_now(ws) {
        let i = choose|i: int| 0 <= i < ws.len() && meaning(#[trigger] ws[i]) is Now;
        if i < front.len() {
            assert(meaning(front[i]) is Now);
        }
    }
    if has_now(front) {
        let i = choose|i: int| 0 <= i < front.len() && meaning(#[trigger] front[i]) is Now;
        assert(meaning(ws[i]) is Now);
    }
    if meaning(ws.last()) is Now {
        assert(meaning(ws[ws.len() - 1]) is Now);
    }
}

// ---- laws ------------------------------------------------------------------------

proof fn lemma_title_words(ws: Seq<Seq<char>>)
    requires
        text::all_words(ws),
    ensures
        text::all_words(title_words(ws)),
        forall|i: int|
            0 <= i < title_words(ws).len() ==> meaning(#[trigger] title_words(ws)[i]) is Title,
    decreases ws.len(),
{
    reveal(Seq::filter);
    if ws.len() > 0 {
        let front = ws.drop_last();
        assert forall|i: int| 0 <= i < front.len() implies (#[trigger] front[i]).len() > 0
            && text::no_white(front[i]) by {
            assert(front[i] == ws[i]);
        }
        lemma_title_words(front);
        let kept = title_words(ws);
        assert(ws[ws.len() - 1].len() > 0);
        assert forall|i: int| 0 <= i < kept.len() implies (#[trigger] kept[i]).len() > 0
            && text::no_white(kept[i]) && meaning(kept[i]) is Title by {
            if i < title_words(front).len() {
                assert(kept[i] == title_words(front)[i]);
            }
        }
    }
}

/// What quick-add leaves as the title: exactly the words that are no markers, in
/// order with one space between them, or these behind a `!` that asked for Now.
/// A title is not empty and neither starts nor ends with whitespace.
pub proof fn law_markers_leave_the_title(input: Seq<char>)
    requires
        asked(input) is Some,
    ensures
        ({
            let q = asked(input)->0;
            let ws = text::words(input);
            let line = if text::join_words(title_words(ws))[0] == '!' {
                seq!['!'] + q.title
            } else {
                q.title
            };
            &&& text::words(line) == title_words(ws)
            &&& forall|i: int|
                0 <= i < title_words(ws).len() ==> meaning(#[trigger] title_words(ws)[i]) is Title
            &&& line[0] == '!' ==> q.bucket == Some(Bucket::Now)
            &&& q.title.len() > 0
            &&& text::trim(q.title) == q.title
        }),
{
    let ws = text::words(input);
    text::lemma_words(input);
    lemma_title_words(ws);
    let kept = title_words(ws);
    text::law_joined_words_read_back(kept);
    let line = text::join_words(kept);
    let q = asked(input)->0;
    if kept.len() == 0 {
        assert(line.len() == 0);
        assert(q.title.len() == 0);
    }
    if behind(line, '!') is Some {
        let rest = line.skip(1);
        // A bare `!` is a marker, so more of the first word follows it.
        let w = kept[0];
        assert(meaning(w) is Title);
        assert(w.len() > 1) by {
            if w.len() == 1 {
                assert(behind(w, '!') == Some(w.skip(1)));
                assert(w.skip(1).len() == 0);
            }
        }
        lemma_join_starts_with(kept);
        assert(rest[0] == w[1]);
        assert(!text::is_white(w[1]));
        assert(text::trim_start(rest) == rest);
        assert(seq!['!'] + rest =~= line);
        assert(rest.last() == line.last());
        text::lemma_trim_fixed(rest);
    }
}

/// The joined line starts with its first word.
proof fn lemma_join_starts_with(ws: Seq<Seq<char>>)
    requires
        ws.len() > 0,
        text::all_words(ws),
    ensures
        text::join_words(ws).len() >= ws[0].len(),
        text::join_words(ws).take(ws[0].len() as int) == ws[0],
        forall|i: int| 0 <= i < ws[0].len() ==> text::join_words(ws)[i] == #[trigger] ws[0][i],
    decreases ws.len(),
{
    if ws.len() == 1 {
        assert(text::join_words(ws).take(ws[0].len() as int) =~= ws[0]);
    } else {
        let front = ws.drop_last();
        assert forall|i: int| 0 <= i < front.len() implies (#[trigger] front[i]).len() > 0
            && text::no_white(front[i]) by {
            assert(front[i] == ws[i]);
        }
        assert(front[0] == ws[0]);
        lemma_join_starts_with(front);
        assert(text::join_words(ws).take(ws[0].len() as int) =~= ws[0]);
    }
}

/// A text longer than the limit asks for nothing.
pub proof fn law_oversized_input_is_refused(input: Seq<char>)
    requires
        vstd::utf8::encode_utf8(input).len() > crate::model::MAX_QUICK_ADD_BYTES,
    ensures
        asked(input) is None,
{
}

/// The last `#` marker names the tag. The shorthand for Now, wherever it stands,
/// and a `!` before the title ask for Now whatever else is there; without them the
/// last `@` marker names the bucket. Without a marker of a kind nothing of the kind
/// is asked for.
pub proof fn law_the_last_marker_wins(input: Seq<char>, k: int)
    requires
        asked(input) is Some,
        0 <= k < text::words(input).len(),
    ensures
        ({
            let ws = text::words(input);
            let q = asked(input)->0;
            &&& (meaning(ws[k]) is Tag && (forall|j: int|
                k < j < ws.len() ==> !(meaning(#[trigger] ws[j]) is Tag))) ==> q.tag == Some(
                meaning(ws[k])->Tag_0,
            )
            &&& (meaning(ws[k]) is Bucket && (forall|j: int|
                k < j < ws.len() ==> !(meaning(#[trigger] ws[j]) is Bucket)) && !has_now(ws)
                && !(behind(text::join_words(title_words(ws)), '!') is Some)) ==> q.bucket == Some(
                meaning(ws[k])->Bucket_0,
            )
            &&& meaning(ws[k]) is Now ==> q.bucket == Some(Bucket::Now)
            &&& behind(text::join_words(title_words(ws)), '!') is Some ==> q.bucket == Some(
                Bucket::Now,
            )
            &&& (forall|j: int| 0 <= j < ws.len() ==> !(meaning(#[trigger] ws[j]) is Tag))
                ==> q.tag is None
            &&& ((forall|j: int|
                0 <= j < ws.len() ==> !(meaning(#[trigger] ws[j]) is Bucket || meaning(
                    ws[j],
                ) is Now)) && !(behind(text::join_words(title_words(ws)), '!') is Some))
                ==> q.bucket is None
        }),
{
    let ws = text::words(input);
    lemma_last_marker(ws, k);
    lemma_no_marker(ws);
    if forall|j: int|
        0 <= j < ws.len() ==> !(meaning(#[trigger] ws[j]) is Bucket || meaning(ws[j]) is Now) {
        assert(!has_now(ws));
    }
}

proof fn lemma_no_marker(ws: Seq<Seq<char>>)
    ensures
        (forall|j: int| 0 <= j < ws.len() ==> !(meaning(#[trigger] ws[j]) is Tag)) ==> last_tag(
            ws,
        ) is None,
        (forall|j: int| 0 <= j < ws.len() ==> !(meaning(#[trigger] ws[j]) is Bucket))
            ==> last_bucket(ws) is None,
    decreases ws.len(),
{
    if ws.len() > 0 {
        let front = ws.drop_last();
        lemma_no_marker(front);
        if forall|j: int| 0 <= j < ws.len() ==> !(meaning(#[trigger] ws[j]) is Tag) {
            assert(!(meaning(ws[ws.len() - 1]) is Tag));
            assert forall|j: int| 0 <= j < front.len() implies !(meaning(
                #[trigger] front[j],
            ) is Tag) by {
                assert(front[j] == ws[j]);
            }
        }
        if forall|j: int| 0 <= j < ws.len() ==> !(meaning(#[trigger] ws[j]) is Bucket) {
            assert(!(meaning(ws[ws.len() - 1]) is Bucket));
            assert forall|j: int| 0 <= j < front.len() implies !(meaning(
                #[trigger] front[j],
            ) is Bucket) by {
                assert(front[j] == ws[j]);
            }
        }
    }
}

proof fn lemma_last_marker(ws: Seq<Seq<char>>, k: int)
    requires
        0 <= k < ws.len(),
    ensures
        (meaning(ws[k]) is Tag && (forall|j: int|
            k < j < ws.len() ==> !(meaning(#[trigger] ws[j]) is Tag))) ==> last_tag(ws) == Some(
            meaning(ws[k])->Tag_0,
        ),
        (meaning(ws[k]) is Bucket && (forall|j: int|
            k < j < ws.len() ==> !(meaning(#[trigger] ws[j]) is Bucket))) ==> last_bucket(ws)
            == Some(meaning(ws[k])->Bucket_0),
    decreases ws.len(),
{
    if k < ws.len() - 1 {
        let front = ws.drop_last();
        lemma_last_marker(front, k);
        if forall|j: int| k < j < ws.len() ==> !(meaning(#[trigger] ws[j]) is Tag) {
            assert(!(meaning(ws[ws.len() - 1]) is Tag));
            assert forall|j: int| k < j < front.len() implies !(meaning(
                #[trigger] front[j],
            ) is Tag) by {
                assert(front[j] == ws[j]);
            }
        }
        if forall|j: int| k < j < ws.len() ==> !(meaning(#[trigger] ws[j]) is Bucket) {
            assert(!(meaning(ws[ws.len() - 1]) is Bucket));
            assert forall|j: int| k < j < front.len() implies !(meaning(
                #[trigger] front[j],
            ) is Bucket) by {
                assert(front[j] == ws[j]);
            }
        }
    }
}

// ---- what a line asks for, word by word ----------------------------------------------

/// Whether a word is a marker for a tag: `#work` or `#w`, `#personal` or `#p`.
pub open spec fn marks_tag(w: Seq<char>, t: Tag) -> bool {
    &&& w.len() > 0 && w[0] == '#'
    &&& match t {
        Tag::Work => crate::model::says(w.skip(1), "work"@, "w"@),
        Tag::Personal => crate::model::says(w.skip(1), "personal"@, "p"@),
    }
}

/// Whether a word is a marker for a bucket: `@now` or `@n`, `@next` or `@x`, `@later` or
/// `@l`, `@side` or `@s`.
pub open spec fn marks_bucket(w: Seq<char>, b: Bucket) -> bool {
    &&& w.len() > 0 && w[0] == '@'
    &&& match b {
        Bucket::Now => crate::model::says(w.skip(1), "now"@, "n"@),
        Bucket::Next => crate::model::says(w.skip(1), "next"@, "x"@),
        Bucket::Later => crate::model::says(w.skip(1), "later"@, "l"@),
        Bucket::Side => crate::model::says(w.skip(1), "side"@, "s"@),
    }
}

/// Whether a word is `!`, `!now` or `!n`.
pub open spec fn marks_now(w: Seq<char>) -> bool {
    &&& w.len() > 0 && w[0] == '!'
    &&& w.len() == 1 || crate::model::says(w.skip(1), "now"@, "n"@)
}

/// Whether a word is none of these.
pub open spec fn is_plain(w: Seq<char>) -> bool {
    &&& !marks_now(w)
    &&& forall|t: Tag| !#[trigger] marks_tag(w, t)
    &&& forall|b: Bucket| !#[trigger] marks_bucket(w, b)
}

proof fn lemma_meaning(w: Seq<char>)
    ensures
        forall|t: Tag| #[trigger] marks_tag(w, t) <==> meaning(w) == Word::Tag(t),
        forall|b: Bucket| #[trigger] marks_bucket(w, b) <==> meaning(w) == Word::Bucket(b),
        marks_now(w) <==> meaning(w) is Now,
        is_plain(w) <==> meaning(w) is Title,
{
    crate::model::lemma_words_differ();
    let rest = w.skip(1);
    assert(Tag::named(rest) == Some(Tag::Work) <==> crate::model::says(rest, "work"@, "w"@));
    assert(Bucket::named(rest) == Some(Bucket::Now) <==> crate::model::says(rest, "now"@, "n"@));
    match meaning(w) {
        Word::Tag(t) => assert(marks_tag(w, t)),
        Word::Bucket(b) => assert(marks_bucket(w, b)),
        _ => {},
    }
}

/// Whether a line was read so. Its plain words are the title; a `!` in front of the
/// first of them, or a word that is a marker for Now, asks for Now; else the last marker
/// for a bucket names one; and the last marker for a tag names that.
pub open spec fn is_asked(input: Seq<char>, q: Option<QuickAddView>) -> bool {
    let ws = text::words(input);
    let kept = ws.filter(|w: Seq<char>| is_plain(w));
    let bang = kept.len() > 0 && kept[0][0] == '!';
    &&& q is Some <==> vstd::utf8::encode_utf8(input).len() <= 4096 && kept.len() > 0
    &&& q matches Some(q) ==> {
        &&& text::words(
            if bang {
                seq!['!'] + q.title
            } else {
                q.title
            },
        ) == kept
        &&& forall|i: int|
            0 <= i < q.title.len() && text::is_white(#[trigger] q.title[i]) ==> q.title[i] == ' '
                && 0 < i < q.title.len() - 1 && !text::is_white(q.title[i + 1])
        &&& forall|k: int, t: Tag|
            0 <= k < ws.len() && #[trigger] marks_tag(ws[k], t) && (forall|j: int, u: Tag|
                k < j < ws.len() ==> !#[trigger] marks_tag(ws[j], u)) ==> q.tag == Some(t)
        &&& (forall|k: int, t: Tag| 0 <= k < ws.len() ==> !#[trigger] marks_tag(ws[k], t))
            ==> q.tag is None
        &&& bang || (exists|k: int| 0 <= k < ws.len() && #[trigger] marks_now(ws[k])) ==> q.bucket
            == Some(Bucket::Now)
        &&& !bang && !(exists|k: int| 0 <= k < ws.len() && #[trigger] marks_now(ws[k])) ==> {
            &&& forall|k: int, b: Bucket|
                0 <= k < ws.len() && #[trigger] marks_bucket(ws[k], b) && (forall|j: int, c: Bucket|
                    k < j < ws.len() ==> !#[trigger] marks_bucket(ws[j], c)) ==> q.bucket == Some(b)
            &&& (forall|k: int, b: Bucket|
                0 <= k < ws.len() ==> !#[trigger] marks_bucket(ws[k], b)) ==> q.bucket is None
        }
    }
}

proof fn lemma_kept(ws: Seq<Seq<char>>)
    ensures
        ws.filter(|w: Seq<char>| is_plain(w)) == title_words(ws),
{
    let p = |w: Seq<char>| is_plain(w);
    assert forall|w: Seq<char>| #[trigger] p(w) == is_title_word()(w) by {
        lemma_meaning(w);
    }
    assert(p =~= is_title_word());
}

proof fn lemma_asked_some(input: Seq<char>)
    ensures
        asked(input) is Some <==> vstd::utf8::encode_utf8(input).len() <= 4096 && title_words(
            text::words(input),
        ).len() > 0,
{
    let ws = text::words(input);
    text::lemma_words(input);
    lemma_title_words(ws);
    let kept = title_words(ws);
    text::law_joined_words_read_back(kept);
    let line = text::join_words(kept);
    if kept.len() > 0 && behind(line, '!') is Some {
        let w = kept[0];
        assert(meaning(w) is Title);
        assert(w.len() > 1) by {
            if w.len() == 1 {
                assert(behind(w, '!') == Some(w.skip(1)));
                assert(w.skip(1).len() == 0);
            }
        }
        lemma_join_starts_with(kept);
        let rest = line.skip(1);
        assert(rest[0] == w[1]);
        assert(!text::is_white(w[1]));
        assert(text::trim_start(rest) == rest);
    }
}

proof fn lemma_is_asked(input: Seq<char>)
    ensures
        is_asked(input, asked(input)),
{
    let ws = text::words(input);
    let kept = title_words(ws);
    text::lemma_words(input);
    lemma_title_words(ws);
    lemma_kept(ws);
    lemma_asked_some(input);
    if asked(input) is Some {
        let q = asked(input)->0;
        let line = text::join_words(kept);
        law_markers_leave_the_title(input);
        text::law_joined_words_read_back(kept);
        text::law_joined_words_have_single_spaces(kept);
        let bang = kept[0][0] == '!';
        assert(line[0] == kept[0][0]);
        assert(bang <==> behind(line, '!') is Some);
        let off: int = if bang {
            1
        } else {
            0
        };
        if bang {
            lemma_join_starts_with(kept);
            let w = kept[0];
            assert(meaning(w) is Title);
            assert(w.len() > 1) by {
                if w.len() == 1 {
                    assert(behind(w, '!') == Some(w.skip(1)));
                    assert(w.skip(1).len() == 0);
                }
            }
            assert(line.skip(1)[0] == w[1]);
            assert(!text::is_white(w[1]));
            assert(text::trim_start(line.skip(1)) == line.skip(1));
            assert(seq!['!'] + q.title =~= line);
        } else {
            assert(q.title == line);
        }
        assert forall|i: int| 0 <= i < q.title.len() && text::is_white(#[trigger] q.title[i])
            implies q.title[i] == ' ' && 0 < i < q.title.len() - 1 && !text::is_white(
            q.title[i + 1],
        ) by {
            assert(q.title[i] == line[i + off]);
            if i == 0 && bang {
                assert(q.title[0] == kept[0][1]);
                assert(!text::is_white(kept[0][1]));
            }
            assert(q.title[i + 1] == line[i + 1 + off]);
        }
        lemma_marks(ws);
        assert forall|k: int, t: Tag|
            0 <= k < ws.len() && #[trigger] marks_tag(ws[k], t) && (forall|j: int, u: Tag|
                k < j < ws.len() ==> !#[trigger] marks_tag(ws[j], u)) implies q.tag == Some(t) by {
            lemma_meaning(ws[k]);
            assert forall|j: int| k < j < ws.len() implies !(meaning(#[trigger] ws[j]) is Tag) by {
                lemma_meaning(ws[j]);
                if meaning(ws[j]) is Tag {
                    assert(marks_tag(ws[j], meaning(ws[j])->Tag_0));
                }
            }
            lemma_last_marker(ws, k);
        }
        assert forall|k: int, b: Bucket|
            0 <= k < ws.len() && #[trigger] marks_bucket(ws[k], b) && (forall|j: int, c: Bucket|
                k < j < ws.len() ==> !#[trigger] marks_bucket(ws[j], c)) implies last_bucket(ws)
            == Some(b) by {
            lemma_meaning(ws[k]);
            assert forall|j: int| k < j < ws.len() implies !(meaning(
                #[trigger] ws[j],
            ) is Bucket) by {
                lemma_meaning(ws[j]);
                if meaning(ws[j]) is Bucket {
                    assert(marks_bucket(ws[j], meaning(ws[j])->Bucket_0));
                }
            }
            lemma_last_marker(ws, k);
        }
    }
}

/// Where no word is a marker of a kind, none is the last one.
proof fn lemma_marks(ws: Seq<Seq<char>>)
    ensures
        (forall|k: int, t: Tag| 0 <= k < ws.len() ==> !#[trigger] marks_tag(ws[k], t)) ==> last_tag(
            ws,
        ) is None,
        (forall|k: int, b: Bucket| 0 <= k < ws.len() ==> !#[trigger] marks_bucket(ws[k], b))
            ==> last_bucket(ws) is None,
        has_now(ws) <==> exists|k: int| 0 <= k < ws.len() && #[trigger] marks_now(ws[k]),
{
    lemma_no_marker(ws);
    assert forall|k: int| 0 <= k < ws.len() implies marks_now(ws[k]) == (meaning(
        #[trigger] ws[k],
    ) is Now) by {
        lemma_meaning(ws[k]);
    }
    if has_now(ws) {
        let k = choose|k: int| 0 <= k < ws.len() && meaning(#[trigger] ws[k]) is Now;
        assert(marks_now(ws[k]));
    }
    if forall|k: int, t: Tag| 0 <= k < ws.len() ==> !#[trigger] marks_tag(ws[k], t) {
        assert forall|j: int| 0 <= j < ws.len() implies !(meaning(#[trigger] ws[j]) is Tag) by {
            lemma_meaning(ws[j]);
            if meaning(ws[j]) is Tag {
                assert(marks_tag(ws[j], meaning(ws[j])->Tag_0));
            }
        }
    }
    if forall|k: int, b: Bucket| 0 <= k < ws.len() ==> !#[trigger] marks_bucket(ws[k], b) {
        assert forall|j: int| 0 <= j < ws.len() implies !(meaning(#[trigger] ws[j]) is Bucket) by {
            lemma_meaning(ws[j]);
            if meaning(ws[j]) is Bucket {
                assert(marks_bucket(ws[j], meaning(ws[j])->Bucket_0));
            }
        }
    }
}

/// What quick-add reads in a line: the words that are no markers as the title, with one
/// space between them; the tag and the bucket of the last marker of each kind; and Now
/// wherever `!`, `!now` or `!n` stands, or where the title starts with a `!`. A line
/// without a title or of more than 4096 bytes is refused.
pub proof fn law_what_a_line_asks_for(input: &str)
    ensures
        is_asked(input@, asked(input@)),
        forall|q: Option<QuickAdd>| #[trigger]
            call_ensures(QuickAdd::parse, (input,), q) ==> is_asked(
                input@,
                match q {
                    Some(q) => Some(q@),
                    None => None,
                },
            ),
{
    lemma_is_asked(input@);
}

/// What is said of a line that was read is said of its fields.
pub proof fn law_a_read_line_shows_its_fields(q: QuickAdd)
    ensures
        q@.title == q.title@,
        q@.bucket == q.bucket,
        q@.tag == q.tag,
{
}

} // verus!
