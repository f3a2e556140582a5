//! Text as sequences of characters: trimming, splitting into words, joining,
//! and numbers written in decimal.

use vstd::prelude::*;

verus! {

/// `String::push` puts one character at the end of the string.
pub assume_specification[ String::push ](s: &mut String, c: char)
    ensures
        final(s)@ == old(s)@.push(c),
;

// ---- characters ------------------------------------------------------------

/// The characters with the Unicode property `White_Space`.
pub open spec fn is_white(c: char) -> bool {
    let u = c as u32;
    ||| 0x9 <= u <= 0xd
    ||| u == 0x20
    ||| u == 0x85
    ||| u == 0xa0
    ||| u == 0x1680
    ||| 0x2000 <= u <= 0x200a
    ||| u == 0x2028
    ||| u == 0x2029
    ||| u == 0x202f
    ||| u == 0x205f
    ||| u == 0x3000
}

/// Whether a character separates words.
pub fn char_is_white(c: char) -> (white: bool)
    ensures
        white == is_white(c),
{
    let u: u32 = c as u32;
    (0x9 <= u && u <= 0xd) || u == 0x20 || u == 0x85 || u == 0xa0 || u == 0x1680 || (0x2000 <= u
        && u <= 0x200a) || u == 0x2028 || u == 0x2029 || u == 0x202f || u == 0x205f || u == 0x3000
}

/// The ASCII capital letters in lower case, every other character as it is.
pub open spec fn lower_char(c: char) -> char {
    if 'A' as u32 <= c as u32 <= 'Z' as u32 {
        (c as u32 + 32) as char
    } else {
        c
    }
}

pub open spec fn lower(s: Seq<char>) -> Seq<char> {
    s.map_values(|c: char| lower_char(c))
}

fn char_lower(c: char) -> (l: char)
    ensures
        l == lower_char(c),
{
    let u: u32 = c as u32;
    if 65 <= u && u <= 90 {
        ((u as u8) + 32) as char
    } else {
        c
    }
}

// ---- between strings and characters ----------------------------------------

/// The characters of a string.
pub fn chars_of(s: &str) -> (v: Vec<char>)
    ensures
        v@ == s@,
{
    let mut v: Vec<char> = Vec::new();
    for c in it: s.chars()
        invariant
            v@ == s@.take(it.index()),
            it.seq() == s@,
    {
        v.push(c);
        assert(s@.take(it.index() + 1) =~= s@.take(it.index()).push(c));
    }
    assert(s@.take(s@.len() as int) =~= s@);
    v
}

/// The string made of the given characters.
pub fn text_of(v: &Vec<char>) -> (s: String)
    ensures
        s@ == v@,
{
    let mut s: String = String::new();
    let mut i: usize = 0;
    while i < v.len()
        invariant
            i <= v.len(),
            s@ == v@.take(i as int),
        decreases v.len() - i,
    {
        s.push(v[i]);
        assert(v@.take(i + 1) =~= v@.take(i as int).push(v@[i as int]));
        i += 1;
    }
    assert(v@.take(v@.len() as int) =~= v@);
    s
}

/// Whether two strings hold the same characters.
pub fn same_text(a: &str, b: &str) -> (same: bool)
    ensures
        same == (a@ == b@),
{
    let x = chars_of(a);
    let y = chars_of(b);
    same_chars(&x, &y)
}

/// Whether the characters are those of a string.
pub fn chars_are(v: &Vec<char>, s: &str) -> (same: bool)
    ensures
        same == (v@ == s@),
{
    let w = chars_of(s);
    same_chars(v, &w)
}

pub fn same_chars(a: &Vec<char>, b: &Vec<char>) -> (same: bool)
    ensures
        same == (a@ == b@),
{
    if a.len() != b.len() {
        return false;
    }
    let mut i: usize = 0;
    while i < a.len()
        invariant
            i <= a.len(),
            a.len() == b.len(),
            forall|j: int| 0 <= j < i ==> a@[j] == b@[j],
        decreases a.len() - i,
    {
        if a[i] != b[i] {
            return false;
        }
        i += 1;
    }
    assert(a@ =~= b@);
    true
}

// ---- trimming ----------------------------------------------------------------

pub open spec fn trim_start(s: Seq<char>) -> Seq<char>
    decreases s.len(),
{
    if s.len() > 0 && is_white(s[0]) {
        trim_start(s.drop_first())
    } else {
        s
    }
}

pub open spec fn trim_end(s: Seq<char>) -> Seq<char>
    decreases s.len(),
{
    if s.len() > 0 && is_white(s.last()) {
        trim_end(s.drop_last())
    } else {
        s
    }
}

/// The text without the whitespace around it.
pub open spec fn trim(s: Seq<char>) -> Seq<char> {
    trim_end(trim_start(s))
}

/// Trimming the front skips a run of whitespace and stops at the first
/// character that is none.
pub proof fn lemma_trim_start(s: Seq<char>, i: int)
    requires
        0 <= i <= s.len(),
        forall|j: int| 0 <= j < i ==> is_white(#[trigger] s[j]),
        i < s.len() ==> !is_white(s[i]),
    ensures
        trim_start(s) == s.skip(i),
    decreases i,
{
    if i == 0 {
        assert(s.skip(0) =~= s);
    } else {
        assert(is_white(s[0]));
        lemma_trim_start(s.drop_first(), i - 1);
        assert(s.drop_first().skip(i - 1) =~= s.skip(i));
    }
}

pub proof fn lemma_trim_end(s: Seq<char>, n: int)
    requires
        0 <= n <= s.len(),
        forall|j: int| n <= j < s.len() ==> is_white(#[trigger] s[j]),
        n > 0 ==> !is_white(s[n - 1]),
    ensures
        trim_end(s) == s.take(n),
    decreases s.len() - n,
{
    if n == s.len() {
        assert(s.take(n) =~= s);
    } else {
        assert(is_white(s[s.len() - 1]));
        lemma_trim_end(s.drop_last(), n);
        assert(s.drop_last().take(n) =~= s.take(n));
    }
}

/// A text that neither starts nor ends with whitespace is its own trimming.
pub proof fn lemma_trim_fixed(s: Seq<char>)
    requires
        s.len() > 0 ==> !is_white(s[0]) && !is_white(s.last()),
    ensures
        trim(s) == s,
{
}

/// Trimming leaves a text that neither starts nor ends with whitespace.
pub proof fn lemma_trim_is_trimmed(s: Seq<char>)
    ensures
        trim(s).len() > 0 ==> !is_white(trim(s)[0]) && !is_white(trim(s).last()),
        trim(trim(s)) == trim(s),
        trim(s).len() <= s.len(),
{
    lemma_trim_start_is_trimmed(s);
    lemma_trim_end_is_trimmed(trim_start(s));
    lemma_trim_fixed(trim(s));
}

proof fn lemma_trim_start_is_trimmed(s: Seq<char>)
    ensures
        trim_start(s).len() <= s.len(),
        trim_start(s).len() > 0 ==> !is_white(trim_start(s)[0]),
    decreases s.len(),
{
    if s.len() > 0 && is_white(s[0]) {
        lemma_trim_start_is_trimmed(s.drop_first());
    }
}

proof fn lemma_trim_end_is_trimmed(s: Seq<char>)
    ensures
        trim_end(s).len() <= s.len(),
        trim_end(s).len() > 0 ==> !is_white(trim_end(s).last()) && trim_end(s)[0] == s[0],
    decreases s.len(),
{
    if s.len() > 0 && is_white(s.last()) {
        lemma_trim_end_is_trimmed(s.drop_last());
    }
}

/// The part of `v` from `from` up to `to`.
pub fn slice_chars(v: &Vec<char>, from: usize, to: usize) -> (part: Vec<char>)
    requires
        from <= to <= v.len(),
    ensures
        part@ == v@.subrange(from as int, to as int),
{
    let mut part: Vec<char> = Vec::new();
    let mut i: usize = from;
    while i < to
        invariant
            from <= i <= to <= v.len(),
            part@ == v@.subrange(from as int, i as int),
        decreases to - i,
    {
        part.push(v[i]);
        assert(v@.subrange(from as int, i + 1) =~= v@.subrange(from as int, i as int).push(
            v@[i as int],
        ));
        i += 1;
    }
    part
}

pub fn trim_start_chars(v: &Vec<char>) -> (t: Vec<char>)
    ensures
        t@ == trim_start(v@),
{
    let mut i: usize = 0;
    while i < v.len() && char_is_white(v[i])
        invariant
            i <= v.len(),
            forall|j: int| 0 <= j < i ==> is_white(#[trigger] v@[j]),
        decreases v.len() - i,
    {
        i += 1;
    }
    proof {
        lemma_trim_start(v@, i as int);
        assert(v@.skip(i as int) =~= v@.subrange(i as int, v@.len() as int));
    }
    slice_chars(v, i, v.len())
}

pub fn trim_chars(v: &Vec<char>) -> (t: Vec<char>)
    ensures
        t@ == trim(v@),
{
    let w = trim_start_chars(v);
    let mut n: usize = w.len();
    while n > 0 && char_is_white(w[n - 1])
        invariant
            n <= w.len(),
            forall|j: int| n <= j < w.len() ==> is_white(#[trigger] w@[j]),
        decreases n,
    {
        n -= 1;
    }
    proof {
        lemma_trim_end(w@, n as int);
        assert(w@.take(n as int) =~= w@.subrange(0, n as int));
    }
    slice_chars(&w, 0, n)
}

pub fn lower_chars(v: &Vec<char>) -> (l: Vec<char>)
    ensures
        l@ == lower(v@),
{
    let mut l: Vec<char> = Vec::new();
    let mut i: usize = 0;
    while i < v.len()
        invariant
            i <= v.len(),
            l@ == lower(v@.take(i as int)),
        decreases v.len() - i,
    {
        l.push(char_lower(v[i]));
        i += 1;
        assert(l@ =~= lower(v@.take(i as int)));
    }
    assert(v@.take(v@.len() as int) =~= v@);
    l
}

// ---- words -------------------------------------------------------------------

/// The words of a text, in order: a character that is not whitespace extends
/// the word of the character before it, or starts a new word.
pub open spec fn words(s: Seq<char>) -> Seq<Seq<char>>
    decreases s.len(),
{
    if s.len() == 0 {
        Seq::empty()
    } else {
        let before = words(s.drop_last());
        let c = s.last();
        if is_white(c) {
            before
        } else if s.len() > 1 && !is_white(s[s.len() - 2]) {
            before.update(before.len() - 1, before.last().push(c))
        } else {
            before.push(seq![c])
        }
    }
}

pub open spec fn no_white(s: Seq<char>) -> bool {
    forall|i: int| 0 <= i < s.len() ==> !is_white(#[trigger] s[i])
}

/// Words are not empty and hold no whitespace.
pub proof fn lemma_words(s: Seq<char>)
    ensures
        forall|i: int|
            0 <= i < words(s).len() ==> (#[trigger] words(s)[i]).len() > 0 && no_white(words(s)[i]),
        s.len() > 0 && !is_white(s.last()) ==> words(s).len() > 0,
    decreases s.len(),
{
    if s.len() > 0 {
        let front = s.drop_last();
        let before = words(front);
        lemma_words(front);
        let c = s.last();
        if !is_white(c) && s.len() > 1 {
            assert(front.last() == s[s.len() - 2]);
        }
        assert forall|i: int| 0 <= i < words(s).len() implies (#[trigger] words(s)[i]).len() > 0
            && no_white(words(s)[i]) by {
            if i < before.len() {
                assert(before[i].len() > 0 && no_white(before[i]));
            }
        }
    }
}

/// The texts with one space between each and the next.
pub open spec fn join_words(parts: Seq<Seq<char>>) -> Seq<char>
    decreases parts.len(),
{
    if parts.len() == 0 {
        Seq::empty()
    } else if parts.len() == 1 {
        parts[0]
    } else {
        join_words(parts.drop_last()).push(' ') + parts.last()
    }
}

/// The characters of each of several texts.
pub open spec fn char_views(v: Seq<Vec<char>>) -> Seq<Seq<char>> {
    v.map_values(|w: Vec<char>| w@)
}

pub fn split_words(v: &Vec<char>) -> (out: Vec<Vec<char>>)
    ensures
        char_views(out@) == words(v@),
{
    let mut out: Vec<Vec<char>> = Vec::new();
    let mut i: usize = 0;
    assert(char_views(out@) =~= words(v@.take(0)));
    while i < v.len()
        invariant
            i <= v.len(),
            char_views(out@) == words(v@.take(i as int)),
        decreases v.len() - i,
    {
        let c = v[i];
        let ghost before = v@.take(i as int);
        let ghost after = v@.take(i + 1);
        let ghost old_out = out@;
        proof {
            assert(after.drop_last() =~= before);
            lemma_words(before);
        }
        if !char_is_white(c) {
            if i > 0 && !char_is_white(v[i - 1]) {
                assert(before.last() == v@[i - 1]);
                assert(char_views(old_out).len() == old_out.len());
                let mut word: Vec<char> = out.pop().unwrap();
                word.push(c);
                out.push(word);
                assert(char_views(out@) =~= words(after));
            } else {
                let mut word: Vec<char> = Vec::new();
                word.push(c);
                assert(word@ =~= seq![c]);
                out.push(word);
                assert(char_views(out@) =~= words(after));
            }
        }
        i += 1;
    }
    assert(v@.take(v@.len() as int) =~= v@);
    out
}

/// Puts the characters of `more` behind those of `v`.
pub fn append_chars(v: &mut Vec<char>, more: &Vec<char>)
    ensures
        final(v)@ == old(v)@ + more@,
{
    let ghost start = v@;
    let mut i: usize = 0;
    while i < more.len()
        invariant
            i <= more.len(),
            v@ == start + more@.take(i as int),
        decreases more.len() - i,
    {
        v.push(more[i]);
        i += 1;
        assert(v@ =~= start + more@.take(i as int));
    }
    assert(more@.take(more@.len() as int) =~= more@);
}

pub fn join_chars(parts: &Vec<Vec<char>>) -> (out: Vec<char>)
    ensures
        out@ == join_words(char_views(parts@)),
{
    let mut out: Vec<char> = Vec::new();
    let mut i: usize = 0;
    let ghost views = char_views(parts@);
    assert(out@ =~= join_words(views.take(0)));
    while i < parts.len()
        invariant
            i <= parts.len(),
            views == char_views(parts@),
            out@ == join_words(views.take(i as int)),
        decreases parts.len() - i,
    {
        if i > 0 {
            out.push(' ');
        }
        append_chars(&mut out, &parts[i]);
        proof {
            let next = views.take(i + 1);
            assert(next.drop_last() =~= views.take(i as int));
            assert(next.last() == parts@[i as int]@);
            assert(out@ =~= join_words(next));
        }
        i += 1;
    }
    assert(views.take(views.len() as int) =~= views);
    out
}

// ---- numbers -------------------------------------------------------------------

/// The digit character of a number below ten.
pub open spec fn digit(d: int) -> char {
    (48 + d) as char
}

pub open spec fn is_digit(c: char) -> bool {
    48 <= c as u32 <= 57
}

/// A number in decimal, without leading zeros.
pub open spec fn decimal(n: nat) -> Seq<char>
    decreases n,
{
    if n < 10 {
        seq![digit(n as int)]
    } else {
        decimal(n / 10).push(digit((n % 10) as int))
    }
}

/// A number in decimal, with a leading zero where it has one digit only.
pub open spec fn two_digits(n: nat) -> Seq<char> {
    if n < 10 {
        seq!['0', digit(n as int)]
    } else {
        decimal(n)
    }
}

/// The number that a row of digits writes.
pub open spec fn digits_value(s: Seq<char>) -> nat
    decreases s.len(),
{
    if s.len() == 0 {
        0
    } else {
        (digits_value(s.drop_last()) * 10 + (s.last() as u32 - 48)) as nat
    }
}

pub open spec fn all_digits(s: Seq<char>) -> bool {
    forall|i: int| 0 <= i < s.len() ==> is_digit(#[trigger] s[i])
}

/// An unsigned number no greater than `max`: an optional `+`, then digits only,
/// at least one.
pub open spec fn parse_number(s: Seq<char>, max: nat) -> Option<nat> {
    let body = if s.len() > 0 && s[0] == '+' {
        s.skip(1)
    } else {
        s
    };
    if body.len() > 0 && all_digits(body) && digits_value(body) <= max {
        Some(digits_value(body))
    } else {
        None
    }
}

fn digit_char(d: u64) -> (c: char)
    requires
        d < 10,
    ensures
        c == digit(d as int),
{
    (48 + d as u8) as char
}

/// Writes a number behind the characters of `out`.
pub fn push_decimal(out: &mut Vec<char>, n: u64)
    ensures
        final(out)@ == old(out)@ + decimal(n as nat),
    decreases n,
{
    if n < 10 {
        out.push(digit_char(n));
        assert(out@ =~= old(out)@ + decimal(n as nat));
    } else {
        let ghost start = out@;
        push_decimal(out, n / 10);
        out.push(digit_char(n % 10));
        assert(out@ =~= start + decimal(n as nat));
    }
}

pub fn push_two_digits(out: &mut Vec<char>, n: u64)
    ensures
        final(out)@ == old(out)@ + two_digits(n as nat),
{
    let ghost start = out@;
    if n < 10 {
        out.push('0');
        out.push(digit_char(n));
        assert(out@ =~= start + two_digits(n as nat));
    } else {
        push_decimal(out, n);
    }
}

/// Writes a string behind the characters of `out`.
pub fn push_text(out: &mut Vec<char>, s: &str)
    ensures
        final(out)@ == old(out)@ + s@,
{
    let v = chars_of(s);
    append_chars(out, &v);
}

/// Two texts, one behind the other.
pub fn behind_text(a: &str, b: &str) -> (s: String)
    ensures
        s@ == a@ + b@,
{
    let mut out: Vec<char> = chars_of(a);
    push_text(&mut out, b);
    text_of(&out)
}

/// The value of a longer row of digits is no smaller.
proof fn lemma_digits_value_grows(s: Seq<char>, n: int)
    requires
        all_digits(s),
        0 <= n <= s.len(),
    ensures
        digits_value(s.take(n)) <= digits_value(s),
    decreases s.len() - n,
{
    if n == s.len() {
        assert(s.take(n) =~= s);
    } else {
        assert(s.drop_last().take(n) =~= s.take(n));
        assert(is_digit(s[s.len() - 1]));
        lemma_digits_value_grows(s.drop_last(), n);
    }
}

/// Reads an unsigned number no greater than `max`.
pub fn read_number(v: &Vec<char>, max: u64) -> (n: Option<u64>)
    ensures
        n is Some <==> parse_number(v@, max as nat) is Some,
        n is Some ==> n->0 == parse_number(v@, max as nat)->0,
{
    let start: usize = if v.len() > 0 && v[0] == '+' {
        1
    } else {
        0
    };
    let ghost body = if v@.len() > 0 && v@[0] == '+' {
        v@.skip(1)
    } else {
        v@
    };
    assert(body =~= v@.skip(start as int));
    if start == v.len() {
        return None;
    }
    let mut value: u64 = 0;
    let mut i: usize = start;
    while i < v.len()
        invariant
            start <= i <= v.len(),
            body == v@.skip(start as int),
            body == (if v@.len() > 0 && v@[0] == '+' {
                v@.skip(1)
            } else {
                v@
            }),
            value == digits_value(body.take(i - start)),
            value <= max,
            all_digits(body.take(i - start)),
        decreases v.len() - i,
    {
        let c: char = v[i];
        let u: u32 = c as u32;
        let ghost next = body.take(i - start + 1);
        proof {
            assert(next.drop_last() =~= body.take(i - start));
            assert(next.last() == c);
            assert(next[i - start] == c);
            assert(body[i - start] == c);
        }
        if u < 48 || u > 57 {
            assert(!is_digit(body[i - start]));
            return None;
        }
        let d: u64 = (u - 48) as u64;
        if value > max / 10 || max - value * 10 < d {
            proof {
                assert(digits_value(next) > max);
                if all_digits(body) {
                    lemma_digits_value_grows(body, i - start + 1);
                }
            }
            return None;
        }
        value = value * 10 + d;
        assert(all_digits(next)) by {
            assert forall|j: int| 0 <= j < next.len() implies is_digit(#[trigger] next[j]) by {
                if j < i - start {
                    assert(next[j] == body.take(i - start)[j]);
                }
            }
        }
        i += 1;
    }
    assert(body.take(body.len() as int) =~= body);
    Some(value)
}

/// Reading a number back gives the number that was written.
pub proof fn law_decimal_reads_back(n: nat)
    ensures
        decimal(n).len() > 0,
        all_digits(decimal(n)),
        digits_value(decimal(n)) == n,
        parse_number(decimal(n), n) == Some(n),
    decreases n,
{
    if n < 10 {
        let s = decimal(n);
        assert(s.drop_last() =~= Seq::<char>::empty());
        assert(digits_value(s.drop_last()) == 0);
        assert(s.last() == digit(n as int));
    } else {
        law_decimal_reads_back(n / 10);
        let s = decimal(n);
        assert(s.drop_last() =~= decimal(n / 10));
        assert(s.last() == digit((n % 10) as int));
        assert forall|i: int| 0 <= i < s.len() implies is_digit(#[trigger] s[i]) by {
            if i < s.len() - 1 {
                assert(decimal(n / 10)[i] == s[i]);
            }
        }
    }
    assert(is_digit(decimal(n)[0]));
}

// ---- words and their joining -----------------------------------------------------

/// A word behind a space is one more word.
proof fn lemma_words_push_word(a: Seq<char>, w: Seq<char>)
    requires
        w.len() > 0,
        no_white(w),
    ensures
        words(a.push(' ') + w) == words(a).push(w),
    decreases w.len(),
{
    let front = a.push(' ');
    let s = front + w;
    assert(is_white(' '));
    assert(!is_white(w[w.len() - 1]));
    assert(s.last() == w.last());
    if w.len() == 1 {
        assert(s.drop_last() =~= front);
        assert(front.drop_last() =~= a);
        assert(front.last() == ' ');
        assert(words(front) == words(a));
        assert(s[s.len() - 2] == ' ');
        assert(seq![w.last()] =~= w);
    } else {
        let v = w.drop_last();
        assert(s.drop_last() =~= front + v);
        assert forall|i: int| 0 <= i < v.len() implies !is_white(#[trigger] v[i]) by {
            assert(v[i] == w[i]);
        }
        lemma_words_push_word(a, v);
        assert(s[s.len() - 2] == w[w.len() - 2]);
        assert(!is_white(w[w.len() - 2]));
        assert(v.push(w.last()) =~= w);
        let before = words(a).push(v);
        assert(before.update(before.len() - 1, before.last().push(w.last())) =~= words(a).push(w));
    }
}

/// A text without whitespace is one word.
proof fn lemma_words_of_word(w: Seq<char>)
    requires
        w.len() > 0,
        no_white(w),
    ensures
        words(w) == seq![w],
    decreases w.len(),
{
    assert(!is_white(w[w.len() - 1]));
    let v = w.drop_last();
    if w.len() == 1 {
        assert(words(v) =~= Seq::empty());
        assert(seq![w.last()] =~= w);
        assert(words(w) =~= seq![w]);
    } else {
        assert forall|i: int| 0 <= i < v.len() implies !is_white(#[trigger] v[i]) by {
            assert(v[i] == w[i]);
        }
        lemma_words_of_word(v);
        assert(!is_white(w[w.len() - 2]));
        assert(v.push(w.last()) =~= w);
        assert(words(w) =~= seq![w]);
    }
}

/// Whether each is a word: not empty, and without whitespace.
pub open spec fn all_words(ws: Seq<Seq<char>>) -> bool {
    forall|i: int| 0 <= i < ws.len() ==> (#[trigger] ws[i]).len() > 0 && no_white(ws[i])
}

/// Words joined with spaces are read back as the same words, and the line they
/// make neither starts nor ends with whitespace.
pub proof fn law_joined_words_read_back(ws: Seq<Seq<char>>)
    requires
        all_words(ws),
    ensures
        words(join_words(ws)) == ws,
        ws.len() > 0 ==> join_words(ws).len() > 0 && join_words(ws)[0] == ws[0][0]
            && join_words(ws).last() == ws.last().last(),
        trim(join_words(ws)) == join_words(ws),
    decreases ws.len(),
{
    if ws.len() == 0 {
        assert(words(join_words(ws)) =~= ws);
    } else if ws.len() == 1 {
        lemma_words_of_word(ws[0]);
        assert(seq![ws[0]] =~= ws);
    } else {
        let front = ws.drop_last();
        assert(all_words(front)) by {
            assert forall|i: int| 0 <= i < front.len() implies (#[trigger] front[i]).len() > 0
                && no_white(front[i]) by {
                assert(front[i] == ws[i]);
            }
        }
        law_joined_words_read_back(front);
        lemma_words_push_word(join_words(front), ws.last());
        assert(front.push(ws.last()) =~= ws);
        assert(front[0] == ws[0]);
    }
    if ws.len() > 0 {
        assert(!is_white(ws[0][0]));
        assert(!is_white(ws.last()[ws.last().len() - 1]));
    }
    lemma_trim_fixed(join_words(ws));
}

// ---- what the parts of a text are ----------------------------------------------------

/// The characters that separate words are the 25 with the property `White_Space`.
pub proof fn law_which_characters_are_white(c: char)
    ensures
        forall|white: bool| #[trigger]
            call_ensures(char_is_white, (c,), white) ==> (white <==> seq![
                0x9u32, 0xa, 0xb, 0xc, 0xd, 0x20, 0x85, 0xa0, 0x1680, 0x2000, 0x2001, 0x2002,
                0x2003, 0x2004, 0x2005, 0x2006, 0x2007, 0x2008, 0x2009, 0x200a, 0x2028, 0x2029,
                0x202f, 0x205f, 0x3000,
            ].contains(c as u32)),
{
    let all = seq![
        0x9u32, 0xa, 0xb, 0xc, 0xd, 0x20, 0x85, 0xa0, 0x1680, 0x2000, 0x2001, 0x2002,
        0x2003, 0x2004, 0x2005, 0x2006, 0x2007, 0x2008, 0x2009, 0x200a, 0x2028, 0x2029,
        0x202f, 0x205f, 0x3000,
    ];
    let u = c as u32;
    if is_white(c) {
        let at: int = if u <= 0xd {
            u - 9
        } else if u == 0x20 {
            5
        } else if u == 0x85 {
            6
        } else if u == 0xa0 {
            7
        } else if u == 0x1680 {
            8
        } else if u <= 0x200a {
            9 + (u - 0x2000)
        } else if u == 0x2028 {
            20
        } else if u == 0x2029 {
            21
        } else if u == 0x202f {
            22
        } else if u == 0x205f {
            23
        } else {
            24
        };
        assert(all[at] == u);
    }
    if all.contains(u) {
        let k = choose|k: int| 0 <= k < all.len() && all[k] == u;
        assert(is_white(c));
    }
}

/// Lower case moves the capitals from A to Z by 32, and leaves every other character.
pub proof fn law_lower_case_changes_capitals_only(v: Vec<char>)
    ensures
        forall|l: Vec<char>| #[trigger]
            call_ensures(lower_chars, (&v,), l) ==> l@.len() == v@.len() && forall|i: int|
                0 <= i < v@.len() ==> (if 65 <= v@[i] as u32 <= 90 {
                    (#[trigger] l@[i]) as u32 == v@[i] as u32 + 32
                } else {
                    l@[i] == v@[i]
                }),
{
}

/// Whitespace parts the words of a text: those in front of it, then those behind it.
/// A text without whitespace is one word, and an empty one has none.
pub proof fn law_whitespace_parts_words(a: Seq<char>, c: char, b: Seq<char>)
    requires
        is_white(c),
    ensures
        words(a.push(c) + b) == words(a) + words(b),
        no_white(a) && a.len() > 0 ==> words(a) == seq![a],
        a.len() == 0 ==> words(a).len() == 0,
    decreases b.len(),
{
    if no_white(a) && a.len() > 0 {
        lemma_words_of_word(a);
    }
    let s = a.push(c) + b;
    if b.len() == 0 {
        assert(s =~= a.push(c));
        assert(s.drop_last() =~= a);
        assert(words(a) + words(b) =~= words(a));
    } else {
        let f = b.drop_last();
        law_whitespace_parts_words(a, c, f);
        assert(s.drop_last() =~= a.push(c) + f);
        assert(s.last() == b.last());
        lemma_words(f);
        if !is_white(b.last()) {
            if b.len() > 1 {
                assert(s[s.len() - 2] == b[b.len() - 2]);
                assert(f.last() == b[b.len() - 2]);
            } else {
                assert(s[s.len() - 2] == c);
            }
            assert(words(s) =~= words(a) + words(b));
        }
    }
}

/// What splitting gives is the words.
pub proof fn law_splitting_gives_the_words(v: Vec<char>)
    ensures
        forall|out: Vec<Vec<char>>| #[trigger]
            call_ensures(split_words, (&v,), out) ==> out@.len() == words(v@).len() && forall|i: int|
                0 <= i < out@.len() ==> (#[trigger] out@[i])@ == words(v@)[i],
{
    assert forall|out: Vec<Vec<char>>| #[trigger] call_ensures(split_words, (&v,), out) implies
        out@.len() == words(v@).len() && forall|i: int|
        0 <= i < out@.len() ==> (#[trigger] out@[i])@ == words(v@)[i] by {
        assert(char_views(out@).len() == out@.len());
        assert forall|i: int| 0 <= i < out@.len() implies (#[trigger] out@[i])@ == words(v@)[i] by {
            assert(char_views(out@)[i] == out@[i]@);
        }
    }
}

/// Between joined words there is one space each and no other whitespace.
pub proof fn law_joined_words_have_single_spaces(ws: Seq<Seq<char>>)
    requires
        all_words(ws),
    ensures
        forall|i: int|
            0 <= i < join_words(ws).len() && is_white(#[trigger] join_words(ws)[i])
                ==> join_words(ws)[i] == ' ' && 0 < i < join_words(ws).len() - 1 && !is_white(
                join_words(ws)[i + 1],
            ) && !is_white(join_words(ws)[i - 1]),
    decreases ws.len(),
{
    law_joined_words_read_back(ws);
    if ws.len() == 1 {
        let w = ws[0];
        assert forall|i: int| 0 <= i < w.len() implies !is_white(#[trigger] w[i]) by {}
    } else if ws.len() > 1 {
        let front = ws.drop_last();
        assert(all_words(front)) by {
            assert forall|i: int| 0 <= i < front.len() implies (#[trigger] front[i]).len() > 0
                && no_white(front[i]) by {
                assert(front[i] == ws[i]);
            }
        }
        law_joined_words_have_single_spaces(front);
        law_joined_words_read_back(front);
        let a = join_words(front);
        let w = ws.last();
        let s = join_words(ws);
        assert(w == ws[ws.len() - 1]);
        assert(front.last() == ws[ws.len() - 2]);
        let last_front = front.last();
        assert(!is_white(last_front[last_front.len() - 1]));
        assert(!is_white(w[0]));
        assert forall|i: int| 0 <= i < s.len() && is_white(#[trigger] s[i]) implies s[i] == ' ' && 0
            < i < s.len() - 1 && !is_white(s[i + 1]) && !is_white(s[i - 1]) by {
            if i < a.len() {
                assert(s[i] == a[i]);
                assert(s[i + 1] == a[i + 1] && s[i - 1] == a[i - 1]);
            } else if i == a.len() {
                assert(s[i] == ' ');
                assert(s[i + 1] == w[0]);
                assert(s[i - 1] == a.last());
            } else {
                assert(s[i] == w[i - a.len() - 1]);
            }
        }
    }
}

/// A number is written without leading zeros, and with one where two digits are asked
/// for and it has one.
pub proof fn law_numbers_have_no_leading_zeros(n: nat)
    ensures
        n > 0 ==> decimal(n)[0] != '0',
        n < 100 ==> two_digits(n).len() == 2 && all_digits(two_digits(n)) && digits_value(
            two_digits(n),
        ) == n,
    decreases n,
{
    law_decimal_reads_back(n);
    if n >= 10 {
        law_numbers_have_no_leading_zeros(n / 10);
        law_decimal_reads_back(n / 10);
        assert(decimal(n)[0] == decimal(n / 10)[0]);
        if n < 100 {
            assert(n / 10 < 10);
            assert(decimal(n / 10) == seq![digit((n / 10) as int)]);
        }
    } else {
        let s = two_digits(n);
        assert(s.drop_last() =~= seq!['0']);
        assert(seq!['0'].drop_last() =~= Seq::<char>::empty());
        assert(digits_value(seq!['0'].drop_last()) == 0);
        assert(digits_value(seq!['0']) == 0);
        assert(s.last() == digit(n as int));
    }
}

/// A number is read of digits, with a plus in front of them or not, and is the value of the
/// digits: none is read of anything else, nor of digits for more than the limit.
pub proof fn law_what_reads_as_a_number(v: Vec<char>, max: u64)
    ensures
        forall|n: Option<u64>| #[trigger]
            call_ensures(read_number, (&v, max), n) ==> {
                let body = if v@.len() > 0 && v@[0] == '+' {
                    v@.skip(1)
                } else {
                    v@
                };
                &&& n is Some <==> body.len() > 0 && all_digits(body) && digits_value(body) <= max
                &&& n matches Some(k) ==> k == digits_value(body)
            },
        forall|s: Seq<char>, c: char| #[trigger]
            digits_value(s.push(c)) == digits_value(s) * 10 + (c as u32 - '0' as u32) || !(
            48 <= c as u32 <= 57),
        digits_value(Seq::empty()) == 0,
        forall|c: char| #[trigger] is_digit(c) <==> 48 <= c as u32 <= 57,
{
    assert forall|s: Seq<char>, c: char| 48 <= c as u32 <= 57 implies #[trigger] digits_value(
        s.push(c),
    ) == digits_value(s) * 10 + (c as u32 - '0' as u32) by {
        assert(s.push(c).drop_last() =~= s);
        assert(s.push(c).last() == c);
    }
}

/// Joined parts have one space between each and the next, and nothing else.
pub proof fn law_joined_parts_have_a_space_between(parts: Seq<Seq<char>>, last: Seq<char>)
    ensures
        join_words(Seq::empty()).len() == 0,
        parts.len() == 0 ==> join_words(parts.push(last)) == last,
        parts.len() > 0 ==> join_words(parts.push(last)) == join_words(parts) + seq![' '] + last,
{
    assert(parts.push(last).drop_last() =~= parts);
    assert(parts.push(last).last() == last);
    if parts.len() > 0 {
        assert(join_words(parts).push(' ') =~= join_words(parts) + seq![' ']);
    } else {
        assert(parts.push(last)[0] == last);
    }
}

/// What is said of several texts is said of each of them.
pub proof fn law_texts_show_each_text(v: Seq<Vec<char>>)
    ensures
        char_views(v).len() == v.len(),
        forall|i: int| 0 <= i < v.len() ==> #[trigger] char_views(v)[i] == v[i]@,
{
}

} // verus!
