//! JSON as plain values, and the calls into serde_json that read and write it.

use crate::text;
use serde::de::Error as DecodeError;
use serde::de::Unexpected;
use vstd::prelude::*;

verus! {

/// `serde_json::Value`, carried from a read to what opens it and from what
/// closes it to a write.
#[verifier::external_type_specification]
#[verifier::external_body]
pub struct ExValue(serde_json::Value);

/// `serde_json::Number`, carried for the numbers that are no 64-bit integers.
#[verifier::external_type_specification]
#[verifier::external_body]
pub struct ExNumber(serde_json::Number);

/// A JSON value.
#[derive(Debug, PartialEq, Eq)]
pub enum Json {
    Null,
    Bool(bool),
    /// A whole number from zero up.
    Unsigned(u64),
    /// A whole number below zero.
    Negative(i64),
    /// Any other number.
    Float(serde_json::Number),
    Text(String),
    Array(Vec<Json>),
    /// The members in order, each key once.
    Object(Vec<(String, Json)>),
}

/// What a `Json` holds.
#[verifier::ext_equal]
pub enum JsonTree {
    Null,
    Bool(bool),
    Unsigned(u64),
    Negative(i64),
    Float(serde_json::Number),
    Text(Seq<char>),
    Array(Seq<JsonTree>),
    Object(Seq<(Seq<char>, JsonTree)>),
}

impl View for Json {
    type V = JsonTree;

    open spec fn view(&self) -> JsonTree
        decreases self,
    {
        match self {
            Json::Null => JsonTree::Null,
            Json::Bool(b) => JsonTree::Bool(*b),
            Json::Unsigned(n) => JsonTree::Unsigned(*n),
            Json::Negative(n) => JsonTree::Negative(*n),
            Json::Float(n) => JsonTree::Float(*n),
            Json::Text(s) => JsonTree::Text(s@),
            Json::Array(items) => JsonTree::Array(
                Seq::new(
                    items@.len(),
                    |i: int|
                        if 0 <= i < items@.len() {
                            items@[i].view()
                        } else {
                            JsonTree::Null
                        },
                ),
            ),
            Json::Object(members) => JsonTree::Object(
                Seq::new(
                    members@.len(),
                    |i: int|
                        if 0 <= i < members@.len() {
                            (members@[i].0@, members@[i].1.view())
                        } else {
                            (Seq::empty(), JsonTree::Null)
                        },
                ),
            ),
        }
    }
}

/// The items of an array.
pub open spec fn items(v: Seq<Json>) -> Seq<JsonTree> {
    Seq::new(v.len(), |i: int| v[i]@)
}

/// The members of an object.
pub open spec fn members(v: Seq<(String, Json)>) -> Seq<(Seq<char>, JsonTree)> {
    Seq::new(v.len(), |i: int| (v[i].0@, v[i].1@))
}

/// The views of the parts of an array and of an object.
pub broadcast proof fn lemma_parts(j: Json)
    ensures
        #![trigger j@]
        j matches Json::Array(v) ==> j@ == JsonTree::Array(items(v@)),
        j matches Json::Object(v) ==> j@ == JsonTree::Object(members(v@)),
{
    reveal_with_fuel(<Json as View>::view, 2);
    match j {
        Json::Array(v) => {
            assert(j@->Array_0 =~= items(v@));
        },
        Json::Object(v) => {
            assert(j@->Object_0 =~= members(v@));
        },
        _ => {},
    }
}

/// No key stands in two members.
pub open spec fn keys_differ(f: Seq<(Seq<char>, JsonTree)>) -> bool {
    forall|i: int, j: int| 0 <= i < j < f.len() ==> (#[trigger] f[i]).0 != (#[trigger] f[j]).0
}

/// A value that a write and a read keep as it is: whole numbers only, below zero
/// where they are said to be, no key twice, and no more than `depth` layers.
pub open spec fn keeps(t: JsonTree, depth: nat) -> bool
    decreases t,
{
    match t {
        JsonTree::Negative(n) => n < 0,
        JsonTree::Float(_) => false,
        JsonTree::Array(v) => depth > 0 && forall|i: int|
            0 <= i < v.len() ==> keeps(#[trigger] v[i], (depth - 1) as nat),
        JsonTree::Object(f) => depth > 0 && keys_differ(f) && forall|i: int|
            0 <= i < f.len() ==> keeps((#[trigger] f[i]).1, (depth - 1) as nat),
        _ => true,
    }
}

/// An array keeps where its items do.
pub proof fn lemma_array_keeps(v: Seq<JsonTree>, depth: nat)
    requires
        depth > 0,
        forall|i: int| 0 <= i < v.len() ==> keeps(#[trigger] v[i], (depth - 1) as nat),
    ensures
        keeps(JsonTree::Array(v), depth),
{
}

/// An object keeps where its members do and no key comes twice.
pub proof fn lemma_object_keeps(f: Seq<(Seq<char>, JsonTree)>, depth: nat)
    requires
        depth > 0,
        keys_differ(f),
        forall|i: int| 0 <= i < f.len() ==> keeps((#[trigger] f[i]).1, (depth - 1) as nat),
    ensures
        keeps(JsonTree::Object(f), depth),
{
}

/// The layers of arrays and objects that a read goes into.
pub const MAX_DEPTH: u32 = 127;

// ---- reading and writing -------------------------------------------------------------

/// What a `serde_json::Value` holds.
pub uninterp spec fn contents(value: serde_json::Value) -> JsonTree;

/// What `serde_json::from_str` makes of a text: the value, or the words of its
/// complaint.
pub uninterp spec fn parsed(s: Seq<char>) -> Result<JsonTree, Seq<char>>;

/// What `serde_json::from_reader` makes of bytes: the value, or the words of its
/// complaint.
pub uninterp spec fn parsed_bytes(bytes: Seq<u8>) -> Result<JsonTree, Seq<char>>;

/// The compact text that `serde_json::to_string` gives a value.
pub uninterp spec fn compact(t: JsonTree) -> Seq<char>;

/// The indented bytes that `serde_json::to_vec_pretty` gives a value.
pub uninterp spec fn pretty(t: JsonTree) -> Seq<u8>;

/// Calls `serde_json::from_str`. What it returns is a function of the text; an
/// error is handed on as the words it displays.
#[verifier::external_body]
fn read_text(s: &str) -> (r: Result<serde_json::Value, String>)
    ensures
        match r {
            Ok(value) => parsed(s@) == Ok::<JsonTree, Seq<char>>(contents(value)),
            Err(words) => parsed(s@) == Err::<JsonTree, Seq<char>>(words@),
        },
{
    serde_json::from_str(s).map_err(|error| error.to_string())
}

/// Calls `serde_json::from_reader` on bytes in memory. What it returns is a
/// function of the bytes; an error is handed on as the words it displays.
#[verifier::external_body]
fn read_bytes(bytes: &[u8]) -> (r: Result<serde_json::Value, String>)
    ensures
        match r {
            Ok(value) => parsed_bytes(bytes@) == Ok::<JsonTree, Seq<char>>(contents(value)),
            Err(words) => parsed_bytes(bytes@) == Err::<JsonTree, Seq<char>>(words@),
        },
{
    serde_json::from_reader(bytes).map_err(|error| error.to_string())
}

/// Turns a `serde_json::Value` into a `Json`, part by part: the same variant, the
/// items and the members in the order in which the value holds them. The three
/// kinds of `serde_json::Number` are told apart by `as_u64` and `as_i64`.
#[verifier::external_body]
fn open_value(value: serde_json::Value) -> (j: Json)
    ensures
        j@ == contents(value),
{
    match value {
        serde_json::Value::Null => Json::Null,
        serde_json::Value::Bool(b) => Json::Bool(b),
        serde_json::Value::Number(n) => match (n.as_u64(), n.as_i64()) {
            (Some(u), _) => Json::Unsigned(u),
            (None, Some(i)) => Json::Negative(i),
            (None, None) => Json::Float(n),
        },
        serde_json::Value::String(s) => Json::Text(s),
        serde_json::Value::Array(v) => Json::Array(v.into_iter().map(open_value).collect()),
        serde_json::Value::Object(m) => Json::Object(
            m.into_iter().map(|(key, value)| (key, open_value(value))).collect()),
    }
}

/// Turns a `Json` into a `serde_json::Value`, part by part: the same variant, the
/// items and the members in order. `serde_json::Map` keeps the order of its
/// members, and each of them where no key comes twice.
#[verifier::external_body]
fn close_value(j: Json) -> (value: serde_json::Value)
    requires
        keeps(j@, MAX_DEPTH as nat),
    ensures
        contents(value) == j@,
{
    match j {
        Json::Null => serde_json::Value::Null,
        Json::Bool(b) => serde_json::Value::Bool(b),
        Json::Unsigned(n) => serde_json::Value::from(n),
        Json::Negative(n) => serde_json::Value::from(n),
        Json::Float(n) => serde_json::Value::Number(n),
        Json::Text(s) => serde_json::Value::String(s),
        Json::Array(v) => serde_json::Value::Array(v.into_iter().map(close_value).collect()),
        Json::Object(f) => serde_json::Value::Object(
            f.into_iter().map(|(key, value)| (key, close_value(value))).collect()),
    }
}

/// Calls `serde_json::to_string`, which writes any such value. Reading the text
/// gives the value back: whole numbers, texts and keys are written so that they
/// read as they were, and members keep their order.
#[verifier::external_body]
fn write_text(value: &serde_json::Value) -> (s: String)
    requires
        keeps(contents(*value), MAX_DEPTH as nat),
    ensures
        s@ == compact(contents(*value)),
        parsed(s@) is Ok && parsed(s@)->Ok_0 == contents(*value),
{
    serde_json::to_string(value).unwrap_or_default()
}

/// Calls `serde_json::to_vec_pretty`, which writes any such value. Reading the
/// bytes gives the value back.
#[verifier::external_body]
fn write_bytes(value: &serde_json::Value) -> (bytes: Vec<u8>)
    requires
        keeps(contents(*value), MAX_DEPTH as nat),
    ensures
        bytes@ == pretty(contents(*value)),
        parsed_bytes(bytes@) is Ok && parsed_bytes(bytes@)->Ok_0 == contents(*value),
{
    serde_json::to_vec_pretty(value).unwrap_or_default()
}

/// Read a JSON text.
pub fn parse(s: &str) -> (r: Result<Json, String>)
    ensures
        match r {
            Ok(j) => parsed(s@) == Ok::<JsonTree, Seq<char>>(j@),
            Err(words) => parsed(s@) == Err::<JsonTree, Seq<char>>(words@),
        },
{
    match read_text(s) {
        Ok(value) => Ok(open_value(value)),
        Err(words) => Err(words),
    }
}

/// Read JSON bytes.
pub fn parse_bytes(bytes: &[u8]) -> (r: Result<Json, String>)
    ensures
        match r {
            Ok(j) => parsed_bytes(bytes@) == Ok::<JsonTree, Seq<char>>(j@),
            Err(words) => parsed_bytes(bytes@) == Err::<JsonTree, Seq<char>>(words@),
        },
{
    match read_bytes(bytes) {
        Ok(value) => Ok(open_value(value)),
        Err(words) => Err(words),
    }
}

/// Write a value on one line.
pub fn print(j: Json) -> (s: String)
    requires
        keeps(j@, MAX_DEPTH as nat),
    ensures
        s@ == compact(j@),
        parsed(s@) == Ok::<JsonTree, Seq<char>>(j@),
{
    write_text(&close_value(j))
}

/// Write a value for a file, indented.
pub fn print_pretty(j: Json) -> (bytes: Vec<u8>)
    requires
        keeps(j@, MAX_DEPTH as nat),
    ensures
        bytes@ == pretty(j@),
        parsed_bytes(bytes@) == Ok::<JsonTree, Seq<char>>(j@),
{
    write_bytes(&close_value(j))
}

// ---- complaints ----------------------------------------------------------------------

/// The words of `serde::de::Error::invalid_type` on serde_json's error: what was
/// found, and what was expected.
pub uninterp spec fn wrong_type(found: JsonTree, expected: Seq<char>) -> Seq<char>;

/// The words of `serde::de::Error::invalid_value` on serde_json's error: what was
/// found, and what was expected.
pub uninterp spec fn wrong_value(found: JsonTree, expected: Seq<char>) -> Seq<char>;

/// The words for a field that is not there.
pub open spec fn missing(field: Seq<char>) -> Seq<char> {
    "missing field `"@ + field + "`"@
}

/// The words for an array of the wrong length.
pub open spec fn wrong_length(len: nat, expected: Seq<char>) -> Seq<char> {
    "invalid length "@ + text::decimal(len) + ", expected "@ + expected
}

/// A name between backquotes.
pub open spec fn quoted(name: Seq<char>) -> Seq<char> {
    "`"@ + name + "`"@
}

/// Names between backquotes, with commas between them.
pub open spec fn listed(names: Seq<Seq<char>>) -> Seq<char>
    decreases names.len(),
{
    if names.len() == 0 {
        seq![]
    } else if names.len() == 1 {
        quoted(names[0])
    } else {
        listed(names.drop_last()) + ", "@ + quoted(names.last())
    }
}

/// The words for a name that is none of those expected.
pub open spec fn unknown_name(name: Seq<char>, names: Seq<Seq<char>>) -> Seq<char> {
    "unknown variant "@ + quoted(name) + ", expected "@ + (if names.len() == 2 {
        quoted(names[0]) + " or "@ + quoted(names[1])
    } else if names.len() == 1 {
        quoted(names[0])
    } else {
        "one of "@ + listed(names)
    })
}

/// The texts of a slice.
pub open spec fn texts(names: Seq<&'static str>) -> Seq<Seq<char>> {
    Seq::new(names.len(), |i: int| names[i]@)
}

/// Calls `serde::de::Error::invalid_type` for `serde_json::Error` and gives the
/// words that it displays, a function of what was found and what was expected.
#[verifier::external_body]
pub(crate) fn say_wrong_type(found: &Json, expected: &str) -> (words: String)
    ensures
        words@ == wrong_type(found@, expected@),
{
    let unexpected = match found {
        Json::Null => Unexpected::Unit,
        Json::Bool(b) => Unexpected::Bool(*b),
        Json::Unsigned(n) => Unexpected::Unsigned(*n),
        Json::Negative(n) => Unexpected::Signed(*n),
        Json::Float(n) => Unexpected::Float(n.as_f64().unwrap_or_default()),
        Json::Text(s) => Unexpected::Str(s),
        Json::Array(_) => Unexpected::Seq,
        Json::Object(_) => Unexpected::Map,
    };
    serde_json::Error::invalid_type(unexpected, &expected).to_string()
}

/// Calls `serde::de::Error::invalid_value` for `serde_json::Error` and gives the
/// words that it displays, a function of what was found and what was expected.
#[verifier::external_body]
pub(crate) fn say_wrong_value(found: &Json, expected: &str) -> (words: String)
    ensures
        words@ == wrong_value(found@, expected@),
{
    let unexpected = match found {
        Json::Null => Unexpected::Unit,
        Json::Bool(b) => Unexpected::Bool(*b),
        Json::Unsigned(n) => Unexpected::Unsigned(*n),
        Json::Negative(n) => Unexpected::Signed(*n),
        Json::Float(n) => Unexpected::Float(n.as_f64().unwrap_or_default()),
        Json::Text(s) => Unexpected::Str(s),
        Json::Array(_) => Unexpected::Seq,
        Json::Object(_) => Unexpected::Map,
    };
    serde_json::Error::invalid_value(unexpected, &expected).to_string()
}

/// Calls `serde::de::Error::invalid_length` for `serde_json::Error` and gives the
/// words that it displays: the length and what was expected, both of which the
/// function writes out.
#[verifier::external_body]
pub(crate) fn say_wrong_length(len: usize, expected: &str) -> (words: String)
    requires
        expected@ == "struct Task with 7 elements"@ || expected@ == "fewer elements in array"@,
    ensures
        words@ == wrong_length(len as nat, expected@),
{
    serde_json::Error::invalid_length(len, &expected).to_string()
}

/// Calls `serde::de::Error::missing_field` for `serde_json::Error` and gives the
/// words that it displays, which name the field.
#[verifier::external_body]
pub(crate) fn say_missing(field: &'static str) -> (words: String)
    ensures
        words@ == missing(field@),
{
    serde_json::Error::missing_field(field).to_string()
}

/// Calls `serde::de::Error::unknown_variant` for `serde_json::Error` and gives the
/// words that it displays: the name, and the names that were expected.
#[verifier::external_body]
pub(crate) fn say_unknown(name: &str, names: &'static [&'static str]) -> (words: String)
    requires
        names@.len() > 0,
    ensures
        words@ == unknown_name(name@, texts(names@)),
{
    serde_json::Error::unknown_variant(name, names).to_string()
}

// ---- plain values out of JSON --------------------------------------------------------

pub open spec fn as_bool(t: JsonTree) -> Result<bool, Seq<char>> {
    match t {
        JsonTree::Bool(b) => Ok(b),
        _ => Err(wrong_type(t, "a boolean"@)),
    }
}

pub open spec fn as_u64(t: JsonTree) -> Result<u64, Seq<char>> {
    match t {
        JsonTree::Unsigned(n) => Ok(n),
        JsonTree::Negative(_) => Err(wrong_value(t, "u64"@)),
        _ => Err(wrong_type(t, "u64"@)),
    }
}

pub open spec fn as_u32(t: JsonTree) -> Result<u32, Seq<char>> {
    match t {
        JsonTree::Unsigned(n) => if n <= u32::MAX {
            Ok(n as u32)
        } else {
            Err(wrong_value(t, "u32"@))
        },
        JsonTree::Negative(_) => Err(wrong_value(t, "u32"@)),
        _ => Err(wrong_type(t, "u32"@)),
    }
}

pub open spec fn as_text(t: JsonTree) -> Result<Seq<char>, Seq<char>> {
    match t {
        JsonTree::Text(s) => Ok(s),
        _ => Err(wrong_type(t, "a string"@)),
    }
}

/// A number that may be left out by writing null.
pub open spec fn as_optional_u64(t: JsonTree) -> Result<Option<u64>, Seq<char>> {
    match t {
        JsonTree::Null => Ok(None),
        _ => match as_u64(t) {
            Ok(n) => Ok(Some(n)),
            Err(e) => Err(e),
        },
    }
}

/// The place of a name in a list, behind the list where it is not there.
pub open spec fn name_place(name: Seq<char>, names: Seq<Seq<char>>) -> int
    decreases names.len(),
{
    if names.len() == 0 {
        0
    } else if name_place(name, names.drop_last()) < names.len() - 1 {
        name_place(name, names.drop_last())
    } else if names.last() == name {
        names.len() - 1
    } else {
        names.len() as int
    }
}

/// Which of some names a value gives: as a text, or as an object of one member
/// with that key and null.
pub open spec fn as_name(t: JsonTree, names: Seq<Seq<char>>) -> Result<int, Seq<char>> {
    match t {
        JsonTree::Text(s) => if name_place(s, names) < names.len() {
            Ok(name_place(s, names))
        } else {
            Err(unknown_name(s, names))
        },
        JsonTree::Object(f) => if f.len() != 1 {
            Err(wrong_value(t, "map with a single key"@))
        } else if name_place(f[0].0, names) >= names.len() {
            Err(unknown_name(f[0].0, names))
        } else if f[0].1 is Null {
            Ok(name_place(f[0].0, names))
        } else {
            Err(wrong_type(f[0].1, "unit"@))
        },
        _ => Err(wrong_type(t, "string or map"@)),
    }
}

/// The value of the first member with a key.
pub open spec fn field(f: Seq<(Seq<char>, JsonTree)>, key: Seq<char>) -> Option<JsonTree>
    decreases f.len(),
{
    if f.len() == 0 {
        None
    } else if f[0].0 == key {
        Some(f[0].1)
    } else {
        field(f.drop_first(), key)
    }
}

/// Whether what a decoder returns is the outcome that a contract gives.
pub open spec fn gives<T>(r: Result<T, String>, want: Result<T, Seq<char>>) -> bool {
    match r {
        Ok(v) => want == Ok::<T, Seq<char>>(v),
        Err(e) => want == Err::<T, Seq<char>>(e@),
    }
}

pub fn bool_of(j: &Json) -> (r: Result<bool, String>)
    ensures
        gives(r, as_bool(j@)),
{
    match j {
        Json::Bool(b) => Ok(*b),
        _ => Err(say_wrong_type(j, "a boolean")),
    }
}

pub fn u64_of(j: &Json) -> (r: Result<u64, String>)
    ensures
        gives(r, as_u64(j@)),
{
    match j {
        Json::Unsigned(n) => Ok(*n),
        Json::Negative(_) => Err(say_wrong_value(j, "u64")),
        _ => Err(say_wrong_type(j, "u64")),
    }
}

pub fn u32_of(j: &Json) -> (r: Result<u32, String>)
    ensures
        gives(r, as_u32(j@)),
{
    match j {
        Json::Unsigned(n) => if *n <= u32::MAX as u64 {
            Ok(*n as u32)
        } else {
            Err(say_wrong_value(j, "u32"))
        },
        Json::Negative(_) => Err(say_wrong_value(j, "u32")),
        _ => Err(say_wrong_type(j, "u32")),
    }
}

pub fn text_in(j: &Json) -> (r: Result<&String, String>)
    ensures
        match r {
            Ok(s) => as_text(j@) == Ok::<Seq<char>, Seq<char>>(s@),
            Err(e) => as_text(j@) == Err::<Seq<char>, Seq<char>>(e@),
        },
{
    match j {
        Json::Text(s) => Ok(s),
        _ => Err(say_wrong_type(j, "a string")),
    }
}

pub fn optional_u64_of(j: &Json) -> (r: Result<Option<u64>, String>)
    ensures
        gives(r, as_optional_u64(j@)),
{
    match j {
        Json::Null => Ok(None),
        _ => match u64_of(j) {
            Ok(n) => Ok(Some(n)),
            Err(e) => Err(e),
        },
    }
}

proof fn lemma_name_place(name: Seq<char>, names: Seq<Seq<char>>, i: int)
    requires
        0 <= i <= names.len(),
        forall|k: int| 0 <= k < i ==> names[k] != name,
        i < names.len() ==> names[i] == name,
    ensures
        name_place(name, names) == i,
    decreases names.len(),
{
    if names.len() > 0 {
        let front = names.drop_last();
        if i < names.len() {
            if i < front.len() {
                lemma_name_place(name, front, i);
            } else {
                lemma_name_place(name, front, front.len() as int);
            }
        } else {
            lemma_name_place(name, front, front.len() as int);
        }
    }
}

fn find_name(name: &str, names: &[&'static str]) -> (place: Option<usize>)
    ensures
        match place {
            Some(i) => i < names@.len() && name_place(name@, texts(names@)) == i,
            None => name_place(name@, texts(names@)) == names@.len(),
        },
{
    let mut i: usize = 0;
    while i < names.len()
        invariant
            i <= names@.len(),
            forall|k: int| 0 <= k < i ==> texts(names@)[k] != name@,
        decreases names@.len() - i,
    {
        if text::same_text(names[i], name) {
            proof {
                lemma_name_place(name@, texts(names@), i as int);
            }
            return Some(i);
        }
        i = i + 1;
    }
    proof {
        lemma_name_place(name@, texts(names@), i as int);
    }
    None
}

/// Which of some names a value gives.
pub fn name_of(j: &Json, names: &'static [&'static str]) -> (r: Result<usize, String>)
    requires
        names@.len() > 0,
    ensures
        match r {
            Ok(i) => i < names@.len() && as_name(j@, texts(names@)) == Ok::<int, Seq<char>>(
                i as int,
            ),
            Err(e) => as_name(j@, texts(names@)) == Err::<int, Seq<char>>(e@),
        },
{
    broadcast use lemma_parts;

    match j {
        Json::Text(s) => match find_name(s.as_str(), names) {
            Some(i) => Ok(i),
            None => Err(say_unknown(s.as_str(), names)),
        },
        Json::Object(f) => {
            if f.len() != 1 {
                return Err(say_wrong_value(j, "map with a single key"));
            }
            match find_name(f[0].0.as_str(), names) {
                None => Err(say_unknown(f[0].0.as_str(), names)),
                Some(i) => match f[0].1 {
                    Json::Null => Ok(i),
                    _ => Err(say_wrong_type(&f[0].1, "unit")),
                },
            }
        },
        _ => Err(say_wrong_type(j, "string or map")),
    }
}

/// The value of the first member with a key.
pub fn find_field<'a>(f: &'a Vec<(String, Json)>, key: &str) -> (found: Option<&'a Json>)
    ensures
        match found {
            Some(j) => field(members(f@), key@) == Some(j@),
            None => field(members(f@), key@) is None,
        },
{
    let mut i: usize = 0;
    assert(members(f@).skip(0) =~= members(f@));
    while i < f.len()
        invariant
            i <= f@.len(),
            field(members(f@), key@) == field(members(f@).skip(i as int), key@),
        decreases f@.len() - i,
    {
        assert(members(f@).skip(i as int)[0] == members(f@)[i as int]);
        if text::same_text(f[i].0.as_str(), key) {
            return Some(&f[i].1);
        }
        assert(members(f@).skip(i as int).drop_first() =~= members(f@).skip(i as int + 1));
        i = i + 1;
    }
    None
}

/// A member is found by its key where no key comes twice.
pub proof fn lemma_field_at(f: Seq<(Seq<char>, JsonTree)>, i: int)
    requires
        keys_differ(f),
        0 <= i < f.len(),
    ensures
        field(f, f[i].0) == Some(f[i].1),
    decreases f.len(),
{
    if i > 0 {
        assert(f[0].0 != f[i].0);
        let rest = f.drop_first();
        assert(rest[i - 1] == f[i]);
        assert forall|a: int, b: int| 0 <= a < b < rest.len() implies (#[trigger] rest[a]).0 != (
        #[trigger] rest[b]).0 by {
            assert(f[a + 1].0 != f[b + 1].0);
        }
        lemma_field_at(rest, i - 1);
    }
}

/// A name is at its place in a list that holds it once.
pub proof fn lemma_name_at(names: Seq<Seq<char>>, i: int)
    requires
        0 <= i < names.len(),
        forall|k: int| 0 <= k < i ==> names[k] != names[i],
    ensures
        name_place(names[i], names) == i,
        as_name(JsonTree::Text(names[i]), names) == Ok::<int, Seq<char>>(i),
{
    lemma_name_place(names[i], names, i);
}

/// A field is the value of the first member with its key, and is missing exactly where
/// no member has it.
pub proof fn law_a_field_is_the_first_with_its_key(f: Seq<(Seq<char>, JsonTree)>, key: Seq<char>)
    ensures
        match field(f, key) {
            Some(t) => exists|i: int|
                0 <= i < f.len() && #[trigger] f[i] == (key, t) && forall|j: int|
                    0 <= j < i ==> (#[trigger] f[j]).0 != key,
            None => forall|i: int| 0 <= i < f.len() ==> (#[trigger] f[i]).0 != key,
        },
    decreases f.len(),
{
    if f.len() > 0 {
        if f[0].0 == key {
            assert(f[0] == (key, f[0].1));
        } else {
            let rest = f.drop_first();
            law_a_field_is_the_first_with_its_key(rest, key);
            match field(rest, key) {
                Some(t) => {
                    let i = choose|i: int|
                        0 <= i < rest.len() && #[trigger] rest[i] == (key, t) && forall|j: int|
                            0 <= j < i ==> (#[trigger] rest[j]).0 != key;
                    assert(f[i + 1] == (key, t));
                    assert forall|j: int| 0 <= j < i + 1 implies (#[trigger] f[j]).0 != key by {
                        if j > 0 {
                            assert(rest[j - 1] == f[j]);
                        }
                    }
                },
                None => {
                    assert forall|i: int| 0 <= i < f.len() implies (#[trigger] f[i]).0 != key by {
                        if i > 0 {
                            assert(rest[i - 1] == f[i]);
                        }
                    }
                },
            }
        }
    }
}

/// A name is found in a list at the first place where it stands, and not at all where
/// it does not; a value gives it as a text, or as the one key of an object with null.
pub proof fn law_a_name_is_found_where_it_stands(t: JsonTree, names: Seq<Seq<char>>)
    ensures
        as_name(t, names) matches Ok(i) ==> {
            &&& 0 <= i < names.len()
            &&& forall|k: int| 0 <= k < i ==> names[k] != names[i]
            &&& t == JsonTree::Text(names[i]) || t == JsonTree::Object(
                seq![(names[i], JsonTree::Null)],
            )
        },
        t matches JsonTree::Text(s) ==> (as_name(t, names) is Ok <==> names.contains(s)),
        t matches JsonTree::Object(f) ==> (as_name(t, names) is Ok <==> f.len() == 1 && f[0].1
            is Null && names.contains(f[0].0)),
        !(t is Text) && !(t is Object) ==> as_name(t, names) is Err,
{
    match t {
        JsonTree::Text(s) => lemma_found(s, names),
        JsonTree::Object(f) => {
            if f.len() == 1 {
                lemma_found(f[0].0, names);
                if as_name(t, names) is Ok {
                    assert(f =~= seq![(f[0].0, JsonTree::Null)]);
                }
            }
        },
        _ => {},
    }
}

proof fn lemma_found(name: Seq<char>, names: Seq<Seq<char>>)
    ensures
        0 <= name_place(name, names) <= names.len(),
        name_place(name, names) < names.len() <==> names.contains(name),
        name_place(name, names) < names.len() ==> names[name_place(name, names)] == name,
        forall|k: int| 0 <= k < name_place(name, names) ==> names[k] != name,
    decreases names.len(),
{
    if names.len() > 0 {
        let front = names.drop_last();
        lemma_found(name, front);
        assert forall|k: int| 0 <= k < name_place(name, names) implies names[k] != name by {
            if k < front.len() {
                assert(front[k] == names[k]);
            }
        }
        if names.contains(name) {
            let k = choose|k: int| 0 <= k < names.len() && names[k] == name;
            if k < front.len() {
                assert(front[k] == name);
            }
        }
        if name_place(name, names) < names.len() {
            assert(names[name_place(name, names)] == name);
        }
    }
}

/// A value is a truth value, a number or a text exactly where it is one of that kind; a
/// small number is one of 32 bits; and a number that may be left out may also be null.
pub proof fn law_values_are_what_they_are(j: Json)
    ensures
        forall|r: Result<bool, String>| #[trigger]
            call_ensures(bool_of, (&j,), r) ==> (r is Ok <==> j@ is Bool) && (r matches Ok(b)
                ==> j@ == JsonTree::Bool(b)),
        forall|r: Result<u64, String>| #[trigger]
            call_ensures(u64_of, (&j,), r) ==> (r is Ok <==> j@ is Unsigned) && (r matches Ok(n)
                ==> j@ == JsonTree::Unsigned(n)),
        forall|r: Result<u32, String>| #[trigger]
            call_ensures(u32_of, (&j,), r) ==> (r is Ok <==> j@ is Unsigned && j@->Unsigned_0
                <= u32::MAX) && (r matches Ok(n) ==> j@ == JsonTree::Unsigned(n as u64)),
        forall|r: Result<&String, String>| #[trigger]
            call_ensures(text_in, (&j,), r) ==> (r is Ok <==> j@ is Text) && (r matches Ok(s)
                ==> j@ == JsonTree::Text(s@)),
        forall|r: Result<Option<u64>, String>| #[trigger]
            call_ensures(optional_u64_of, (&j,), r) ==> {
                &&& r is Ok <==> j@ is Unsigned || j@ is Null
                &&& r matches Ok(Some(n)) ==> j@ == JsonTree::Unsigned(n)
                &&& r matches Ok(None) ==> j@ is Null
            },
{
}

/// What is wrong with a value is told of the value and of what was expected.
pub proof fn law_what_is_wrong_with_a_value(j: Json)
    ensures
        forall|r: Result<bool, String>| #[trigger]
            call_ensures(bool_of, (&j,), r) && r is Err ==> (r->Err_0)@ == wrong_type(
                j@,
                "a boolean"@,
            ),
        forall|r: Result<u64, String>| #[trigger]
            call_ensures(u64_of, (&j,), r) && r is Err ==> (r->Err_0)@ == (if j@ is Negative {
                wrong_value(j@, "u64"@)
            } else {
                wrong_type(j@, "u64"@)
            }),
        forall|r: Result<u32, String>| #[trigger]
            call_ensures(u32_of, (&j,), r) && r is Err ==> (r->Err_0)@ == (if j@ is Negative || j@
                is Unsigned {
                wrong_value(j@, "u32"@)
            } else {
                wrong_type(j@, "u32"@)
            }),
        forall|r: Result<&String, String>| #[trigger]
            call_ensures(text_in, (&j,), r) && r is Err ==> (r->Err_0)@ == wrong_type(
                j@,
                "a string"@,
            ),
{
}

/// Looking for a field finds the value of the first member with its key.
pub proof fn law_looking_finds_the_first_member(f: Vec<(String, Json)>, key: &str)
    ensures
        forall|found: Option<&Json>| #[trigger]
            call_ensures(find_field, (&f, key), found) ==> match found {
                Some(j) => exists|i: int|
                    {
                        &&& 0 <= i < f@.len()
                        &&& (#[trigger] f@[i]).0@ == key@
                        &&& f@[i].1@ == j@
                        &&& forall|k: int| 0 <= k < i ==> (#[trigger] f@[k]).0@ != key@
                    },
                None => lacks(f@, key@),
            },
{
    let m = members(f@);
    law_a_field_is_the_first_with_its_key(m, key@);
    assert forall|i: int| 0 <= i < f@.len() implies (#[trigger] f@[i]).0@ == m[i].0 && f@[i].1@
        == m[i].1 by {}
}

/// Whether no member has a key.
pub open spec fn lacks(f: Seq<(String, Json)>, key: Seq<char>) -> bool {
    forall|i: int| 0 <= i < f.len() ==> (#[trigger] f[i]).0@ != key
}

/// What is said of a value is said of its parts.
pub proof fn law_a_value_shows_its_parts(j: Json)
    ensures
        match j {
            Json::Null => j@ is Null,
            Json::Bool(b) => j@ == JsonTree::Bool(b),
            Json::Unsigned(n) => j@ == JsonTree::Unsigned(n),
            Json::Negative(n) => j@ == JsonTree::Negative(n),
            Json::Float(n) => j@ == JsonTree::Float(n),
            Json::Text(s) => j@ == JsonTree::Text(s@),
            Json::Array(v) => {
                &&& j@ is Array
                &&& j@->Array_0.len() == v@.len()
                &&& forall|i: int| 0 <= i < v@.len() ==> #[trigger] j@->Array_0[i] == v@[i]@
            },
            Json::Object(f) => {
                &&& j@ is Object
                &&& j@->Object_0.len() == f@.len()
                &&& j@->Object_0 == members(f@)
                &&& forall|i: int|
                    0 <= i < f@.len() ==> #[trigger] members(f@)[i] == (f@[i].0@, f@[i].1@)
            },
        },
{
    broadcast use lemma_parts;

}

/// A text, or bytes, are read as what they hold or refused in the words of the complaint,
/// and what is written reads back, on one line or indented.
pub proof fn law_reading_and_writing(s: &str, bytes: &[u8], j: Json)
    ensures
        forall|r: Result<Json, String>| #[trigger]
            call_ensures(parse, (s,), r) ==> match parsed(s@) {
                Ok(t) => r is Ok && (r->Ok_0)@ == t,
                Err(words) => r is Err && (r->Err_0)@ == words,
            },
        forall|r: Result<Json, String>| #[trigger]
            call_ensures(parse_bytes, (bytes,), r) ==> match parsed_bytes(bytes@) {
                Ok(t) => r is Ok && (r->Ok_0)@ == t,
                Err(words) => r is Err && (r->Err_0)@ == words,
            },
        forall|out: String| #[trigger]
            call_ensures(print, (j,), out) ==> out@ == compact(j@) && parsed(out@) is Ok
                && parsed(out@)->Ok_0 == j@,
        forall|out: Vec<u8>| #[trigger]
            call_ensures(print_pretty, (j,), out) ==> out@ == pretty(j@) && parsed_bytes(out@)
                is Ok && parsed_bytes(out@)->Ok_0 == j@,
{
}

/// Which of some names a value gives: the first that it is, as a text or as the one key of
/// an object with null.
pub proof fn law_a_value_gives_a_name(j: Json, names: &'static [&'static str])
    ensures
        forall|r: Result<usize, String>| #[trigger]
            call_ensures(name_of, (&j, names), r) ==> match r {
                Ok(i) => i < names@.len() && (j@ == JsonTree::Text(names@[i as int]@) || j@
                    == JsonTree::Object(seq![(names@[i as int]@, JsonTree::Null)])),
                Err(_) => gives_none(j@, names@),
            },
{
    law_a_name_is_found_where_it_stands(j@, texts(names@));
    let all = texts(names@);
    assert forall|i: int| 0 <= i < names@.len() implies all.contains((#[trigger] names@[i])@) by {
        assert(all[i] == names@[i]@);
    }
}

/// Whether a value gives none of some names.
pub open spec fn gives_none(t: JsonTree, names: Seq<&'static str>) -> bool {
    forall|i: int|
        #![trigger names[i]]
        0 <= i < names.len() ==> t != JsonTree::Text(names[i]@) && t != JsonTree::Object(
            seq![(names[i]@, JsonTree::Null)],
        )
}

} // verus!
