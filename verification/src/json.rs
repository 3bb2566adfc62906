//! JSON values as plain data, and the readers that the replies of the platform need.

use crate::number::Real;
use crate::text::same;
use crate::wmpvp;
use vstd::prelude::*;

verus! {

/// A JSON number: what it reads as, for each type that can hold it.
#[derive(Clone, Copy, PartialEq, Eq, Structural, Debug)]
pub struct JsonNumber {
    pub signed: Option<i64>,
    pub unsigned: Option<u64>,
    pub double: Option<Real>,
}

/// A JSON value. The members of an object stand in the order of the text that they came from.
pub enum Json {
    Null,
    Bool(bool),
    Number(JsonNumber),
    Text(String),
    Array(Vec<Json>),
    Object(Vec<(String, Json)>),
}

/// The member named `key`, the first where the name occurs twice.
pub open spec fn member_of(fields: Seq<(String, Json)>, key: Seq<char>) -> Option<Json>
    decreases fields.len(),
{
    if fields.len() == 0 {
        None
    } else if fields.first().0@ == key {
        Some(fields.first().1)
    } else {
        member_of(fields.drop_first(), key)
    }
}

/// Finds the member named `key`.
pub fn member<'a>(fields: &'a Vec<(String, Json)>, key: &str) -> (r: Option<&'a Json>)
    ensures
        match r {
            Some(v) => member_of(fields@, key@) == Some(*v),
            None => member_of(fields@, key@) is None,
        },
{
    let mut i: usize = 0;
    assert(fields@.skip(0) == fields@);
    while i < fields.len()
        invariant
            i <= fields@.len(),
            member_of(fields@, key@) == member_of(fields@.skip(i as int), key@),
        decreases fields@.len() - i,
    {
        assert(fields@.skip(i as int).drop_first() == fields@.skip(i + 1));
        if same(fields[i].0.as_str(), key) {
            return Some(&fields[i].1);
        }
        i += 1;
    }
    None
}

/// The member that two names lead to.
pub open spec fn inner_member(value: Json, outer: Seq<char>, inner: Seq<char>) -> Option<Json> {
    match value.field(outer) {
        Some(v) => v.field(inner),
        None => None,
    }
}

/// The text of an optional value that is a string.
pub open spec fn text_in(value: Option<Json>) -> Option<Seq<char>> {
    match value {
        Some(v) => v.text(),
        None => None,
    }
}

/// The signed integer in an optional value.
pub open spec fn int_in(value: Option<Json>) -> Option<i64> {
    match value {
        Some(v) => v.signed(),
        None => None,
    }
}

/// The unsigned integer in an optional value.
pub open spec fn uint_in(value: Option<Json>) -> Option<u64> {
    match value {
        Some(v) => v.unsigned(),
        None => None,
    }
}

/// The double in an optional value.
pub open spec fn double_in(value: Option<Json>) -> Option<Real> {
    match value {
        Some(v) => v.double(),
        None => None,
    }
}

impl Json {
    /// The member named `key` of an object.
    pub open spec fn field(self, key: Seq<char>) -> Option<Json> {
        match self {
            Json::Object(fields) => member_of(fields@, key),
            _ => None,
        }
    }

    /// The characters of a string.
    pub open spec fn text(self) -> Option<Seq<char>> {
        match self {
            Json::Text(s) => Some(s@),
            _ => None,
        }
    }

    /// The signed integer of a number.
    pub open spec fn signed(self) -> Option<i64> {
        match self {
            Json::Number(n) => n.signed,
            _ => None,
        }
    }

    /// The unsigned integer of a number.
    pub open spec fn unsigned(self) -> Option<u64> {
        match self {
            Json::Number(n) => n.unsigned,
            _ => None,
        }
    }

    /// The double of a number.
    pub open spec fn double(self) -> Option<Real> {
        match self {
            Json::Number(n) => n.double,
            _ => None,
        }
    }

    /// The member named `key` of an object.
    pub fn get(&self, key: &str) -> (r: Option<&Json>)
        ensures
            match r {
                Some(v) => self.field(key@) == Some(*v),
                None => self.field(key@) is None,
            },
    {
        match self {
            Json::Object(fields) => member(fields, key),
            _ => None,
        }
    }

    /// The member that two names lead to.
    pub fn get_inner(&self, outer: &str, inner: &str) -> (r: Option<&Json>)
        ensures
            match r {
                Some(v) => inner_member(*self, outer@, inner@) == Some(*v),
                None => inner_member(*self, outer@, inner@) is None,
            },
    {
        match self.get(outer) {
            Some(v) => v.get(inner),
            None => None,
        }
    }

    /// The string, where the value is one.
    pub fn as_str(&self) -> (r: Option<&str>)
        ensures
            match r {
                Some(s) => self.text() == Some(s@),
                None => self.text() is None,
            },
    {
        match self {
            Json::Text(s) => Some(s.as_str()),
            _ => None,
        }
    }

    /// The signed integer, where the value is one.
    pub fn as_i64(&self) -> (r: Option<i64>)
        ensures
            r == self.signed(),
    {
        match self {
            Json::Number(n) => n.signed,
            _ => None,
        }
    }

    /// The unsigned integer, where the value is one.
    pub fn as_u64(&self) -> (r: Option<u64>)
        ensures
            r == self.unsigned(),
    {
        match self {
            Json::Number(n) => n.unsigned,
            _ => None,
        }
    }

    /// The double, where the value is a number.
    pub fn as_f64(&self) -> (r: Option<Real>)
        ensures
            r == self.double(),
    {
        match self {
            Json::Number(n) => n.double,
            _ => None,
        }
    }

    /// The elements, where the value is an array.
    pub fn as_array(&self) -> (r: Option<&Vec<Json>>)
        ensures
            match r {
                Some(v) => *self == Json::Array(*v),
                None => !(self is Array),
            },
    {
        match self {
            Json::Array(v) => Some(v),
            _ => None,
        }
    }

    /// The members, where the value is an object.
    pub fn as_object(&self) -> (r: Option<&Vec<(String, Json)>>)
        ensures
            match r {
                Some(v) => *self == Json::Object(*v),
                None => !(self is Object),
            },
    {
        match self {
            Json::Object(v) => Some(v),
            _ => None,
        }
    }

    /// The signed integer in the member named `key`.
    pub fn int_at(&self, key: &str) -> (r: Option<i64>)
        ensures
            r == int_in(self.field(key@)),
    {
        match self.get(key) {
            Some(v) => v.as_i64(),
            None => None,
        }
    }

    /// The unsigned integer in the member named `key`.
    pub fn uint_at(&self, key: &str) -> (r: Option<u64>)
        ensures
            r == uint_in(self.field(key@)),
    {
        match self.get(key) {
            Some(v) => v.as_u64(),
            None => None,
        }
    }

    /// The double in the member named `key`.
    pub fn double_at(&self, key: &str) -> (r: Option<Real>)
        ensures
            r == double_in(self.field(key@)),
    {
        match self.get(key) {
            Some(v) => v.as_f64(),
            None => None,
        }
    }

    /// The string in the member named `key`.
    pub fn text_at(&self, key: &str) -> (r: Option<&str>)
        ensures
            match r {
                Some(s) => text_in(self.field(key@)) == Some(s@),
                None => text_in(self.field(key@)) is None,
            },
    {
        match self.get(key) {
            Some(v) => v.as_str(),
            None => None,
        }
    }
}

/// A character as it stands in a JSON string: quotes, backslashes and control characters are
/// escaped.
pub open spec fn escaped(c: char) -> Seq<char> {
    if c == '"' {
        seq!['\\', '"']
    } else if c == '\\' {
        seq!['\\', '\\']
    } else if c as int == 0x08 {
        seq!['\\', 'b']
    } else if c == '\t' {
        seq!['\\', 't']
    } else if c == '\n' {
        seq!['\\', 'n']
    } else if c as int == 0x0C {
        seq!['\\', 'f']
    } else if c == '\r' {
        seq!['\\', 'r']
    } else if (c as int) < 0x20 {
        seq!['\\', 'u', '0', '0', wmpvp::hex_char(c as int / 16), wmpvp::hex_char(c as int % 16)]
    } else {
        seq![c]
    }
}

/// A text as it stands in a JSON string.
pub open spec fn all_escaped(s: Seq<char>) -> Seq<char>
    decreases s.len(),
{
    if s.len() == 0 {
        Seq::empty()
    } else {
        all_escaped(s.drop_last()) + escaped(s.last())
    }
}

/// The JSON string literal of a text.
pub open spec fn quoted(s: Seq<char>) -> Seq<char> {
    seq!['"'] + all_escaped(s) + seq!['"']
}

/// No character of `s` needs an escape in a JSON string.
pub open spec fn needs_no_escape(s: Seq<char>) -> bool {
    forall|i: int|
        0 <= i < s.len() ==> #[trigger] s[i] != '"' && s[i] != '\\' && s[i] as int >= 0x20
}

/// A text without quotes, backslashes and control characters is its own literal between quotes.
pub proof fn law_plain_text_stays(s: Seq<char>)
    requires
        needs_no_escape(s),
    ensures
        quoted(s) == seq!['"'] + s + seq!['"'],
{
    lemma_plain_text(s);
}

proof fn lemma_plain_text(s: Seq<char>)
    requires
        needs_no_escape(s),
    ensures
        all_escaped(s) == s,
    decreases s.len(),
{
    if s.len() > 0 {
        let front = s.drop_last();
        assert forall|i: int| 0 <= i < front.len() implies #[trigger] front[i] != '"' && front[i]
            != '\\' && front[i] as int >= 0x20 by {
            assert(front[i] == s[i]);
        }
        lemma_plain_text(front);
        let c = s[s.len() - 1];
        assert(c != '"' && c != '\\' && c as int >= 0x20);
        assert(escaped(c) == seq![c]);
        assert(front + seq![c] =~= s);
    } else {
        assert(all_escaped(s) =~= s);
    }
}

/// `serde_json::Value::to_string` of a string value: the JSON string literal, with a short escape
/// for quotes, backslashes and five control characters, and one by number for the others.
#[verifier::external_body]
pub(crate) fn quote(s: &str) -> (r: String)
    ensures
        r@ == quoted(s@),
{
    serde_json::Value::from(s).to_string()
}

/// A member is what stands under its name: of two members of one name the first, and of a name
/// that no member has nothing.
pub proof fn law_member_stands_under_its_name(fields: Seq<(String, Json)>, key: Seq<char>, i: int)
    ensures
        0 <= i < fields.len() && fields[i].0@ == key && (forall|j: int|
            0 <= j < i ==> (#[trigger] fields[j]).0@ != key) ==> member_of(fields, key) == Some(
            fields[i].1,
        ),
        (forall|j: int| 0 <= j < fields.len() ==> (#[trigger] fields[j]).0@ != key) ==> member_of(
            fields,
            key,
        ) is None,
    decreases fields.len(),
{
    if fields.len() > 0 {
        let rest = fields.drop_first();
        assert(fields.first() == fields[0]);
        law_member_stands_under_its_name(rest, key, i - 1);
        assert forall|j: int| 0 <= j < rest.len() implies (#[trigger] rest[j]) == fields[j + 1] by {
        }
        if 0 < i < fields.len() && fields[i].0@ == key && (forall|j: int|
            0 <= j < i ==> (#[trigger] fields[j]).0@ != key) {
            assert(fields[0].0@ != key);
            assert(rest[i - 1] == fields[i]);
            assert forall|j: int| 0 <= j < i - 1 implies (#[trigger] rest[j]).0@ != key by {
                assert(fields[j + 1].0@ != key);
            }
        }
        if forall|j: int| 0 <= j < fields.len() ==> (#[trigger] fields[j]).0@ != key {
            assert(fields[0].0@ != key);
            assert forall|j: int| 0 <= j < rest.len() implies (#[trigger] rest[j]).0@ != key by {
                assert(fields[j + 1].0@ != key);
            }
        }
    }
}

/// A value reads as what it is, and as nothing else; only objects have members.
pub proof fn law_values_read_as_what_they_are(
    n: JsonNumber,
    s: String,
    fields: Vec<(String, Json)>,
    list: Vec<Json>,
    b: bool,
    key: Seq<char>,
    inner: Seq<char>,
    v: Json,
)
    ensures
        int_in(Some(Json::Number(n))) == n.signed,
        uint_in(Some(Json::Number(n))) == n.unsigned,
        double_in(Some(Json::Number(n))) == n.double,
        text_in(Some(Json::Text(s))) == Some(s@),
        Json::Object(fields).field(key) == member_of(fields@, key),
        text_in(None) is None && int_in(None) is None && uint_in(None) is None && double_in(
            None,
        ) is None,
        !(v is Number) ==> int_in(Some(v)) is None && uint_in(Some(v)) is None && double_in(
            Some(v),
        ) is None,
        !(v is Text) ==> text_in(Some(v)) is None,
        !(v is Object) ==> v.field(key) is None,
        v.field(key) matches Some(x) ==> inner_member(v, key, inner) == x.field(inner),
        v.field(key) is None ==> inner_member(v, key, inner) is None,
{
}

/// Every character of a JSON string can be told from every other: ordinary ones stand as they are,
/// the others begin with a backslash and are followed by one character or by a number.
pub proof fn law_escapes_are_told_apart(c: char, d: char)
    ensures
        c as int >= 0x20 && c != '"' && c != '\\' ==> escaped(c) == seq![c],
        (c as int) < 0x20 || c == '"' || c == '\\' ==> escaped(c)[0] == '\\' && (escaped(c).len()
            == 2 || escaped(c).len() == 6),
        escaped(c).len() == 6 ==> escaped(c)[1] == 'u' && wmpvp::digit_value(escaped(c)[4]) * 16
            + wmpvp::digit_value(escaped(c)[5]) == c as int,
        escaped(c) == escaped(d) ==> c == d,
{
    lemma_escape(c);
    lemma_escape(d);
    if escaped(c) == escaped(d) {
        assert(escaped(c).len() == escaped(d).len());
        assert(escaped(c)[0] == escaped(d)[0]);
        if escaped(c).len() >= 2 {
            assert(escaped(c)[1] == escaped(d)[1]);
        }
        if escaped(c).len() == 6 {
            assert(escaped(c)[4] == escaped(d)[4] && escaped(c)[5] == escaped(d)[5]);
        }
    }
}

proof fn lemma_escape(c: char)
    ensures
        escaped(c).len() == 6 ==> wmpvp::digit_value(escaped(c)[4]) * 16 + wmpvp::digit_value(
            escaped(c)[5],
        ) == c as int,
{
    if escaped(c).len() == 6 {
        let n = c as int;
        assert(n < 0x20);
        assert(wmpvp::digit_value(wmpvp::hex_char(n / 16)) == n / 16);
        assert(wmpvp::digit_value(wmpvp::hex_char(n % 16)) == n % 16);
    }
}

} // verus!
