//! A plain model of JSON values, with the accessors the evidence logic reads.
//!
//! Text is parsed and printed by `serde_json`; the logic of this crate works on
//! [`JsonValue`], whose contents Verus can see.
use vstd::prelude::*;

verus! {

/// A JSON number as `serde_json` keeps it: a non-negative integer, a negative
/// integer, or a float (held as the text `serde_json` prints for it).
#[derive(Debug, PartialEq, Eq)]
pub enum JsonNumber {
    PosInt(u64),
    NegInt(i64),
    Float(String),
}

/// A JSON value. Object members are kept in the order `serde_json` iterates
/// them (sorted by key when they come from parsed text).
#[derive(Debug, PartialEq, Eq)]
pub enum JsonValue {
    Null,
    Bool(bool),
    Number(JsonNumber),
    Str(String),
    Array(Vec<JsonValue>),
    Object(Vec<(String, JsonValue)>),
}

/// The mathematical view of a [`JsonNumber`].
pub enum Num {
    PosInt(u64),
    NegInt(i64),
    Float(Seq<char>),
}

/// The mathematical view of a [`JsonValue`].
pub enum Json {
    Null,
    Bool(bool),
    Number(Num),
    Str(Seq<char>),
    Array(Seq<Json>),
    Object(Seq<(Seq<char>, Json)>),
}

impl JsonNumber {
    pub open spec fn view(&self) -> Num {
        match self {
            JsonNumber::PosInt(u) => Num::PosInt(*u),
            JsonNumber::NegInt(i) => Num::NegInt(*i),
            JsonNumber::Float(t) => Num::Float(t@),
        }
    }
}

impl JsonValue {
    pub open spec fn view(&self) -> Json
        decreases self,
    {
        match self {
            JsonValue::Null => Json::Null,
            JsonValue::Bool(b) => Json::Bool(*b),
            JsonValue::Number(n) => Json::Number(n.view()),
            JsonValue::Str(s) => Json::Str(s@),
            JsonValue::Array(items) => Json::Array(
                Seq::new(items@.len(), |i: int| if 0 <= i < items@.len() { items@[i].view() } else { Json::Null }),
            ),
            JsonValue::Object(members) => Json::Object(
                Seq::new(members@.len(), |i: int| if 0 <= i < members@.len() { (members@[i].0@, members@[i].1.view()) } else { (Seq::empty(), Json::Null) }),
            ),
        }
    }
}

/// The view of an optional value.
pub open spec fn opt_view(o: Option<JsonValue>) -> Option<Json> {
    match o {
        Some(v) => Some(v@),
        None => None,
    }
}

/// What `serde_json::from_slice::<serde_json::Value>` makes of some bytes.
pub uninterp spec fn json_parse(bytes: Seq<u8>) -> Option<Json>;

/// The compact text that `serde_json` prints for a value (`Value::to_string`).
pub uninterp spec fn json_text(value: Json) -> Seq<char>;

#[verifier::external_type_specification]
#[verifier::external_body]
pub struct ExSerdeJsonValue(serde_json::Value);

/// Converts a `serde_json` value into the model, member for member.
#[verifier::external_body]
pub(crate) fn from_serde(value: serde_json::Value) -> JsonValue {
    match value {
        serde_json::Value::Null => JsonValue::Null,
        serde_json::Value::Bool(b) => JsonValue::Bool(b),
        serde_json::Value::Number(n) => JsonValue::Number(match (n.as_u64(), n.as_i64()) {
            (Some(u), _) => JsonNumber::PosInt(u),
            (None, Some(i)) => JsonNumber::NegInt(i),
            (None, None) => JsonNumber::Float(n.to_string()),
        }),
        serde_json::Value::String(s) => JsonValue::Str(s),
        serde_json::Value::Array(items) => JsonValue::Array(items.into_iter().map(from_serde).collect()),
        serde_json::Value::Object(map) => JsonValue::Object(map.into_iter().map(|(k, v)| (k, from_serde(v))).collect()),
    }
}

/// Converts a model value back into a `serde_json` value, member for member.
#[verifier::external_body]
pub(crate) fn to_serde(value: &JsonValue) -> serde_json::Value {
    match value {
        JsonValue::Null => serde_json::Value::Null,
        JsonValue::Bool(b) => serde_json::Value::Bool(*b),
        JsonValue::Number(JsonNumber::PosInt(u)) => serde_json::Value::from(*u),
        JsonValue::Number(JsonNumber::NegInt(i)) => serde_json::Value::from(*i),
        JsonValue::Number(JsonNumber::Float(t)) => serde_json::from_str(t).unwrap_or(serde_json::Value::Null),
        JsonValue::Str(s) => serde_json::Value::String(s.clone()),
        JsonValue::Array(items) => serde_json::Value::Array(items.iter().map(to_serde).collect()),
        JsonValue::Object(members) => serde_json::Value::Object(members.iter().map(|(k, v)| (k.clone(), to_serde(v))).collect()),
    }
}

/// The message of the error `serde_json::from_slice::<serde_json::Value>`
/// gives on some bytes (its `Display` text).
pub uninterp spec fn json_error_text(bytes: Seq<u8>) -> Seq<char>;

/// Parses JSON text with `serde_json::from_slice`, giving the error's
/// message where it fails. The contract names both the value and the
/// message: `serde_json`'s grammar and wording are not restated here.
#[verifier::external_body]
pub fn parse_json_or_message(bytes: &[u8]) -> (r: Result<JsonValue, String>)
    ensures
        match r {
            Ok(v) => json_parse(bytes@) == Some(v@),
            Err(m) => json_parse(bytes@) is None && m@ == json_error_text(bytes@),
        },
{
    match serde_json::from_slice::<serde_json::Value>(bytes) {
        Ok(v) => Ok(from_serde(v)),
        Err(e) => Err(e.to_string()),
    }
}

/// Parses JSON text (`serde_json::from_slice(..).ok()`).
pub fn parse_json(bytes: &[u8]) -> (result: Option<JsonValue>)
    ensures
        opt_view(result) == json_parse(bytes@),
{
    match parse_json_or_message(bytes) {
        Ok(v) => Some(v),
        Err(_) => None,
    }
}

/// Prints a value as compact JSON text with `serde_json` (`Value::to_string`).
/// The contract names the result and states one fact of the compact form:
/// it holds no line break, since the compact formatter writes no whitespace
/// between tokens and strings escape a newline as `\n`. How `serde_json`
/// escapes and orders members is not restated here.
#[verifier::external_body]
pub fn to_json_text(value: &JsonValue) -> (text: String)
    ensures
        text@ == json_text(value@),
        !text@.contains('\n'),
{
    to_serde(value).to_string()
}

/// The member stored under `key`, if `value` is an object that has one
/// (`Value::get` with a string key).
pub open spec fn spec_member(value: Json, key: Seq<char>) -> Option<Json> {
    match value {
        Json::Object(members) => spec_lookup(members, key),
        _ => None,
    }
}

/// The first member of `members` whose key is `key`.
pub open spec fn spec_lookup(members: Seq<(Seq<char>, Json)>, key: Seq<char>) -> Option<Json>
    decreases members.len(),
{
    if members.len() == 0 {
        None
    } else if members[0].0 == key {
        Some(members[0].1)
    } else {
        spec_lookup(members.drop_first(), key)
    }
}

/// `value[key]`: the member under `key`, or `null` where there is none.
pub open spec fn spec_field(value: Json, key: Seq<char>) -> Json {
    match spec_member(value, key) {
        Some(v) => v,
        None => Json::Null,
    }
}

/// `Value::as_str`.
pub open spec fn spec_as_str(value: Json) -> Option<Seq<char>> {
    match value {
        Json::Str(s) => Some(s),
        _ => None,
    }
}

/// `Value::as_u64`.
pub open spec fn spec_as_u64(value: Json) -> Option<u64> {
    match value {
        Json::Number(Num::PosInt(u)) => Some(u),
        _ => None,
    }
}

/// `Value::as_i64`.
pub open spec fn spec_as_i64(value: Json) -> Option<i64> {
    match value {
        Json::Number(Num::PosInt(u)) => if u <= i64::MAX as u64 { Some(u as i64) } else { None },
        Json::Number(Num::NegInt(i)) => Some(i),
        _ => None,
    }
}

/// `Value::as_bool`.
pub open spec fn spec_as_bool(value: Json) -> Option<bool> {
    match value {
        Json::Bool(b) => Some(b),
        _ => None,
    }
}

/// `value == text`: the value is the string `text`.
pub open spec fn spec_is_text(value: Json, text: Seq<char>) -> bool {
    spec_as_str(value) == Some(text)
}

/// Compares two strings character by character.
pub fn str_eq(a: &str, b: &str) -> (r: bool)
    ensures
        r == (a@ == b@),
{
    let x = crate::text::chars_of(a);
    let y = crate::text::chars_of(b);
    if x.len() != y.len() {
        return false;
    }
    let mut i: usize = 0;
    while i < x.len()
        invariant
            x@ == a@,
            y@ == b@,
            x.len() == y.len(),
            i <= x.len(),
            forall|j: int| 0 <= j < i ==> x@[j] == y@[j],
        decreases x.len() - i,
    {
        if x[i] != y[i] {
            return false;
        }
        i += 1;
    }
    assert(x@ =~= y@);
    true
}

/// Copies a string (`String::clone`).
pub fn copy_string(s: &String) -> (r: String)
    ensures
        r@ == s@,
{
    s.clone()
}

impl JsonNumber {
    /// A copy of the number.
    pub fn copy(&self) -> (r: JsonNumber)
        ensures
            r@ == self@,
    {
        match self {
            JsonNumber::PosInt(u) => JsonNumber::PosInt(*u),
            JsonNumber::NegInt(i) => JsonNumber::NegInt(*i),
            JsonNumber::Float(t) => JsonNumber::Float(copy_string(t)),
        }
    }
}

impl JsonValue {
    /// A deep copy of the value.
    #[verifier::loop_isolation(false)]
    pub fn copy(&self) -> (r: JsonValue)
        ensures
            r@ == self@,
        decreases *self,
    {
        match self {
            JsonValue::Null => JsonValue::Null,
            JsonValue::Bool(b) => JsonValue::Bool(*b),
            JsonValue::Number(n) => JsonValue::Number(n.copy()),
            JsonValue::Str(s) => JsonValue::Str(copy_string(s)),
            JsonValue::Array(items) => {
                let mut out: Vec<JsonValue> = Vec::new();
                let mut i: usize = 0;
                while i < items.len()
                    invariant
                        i <= items.len(),
                        out@.len() == i,
                        forall|j: int| 0 <= j < i ==> #[trigger] out@[j]@ == items@[j]@,
                    decreases items.len() - i,
                {
                    assert(decreases_to!(*self => *items));
                    assert(decreases_to!(*items => items@));
                    assert(decreases_to!(items@ => items@[i as int]));
                    let c = items[i].copy();
                    out.push(c);
                    i += 1;
                }
                let ghost outv = out@;
                let r = JsonValue::Array(out);
                assert(r@ =~= self@) by {
                    if let Json::Array(a) = r@ {
                        if let Json::Array(b) = self@ {
                            assert forall|j: int| 0 <= j < a.len() implies a[j] == b[j] by {
                                assert(outv[j]@ == items@[j]@);
                            }
                            assert(a =~= b);
                        }
                    }
                }
                r
            },
            JsonValue::Object(members) => {
                let mut out: Vec<(String, JsonValue)> = Vec::new();
                let mut i: usize = 0;
                while i < members.len()
                    invariant
                        i <= members.len(),
                        out@.len() == i,
                        forall|j: int| 0 <= j < i ==> #[trigger] out@[j].0@ == members@[j].0@ && out@[j].1@ == members@[j].1@,
                    decreases members.len() - i,
                {
                    assert(decreases_to!(*self => *members));
                    assert(decreases_to!(*members => members@));
                    assert(decreases_to!(members@ => members@[i as int]));
                    assert(decreases_to!(members@[i as int] => members@[i as int].1));
                    let k = copy_string(&members[i].0);
                    let v = members[i].1.copy();
                    out.push((k, v));
                    i += 1;
                }
                let r = JsonValue::Object(out);
                assert(r@ =~= self@) by {
                    if let Json::Object(a) = r@ {
                        if let Json::Object(b) = self@ {
                            assert(a =~= b);
                        }
                    }
                }
                r
            },
        }
    }

    /// `Value::get(key)`.
    #[verifier::loop_isolation(false)]
    pub fn get(&self, key: &str) -> (r: Option<&JsonValue>)
        ensures
            r.is_some() == spec_member(self@, key@).is_some(),
            r.is_some() ==> spec_member(self@, key@) == Some(r.unwrap()@),
    {
        match self {
            JsonValue::Object(members) => {
                let ghost ms = match self@ { Json::Object(m) => m, _ => Seq::empty() };
                assert(ms.len() == members@.len());
                assert forall|j: int| 0 <= j < members@.len() implies #[trigger] ms[j] == (members@[j].0@, members@[j].1@) by {}
                assert(ms.skip(0) =~= ms);
                let mut i: usize = 0;
                while i < members.len()
                    invariant
                        i <= members.len(),
                        ms.len() == members@.len(),
                        forall|j: int| 0 <= j < members@.len() ==> #[trigger] ms[j] == (members@[j].0@, members@[j].1@),
                        spec_lookup(ms, key@) == spec_lookup(ms.skip(i as int), key@),
                    decreases members.len() - i,
                {
                    assert(ms.skip(i as int).drop_first() =~= ms.skip(i + 1));
                    assert(ms.skip(i as int)[0] == ms[i as int]);
                    if str_eq(members[i].0.as_str(), key) {
                        return Some(&members[i].1);
                    }
                    i += 1;
                }
                None
            },
            _ => None,
        }
    }

    /// `value[key]`: a copy of the member under `key`, or `null`.
    pub fn field(&self, key: &str) -> (r: JsonValue)
        ensures
            r@ == spec_field(self@, key@),
    {
        match self.get(key) {
            Some(v) => v.copy(),
            None => JsonValue::Null,
        }
    }

    /// `value[key].as_str()`.
    pub fn field_str(&self, key: &str) -> (r: Option<&str>)
        ensures
            r.is_some() == spec_as_str(spec_field(self@, key@)).is_some(),
            r.is_some() ==> spec_as_str(spec_field(self@, key@)) == Some(r.unwrap()@),
    {
        match self.get(key) {
            Some(v) => v.as_str(),
            None => None,
        }
    }

    /// `Value::as_str`.
    pub fn as_str(&self) -> (r: Option<&str>)
        ensures
            r.is_some() == spec_as_str(self@).is_some(),
            r.is_some() ==> spec_as_str(self@) == Some(r.unwrap()@),
    {
        match self {
            JsonValue::Str(s) => Some(s.as_str()),
            _ => None,
        }
    }

    /// `Value::as_u64`.
    pub fn as_u64(&self) -> (r: Option<u64>)
        ensures
            r == spec_as_u64(self@),
    {
        match self {
            JsonValue::Number(JsonNumber::PosInt(u)) => Some(*u),
            _ => None,
        }
    }

    /// `Value::as_i64`.
    pub fn as_i64(&self) -> (r: Option<i64>)
        ensures
            r == spec_as_i64(self@),
    {
        match self {
            JsonValue::Number(JsonNumber::PosInt(u)) => if *u <= i64::MAX as u64 { Some(*u as i64) } else { None },
            JsonValue::Number(JsonNumber::NegInt(i)) => Some(*i),
            _ => None,
        }
    }

    /// `Value::as_bool`.
    pub fn as_bool(&self) -> (r: Option<bool>)
        ensures
            r == spec_as_bool(self@),
    {
        match self {
            JsonValue::Bool(b) => Some(*b),
            _ => None,
        }
    }

    /// `Value::is_null`.
    pub fn is_null(&self) -> (r: bool)
        ensures
            r == (self@ is Null),
    {
        match self {
            JsonValue::Null => true,
            _ => false,
        }
    }

    /// `value == text` for a string `text`.
    pub fn is_text(&self, text: &str) -> (r: bool)
        ensures
            r == spec_is_text(self@, text@),
    {
        match self {
            JsonValue::Str(s) => str_eq(s.as_str(), text),
            _ => false,
        }
    }
}


/// A member is found under its key where no earlier member has that key.
pub proof fn lemma_lookup_at(members: Seq<(Seq<char>, Json)>, key: Seq<char>, i: int)
    requires
        0 <= i < members.len(),
        members[i].0 == key,
        forall|j: int| 0 <= j < i ==> members[j].0 != key,
    ensures
        spec_lookup(members, key) == Some(members[i].1),
    decreases i,
{
    if i > 0 {
        let rest = members.drop_first();
        assert(members[0].0 != key);
        assert forall|j: int| 0 <= j < i - 1 implies rest[j].0 != key by {
            assert(rest[j] == members[j + 1]);
        }
        lemma_lookup_at(rest, key, i - 1);
    }
}

/// Nothing is found under a key that no member has.
pub proof fn lemma_lookup_absent(members: Seq<(Seq<char>, Json)>, key: Seq<char>)
    requires
        forall|j: int| 0 <= j < members.len() ==> members[j].0 != key,
    ensures
        spec_lookup(members, key) is None,
    decreases members.len(),
{
    if members.len() > 0 {
        let rest = members.drop_first();
        assert forall|j: int| 0 <= j < rest.len() implies rest[j].0 != key by {
            assert(rest[j] == members[j + 1]);
        }
        lemma_lookup_absent(rest, key);
    }
}

} // verus!
