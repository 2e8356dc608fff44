//! JSON values as the event log, the agents' logs and the watcher's tools carry them.

use vstd::prelude::*;

use crate::text::{dec, dec_i64, dec_int, dec_u64, same};

verus! {

/// A JSON number. Whole numbers keep their value; any other number keeps the text
/// that it is printed with.
#[derive(Debug)]
pub enum JsonNumber {
    /// A whole number that is not negative.
    Unsigned(u64),
    /// A negative whole number.
    Signed(i64),
    /// Any other number, as it is printed.
    Float(String),
}

/// A JSON value. Where an object lists a key twice, the first entry counts.
#[derive(Debug)]
pub enum Json {
    Null,
    Bool(bool),
    Number(JsonNumber),
    String(String),
    Array(Vec<Json>),
    Object(Vec<(String, Json)>),
}

/// What a JSON number is.
pub enum NumberView {
    Unsigned(u64),
    Signed(i64),
    Float(Seq<char>),
}

/// What a JSON value is.
pub enum JsonView {
    Null,
    Bool(bool),
    Number(NumberView),
    String(Seq<char>),
    Array(Seq<JsonView>),
    Object(Seq<(Seq<char>, JsonView)>),
}

impl View for JsonNumber {
    type V = NumberView;

    open spec fn view(&self) -> NumberView {
        match self {
            JsonNumber::Unsigned(n) => NumberView::Unsigned(*n),
            JsonNumber::Signed(n) => NumberView::Signed(*n),
            JsonNumber::Float(t) => NumberView::Float(t@),
        }
    }
}

/// The view of a JSON value.
pub open spec fn json_view(v: Json) -> JsonView
    decreases v,
{
    match v {
        Json::Null => JsonView::Null,
        Json::Bool(b) => JsonView::Bool(b),
        Json::Number(n) => JsonView::Number(n@),
        Json::String(s) => JsonView::String(s@),
        Json::Array(a) => JsonView::Array(
            Seq::new(
                a@.len(),
                |i: int|
                    if 0 <= i < a@.len() {
                        json_view(a@[i])
                    } else {
                        JsonView::Null
                    },
            ),
        ),
        Json::Object(m) => JsonView::Object(
            Seq::new(
                m@.len(),
                |i: int|
                    if 0 <= i < m@.len() {
                        (m@[i].0@, json_view(m@[i].1))
                    } else {
                        (seq![], JsonView::Null)
                    },
            ),
        ),
    }
}

/// The views of object members.
pub open spec fn member_views(members: Seq<(String, Json)>) -> Seq<(Seq<char>, JsonView)> {
    members.map_values(|e: (String, Json)| (e.0@, e.1@))
}

impl View for Json {
    type V = JsonView;

    open spec fn view(&self) -> JsonView {
        json_view(*self)
    }
}

/// The value of the first entry with a key.
pub open spec fn entry_of(entries: Seq<(Seq<char>, JsonView)>, key: Seq<char>) -> Option<JsonView>
    decreases entries.len(),
{
    if entries.len() == 0 {
        None
    } else if entries[0].0 == key {
        Some(entries[0].1)
    } else {
        entry_of(entries.skip(1), key)
    }
}

impl JsonView {
    /// The member of an object.
    pub open spec fn get(self, key: Seq<char>) -> Option<JsonView> {
        match self {
            JsonView::Object(entries) => entry_of(entries, key),
            _ => None,
        }
    }

    /// The member of an object, null where there is none.
    pub open spec fn at(self, key: Seq<char>) -> JsonView {
        match self.get(key) {
            Some(v) => v,
            None => JsonView::Null,
        }
    }

    /// The text of a JSON string.
    pub open spec fn as_str(self) -> Option<Seq<char>> {
        match self {
            JsonView::String(s) => Some(s),
            _ => None,
        }
    }

    /// The text of a JSON string, or another text where the value is no string.
    pub open spec fn str_or(self, other: Seq<char>) -> Seq<char> {
        match self {
            JsonView::String(s) => s,
            _ => other,
        }
    }

    /// The value of a whole number that is not negative.
    pub open spec fn as_u64(self) -> Option<u64> {
        match self {
            JsonView::Number(NumberView::Unsigned(n)) => Some(n),
            _ => None,
        }
    }

    /// The value of a whole number that fits in 64 bits with a sign.
    pub open spec fn as_i64(self) -> Option<i64> {
        match self {
            JsonView::Number(NumberView::Unsigned(n)) => if n <= i64::MAX {
                Some(n as i64)
            } else {
                None
            },
            JsonView::Number(NumberView::Signed(n)) => Some(n),
            _ => None,
        }
    }

    /// The whole number that the value is, or another one where it is none.
    pub open spec fn u64_or(self, other: u64) -> u64 {
        match self.as_u64() {
            Some(n) => n,
            None => other,
        }
    }

    /// The truth value.
    pub open spec fn as_bool(self) -> Option<bool> {
        match self {
            JsonView::Bool(b) => Some(b),
            _ => None,
        }
    }

    /// The elements of an array; none where the value is no array.
    pub open spec fn elements(self) -> Seq<JsonView> {
        match self {
            JsonView::Array(a) => a,
            _ => seq![],
        }
    }

    /// The value is an array.
    pub open spec fn is_array(self) -> bool {
        self is Array
    }
}

/// How a number is printed.
pub open spec fn number_text(n: NumberView) -> Seq<char> {
    match n {
        NumberView::Unsigned(n) => dec(n as nat),
        NumberView::Signed(n) => dec_int(n as int),
        NumberView::Float(t) => t,
    }
}

/// The text of a value that is neither array nor object nor null.
pub open spec fn scalar_text(v: JsonView) -> Option<Seq<char>> {
    match v {
        JsonView::String(s) => Some(s),
        JsonView::Number(n) => Some(number_text(n)),
        JsonView::Bool(b) => Some(if b { "true"@ } else { "false"@ }),
        _ => None,
    }
}

proof fn lemma_entry_skip(entries: Seq<(Seq<char>, JsonView)>, key: Seq<char>, i: int)
    requires
        0 <= i < entries.len(),
        entries[i].0 != key,
    ensures
        entry_of(entries.skip(i), key) == entry_of(entries.skip(i + 1), key),
{
    assert(entries.skip(i).skip(1) =~= entries.skip(i + 1));
    assert(entries.skip(i)[0] == entries[i]);
}

impl JsonNumber {
    /// How the number is printed.
    pub fn text(&self) -> (s: String)
        ensures
            s@ == number_text(self@),
    {
        match self {
            JsonNumber::Unsigned(n) => dec_u64(*n),
            JsonNumber::Signed(n) => dec_i64(*n),
            JsonNumber::Float(t) => t.clone(),
        }
    }
}

impl Json {
    /// A JSON string.
    pub fn text(s: &str) -> (v: Json)
        ensures
            v@ == JsonView::String(s@),
    {
        Json::String(s.to_owned())
    }

    /// A whole number that is not negative.
    pub fn number(n: u64) -> (v: Json)
        ensures
            v@ == JsonView::Number(NumberView::Unsigned(n)),
    {
        Json::Number(JsonNumber::Unsigned(n))
    }

    /// A JSON object with these members.
    pub fn object(members: Vec<(String, Json)>) -> (v: Json)
        ensures
            v@ == JsonView::Object(member_views(members@)),
    {
        let v = Json::Object(members);
        assert(v@->Object_0 =~= member_views(members@));
        v
    }

    /// The member of an object.
    pub fn get(&self, key: &str) -> (r: Option<&Json>)
        ensures
            match r {
                Some(v) => self@.get(key@) == Some(v@),
                None => self@.get(key@) is None,
            },
    {
        match self {
            Json::Object(m) => {
                let ghost entries = self@->Object_0;
                let mut i: usize = 0;
                assert(entries.skip(0) =~= entries);
                while i < m.len()
                    invariant
                        *self == Json::Object(*m),
                        entries == self@->Object_0,
                        entries.len() == m@.len(),
                        0 <= i <= m@.len(),
                        entry_of(entries.skip(i as int), key@) == entry_of(entries, key@),
                    decreases m@.len() - i,
                {
                    assert(entries.skip(i as int)[0] == entries[i as int]);
                    if same(m[i].0.as_str(), key) {
                        return Some(&m[i].1);
                    }
                    proof {
                        lemma_entry_skip(entries, key@, i as int);
                    }
                    i += 1;
                }
                None
            },
            _ => None,
        }
    }

    /// The text of the string member with a key.
    pub fn get_str(&self, key: &str) -> (r: Option<&str>)
        ensures
            match r {
                Some(s) => self@.at(key@).as_str() == Some(s@),
                None => self@.at(key@).as_str() is None,
            },
    {
        match self.get(key) {
            Some(v) => v.as_str(),
            None => None,
        }
    }

    /// The text of the string member with a key, or another text.
    pub fn str_or<'a>(&'a self, key: &str, other: &'a str) -> (s: &'a str)
        ensures
            s@ == self@.at(key@).str_or(other@),
    {
        match self.get_str(key) {
            Some(s) => s,
            None => other,
        }
    }

    /// The text of a JSON string.
    pub fn as_str(&self) -> (r: Option<&str>)
        ensures
            match r {
                Some(s) => self@.as_str() == Some(s@),
                None => self@.as_str() is None,
            },
    {
        match self {
            Json::String(s) => Some(s.as_str()),
            _ => None,
        }
    }

    /// The value of a whole number that is not negative.
    pub fn as_u64(&self) -> (r: Option<u64>)
        ensures
            r == self@.as_u64(),
    {
        match self {
            Json::Number(JsonNumber::Unsigned(n)) => Some(*n),
            _ => None,
        }
    }

    /// The value of a whole number that fits in 64 bits with a sign.
    pub fn as_i64(&self) -> (r: Option<i64>)
        ensures
            r == self@.as_i64(),
    {
        match self {
            Json::Number(JsonNumber::Unsigned(n)) => if *n <= 0x7fff_ffff_ffff_ffff {
                Some(*n as i64)
            } else {
                None
            },
            Json::Number(JsonNumber::Signed(n)) => Some(*n),
            _ => None,
        }
    }

    /// The truth value.
    pub fn as_bool(&self) -> (r: Option<bool>)
        ensures
            r == self@.as_bool(),
    {
        match self {
            Json::Bool(b) => Some(*b),
            _ => None,
        }
    }

    /// The elements of an array.
    pub fn as_array(&self) -> (r: Option<&Vec<Json>>)
        ensures
            match r {
                Some(a) => self@.is_array() && self@.elements() == a@.map_values(|v: Json| v@),
                None => !self@.is_array() && self@.elements().len() == 0,
            },
    {
        match self {
            Json::Array(a) => {
                assert(self@.elements() =~= a@.map_values(|v: Json| v@));
                Some(a)
            },
            _ => None,
        }
    }

    /// The text of a value that is neither array nor object nor null.
    pub fn scalar_text(&self) -> (r: Option<String>)
        ensures
            match r {
                Some(s) => scalar_text(self@) == Some(s@),
                None => scalar_text(self@) is None,
            },
    {
        match self {
            Json::String(s) => Some(s.clone()),
            Json::Number(n) => Some(n.text()),
            Json::Bool(b) => Some(if *b { "true".to_owned() } else { "false".to_owned() }),
            _ => None,
        }
    }
}

/// `serde_json::Value`, the parser's own tree.
#[verifier::external_type_specification]
#[verifier::external_body]
pub struct ExValue(serde_json::Value);

/// The JSON value that `serde_json::from_str` reads from a text.
pub uninterp spec fn parsed_json(text: Seq<char>) -> Option<JsonView>;

/// What a parsed tree holds.
pub uninterp spec fn tree_of(v: serde_json::Value) -> JsonView;

/// The JSON value that `serde_json::from_slice` reads from bytes.
pub uninterp spec fn parsed_json_bytes(bytes: Seq<u8>) -> Option<JsonView>;

/// What the tree holds that `serde_json` makes of a value.
pub uninterp spec fn built_tree(v: JsonView) -> JsonView;

/// The text that `serde_json::to_string` writes for a tree.
pub uninterp spec fn printed_tree(v: JsonView) -> Seq<char>;

/// Calls `serde_json::from_str`: whether the text is JSON, and which tree it
/// stands for, depend on the text alone.
#[verifier::external_body]
fn parse_tree(text: &str) -> (r: Option<serde_json::Value>)
    ensures
        match r {
            Some(v) => parsed_json(text@) == Some(tree_of(v)),
            None => parsed_json(text@) is None,
        },
{
    serde_json::from_str(text).ok()
}

/// Calls `serde_json::from_slice`: whether the bytes are JSON, and which tree they
/// stand for, depend on the bytes alone.
#[verifier::external_body]
fn parse_tree_bytes(bytes: &[u8]) -> (r: Option<serde_json::Value>)
    ensures
        match r {
            Some(v) => parsed_json_bytes(bytes@) == Some(tree_of(v)),
            None => parsed_json_bytes(bytes@) is None,
        },
{
    serde_json::from_slice(bytes).ok()
}

/// Hands out what a `serde_json::Value` holds: the same variant, with members and
/// elements in the order in which the tree lists them.
#[verifier::external_body]
fn open_tree(v: serde_json::Value) -> (r: Json)
    ensures
        r@ == tree_of(v),
{
    match v {
        serde_json::Value::Null => Json::Null,
        serde_json::Value::Bool(b) => Json::Bool(b),
        serde_json::Value::Number(n) => Json::Number(match (n.as_u64(), n.as_i64()) {
            (Some(u), _) => JsonNumber::Unsigned(u),
            (None, Some(i)) => JsonNumber::Signed(i),
            (None, None) => JsonNumber::Float(n.to_string()),
        }),
        serde_json::Value::String(s) => Json::String(s),
        serde_json::Value::Array(a) => Json::Array(a.into_iter().map(open_tree).collect()),
        serde_json::Value::Object(m) => Json::Object(m.into_iter().map(|(k, x)| (k, open_tree(x))).collect()),
    }
}

/// Makes a `serde_json::Value` of a value: the same variant, with the parts in
/// `serde_json`'s own numbers and maps. What those keep of the order of members, of a key
/// that is given twice, or of a text that is no number, depends on the value alone and is
/// not stated.
#[verifier::external_body]
fn build_tree(v: &Json) -> (r: serde_json::Value)
    ensures
        tree_of(r) == built_tree(v@),
{
    match v {
        Json::Null => serde_json::Value::Null,
        Json::Bool(b) => serde_json::Value::Bool(*b),
        Json::Number(JsonNumber::Unsigned(u)) => serde_json::Value::from(*u),
        Json::Number(JsonNumber::Signed(i)) => serde_json::Value::from(*i),
        Json::Number(JsonNumber::Float(t)) => serde_json::from_str(t).unwrap_or_default(),
        Json::String(s) => serde_json::Value::String(s.clone()),
        Json::Array(a) => serde_json::Value::Array(a.iter().map(build_tree).collect()),
        Json::Object(m) => serde_json::Value::Object(m.iter().map(|(k, x)| (k.clone(), build_tree(x))).collect()),
    }
}

/// Calls `serde_json::to_string`: the text depends on what the tree holds alone.
#[verifier::external_body]
fn print_tree(v: &serde_json::Value) -> (r: String)
    ensures
        r@ == printed_tree(tree_of(*v)),
{
    serde_json::to_string(v).unwrap_or_default()
}

/// Reads a JSON text.
pub fn parse_json(text: &str) -> (r: Option<Json>)
    ensures
        match r {
            Some(v) => parsed_json(text@) == Some(v@),
            None => parsed_json(text@) is None,
        },
{
    match parse_tree(text) {
        Some(v) => Some(open_tree(v)),
        None => None,
    }
}

/// Reads JSON bytes.
pub fn parse_json_bytes(bytes: &[u8]) -> (r: Option<Json>)
    ensures
        match r {
            Some(v) => parsed_json_bytes(bytes@) == Some(v@),
            None => parsed_json_bytes(bytes@) is None,
        },
{
    match parse_tree_bytes(bytes) {
        Some(v) => Some(open_tree(v)),
        None => None,
    }
}

/// The compact JSON text of a value.
pub open spec fn json_text(v: JsonView) -> Seq<char> {
    printed_tree(built_tree(v))
}

impl Json {
    /// The compact JSON text of the value.
    pub fn to_text(&self) -> (s: String)
        ensures
            s@ == json_text(self@),
    {
        print_tree(&build_tree(self))
    }
}

impl Clone for Json {
    fn clone(&self) -> (r: Self)
        ensures
            r@ == self@,
    {
        self.copy()
    }
}

impl Json {
    /// A value with the same content.
    fn copy(&self) -> (r: Json)
        ensures
            r@ == self@,
        decreases *self,
    {
        match self {
            Json::Null => Json::Null,
            Json::Bool(b) => Json::Bool(*b),
            Json::Number(n) => Json::Number(
                match n {
                    JsonNumber::Unsigned(u) => JsonNumber::Unsigned(*u),
                    JsonNumber::Signed(i) => JsonNumber::Signed(*i),
                    JsonNumber::Float(t) => JsonNumber::Float(t.clone()),
                },
            ),
            Json::String(s) => Json::String(s.clone()),
            Json::Array(a) => {
                let mut out: Vec<Json> = Vec::new();
                let mut i: usize = 0;
                while i < a.len()
                    invariant
                        *self == Json::Array(*a),
                        0 <= i <= a@.len(),
                        out@.len() == i,
                        forall|j: int| 0 <= j < i ==> (#[trigger] out@[j])@ == a@[j]@,
                    decreases a@.len() - i,
                {
                    assert(decreases_to!(*self => self->Array_0));
                    assert(decreases_to!(*a => a[i as int]));
                    out.push(a[i].copy());
                    i += 1;
                }
                let r = Json::Array(out);
                assert(r@->Array_0 =~= self@->Array_0);
                r
            },
            Json::Object(m) => {
                let mut out: Vec<(String, Json)> = Vec::new();
                let mut i: usize = 0;
                while i < m.len()
                    invariant
                        *self == Json::Object(*m),
                        0 <= i <= m@.len(),
                        out@.len() == i,
                        forall|j: int| 0 <= j < i ==> (#[trigger] out@[j]).0@ == m@[j].0@ && out@[j].1@ == m@[j].1@,
                    decreases m@.len() - i,
                {
                    assert(decreases_to!(*self => self->Object_0));
                    assert(decreases_to!(*m => m[i as int]));
                    out.push((m[i].0.clone(), m[i].1.copy()));
                    i += 1;
                }
                let r = Json::Object(out);
                assert(r@->Object_0 =~= self@->Object_0);
                r
            },
        }
    }
}

// ── Laws ────────────────────────────────────────────────────────────

/// A member is read under its name: the first one of the name, wherever it stands.
pub proof fn members_are_read_by_name(
    front: Seq<(Seq<char>, JsonView)>,
    key: Seq<char>,
    value: JsonView,
    rest: Seq<(Seq<char>, JsonView)>,
)
    requires
        forall|i: int| 0 <= i < front.len() ==> (#[trigger] front[i]).0 != key,
    ensures
        JsonView::Object(front + seq![(key, value)] + rest).get(key) == Some(value),
        JsonView::Object(front).get(key) is None,
        JsonView::Object(front + seq![(key, value)] + rest).at(key) == value,
        JsonView::Object(front).at(key) == JsonView::Null,
    decreases front.len(),
{
    let all = front + seq![(key, value)] + rest;
    if front.len() > 0 {
        assert(all[0] == front[0]);
        assert(front[0].0 != key);
        let less = front.skip(1);
        assert forall|i: int| 0 <= i < less.len() implies (#[trigger] less[i]).0 != key by {
            assert(less[i] == front[i + 1]);
        }
        assert(all.skip(1) =~= less + seq![(key, value)] + rest);
        members_are_read_by_name(less, key, value, rest);
    } else {
        assert(all[0] == (key, value));
    }
}

/// A scalar reads as its text: a string as it is, a whole number in decimal, a truth value by
/// its name. Null, arrays and objects have none.
pub proof fn scalars_read_as_their_text(
    s: Seq<char>,
    n: u64,
    m: i64,
    b: bool,
    items: Seq<JsonView>,
    members: Seq<(Seq<char>, JsonView)>,
)
    ensures
        scalar_text(JsonView::String(s)) == Some(s),
        scalar_text(JsonView::Number(NumberView::Unsigned(n))) == Some(dec(n as nat)),
        m < 0 ==> scalar_text(JsonView::Number(NumberView::Signed(m))) == Some(seq!['-'] + dec((-m) as nat)),
        scalar_text(JsonView::Bool(b)) == Some(
            if b {
                "true"@
            } else {
                "false"@
            },
        ),
        scalar_text(JsonView::Null) is None,
        scalar_text(JsonView::Array(items)) is None,
        scalar_text(JsonView::Object(members)) is None,
        JsonView::Number(NumberView::Unsigned(n)).as_u64() == Some(n),
        JsonView::Number(NumberView::Signed(m)).as_i64() == Some(m),
        n <= i64::MAX ==> JsonView::Number(NumberView::Unsigned(n)).as_i64() == Some(n as i64),
        JsonView::String(s).as_str() == Some(s),
        JsonView::Bool(b).as_bool() == Some(b),
        JsonView::Array(items).elements() == items,
{
}

} // verus!
