//! JSON documents, and their exchange with `serde_json`.

use crate::text;
use vstd::hash_map::StringHashMap;
use vstd::prelude::*;

verus! {

/// What a JSON document says. A number is known by its JSON notation.
pub enum JsonView {
    Null,
    Bool(bool),
    Number(Seq<char>),
    Text(Seq<char>),
    Array(Seq<JsonView>),
    Object(Map<Seq<char>, JsonView>),
}

/// A JSON document. Where an object repeats a key, the last entry counts.
#[derive(Debug, PartialEq, Eq)]
pub enum Json {
    Null,
    Bool(bool),
    Number(serde_json::Number),
    Text(String),
    Array(Vec<Json>),
    Object(Vec<(String, Json)>),
}

/// The declaration of `serde_json::Number`, carried as it is.
#[verifier::external_type_specification]
#[verifier::external_body]
pub struct ExNumber(serde_json::Number);

/// The declaration of `serde_json::Value`, the form in which documents enter and
/// leave.
#[verifier::external_type_specification]
#[verifier::external_body]
pub struct ExValue(serde_json::Value);

/// The notation in which `serde_json::Number` writes a number.
pub uninterp spec fn number_text(n: serde_json::Number) -> Seq<char>;

/// What a `serde_json::Value` holds.
pub uninterp spec fn json_shape(v: serde_json::Value) -> JsonView;

/// What `serde_json::from_str` reads in a text: a document, or the message of
/// its error.
pub uninterp spec fn json_parse(text: Seq<char>) -> Result<JsonView, Seq<char>>;

/// The compact text in which `serde_json` writes a document, with the members of
/// an object in ascending order of their keys.
pub uninterp spec fn json_text(v: JsonView) -> Seq<char>;

/// What a document says.
pub open spec fn document(j: Json) -> JsonView
    decreases j,
{
    match j {
        Json::Null => JsonView::Null,
        Json::Bool(b) => JsonView::Bool(b),
        Json::Number(n) => JsonView::Number(number_text(n)),
        Json::Text(s) => JsonView::Text(s@),
        Json::Array(a) => JsonView::Array(documents(a@)),
        Json::Object(o) => JsonView::Object(members(o@)),
    }
}

/// What each document of a list says.
pub open spec fn documents(s: Seq<Json>) -> Seq<JsonView>
    decreases s,
{
    if s.len() == 0 {
        Seq::empty()
    } else {
        documents(s.drop_last()).push(document(s.last()))
    }
}

/// The mapping that a list of entries makes, later entries over earlier ones.
pub open spec fn members(s: Seq<(String, Json)>) -> Map<Seq<char>, JsonView>
    decreases s,
{
    if s.len() == 0 {
        Map::empty()
    } else {
        members(s.drop_last()).insert(s.last().0@, document(s.last().1))
    }
}

impl View for Json {
    type V = JsonView;

    open spec fn view(&self) -> JsonView {
        document(*self)
    }
}

/// One level of a `serde_json::Value`.
pub(crate) enum Opened {
    Null,
    Bool(bool),
    Number(serde_json::Number),
    Text(String),
    Array(Vec<serde_json::Value>),
    Object(Vec<(String, serde_json::Value)>),
}

/// What the values of a list hold.
pub open spec fn shapes(s: Seq<serde_json::Value>) -> Seq<JsonView> {
    Seq::new(s.len(), |i: int| json_shape(s[i]))
}

/// The mapping that a list of entries makes, later entries over earlier ones.
pub open spec fn entry_shapes(s: Seq<(String, serde_json::Value)>) -> Map<Seq<char>, JsonView>
    decreases s.len(),
{
    if s.len() == 0 {
        Map::empty()
    } else {
        entry_shapes(s.drop_last()).insert(s.last().0@, json_shape(s.last().1))
    }
}

/// What an opened value holds.
pub(crate) open spec fn opened_shape(o: Opened) -> JsonView {
    match o {
        Opened::Null => JsonView::Null,
        Opened::Bool(b) => JsonView::Bool(b),
        Opened::Number(n) => JsonView::Number(number_text(n)),
        Opened::Text(s) => JsonView::Text(s@),
        Opened::Array(a) => JsonView::Array(shapes(a@)),
        Opened::Object(o) => JsonView::Object(entry_shapes(o@)),
    }
}

/// Whether no key stands twice in a list of entries.
pub open spec fn keys_differ(s: Seq<(String, serde_json::Value)>) -> bool {
    forall|i: int, j: int| 0 <= i < j < s.len() ==> (#[trigger] s[i]).0@ != (#[trigger] s[j]).0@
}

/// Takes a `serde_json::Value` apart by its variants. What it holds is what the
/// parts hold, and the entries of a `serde_json::Map` have different keys.
#[verifier::external_body]
fn open_value(v: serde_json::Value) -> (r: Opened)
    ensures
        opened_shape(r) == json_shape(v),
        r matches Opened::Object(o) ==> keys_differ(o@),
{
    match v {
        serde_json::Value::Null => Opened::Null,
        serde_json::Value::Bool(b) => Opened::Bool(b),
        serde_json::Value::Number(n) => Opened::Number(n),
        serde_json::Value::String(s) => Opened::Text(s),
        serde_json::Value::Array(a) => Opened::Array(a),
        serde_json::Value::Object(o) => Opened::Object(o.into_iter().collect()),
    }
}

/// Puts a `serde_json::Value` together from its variants' fields; a
/// `serde_json::Map` collected from entries with different keys holds all of them.
#[verifier::external_body]
fn close_value(o: Opened) -> (r: serde_json::Value)
    requires
        o matches Opened::Object(e) ==> keys_differ(e@),
    ensures
        json_shape(r) == opened_shape(o),
{
    match o {
        Opened::Null => serde_json::Value::Null,
        Opened::Bool(b) => serde_json::Value::Bool(b),
        Opened::Number(n) => serde_json::Value::Number(n),
        Opened::Text(s) => serde_json::Value::String(s),
        Opened::Array(a) => serde_json::Value::Array(a),
        Opened::Object(o) => serde_json::Value::Object(o.into_iter().collect()),
    }
}

/// `serde_json::from_str` reads a whole text as one document. Which texts it
/// accepts, what it reads in them and how it words its errors is named, not said.
#[verifier::external_body]
fn parse_value(text: &str) -> (r: Result<serde_json::Value, String>)
    ensures
        match r {
            Ok(v) => json_parse(text@) == Ok::<JsonView, Seq<char>>(json_shape(v)),
            Err(e) => json_parse(text@) == Err::<JsonView, Seq<char>>(e@),
        },
{
    serde_json::from_str::<serde_json::Value>(text).map_err(|err| err.to_string())
}

/// Whether `serde_json` writes `c` inside a string as it is.
pub open spec fn unescaped(c: char) -> bool {
    c >= '\u{20}' && c != '"' && c != '\\'
}

/// The `Display` form of a `serde_json::Value` is its compact text: `null`,
/// `true` and `false`, a number in its notation, and a string between quotes,
/// where characters other than controls, the quote and the backslash stand
/// unchanged. Escapes, arrays and objects are named, not said.
#[verifier::external_body]
fn value_text(v: &serde_json::Value) -> (r: String)
    ensures
        r@ == json_text(json_shape(*v)),
        json_shape(*v) is Null ==> r@ == "null"@,
        json_shape(*v) matches JsonView::Bool(b) ==> r@ == (if b {
            "true"@
        } else {
            "false"@
        }),
        json_shape(*v) matches JsonView::Number(n) ==> r@ == n,
        json_shape(*v) matches JsonView::Text(s) ==> (forall|i: int|
            0 <= i < s.len() ==> unescaped(#[trigger] s[i])) ==> r@ == seq!['"'] + s + seq!['"'],
{
    v.to_string()
}

/// The `Display` form of a `serde_json::Number` is its JSON notation.
#[verifier::external_body]
pub(crate) fn number_display(n: &serde_json::Number) -> (r: String)
    ensures
        r@ == number_text(*n),
{
    n.to_string()
}

/// A cloned `serde_json::Number` is written in the same way.
#[verifier::external_body]
fn number_clone(n: &serde_json::Number) -> (r: serde_json::Number)
    ensures
        number_text(r) == number_text(*n),
{
    n.clone()
}

/// The `serde_json::Number` of an `i64` is written in decimal notation.
#[verifier::external_body]
fn number_from_i64(n: i64) -> (r: serde_json::Number)
    ensures
        number_text(r) == text::decimal(n as int),
{
    serde_json::Number::from(n)
}

// ------------------------------------------------------- reading documents

impl JsonView {
    /// The member `key` of an object.
    pub open spec fn member(self, key: Seq<char>) -> Option<JsonView> {
        match self {
            JsonView::Object(m) => if m.contains_key(key) {
                Some(m[key])
            } else {
                None
            },
            _ => None,
        }
    }

    /// The document that is reached through the members in `path`, one inside
    /// the other.
    pub open spec fn at(self, path: Seq<Seq<char>>) -> Option<JsonView>
        decreases path.len(),
    {
        if path.len() == 0 {
            Some(self)
        } else {
            match self.member(path[0]) {
                Some(inner) => inner.at(path.skip(1)),
                None => None,
            }
        }
    }

    /// The text of a string.
    pub open spec fn text(self) -> Option<Seq<char>> {
        match self {
            JsonView::Text(s) => Some(s),
            _ => None,
        }
    }

    /// The elements of an array.
    pub open spec fn items(self) -> Option<Seq<JsonView>> {
        match self {
            JsonView::Array(a) => Some(a),
            _ => None,
        }
    }

    /// The compact text of the document.
    pub open spec fn rendered(self) -> Seq<char> {
        match self {
            JsonView::Null => "null"@,
            JsonView::Bool(b) => if b {
                "true"@
            } else {
                "false"@
            },
            JsonView::Number(n) => n,
            JsonView::Text(s) => if forall|i: int| 0 <= i < s.len() ==> unescaped(#[trigger] s[i]) {
                seq!['"'] + s + seq!['"']
            } else {
                json_text(self)
            },
            _ => json_text(self),
        }
    }
}

/// The texts of a list of words.
pub open spec fn words(s: Seq<&str>) -> Seq<Seq<char>> {
    Seq::new(s.len(), |i: int| s[i]@)
}

/// What a list of documents says is what each of them says.
pub proof fn lemma_documents(s: Seq<Json>)
    ensures
        documents(s).len() == s.len(),
        forall|i: int| 0 <= i < s.len() ==> #[trigger] documents(s)[i] == document(s[i]),
    decreases s.len(),
{
    if s.len() > 0 {
        lemma_documents(s.drop_last());
    }
}

/// An entry that no later one repeats is what the object says under its key.
proof fn lemma_members_last(s: Seq<(String, Json)>, i: int)
    requires
        0 <= i < s.len(),
        forall|j: int| i < j < s.len() ==> (#[trigger] s[j]).0@ != s[i].0@,
    ensures
        members(s).contains_key(s[i].0@),
        members(s)[s[i].0@] == document(s[i].1),
    decreases s.len(),
{
    if i < s.len() - 1 {
        assert(s.last().0@ != s[i].0@);
        assert forall|j: int| i < j < s.len() - 1 implies (#[trigger] s.drop_last()[j]).0@
            != s.drop_last()[i].0@ by {
            assert(s.drop_last()[j] == s[j]);
        }
        lemma_members_last(s.drop_last(), i);
    }
}

/// A key that no entry has is absent from the object.
proof fn lemma_members_absent(s: Seq<(String, Json)>, key: Seq<char>)
    requires
        forall|j: int| 0 <= j < s.len() ==> (#[trigger] s[j]).0@ != key,
    ensures
        !members(s).contains_key(key),
    decreases s.len(),
{
    if s.len() > 0 {
        assert(s.last().0@ != key);
        assert forall|j: int| 0 <= j < s.len() - 1 implies (#[trigger] s.drop_last()[j]).0@
            != key by {
            assert(s.drop_last()[j] == s[j]);
        }
        lemma_members_absent(s.drop_last(), key);
    }
}

impl Json {
    /// The member `key` of an object.
    pub fn get(&self, key: &str) -> (r: Option<&Json>)
        ensures
            match r {
                Some(v) => self@.member(key@) == Some(v@),
                None => self@.member(key@) is None,
            },
    {
        match self {
            Json::Object(entries) => {
                let mut i: usize = entries.len();
                while i > 0
                    invariant
                        i <= entries@.len(),
                        *self == Json::Object(*entries),
                        forall|j: int| i <= j < entries@.len() ==> (#[trigger] entries@[j]).0@ != key@,
                    decreases i,
                {
                    i -= 1;
                    if text::same_text(entries[i].0.as_str(), key) {
                        proof {
                            lemma_members_last(entries@, i as int);
                        }
                        return Some(&entries[i].1);
                    }
                }
                proof {
                    lemma_members_absent(entries@, key@);
                }
                None
            },
            _ => None,
        }
    }

    /// The document that is reached through the members in `path`.
    pub fn at(&self, path: &[&str]) -> (r: Option<&Json>)
        ensures
            match r {
                Some(v) => self@.at(words(path@)) == Some(v@),
                None => self@.at(words(path@)) is None,
            },
    {
        let mut here: &Json = self;
        let mut i: usize = 0;
        assert(words(path@).skip(0) =~= words(path@));
        while i < path.len()
            invariant
                i <= path@.len(),
                self@.at(words(path@)) == here@.at(words(path@).skip(i as int)),
            decreases path@.len() - i,
        {
            assert(words(path@).skip(i as int).skip(1) =~= words(path@).skip(i + 1));
            match here.get(path[i]) {
                Some(inner) => {
                    here = inner;
                },
                None => {
                    return None;
                },
            }
            i += 1;
        }
        Some(here)
    }

    /// The text of a string.
    pub fn as_str(&self) -> (r: Option<&str>)
        ensures
            match r {
                Some(s) => self@.text() == Some(s@),
                None => self@.text() is None,
            },
    {
        match self {
            Json::Text(s) => Some(s.as_str()),
            _ => None,
        }
    }

    /// The elements of an array.
    pub fn as_array(&self) -> (r: Option<&Vec<Json>>)
        ensures
            match r {
                Some(a) => self@.items() == Some(documents(a@)),
                None => self@.items() is None,
            },
    {
        match self {
            Json::Array(a) => Some(a),
            _ => None,
        }
    }
}

// --------------------------------------------------- copies and conversions

impl Clone for Json {
    /// A copy that says the same.
    fn clone(&self) -> (r: Self)
        ensures
            r@ == self@,
        decreases *self,
    {
        match self {
            Json::Null => Json::Null,
            Json::Bool(b) => Json::Bool(*b),
            Json::Number(n) => Json::Number(number_clone(n)),
            Json::Text(s) => Json::Text(s.clone()),
            Json::Array(a) => {
                let mut out: Vec<Json> = Vec::new();
                let mut i: usize = 0;
                while i < a.len()
                    invariant
                        i <= a@.len(),
                        *self == Json::Array(*a),
                        documents(out@) == documents(a@.take(i as int)),
                    decreases a@.len() - i,
                {
                    assert(decreases_to!(*self => self->Array_0));
                    assert(decreases_to!(*a => a@));
                    assert(decreases_to!(a@ => a@[i as int]));
                    let item: Json = a[i].clone();
                    proof {
                        assert(a@.take(i + 1).drop_last() =~= a@.take(i as int));
                        assert(out@.push(item).drop_last() =~= out@);
                    }
                    out.push(item);
                    i += 1;
                }
                assert(a@.take(i as int) =~= a@);
                Json::Array(out)
            },
            Json::Object(o) => {
                let mut out: Vec<(String, Json)> = Vec::new();
                let mut i: usize = 0;
                while i < o.len()
                    invariant
                        i <= o@.len(),
                        *self == Json::Object(*o),
                        members(out@) == members(o@.take(i as int)),
                    decreases o@.len() - i,
                {
                    let key: String = o[i].0.clone();
                    assert(decreases_to!(*self => self->Object_0));
                    assert(decreases_to!(*o => o@));
                    assert(decreases_to!(o@ => o@[i as int]));
                    assert(decreases_to!(o@[i as int] => o@[i as int].1));
                    let item: Json = o[i].1.clone();
                    proof {
                        assert(o@.take(i + 1).drop_last() =~= o@.take(i as int));
                        assert(out@.push((key, item)).drop_last() =~= out@);
                    }
                    out.push((key, item));
                    i += 1;
                }
                assert(o@.take(i as int) =~= o@);
                Json::Object(out)
            },
        }
    }
}

/// Entries with different keys are all there in the mapping that they make.
proof fn lemma_entry_shapes(s: Seq<(String, serde_json::Value)>)
    requires
        keys_differ(s),
    ensures
        entry_shapes(s).dom().finite(),
        forall|i: int|
            0 <= i < s.len() ==> {
                &&& entry_shapes(s).contains_key((#[trigger] s[i]).0@)
                &&& entry_shapes(s)[s[i].0@] == json_shape(s[i].1)
            },
    decreases s.len(),
{
    if s.len() > 0 {
        let front = s.drop_last();
        assert forall|i: int, j: int| 0 <= i < j < front.len() implies (#[trigger] front[i]).0@
            != (#[trigger] front[j]).0@ by {
            assert(front[i] == s[i] && front[j] == s[j]);
        }
        lemma_entry_shapes(front);
        assert forall|i: int| 0 <= i < s.len() implies {
            &&& entry_shapes(s).contains_key((#[trigger] s[i]).0@)
            &&& entry_shapes(s)[s[i].0@] == json_shape(s[i].1)
        } by {
            if i < front.len() {
                assert(front[i] == s[i]);
                assert(s[i].0@ != s[s.len() - 1].0@);
            }
        }
    }
}

impl Json {
    /// Reads a `serde_json::Value` into a document.
    pub fn from_value(v: serde_json::Value) -> (r: Json)
        ensures
            r@ == json_shape(v),
        decreases json_shape(v),
    {
        match open_value(v) {
            Opened::Null => Json::Null,
            Opened::Bool(b) => Json::Bool(b),
            Opened::Number(n) => Json::Number(n),
            Opened::Text(s) => Json::Text(s),
            Opened::Array(a) => {
                let ghost all = a@;
                let mut out: Vec<Json> = Vec::new();
                assert(documents(out@) =~= shapes(all).take(0));
                for item in it: a
                    invariant
                        it.seq() == all,
                        json_shape(v) == JsonView::Array(shapes(all)),
                        documents(out@) == shapes(all).take(it.index() as int),
                {
                    assert(decreases_to!(json_shape(v) => json_shape(v)->Array_0));
                    assert(decreases_to!(shapes(all) => shapes(all)[it.index() as int]));
                    let next: Json = Json::from_value(item);
                    proof {
                        assert(out@.push(next).drop_last() =~= out@);
                        assert(shapes(all).take(it.index() + 1) =~= shapes(all).take(
                            it.index() as int,
                        ).push(shapes(all)[it.index() as int]));
                    }
                    out.push(next);
                }
                assert(shapes(all).take(all.len() as int) =~= shapes(all));
                Json::Array(out)
            },
            Opened::Object(o) => {
                let ghost all = o@;
                let mut out: Vec<(String, Json)> = Vec::new();
                proof {
                    lemma_entry_shapes(all);
                }
                for entry in it: o
                    invariant
                        it.seq() == all,
                        json_shape(v) == JsonView::Object(entry_shapes(all)),
                        entry_shapes(all).dom().finite(),
                        forall|i: int|
                            0 <= i < all.len() ==> {
                                &&& entry_shapes(all).contains_key((#[trigger] all[i]).0@)
                                &&& entry_shapes(all)[all[i].0@] == json_shape(all[i].1)
                            },
                        members(out@) == entry_shapes(all.take(it.index() as int)),
                {
                    let ghost here = all[it.index() as int];
                    assert(decreases_to!(json_shape(v) => json_shape(v)->Object_0));
                    assert(decreases_to!(entry_shapes(all) => entry_shapes(all)[here.0@]));
                    let (key, value): (String, serde_json::Value) = entry;
                    let next: Json = Json::from_value(value);
                    proof {
                        assert(all.take(it.index() + 1).drop_last() =~= all.take(it.index() as int));
                        assert(out@.push((key, next)).drop_last() =~= out@);
                    }
                    out.push((key, next));
                }
                assert(all.take(all.len() as int) =~= all);
                Json::Object(out)
            },
        }
    }

    /// Writes a document as a `serde_json::Value`.
    pub fn to_value(&self) -> (r: serde_json::Value)
        ensures
            json_shape(r) == self@,
        decreases *self,
    {
        match self {
            Json::Null => close_value(Opened::Null),
            Json::Bool(b) => close_value(Opened::Bool(*b)),
            Json::Number(n) => close_value(Opened::Number(number_clone(n))),
            Json::Text(s) => close_value(Opened::Text(s.clone())),
            Json::Array(a) => {
                let mut out: Vec<serde_json::Value> = Vec::new();
                let mut i: usize = 0;
                proof {
                    lemma_documents(a@);
                }
                while i < a.len()
                    invariant
                        i <= a@.len(),
                        *self == Json::Array(*a),
                        documents(a@).len() == a@.len(),
                        forall|k: int|
                            0 <= k < a@.len() ==> #[trigger] documents(a@)[k] == document(a@[k]),
                        shapes(out@) == documents(a@).take(i as int),
                    decreases a@.len() - i,
                {
                    assert(decreases_to!(*self => self->Array_0));
                    assert(decreases_to!(*a => a@));
                    assert(decreases_to!(a@ => a@[i as int]));
                    let item: serde_json::Value = a[i].to_value();
                    proof {
                        assert(shapes(out@.push(item)) =~= shapes(out@).push(json_shape(item)));
                        assert(documents(a@).take(i + 1) =~= documents(a@).take(i as int).push(
                            documents(a@)[i as int],
                        ));
                    }
                    out.push(item);
                    i += 1;
                }
                assert(documents(a@).take(i as int) =~= documents(a@));
                close_value(Opened::Array(out))
            },
            Json::Object(o) => {
                let mut out: Vec<(String, serde_json::Value)> = Vec::new();
                let mut seen: StringHashMap<bool> = StringHashMap::new();
                let mut i: usize = o.len();
                proof {
                    assert(o@.take(i as int) =~= o@);
                    assert(members(o@).union_prefer_right(entry_shapes(out@)) =~= members(o@));
                }
                while i > 0
                    invariant
                        i <= o@.len(),
                        *self == Json::Object(*o),
                        keys_differ(out@),
                        forall|j: int|
                            0 <= j < out@.len() ==> seen@.contains_key((#[trigger] out@[j]).0@),
                        forall|k: Seq<char>| #[trigger]
                            seen@.contains_key(k) <==> entry_shapes(out@).contains_key(k),
                        members(o@) == members(o@.take(i as int)).union_prefer_right(
                            entry_shapes(out@),
                        ),
                    decreases i,
                {
                    i -= 1;
                    let ghost before = members(o@.take(i as int));
                    let ghost right = entry_shapes(out@);
                    assert(o@.take(i + 1).drop_last() =~= o@.take(i as int));
                    if seen.contains_key(o[i].0.as_str()) {
                        assert(before.insert(o@[i as int].0@, document(o@[i as int].1))
                            .union_prefer_right(right) =~= before.union_prefer_right(right));
                        continue;
                    }
                    assert(decreases_to!(*self => self->Object_0));
                    assert(decreases_to!(*o => o@));
                    assert(decreases_to!(o@ => o@[i as int]));
                    assert(decreases_to!(o@[i as int] => o@[i as int].1));
                    let key: String = o[i].0.clone();
                    let item: serde_json::Value = o[i].1.to_value();
                    seen.insert(o[i].0.clone(), true);
                    proof {
                        let doc = document(o@[i as int].1);
                        assert(out@.push((key, item)).drop_last() =~= out@);
                        assert(before.insert(key@, doc).union_prefer_right(right)
                            =~= before.union_prefer_right(right.insert(key@, doc)));
                    }
                    out.push((key, item));
                }
                proof {
                    assert(o@.take(0) =~= Seq::<(String, Json)>::empty());
                    assert(members(o@) =~= entry_shapes(out@));
                }
                close_value(Opened::Object(out))
            },
        }
    }

    /// Reads a text as one JSON document, or gives the reader's error message.
    pub fn parse(text: &str) -> (r: Result<Json, String>)
        ensures
            match r {
                Ok(j) => json_parse(text@) == Ok::<JsonView, Seq<char>>(j@),
                Err(e) => json_parse(text@) == Err::<JsonView, Seq<char>>(e@),
            },
    {
        match parse_value(text) {
            Ok(v) => Ok(Json::from_value(v)),
            Err(e) => Err(e),
        }
    }

    /// The compact text of the document.
    pub fn to_text(&self) -> (r: String)
        ensures
            r@ == self@.rendered(),
    {
        let v: serde_json::Value = self.to_value();
        value_text(&v)
    }

    /// The document of an integer.
    pub fn from_i64(n: i64) -> (r: Json)
        ensures
            r@ == JsonView::Number(text::decimal(n as int)),
    {
        Json::Number(number_from_i64(n))
    }
}

// -------------------------------------------------------- writing documents

/// Sets the member `key` of an object.
pub fn put(entries: &mut Vec<(String, Json)>, key: &str, value: Json)
    ensures
        members(final(entries)@) == members(old(entries)@).insert(key@, value@),
{
    entries.push((key.to_string(), value));
    assert(entries@.drop_last() =~= old(entries)@);
}

/// Sets the member `key` of an object to a text.
pub fn put_text(entries: &mut Vec<(String, Json)>, key: &str, value: &str)
    ensures
        members(final(entries)@) == members(old(entries)@).insert(key@, JsonView::Text(value@)),
{
    put(entries, key, Json::Text(value.to_string()));
}

// --------------------------------------------------------------------- laws

/// What a document says is made of what its parts say: the elements of an array
/// in their order, and the entries of an object by their keys.
pub proof fn documents_say_their_parts(
    b: bool,
    n: serde_json::Number,
    s: String,
    a: Vec<Json>,
    o: Vec<(String, Json)>,
)
    ensures
        Json::Null@ == JsonView::Null,
        Json::Bool(b)@ == JsonView::Bool(b),
        Json::Number(n)@ == JsonView::Number(number_text(n)),
        Json::Text(s)@ == JsonView::Text(s@),
        Json::Array(a)@ matches JsonView::Array(items) && items.len() == a@.len() && forall|i: int|
            0 <= i < items.len() ==> #[trigger] items[i] == a@[i]@,
        Json::Object(o)@ == JsonView::Object(members(o@)),
{
    lemma_documents(a@);
}

/// The last entry of a key is what an object says under it, and every other key is
/// as it was without that entry.
pub proof fn the_last_entry_counts(entries: Seq<(String, Json)>, key: String, value: Json)
    ensures
        members(Seq::empty()).dom() == Set::<Seq<char>>::empty(),
        members(entries.push((key, value))).contains_key(key@),
        members(entries.push((key, value)))[key@] == value@,
        forall|other: Seq<char>|
            other != key@ ==> (#[trigger] members(entries.push((key, value))).contains_key(other)
                <==> members(entries).contains_key(other)),
        forall|other: Seq<char>|
            other != key@ ==> #[trigger] members(entries.push((key, value)))[other] == members(
                entries,
            )[other],
{
    assert(entries.push((key, value)).drop_last() =~= entries);
    assert(members(Seq::empty()).dom() =~= Set::<Seq<char>>::empty());
}

/// A member is found under its key alone, and only in an object; a path leads
/// through one member after the other.
pub proof fn members_are_found_by_their_keys(
    v: JsonView,
    m: Map<Seq<char>, JsonView>,
    key: Seq<char>,
    path: Seq<Seq<char>>,
)
    ensures
        m.contains_key(key) ==> JsonView::Object(m).member(key) == Some(m[key]),
        !m.contains_key(key) ==> JsonView::Object(m).member(key) is None,
        v !is Object ==> v.member(key) is None,
        v.at(Seq::empty()) == Some(v),
        v.member(key) matches Some(inner) ==> v.at(seq![key] + path) == inner.at(path),
        v.member(key) is None ==> v.at(seq![key] + path) is None,
{
    assert((seq![key] + path).skip(1) =~= path);
}

/// Only a string has a text, and only an array has elements.
pub proof fn texts_and_elements_are_as_they_stand(v: JsonView, s: Seq<char>, a: Seq<JsonView>)
    ensures
        JsonView::Text(s).text() == Some(s),
        v !is Text ==> v.text() is None,
        JsonView::Array(a).items() == Some(a),
        v !is Array ==> v.items() is None,
{
}

/// The text of a document: the words for null and the truth values, a number's own
/// notation, and a string between quotes where nothing in it needs an escape.
pub proof fn plain_values_are_written_plainly(n: Seq<char>, s: Seq<char>, v: JsonView)
    ensures
        JsonView::Null.rendered() == "null"@,
        JsonView::Bool(true).rendered() == "true"@,
        JsonView::Bool(false).rendered() == "false"@,
        JsonView::Number(n).rendered() == n,
        (forall|i: int|
            0 <= i < s.len() ==> (#[trigger] s[i]) as int >= 32 && s[i] as int != 34 && s[i] as int
                != 92) ==> JsonView::Text(s).rendered() == seq!['"'] + s + seq!['"'],
        v is Array || v is Object ==> v.rendered() == json_text(v),
{
    if forall|i: int|
        0 <= i < s.len() ==> (#[trigger] s[i]) as int >= 32 && s[i] as int != 34 && s[i] as int
            != 92 {
        assert(forall|i: int| 0 <= i < s.len() ==> unescaped(#[trigger] s[i]));
    }
}

} // verus!
